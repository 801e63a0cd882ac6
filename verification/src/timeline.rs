//! Interval arithmetic behind work-time correction. Instants are nanoseconds
//! since the Unix epoch; a span `(start, end)` is the half-open range
//! `start <= t < end`.

use vstd::prelude::*;

verus! {

/// Largest magnitude an instant or a duration may have here (2^100 ns).
pub open spec fn limit() -> int {
    0x10_0000_0000_0000_0000_0000_0000
}

pub open spec fn bounded(x: int) -> bool {
    -limit() <= x <= limit()
}

pub open spec fn spans_bounded(spans: Seq<(i128, i128)>) -> bool {
    forall|i: int| 0 <= i < spans.len() ==> bounded(spans[i].0 as int) && bounded(spans[i].1 as int)
}

/// Whether instant `t` lies in one of `spans`.
pub open spec fn covers(spans: Seq<(i128, i128)>, t: int) -> bool {
    exists|i: int| 0 <= i < spans.len() && (#[trigger] spans[i]).0 <= t < spans[i].1
}

/// Spans ordered by start.
pub open spec fn sorted_by_start(spans: Seq<(i128, i128)>) -> bool {
    forall|i: int, j: int| 0 <= i < j < spans.len() ==> spans[i].0 <= spans[j].0
}

/// Non-empty spans in increasing order, each ending strictly before the next begins.
pub open spec fn separated(spans: Seq<(i128, i128)>) -> bool {
    &&& forall|i: int| 0 <= i < spans.len() ==> spans[i].0 < spans[i].1
    &&& forall|i: int, j: int| 0 <= i < j < spans.len() ==> spans[i].1 < spans[j].0
}

/// Every span lies inside `[lo, hi]`.
pub open spec fn within(spans: Seq<(i128, i128)>, lo: int, hi: int) -> bool {
    forall|i: int| 0 <= i < spans.len() ==> lo <= spans[i].0 && spans[i].1 <= hi
}

/// The part of span `s` inside `[lo, hi]` (possibly empty).
pub open spec fn clip(s: (i128, i128), lo: i128, hi: i128) -> (i128, i128) {
    (if s.0 < lo { lo } else { s.0 }, if s.1 > hi { hi } else { s.1 })
}

/// Whether `t` lies in the clipped part of one of `raw`.
pub open spec fn covers_clipped(raw: Seq<(i128, i128)>, lo: i128, hi: i128, t: int) -> bool {
    exists|i: int| 0 <= i < raw.len() && clip(#[trigger] raw[i], lo, hi).0 <= t < clip(raw[i], lo, hi).1
}

/// Total length of `spans`.
pub open spec fn total(spans: Seq<(i128, i128)>) -> int
    decreases spans.len(),
{
    if spans.len() == 0 {
        0
    } else {
        (spans[0].1 - spans[0].0) + total(spans.drop_first())
    }
}

/// The latest stretch of total length `target` taken from `windows`: the last
/// windows whole, and the tail of the window where the stretch begins.
pub open spec fn latest_of(windows: Seq<(i128, i128)>, target: int, k: int) -> Seq<(i128, i128)> {
    let rest = windows.skip(k + 1);
    let need = target - total(rest);
    seq![((windows[k].1 - need) as i128, windows[k].1)] + rest
}

/// The position of the window in which the latest stretch of length `target` begins.
pub open spec fn starts_in(windows: Seq<(i128, i128)>, target: int, k: int) -> bool {
    0 <= k < windows.len() && total(windows.skip(k + 1)) < target <= total(windows.skip(k))
}

/// The latest stretch of total length `target` within `windows`.
pub open spec fn latest_spans(windows: Seq<(i128, i128)>, target: int) -> Seq<(i128, i128)> {
    latest_of(windows, target, choose|k: int| starts_in(windows, target, k))
}

/// `w` is the set of gaps of `[lower, upper)` that the clipped parts of `raw`
/// leave, as separated spans.
pub open spec fn free_of(w: Seq<(i128, i128)>, raw: Seq<(i128, i128)>, lower: i128, upper: i128) -> bool {
    &&& separated(w)
    &&& within(w, lower as int, upper as int)
    &&& forall|t: int| covers(w, t) <==> (lower <= t < upper && !covers_clipped(raw, lower, upper, t))
}

/// The gaps of `[lower, upper)` that the clipped parts of `raw` leave.
pub open spec fn free_windows(raw: Seq<(i128, i128)>, lower: i128, upper: i128) -> Seq<(i128, i128)> {
    choose|w: Seq<(i128, i128)>| free_of(w, raw, lower, upper)
}

/// The gaps are determined by the spans they avoid.
pub proof fn lemma_free_windows(w: Seq<(i128, i128)>, raw: Seq<(i128, i128)>, lower: i128, upper: i128)
    requires
        free_of(w, raw, lower, upper),
    ensures
        free_windows(raw, lower, upper) == w,
{
    let c = free_windows(raw, lower, upper);
    assert(free_of(c, raw, lower, upper));
    lemma_separated_unique(w, c);
}

/// The window where the latest stretch begins is determined by the windows.
pub proof fn lemma_starts_in_unique(windows: Seq<(i128, i128)>, target: int, k: int)
    requires
        separated(windows),
        starts_in(windows, target, k),
    ensures
        latest_spans(windows, target) == latest_of(windows, target, k),
{
    let c = choose|j: int| starts_in(windows, target, j);
    assert(starts_in(windows, target, c));
    if c < k {
        let s = windows.skip(c + 1);
        lemma_total_skip_mono(s, k - c - 1);
        assert(s.skip(k - c - 1) =~= windows.skip(k));
    } else if k < c {
        let s = windows.skip(k + 1);
        lemma_total_skip_mono(s, c - k - 1);
        assert(s.skip(c - k - 1) =~= windows.skip(c));
    }
}

proof fn lemma_total_skip(s: Seq<(i128, i128)>, k: int)
    requires
        0 <= k < s.len(),
    ensures
        total(s.skip(k)) == (s[k].1 - s[k].0) + total(s.skip(k + 1)),
{
    assert(s.skip(k).drop_first() =~= s.skip(k + 1));
}

/// Sorts spans by start, keeping the order of spans with equal starts.
pub fn sort_by_start(spans: Vec<(i128, i128)>) -> (out: Vec<(i128, i128)>)
    ensures
        out@.len() == spans@.len(),
        sorted_by_start(out@),
        forall|i: int| 0 <= i < spans@.len() ==> out@.contains(#[trigger] spans@[i]),
        forall|i: int| 0 <= i < out@.len() ==> spans@.contains(#[trigger] out@[i]),
{
    let mut out: Vec<(i128, i128)> = Vec::new();
    let mut k: usize = 0;
    while k < spans.len()
        invariant
            k <= spans@.len(),
            out@.len() == k,
            sorted_by_start(out@),
            forall|i: int| 0 <= i < k ==> out@.contains(#[trigger] spans@[i]),
            forall|i: int| 0 <= i < out@.len() ==> spans@.contains(#[trigger] out@[i]),
        decreases spans@.len() - k,
    {
        let item = spans[k];
        let mut pos: usize = out.len();
        while pos > 0 && out[pos - 1].0 > item.0
            invariant
                pos <= out@.len(),
                sorted_by_start(out@),
                forall|j: int| pos <= j < out@.len() ==> out@[j].0 > item.0,
            decreases pos,
        {
            pos = pos - 1;
        }
        let ghost before = out@;
        out.insert(pos, item);
        proof {
            assert(out@ == before.insert(pos as int, item));
            assert forall|i: int, j: int| 0 <= i < j < out@.len() implies out@[i].0 <= out@[j].0 by {
                if j < pos {
                } else if j == pos {
                    if i < pos {
                        assert(pos > 0);
                        assert(before[pos - 1].0 <= item.0);
                        assert(before[i].0 <= before[pos - 1].0);
                    }
                } else if i < pos {
                    assert(out@[j] == before[j - 1]);
                } else if i == pos {
                    assert(out@[j] == before[j - 1]);
                } else {
                    assert(out@[j] == before[j - 1]);
                    assert(out@[i] == before[i - 1]);
                }
            }
            assert forall|i: int| 0 <= i < k + 1 implies out@.contains(#[trigger] spans@[i]) by {
                if i == k {
                    assert(out@[pos as int] == item);
                } else {
                    let w = choose|w: int| 0 <= w < before.len() && #[trigger] before[w] == spans@[i];
                    if w < pos {
                        assert(out@[w] == spans@[i]);
                    } else {
                        assert(out@[w + 1] == spans@[i]);
                    }
                }
            }
            assert forall|i: int| 0 <= i < out@.len() implies spans@.contains(#[trigger] out@[i]) by {
                if i < pos {
                    assert(out@[i] == before[i]);
                } else if i == pos {
                    assert(spans@[k as int] == item);
                } else {
                    assert(out@[i] == before[i - 1]);
                }
            }
        }
        k = k + 1;
    }
    out
}

/// Merges spans sorted by start into the separated spans that cover the same instants.
pub fn merge_sorted(sorted: Vec<(i128, i128)>, lo: i128, hi: i128) -> (merged: Vec<(i128, i128)>)
    requires
        sorted_by_start(sorted@),
        within(sorted@, lo as int, hi as int),
        forall|i: int| 0 <= i < sorted@.len() ==> sorted@[i].0 < sorted@[i].1,
    ensures
        separated(merged@),
        forall|t: int| covers(merged@, t) <==> covers(sorted@, t),
        within(merged@, lo as int, hi as int),
{
    let mut merged: Vec<(i128, i128)> = Vec::new();
    let mut k: usize = 0;
    while k < sorted.len()
        invariant
            k <= sorted@.len(),
            sorted_by_start(sorted@),
            forall|i: int| 0 <= i < sorted@.len() ==> sorted@[i].0 < sorted@[i].1,
            separated(merged@),
            forall|t: int| covers(merged@, t) <==> covers(sorted@.take(k as int), t),
            k > 0 ==> merged@.len() > 0,
            k == 0 ==> merged@.len() == 0,
            k > 0 ==> forall|i: int| 0 <= i < k ==> sorted@[i].1 <= merged@.last().1,
            k > 0 ==> merged@.last().0 <= sorted@[k - 1].0,
            within(sorted@, lo as int, hi as int),
            within(merged@, lo as int, hi as int),
        decreases sorted@.len() - k,
    {
        let (start, end) = sorted[k];
        let ghost prev = merged@;
        let ghost taken = sorted@.take(k as int);
        let ghost taken1 = sorted@.take(k + 1);
        proof {
            assert(taken1 =~= taken.push((start, end)));
            if k > 0 {
                assert(sorted@[k - 1].0 <= sorted@[k as int].0);
            }
        }
        let n = merged.len();
        if n > 0 && start <= merged[n - 1].1 {
            let last = merged[n - 1];
            let new_end = if end > last.1 { end } else { last.1 };
            merged.set(n - 1, (last.0, new_end));
            proof {
                assert forall|t: int| covers(merged@, t) <==> covers(taken1, t) by {
                    if covers(merged@, t) {
                        let i = choose|i: int| 0 <= i < merged@.len() && (#[trigger] merged@[i]).0 <= t < merged@[i].1;
                        if i < n - 1 {
                            assert(prev[i] == merged@[i]);
                            assert(covers(prev, t));
                            let w = choose|w: int| 0 <= w < taken.len() && (#[trigger] taken[w]).0 <= t < taken[w].1;
                            assert(taken1[w] == taken[w]);
                        } else if t < last.1 {
                            assert(covers(prev, t));
                            let w = choose|w: int| 0 <= w < taken.len() && (#[trigger] taken[w]).0 <= t < taken[w].1;
                            assert(taken1[w] == taken[w]);
                        } else {
                            assert(taken1[k as int] == (start, end));
                        }
                    }
                    if covers(taken1, t) {
                        let w = choose|w: int| 0 <= w < taken1.len() && (#[trigger] taken1[w]).0 <= t < taken1[w].1;
                        if w < k {
                            assert(taken[w] == taken1[w]);
                            assert(covers(taken, t));
                            assert(covers(prev, t));
                            let i = choose|i: int| 0 <= i < prev.len() && (#[trigger] prev[i]).0 <= t < prev[i].1;
                            if i < n - 1 {
                                assert(merged@[i] == prev[i]);
                            } else {
                                assert(merged@[n - 1].0 <= t < merged@[n - 1].1);
                            }
                        } else {
                            assert(merged@[n - 1].0 <= t < merged@[n - 1].1);
                        }
                    }
                }
            }
        } else {
            merged.push((start, end));
            proof {
                assert forall|t: int| covers(merged@, t) <==> covers(taken1, t) by {
                    if covers(merged@, t) {
                        let i = choose|i: int| 0 <= i < merged@.len() && (#[trigger] merged@[i]).0 <= t < merged@[i].1;
                        if i < n {
                            assert(prev[i] == merged@[i]);
                            assert(covers(prev, t));
                            let w = choose|w: int| 0 <= w < taken.len() && (#[trigger] taken[w]).0 <= t < taken[w].1;
                            assert(taken1[w] == taken[w]);
                        } else {
                            assert(taken1[k as int] == (start, end));
                        }
                    }
                    if covers(taken1, t) {
                        let w = choose|w: int| 0 <= w < taken1.len() && (#[trigger] taken1[w]).0 <= t < taken1[w].1;
                        if w < k {
                            assert(taken[w] == taken1[w]);
                            assert(covers(taken, t));
                            assert(covers(prev, t));
                            let i = choose|i: int| 0 <= i < prev.len() && (#[trigger] prev[i]).0 <= t < prev[i].1;
                            assert(merged@[i] == prev[i]);
                        } else {
                            assert(merged@[n as int] == (start, end));
                        }
                    }
                }
            }
        }
        k = k + 1;
    }
    proof {
        assert(sorted@.take(sorted@.len() as int) =~= sorted@);
    }
    merged
}

/// The block spans of a correction, clipped: the separated spans covering
/// exactly the instants that the parts of `raw` inside `[lower, upper]`
/// cover: clip, drop empty parts, sort, merge spans that touch or overlap.
/// The result is sorted by start, each span non-empty, each ending strictly
/// before the next begins, all inside the bounds.
pub fn merge_spans(raw: &Vec<(i128, i128)>, lower: i128, upper: i128) -> (merged: Vec<(i128, i128)>)
    requires
        lower <= upper,
    ensures
        sorted_by_start(merged@),
        separated(merged@),
        within(merged@, lower as int, upper as int),
        forall|t: int| covers(merged@, t) <==> covers_clipped(raw@, lower, upper, t),
{
    let mut clipped: Vec<(i128, i128)> = Vec::new();
    let mut k: usize = 0;
    while k < raw.len()
        invariant
            k <= raw@.len(),
            lower <= upper,
            within(clipped@, lower as int, upper as int),
            forall|i: int| 0 <= i < clipped@.len() ==> clipped@[i].0 < clipped@[i].1,
            forall|t: int| covers(clipped@, t) <==> covers_clipped(raw@.take(k as int), lower, upper, t),
        decreases raw@.len() - k,
    {
        let (s, e) = raw[k];
        let start = if s < lower { lower } else { s };
        let end = if e > upper { upper } else { e };
        let ghost prev = clipped@;
        let ghost taken = raw@.take(k as int);
        let ghost taken1 = raw@.take(k + 1);
        proof {
            assert(taken1 =~= taken.push((s, e)));
            assert(clip(taken1[k as int], lower, upper) == (start, end));
        }
        if start < end {
            clipped.push((start, end));
        }
        proof {
            assert forall|t: int| covers(clipped@, t) <==> covers_clipped(taken1, lower, upper, t) by {
                if covers(clipped@, t) {
                    let i = choose|i: int| 0 <= i < clipped@.len() && (#[trigger] clipped@[i]).0 <= t < clipped@[i].1;
                    if i < prev.len() {
                        assert(clipped@[i] == prev[i]);
                        assert(covers(prev, t));
                        let w = choose|w: int| 0 <= w < taken.len() && clip(#[trigger] taken[w], lower, upper).0 <= t < clip(taken[w], lower, upper).1;
                        assert(taken1[w] == taken[w]);
                    }
                }
                if covers_clipped(taken1, lower, upper, t) {
                    let w = choose|w: int| 0 <= w < taken1.len() && clip(#[trigger] taken1[w], lower, upper).0 <= t < clip(taken1[w], lower, upper).1;
                    if w < k {
                        assert(taken1[w] == taken[w]);
                        assert(covers_clipped(taken, lower, upper, t));
                        assert(covers(prev, t));
                        let i = choose|i: int| 0 <= i < prev.len() && (#[trigger] prev[i]).0 <= t < prev[i].1;
                        assert(clipped@[i] == prev[i]);
                    } else {
                        assert(clipped@[clipped@.len() - 1] == (start, end));
                    }
                }
            }
        }
        k = k + 1;
    }
    proof {
        assert(raw@.take(raw@.len() as int) =~= raw@);
    }
    let sorted = sort_by_start(clipped);
    proof {
        assert forall|t: int| covers(sorted@, t) <==> covers(clipped@, t) by {
            if covers(sorted@, t) {
                let i = choose|i: int| 0 <= i < sorted@.len() && (#[trigger] sorted@[i]).0 <= t < sorted@[i].1;
                assert(clipped@.contains(sorted@[i]));
            }
            if covers(clipped@, t) {
                let i = choose|i: int| 0 <= i < clipped@.len() && (#[trigger] clipped@[i]).0 <= t < clipped@[i].1;
                assert(sorted@.contains(clipped@[i]));
            }
        }
        assert forall|i: int| 0 <= i < sorted@.len() implies lower <= sorted@[i].0 && sorted@[i].1 <= upper
            && sorted@[i].0 < sorted@[i].1 by {
            assert(clipped@.contains(sorted@[i]));
        }
    }
    let merged = merge_sorted(sorted, lower, upper);
    proof {
        assert forall|i: int, j: int| 0 <= i < j < merged@.len() implies merged@[i].0 <= merged@[j].0 by {
            assert(merged@[i].0 < merged@[i].1 && merged@[i].1 < merged@[j].0);
        }
    }
    merged
}

/// The gaps of `[lower, upper)` that none of `blocks` covers.
pub fn available_windows(lower: i128, upper: i128, blocks: &Vec<(i128, i128)>) -> (windows: Vec<(i128, i128)>)
    requires
        lower <= upper,
        separated(blocks@),
        within(blocks@, lower as int, upper as int),
    ensures
        separated(windows@),
        within(windows@, lower as int, upper as int),
        forall|t: int| lower <= t < upper ==> (covers(windows@, t) <==> !covers(blocks@, t)),
{
    let mut windows: Vec<(i128, i128)> = Vec::new();
    let mut cursor = lower;
    let mut k: usize = 0;
    while k < blocks.len()
        invariant
            k <= blocks@.len(),
            lower <= cursor <= upper,
            separated(blocks@),
            within(blocks@, lower as int, upper as int),
            k == 0 ==> cursor == lower,
            k > 0 ==> cursor == blocks@[k - 1].1,
            k == 0 ==> windows@.len() == 0,
            separated(windows@),
            within(windows@, lower as int, cursor as int),
            k > 0 && windows@.len() > 0 ==> windows@.last().1 < cursor,
            forall|t: int|
                lower <= t < cursor ==> (covers(windows@, t) <==> !covers(blocks@.take(k as int), t)),
            forall|t: int| cursor <= t ==> !covers(blocks@.take(k as int), t),
        decreases blocks@.len() - k,
    {
        let (start, end) = blocks[k];
        let ghost prev = windows@;
        let ghost old_cursor = cursor;
        let ghost taken = blocks@.take(k as int);
        let ghost taken1 = blocks@.take(k + 1);
        proof {
            assert(taken1 =~= taken.push((start, end)));
            if k > 0 {
                assert(blocks@[k - 1].1 < blocks@[k as int].0);
            }
            assert(cursor <= start);
        }
        if start > cursor {
            windows.push((cursor, start));
        }
        cursor = end;
        proof {
            assert forall|i: int, j: int| 0 <= i < j < windows@.len() implies windows@[i].1 < windows@[j].0 by {
                if j == windows@.len() - 1 && windows@.len() > prev.len() {
                    if k > 0 {
                        assert(prev[i].1 <= prev.last().1);
                    }
                }
            }
            assert forall|t: int| lower <= t < cursor implies (covers(windows@, t) <==> !covers(taken1, t)) by {
                if t < old_cursor {
                    if covers(windows@, t) {
                        let i = choose|i: int| 0 <= i < windows@.len() && (#[trigger] windows@[i]).0 <= t < windows@[i].1;
                        if i < prev.len() {
                            assert(prev[i] == windows@[i]);
                            assert(covers(prev, t));
                        }
                    }
                    if covers(prev, t) {
                        let i = choose|i: int| 0 <= i < prev.len() && (#[trigger] prev[i]).0 <= t < prev[i].1;
                        assert(windows@[i] == prev[i]);
                    }
                    if covers(taken1, t) {
                        let w = choose|w: int| 0 <= w < taken1.len() && (#[trigger] taken1[w]).0 <= t < taken1[w].1;
                        if w < k {
                            assert(taken[w] == taken1[w]);
                        }
                    }
                    if covers(taken, t) {
                        let w = choose|w: int| 0 <= w < taken.len() && (#[trigger] taken[w]).0 <= t < taken[w].1;
                        assert(taken1[w] == taken[w]);
                    }
                } else if t < start {
                    assert(windows@.last() == (old_cursor, start));
                    if covers(taken1, t) {
                        let w = choose|w: int| 0 <= w < taken1.len() && (#[trigger] taken1[w]).0 <= t < taken1[w].1;
                        if w < k {
                            assert(taken[w] == taken1[w]);
                            assert(covers(taken, t));
                        }
                    }
                } else {
                    assert(taken1[k as int] == (start, end));
                    if covers(windows@, t) {
                        let i = choose|i: int| 0 <= i < windows@.len() && (#[trigger] windows@[i]).0 <= t < windows@[i].1;
                        if i < prev.len() {
                            assert(prev[i] == windows@[i]);
                        }
                    }
                }
            }
            assert forall|t: int| cursor <= t implies !covers(taken1, t) by {
                if covers(taken1, t) {
                    let w = choose|w: int| 0 <= w < taken1.len() && (#[trigger] taken1[w]).0 <= t < taken1[w].1;
                    if w < k {
                        assert(taken[w] == taken1[w]);
                        assert(covers(taken, t));
                    }
                }
            }
        }
        k = k + 1;
    }
    proof {
        assert(blocks@.take(blocks@.len() as int) =~= blocks@);
    }
    let ghost prev = windows@;
    if cursor < upper {
        windows.push((cursor, upper));
    }
    proof {
        assert forall|i: int, j: int| 0 <= i < j < windows@.len() implies windows@[i].1 < windows@[j].0 by {
            if j == windows@.len() - 1 && windows@.len() > prev.len() {
                assert(prev[i].1 <= prev.last().1);
            }
        }
        assert forall|t: int| lower <= t < upper implies (covers(windows@, t) <==> !covers(blocks@, t)) by {
            if t < cursor {
                if covers(windows@, t) {
                    let i = choose|i: int| 0 <= i < windows@.len() && (#[trigger] windows@[i]).0 <= t < windows@[i].1;
                    if i < prev.len() {
                        assert(prev[i] == windows@[i]);
                        assert(covers(prev, t));
                    }
                }
                if covers(prev, t) {
                    let i = choose|i: int| 0 <= i < prev.len() && (#[trigger] prev[i]).0 <= t < prev[i].1;
                    assert(windows@[i] == prev[i]);
                }
            } else {
                assert(windows@.last() == (cursor, upper));
            }
        }
    }
    windows
}

proof fn lemma_total_positive(s: Seq<(i128, i128)>)
    requires
        forall|i: int| 0 <= i < s.len() ==> s[i].0 < s[i].1,
    ensures
        total(s) >= 0,
        s.len() > 0 ==> total(s) > 0,
    decreases s.len(),
{
    if s.len() > 0 {
        lemma_total_positive(s.drop_first());
    }
}

proof fn lemma_total_skip_mono(s: Seq<(i128, i128)>, j: int)
    requires
        0 <= j <= s.len(),
        forall|i: int| 0 <= i < s.len() ==> s[i].0 < s[i].1,
    ensures
        total(s) >= total(s.skip(j)),
    decreases j,
{
    if j == 0 {
        assert(s.skip(0) =~= s);
    } else {
        lemma_total_skip_mono(s, j - 1);
        lemma_total_skip(s, j - 1);
    }
}

/// The latest stretch of total length `target` within `windows`, or `None`
/// when the windows together are shorter than `target`.
pub fn latest_segments(windows: &Vec<(i128, i128)>, target: i128) -> (segments: Option<Vec<(i128, i128)>>)
    requires
        0 < target,
        bounded(target as int),
        separated(windows@),
        spans_bounded(windows@),
    ensures
        segments is Some <==> target <= total(windows@),
        segments matches Some(segs) ==> segs@ == latest_spans(windows@, target as int) && spans_bounded(segs@),
{
    let mut selected: Vec<(i128, i128)> = Vec::new();
    let mut remaining = target;
    let mut i = windows.len();
    proof {
        assert(windows@.skip(i as int) =~= Seq::<(i128, i128)>::empty());
    }
    while i > 0
        invariant
            i <= windows@.len(),
            0 < target,
            bounded(target as int),
            separated(windows@),
            spans_bounded(windows@),
            selected@ == windows@.skip(i as int),
            remaining == target - total(windows@.skip(i as int)),
            0 < remaining <= target,
        decreases i,
    {
        let (start, end) = windows[i - 1];
        let available = end - start;
        proof {
            lemma_total_skip(windows@, i - 1);
        }
        if remaining <= available {
            let ghost rest = selected@;
            selected.insert(0, (end - remaining, end));
            proof {
                assert(selected@ =~= seq![((end - remaining) as i128, end)] + rest);
                assert(windows@.skip(i - 1 + 1) == windows@.skip(i as int));
                assert(latest_of(windows@, target as int, i - 1) =~= selected@);
                lemma_total_skip_mono(windows@, i - 1);
                lemma_starts_in_unique(windows@, target as int, i - 1);
                assert(spans_bounded(selected@)) by {
                    assert forall|j: int| 0 <= j < selected@.len() implies bounded(selected@[j].0 as int) && bounded(selected@[j].1 as int) by {
                        if j > 0 {
                            assert(selected@[j] == windows@[i - 1 + j]);
                        }
                    }
                }
            }
            return Some(selected);
        }
        let ghost rest = selected@;
        selected.insert(0, (start, end));
        proof {
            assert(selected@ =~= windows@.skip(i - 1));
        }
        remaining = remaining - available;
        i = i - 1;
    }
    proof {
        lemma_total_positive(windows@);
        assert(windows@.skip(0) =~= windows@);
    }
    None
}

/// The latest stretch has exactly the length asked for.
pub proof fn lemma_latest_total(windows: Seq<(i128, i128)>, target: int, k: int)
    requires
        0 <= k < windows.len(),
        total(windows.skip(k + 1)) < target <= total(windows.skip(k)),
        spans_bounded(windows),
        bounded(target),
    ensures
        total(latest_of(windows, target, k)) == target,
{
    lemma_total_skip(windows, k);
    let l = latest_of(windows, target, k);
    assert(l.drop_first() =~= windows.skip(k + 1));
}

proof fn lemma_covers_rest(a: Seq<(i128, i128)>, t: int)
    requires
        separated(a),
        a.len() > 0,
    ensures
        covers(a.drop_first(), t) <==> (covers(a, t) && t >= a[0].1),
{
    if covers(a.drop_first(), t) {
        let j = choose|j: int| 0 <= j < a.drop_first().len() && (#[trigger] a.drop_first()[j]).0 <= t < a.drop_first()[j].1;
        assert(a[j + 1] == a.drop_first()[j]);
        assert(a[0].1 < a[j + 1].0);
    }
    if covers(a, t) && t >= a[0].1 {
        let j = choose|j: int| 0 <= j < a.len() && (#[trigger] a[j]).0 <= t < a[j].1;
        assert(j != 0);
        assert(a.drop_first()[j - 1] == a[j]);
    }
}

/// Separated spans are determined by the instants they cover.
pub proof fn lemma_separated_unique(a: Seq<(i128, i128)>, b: Seq<(i128, i128)>)
    requires
        separated(a),
        separated(b),
        forall|t: int| covers(a, t) <==> covers(b, t),
    ensures
        a == b,
    decreases a.len() + b.len(),
{
    if a.len() == 0 {
        if b.len() > 0 {
            assert(covers(b, b[0].0 as int));
        }
        assert(a =~= b);
    } else if b.len() == 0 {
        assert(covers(a, a[0].0 as int));
    } else {
        assert(a[0].0 == b[0].0) by {
            if a[0].0 < b[0].0 {
                assert(covers(a, a[0].0 as int));
                let j = choose|j: int| 0 <= j < b.len() && (#[trigger] b[j]).0 <= a[0].0 < b[j].1;
                if j > 0 {
                    assert(b[0].1 < b[j].0);
                }
            } else if b[0].0 < a[0].0 {
                assert(covers(b, b[0].0 as int));
                let j = choose|j: int| 0 <= j < a.len() && (#[trigger] a[j]).0 <= b[0].0 < a[j].1;
                if j > 0 {
                    assert(a[0].1 < a[j].0);
                }
            }
        }
        assert(a[0].1 == b[0].1) by {
            if a[0].1 < b[0].1 {
                assert(b[0].0 <= a[0].1 < b[0].1);
                assert(covers(b, a[0].1 as int));
                let j = choose|j: int| 0 <= j < a.len() && (#[trigger] a[j]).0 <= a[0].1 < a[j].1;
                if j > 0 {
                    assert(a[0].1 < a[j].0);
                }
            } else if b[0].1 < a[0].1 {
                assert(a[0].0 <= b[0].1 < a[0].1);
                assert(covers(a, b[0].1 as int));
                let j = choose|j: int| 0 <= j < b.len() && (#[trigger] b[j]).0 <= b[0].1 < b[j].1;
                if j > 0 {
                    assert(b[0].1 < b[j].0);
                }
            }
        }
        assert forall|t: int| covers(a.drop_first(), t) <==> covers(b.drop_first(), t) by {
            lemma_covers_rest(a, t);
            lemma_covers_rest(b, t);
        }
        assert(separated(a.drop_first()));
        assert(separated(b.drop_first()));
        lemma_separated_unique(a.drop_first(), b.drop_first());
        assert(a =~= seq![a[0]] + a.drop_first());
        assert(b =~= seq![b[0]] + b.drop_first());
    }
}

proof fn lemma_starts_in_from(windows: Seq<(i128, i128)>, target: int, j: int)
    requires
        separated(windows),
        0 <= j <= windows.len(),
        0 < target <= total(windows.skip(j)),
    ensures
        exists|k: int| starts_in(windows, target, k),
    decreases windows.len() - j,
{
    if j == windows.len() {
        assert(windows.skip(j) =~= Seq::<(i128, i128)>::empty());
    } else if target <= total(windows.skip(j + 1)) {
        lemma_starts_in_from(windows, target, j + 1);
    } else {
        assert(starts_in(windows, target, j));
    }
}

/// The latest stretch of `target` within `windows`, when they hold that much,
/// is made of separated spans inside the windows and has length `target`.
pub proof fn lemma_latest_spans(windows: Seq<(i128, i128)>, target: int)
    requires
        separated(windows),
        spans_bounded(windows),
        bounded(target),
        0 < target <= total(windows),
    ensures
        total(latest_spans(windows, target)) == target,
        separated(latest_spans(windows, target)),
        forall|t: int| covers(latest_spans(windows, target), t) ==> covers(windows, t),
        latest_spans(windows, target).len() > 0,
        forall|t: int|
            covers(windows, t) && latest_spans(windows, target)[0].0 <= t ==> covers(latest_spans(windows, target), t),
{
    assert(windows.skip(0) =~= windows);
    lemma_starts_in_from(windows, target, 0);
    let k = choose|k: int| starts_in(windows, target, k);
    lemma_starts_in_unique(windows, target, k);
    lemma_latest_total(windows, target, k);
    lemma_total_skip(windows, k);
    let rest = windows.skip(k + 1);
    let l = latest_of(windows, target, k);
    lemma_total_positive(rest);
    assert(l[0].0 == windows[k].1 - (target - total(rest)));
    assert forall|i: int| 0 < i < l.len() implies l[i] == windows[k + i] by {
        assert(l[i] == rest[i - 1]);
    }
    assert forall|i: int, j: int| 0 <= i < j < l.len() implies l[i].1 < l[j].0 by {
        assert(l[j] == windows[k + j]);
        if i > 0 {
            assert(l[i] == windows[k + i]);
        }
    }
    assert forall|t: int| covers(l, t) implies covers(windows, t) by {
        let i = choose|i: int| 0 <= i < l.len() && (#[trigger] l[i]).0 <= t < l[i].1;
        if i == 0 {
            assert(windows[k].0 <= t < windows[k].1);
        } else {
            assert(windows[k + i].0 <= t < windows[k + i].1);
        }
    }
    assert(windows[k].0 <= l[0].0);
    assert forall|t: int| covers(windows, t) && l[0].0 <= t implies covers(l, t) by {
        let j = choose|j: int| 0 <= j < windows.len() && (#[trigger] windows[j]).0 <= t < windows[j].1;
        if j > k {
            assert(l[j - k] == windows[j]);
            assert(l[j - k].0 <= t < l[j - k].1);
        } else if j == k {
            assert(l[0].0 <= t < l[0].1);
        } else {
            assert(windows[j].1 < windows[k].0);
        }
    }
}

} // verus!
