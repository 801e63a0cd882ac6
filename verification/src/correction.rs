//! Correcting the recorded work time of a task: its sessions are re-timed to
//! the latest stretch of the asked length that its block records leave free,
//! between the task's creation and the end of its active time.

use vstd::prelude::*;
use crate::clock::{format_instant, instant_text, ms_instant, spec_rfc3339_instant, new_id, parse_instant, text_instant, uuid_v4_text};
use crate::domain::{copy_opt, Task, TaskBlock, TaskStatus, WorkSession};
use crate::error::{CoreError, Result};
use crate::lifecycle::unchanged;
use crate::ordering::{sort_rows, sorted_by_key};
use crate::store::{active_block, active_session, distinct_session_ids, lemma_activity_refs, lists_task, same_task_refs, TaskStore};
use crate::text::str_eq;
use crate::timeline::{
    available_windows, bounded, covers, covers_clipped, free_of, free_windows, latest_segments, latest_spans,
    lemma_free_windows, lemma_latest_spans, merge_spans, separated, spans_bounded, total,
};

verus! {

broadcast use vstd::seq_lib::group_to_multiset_ensures;

/// Nanoseconds since the epoch of a time stamp (0 for a text that is none).
pub open spec fn instant_of(text: Seq<char>) -> i128 {
    match text_instant(text) {
        Some(n) => n as i128,
        None => 0,
    }
}

/// The text is an RFC 3339 time stamp.
pub open spec fn is_instant(text: Seq<char>) -> bool {
    text_instant(text) is Some
}

/// A block record of the task that is not deleted.
pub open spec fn live_block_of(b: TaskBlock, task_id: Seq<char>) -> bool {
    b.task_id@ == task_id && b.deleted_at is None
}

/// The times of a block record are time stamps (an open record has only a start).
pub open spec fn block_parses(b: TaskBlock) -> bool {
    is_instant(b.started_at@) && (b.ended_at matches Some(e) ==> is_instant(e@))
}

/// The span a block record covers; an open record runs to `upper`.
pub open spec fn block_span(b: TaskBlock, upper: i128) -> (i128, i128) {
    (
        instant_of(b.started_at@),
        match b.ended_at {
            Some(e) => instant_of(e@),
            None => upper,
        },
    )
}

/// A number of minutes whose length a `chrono::TimeDelta` can hold.
pub open spec fn minutes_representable(minutes: i64) -> bool {
    minutes * 60 <= 9_223_372_036_854_775
}

/// A number of minutes in nanoseconds.
pub open spec fn minutes_nanos(minutes: i64) -> int {
    minutes * 60_000_000_000
}

/// Every boundary of `spans`, and `upper`, has a text.
pub open spec fn stamps_exist(spans: Seq<(i128, i128)>, upper: i128) -> bool {
    &&& instant_text(upper as int) is Some
    &&& forall|k: int|
        0 <= k < spans.len() ==> instant_text((#[trigger] spans[k]).0 as int) is Some && instant_text(
            spans[k].1 as int,
        ) is Some
}

/// `new` is the task's sessions after correction. Session `k` covers span
/// `k`; when the task is running, one more session starts at `upper` and is
/// still running. The sessions in `ordered` are reused in that order, keeping
/// identifier, note and creation time; sessions beyond those needed are
/// dropped, missing ones are added with the identifiers of `fresh` in turn,
/// no note, and `upper` as creation time.
pub open spec fn retimed(
    ordered: Seq<WorkSession>,
    spans: Seq<(i128, i128)>,
    running: bool,
    upper: i128,
    task_id: Seq<char>,
    old_rows: Seq<WorkSession>,
    fresh: Seq<Seq<char>>,
    new: Seq<WorkSession>,
) -> bool {
    &&& new.len() == spans.len() + if running { 1int } else { 0int }
    &&& distinct_session_ids(new)
    &&& forall|k: int|
        0 <= k < new.len() ==> {
            let s = #[trigger] new[k];
            &&& s.task_id@ == task_id
            &&& if k < spans.len() {
                &&& instant_text(spans[k].0 as int) == Some(s.started_at@)
                &&& s.ended_at matches Some(e) && instant_text(spans[k].1 as int) == Some(e@)
                &&& reads_back(spans[k].0 as int, s.started_at@)
                &&& s.ended_at matches Some(e) && reads_back(spans[k].1 as int, e@)
            } else {
                &&& instant_text(upper as int) == Some(s.started_at@)
                &&& s.ended_at is None
            }
            &&& if k < ordered.len() {
                &&& s.id == ordered[k].id
                &&& s.note == ordered[k].note
                &&& s.created_at == ordered[k].created_at
            } else {
                &&& s.note is None
                &&& instant_text(upper as int) == Some(s.created_at@)
                &&& s.id@ == fresh[k - ordered.len()]
                &&& forall|j: int| 0 <= j < old_rows.len() ==> old_rows[j].id@ != s.id@
            }
        }
}

/// A stamp `text` written for instant `n` reads back as `n` when `n` is on a
/// whole millisecond between the years 0 and 9999.
pub open spec fn reads_back(n: int, text: Seq<char>) -> bool {
    ms_instant(n) ==> text_instant(text) == Some(n)
}

/// The texts of a list of identifiers.
pub open spec fn ids_view(ids: Seq<String>) -> Seq<Seq<char>> {
    ids.map_values(|s: String| s@)
}

/// The first `n` identifiers of `fresh` exist, differ from each other, and
/// name none of the sessions in `rows`.
pub open spec fn fresh_session_ids(rows: Seq<WorkSession>, fresh: Seq<Seq<char>>, n: int) -> bool {
    &&& n <= fresh.len()
    &&& forall|k: int, j: int|
        #![trigger fresh[k], rows[j]]
        0 <= k < n && 0 <= j < rows.len() ==> rows[j].id@ != fresh[k]
    &&& forall|a: int, b: int| #![trigger fresh[a], fresh[b]] 0 <= a < b < n ==> fresh[a] != fresh[b]
}

/// Every identifier is a version 4 UUID text.
pub open spec fn all_uuid_v4(ids: Seq<Seq<char>>) -> bool {
    forall|k: int| 0 <= k < ids.len() ==> uuid_v4_text(#[trigger] ids[k])
}

/// How many sessions a correction adds to the `existing` ones of a task:
/// one per span, one more when the task keeps running.
pub open spec fn sessions_added(spans: Seq<(i128, i128)>, running: bool, existing: int) -> int {
    spans.len() + (if running { 1int } else { 0int }) - existing
}

impl TaskStore {
    /// The task's sessions, in storage order.
    pub open spec fn sessions_of(&self, task_id: Seq<char>) -> Seq<WorkSession> {
        self.session_rows().filter(|s: WorkSession| s.task_id@ == task_id)
    }

    /// The sessions of the other tasks, in storage order.
    pub open spec fn sessions_not_of(&self, task_id: Seq<char>) -> Seq<WorkSession> {
        self.session_rows().filter(|s: WorkSession| s.task_id@ != task_id)
    }

    /// Every live block record of the task has time stamps for times.
    pub open spec fn blocks_parse(&self, task_id: Seq<char>) -> bool {
        forall|b: int|
            0 <= b < self.block_rows().len() && live_block_of(#[trigger] self.block_rows()[b], task_id)
                ==> block_parses(self.block_rows()[b])
    }

    /// The spans the task's live block records cover, open records running to `upper`.
    pub open spec fn blocked_spans(&self, task_id: Seq<char>, upper: i128) -> Seq<(i128, i128)> {
        self.block_rows().filter(|b: TaskBlock| live_block_of(b, task_id)).map_values(
            |b: TaskBlock| block_span(b, upper),
        )
    }

    /// The open block record of the task.
    pub open spec fn open_block(&self, task_id: Seq<char>) -> TaskBlock {
        self.block_rows()[choose|b: int|
            0 <= b < self.block_rows().len() && active_block(#[trigger] self.block_rows()[b])
                && self.block_rows()[b].task_id@ == task_id]
    }

    /// Where the task's active time ends: its completion for a completed
    /// task, the start of its open block record for a blocked one, else
    /// `corrected_at`. `None` for a completed task without completion time.
    pub open spec fn correction_end(&self, t: Task, corrected_at: Seq<char>) -> Option<Seq<char>> {
        if t.status == TaskStatus::Completed {
            match t.completed_at {
                Some(c) => Some(c@),
                None => None,
            }
        } else if self.blocked(t.id@) {
            Some(self.open_block(t.id@).started_at@)
        } else {
            Some(corrected_at)
        }
    }

    /// The range the task's work time is placed in: from its creation to the
    /// end of its active time, when both are time stamps and the range is not empty.
    pub open spec fn correction_bounds(&self, t: Task, corrected_at: Seq<char>) -> Option<(i128, i128)> {
        match self.correction_end(t, corrected_at) {
            Some(end) => if is_instant(t.created_at@) && is_instant(end) && instant_of(t.created_at@)
                < instant_of(end) {
                Some((instant_of(t.created_at@), instant_of(end)))
            } else {
                None
            },
            None => None,
        }
    }

    /// A task in progress that is not blocked keeps a running session.
    pub open spec fn keeps_running(&self, t: Task) -> bool {
        t.status == TaskStatus::InProgress && !self.blocked(t.id@)
    }

    /// The free time of `[lower, upper)`: what the task's live block records leave.
    pub open spec fn free_time(&self, task_id: Seq<char>, lower: i128, upper: i128) -> Seq<(i128, i128)> {
        free_windows(self.blocked_spans(task_id, upper), lower, upper)
    }

    /// The spans the task's closed sessions are set to: the latest stretch of
    /// `minutes` within the free time of `[lower, upper)`.
    pub open spec fn corrected_spans(&self, task_id: Seq<char>, lower: i128, upper: i128, minutes: i64) -> Seq<
        (i128, i128),
    > {
        latest_spans(self.free_time(task_id, lower, upper), minutes_nanos(minutes))
    }
}

proof fn lemma_session_filter(rows: Seq<WorkSession>, pred: spec_fn(WorkSession) -> bool)
    requires
        distinct_session_ids(rows),
    ensures
        distinct_session_ids(rows.filter(pred)),
        forall|j: int|
            0 <= j < rows.filter(pred).len() ==> pred(#[trigger] rows.filter(pred)[j]) && exists|m: int|
                0 <= m < rows.len() && rows[m] == rows.filter(pred)[j],
    decreases rows.len(),
{
    reveal(Seq::filter);
    if rows.len() > 0 {
        let init = rows.drop_last();
        lemma_session_filter(init, pred);
        let fi = init.filter(pred);
        let out = rows.filter(pred);
        if pred(rows.last()) {
            assert(out == fi.push(rows.last()));
            assert forall|a: int, b: int| 0 <= a < b < out.len() implies out[a].id@ != out[b].id@ by {
                if b == out.len() - 1 {
                    assert(out[a] == fi[a]);
                    let m = choose|m: int| 0 <= m < init.len() && init[m] == fi[a];
                    assert(rows[m] == init[m]);
                } else {
                    assert(out[a] == fi[a] && out[b] == fi[b]);
                }
            }
            assert forall|j: int| 0 <= j < out.len() implies pred(#[trigger] out[j]) && exists|m: int|
                0 <= m < rows.len() && rows[m] == out[j] by {
                if j == out.len() - 1 {
                    assert(rows[rows.len() - 1] == out[j]);
                } else {
                    assert(out[j] == fi[j]);
                    let m = choose|m: int| 0 <= m < init.len() && init[m] == fi[j];
                    assert(rows[m] == init[m]);
                }
            }
        } else {
            assert(out == fi);
            assert forall|j: int| 0 <= j < out.len() implies pred(#[trigger] out[j]) && exists|m: int|
                0 <= m < rows.len() && rows[m] == out[j] by {
                let m = choose|m: int| 0 <= m < init.len() && init[m] == fi[j];
                assert(rows[m] == init[m]);
            }
        }
    }
}

proof fn lemma_permuted_sessions(src: Seq<WorkSession>, perm: Seq<WorkSession>)
    requires
        distinct_session_ids(src),
        perm.to_multiset() == src.to_multiset(),
    ensures
        distinct_session_ids(perm),
        forall|k: int| 0 <= k < perm.len() ==> src.contains(#[trigger] perm[k]),
{
    assert(src.no_duplicates()) by {
        assert forall|i: int, j: int| 0 <= i < src.len() && 0 <= j < src.len() && i != j implies src[i]
            != src[j] by {
            if i < j {
                assert(src[i].id@ != src[j].id@);
            } else {
                assert(src[j].id@ != src[i].id@);
            }
        }
    }
    src.lemma_multiset_has_no_duplicates();
    perm.lemma_multiset_has_no_duplicates_conv();
    assert forall|k: int| 0 <= k < perm.len() implies src.contains(#[trigger] perm[k]) by {
        assert(perm.contains(perm[k]));
        assert(perm.to_multiset().count(perm[k]) > 0);
    }
    assert forall|i: int, j: int| 0 <= i < j < perm.len() implies perm[i].id@ != perm[j].id@ by {
        assert(src.contains(perm[i]) && src.contains(perm[j]));
        let a = choose|a: int| 0 <= a < src.len() && src[a] == perm[i];
        let b = choose|b: int| 0 <= b < src.len() && src[b] == perm[j];
        assert(perm[i] != perm[j]);
        if a < b {
            assert(src[a].id@ != src[b].id@);
        } else if b < a {
            assert(src[b].id@ != src[a].id@);
        }
    }
}

impl TaskStore {
    fn open_block_start(&self, task_id: &str) -> (r: String)
        requires
            self.wf(),
            self.blocked(task_id@),
        ensures
            r@ == self.open_block(task_id@).started_at@,
    {
        let mut i: usize = 0;
        while i < self.blocks.len()
            invariant
                i <= self.block_rows().len(),
                self.wf(),
                self.blocked(task_id@),
                forall|k: int|
                    0 <= k < i ==> !(active_block(#[trigger] self.block_rows()[k]) && self.block_rows()[k].task_id@
                        == task_id@),
            decreases self.block_rows().len() - i,
        {
            let b = &self.blocks[i];
            if b.ended_at.is_none() && b.deleted_at.is_none() && str_eq(&b.task_id, task_id) {
                proof {
                    let rows = self.block_rows();
                    let c = choose|c: int|
                        0 <= c < rows.len() && active_block(#[trigger] rows[c]) && rows[c].task_id@ == task_id@;
                    assert(active_block(rows[i as int]));
                    if c < i {
                        assert(rows[c].task_id@ != rows[i as int].task_id@);
                    } else if c > i {
                        assert(rows[i as int].task_id@ != rows[c].task_id@);
                    }
                }
                return b.started_at.clone();
            }
            i = i + 1;
        }
        proof {
            let rows = self.block_rows();
            let c = choose|c: int| 0 <= c < rows.len() && active_block(#[trigger] rows[c]) && rows[c].task_id@ == task_id@;
            assert(!(active_block(rows[c]) && rows[c].task_id@ == task_id@));
        }
        String::new()
    }

    fn blocked_spans_of(&self, task_id: &str, upper: i128) -> (r: Option<Vec<(i128, i128)>>)
        ensures
            match r {
                Some(v) => self.blocks_parse(task_id@) && v@ == self.blocked_spans(task_id@, upper),
                None => !self.blocks_parse(task_id@),
            },
    {
        let ghost pred = |b: TaskBlock| live_block_of(b, task_id@);
        let ghost f = |b: TaskBlock| block_span(b, upper);
        let mut out: Vec<(i128, i128)> = Vec::new();
        let mut k: usize = 0;
        while k < self.blocks.len()
            invariant
                k <= self.block_rows().len(),
                pred == (|b: TaskBlock| live_block_of(b, task_id@)),
                f == (|b: TaskBlock| block_span(b, upper)),
                out@ == self.block_rows().take(k as int).filter(pred).map_values(f),
                forall|j: int|
                    0 <= j < k && live_block_of(#[trigger] self.block_rows()[j], task_id@) ==> block_parses(
                        self.block_rows()[j],
                    ),
            decreases self.block_rows().len() - k,
        {
            proof {
                reveal(Seq::filter);
                assert(self.block_rows().take(k + 1).drop_last() =~= self.block_rows().take(k as int));
            }
            let b = &self.blocks[k];
            if b.deleted_at.is_none() && str_eq(&b.task_id, task_id) {
                let start = match parse_instant(b.started_at.as_str()) {
                    Some(n) => n,
                    None => {
                        return None;
                    },
                };
                let end = match &b.ended_at {
                    Some(e) => match parse_instant(e.as_str()) {
                        Some(n) => n,
                        None => {
                            return None;
                        },
                    },
                    None => upper,
                };
                let ghost before = self.block_rows().take(k as int).filter(pred);
                out.push((start, end));
                proof {
                    assert(before.push(self.block_rows()[k as int]).map_values(f) =~= before.map_values(f).push(
                        f(self.block_rows()[k as int]),
                    ));
                }
            }
            k = k + 1;
        }
        proof {
            assert(self.block_rows().take(self.block_rows().len() as int) =~= self.block_rows());
        }
        Some(out)
    }

    fn split_sessions(&self, task_id: &str) -> (r: (Vec<WorkSession>, Vec<WorkSession>))
        ensures
            r.0@ == self.sessions_of(task_id@),
            r.1@ == self.sessions_not_of(task_id@),
    {
        let ghost mine_pred = |s: WorkSession| s.task_id@ == task_id@;
        let ghost other_pred = |s: WorkSession| s.task_id@ != task_id@;
        let mut mine: Vec<WorkSession> = Vec::new();
        let mut others: Vec<WorkSession> = Vec::new();
        let mut k: usize = 0;
        while k < self.sessions.len()
            invariant
                k <= self.session_rows().len(),
                mine_pred == (|s: WorkSession| s.task_id@ == task_id@),
                other_pred == (|s: WorkSession| s.task_id@ != task_id@),
                mine@ == self.session_rows().take(k as int).filter(mine_pred),
                others@ == self.session_rows().take(k as int).filter(other_pred),
            decreases self.session_rows().len() - k,
        {
            proof {
                reveal(Seq::filter);
                assert(self.session_rows().take(k + 1).drop_last() =~= self.session_rows().take(k as int));
            }
            if str_eq(&self.sessions[k].task_id, task_id) {
                mine.push(self.sessions[k].clone());
            } else {
                others.push(self.sessions[k].clone());
            }
            k = k + 1;
        }
        proof {
            assert(self.session_rows().take(self.session_rows().len() as int) =~= self.session_rows());
        }
        (mine, others)
    }

    /// A refused identifier for session `k` leaves the identifiers of
    /// `fresh` short of the `n` sessions to add.
    proof fn lemma_fresh_refused(&self, ordered: Seq<WorkSession>, fresh: Seq<String>, k: int, n: int)
        requires
            ordered.len() <= k < ordered.len() + n,
            (k - ordered.len() >= fresh.len() || self.has_session(fresh[k - ordered.len()]@) || exists|a: int|
                0 <= a < k - ordered.len() && #[trigger] fresh[a]@ == fresh[k - ordered.len()]@),
        ensures
            !fresh_session_ids(self.session_rows(), ids_view(fresh), n),
    {
        let f = k - ordered.len();
        let v = ids_view(fresh);
        if f < fresh.len() {
            assert(v[f] == fresh[f]@);
            if self.has_session(fresh[f]@) {
                let j = choose|j: int| self.session_at(fresh[f]@, j);
                assert(self.session_rows()[j].id@ == v[f]);
            } else {
                let a = choose|a: int| 0 <= a < f && #[trigger] fresh[a]@ == fresh[f]@;
                assert(v[a] == v[f]);
            }
        }
    }

    /// Adding session `s` under the next identifier of `fresh` keeps the
    /// identifiers used so far free and distinct.
    proof fn lemma_fresh_extended(&self, ordered: Seq<WorkSession>, fresh: Seq<String>, built: Seq<WorkSession>, s: WorkSession)
        requires
            fresh_session_ids(self.session_rows(), ids_view(fresh), built.len() - ordered.len()),
            forall|m: int| ordered.len() <= m < built.len() ==> (#[trigger] built[m]).id@ == fresh[m - ordered.len()]@,
            built.len() >= ordered.len() ==> {
                &&& built.len() - ordered.len() < fresh.len()
                &&& s.id@ == fresh[built.len() - ordered.len()]@
                &&& forall|j: int| 0 <= j < self.session_rows().len() ==> self.session_rows()[j].id@ != s.id@
                &&& forall|j: int| 0 <= j < built.len() ==> built[j].id@ != s.id@
            },
        ensures
            fresh_session_ids(self.session_rows(), ids_view(fresh), built.len() + 1 - ordered.len()),
    {
        let v = ids_view(fresh);
        let n = built.len() + 1 - ordered.len();
        if built.len() >= ordered.len() {
            let f = built.len() - ordered.len();
            assert(v[f] == s.id@);
            assert forall|k: int, j: int| 0 <= k < n && 0 <= j < self.session_rows().len() implies self.session_rows()[j].id@ != v[k] by {
                if k == f {
                    assert(v[k] == s.id@);
                }
            }
            assert forall|a: int, b: int| 0 <= a < b < n implies v[a] != v[b] by {
                if b == f {
                    assert(built[a + ordered.len()].id@ == fresh[a]@);
                    assert(v[a] == fresh[a]@);
                }
            }
        }
    }

    /// Session `built.len()` of the corrected list. Sessions past those in
    /// `ordered` take the identifiers of `fresh` in turn.
    fn corrected_session(
        &self,
        ordered: &Vec<WorkSession>,
        started_at: String,
        ended_at: Option<String>,
        upper_text: &String,
        task_id: &str,
        fresh: &Vec<String>,
        built: &Vec<WorkSession>,
    ) -> (r: Result<WorkSession>)
        requires
            forall|m: int| 0 <= m < ordered@.len() ==> self.has_session(#[trigger] ordered@[m].id@),
            forall|m: int| 0 <= m < built@.len() && m < ordered@.len() ==> (#[trigger] built@[m]).id == ordered@[m].id,
            forall|m: int|
                ordered@.len() <= m < built@.len() ==> (#[trigger] built@[m]).id@ == fresh@[m - ordered@.len()]@,
        ensures
            match r {
                Ok(s) => {
                    &&& s.task_id@ == task_id@
                    &&& s.started_at == started_at
                    &&& s.ended_at == ended_at
                    &&& if built.len() < ordered.len() {
                        &&& s.id == ordered@[built.len() as int].id
                        &&& s.note == ordered@[built.len() as int].note
                        &&& s.created_at == ordered@[built.len() as int].created_at
                    } else {
                        &&& s.note is None
                        &&& s.created_at@ == upper_text@
                        &&& built.len() - ordered.len() < fresh.len()
                        &&& s.id@ == fresh@[built.len() - ordered.len()]@
                        &&& forall|j: int| 0 <= j < self.session_rows().len() ==> self.session_rows()[j].id@ != s.id@
                        &&& forall|j: int| 0 <= j < built.len() ==> built@[j].id@ != s.id@
                    }
                },
                Err(e) => {
                    let f = built.len() - ordered.len();
                    &&& e is Database
                    &&& built.len() >= ordered.len()
                    &&& (f >= fresh.len() || self.has_session(fresh@[f]@) || exists|a: int|
                        0 <= a < f && #[trigger] fresh@[a]@ == fresh@[f]@)
                },
            },
    {
        let k = built.len();
        if k < ordered.len() {
            let o = &ordered[k];
            Ok(
                WorkSession {
                    id: o.id.clone(),
                    task_id: task_id.to_owned(),
                    started_at,
                    ended_at,
                    note: copy_opt(&o.note),
                    created_at: o.created_at.clone(),
                },
            )
        } else {
            let f = k - ordered.len();
            if f >= fresh.len() {
                return Err(CoreError::Database(String::from_str("缺少工作会话 ID")));
            }
            let id = fresh[f].clone();
            if self.find_session(id.as_str()).is_some() {
                return Err(CoreError::Database(String::from_str("工作会话 ID 已存在")));
            }
            let mut j: usize = 0;
            while j < built.len()
                invariant
                    j <= built@.len(),
                    forall|m: int| 0 <= m < j ==> built@[m].id@ != id@,
                    k == built@.len(),
                    f == k - ordered@.len(),
                    f < fresh@.len(),
                    id@ == fresh@[f as int]@,
                    !self.has_session(id@),
                    forall|m: int| 0 <= m < ordered@.len() ==> self.has_session(#[trigger] ordered@[m].id@),
                    forall|m: int|
                        0 <= m < built@.len() && m < ordered@.len() ==> (#[trigger] built@[m]).id == ordered@[m].id,
                    forall|m: int|
                        ordered@.len() <= m < built@.len() ==> (#[trigger] built@[m]).id@ == fresh@[m - ordered@.len()]@,
                decreases built@.len() - j,
            {
                if str_eq(&built[j].id, id.as_str()) {
                    proof {
                        if j < ordered.len() {
                            assert(self.has_session(ordered@[j as int].id@));
                        } else {
                            assert(fresh@[j - ordered@.len()]@ == fresh@[f as int]@);
                        }
                    }
                    return Err(CoreError::Database(String::from_str("工作会话 ID 已存在")));
                }
                j = j + 1;
            }
            proof {
                assert forall|m: int| 0 <= m < self.session_rows().len() implies self.session_rows()[m].id@ != id@ by {
                    assert(!self.session_at(id@, m));
                }
            }
            Ok(
                WorkSession {
                    id,
                    task_id: task_id.to_owned(),
                    started_at,
                    ended_at,
                    note: None,
                    created_at: upper_text.clone(),
                },
            )
        }
    }

    /// The task's sessions re-timed to `spans`, with a running session from
    /// `upper` when `running`; added sessions take the identifiers of `fresh`
    /// in turn. Every text is rendered before any session is made.
    fn retime(
        &self,
        ordered: &Vec<WorkSession>,
        spans: &Vec<(i128, i128)>,
        running: bool,
        upper: i128,
        upper_text: &String,
        task_id: &str,
        fresh: &Vec<String>,
    ) -> (r: Result<Vec<WorkSession>>)
        requires
            instant_text(upper as int) == Some(upper_text@),
            spans_bounded(spans@),
            distinct_session_ids(ordered@),
            forall|m: int| 0 <= m < ordered@.len() ==> self.has_session(#[trigger] ordered@[m].id@),
        ensures
            match r {
                Ok(new) => retimed(ordered@, spans@, running, upper, task_id@, self.session_rows(), ids_view(fresh@), new@)
                    && fresh_session_ids(
                    self.session_rows(),
                    ids_view(fresh@),
                    sessions_added(spans@, running, ordered@.len() as int),
                ),
                Err(CoreError::InvalidState(_)) => !stamps_exist(spans@, upper),
                Err(CoreError::Database(_)) => stamps_exist(spans@, upper) && !fresh_session_ids(
                    self.session_rows(),
                    ids_view(fresh@),
                    sessions_added(spans@, running, ordered@.len() as int),
                ),
                Err(_) => false,
            },
    {
        let mut texts: Vec<(String, String)> = Vec::new();
        let mut k: usize = 0;
        while k < spans.len()
            invariant
                k <= spans@.len(),
                texts@.len() == k,
                spans_bounded(spans@),
                forall|m: int|
                    0 <= m < k ==> instant_text((#[trigger] spans@[m]).0 as int) == Some(texts@[m].0@)
                        && instant_text(spans@[m].1 as int) == Some(texts@[m].1@) && reads_back(spans@[m].0 as int, texts@[m].0@)
                        && reads_back(spans@[m].1 as int, texts@[m].1@),
            decreases spans@.len() - k,
        {
            let (a, b) = spans[k];
            let start = match format_instant(a) {
                Some(t) => t,
                None => {
                    return Err(CoreError::InvalidState(String::from_str("时间格式无效")));
                },
            };
            let end = match format_instant(b) {
                Some(t) => t,
                None => {
                    return Err(CoreError::InvalidState(String::from_str("时间格式无效")));
                },
            };
            texts.push((start, end));
            k = k + 1;
        }
        let mut built: Vec<WorkSession> = Vec::new();
        let mut k: usize = 0;
        while k < spans.len()
            invariant
                k <= spans@.len(),
                texts@.len() == spans@.len(),
                built@.len() == k,
                instant_text(upper as int) == Some(upper_text@),
                stamps_exist(spans@, upper),
                distinct_session_ids(ordered@),
                distinct_session_ids(built@),
                forall|m: int|
                    0 <= m < spans@.len() ==> instant_text((#[trigger] spans@[m]).0 as int) == Some(texts@[m].0@)
                        && instant_text(spans@[m].1 as int) == Some(texts@[m].1@) && reads_back(spans@[m].0 as int, texts@[m].0@)
                        && reads_back(spans@[m].1 as int, texts@[m].1@),
                forall|m: int|
                    0 <= m < k ==> {
                        let s = #[trigger] built@[m];
                        &&& s.task_id@ == task_id@
                        &&& instant_text(spans@[m].0 as int) == Some(s.started_at@)
                        &&& s.ended_at matches Some(e) && instant_text(spans@[m].1 as int) == Some(e@)
                        &&& reads_back(spans@[m].0 as int, s.started_at@)
                        &&& s.ended_at matches Some(e) && reads_back(spans@[m].1 as int, e@)
                        &&& if m < ordered@.len() {
                            &&& s.id == ordered@[m].id
                            &&& s.note == ordered@[m].note
                            &&& s.created_at == ordered@[m].created_at
                        } else {
                            &&& s.note is None
                            &&& instant_text(upper as int) == Some(s.created_at@)
                            &&& s.id@ == fresh@[m - ordered@.len()]@
                            &&& forall|j: int| 0 <= j < self.session_rows().len() ==> self.session_rows()[j].id@ != s.id@
                        }
                    },
                forall|m: int| 0 <= m < ordered@.len() ==> self.has_session(#[trigger] ordered@[m].id@),
                fresh_session_ids(self.session_rows(), ids_view(fresh@), k - ordered@.len()),
            decreases spans@.len() - k,
        {
            let start = texts[k].0.clone();
            let end = texts[k].1.clone();
            let s = match self.corrected_session(ordered, start, Some(end), upper_text, task_id, fresh, &built) {
                Ok(s) => s,
                Err(e) => {
                    proof {
                        self.lemma_fresh_refused(ordered@, fresh@, built@.len() as int, sessions_added(spans@, running, ordered@.len() as int));
                    }
                    return Err(e);
                },
            };
            let ghost prev = built@;
            built.push(s);
            proof {
                self.lemma_fresh_extended(ordered@, fresh@, prev, s);
                assert forall|x: int, y: int| 0 <= x < y < built@.len() implies built@[x].id@ != built@[y].id@ by {
                    if y == k {
                        if k < ordered@.len() {
                            assert(built@[x].id == ordered@[x].id);
                        } else {
                            assert(built@[x] == prev[x]);
                        }
                    } else {
                        assert(built@[x] == prev[x] && built@[y] == prev[y]);
                    }
                }
            }
            k = k + 1;
        }
        if running {
            let s = match self.corrected_session(ordered, upper_text.clone(), None, upper_text, task_id, fresh, &built) {
                Ok(s) => s,
                Err(e) => {
                    proof {
                        self.lemma_fresh_refused(ordered@, fresh@, built@.len() as int, sessions_added(spans@, running, ordered@.len() as int));
                    }
                    return Err(e);
                },
            };
            let ghost prev = built@;
            built.push(s);
            proof {
                self.lemma_fresh_extended(ordered@, fresh@, prev, s);
                assert forall|x: int, y: int| 0 <= x < y < built@.len() implies built@[x].id@ != built@[y].id@ by {
                    if y == k {
                        if k < ordered@.len() {
                            assert(built@[x].id == ordered@[x].id);
                        } else {
                            assert(built@[x] == prev[x]);
                        }
                    } else {
                        assert(built@[x] == prev[x] && built@[y] == prev[y]);
                    }
                }
            }
        }
        Ok(built)
    }
}

/// What correcting a task's work time does, sessions it adds taking the
/// identifiers of `fresh` in turn.
pub open spec fn correct_work_time_result(pre: TaskStore, post: TaskStore, task_id: &str, expected_version: i64, target_active_minutes: i64, corrected_at: &str, fresh: Seq<Seq<char>>, r: Result<Task>) -> bool {
    &&& (target_active_minutes <= 0 ==> r matches Err(CoreError::InvalidInput(_)))
    &&& (target_active_minutes > 0 && !pre.has_task(task_id@) ==> (r matches Err(CoreError::TaskNotFound(x))
        && x@ == task_id@))
    &&& (forall|i: int|
        pre.task_at(task_id@, i) && target_active_minutes > 0 ==> {
            let t = #[trigger] pre.task_rows()[i];
            let bounds = pre.correction_bounds(t, corrected_at@);
            if t.deleted_at is Some {
                r matches Err(CoreError::InvalidState(_))
            } else if t.version != expected_version {
                r matches Err(CoreError::VersionConflict)
            } else if bounds is None || !pre.blocks_parse(task_id@) {
                r matches Err(CoreError::InvalidState(_))
            } else if !minutes_representable(target_active_minutes) {
                r matches Err(CoreError::InvalidInput(_))
            } else if total(pre.free_time(task_id@, (bounds->0).0, (bounds->0).1)) < minutes_nanos(
                target_active_minutes,
            ) {
                r matches Err(CoreError::InvalidInput(_))
            } else if t.version == i64::MAX {
                r matches Err(CoreError::Database(_))
            } else if !stamps_exist(
                pre.corrected_spans(task_id@, (bounds->0).0, (bounds->0).1, target_active_minutes),
                (bounds->0).1,
            ) {
                r matches Err(CoreError::InvalidState(_))
            } else if pre.sessions_of(task_id@).len() >= pre.corrected_spans(
                task_id@,
                (bounds->0).0,
                (bounds->0).1,
                target_active_minutes,
            ).len() + (if pre.keeps_running(t) { 1int } else { 0int }) {
                r is Ok
            } else if !fresh_session_ids(
                pre.session_rows(),
                fresh,
                sessions_added(
                    pre.corrected_spans(task_id@, (bounds->0).0, (bounds->0).1, target_active_minutes),
                    pre.keeps_running(t),
                    pre.sessions_of(task_id@).len() as int,
                ),
            ) {
                r matches Err(CoreError::Database(_))
            } else {
                r is Ok
            }
        })
    &&& (match r {
        Ok(task) => exists|i: int|
            {
                &&& #[trigger] pre.task_at(task_id@, i)
                &&& {
                    let t = pre.task_rows()[i];
                    let bounds = pre.correction_bounds(t, corrected_at@)->0;
                    let spans = pre.corrected_spans(task_id@, bounds.0, bounds.1, target_active_minutes);
                    let running = pre.keeps_running(t);
                    let others = pre.sessions_not_of(task_id@);
                    let new = post.session_rows().skip(others.len() as int);
                    &&& free_of(pre.free_time(task_id@, bounds.0, bounds.1), pre.blocked_spans(task_id@, bounds.1), bounds.0, bounds.1)
                    &&& post.session_rows() == others + new
                    &&& exists|ordered: Seq<WorkSession>|
                        {
                            &&& ordered.to_multiset() == pre.sessions_of(task_id@).to_multiset()
                            &&& sorted_by_key(ordered)
                            &&& #[trigger] retimed(ordered, spans, running, bounds.1, task_id@, pre.session_rows(), fresh, new)
                        }
                    &&& post.task_rows()[i].updated_at@ == corrected_at@
                    &&& post.task_rows() == pre.task_rows().update(
                        i,
                        Task {
                            updated_at: post.task_rows()[i].updated_at,
                            version: (t.version + 1) as i64,
                            ..t
                        },
                    )
                    &&& post.workspace_rows() == pre.workspace_rows()
                    &&& post.priority_rows() == pre.priority_rows()
                    &&& post.block_rows() == pre.block_rows()
                    &&& task == post.shown(post.task_rows()[i])
                }
            },
        Err(_) => unchanged(pre, post),
    })
}

impl TaskStore {
    /// Sets the recorded work time of a task to `target_active_minutes`,
    /// stamped `corrected_at`. The time is placed as late as it fits between
    /// the task's creation and the end of its active time (its completion,
    /// the start of its open block record, or `corrected_at`), outside its
    /// block records; a task in progress that is not blocked also gets a
    /// session running from that end. The task's version goes up by one.
    /// Sessions it adds get fresh random identifiers.
    pub fn correct_work_time_at(
        &mut self,
        task_id: &str,
        expected_version: i64,
        target_active_minutes: i64,
        corrected_at: &str,
    ) -> (r: Result<Task>)
        requires
            old(self).wf(),
        ensures
            final(self).wf(),
            exists|fresh: Seq<Seq<char>>|
                all_uuid_v4(fresh) && #[trigger] correct_work_time_result(
                    *old(self),
                    *final(self),
                    task_id,
                    expected_version,
                    target_active_minutes,
                    corrected_at,
                    fresh,
                    r,
                ),
    {
        let (r, Ghost(fresh)) = self.correct_work_time_from(task_id, expected_version, target_active_minutes, corrected_at, None);
        assert(all_uuid_v4(fresh) && correct_work_time_result(
            *old(self),
            *self,
            task_id,
            expected_version,
            target_active_minutes,
            corrected_at,
            fresh,
            r,
        ));
        r
    }

    /// Sets the recorded work time of a task as `correct_work_time_at` does,
    /// the sessions it adds taking the identifiers of `fresh` in turn.
    pub fn correct_work_time_with_ids(
        &mut self,
        task_id: &str,
        expected_version: i64,
        target_active_minutes: i64,
        corrected_at: &str,
        fresh: Vec<String>,
    ) -> (r: Result<Task>)
        requires
            old(self).wf(),
        ensures
            final(self).wf(),
            correct_work_time_result(
                *old(self),
                *final(self),
                task_id,
                expected_version,
                target_active_minutes,
                corrected_at,
                ids_view(fresh@),
                r,
            ),
    {
        let (r, _) = self.correct_work_time_from(task_id, expected_version, target_active_minutes, corrected_at, Some(fresh));
        r
    }

    /// The correction itself: added sessions take the identifiers
    /// `supplied`, or fresh random ones when none are supplied.
    fn correct_work_time_from(
        &mut self,
        task_id: &str,
        expected_version: i64,
        target_active_minutes: i64,
        corrected_at: &str,
        supplied: Option<Vec<String>>,
    ) -> (r: (Result<Task>, Ghost<Seq<Seq<char>>>))
        requires
            old(self).wf(),
        ensures
            final(self).wf(),
            correct_work_time_result(*old(self), *final(self), task_id, expected_version, target_active_minutes, corrected_at, r.1@, r.0),
            match supplied {
                Some(v) => r.1@ == ids_view(v@),
                None => all_uuid_v4(r.1@),
            },
    {
        let ghost g0: Seq<Seq<char>> = if supplied is Some {
            ids_view(supplied->0@)
        } else {
            Seq::empty()
        };
        if target_active_minutes <= 0 {
            return (Err(CoreError::InvalidInput(String::from_str("目标进行时长必须大于 0 分钟"))), Ghost(g0));
        }
        let i = match self.find_task(task_id) {
            Some(i) => i,
            None => {
                return (Err(CoreError::TaskNotFound(task_id.to_owned())), Ghost(g0));
            },
        };
        proof {
            assert(old(self).task_at(task_id@, i as int));
            assert forall|j: int| old(self).task_at(task_id@, j) implies j == i by {
                if j < i {
                    assert(self.task_rows()[j].id@ != self.task_rows()[i as int].id@);
                } else if j > i {
                    assert(self.task_rows()[i as int].id@ != self.task_rows()[j].id@);
                }
            }
        }
        let blocked = self.is_blocked(task_id);
        let current = self.tasks[i].clone();
        if current.deleted_at.is_some() {
            return (Err(CoreError::InvalidState(String::from_str("已删除任务不能修改"))), Ghost(g0));
        }
        if current.version != expected_version {
            return (Err(CoreError::VersionConflict), Ghost(g0));
        }
        let end_text: String = if current.status == TaskStatus::Completed {
            match &current.completed_at {
                Some(c) => c.clone(),
                None => {
                    return (Err(CoreError::InvalidState(String::from_str("已完成任务缺少完成时间"))), Ghost(g0));
                },
            }
        } else if blocked {
            self.open_block_start(task_id)
        } else {
            corrected_at.to_owned()
        };
        let ghost bounds = self.correction_bounds(current, corrected_at@);
        let upper = match parse_instant(end_text.as_str()) {
            Some(n) => n,
            None => {
                return (Err(CoreError::InvalidState(String::from_str("时间格式无效"))), Ghost(g0));
            },
        };
        let lower = match parse_instant(current.created_at.as_str()) {
            Some(n) => n,
            None => {
                return (Err(CoreError::InvalidState(String::from_str("时间格式无效"))), Ghost(g0));
            },
        };
        if upper <= lower {
            return (Err(CoreError::InvalidState(String::from_str("任务时间边界无效，无法修正进行时长"))), Ghost(g0));
        }
        proof {
            assert(bounds == Some((lower, upper)));
        }
        let raw = match self.blocked_spans_of(task_id, upper) {
            Some(v) => v,
            None => {
                return (Err(CoreError::InvalidState(String::from_str("时间格式无效"))), Ghost(g0));
            },
        };
        let merged = merge_spans(&raw, lower, upper);
        let windows = available_windows(lower, upper, &merged);
        proof {
            assert forall|t: int| covers(windows@, t) <==> (lower <= t < upper && !covers_clipped(raw@, lower, upper, t)) by {
                if covers(windows@, t) {
                    let j = choose|j: int| 0 <= j < windows@.len() && (#[trigger] windows@[j]).0 <= t < windows@[j].1;
                    assert(lower <= windows@[j].0 && windows@[j].1 <= upper);
                }
            }
            assert(free_of(windows@, raw@, lower, upper));
            lemma_free_windows(windows@, raw@, lower, upper);
            assert(self.free_time(task_id@, lower, upper) == windows@);
            assert(spans_bounded(windows@));
        }
        if target_active_minutes > 153_722_867_280_912 {
            return (Err(CoreError::InvalidInput(String::from_str("目标进行时长超出可表示范围"))), Ghost(g0));
        }
        let target: i128 = (target_active_minutes as i128) * 60_000_000_000;
        let spans = match latest_segments(&windows, target) {
            Some(v) => v,
            None => {
                return (Err(CoreError::InvalidInput(String::from_str("目标进行时长超过可用时间范围"))), Ghost(g0));
            },
        };
        if current.version == i64::MAX {
            return (Err(CoreError::Database(String::from_str("版本号超出范围"))), Ghost(g0));
        }
        let running = current.status == TaskStatus::InProgress && !blocked;
        let upper_text = match format_instant(upper) {
            Some(x) => x,
            None => {
                return (Err(CoreError::InvalidState(String::from_str("时间格式无效"))), Ghost(g0));
            },
        };
        let (mine, others) = self.split_sessions(task_id);
        proof {
            lemma_session_filter(self.session_rows(), |s: WorkSession| s.task_id@ == task_id@);
            lemma_session_filter(self.session_rows(), |s: WorkSession| s.task_id@ != task_id@);
        }
        let ordered = sort_rows(mine);
        proof {
            lemma_permuted_sessions(mine@, ordered@);
        }
        let fresh: Vec<String> = match supplied {
            Some(v) => v,
            None => {
                let mut drawn: Vec<String> = Vec::new();
                let wanted: u128 = (spans.len() as u128) + if running { 1u128 } else { 0u128 };
                while (ordered.len() as u128) + (drawn.len() as u128) < wanted
                    invariant
                        forall|m: int| 0 <= m < drawn@.len() ==> uuid_v4_text(#[trigger] drawn@[m]@),
                    decreases wanted - ordered@.len() - drawn@.len(),
                {
                    drawn.push(new_id());
                }
                proof {
                    assert forall|m: int| 0 <= m < ids_view(drawn@).len() implies uuid_v4_text(#[trigger] ids_view(drawn@)[m]) by {
                        assert(ids_view(drawn@)[m] == drawn@[m]@);
                    }
                }
                drawn
            },
        };
        let ghost g = ids_view(fresh@);
        proof {
            assert forall|m: int| 0 <= m < ordered@.len() implies old(self).has_session(#[trigger] ordered@[m].id@) by {
                assert(mine@.contains(ordered@[m]));
                let jm = choose|jm: int| 0 <= jm < mine@.len() && mine@[jm] == ordered@[m];
                let m2 = choose|m2: int| 0 <= m2 < old(self).session_rows().len() && old(self).session_rows()[m2] == mine@[jm];
                assert(old(self).session_at(ordered@[m].id@, m2));
            }
        }
        proof {
            assert(ordered@.to_multiset().len() == mine@.to_multiset().len());
            assert(ordered@.len() == old(self).sessions_of(task_id@).len());
            assert(spans@ == old(self).corrected_spans(task_id@, lower, upper, target_active_minutes));
            assert(old(self).correction_bounds(old(self).task_rows()[i as int], corrected_at@)->0 == (lower, upper));
            assert(running == old(self).keeps_running(old(self).task_rows()[i as int]));
        }
        let new = match self.retime(&ordered, &spans, running, upper, &upper_text, task_id, &fresh) {
            Ok(v) => v,
            Err(e) => {
                return (Err(e), Ghost(g));
            },
        };
        let ghost old_rows = self.session_rows();
        let ghost others_seq = others@;
        let ghost new_seq = new@;
        let mut rows = others;
        let mut tail = new;
        rows.append(&mut tail);
        self.sessions = rows;
        let next = Task { updated_at: corrected_at.to_owned(), version: current.version + 1, ..current };
        self.tasks.set(i, next);
        proof {
            let rows = self.session_rows();
            assert(rows == others_seq + new_seq);
            assert(rows.skip(others_seq.len() as int) =~= new_seq);
            assert forall|a: int, b: int| 0 <= a < b < rows.len() implies rows[a].id@ != rows[b].id@ by {
                if b < others_seq.len() {
                    assert(rows[a] == others_seq[a] && rows[b] == others_seq[b]);
                } else if a >= others_seq.len() {
                    assert(rows[a] == new_seq[a - others_seq.len()] && rows[b] == new_seq[b - others_seq.len()]);
                } else {
                    let o = others_seq[a];
                    let k = b - others_seq.len();
                    let n = new_seq[k];
                    assert(rows[a] == o && rows[b] == n);
                    let m = choose|m: int| 0 <= m < old_rows.len() && old_rows[m] == o;
                    if k < ordered@.len() {
                        assert(mine@.contains(ordered@[k]));
                        let jm = choose|jm: int| 0 <= jm < mine@.len() && mine@[jm] == ordered@[k];
                        let m2 = choose|m2: int| 0 <= m2 < old_rows.len() && old_rows[m2] == mine@[jm];
                        assert(o.task_id@ != task_id@);
                        assert(old_rows[m2].task_id@ == task_id@);
                        if m < m2 {
                            assert(old_rows[m].id@ != old_rows[m2].id@);
                        } else {
                            assert(old_rows[m2].id@ != old_rows[m].id@);
                        }
                    } else {
                        assert(old_rows[m].id@ != n.id@);
                    }
                }
            }
            assert forall|a: int, b: int|
                0 <= a < b < rows.len() && active_session(rows[a]) && active_session(rows[b]) implies rows[a].task_id@
                != rows[b].task_id@ by {
                if b < others_seq.len() {
                    let o1 = others_seq[a];
                    let o2 = others_seq[b];
                    assert(rows[a] == o1 && rows[b] == o2);
                    let m1 = choose|m: int| 0 <= m < old_rows.len() && old_rows[m] == o1;
                    let m2 = choose|m: int| 0 <= m < old_rows.len() && old_rows[m] == o2;
                    assert(o1.id@ != o2.id@);
                    if m1 < m2 {
                        assert(old_rows[m1].task_id@ != old_rows[m2].task_id@);
                    } else if m2 < m1 {
                        assert(old_rows[m2].task_id@ != old_rows[m1].task_id@);
                    }
                } else if a >= others_seq.len() {
                    assert(rows[a] == new_seq[a - others_seq.len()] && rows[b] == new_seq[b - others_seq.len()]);
                    assert(a - others_seq.len() < spans@.len());
                } else {
                    assert(rows[a] == others_seq[a] && rows[b] == new_seq[b - others_seq.len()]);
                }
            }
            let trows = self.task_rows();
            assert forall|a: int, b: int| 0 <= a < b < trows.len() implies trows[a].id@ != trows[b].id@ by {
                assert(trows[a].id == old(self).task_rows()[a].id && trows[b].id == old(self).task_rows()[b].id);
            }
            let pre = *old(self);
            assert forall|k: int| 0 <= k < pre.task_rows().len() implies (#[trigger] trows[k]).id == pre.task_rows()[k].id
                && same_task_refs(pre.task_rows()[k], trows[k]) by {
                if k != i {
                    assert(trows[k] == pre.task_rows()[k]);
                }
            }
            assert forall|k: int| 0 <= k < rows.len() implies (k < pre.session_rows().len() && (
            #[trigger] rows[k]).task_id == pre.session_rows()[k].task_id) || lists_task(pre.task_rows(), rows[k].task_id@) by {
                if k < others_seq.len() {
                    let o = others_seq[k];
                    assert(rows[k] == o);
                    let m = choose|m: int| 0 <= m < old_rows.len() && old_rows[m] == o;
                    assert(lists_task(pre.task_rows(), old_rows[m].task_id@));
                } else {
                    assert(rows[k] == new_seq[k - others_seq.len()]);
                    assert(pre.task_rows()[i as int].id@ == task_id@);
                }
            }
            assert forall|k: int| 0 <= k < self.block_rows().len() implies (k < pre.block_rows().len() && (
            #[trigger] self.block_rows()[k]).task_id == pre.block_rows()[k].task_id) || lists_task(
                pre.task_rows(),
                self.block_rows()[k].task_id@,
            ) by {}
            lemma_activity_refs(pre, *self);
            assert(spans@ == old(self).corrected_spans(task_id@, lower, upper, target_active_minutes));
            assert(stamps_exist(spans@, upper)) by {
                assert forall|k: int| 0 <= k < spans@.len() implies instant_text((#[trigger] spans@[k]).0 as int) is Some
                    && instant_text(spans@[k].1 as int) is Some by {
                    let sk = new_seq[k];
                    assert(instant_text(spans@[k].0 as int) == Some(sk.started_at@));
                }
            }
            assert(old(self).correction_bounds(old(self).task_rows()[i as int], corrected_at@)->0 == (lower, upper));
            assert(ordered@.to_multiset() == old(self).sessions_of(task_id@).to_multiset());
            let t = old(self).task_rows()[i as int];
            assert(self.task_rows() == old(self).task_rows().update(
                i as int,
                Task { updated_at: self.task_rows()[i as int].updated_at, version: (t.version + 1) as i64, ..t },
            ));
            let bounds = old(self).correction_bounds(t, corrected_at@)->0;
            assert(retimed(
                ordered@,
                old(self).corrected_spans(task_id@, bounds.0, bounds.1, target_active_minutes),
                old(self).keeps_running(t),
                bounds.1,
                task_id@,
                old(self).session_rows(),
                g,
                self.session_rows().skip(old(self).sessions_not_of(task_id@).len() as int),
            ));
        }
        let result = self.show_task(i);
        proof {
            assert(old(self).task_at(task_id@, i as int));
        }
        (Ok(result), Ghost(g))
    }
}

/// Corrected work time has exactly the length asked for, and lies between
/// the task's creation and the end of its active time, outside every span
/// its live block records cover; it is placed as late as it fits: every free
/// instant from its start on belongs to it.
pub proof fn lemma_corrected_time(store: TaskStore, task_id: Seq<char>, lower: i128, upper: i128, minutes: i64)
    requires
        bounded(lower as int),
        bounded(upper as int),
        free_of(store.free_time(task_id, lower, upper), store.blocked_spans(task_id, upper), lower, upper),
        0 < minutes,
        minutes_representable(minutes),
        minutes_nanos(minutes) <= total(store.free_time(task_id, lower, upper)),
    ensures
        total(store.corrected_spans(task_id, lower, upper, minutes)) == minutes_nanos(minutes),
        separated(store.corrected_spans(task_id, lower, upper, minutes)),
        forall|t: int|
            covers(store.corrected_spans(task_id, lower, upper, minutes), t) ==> lower <= t < upper
                && !covers_clipped(store.blocked_spans(task_id, upper), lower, upper, t),
        store.corrected_spans(task_id, lower, upper, minutes).len() > 0,
        forall|t: int|
            lower <= t < upper && !covers_clipped(store.blocked_spans(task_id, upper), lower, upper, t)
                && store.corrected_spans(task_id, lower, upper, minutes)[0].0 <= t ==> covers(
                store.corrected_spans(task_id, lower, upper, minutes),
                t,
            ),
{
    let free = store.free_time(task_id, lower, upper);
    assert(spans_bounded(free));
    lemma_latest_spans(free, minutes_nanos(minutes));
    let corrected = store.corrected_spans(task_id, lower, upper, minutes);
    assert forall|t: int| covers(corrected, t) implies lower <= t < upper && !covers_clipped(
        store.blocked_spans(task_id, upper),
        lower,
        upper,
        t,
    ) by {
        assert(covers(free, t));
    }
    assert forall|t: int|
        lower <= t < upper && !covers_clipped(store.blocked_spans(task_id, upper), lower, upper, t) && corrected[0].0
            <= t implies covers(corrected, t) by {
        assert(covers(free, t));
    }
}

/// The instants the stamps of the first `n` of `sessions` name, each as the
/// span from its start to its end.
pub open spec fn reread(sessions: Seq<WorkSession>, n: int) -> Seq<(i128, i128)> {
    Seq::new(
        n as nat,
        |k: int| (instant_of(sessions[k].started_at@), instant_of(sessions[k].ended_at->Some_0@)),
    )
}

proof fn lemma_instant_bounded(text: Seq<char>)
    ensures
        bounded(instant_of(text) as int),
{
    match spec_rfc3339_instant(text) {
        Some(parts) => {
            let secs = parts.0 as int;
            let nanos = parts.1 as int;
            assert(-0x10_0000_0000_0000_0000_0000_0000 <= secs * 1_000_000_000 + nanos <= 0x10_0000_0000_0000_0000_0000_0000)
                by (nonlinear_arith)
                requires
                    -0x8000_0000_0000_0000 <= secs < 0x8000_0000_0000_0000,
                    0 <= nanos < 0x1_0000_0000,
            ;
        },
        None => {},
    }
}

/// Read back from the stored stamps, a correction holds: where the corrected
/// stretch begins and ends on whole milliseconds between the years 0 and
/// 9999, the task's closed sessions after it name exactly the corrected
/// spans, so their lengths add up to the minutes asked for; they lie between
/// the task's creation and the end of its active time, apart from each other
/// and outside its block records; and every free instant from the first
/// one's start on lies in one of them. The running session, if any, comes
/// after them and is still running.
pub proof fn lemma_corrected_stamps(
    pre: TaskStore,
    post: TaskStore,
    task_id: &str,
    expected_version: i64,
    minutes: i64,
    corrected_at: &str,
    fresh: Seq<Seq<char>>,
    task: Task,
    i: int,
)
    requires
        pre.wf(),
        correct_work_time_result(pre, post, task_id, expected_version, minutes, corrected_at, fresh, Ok(task)),
        pre.task_at(task_id@, i),
        ({
            let bounds = pre.correction_bounds(pre.task_rows()[i], corrected_at@)->0;
            let spans = pre.corrected_spans(task_id@, bounds.0, bounds.1, minutes);
            forall|k: int| 0 <= k < spans.len() ==> ms_instant(spans[k].0 as int) && ms_instant(spans[k].1 as int)
        }),
    ensures
        ({
            let t = pre.task_rows()[i];
            let bounds = pre.correction_bounds(t, corrected_at@)->0;
            let (lower, upper) = (bounds.0, bounds.1);
            let spans = pre.corrected_spans(task_id@, lower, upper, minutes);
            let new = post.session_rows().skip(pre.sessions_not_of(task_id@).len() as int);
            let stored = reread(new, spans.len() as int);
            &&& forall|k: int| 0 <= k < spans.len() ==> (#[trigger] new[k]).task_id@ == task_id@ && new[k].ended_at is Some
            &&& new.len() == spans.len() + if pre.keeps_running(t) { 1int } else { 0int }
            &&& pre.keeps_running(t) ==> new[spans.len() as int].ended_at is None
            &&& stored == spans
            &&& total(stored) == minutes_nanos(minutes)
            &&& separated(stored)
            &&& forall|x: int|
                covers(stored, x) ==> lower <= x < upper && !covers_clipped(pre.blocked_spans(task_id@, upper), lower, upper, x)
            &&& stored.len() > 0
            &&& forall|x: int|
                lower <= x < upper && !covers_clipped(pre.blocked_spans(task_id@, upper), lower, upper, x) && stored[0].0
                    <= x ==> covers(stored, x)
        }),
{
    let t = pre.task_rows()[i];
    let bounds = pre.correction_bounds(t, corrected_at@)->0;
    let (lower, upper) = (bounds.0, bounds.1);
    let spans = pre.corrected_spans(task_id@, lower, upper, minutes);
    let new = post.session_rows().skip(pre.sessions_not_of(task_id@).len() as int);
    let stored = reread(new, spans.len() as int);
    let j = choose|j: int|
        #[trigger] pre.task_at(task_id@, j) && {
            let t2 = pre.task_rows()[j];
            let b2 = pre.correction_bounds(t2, corrected_at@)->0;
            let sp = pre.corrected_spans(task_id@, b2.0, b2.1, minutes);
            let others = pre.sessions_not_of(task_id@);
            let nw = post.session_rows().skip(others.len() as int);
            &&& free_of(pre.free_time(task_id@, b2.0, b2.1), pre.blocked_spans(task_id@, b2.1), b2.0, b2.1)
            &&& post.session_rows() == others + nw
            &&& exists|ordered: Seq<WorkSession>|
                {
                    &&& ordered.to_multiset() == pre.sessions_of(task_id@).to_multiset()
                    &&& sorted_by_key(ordered)
                    &&& #[trigger] retimed(ordered, sp, pre.keeps_running(t2), b2.1, task_id@, pre.session_rows(), fresh, nw)
                }
        };
    assert(j == i) by {
        if j != i {
            if j < i {
                assert(pre.task_rows()[j].id@ != pre.task_rows()[i].id@);
            } else {
                assert(pre.task_rows()[i].id@ != pre.task_rows()[j].id@);
            }
        }
    }
    let ordered = choose|ordered: Seq<WorkSession>|
        {
            &&& ordered.to_multiset() == pre.sessions_of(task_id@).to_multiset()
            &&& sorted_by_key(ordered)
            &&& #[trigger] retimed(ordered, spans, pre.keeps_running(t), upper, task_id@, pre.session_rows(), fresh, new)
        };
    assert forall|k: int| 0 <= k < spans.len() implies #[trigger] stored[k] == spans[k] by {
        let s = new[k];
        assert(reads_back(spans[k].0 as int, s.started_at@));
        assert(s.ended_at matches Some(e) && reads_back(spans[k].1 as int, e@));
        assert(instant_of(s.started_at@) == spans[k].0);
        assert(instant_of(s.ended_at->Some_0@) == spans[k].1);
    }
    assert(stored =~= spans);
    lemma_instant_bounded(t.created_at@);
    lemma_instant_bounded(pre.correction_end(t, corrected_at@)->Some_0);
    lemma_corrected_time(pre, task_id@, lower, upper, minutes);
}

} // verus!
