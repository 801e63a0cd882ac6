//! The store as one side of a synchronization: the snapshot it hands out and
//! the merged snapshot it takes back in place of its data.

use vstd::prelude::*;
use crate::domain::{Priority, Task, TaskBlock, WorkSession, Workspace};
use crate::error::{CoreError, Result};
use crate::lifecycle::unchanged;
use crate::merge_laws::id_set;
use crate::store::{lists_priority, lists_task, lists_workspace, refs_within, task_refs_within, TaskStore};
use crate::sync::{
    close_finished, distinct_ids, ensure_valid_snapshot, flagged, leader, leads, lemma_outranks_order,
    normalize_for_storage, normalized_from, outranks, resolved, valid_snapshot, SyncActivity, SyncRecord,
    SyncSnapshot, bootstrap_seed, finish_time, finished, task_named, one_open_per_owner, lemma_resolved_one_open,
};

verus! {

/// The closed records first, then the open ones, each in their order.
pub open spec fn closed_first<T: SyncActivity>(rows: Seq<T>) -> Seq<T> {
    rows.filter(|x: T| !x.is_open()) + rows.filter(|x: T| x.is_open())
}

/// `rows` written one by one, a record taking the place of the one already
/// written with its identifier.
pub open spec fn upserted<T: SyncRecord>(rows: Seq<T>) -> Seq<T>
    decreases rows.len(),
{
    if rows.len() == 0 {
        Seq::empty()
    } else {
        let prev = upserted(rows.drop_last());
        let x = rows.last();
        if exists|p: int| 0 <= p < prev.len() && prev[p].record_id() == x.record_id() {
            prev.update(choose|p: int| 0 <= p < prev.len() && prev[p].record_id() == x.record_id(), x)
        } else {
            prev.push(x)
        }
    }
}

proof fn lemma_filter_one_open<T: SyncActivity>(rows: Seq<T>, pred: spec_fn(T) -> bool)
    requires
        one_open_per_owner(rows),
    ensures
        one_open_per_owner(rows.filter(pred)),
        forall|k: int| 0 <= k < rows.filter(pred).len() ==> pred(#[trigger] rows.filter(pred)[k]),
    decreases rows.len(),
{
    reveal(Seq::filter);
    if rows.len() > 0 {
        let init = rows.drop_last();
        assert(one_open_per_owner(init)) by {
            assert forall|i: int, j: int|
                0 <= i < j < init.len() && init[i].is_open() && init[j].is_open() implies init[i].owner()
                != init[j].owner() by {
                assert(init[i] == rows[i] && init[j] == rows[j]);
            }
        }
        lemma_filter_one_open(init, pred);
        let fi = init.filter(pred);
        let out = rows.filter(pred);
        if pred(rows.last()) {
            assert(out == fi.push(rows.last()));
            assert forall|i: int, j: int|
                0 <= i < j < out.len() && out[i].is_open() && out[j].is_open() implies out[i].owner()
                != out[j].owner() by {
                if j == out.len() - 1 {
                    assert(out[i] == fi[i]);
                    init.lemma_filter_contains_rev(pred, fi[i]);
                    let m = choose|m: int| 0 <= m < init.len() && init[m] == fi[i];
                    assert(rows[m] == init[m]);
                } else {
                    assert(out[i] == fi[i] && out[j] == fi[j]);
                }
            }
        } else {
            assert(out == fi);
        }
    }
}

proof fn lemma_closed_first_one_open<T: SyncActivity>(rows: Seq<T>)
    requires
        one_open_per_owner(rows),
    ensures
        one_open_per_owner(closed_first(rows)),
{
    let closed = |x: T| !x.is_open();
    let open = |x: T| x.is_open();
    lemma_filter_one_open(rows, closed);
    lemma_filter_one_open(rows, open);
    let a = rows.filter(closed);
    let b = rows.filter(open);
    let c = a + b;
    assert forall|i: int, j: int|
        0 <= i < j < c.len() && c[i].is_open() && c[j].is_open() implies c[i].owner() != c[j].owner() by {
        if i < a.len() {
            assert(c[i] == a[i]);
            assert(closed(a[i]));
        } else {
            assert(c[i] == b[i - a.len()] && c[j] == b[j - a.len()]);
        }
    }
}

proof fn lemma_upserted_from<T: SyncActivity>(rows: Seq<T>)
    requires
        distinct_ids(upserted(rows)),
    ensures
        forall|k: int| 0 <= k < upserted(rows).len() ==> rows.contains(#[trigger] upserted(rows)[k]),
    decreases rows.len(),
{
    if rows.len() > 0 {
        let init = rows.drop_last();
        let prev = upserted(init);
        let x = rows.last();
        let out = upserted(rows);
        assert(distinct_ids(prev)) by {
            if exists|p: int| 0 <= p < prev.len() && prev[p].record_id() == x.record_id() {
                let p = choose|p: int| 0 <= p < prev.len() && prev[p].record_id() == x.record_id();
                assert forall|i: int, j: int| 0 <= i < j < prev.len() implies prev[i].record_id()
                    != prev[j].record_id() by {
                    if i == p {
                        assert(out[j] == prev[j]);
                        assert(out[i] == x);
                    } else if j == p {
                        assert(out[i] == prev[i]);
                        assert(out[j] == x);
                    } else {
                        assert(out[i] == prev[i] && out[j] == prev[j]);
                    }
                }
            } else {
                assert forall|i: int, j: int| 0 <= i < j < prev.len() implies prev[i].record_id()
                    != prev[j].record_id() by {
                    assert(out[i] == prev[i] && out[j] == prev[j]);
                }
            }
        }
        lemma_upserted_from(init);
        assert forall|k: int| 0 <= k < out.len() implies rows.contains(#[trigger] out[k]) by {
            if out[k] == x {
                assert(rows[rows.len() - 1] == x);
            } else {
                assert(out[k] == prev[k]);
                assert(init.contains(prev[k]));
                let m = choose|m: int| 0 <= m < init.len() && init[m] == prev[k];
                assert(rows[m] == init[m]);
            }
        }
    }
}

proof fn lemma_upserted_one_open<T: SyncActivity>(rows: Seq<T>)
    requires
        distinct_ids(upserted(rows)),
        one_open_per_owner(rows),
    ensures
        one_open_per_owner(upserted(rows)),
{
    lemma_upserted_from(rows);
    let out = upserted(rows);
    assert forall|i: int, j: int|
        0 <= i < j < out.len() && out[i].is_open() && out[j].is_open() implies out[i].owner() != out[j].owner() by {
        assert(rows.contains(out[i]) && rows.contains(out[j]));
        let a = choose|a: int| 0 <= a < rows.len() && rows[a] == out[i];
        let b = choose|b: int| 0 <= b < rows.len() && rows[b] == out[j];
        assert(out[i].record_id() != out[j].record_id());
        if a < b {
        } else if b < a {
        }
    }
}

fn upsert_all<T: SyncRecord>(rows: Vec<T>) -> (r: Vec<T>)
    ensures
        r@ == upserted(rows@),
        distinct_ids(r@),
{
    let mut out: Vec<T> = Vec::new();
    let mut k: usize = 0;
    proof {
        assert(rows@.take(0) =~= Seq::<T>::empty());
    }
    while k < rows.len()
        invariant
            k <= rows@.len(),
            out@ == upserted(rows@.take(k as int)),
            distinct_ids(out@),
        decreases rows@.len() - k,
    {
        proof {
            assert(rows@.take(k + 1).drop_last() =~= rows@.take(k as int));
        }
        let x = rows[k].duplicate();
        let ghost prev = out@;
        match crate::sync::position_of(&out, x.sync_id()) {
            Some(p) => {
                proof {
                    let c = choose|c: int| 0 <= c < prev.len() && prev[c].record_id() == x.record_id();
                    if c < p {
                        assert(prev[c].record_id() != prev[p as int].record_id());
                    } else if c > p {
                        assert(prev[p as int].record_id() != prev[c].record_id());
                    }
                }
                out.set(p, x);
                proof {
                    assert forall|i: int, j: int| 0 <= i < j < out@.len() implies out@[i].record_id()
                        != out@[j].record_id() by {
                        if i != p && j != p {
                            assert(out@[i] == prev[i] && out@[j] == prev[j]);
                        } else if i == p {
                            assert(out@[j] == prev[j]);
                        } else {
                            assert(out@[i] == prev[i]);
                        }
                    }
                }
            },
            None => {
                out.push(x);
                proof {
                    assert forall|i: int, j: int| 0 <= i < j < out@.len() implies out@[i].record_id()
                        != out@[j].record_id() by {
                        assert(out@[i] == prev[i]);
                        if j < prev.len() {
                            assert(out@[j] == prev[j]);
                        }
                    }
                }
            },
        }
        k = k + 1;
    }
    proof {
        assert(rows@.take(rows@.len() as int) =~= rows@);
    }
    out
}

fn split_open<T: SyncActivity>(rows: Vec<T>) -> (r: Vec<T>)
    ensures
        r@ == closed_first(rows@),
{
    let ghost closed = |x: T| !x.is_open();
    let ghost open = |x: T| x.is_open();
    let mut first: Vec<T> = Vec::new();
    let mut second: Vec<T> = Vec::new();
    let mut k: usize = 0;
    while k < rows.len()
        invariant
            k <= rows@.len(),
            closed == (|x: T| !x.is_open()),
            open == (|x: T| x.is_open()),
            first@ == rows@.take(k as int).filter(closed),
            second@ == rows@.take(k as int).filter(open),
        decreases rows@.len() - k,
    {
        proof {
            reveal(Seq::filter);
            assert(rows@.take(k + 1).drop_last() =~= rows@.take(k as int));
        }
        let x = rows[k].duplicate();
        if x.sync_is_active() {
            second.push(x);
        } else {
            first.push(x);
        }
        k = k + 1;
    }
    proof {
        assert(rows@.take(rows@.len() as int) =~= rows@);
    }
    first.append(&mut second);
    first
}

/// A copy of a snapshot.
pub fn copy_snapshot(s: &SyncSnapshot) -> (r: SyncSnapshot)
    ensures
        r.workspaces@ == s.workspaces@,
        r.priorities@ == s.priorities@,
        r.tasks@ == s.tasks@,
        r.task_blocks@ == s.task_blocks@,
        r.work_sessions@ == s.work_sessions@,
{
    SyncSnapshot {
        workspaces: copy_rows(&s.workspaces),
        priorities: copy_rows(&s.priorities),
        tasks: copy_rows(&s.tasks),
        task_blocks: copy_rows(&s.task_blocks),
        work_sessions: copy_rows(&s.work_sessions),
    }
}

fn copy_rows<T: SyncRecord>(rows: &Vec<T>) -> (r: Vec<T>)
    ensures
        r@ == rows@,
{
    let mut out: Vec<T> = Vec::new();
    let mut k: usize = 0;
    while k < rows.len()
        invariant
            k <= rows@.len(),
            out@ == rows@.take(k as int),
        decreases rows@.len() - k,
    {
        out.push(rows[k].duplicate());
        proof {
            assert(rows@.take(k + 1) =~= rows@.take(k as int).push(rows@[k as int]));
        }
        k = k + 1;
    }
    proof {
        assert(rows@.take(rows@.len() as int) =~= rows@);
    }
    out
}

/// Every record of the normalized snapshot, as applying writes it, names
/// only workspaces, priorities and tasks that the snapshot holds.
pub open spec fn applied_refs_hold(snapshot: SyncSnapshot) -> bool {
    let blocks = resolved(close_finished(snapshot.task_blocks@, snapshot.tasks@));
    let sessions = resolved(close_finished(snapshot.work_sessions@, snapshot.tasks@));
    refs_within(
        snapshot.workspaces@,
        snapshot.priorities@,
        flagged(snapshot.tasks@, blocks),
        closed_first(blocks),
        closed_first(sessions),
    )
}

/// Whether some record of `rows` has identifier `id`.
fn holds_id<T: SyncRecord>(rows: &Vec<T>, id: &str) -> (r: bool)
    ensures
        r == exists|i: int| 0 <= i < rows@.len() && (#[trigger] rows@[i]).record_id() == id@,
{
    match crate::sync::position_of(rows, id) {
        Some(_) => true,
        None => false,
    }
}

/// Whether every reference of the tables names a record they hold.
fn refs_hold(
    ws: &Vec<Workspace>,
    ps: &Vec<Priority>,
    ts: &Vec<Task>,
    bs: &Vec<TaskBlock>,
    ss: &Vec<WorkSession>,
) -> (r: bool)
    ensures
        r == refs_within(ws@, ps@, ts@, bs@, ss@),
{
    let mut k: usize = 0;
    while k < ps.len()
        invariant
            k <= ps@.len(),
            forall|i: int| 0 <= i < k ==> lists_workspace(ws@, (#[trigger] ps@[i]).workspace_id@),
        decreases ps@.len() - k,
    {
        if !holds_id(ws, ps[k].workspace_id.as_str()) {
            return false;
        }
        k = k + 1;
    }
    let mut k: usize = 0;
    while k < ts.len()
        invariant
            k <= ts@.len(),
            forall|i: int| 0 <= i < k ==> task_refs_within(#[trigger] ts@[i], ws@, ps@),
        decreases ts@.len() - k,
    {
        let t = &ts[k];
        let w_ok = match &t.workspace_id {
            Some(w) => holds_id(ws, w.as_str()),
            None => true,
        };
        let p_ok = match &t.priority_id {
            Some(p) => holds_id(ps, p.as_str()),
            None => true,
        };
        let h_ok = match &t.home_workspace_id {
            Some(h) => holds_id(ws, h.as_str()),
            None => true,
        };
        if !(w_ok && p_ok && h_ok) {
            return false;
        }
        k = k + 1;
    }
    let mut k: usize = 0;
    while k < bs.len()
        invariant
            k <= bs@.len(),
            forall|i: int| 0 <= i < k ==> lists_task(ts@, (#[trigger] bs@[i]).task_id@),
        decreases bs@.len() - k,
    {
        if !holds_id(ts, bs[k].task_id.as_str()) {
            return false;
        }
        k = k + 1;
    }
    let mut k: usize = 0;
    while k < ss.len()
        invariant
            k <= ss@.len(),
            forall|i: int| 0 <= i < k ==> lists_task(ts@, (#[trigger] ss@[i]).task_id@),
        decreases ss@.len() - k,
    {
        if !holds_id(ts, ss[k].task_id.as_str()) {
            return false;
        }
        k = k + 1;
    }
    true
}

/// Every record `upserted(rows)` holds is one of `rows`.
proof fn lemma_upserted_members<T: SyncRecord>(rows: Seq<T>)
    ensures
        forall|j: int| 0 <= j < upserted(rows).len() ==> rows.contains(#[trigger] upserted(rows)[j]),
    decreases rows.len(),
{
    if rows.len() > 0 {
        let init = rows.drop_last();
        let prev = upserted(init);
        let x = rows.last();
        let out = upserted(rows);
        lemma_upserted_members(init);
        assert forall|j: int| 0 <= j < out.len() implies rows.contains(#[trigger] out[j]) by {
            if out[j] == x {
                assert(rows[rows.len() - 1] == x);
            } else {
                if exists|p: int| 0 <= p < prev.len() && prev[p].record_id() == x.record_id() {
                    let p = choose|p: int| 0 <= p < prev.len() && prev[p].record_id() == x.record_id();
                    assert(out == prev.update(p, x));
                    assert(out[j] == prev[j]);
                } else {
                    assert(out == prev.push(x));
                    assert(out[j] == prev[j]);
                }
                assert(init.contains(prev[j]));
                let i = choose|i: int| 0 <= i < init.len() && init[i] == prev[j];
                assert(rows[i] == init[i]);
            }
        }
    }
}

/// The references of the tables still hold once each is written one record
/// after another.
proof fn lemma_upserted_refs(
    ws: Seq<Workspace>,
    ps: Seq<Priority>,
    ts: Seq<Task>,
    bs: Seq<TaskBlock>,
    ss: Seq<WorkSession>,
)
    requires
        refs_within(ws, ps, ts, bs, ss),
    ensures
        refs_within(upserted(ws), upserted(ps), upserted(ts), upserted(bs), upserted(ss)),
{
    let (uw, up, ut, ub, us) = (upserted(ws), upserted(ps), upserted(ts), upserted(bs), upserted(ss));
    lemma_upserted_ids(ws);
    lemma_upserted_ids(ps);
    lemma_upserted_ids(ts);
    lemma_upserted_members(ps);
    lemma_upserted_members(ts);
    lemma_upserted_members(bs);
    lemma_upserted_members(ss);
    assert forall|x: Seq<char>| lists_workspace(ws, x) implies lists_workspace(uw, x) by {
        let i = choose|i: int| 0 <= i < ws.len() && ws[i].id@ == x;
        assert(ws[i].record_id() == x);
    }
    assert forall|x: Seq<char>| lists_priority(ps, x) implies lists_priority(up, x) by {
        let i = choose|i: int| 0 <= i < ps.len() && ps[i].id@ == x;
        assert(ps[i].record_id() == x);
    }
    assert forall|x: Seq<char>| lists_task(ts, x) implies lists_task(ut, x) by {
        let i = choose|i: int| 0 <= i < ts.len() && ts[i].id@ == x;
        assert(ts[i].record_id() == x);
    }
    assert forall|j: int| 0 <= j < up.len() implies lists_workspace(uw, (#[trigger] up[j]).workspace_id@) by {
        let i = choose|i: int| 0 <= i < ps.len() && ps[i] == up[j];
        assert(lists_workspace(ws, ps[i].workspace_id@));
    }
    assert forall|j: int| 0 <= j < ut.len() implies task_refs_within(#[trigger] ut[j], uw, up) by {
        let i = choose|i: int| 0 <= i < ts.len() && ts[i] == ut[j];
        assert(task_refs_within(ts[i], ws, ps));
    }
    assert forall|j: int| 0 <= j < ub.len() implies lists_task(ut, (#[trigger] ub[j]).task_id@) by {
        let i = choose|i: int| 0 <= i < bs.len() && bs[i] == ub[j];
        assert(lists_task(ts, bs[i].task_id@));
    }
    assert forall|j: int| 0 <= j < us.len() implies lists_task(ut, (#[trigger] us[j]).task_id@) by {
        let i = choose|i: int| 0 <= i < ss.len() && ss[i] == us[j];
        assert(lists_task(ts, ss[i].task_id@));
    }
}

impl TaskStore {
    /// `s` holds every row of the store, deleted ones too; tasks as handed out.
    pub open spec fn snapshot_of(&self, s: SyncSnapshot) -> bool {
        &&& s.workspaces@ == self.workspace_rows()
        &&& s.priorities@ == self.priority_rows()
        &&& s.tasks@ == self.task_rows().map_values(|t: Task| self.shown(t))
        &&& s.task_blocks@ == self.block_rows()
        &&& s.work_sessions@ == self.session_rows()
    }

    /// The store holds `snapshot` as applying it writes it: normalized, and
    /// within each table a later record with an identifier in place of an
    /// earlier one, block records and sessions written closed ones first.
    pub open spec fn holds_applied(&self, snapshot: SyncSnapshot) -> bool {
        let blocks = resolved(close_finished(snapshot.task_blocks@, snapshot.tasks@));
        let sessions = resolved(close_finished(snapshot.work_sessions@, snapshot.tasks@));
        &&& self.workspace_rows() == upserted(snapshot.workspaces@)
        &&& self.priority_rows() == upserted(snapshot.priorities@)
        &&& self.task_rows() == upserted(flagged(snapshot.tasks@, blocks))
        &&& self.block_rows() == upserted(closed_first(blocks))
        &&& self.session_rows() == upserted(closed_first(sessions))
    }

    /// Everything the store holds, deleted records too.
    pub fn sync_snapshot(&self) -> (r: Result<SyncSnapshot>)
        ensures
            r matches Ok(s) && self.snapshot_of(s),
    {
        let mut tasks: Vec<Task> = Vec::new();
        let mut k: usize = 0;
        while k < self.tasks.len()
            invariant
                k <= self.task_rows().len(),
                tasks@ == self.task_rows().take(k as int).map_values(|t: Task| self.shown(t)),
            decreases self.task_rows().len() - k,
        {
            tasks.push(self.show_task(k));
            proof {
                assert(self.task_rows().take(k + 1).map_values(|t: Task| self.shown(t)) =~= self.task_rows().take(
                    k as int,
                ).map_values(|t: Task| self.shown(t)).push(self.shown(self.task_rows()[k as int])));
            }
            k = k + 1;
        }
        proof {
            assert(self.task_rows().take(self.task_rows().len() as int) =~= self.task_rows());
        }
        Ok(
            SyncSnapshot {
                workspaces: copy_rows(&self.workspaces),
                priorities: copy_rows(&self.priorities),
                tasks,
                task_blocks: copy_rows(&self.blocks),
                work_sessions: copy_rows(&self.sessions),
            },
        )
    }

    /// Replaces the store's data with a merged snapshot, normalized first.
    /// The snapshot is the whole union chosen by the merge, not a patch.
    /// Within a table a later record with an identifier takes the place of an
    /// earlier one; block records and sessions are written closed ones first.
    /// A record that names a workspace, priority or task the snapshot does
    /// not hold is refused as a storage error, and nothing changes.
    pub fn apply_sync_snapshot(&mut self, snapshot: SyncSnapshot) -> (r: Result<()>)
        requires
            old(self).wf(),
        ensures
            final(self).wf(),
            r is Ok <==> valid_snapshot(snapshot) && applied_refs_hold(snapshot),
            r matches Err(e) ==> if valid_snapshot(snapshot) {
                e is Database
            } else {
                e is InvalidInput
            },
            r is Ok ==> final(self).holds_applied(snapshot),
            r is Err ==> unchanged(*old(self), *final(self)),
    {
        match ensure_valid_snapshot(&snapshot) {
            Ok(()) => {},
            Err(e) => {
                return Err(e);
            },
        }
        let ghost given = snapshot;
        let mut normalized = snapshot;
        normalize_for_storage(&mut normalized);
        let blocks = split_open(normalized.task_blocks);
        let sessions = split_open(normalized.work_sessions);
        if !refs_hold(&normalized.workspaces, &normalized.priorities, &normalized.tasks, &blocks, &sessions) {
            return Err(CoreError::Database(String::from_str("FOREIGN KEY constraint failed")));
        }
        proof {
            lemma_resolved_one_open(close_finished(given.task_blocks@, given.tasks@));
            lemma_resolved_one_open(close_finished(given.work_sessions@, given.tasks@));
            lemma_closed_first_one_open(resolved(close_finished(given.task_blocks@, given.tasks@)));
            lemma_closed_first_one_open(resolved(close_finished(given.work_sessions@, given.tasks@)));
        }
        let ghost (ws0, ps0, ts0, bs0, ss0) = (normalized.workspaces@, normalized.priorities@, normalized.tasks@, blocks@, sessions@);
        let workspaces = upsert_all(normalized.workspaces);
        let priorities = upsert_all(normalized.priorities);
        let tasks = upsert_all(normalized.tasks);
        let blocks = upsert_all(blocks);
        let sessions = upsert_all(sessions);
        proof {
            lemma_upserted_one_open(closed_first(resolved(close_finished(given.task_blocks@, given.tasks@))));
            lemma_upserted_one_open(closed_first(resolved(close_finished(given.work_sessions@, given.tasks@))));
        }
        self.workspaces = workspaces;
        self.priorities = priorities;
        self.tasks = tasks;
        self.blocks = blocks;
        self.sessions = sessions;
        proof {
            lemma_upserted_refs(ws0, ps0, ts0, bs0, ss0);
        }
        Ok(())
    }
}

/// What a new store hands out for its first synchronization is only its
/// initial records: it gives way to any remote data.
pub proof fn lemma_fresh_snapshot_is_seed(store: TaskStore, s: SyncSnapshot)
    requires
        store.is_fresh(),
        store.snapshot_of(s),
    ensures
        bootstrap_seed(s),
{
    assert(s.tasks@.len() == 0);
}

/// Every identifier of `rows` is among those of `out`.
pub open spec fn ids_kept<T: SyncRecord>(rows: Seq<T>, out: Seq<T>) -> bool {
    forall|i: int|
        0 <= i < rows.len() ==> exists|j: int| 0 <= j < out.len() && out[j].record_id() == (#[trigger] rows[i]).record_id()
}

proof fn lemma_upserted_ids<T: SyncRecord>(rows: Seq<T>)
    ensures
        ids_kept(rows, upserted(rows)),
    decreases rows.len(),
{
    if rows.len() > 0 {
        let init = rows.drop_last();
        let prev = upserted(init);
        let x = rows.last();
        let out = upserted(rows);
        lemma_upserted_ids(init);
        if exists|p: int| 0 <= p < prev.len() && prev[p].record_id() == x.record_id() {
            let p = choose|p: int| 0 <= p < prev.len() && prev[p].record_id() == x.record_id();
            assert(out == prev.update(p, x));
            assert forall|i: int| 0 <= i < rows.len() implies exists|j: int|
                0 <= j < out.len() && out[j].record_id() == (#[trigger] rows[i]).record_id() by {
                if i == rows.len() - 1 {
                    assert(out[p].record_id() == rows[i].record_id());
                } else {
                    assert(init[i] == rows[i]);
                    let j = choose|j: int| 0 <= j < prev.len() && prev[j].record_id() == (#[trigger] init[i]).record_id();
                    if j == p {
                        assert(out[p].record_id() == rows[i].record_id());
                    } else {
                        assert(out[j] == prev[j]);
                    }
                }
            }
        } else {
            assert(out == prev.push(x));
            assert forall|i: int| 0 <= i < rows.len() implies exists|j: int|
                0 <= j < out.len() && out[j].record_id() == (#[trigger] rows[i]).record_id() by {
                if i == rows.len() - 1 {
                    assert(out[prev.len() as int] == x);
                } else {
                    assert(init[i] == rows[i]);
                    let j = choose|j: int| 0 <= j < prev.len() && prev[j].record_id() == (#[trigger] init[i]).record_id();
                    assert(out[j] == prev[j]);
                }
            }
        }
    }
}

proof fn lemma_activity_ids<T: SyncActivity>(rows: Seq<T>, tasks: Seq<Task>)
    ensures
        ids_kept(rows, upserted(closed_first(resolved(close_finished(rows, tasks))))),
{
    let c = close_finished(rows, tasks);
    let r = resolved(c);
    let f = closed_first(r);
    let out = upserted(f);
    lemma_upserted_ids(f);
    let closed = |x: T| !x.is_open();
    let open = |x: T| x.is_open();
    assert forall|i: int| 0 <= i < rows.len() implies exists|j: int|
        0 <= j < out.len() && out[j].record_id() == (#[trigger] rows[i]).record_id() by {
        match task_named(tasks, rows[i].owner()) {
            Some(t) => {
                if rows[i].is_open() && finished(t) {
                    rows[i].lemma_closed(finish_time(t));
                }
            },
            None => {},
        }
        assert(c[i].record_id() == rows[i].record_id());
        if c[i].is_open() && !leads(c, i, c[i].owner()) {
            c[i].lemma_closed(c[leader(c, c[i].owner())].opened());
        }
        assert(r[i].record_id() == rows[i].record_id());
        if r[i].is_open() {
            r.lemma_filter_contains(open, i);
            let k = choose|k: int| 0 <= k < r.filter(open).len() && r.filter(open)[k] == r[i];
            let fi = r.filter(closed).len() + k;
            assert(f[fi] == r[i]);
            assert(f[fi].record_id() == (#[trigger] f[fi]).record_id());
        } else {
            r.lemma_filter_contains(closed, i);
            let k = choose|k: int| 0 <= k < r.filter(closed).len() && r.filter(closed)[k] == r[i];
            assert(f[k] == r[i]);
        }
    }
}

/// Applying a snapshot keeps every record it holds: each identifier of each
/// of its tables is in the store afterwards, deleted records included.
pub proof fn lemma_applied_keeps_records(store: TaskStore, snapshot: SyncSnapshot)
    requires
        store.holds_applied(snapshot),
    ensures
        ids_kept(snapshot.workspaces@, store.workspace_rows()),
        ids_kept(snapshot.priorities@, store.priority_rows()),
        ids_kept(snapshot.tasks@, store.task_rows()),
        ids_kept(snapshot.task_blocks@, store.block_rows()),
        ids_kept(snapshot.work_sessions@, store.session_rows()),
{
    lemma_upserted_ids(snapshot.workspaces@);
    lemma_upserted_ids(snapshot.priorities@);
    let blocks = resolved(close_finished(snapshot.task_blocks@, snapshot.tasks@));
    let tasks = flagged(snapshot.tasks@, blocks);
    lemma_upserted_ids(tasks);
    assert forall|i: int| 0 <= i < snapshot.tasks@.len() implies exists|j: int|
        0 <= j < store.task_rows().len() && store.task_rows()[j].record_id() == (#[trigger] snapshot.tasks@[i]).record_id() by {
        assert(tasks[i].record_id() == snapshot.tasks@[i].record_id());
    }
    lemma_activity_ids(snapshot.task_blocks@, snapshot.tasks@);
    lemma_activity_ids(snapshot.work_sessions@, snapshot.tasks@);
}

/// `x` is the last record of `rows` with its identifier.
pub open spec fn last_copy<T: SyncRecord>(rows: Seq<T>, x: T) -> bool {
    exists|i: int|
        0 <= i < rows.len() && rows[i] == x && forall|q: int| i < q < rows.len() ==> (#[trigger] rows[q]).record_id()
            != x.record_id()
}

proof fn lemma_upserted_distinct<T: SyncRecord>(rows: Seq<T>)
    ensures
        distinct_ids(upserted(rows)),
    decreases rows.len(),
{
    if rows.len() > 0 {
        let init = rows.drop_last();
        let prev = upserted(init);
        let x = rows.last();
        let out = upserted(rows);
        lemma_upserted_distinct(init);
        if exists|p: int| 0 <= p < prev.len() && prev[p].record_id() == x.record_id() {
            let p = choose|p: int| 0 <= p < prev.len() && prev[p].record_id() == x.record_id();
            assert(out == prev.update(p, x));
            assert forall|a: int, b: int| 0 <= a < b < out.len() implies out[a].record_id() != out[b].record_id() by {
                assert(prev[a].record_id() != prev[b].record_id());
            }
        } else {
            assert(out == prev.push(x));
            assert forall|a: int, b: int| 0 <= a < b < out.len() implies out[a].record_id() != out[b].record_id() by {
                if b < prev.len() {
                    assert(prev[a].record_id() != prev[b].record_id());
                }
            }
        }
    }
}

proof fn lemma_upserted_last_copies<T: SyncRecord>(rows: Seq<T>)
    ensures
        forall|j: int| 0 <= j < upserted(rows).len() ==> last_copy(rows, #[trigger] upserted(rows)[j]),
    decreases rows.len(),
{
    if rows.len() > 0 {
        let init = rows.drop_last();
        let prev = upserted(init);
        let x = rows.last();
        let out = upserted(rows);
        lemma_upserted_last_copies(init);
        lemma_upserted_distinct(init);
        let found = exists|p: int| 0 <= p < prev.len() && prev[p].record_id() == x.record_id();
        let p = choose|p: int| 0 <= p < prev.len() && prev[p].record_id() == x.record_id();
        if found {
            assert(out == prev.update(p, x));
        } else {
            assert(out == prev.push(x));
        }
        assert forall|j: int| 0 <= j < out.len() implies last_copy(rows, #[trigger] out[j]) by {
            if (found && j == p) || (!found && j == prev.len()) {
                assert(rows[rows.len() - 1] == x);
            } else {
                assert(out[j] == prev[j]);
                assert(last_copy(init, prev[j]));
                let i = choose|i: int|
                    0 <= i < init.len() && init[i] == prev[j] && forall|q: int| i < q < init.len() ==> (
                    #[trigger] init[q]).record_id() != prev[j].record_id();
                assert(rows[i] == init[i]);
                assert forall|q: int| i < q < rows.len() implies (#[trigger] rows[q]).record_id() != out[j].record_id() by {
                    if q < init.len() {
                        assert(rows[q] == init[q]);
                    } else if found {
                        if j < p {
                            assert(prev[j].record_id() != prev[p].record_id());
                        } else {
                            assert(prev[p].record_id() != prev[j].record_id());
                        }
                    }
                }
            }
        }
    }
}

/// Writing `rows` one after another leaves each identifier once, holding
/// the last record written with it, and no other identifier.
pub proof fn lemma_upserted_last<T: SyncRecord>(rows: Seq<T>)
    ensures
        distinct_ids(upserted(rows)),
        id_set(upserted(rows)) == id_set(rows),
        forall|j: int| 0 <= j < upserted(rows).len() ==> last_copy(rows, #[trigger] upserted(rows)[j]),
{
    lemma_upserted_ids(rows);
    lemma_upserted_members(rows);
    lemma_upserted_distinct(rows);
    lemma_upserted_last_copies(rows);
    let out = upserted(rows);
    assert forall|id: Seq<char>| id_set(out).contains(id) <==> id_set(rows).contains(id) by {
        if id_set(out).contains(id) {
            let j = choose|j: int| 0 <= j < out.len() && out[j].record_id() == id;
            assert(rows.contains(out[j]));
        }
        if id_set(rows).contains(id) {
            let i = choose|i: int| 0 <= i < rows.len() && rows[i].record_id() == id;
            assert(exists|j: int| 0 <= j < out.len() && out[j].record_id() == (#[trigger] rows[i]).record_id());
        }
    }
    assert(id_set(out) =~= id_set(rows));
}

proof fn lemma_activity_id_set<T: SyncActivity>(rows: Seq<T>, tasks: Seq<Task>)
    ensures
        id_set(upserted(closed_first(resolved(close_finished(rows, tasks))))) == id_set(rows),
{
    let r = resolved(close_finished(rows, tasks));
    let f = closed_first(r);
    let out = upserted(f);
    lemma_upserted_last(f);
    lemma_activity_ids(rows, tasks);
    crate::merge_laws::lemma_normalized_ids(rows, tasks);
    let closed = |x: T| !x.is_open();
    let open = |x: T| x.is_open();
    assert forall|id: Seq<char>| id_set(out).contains(id) <==> id_set(rows).contains(id) by {
        if id_set(rows).contains(id) {
            let i = choose|i: int| 0 <= i < rows.len() && rows[i].record_id() == id;
            assert(exists|j: int| 0 <= j < out.len() && out[j].record_id() == (#[trigger] rows[i]).record_id());
        }
        if id_set(out).contains(id) {
            assert(id_set(f).contains(id));
            let j = choose|j: int| 0 <= j < f.len() && f[j].record_id() == id;
            let nc = r.filter(closed).len();
            if j < nc {
                assert(f[j] == r.filter(closed)[j]);
                assert(r.filter(closed).contains(f[j]));
                r.lemma_filter_contains_rev(closed, f[j]);
            } else {
                assert(f[j] == r.filter(open)[j - nc]);
                assert(r.filter(open).contains(f[j]));
                r.lemma_filter_contains_rev(open, f[j]);
            }
            let k = choose|k: int| 0 <= k < r.len() && r[k] == f[j];
            assert(r[k].record_id() == rows[k].record_id());
        }
    }
    assert(id_set(out) =~= id_set(rows));
}

/// After applying a snapshot each table holds each identifier of the
/// snapshot exactly once and no other, under it the last record the
/// normalized snapshot writes with it: the tables are the normalized
/// snapshot's, keyed by identifier, and what the snapshot lacks is gone.
pub proof fn lemma_applied_tables(store: TaskStore, snapshot: SyncSnapshot)
    requires
        store.holds_applied(snapshot),
    ensures
        ({
            let blocks = resolved(close_finished(snapshot.task_blocks@, snapshot.tasks@));
            let sessions = resolved(close_finished(snapshot.work_sessions@, snapshot.tasks@));
            let tasks = flagged(snapshot.tasks@, blocks);
            &&& id_set(store.task_rows()) == id_set(snapshot.tasks@)
            &&& id_set(store.block_rows()) == id_set(snapshot.task_blocks@)
            &&& id_set(store.session_rows()) == id_set(snapshot.work_sessions@)
            &&& distinct_ids(store.workspace_rows()) && id_set(store.workspace_rows()) == id_set(snapshot.workspaces@)
            &&& forall|j: int| 0 <= j < store.workspace_rows().len() ==> last_copy(snapshot.workspaces@, #[trigger] store.workspace_rows()[j])
            &&& distinct_ids(store.priority_rows()) && id_set(store.priority_rows()) == id_set(snapshot.priorities@)
            &&& forall|j: int| 0 <= j < store.priority_rows().len() ==> last_copy(snapshot.priorities@, #[trigger] store.priority_rows()[j])
            &&& distinct_ids(store.task_rows()) && id_set(store.task_rows()) == id_set(tasks)
            &&& forall|j: int| 0 <= j < store.task_rows().len() ==> last_copy(tasks, #[trigger] store.task_rows()[j])
            &&& distinct_ids(store.block_rows()) && id_set(store.block_rows()) == id_set(closed_first(blocks))
            &&& forall|j: int| 0 <= j < store.block_rows().len() ==> last_copy(closed_first(blocks), #[trigger] store.block_rows()[j])
            &&& distinct_ids(store.session_rows()) && id_set(store.session_rows()) == id_set(closed_first(sessions))
            &&& forall|j: int| 0 <= j < store.session_rows().len() ==> last_copy(closed_first(sessions), #[trigger] store.session_rows()[j])
        }),
{
    let blocks = resolved(close_finished(snapshot.task_blocks@, snapshot.tasks@));
    let sessions = resolved(close_finished(snapshot.work_sessions@, snapshot.tasks@));
    lemma_upserted_last(snapshot.workspaces@);
    lemma_upserted_last(snapshot.priorities@);
    lemma_upserted_last(flagged(snapshot.tasks@, blocks));
    lemma_upserted_last(closed_first(blocks));
    lemma_upserted_last(closed_first(sessions));
    lemma_activity_id_set(snapshot.task_blocks@, snapshot.tasks@);
    lemma_activity_id_set(snapshot.work_sessions@, snapshot.tasks@);
    assert(id_set(flagged(snapshot.tasks@, blocks)) =~= id_set(snapshot.tasks@)) by {
        assert forall|id: Seq<char>| id_set(flagged(snapshot.tasks@, blocks)).contains(id) implies id_set(snapshot.tasks@).contains(id) by {
            let i = choose|i: int| 0 <= i < flagged(snapshot.tasks@, blocks).len() && flagged(snapshot.tasks@, blocks)[i].record_id() == id;
            assert(snapshot.tasks@[i].record_id() == id);
        }
        assert forall|id: Seq<char>| id_set(snapshot.tasks@).contains(id) implies id_set(flagged(snapshot.tasks@, blocks)).contains(id) by {
            let i = choose|i: int| 0 <= i < snapshot.tasks@.len() && snapshot.tasks@[i].record_id() == id;
            assert(flagged(snapshot.tasks@, blocks)[i].record_id() == id);
        }
    }
}

} // verus!
