//! Laws of the merge of two snapshots, stated over its normalized result,
//! and of the two normalizing steps, in terms of the records' fields.

use vstd::prelude::*;
use crate::clock::spec_rfc3339_instant;
use crate::domain::{Task, TaskBlock, TaskStatus, WorkSession};
use crate::text::{lemma_text_order, text_lt};
use crate::sync::{
    bootstrap_seed, close_finished, distinct_ids, finish_time, finished, flagged, has_any_record, later, leads,
    lemma_keyed, lemma_merge_identifiers, lemma_normalized_finished, lemma_owner_kept, lemma_resolved_one_open,
    last_named, lemma_last_named_unique, lists, merged_listing, merged_map, keyed,
    normalized_from, one_open_per_owner, outranks, resolved, stamp_newer, task_named, SyncActivity, SyncRecord,
    SyncSnapshot,
};

verus! {

/// The identifiers of `rows`.
pub open spec fn id_set<T: SyncRecord>(rows: Seq<T>) -> Set<Seq<char>> {
    Set::new(|id: Seq<char>| exists|i: int| 0 <= i < rows.len() && rows[i].record_id() == id)
}

/// `b` holds, place by place, records with the identifiers of `a`.
pub open spec fn same_ids_at<T: SyncRecord>(a: Seq<T>, b: Seq<T>) -> bool {
    a.len() == b.len() && forall|i: int| 0 <= i < a.len() ==> (#[trigger] b[i]).record_id() == a[i].record_id()
}

proof fn lemma_same_ids<T: SyncRecord>(a: Seq<T>, b: Seq<T>)
    requires
        same_ids_at(a, b),
    ensures
        distinct_ids(a) ==> distinct_ids(b),
        id_set(a) == id_set(b),
{
    assert forall|id: Seq<char>| id_set(a).contains(id) <==> id_set(b).contains(id) by {
        if id_set(a).contains(id) {
            let i = choose|i: int| 0 <= i < a.len() && a[i].record_id() == id;
            assert(b[i].record_id() == id);
        }
        if id_set(b).contains(id) {
            let i = choose|i: int| 0 <= i < b.len() && b[i].record_id() == id;
            assert(b[i].record_id() == a[i].record_id());
        }
    }
    assert(id_set(a) =~= id_set(b));
    if distinct_ids(a) {
        assert forall|i: int, j: int| 0 <= i < j < b.len() implies b[i].record_id() != b[j].record_id() by {
            assert(b[i].record_id() == a[i].record_id() && b[j].record_id() == a[j].record_id());
        }
    }
}

pub(crate) proof fn lemma_normalized_ids<T: SyncActivity>(rows: Seq<T>, tasks: Seq<Task>)
    ensures
        same_ids_at(rows, resolved(close_finished(rows, tasks))),
{
    let c = close_finished(rows, tasks);
    assert forall|i: int| 0 <= i < rows.len() implies (#[trigger] resolved(c)[i]).record_id() == rows[i].record_id() by {
        match task_named(tasks, rows[i].owner()) {
            Some(t) => {
                if rows[i].is_open() && finished(t) {
                    rows[i].lemma_closed(finish_time(t));
                }
            },
            None => {},
        }
        if c[i].is_open() && !leads(c, i, c[i].owner()) {
            c[i].lemma_closed(c[crate::sync::leader(c, c[i].owner())].opened());
        }
    }
}

proof fn lemma_flagged_ids(tasks: Seq<Task>, blocks: Seq<TaskBlock>)
    ensures
        same_ids_at(tasks, flagged(tasks, blocks)),
{
}

/// A table listing the merge of `base` and `remote`, then normalized in
/// place, holds each identifier of the two once and no other.
proof fn lemma_table_ids<T: SyncRecord>(base: Seq<T>, remote: Seq<T>, raw: Seq<T>, out: Seq<T>)
    requires
        lists(raw, merged_map(base, remote)),
        same_ids_at(raw, out),
    ensures
        distinct_ids(out),
        id_set(out) == id_set(base) + id_set(remote),
{
    lemma_merge_identifiers(base, remote);
    lemma_same_ids(raw, out);
    let m = merged_map(base, remote);
    assert forall|id: Seq<char>| id_set(raw).contains(id) <==> (id_set(base) + id_set(remote)).contains(id) by {
        if id_set(raw).contains(id) {
            let i = choose|i: int| 0 <= i < raw.len() && raw[i].record_id() == id;
            assert(m.contains_key(raw[i].record_id()));
        }
        if (id_set(base) + id_set(remote)).contains(id) {
            assert(m.contains_key(id));
        }
    }
    assert(id_set(raw) =~= id_set(base) + id_set(remote));
}

/// Merging keeps every identifier of either side, each exactly once, and
/// adds none: table by table, the result's identifiers are those of the two
/// sides. Deleted records count like any other. When the local side is only
/// what a new store starts with and the remote side holds data, the local
/// side does not count: the result's identifiers are the remote ones, and it
/// is the normalized listing of the remote side merged with nothing, as a
/// merge from an empty local side gives up to the order of records.
pub proof fn lemma_merge_result_ids(local: SyncSnapshot, remote: SyncSnapshot, raw: SyncSnapshot, r: SyncSnapshot)
    requires
        merged_listing(local, remote, raw),
        normalized_from(raw, r),
    ensures
        distinct_ids(r.workspaces@),
        distinct_ids(r.priorities@),
        distinct_ids(r.tasks@),
        distinct_ids(r.task_blocks@),
        distinct_ids(r.work_sessions@),
        !(bootstrap_seed(local) && has_any_record(remote)) ==> {
            &&& id_set(r.workspaces@) == id_set(local.workspaces@) + id_set(remote.workspaces@)
            &&& id_set(r.priorities@) == id_set(local.priorities@) + id_set(remote.priorities@)
            &&& id_set(r.tasks@) == id_set(local.tasks@) + id_set(remote.tasks@)
            &&& id_set(r.task_blocks@) == id_set(local.task_blocks@) + id_set(remote.task_blocks@)
            &&& id_set(r.work_sessions@) == id_set(local.work_sessions@) + id_set(remote.work_sessions@)
        },
        bootstrap_seed(local) && has_any_record(remote) ==> {
            &&& lists(raw.workspaces@, merged_map(Seq::empty(), remote.workspaces@))
            &&& lists(raw.priorities@, merged_map(Seq::empty(), remote.priorities@))
            &&& lists(raw.tasks@, merged_map(Seq::empty(), remote.tasks@))
            &&& lists(raw.task_blocks@, merged_map(Seq::empty(), remote.task_blocks@))
            &&& lists(raw.work_sessions@, merged_map(Seq::empty(), remote.work_sessions@))
            &&& id_set(r.workspaces@) == id_set(remote.workspaces@)
            &&& id_set(r.priorities@) == id_set(remote.priorities@)
            &&& id_set(r.tasks@) == id_set(remote.tasks@)
            &&& id_set(r.task_blocks@) == id_set(remote.task_blocks@)
            &&& id_set(r.work_sessions@) == id_set(remote.work_sessions@)
        },
{
    let drop = bootstrap_seed(local) && has_any_record(remote);
    let bw = if drop { Seq::empty() } else { local.workspaces@ };
    let bp = if drop { Seq::empty() } else { local.priorities@ };
    let bt = if drop { Seq::empty() } else { local.tasks@ };
    let bb = if drop { Seq::empty() } else { local.task_blocks@ };
    let bs = if drop { Seq::empty() } else { local.work_sessions@ };
    assert(same_ids_at(raw.workspaces@, r.workspaces@));
    assert(same_ids_at(raw.priorities@, r.priorities@));
    lemma_normalized_ids(raw.task_blocks@, raw.tasks@);
    lemma_normalized_ids(raw.work_sessions@, raw.tasks@);
    lemma_flagged_ids(raw.tasks@, r.task_blocks@);
    lemma_table_ids(bw, remote.workspaces@, raw.workspaces@, r.workspaces@);
    lemma_table_ids(bp, remote.priorities@, raw.priorities@, r.priorities@);
    lemma_table_ids(bt, remote.tasks@, raw.tasks@, r.tasks@);
    lemma_table_ids(bb, remote.task_blocks@, raw.task_blocks@, r.task_blocks@);
    lemma_table_ids(bs, remote.work_sessions@, raw.work_sessions@, r.work_sessions@);
    if drop {
        assert(id_set(Seq::<crate::domain::Workspace>::empty()) + id_set(remote.workspaces@) =~= id_set(remote.workspaces@));
        assert(id_set(Seq::<crate::domain::Priority>::empty()) + id_set(remote.priorities@) =~= id_set(remote.priorities@));
        assert(id_set(Seq::<Task>::empty()) + id_set(remote.tasks@) =~= id_set(remote.tasks@));
        assert(id_set(Seq::<TaskBlock>::empty()) + id_set(remote.task_blocks@) =~= id_set(remote.task_blocks@));
        assert(id_set(Seq::<WorkSession>::empty()) + id_set(remote.work_sessions@) =~= id_set(remote.work_sessions@));
    }
}

/// The copy of identifier `id` a merge of `local` and `remote` keeps: the
/// remote copy when it is strictly newer than the local one, else the local
/// one; the only copy when one side alone holds `id`.
pub open spec fn chosen<T: SyncRecord>(local: Seq<T>, remote: Seq<T>, id: Seq<char>) -> T {
    let in_local = exists|i: int| 0 <= i < local.len() && local[i].record_id() == id;
    let in_remote = exists|j: int| 0 <= j < remote.len() && remote[j].record_id() == id;
    let l = local[choose|i: int| 0 <= i < local.len() && local[i].record_id() == id];
    let rm = remote[choose|j: int| 0 <= j < remote.len() && remote[j].record_id() == id];
    if in_local && in_remote {
        if stamp_newer(rm.record_stamp(), l.record_stamp()) {
            rm
        } else {
            l
        }
    } else if in_local {
        l
    } else {
        rm
    }
}

proof fn lemma_merge_untouched<T: SyncRecord>(local: Seq<T>, remote: Seq<T>, id: Seq<char>)
    requires
        forall|j: int| 0 <= j < remote.len() ==> (#[trigger] remote[j]).record_id() != id,
    ensures
        merged_map(local, remote).contains_key(id) == keyed(local).contains_key(id),
        keyed(local).contains_key(id) ==> merged_map(local, remote)[id] == keyed(local)[id],
    decreases remote.len(),
{
    if remote.len() > 0 {
        let init = remote.drop_last();
        assert forall|j: int| 0 <= j < init.len() implies (#[trigger] init[j]).record_id() != id by {
            assert(init[j] == remote[j]);
        }
        assert(remote[remote.len() - 1].record_id() != id);
        lemma_merge_untouched(local, init, id);
    }
}

proof fn lemma_merge_chosen<T: SyncRecord>(local: Seq<T>, remote: Seq<T>, id: Seq<char>)
    requires
        distinct_ids(local),
        distinct_ids(remote),
        merged_map(local, remote).contains_key(id),
    ensures
        merged_map(local, remote)[id] == chosen(local, remote, id),
    decreases remote.len(),
{
    lemma_keyed(local);
    lemma_merge_identifiers(local, remote);
    let in_local = exists|i: int| 0 <= i < local.len() && local[i].record_id() == id;
    if in_local {
        let i = choose|i: int| 0 <= i < local.len() && local[i].record_id() == id;
        assert(keyed(local)[local[i].record_id()] == local[i]);
    }
    if remote.len() > 0 {
        let init = remote.drop_last();
        let y = remote.last();
        let held = merged_map(local, init);
        assert(distinct_ids(init)) by {
            assert forall|a: int, b: int| 0 <= a < b < init.len() implies init[a].record_id() != init[b].record_id() by {
                assert(init[a] == remote[a] && init[b] == remote[b]);
            }
        }
        if y.record_id() == id {
            assert forall|j: int| 0 <= j < init.len() implies (#[trigger] init[j]).record_id() != id by {
                assert(init[j] == remote[j]);
                assert(remote[j].record_id() != remote[remote.len() - 1].record_id());
            }
            lemma_merge_untouched(local, init, id);
            let jr = choose|j: int| 0 <= j < remote.len() && remote[j].record_id() == id;
            if jr != remote.len() - 1 {
                assert(remote[jr].record_id() != remote[remote.len() - 1].record_id());
            }
        } else {
            lemma_merge_identifiers(local, init);
            assert(held.contains_key(id));
            lemma_merge_chosen(local, init, id);
            assert forall|j: int| (0 <= j < remote.len() && remote[j].record_id() == id) <==> (0 <= j < init.len()
                && init[j].record_id() == id) by {
                if 0 <= j < init.len() {
                    assert(init[j] == remote[j]);
                }
            }
            let in_init = exists|j: int| 0 <= j < init.len() && init[j].record_id() == id;
            if in_init {
                let a = choose|j: int| 0 <= j < remote.len() && remote[j].record_id() == id;
                let b = choose|j: int| 0 <= j < init.len() && init[j].record_id() == id;
                assert(init[b] == remote[b]);
                if a != b {
                    if a < b {
                        assert(remote[a].record_id() != remote[b].record_id());
                    } else {
                        assert(remote[b].record_id() != remote[a].record_id());
                    }
                }
            }
        }
    }
}

/// Newer wins, ties to the local copy: when each side holds each identifier
/// once, the copy a merge keeps under an identifier is the remote one exactly
/// when it is strictly newer than the local one (by time of last change,
/// then version), otherwise the local one; an identifier one side alone
/// holds keeps that side's copy. The result carries that copy: workspaces and
/// priorities as they are, tasks with only the blocked flag set anew, block
/// records and sessions as they are or closed by the normalization.
pub proof fn lemma_merge_keeps_newest(local: SyncSnapshot, remote: SyncSnapshot, raw: SyncSnapshot, r: SyncSnapshot)
    requires
        merged_listing(local, remote, raw),
        normalized_from(raw, r),
        !(bootstrap_seed(local) && has_any_record(remote)),
        distinct_ids(local.workspaces@),
        distinct_ids(local.priorities@),
        distinct_ids(local.tasks@),
        distinct_ids(local.task_blocks@),
        distinct_ids(local.work_sessions@),
        distinct_ids(remote.workspaces@),
        distinct_ids(remote.priorities@),
        distinct_ids(remote.tasks@),
        distinct_ids(remote.task_blocks@),
        distinct_ids(remote.work_sessions@),
    ensures
        forall|k: int|
            0 <= k < r.workspaces@.len() ==> #[trigger] r.workspaces@[k] == chosen(
                local.workspaces@,
                remote.workspaces@,
                r.workspaces@[k].id@,
            ),
        forall|k: int|
            0 <= k < r.priorities@.len() ==> #[trigger] r.priorities@[k] == chosen(
                local.priorities@,
                remote.priorities@,
                r.priorities@[k].id@,
            ),
        forall|k: int|
            0 <= k < r.tasks@.len() ==> #[trigger] r.tasks@[k] == (Task {
                is_blocked: r.tasks@[k].is_blocked,
                ..chosen(local.tasks@, remote.tasks@, r.tasks@[k].id@)
            }),
        forall|k: int|
            0 <= k < r.task_blocks@.len() ==> {
                let c = chosen(local.task_blocks@, remote.task_blocks@, r.task_blocks@[k].id@);
                #[trigger] r.task_blocks@[k] == c || exists|b: String| r.task_blocks@[k] == c.closed_at(b)
            },
        forall|k: int|
            0 <= k < r.work_sessions@.len() ==> {
                let c = chosen(local.work_sessions@, remote.work_sessions@, r.work_sessions@[k].id@);
                #[trigger] r.work_sessions@[k] == c || exists|b: String| r.work_sessions@[k] == c.closed_at(b)
            },
{
    assert forall|k: int| 0 <= k < r.workspaces@.len() implies #[trigger] r.workspaces@[k] == chosen(
        local.workspaces@,
        remote.workspaces@,
        r.workspaces@[k].id@,
    ) by {
        lemma_merge_chosen(local.workspaces@, remote.workspaces@, raw.workspaces@[k].record_id());
    }
    assert forall|k: int| 0 <= k < r.priorities@.len() implies #[trigger] r.priorities@[k] == chosen(
        local.priorities@,
        remote.priorities@,
        r.priorities@[k].id@,
    ) by {
        lemma_merge_chosen(local.priorities@, remote.priorities@, raw.priorities@[k].record_id());
    }
    assert forall|k: int| 0 <= k < r.tasks@.len() implies #[trigger] r.tasks@[k] == (Task {
        is_blocked: r.tasks@[k].is_blocked,
        ..chosen(local.tasks@, remote.tasks@, r.tasks@[k].id@)
    }) by {
        lemma_merge_chosen(local.tasks@, remote.tasks@, raw.tasks@[k].record_id());
    }
    let cb = close_finished(raw.task_blocks@, raw.tasks@);
    assert forall|k: int| 0 <= k < r.task_blocks@.len() implies {
        let c = chosen(local.task_blocks@, remote.task_blocks@, r.task_blocks@[k].id@);
        #[trigger] r.task_blocks@[k] == c || exists|b: String| r.task_blocks@[k] == c.closed_at(b)
    } by {
        let x = raw.task_blocks@[k];
        lemma_merge_chosen(local.task_blocks@, remote.task_blocks@, x.record_id());
        lemma_normalized_ids(raw.task_blocks@, raw.tasks@);
        match task_named(raw.tasks@, x.owner()) {
            Some(t) => {
                if x.is_open() && finished(t) {
                    x.lemma_closed(finish_time(t));
                    if cb[k].is_open() && !leads(cb, k, cb[k].owner()) {
                        cb[k].lemma_closed(cb[crate::sync::leader(cb, cb[k].owner())].opened());
                    }
                    assert(r.task_blocks@[k] == x.closed_at(finish_time(t)));
                } else if cb[k].is_open() && !leads(cb, k, cb[k].owner()) {
                    assert(r.task_blocks@[k] == x.closed_at(cb[crate::sync::leader(cb, cb[k].owner())].opened()));
                }
            },
            None => {
                if cb[k].is_open() && !leads(cb, k, cb[k].owner()) {
                    assert(r.task_blocks@[k] == x.closed_at(cb[crate::sync::leader(cb, cb[k].owner())].opened()));
                }
            },
        }
    }
    let cs = close_finished(raw.work_sessions@, raw.tasks@);
    assert forall|k: int| 0 <= k < r.work_sessions@.len() implies {
        let c = chosen(local.work_sessions@, remote.work_sessions@, r.work_sessions@[k].id@);
        #[trigger] r.work_sessions@[k] == c || exists|b: String| r.work_sessions@[k] == c.closed_at(b)
    } by {
        let x = raw.work_sessions@[k];
        lemma_merge_chosen(local.work_sessions@, remote.work_sessions@, x.record_id());
        lemma_normalized_ids(raw.work_sessions@, raw.tasks@);
        match task_named(raw.tasks@, x.owner()) {
            Some(t) => {
                if x.is_open() && finished(t) {
                    x.lemma_closed(finish_time(t));
                    if cs[k].is_open() && !leads(cs, k, cs[k].owner()) {
                        cs[k].lemma_closed(cs[crate::sync::leader(cs, cs[k].owner())].opened());
                    }
                    assert(r.work_sessions@[k] == x.closed_at(finish_time(t)));
                } else if cs[k].is_open() && !leads(cs, k, cs[k].owner()) {
                    assert(r.work_sessions@[k] == x.closed_at(cs[crate::sync::leader(cs, cs[k].owner())].opened()));
                }
            },
            None => {
                if cs[k].is_open() && !leads(cs, k, cs[k].owner()) {
                    assert(r.work_sessions@[k] == x.closed_at(cs[crate::sync::leader(cs, cs[k].owner())].opened()));
                }
            },
        }
    }
}

proof fn lemma_open_records_of<T: SyncActivity>(rows: Seq<T>, tasks: Seq<Task>, blocks: Seq<TaskBlock>)
    requires
        distinct_ids(tasks),
    ensures
        one_open_per_owner(resolved(close_finished(rows, tasks))),
        forall|i: int, k: int|
            0 <= i < rows.len() && 0 <= k < tasks.len() && (#[trigger] resolved(close_finished(rows, tasks))[i]).is_open()
                && (#[trigger] flagged(tasks, blocks)[k]).id@ == resolved(close_finished(rows, tasks))[i].owner()
                ==> !finished(flagged(tasks, blocks)[k]),
{
    let out = resolved(close_finished(rows, tasks));
    lemma_resolved_one_open(close_finished(rows, tasks));
    lemma_normalized_finished(rows, tasks);
    assert forall|i: int, k: int|
        0 <= i < rows.len() && 0 <= k < tasks.len() && (#[trigger] out[i]).is_open() && (#[trigger] flagged(
            tasks,
            blocks,
        )[k]).id@ == out[i].owner() implies !finished(flagged(tasks, blocks)[k]) by {
        lemma_owner_kept(rows, tasks, i);
        let id = rows[i].owner();
        assert(tasks[k].id@ == id);
        assert forall|q: int| k < q < tasks.len() implies tasks[q].id@ != id by {
            assert(tasks[k].record_id() != tasks[q].record_id());
        }
        assert(last_named(tasks, id, k));
        let p = choose|p: int| last_named(tasks, id, p);
        lemma_last_named_unique(tasks, id, p, k);
        assert(task_named(tasks, id) == Some(tasks[k]));
    }
}

/// After a merge no task has two open block records or two running
/// sessions, and no open block record or running session belongs to a task
/// of the result that is deleted or completed.
pub proof fn lemma_merge_open_records(local: SyncSnapshot, remote: SyncSnapshot, raw: SyncSnapshot, r: SyncSnapshot)
    requires
        merged_listing(local, remote, raw),
        normalized_from(raw, r),
    ensures
        one_open_per_owner(r.task_blocks@),
        one_open_per_owner(r.work_sessions@),
        forall|i: int, k: int|
            0 <= i < r.task_blocks@.len() && 0 <= k < r.tasks@.len() && (#[trigger] r.task_blocks@[i]).ended_at is None
                && r.task_blocks@[i].deleted_at is None && (#[trigger] r.tasks@[k]).id == r.task_blocks@[i].task_id
                ==> r.tasks@[k].deleted_at is None && r.tasks@[k].status != TaskStatus::Completed,
        forall|i: int, k: int|
            0 <= i < r.work_sessions@.len() && 0 <= k < r.tasks@.len() && (#[trigger] r.work_sessions@[i]).ended_at is None
                && (#[trigger] r.tasks@[k]).id == r.work_sessions@[i].task_id ==> r.tasks@[k].deleted_at is None
                && r.tasks@[k].status != TaskStatus::Completed,
{
    lemma_open_records_of(raw.task_blocks@, raw.tasks@, r.task_blocks@);
    lemma_open_records_of(raw.work_sessions@, raw.tasks@, r.task_blocks@);
    assert forall|i: int, k: int|
        0 <= i < r.task_blocks@.len() && 0 <= k < r.tasks@.len() && (#[trigger] r.task_blocks@[i]).ended_at is None
            && r.task_blocks@[i].deleted_at is None && (#[trigger] r.tasks@[k]).id == r.task_blocks@[i].task_id
            implies r.tasks@[k].deleted_at is None && r.tasks@[k].status != TaskStatus::Completed by {
        assert(r.task_blocks@[i].is_open());
        assert(flagged(raw.tasks@, r.task_blocks@)[k].id@ == r.task_blocks@[i].owner());
    }
    assert forall|i: int, k: int|
        0 <= i < r.work_sessions@.len() && 0 <= k < r.tasks@.len() && (#[trigger] r.work_sessions@[i]).ended_at is None
            && (#[trigger] r.tasks@[k]).id == r.work_sessions@[i].task_id implies r.tasks@[k].deleted_at is None
            && r.tasks@[k].status != TaskStatus::Completed by {
        assert(r.work_sessions@[i].is_open());
        assert(flagged(raw.tasks@, r.task_blocks@)[k].id@ == r.work_sessions@[i].owner());
    }
}

/// Resolving open records, in the words of the fields: nothing moves or is
/// added; a closed record stays as it is; of the open records of one task,
/// the one that no other outranks (latest start, then greatest identifier,
/// then last place) stays as it is, and every other open record of that task
/// ends where that one starts, its last change moved up to that time when
/// it is later.
pub proof fn lemma_resolved_blocks(rows: Seq<TaskBlock>)
    ensures
        resolved(rows).len() == rows.len(),
        forall|i: int|
            0 <= i < rows.len() && !(rows[i].ended_at is None && rows[i].deleted_at is None) ==> #[trigger] resolved(
                rows,
            )[i] == rows[i],
        forall|i: int|
            0 <= i < rows.len() && rows[i].ended_at is None && rows[i].deleted_at is None && (forall|j: int|
                !#[trigger] outranks(rows, j, i)) ==> #[trigger] resolved(rows)[i] == rows[i],
        forall|i: int, w: int|
            0 <= i < rows.len() && rows[i].ended_at is None && rows[i].deleted_at is None && w != i && #[trigger] leads(
                rows,
                w,
                rows[i].task_id@,
            ) ==> #[trigger] resolved(rows)[i] == (TaskBlock {
                ended_at: Some(rows[w].started_at),
                updated_at: later(rows[i].updated_at, rows[w].started_at),
                ..rows[i]
            }),
{
    assert forall|i: int, w: int|
        0 <= i < rows.len() && rows[i].ended_at is None && rows[i].deleted_at is None && w != i && #[trigger] leads(
            rows,
            w,
            rows[i].task_id@,
        ) implies #[trigger] resolved(rows)[i] == (TaskBlock {
            ended_at: Some(rows[w].started_at),
            updated_at: later(rows[i].updated_at, rows[w].started_at),
            ..rows[i]
        }) by {
        crate::sync::lemma_leader_unique(rows, w, rows[i].task_id@);
    }
}

/// Resolving running sessions, in the words of the fields: as for block
/// records, an outranked running session ends where the session that stays
/// open starts, its creation time moved up to that time when it is later.
pub proof fn lemma_resolved_sessions(rows: Seq<WorkSession>)
    ensures
        resolved(rows).len() == rows.len(),
        forall|i: int| 0 <= i < rows.len() && rows[i].ended_at is Some ==> #[trigger] resolved(rows)[i] == rows[i],
        forall|i: int|
            0 <= i < rows.len() && rows[i].ended_at is None && (forall|j: int| !#[trigger] outranks(rows, j, i))
                ==> #[trigger] resolved(rows)[i] == rows[i],
        forall|i: int, w: int|
            0 <= i < rows.len() && rows[i].ended_at is None && w != i && #[trigger] leads(rows, w, rows[i].task_id@)
                ==> #[trigger] resolved(rows)[i] == (WorkSession {
                ended_at: Some(rows[w].started_at),
                created_at: later(rows[i].created_at, rows[w].started_at),
                ..rows[i]
            }),
{
    assert forall|i: int, w: int|
        0 <= i < rows.len() && rows[i].ended_at is None && w != i && #[trigger] leads(rows, w, rows[i].task_id@)
            implies #[trigger] resolved(rows)[i] == (WorkSession {
            ended_at: Some(rows[w].started_at),
            created_at: later(rows[i].created_at, rows[w].started_at),
            ..rows[i]
        }) by {
        crate::sync::lemma_leader_unique(rows, w, rows[i].task_id@);
    }
}

/// Closing what finished tasks still run, in the words of the fields: a
/// block record that is open and whose task (the last one with its
/// identifier) is deleted or completed ends at the task's completion, else
/// its deletion, else its last change, its own last change moved up to that
/// time when it is later; every other record stays as it is.
pub proof fn lemma_closed_blocks(rows: Seq<TaskBlock>, tasks: Seq<Task>)
    ensures
        close_finished(rows, tasks).len() == rows.len(),
        forall|i: int|
            0 <= i < rows.len() ==> #[trigger] close_finished(rows, tasks)[i] == match task_named(tasks, rows[i].task_id@) {
                Some(t) => if rows[i].ended_at is None && rows[i].deleted_at is None && (t.deleted_at is Some
                    || t.status == TaskStatus::Completed) {
                    TaskBlock {
                        ended_at: Some(finish_time(t)),
                        updated_at: later(rows[i].updated_at, finish_time(t)),
                        ..rows[i]
                    }
                } else {
                    rows[i]
                },
                None => rows[i],
            },
{
}

/// Closing what finished tasks still run, for sessions: a running session of
/// a deleted or completed task ends at the task's completion, else its
/// deletion, else its last change, its creation time moved up to that time
/// when it is later; every other session stays as it is.
pub proof fn lemma_closed_sessions(rows: Seq<WorkSession>, tasks: Seq<Task>)
    ensures
        close_finished(rows, tasks).len() == rows.len(),
        forall|i: int|
            0 <= i < rows.len() ==> #[trigger] close_finished(rows, tasks)[i] == match task_named(tasks, rows[i].task_id@) {
                Some(t) => if rows[i].ended_at is None && (t.deleted_at is Some || t.status == TaskStatus::Completed) {
                    WorkSession {
                        ended_at: Some(finish_time(t)),
                        created_at: later(rows[i].created_at, finish_time(t)),
                        ..rows[i]
                    }
                } else {
                    rows[i]
                },
                None => rows[i],
            },
{
}

/// Only what a new store writes counts as its initial data: a snapshot that
/// is taken for one holds no tasks, block records or sessions, at least one
/// workspace, and every workspace and priority it holds was created and last
/// changed at the epoch, is not deleted and is at version 1.
pub proof fn lemma_seed_is_untouched(s: SyncSnapshot)
    requires
        bootstrap_seed(s),
    ensures
        s.tasks@.len() == 0 && s.task_blocks@.len() == 0 && s.work_sessions@.len() == 0 && s.workspaces@.len() > 0,
        forall|i: int|
            0 <= i < s.workspaces@.len() ==> (#[trigger] s.workspaces@[i]).created_at@ == "1970-01-01T00:00:00.000Z"@
                && s.workspaces@[i].updated_at@ == "1970-01-01T00:00:00.000Z"@ && s.workspaces@[i].deleted_at is None
                && s.workspaces@[i].version == 1,
        forall|i: int|
            0 <= i < s.priorities@.len() ==> (#[trigger] s.priorities@[i]).created_at@ == "1970-01-01T00:00:00.000Z"@
                && s.priorities@[i].updated_at@ == "1970-01-01T00:00:00.000Z"@ && s.priorities@[i].deleted_at is None
                && s.priorities@[i].version == 1,
{
    assert forall|i: int| 0 <= i < s.workspaces@.len() implies (#[trigger] s.workspaces@[i]).created_at@
        == "1970-01-01T00:00:00.000Z"@ && s.workspaces@[i].updated_at@ == "1970-01-01T00:00:00.000Z"@
        && s.workspaces@[i].deleted_at is None && s.workspaces@[i].version == 1 by {
        reveal_strlit("1970-01-01T00:00:00.000Z");
    }
    assert forall|i: int| 0 <= i < s.priorities@.len() implies (#[trigger] s.priorities@[i]).created_at@
        == "1970-01-01T00:00:00.000Z"@ && s.priorities@[i].updated_at@ == "1970-01-01T00:00:00.000Z"@
        && s.priorities@[i].deleted_at is None && s.priorities@[i].version == 1 by {
        reveal_strlit("1970-01-01T00:00:00.000Z");
    }
}

/// A local side with a workspace the user has changed (any version but 1,
/// say after a rename) keeps all its records in a merge: the result's
/// workspaces, priorities and tasks are those of both sides.
pub proof fn lemma_merge_keeps_edited_local(local: SyncSnapshot, remote: SyncSnapshot, raw: SyncSnapshot, r: SyncSnapshot, k: int)
    requires
        merged_listing(local, remote, raw),
        normalized_from(raw, r),
        0 <= k < local.workspaces@.len(),
        local.workspaces@[k].version != 1,
    ensures
        id_set(r.workspaces@) == id_set(local.workspaces@) + id_set(remote.workspaces@),
        id_set(r.priorities@) == id_set(local.priorities@) + id_set(remote.priorities@),
        id_set(r.tasks@) == id_set(local.tasks@) + id_set(remote.tasks@),
        id_set(r.task_blocks@) == id_set(local.task_blocks@) + id_set(remote.task_blocks@),
        id_set(r.work_sessions@) == id_set(local.work_sessions@) + id_set(remote.work_sessions@),
{
    if bootstrap_seed(local) {
        lemma_seed_is_untouched(local);
        assert(local.workspaces@[k].version == 1);
    }
    lemma_merge_result_ids(local, remote, raw, r);
}

/// After normalization a task is flagged blocked exactly when some block
/// record of the normalized snapshot is neither ended nor deleted and names
/// that task.
pub proof fn lemma_normalized_blocked_flag(s: SyncSnapshot, n: SyncSnapshot)
    requires
        normalized_from(s, n),
    ensures
        n.tasks@.len() == s.tasks@.len(),
        forall|k: int|
            0 <= k < n.tasks@.len() ==> ((#[trigger] n.tasks@[k]).is_blocked <==> exists|b: int|
                0 <= b < n.task_blocks@.len() && n.task_blocks@[b].ended_at is None && n.task_blocks@[b].deleted_at is None
                    && n.task_blocks@[b].task_id@ == n.tasks@[k].id@),
{
    assert forall|k: int| 0 <= k < n.tasks@.len() implies ((#[trigger] n.tasks@[k]).is_blocked <==> exists|b: int|
        0 <= b < n.task_blocks@.len() && n.task_blocks@[b].ended_at is None && n.task_blocks@[b].deleted_at is None
            && n.task_blocks@[b].task_id@ == n.tasks@[k].id@) by {
        if n.tasks@[k].is_blocked {
            let b = choose|b: int|
                0 <= b < n.task_blocks@.len() && crate::store::active_block(#[trigger] n.task_blocks@[b])
                    && n.task_blocks@[b].task_id@ == s.tasks@[k].id@;
            assert(n.task_blocks@[b].ended_at is None && n.task_blocks@[b].deleted_at is None);
        }
        if exists|b: int|
            0 <= b < n.task_blocks@.len() && n.task_blocks@[b].ended_at is None && n.task_blocks@[b].deleted_at is None
                && n.task_blocks@[b].task_id@ == n.tasks@[k].id@ {
            let b = choose|b: int|
                0 <= b < n.task_blocks@.len() && n.task_blocks@[b].ended_at is None && n.task_blocks@[b].deleted_at is None
                    && n.task_blocks@[b].task_id@ == n.tasks@[k].id@;
            assert(crate::store::active_block(n.task_blocks@[b]));
        }
    }
}

/// After a merge a task of the result is flagged blocked exactly when some
/// block record of the result is neither ended nor deleted and names it.
pub proof fn lemma_merge_blocked_flag(local: SyncSnapshot, remote: SyncSnapshot, raw: SyncSnapshot, r: SyncSnapshot)
    requires
        merged_listing(local, remote, raw),
        normalized_from(raw, r),
    ensures
        forall|k: int|
            0 <= k < r.tasks@.len() ==> ((#[trigger] r.tasks@[k]).is_blocked <==> exists|b: int|
                0 <= b < r.task_blocks@.len() && r.task_blocks@[b].ended_at is None && r.task_blocks@[b].deleted_at is None
                    && r.task_blocks@[b].task_id@ == r.tasks@[k].id@),
{
    lemma_normalized_blocked_flag(raw, r);
}

/// The block record that stays open for a task has the latest start among
/// the task's open records, and of those starting together the greatest
/// identifier (texts compared code point by code point).
pub proof fn lemma_open_block_is_latest(rows: Seq<TaskBlock>, w: int, j: int)
    requires
        0 <= j < rows.len(),
        j != w,
        rows[j].ended_at is None,
        rows[j].deleted_at is None,
        leads(rows, w, rows[j].task_id@),
    ensures
        !text_lt(rows[w].started_at@, rows[j].started_at@),
        rows[w].started_at@ == rows[j].started_at@ ==> !text_lt(rows[w].id@, rows[j].id@),
{
    assert(!outranks(rows, j, w));
    lemma_text_order(rows[w].started_at@, rows[j].started_at@, rows[j].started_at@);
    lemma_text_order(rows[w].id@, rows[j].id@, rows[j].id@);
}

/// The running session that stays open for a task has the latest start
/// among the task's running sessions, and of those starting together the
/// greatest identifier.
pub proof fn lemma_open_session_is_latest(rows: Seq<WorkSession>, w: int, j: int)
    requires
        0 <= j < rows.len(),
        j != w,
        rows[j].ended_at is None,
        leads(rows, w, rows[j].task_id@),
    ensures
        !text_lt(rows[w].started_at@, rows[j].started_at@),
        rows[w].started_at@ == rows[j].started_at@ ==> !text_lt(rows[w].id@, rows[j].id@),
{
    assert(!outranks(rows, j, w));
    lemma_text_order(rows[w].started_at@, rows[j].started_at@, rows[j].started_at@);
    lemma_text_order(rows[w].id@, rows[j].id@, rows[j].id@);
}

/// Where the records of a finished task end, on its fields: its completion,
/// else its deletion, else its last change.
pub proof fn lemma_finish_time_fields(t: Task)
    ensures
        finish_time(t) == match t.completed_at {
            Some(c) => c,
            None => match t.deleted_at {
                Some(d) => d,
                None => t.updated_at,
            },
        },
        finished(t) <==> (t.deleted_at is Some || t.status == TaskStatus::Completed),
{
}

/// The task copy a merge keeps, on the copies' fields: when the local and
/// the remote side each hold identifier `id` once, the remote copy is kept
/// exactly when the instant its last change names is later than the local
/// one's, or the same with a greater version; otherwise the local copy.
/// Unparseable stamps count as the epoch.
pub proof fn lemma_merge_task_copy(
    local: SyncSnapshot,
    remote: SyncSnapshot,
    raw: SyncSnapshot,
    r: SyncSnapshot,
    li: int,
    rj: int,
    k: int,
)
    requires
        merged_listing(local, remote, raw),
        normalized_from(raw, r),
        !(bootstrap_seed(local) && has_any_record(remote)),
        distinct_ids(local.tasks@),
        distinct_ids(remote.tasks@),
        0 <= li < local.tasks@.len(),
        0 <= rj < remote.tasks@.len(),
        local.tasks@[li].id@ == remote.tasks@[rj].id@,
        0 <= k < r.tasks@.len(),
        r.tasks@[k].id@ == local.tasks@[li].id@,
    ensures
        ({
            let l = local.tasks@[li];
            let m = remote.tasks@[rj];
            let lt = match spec_rfc3339_instant(l.updated_at@) {
                Some(p) => (p.0 as int, p.1 as int),
                None => (0int, 0int),
            };
            let mt = match spec_rfc3339_instant(m.updated_at@) {
                Some(p) => (p.0 as int, p.1 as int),
                None => (0int, 0int),
            };
            let remote_wins = mt.0 > lt.0 || (mt.0 == lt.0 && (mt.1 > lt.1 || (mt.1 == lt.1 && m.version > l.version)));
            r.tasks@[k] == (Task { is_blocked: r.tasks@[k].is_blocked, ..(if remote_wins { m } else { l }) })
        }),
{
    let id = local.tasks@[li].id@;
    lemma_merge_result_ids(local, remote, raw, r);
    lemma_merge_identifiers(local.tasks@, remote.tasks@);
    lemma_merge_chosen(local.tasks@, remote.tasks@, raw.tasks@[k].record_id());
    assert(raw.tasks@[k].record_id() == id);
    let a = choose|i: int| 0 <= i < local.tasks@.len() && local.tasks@[i].record_id() == id;
    let b = choose|j: int| 0 <= j < remote.tasks@.len() && remote.tasks@[j].record_id() == id;
    assert(local.tasks@[li].record_id() == id);
    assert(remote.tasks@[rj].record_id() == id);
    if a != li {
        if a < li {
            assert(local.tasks@[a].record_id() != local.tasks@[li].record_id());
        } else {
            assert(local.tasks@[li].record_id() != local.tasks@[a].record_id());
        }
    }
    if b != rj {
        if b < rj {
            assert(remote.tasks@[b].record_id() != remote.tasks@[rj].record_id());
        } else {
            assert(remote.tasks@[rj].record_id() != remote.tasks@[b].record_id());
        }
    }
}

/// The instant a stamp names, as seconds and nanoseconds, the epoch when it
/// names none.
pub open spec fn stamp_instant(text: Seq<char>) -> (int, int) {
    match spec_rfc3339_instant(text) {
        Some(p) => (p.0 as int, p.1 as int),
        None => (0int, 0int),
    }
}

/// A copy changed at `a` with version `va` is newer than one changed at `b`
/// with version `vb`: a later instant, or the same with a greater version.
pub open spec fn newer_copy(a: Seq<char>, va: int, b: Seq<char>, vb: int) -> bool {
    let (x, y) = (stamp_instant(a), stamp_instant(b));
    x.0 > y.0 || (x.0 == y.0 && (x.1 > y.1 || (x.1 == y.1 && va > vb)))
}

proof fn lemma_listed_copy<T: SyncRecord>(local: Seq<T>, remote: Seq<T>, raw: Seq<T>, li: int, rj: int, k: int)
    requires
        lists(raw, merged_map(local, remote)),
        distinct_ids(local),
        distinct_ids(remote),
        0 <= li < local.len(),
        0 <= rj < remote.len(),
        local[li].record_id() == remote[rj].record_id(),
        0 <= k < raw.len(),
        raw[k].record_id() == local[li].record_id(),
    ensures
        raw[k] == if stamp_newer(remote[rj].record_stamp(), local[li].record_stamp()) {
            remote[rj]
        } else {
            local[li]
        },
{
    let id = local[li].record_id();
    lemma_merge_chosen(local, remote, id);
    let a = choose|i: int| 0 <= i < local.len() && local[i].record_id() == id;
    let b = choose|j: int| 0 <= j < remote.len() && remote[j].record_id() == id;
    if a != li {
        if a < li {
            assert(local[a].record_id() != local[li].record_id());
        } else {
            assert(local[li].record_id() != local[a].record_id());
        }
    }
    if b != rj {
        if b < rj {
            assert(remote[b].record_id() != remote[rj].record_id());
        } else {
            assert(remote[rj].record_id() != remote[b].record_id());
        }
    }
}

/// The workspace and priority copies a merge keeps, on their fields: when
/// each side holds identifier `id` once, the remote copy is kept exactly
/// when it was changed at a later instant, or at the same one with a greater
/// version; otherwise the local copy.
pub proof fn lemma_merge_group_copies(local: SyncSnapshot, remote: SyncSnapshot, raw: SyncSnapshot, r: SyncSnapshot)
    requires
        merged_listing(local, remote, raw),
        normalized_from(raw, r),
        !(bootstrap_seed(local) && has_any_record(remote)),
        distinct_ids(local.workspaces@),
        distinct_ids(remote.workspaces@),
        distinct_ids(local.priorities@),
        distinct_ids(remote.priorities@),
    ensures
        forall|li: int, rj: int, k: int|
            0 <= li < local.workspaces@.len() && 0 <= rj < remote.workspaces@.len() && 0 <= k < r.workspaces@.len()
                && (#[trigger] local.workspaces@[li]).id@ == (#[trigger] remote.workspaces@[rj]).id@ && (
            #[trigger] r.workspaces@[k]).id@ == local.workspaces@[li].id@ ==> r.workspaces@[k] == if newer_copy(
                remote.workspaces@[rj].updated_at@,
                remote.workspaces@[rj].version as int,
                local.workspaces@[li].updated_at@,
                local.workspaces@[li].version as int,
            ) {
                remote.workspaces@[rj]
            } else {
                local.workspaces@[li]
            },
        forall|li: int, rj: int, k: int|
            0 <= li < local.priorities@.len() && 0 <= rj < remote.priorities@.len() && 0 <= k < r.priorities@.len()
                && (#[trigger] local.priorities@[li]).id@ == (#[trigger] remote.priorities@[rj]).id@ && (
            #[trigger] r.priorities@[k]).id@ == local.priorities@[li].id@ ==> r.priorities@[k] == if newer_copy(
                remote.priorities@[rj].updated_at@,
                remote.priorities@[rj].version as int,
                local.priorities@[li].updated_at@,
                local.priorities@[li].version as int,
            ) {
                remote.priorities@[rj]
            } else {
                local.priorities@[li]
            },
{
    assert forall|li: int, rj: int, k: int|
        0 <= li < local.workspaces@.len() && 0 <= rj < remote.workspaces@.len() && 0 <= k < r.workspaces@.len()
            && (#[trigger] local.workspaces@[li]).id@ == (#[trigger] remote.workspaces@[rj]).id@ && (
        #[trigger] r.workspaces@[k]).id@ == local.workspaces@[li].id@ implies r.workspaces@[k] == if newer_copy(
            remote.workspaces@[rj].updated_at@,
            remote.workspaces@[rj].version as int,
            local.workspaces@[li].updated_at@,
            local.workspaces@[li].version as int,
        ) {
            remote.workspaces@[rj]
        } else {
            local.workspaces@[li]
        } by {
        lemma_listed_copy(local.workspaces@, remote.workspaces@, raw.workspaces@, li, rj, k);
    }
    assert forall|li: int, rj: int, k: int|
        0 <= li < local.priorities@.len() && 0 <= rj < remote.priorities@.len() && 0 <= k < r.priorities@.len()
            && (#[trigger] local.priorities@[li]).id@ == (#[trigger] remote.priorities@[rj]).id@ && (
        #[trigger] r.priorities@[k]).id@ == local.priorities@[li].id@ implies r.priorities@[k] == if newer_copy(
            remote.priorities@[rj].updated_at@,
            remote.priorities@[rj].version as int,
            local.priorities@[li].updated_at@,
            local.priorities@[li].version as int,
        ) {
            remote.priorities@[rj]
        } else {
            local.priorities@[li]
        } by {
        lemma_listed_copy(local.priorities@, remote.priorities@, raw.priorities@, li, rj, k);
    }
}

} // verus!
