//! The orders the store lists its rows in, stated on the rows' fields: the
//! order of the original queries' `ORDER BY` clauses, texts compared code
//! point by code point.

use vstd::prelude::*;
use crate::domain::{Priority, Task, TaskBlock, WorkSession, Workspace};
use crate::ordering::{key_lt, sorted_by_key, Keyed};
use crate::text::{lemma_text_order, text_lt};

verus! {

/// Tasks by sort order, then creation time.
pub open spec fn tasks_listed_in_order(rows: Seq<Task>) -> bool {
    forall|i: int, j: int|
        0 <= i < j < rows.len() ==> #[trigger] rows[i].sort_order <= #[trigger] rows[j].sort_order && (rows[i].sort_order
            == rows[j].sort_order ==> !text_lt(rows[j].created_at@, rows[i].created_at@))
}

/// Block records by start, then identifier.
pub open spec fn blocks_listed_in_order(rows: Seq<TaskBlock>) -> bool {
    forall|i: int, j: int|
        0 <= i < j < rows.len() ==> {
            &&& !text_lt((#[trigger] rows[j]).started_at@, (#[trigger] rows[i]).started_at@)
            &&& (rows[i].started_at@ == rows[j].started_at@ ==> !text_lt(rows[j].id@, rows[i].id@))
        }
}

/// Work sessions by start, then identifier.
pub open spec fn sessions_listed_in_order(rows: Seq<WorkSession>) -> bool {
    forall|i: int, j: int|
        0 <= i < j < rows.len() ==> {
            &&& !text_lt((#[trigger] rows[j]).started_at@, (#[trigger] rows[i]).started_at@)
            &&& (rows[i].started_at@ == rows[j].started_at@ ==> !text_lt(rows[j].id@, rows[i].id@))
        }
}

/// Workspaces with the workspace `done` last, the others by sort order, then
/// creation time.
pub open spec fn workspaces_listed_in_order(rows: Seq<Workspace>) -> bool {
    forall|i: int, j: int|
        0 <= i < j < rows.len() ==> {
            &&& ((#[trigger] rows[i]).id@ == "done"@ ==> (#[trigger] rows[j]).id@ == "done"@)
            &&& (rows[i].id@ != "done"@ && rows[j].id@ != "done"@ ==> rows[i].sort_order <= rows[j].sort_order && (
            rows[i].sort_order == rows[j].sort_order ==> !text_lt(rows[j].created_at@, rows[i].created_at@)))
        }
}

/// Priorities by workspace, then sort order, then creation time.
pub open spec fn priorities_listed_in_order(rows: Seq<Priority>) -> bool {
    forall|i: int, j: int|
        0 <= i < j < rows.len() ==> {
            &&& !text_lt((#[trigger] rows[j]).workspace_id@, (#[trigger] rows[i]).workspace_id@)
            &&& (rows[i].workspace_id@ == rows[j].workspace_id@ ==> rows[i].sort_order <= rows[j].sort_order && (
            rows[i].sort_order == rows[j].sort_order ==> !text_lt(rows[j].created_at@, rows[i].created_at@)))
        }
}

/// Tasks in listing order come by sort order, then by creation time.
pub proof fn lemma_tasks_listed_in_order(rows: Seq<Task>)
    requires
        sorted_by_key(rows),
    ensures
        tasks_listed_in_order(rows),
{
    assert forall|i: int, j: int| 0 <= i < j < rows.len() implies #[trigger] rows[i].sort_order
        <= #[trigger] rows[j].sort_order && (rows[i].sort_order == rows[j].sort_order ==> !text_lt(
        rows[j].created_at@,
        rows[i].created_at@,
    )) by {
        assert(!key_lt(rows[j].key(), rows[i].key()));
        lemma_text_order(rows[j].created_at@, rows[i].created_at@, rows[i].created_at@);
    }
}

/// Block records in listing order come by start, then identifier.
pub proof fn lemma_blocks_listed_in_order(rows: Seq<TaskBlock>)
    requires
        sorted_by_key(rows),
    ensures
        blocks_listed_in_order(rows),
{
    assert forall|i: int, j: int| 0 <= i < j < rows.len() implies {
        &&& !text_lt((#[trigger] rows[j]).started_at@, (#[trigger] rows[i]).started_at@)
        &&& (rows[i].started_at@ == rows[j].started_at@ ==> !text_lt(rows[j].id@, rows[i].id@))
    } by {
        assert(!key_lt(rows[j].key(), rows[i].key()));
        lemma_text_order(rows[j].started_at@, rows[i].started_at@, rows[i].started_at@);
        lemma_text_order(rows[j].id@, rows[i].id@, rows[i].id@);
    }
}

/// Work sessions in listing order come by start, then identifier.
pub proof fn lemma_sessions_listed_in_order(rows: Seq<WorkSession>)
    requires
        sorted_by_key(rows),
    ensures
        sessions_listed_in_order(rows),
{
    assert forall|i: int, j: int| 0 <= i < j < rows.len() implies {
        &&& !text_lt((#[trigger] rows[j]).started_at@, (#[trigger] rows[i]).started_at@)
        &&& (rows[i].started_at@ == rows[j].started_at@ ==> !text_lt(rows[j].id@, rows[i].id@))
    } by {
        assert(!key_lt(rows[j].key(), rows[i].key()));
        lemma_text_order(rows[j].started_at@, rows[i].started_at@, rows[i].started_at@);
        lemma_text_order(rows[j].id@, rows[i].id@, rows[i].id@);
    }
}

/// Workspaces in listing order have `done` last and the others by sort
/// order, then creation time.
pub proof fn lemma_workspaces_listed_in_order(rows: Seq<Workspace>)
    requires
        sorted_by_key(rows),
    ensures
        workspaces_listed_in_order(rows),
{
    assert forall|i: int, j: int| 0 <= i < j < rows.len() implies {
        &&& ((#[trigger] rows[i]).id@ == "done"@ ==> (#[trigger] rows[j]).id@ == "done"@)
        &&& (rows[i].id@ != "done"@ && rows[j].id@ != "done"@ ==> rows[i].sort_order <= rows[j].sort_order && (
        rows[i].sort_order == rows[j].sort_order ==> !text_lt(rows[j].created_at@, rows[i].created_at@)))
    } by {
        assert(!key_lt(rows[j].key(), rows[i].key()));
        lemma_text_order(rows[j].created_at@, rows[i].created_at@, rows[i].created_at@);
    }
}

/// Priorities in listing order come by workspace, then sort order, then
/// creation time.
pub proof fn lemma_priorities_listed_in_order(rows: Seq<Priority>)
    requires
        sorted_by_key(rows),
    ensures
        priorities_listed_in_order(rows),
{
    assert forall|i: int, j: int| 0 <= i < j < rows.len() implies {
        &&& !text_lt((#[trigger] rows[j]).workspace_id@, (#[trigger] rows[i]).workspace_id@)
        &&& (rows[i].workspace_id@ == rows[j].workspace_id@ ==> rows[i].sort_order <= rows[j].sort_order && (
        rows[i].sort_order == rows[j].sort_order ==> !text_lt(rows[j].created_at@, rows[i].created_at@)))
    } by {
        assert(!key_lt(rows[j].key(), rows[i].key()));
        lemma_text_order(rows[j].workspace_id@, rows[i].workspace_id@, rows[i].workspace_id@);
        lemma_text_order(rows[j].created_at@, rows[i].created_at@, rows[i].created_at@);
    }
}

} // verus!
