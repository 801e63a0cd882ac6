//! Reads of the task store: single records by identifier and ordered listings.

use vstd::prelude::*;
use crate::domain::{Priority, TaskBlock, WorkSession, Workspace};
use crate::error::Result;
use crate::ordering::{key_lt, sort_rows, sorted_by_key, Keyed};
use crate::store::{done_id, TaskStore};
use crate::text::str_eq;
use crate::listing::{
    blocks_listed_in_order, lemma_blocks_listed_in_order, lemma_priorities_listed_in_order, lemma_sessions_listed_in_order,
    lemma_workspaces_listed_in_order, priorities_listed_in_order, sessions_listed_in_order, workspaces_listed_in_order,
};

verus! {

broadcast use vstd::seq_lib::group_to_multiset_ensures;

impl TaskStore {
    /// The workspaces a listing holds, in storage order.
    pub open spec fn listed_workspaces(&self, include_deleted: bool) -> Seq<Workspace> {
        self.workspace_rows().filter(|w: Workspace| include_deleted || w.deleted_at is None)
    }

    /// A listed workspace is a stored one.
    pub proof fn lemma_listed_workspace_stored(&self, include_deleted: bool, x: Workspace)
        requires
            self.listed_workspaces(include_deleted).contains(x),
        ensures
            self.workspace_rows().contains(x),
    {
        self.workspace_rows().lemma_filter_contains_rev(|w: Workspace| include_deleted || w.deleted_at is None, x);
    }

    /// The priorities a listing holds, in storage order.
    pub open spec fn listed_priorities(&self, include_deleted: bool) -> Seq<Priority> {
        self.priority_rows().filter(|p: Priority| include_deleted || p.deleted_at is None)
    }

    /// The block records of one task a listing holds, in storage order.
    pub open spec fn listed_blocks(&self, task_id: Seq<char>, include_deleted: bool) -> Seq<TaskBlock> {
        self.block_rows().filter(
            |b: TaskBlock| b.task_id@ == task_id && (include_deleted || b.deleted_at is None),
        )
    }

    /// The work sessions of one task, in storage order.
    pub open spec fn listed_sessions(&self, task_id: Seq<char>) -> Seq<WorkSession> {
        self.session_rows().filter(|s: WorkSession| s.task_id@ == task_id)
    }

    /// The workspace with identifier `id`, unless it is deleted.
    pub fn get_workspace(&self, id: &str) -> (r: Result<Option<Workspace>>)
        requires
            self.wf(),
        ensures
            match r {
                Ok(Some(w)) => exists|i: int|
                    self.workspace_at(id@, i) && w == self.workspace_rows()[i] && w.deleted_at is None,
                Ok(None) => !self.has_live_workspace(id@),
                Err(_) => false,
            },
    {
        match self.find_workspace(id) {
            Some(i) => {
                if self.workspaces[i].deleted_at.is_none() {
                    let r = self.workspaces[i].clone();
                    assert(self.workspace_at(id@, i as int));
                    Ok(Some(r))
                } else {
                    Ok(None)
                }
            },
            None => Ok(None),
        }
    }

    /// The priority with identifier `id`, unless it is deleted.
    pub fn get_priority(&self, id: &str) -> (r: Result<Option<Priority>>)
        requires
            self.wf(),
        ensures
            match r {
                Ok(Some(p)) => exists|i: int|
                    self.priority_at(id@, i) && p == self.priority_rows()[i] && p.deleted_at is None,
                Ok(None) => !self.has_live_priority(id@),
                Err(_) => false,
            },
    {
        match self.find_priority(id) {
            Some(i) => {
                if self.priorities[i].deleted_at.is_none() {
                    let r = self.priorities[i].clone();
                    assert(self.priority_at(id@, i as int));
                    Ok(Some(r))
                } else {
                    Ok(None)
                }
            },
            None => Ok(None),
        }
    }

    /// The block record with identifier `id`, deleted or not.
    pub fn get_block(&self, id: &str) -> (r: Result<Option<TaskBlock>>)
        ensures
            match r {
                Ok(Some(b)) => exists|i: int| self.block_at(id@, i) && b == self.block_rows()[i],
                Ok(None) => !self.has_block(id@),
                Err(_) => false,
            },
    {
        match self.find_block(id) {
            Some(i) => Ok(Some(self.blocks[i].clone())),
            None => Ok(None),
        }
    }

    /// The work session with identifier `id`.
    pub fn get_session(&self, id: &str) -> (r: Result<Option<WorkSession>>)
        ensures
            match r {
                Ok(Some(s)) => exists|i: int| self.session_at(id@, i) && s == self.session_rows()[i],
                Ok(None) => !self.has_session(id@),
                Err(_) => false,
            },
    {
        match self.find_session(id) {
            Some(i) => Ok(Some(self.sessions[i].clone())),
            None => Ok(None),
        }
    }

    /// All workspaces, or those not deleted, by sort order and creation time,
    /// the built-in workspace of completed tasks last.
    pub fn list_workspaces(&self, include_deleted: bool) -> (r: Result<Vec<Workspace>>)
        ensures
            match r {
                Ok(list) => list@.to_multiset() == self.listed_workspaces(include_deleted).to_multiset()
                    && sorted_by_key(list@) && workspaces_listed_in_order(list@),
                Err(_) => false,
            },
    {
        let ghost pred = |w: Workspace| include_deleted || w.deleted_at is None;
        let mut kept: Vec<Workspace> = Vec::new();
        let mut i: usize = 0;
        while i < self.workspaces.len()
            invariant
                i <= self.workspace_rows().len(),
                pred == (|w: Workspace| include_deleted || w.deleted_at is None),
                kept@ == self.workspace_rows().take(i as int).filter(pred),
            decreases self.workspace_rows().len() - i,
        {
            proof {
                reveal(Seq::filter);
                assert(self.workspace_rows().take(i + 1).drop_last() =~= self.workspace_rows().take(i as int));
            }
            if include_deleted || self.workspaces[i].deleted_at.is_none() {
                kept.push(self.workspaces[i].clone());
            }
            i = i + 1;
        }
        proof {
            assert(self.workspace_rows().take(self.workspace_rows().len() as int) =~= self.workspace_rows());
        }
        let list = sort_rows(kept);
        proof {
            lemma_workspaces_listed_in_order(list@);
        }
        Ok(list)
    }

    /// All priorities, or those not deleted, by workspace, sort order and creation time.
    pub fn list_priorities(&self, include_deleted: bool) -> (r: Result<Vec<Priority>>)
        ensures
            match r {
                Ok(list) => list@.to_multiset() == self.listed_priorities(include_deleted).to_multiset()
                    && sorted_by_key(list@) && priorities_listed_in_order(list@),
                Err(_) => false,
            },
    {
        let ghost pred = |p: Priority| include_deleted || p.deleted_at is None;
        let mut kept: Vec<Priority> = Vec::new();
        let mut i: usize = 0;
        while i < self.priorities.len()
            invariant
                i <= self.priority_rows().len(),
                pred == (|p: Priority| include_deleted || p.deleted_at is None),
                kept@ == self.priority_rows().take(i as int).filter(pred),
            decreases self.priority_rows().len() - i,
        {
            proof {
                reveal(Seq::filter);
                assert(self.priority_rows().take(i + 1).drop_last() =~= self.priority_rows().take(i as int));
            }
            if include_deleted || self.priorities[i].deleted_at.is_none() {
                kept.push(self.priorities[i].clone());
            }
            i = i + 1;
        }
        proof {
            assert(self.priority_rows().take(self.priority_rows().len() as int) =~= self.priority_rows());
        }
        let list = sort_rows(kept);
        proof {
            lemma_priorities_listed_in_order(list@);
        }
        Ok(list)
    }

    /// The block records of a task, or those not deleted, by start.
    pub fn list_blocks(&self, task_id: &str, include_deleted: bool) -> (r: Result<Vec<TaskBlock>>)
        ensures
            match r {
                Ok(list) => list@.to_multiset() == self.listed_blocks(task_id@, include_deleted).to_multiset()
                    && sorted_by_key(list@) && blocks_listed_in_order(list@),
                Err(_) => false,
            },
    {
        let ghost pred = |b: TaskBlock| b.task_id@ == task_id@ && (include_deleted || b.deleted_at is None);
        let mut kept: Vec<TaskBlock> = Vec::new();
        let mut i: usize = 0;
        while i < self.blocks.len()
            invariant
                i <= self.block_rows().len(),
                pred == (|b: TaskBlock| b.task_id@ == task_id@ && (include_deleted || b.deleted_at is None)),
                kept@ == self.block_rows().take(i as int).filter(pred),
            decreases self.block_rows().len() - i,
        {
            proof {
                reveal(Seq::filter);
                assert(self.block_rows().take(i + 1).drop_last() =~= self.block_rows().take(i as int));
            }
            if str_eq(&self.blocks[i].task_id, task_id) && (include_deleted || self.blocks[i].deleted_at.is_none()) {
                kept.push(self.blocks[i].clone());
            }
            i = i + 1;
        }
        proof {
            assert(self.block_rows().take(self.block_rows().len() as int) =~= self.block_rows());
        }
        let list = sort_rows(kept);
        proof {
            lemma_blocks_listed_in_order(list@);
        }
        Ok(list)
    }

    /// Every block record, deleted or not, by start.
    pub fn list_all_blocks(&self) -> (r: Result<Vec<TaskBlock>>)
        ensures
            match r {
                Ok(list) => list@.to_multiset() == self.block_rows().to_multiset() && sorted_by_key(list@) && blocks_listed_in_order(list@),
                Err(_) => false,
            },
    {
        let mut kept: Vec<TaskBlock> = Vec::new();
        let mut i: usize = 0;
        while i < self.blocks.len()
            invariant
                i <= self.block_rows().len(),
                kept@ == self.block_rows().take(i as int),
            decreases self.block_rows().len() - i,
        {
            kept.push(self.blocks[i].clone());
            proof {
                assert(kept@ =~= self.block_rows().take(i + 1));
            }
            i = i + 1;
        }
        proof {
            assert(self.block_rows().take(self.block_rows().len() as int) =~= self.block_rows());
        }
        let list = sort_rows(kept);
        proof {
            lemma_blocks_listed_in_order(list@);
        }
        Ok(list)
    }

    /// The work sessions of a task, by start.
    pub fn list_sessions(&self, task_id: &str) -> (r: Result<Vec<WorkSession>>)
        ensures
            match r {
                Ok(list) => list@.to_multiset() == self.listed_sessions(task_id@).to_multiset()
                    && sorted_by_key(list@) && sessions_listed_in_order(list@),
                Err(_) => false,
            },
    {
        let ghost pred = |s: WorkSession| s.task_id@ == task_id@;
        let mut kept: Vec<WorkSession> = Vec::new();
        let mut i: usize = 0;
        while i < self.sessions.len()
            invariant
                i <= self.session_rows().len(),
                pred == (|s: WorkSession| s.task_id@ == task_id@),
                kept@ == self.session_rows().take(i as int).filter(pred),
            decreases self.session_rows().len() - i,
        {
            proof {
                reveal(Seq::filter);
                assert(self.session_rows().take(i + 1).drop_last() =~= self.session_rows().take(i as int));
            }
            if str_eq(&self.sessions[i].task_id, task_id) {
                kept.push(self.sessions[i].clone());
            }
            i = i + 1;
        }
        proof {
            assert(self.session_rows().take(self.session_rows().len() as int) =~= self.session_rows());
        }
        let list = sort_rows(kept);
        proof {
            lemma_sessions_listed_in_order(list@);
        }
        Ok(list)
    }

    /// Every work session, by start.
    pub fn list_all_sessions(&self) -> (r: Result<Vec<WorkSession>>)
        ensures
            match r {
                Ok(list) => list@.to_multiset() == self.session_rows().to_multiset() && sorted_by_key(list@) && sessions_listed_in_order(list@),
                Err(_) => false,
            },
    {
        let mut kept: Vec<WorkSession> = Vec::new();
        let mut i: usize = 0;
        while i < self.sessions.len()
            invariant
                i <= self.session_rows().len(),
                kept@ == self.session_rows().take(i as int),
            decreases self.session_rows().len() - i,
        {
            kept.push(self.sessions[i].clone());
            proof {
                assert(kept@ =~= self.session_rows().take(i + 1));
            }
            i = i + 1;
        }
        proof {
            assert(self.session_rows().take(self.session_rows().len() as int) =~= self.session_rows());
        }
        let list = sort_rows(kept);
        proof {
            lemma_sessions_listed_in_order(list@);
        }
        Ok(list)
    }
}

/// In a workspace listing the built-in workspace of completed tasks comes
/// after every other workspace.
pub proof fn lemma_done_listed_last(list: Seq<Workspace>, d: int, i: int)
    requires
        sorted_by_key(list),
        0 <= d < list.len(),
        list[d].id@ == done_id(),
        0 <= i < list.len(),
        list[i].id@ != done_id(),
    ensures
        i < d,
{
    if i > d {
        assert(!key_lt(list[i].key(), list[d].key()));
    }
}

} // verus!
