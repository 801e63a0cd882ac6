//! Task lifecycle: status changes, reopening, soft deletion.

use vstd::prelude::*;
use crate::domain::{Task, TaskStatus, WorkSession};
use crate::error::{CoreError, Result};
use crate::store::{
    active_session, done_id, fallback_workspace_id, lemma_refs_carried, lists_task, lists_workspace, refs_carried, same_task_refs,
    task_refs_within, TaskStore,
};
use crate::rules::validate_status_change;
use crate::text::str_eq;

verus! {

/// `new` is `old` with every running session of the task ended at `stamp`.
pub open spec fn sessions_closed(
    old: Seq<WorkSession>,
    new: Seq<WorkSession>,
    task_id: Seq<char>,
    stamp: String,
) -> bool {
    &&& new.len() == old.len()
    &&& forall|k: int|
        0 <= k < old.len() ==> #[trigger] new[k] == if old[k].task_id@ == task_id && active_session(old[k]) {
            WorkSession { ended_at: Some(stamp), ..old[k] }
        } else {
            old[k]
        }
}

/// The tables other than tasks and sessions are unchanged.
pub open spec fn others_unchanged(old: TaskStore, new: TaskStore) -> bool {
    &&& new.workspace_rows() == old.workspace_rows()
    &&& new.priority_rows() == old.priority_rows()
    &&& new.block_rows() == old.block_rows()
}

/// Nothing changed.
pub open spec fn unchanged(old: TaskStore, new: TaskStore) -> bool {
    &&& others_unchanged(old, new)
    &&& new.task_rows() == old.task_rows()
    &&& new.session_rows() == old.session_rows()
}

/// The task at `i` after a status change to `status` stamped `stamp`.
pub open spec fn status_changed(old: Task, status: TaskStatus, stamp: String, new: Task) -> bool {
    &&& new.updated_at == stamp
    &&& new.status == status
    &&& new.version == old.version + 1
    &&& new.completed_at == (if status == TaskStatus::Completed { Some(stamp) } else { None })
    &&& new.started_at == (if status == TaskStatus::Pending {
        None
    } else if old.started_at is Some {
        old.started_at
    } else {
        Some(stamp)
    })
    &&& if status == TaskStatus::Completed {
        new.workspace_id matches Some(w) && w@ == done_id()
    } else {
        new.workspace_id == old.workspace_id
    }
    &&& new == Task {
        status: new.status,
        started_at: new.started_at,
        completed_at: new.completed_at,
        updated_at: new.updated_at,
        workspace_id: new.workspace_id,
        version: new.version,
        ..old
    }
}

/// What a status change does.
pub open spec fn set_status_result(pre: TaskStore, post: TaskStore, id: &str, expected_version: i64, status: TaskStatus, updated_at: &str, r: Result<Task>) -> bool {
    &&& (!pre.has_task(id@) ==> (r matches Err(CoreError::TaskNotFound(x)) && x@ == id@))
    &&& (forall|i: int| pre.task_at(id@, i) ==> {
        let t = #[trigger] pre.task_rows()[i];
        if t.deleted_at is Some {
            r matches Err(CoreError::InvalidState(_))
        } else if t.status == TaskStatus::Completed && status != TaskStatus::Completed {
            r matches Err(CoreError::InvalidState(_))
        } else if status == TaskStatus::Completed && pre.blocked(id@) {
            r matches Err(CoreError::InvalidState(_))
        } else if t.version != expected_version {
            r matches Err(CoreError::VersionConflict)
        } else if t.version == i64::MAX || (status == TaskStatus::Completed && !pre.has_workspace(done_id())) {
            r matches Err(CoreError::Database(_))
        } else {
            r is Ok
        }
    })
    &&& (match r {
        Ok(task) => exists|i: int| {
            &&& pre.task_at(id@, i)
            &&& #[trigger] post.task_rows()[i].updated_at@ == updated_at@
            &&& post.task_rows() == pre.task_rows().update(i, post.task_rows()[i])
            &&& status_changed(pre.task_rows()[i], status, post.task_rows()[i].updated_at, post.task_rows()[i])
            &&& others_unchanged(pre, post)
            &&& if pre.task_rows()[i].status == TaskStatus::InProgress && status != TaskStatus::InProgress {
                sessions_closed(pre.session_rows(), post.session_rows(), id@, post.task_rows()[i].updated_at)
            } else {
                post.session_rows() == pre.session_rows()
            }
            &&& task == post.shown(post.task_rows()[i])
        },
        Err(_) => unchanged(pre, post),
    })
}

impl TaskStore {
    /// Ends every running session of the task at `stamp`.
    pub(crate) fn close_sessions_of(&mut self, task_id: &str, stamp: &String)
        requires
            old(self).wf(),
        ensures
            final(self).wf(),
            sessions_closed(old(self).session_rows(), final(self).session_rows(), task_id@, *stamp),
            others_unchanged(*old(self), *final(self)),
            final(self).task_rows() == old(self).task_rows(),
            forall|k: int|
                0 <= k < final(self).session_rows().len() ==> final(self).session_rows()[k].task_id@ == task_id@
                    ==> !active_session(#[trigger] final(self).session_rows()[k]),
    {
        let ghost start = self.session_rows();
        let mut k: usize = 0;
        while k < self.sessions.len()
            invariant
                k <= self.session_rows().len(),
                self.session_rows().len() == start.len(),
                others_unchanged(*old(self), *self),
                self.task_rows() == old(self).task_rows(),
                start == old(self).session_rows(),
                old(self).wf(),
                forall|j: int|
                    0 <= j < start.len() ==> #[trigger] self.session_rows()[j] == if j < k && start[j].task_id@
                        == task_id@ && active_session(start[j]) {
                        WorkSession { ended_at: Some(*stamp), ..start[j] }
                    } else {
                        start[j]
                    },
            decreases start.len() - k,
        {
            if self.sessions[k].ended_at.is_none() && str_eq(&self.sessions[k].task_id, task_id) {
                let mut s = self.sessions[k].clone();
                s.ended_at = Some(stamp.clone());
                self.sessions.set(k, s);
            }
            k = k + 1;
        }
        proof {
            let rows = self.session_rows();
            assert forall|i: int, j: int| 0 <= i < j < rows.len() implies rows[i].id@ != rows[j].id@ by {
                assert(rows[i].id == start[i].id && rows[j].id == start[j].id);
            }
            assert forall|i: int, j: int|
                0 <= i < j < rows.len() && active_session(rows[i]) && active_session(rows[j]) implies rows[i].task_id@
                != rows[j].task_id@ by {
                assert(rows[i].task_id == start[i].task_id && rows[j].task_id == start[j].task_id);
                assert(active_session(start[i]) && active_session(start[j]));
            }
        }
    }

    /// Moves a task to `status`, stamped `updated_at`. A completed task stays
    /// completed; a blocked task cannot be completed. Leaving the in-progress
    /// status ends the task's running sessions; completing moves the task to
    /// the built-in workspace of completed tasks.
    pub fn set_status(&mut self, id: &str, expected_version: i64, status: TaskStatus, updated_at: &str) -> (r: Result<Task>)
        requires
            old(self).wf(),
        ensures
            final(self).wf(),
            set_status_result(*old(self), *final(self), id, expected_version, status, updated_at, r),
    {
        let i = match self.find_task(id) {
            Some(i) => i,
            None => {
                return Err(CoreError::TaskNotFound(id.to_owned()));
            },
        };
        let current = self.tasks[i].clone();
        validate_status_change(&current, status)?;
        if status == TaskStatus::Completed && self.is_blocked(id) {
            return Err(CoreError::InvalidState(String::from_str("请先解除任务阻塞")));
        }
        if current.version != expected_version {
            return Err(CoreError::VersionConflict);
        }
        if current.version == i64::MAX {
            return Err(CoreError::Database(String::from_str("版本号超出范围")));
        }
        if status == TaskStatus::Completed && self.find_workspace("done").is_none() {
            proof {
                reveal_strlit("done");
            }
            return Err(CoreError::Database(String::from_str("FOREIGN KEY constraint failed")));
        }
        let stamp = updated_at.to_owned();
        if current.status == TaskStatus::InProgress && status != TaskStatus::InProgress {
            self.close_sessions_of(id, &stamp);
        }
        let completed_at = if status == TaskStatus::Completed { Some(stamp.clone()) } else { None };
        let started_at = match status {
            TaskStatus::Pending => None,
            TaskStatus::InProgress | TaskStatus::Completed => match current.started_at {
                Some(s) => Some(s),
                None => Some(stamp.clone()),
            },
        };
        let workspace_id = if status == TaskStatus::Completed {
            Some(String::from_str("done"))
        } else {
            current.workspace_id
        };
        let next = Task {
            status,
            started_at,
            completed_at,
            updated_at: stamp,
            workspace_id,
            version: current.version + 1,
            ..current
        };
        self.tasks.set(i, next);
        proof {
            reveal_strlit("done");
            let rows = self.task_rows();
            let pre = *old(self);
            assert forall|a: int, b: int| 0 <= a < b < rows.len() implies rows[a].id@ != rows[b].id@ by {
                assert(rows[a].id == old(self).task_rows()[a].id && rows[b].id == old(self).task_rows()[b].id);
            }
            assert(old(self).task_at(id@, i as int));
            assert(task_refs_within(pre.task_rows()[i as int], pre.workspace_rows(), pre.priority_rows()));
            if status == TaskStatus::Completed {
                let j = choose|j: int| pre.workspace_at(done_id(), j);
                assert(lists_workspace(self.workspace_rows(), done_id()));
            }
            assert forall|k: int| 0 <= k < rows.len() implies (k < pre.task_rows().len() && same_task_refs(
                pre.task_rows()[k],
                #[trigger] rows[k],
            )) || task_refs_within(rows[k], self.workspace_rows(), self.priority_rows()) by {
                if k != i {
                    assert(rows[k] == pre.task_rows()[k]);
                }
            }
            assert forall|k: int| 0 <= k < self.session_rows().len() implies (k < pre.session_rows().len() && (
            #[trigger] self.session_rows()[k]).task_id == pre.session_rows()[k].task_id) || lists_task(
                rows,
                self.session_rows()[k].task_id@,
            ) by {
                assert(self.session_rows()[k].task_id == pre.session_rows()[k].task_id);
            }
            assert(refs_carried(pre, *self));
            lemma_refs_carried(pre, *self);
        }
        let shown = self.show_task(i);
        Ok(shown)
    }
}

/// What reopening a task does.
pub open spec fn reopen_task_result(pre: TaskStore, post: TaskStore, id: &str, expected_version: i64, updated_at: &str, r: Result<Task>) -> bool {
    &&& (!pre.has_task(id@) ==> (r matches Err(CoreError::TaskNotFound(x)) && x@ == id@))
    &&& (forall|i: int| pre.task_at(id@, i) ==> {
        let t = #[trigger] pre.task_rows()[i];
        if t.deleted_at is Some {
            r matches Err(CoreError::InvalidState(_))
        } else if t.status != TaskStatus::Completed {
            r matches Err(CoreError::InvalidState(_))
        } else if t.version != expected_version {
            r matches Err(CoreError::VersionConflict)
        } else if t.version == i64::MAX || (t.home_workspace_id is None && !pre.has_workspace(fallback_workspace_id())) {
            r matches Err(CoreError::Database(_))
        } else {
            r is Ok
        }
    })
    &&& (match r {
        Ok(task) => exists|i: int| {
            &&& pre.task_at(id@, i)
            &&& #[trigger] post.task_rows()[i].updated_at@ == updated_at@
            &&& post.task_rows() == pre.task_rows().update(i, post.task_rows()[i])
            &&& ({
                let o = pre.task_rows()[i];
                let n = post.task_rows()[i];
                &&& n.workspace_id matches Some(w) && w@ == (match o.home_workspace_id {
                    Some(h) => h@,
                    None => fallback_workspace_id(),
                })
                &&& n == Task {
                    status: TaskStatus::Pending,
                    completed_at: None,
                    workspace_id: n.workspace_id,
                    updated_at: n.updated_at,
                    version: (o.version + 1) as i64,
                    ..o
                }
            })
            &&& others_unchanged(pre, post)
            &&& post.session_rows() == pre.session_rows()
            &&& task == post.shown(post.task_rows()[i])
        },
        Err(_) => unchanged(pre, post),
    })
}

/// What deleting a task does.
pub open spec fn soft_delete_task_result(pre: TaskStore, post: TaskStore, id: &str, expected_version: i64, deleted_at: &str, r: Result<()>) -> bool {
    &&& (!pre.has_task(id@) ==> (r matches Err(CoreError::TaskNotFound(x)) && x@ == id@))
    &&& (forall|i: int| pre.task_at(id@, i) ==> {
        let t = #[trigger] pre.task_rows()[i];
        if t.deleted_at is Some || t.version != expected_version {
            r matches Err(CoreError::VersionConflict)
        } else if t.version == i64::MAX {
            r matches Err(CoreError::Database(_))
        } else {
            r is Ok
        }
    })
    &&& (match r {
        Ok(_) => exists|i: int| {
            &&& pre.task_at(id@, i)
            &&& #[trigger] post.task_rows()[i].updated_at@ == deleted_at@
            &&& post.task_rows() == pre.task_rows().update(i, post.task_rows()[i])
            &&& post.task_rows()[i] == Task {
                deleted_at: Some(post.task_rows()[i].updated_at),
                updated_at: post.task_rows()[i].updated_at,
                version: (pre.task_rows()[i].version + 1) as i64,
                ..pre.task_rows()[i]
            }
            &&& others_unchanged(pre, post)
            &&& post.session_rows() == pre.session_rows()
        },
        Err(_) => unchanged(pre, post),
    })
}

impl TaskStore {
    pub(crate) proof fn lemma_task_replaced(old: TaskStore, new: TaskStore, i: int)
        requires
            old.wf(),
            0 <= i < old.task_rows().len(),
            new.task_rows() == old.task_rows().update(i, new.task_rows()[i]),
            new.task_rows()[i].id == old.task_rows()[i].id,
            same_task_refs(old.task_rows()[i], new.task_rows()[i]) || task_refs_within(
                new.task_rows()[i],
                old.workspace_rows(),
                old.priority_rows(),
            ),
            others_unchanged(old, new),
            new.session_rows() == old.session_rows(),
        ensures
            new.wf(),
    {
        let rows = new.task_rows();
        assert forall|a: int, b: int| 0 <= a < b < rows.len() implies rows[a].id@ != rows[b].id@ by {
            assert(rows[a].id == old.task_rows()[a].id && rows[b].id == old.task_rows()[b].id);
        }
        assert forall|k: int| 0 <= k < rows.len() implies (k < old.task_rows().len() && same_task_refs(
            old.task_rows()[k],
            #[trigger] rows[k],
        )) || task_refs_within(rows[k], new.workspace_rows(), new.priority_rows()) by {
            if k != i {
                assert(rows[k] == old.task_rows()[k]);
            }
        }
        assert(refs_carried(old, new));
        lemma_refs_carried(old, new);
    }

    /// Reopens a completed task: it becomes pending, loses its completion
    /// time and returns to its home workspace (日常 when it has none).
    pub fn reopen_task(&mut self, id: &str, expected_version: i64, updated_at: &str) -> (r: Result<Task>)
        requires
            old(self).wf(),
        ensures
            final(self).wf(),
            reopen_task_result(*old(self), *final(self), id, expected_version, updated_at, r),
    {
        let i = match self.find_task(id) {
            Some(i) => i,
            None => {
                return Err(CoreError::TaskNotFound(id.to_owned()));
            },
        };
        let current = self.tasks[i].clone();
        if current.deleted_at.is_some() {
            return Err(CoreError::InvalidState(String::from_str("已删除任务不能重新打开")));
        }
        if current.status != TaskStatus::Completed {
            return Err(CoreError::InvalidState(String::from_str("只有已完成任务可以重新打开")));
        }
        if current.version != expected_version {
            return Err(CoreError::VersionConflict);
        }
        if current.version == i64::MAX {
            return Err(CoreError::Database(String::from_str("版本号超出范围")));
        }
        if current.home_workspace_id.is_none() && self.find_workspace("daily").is_none() {
            proof {
                reveal_strlit("daily");
            }
            return Err(CoreError::Database(String::from_str("FOREIGN KEY constraint failed")));
        }
        let workspace_id = match &current.home_workspace_id {
            Some(home) => home.clone(),
            None => String::from_str("daily"),
        };
        let next = Task {
            status: TaskStatus::Pending,
            completed_at: None,
            workspace_id: Some(workspace_id),
            updated_at: updated_at.to_owned(),
            version: current.version + 1,
            ..current
        };
        self.tasks.set(i, next);
        proof {
            reveal_strlit("daily");
            let pre = *old(self);
            assert(task_refs_within(pre.task_rows()[i as int], pre.workspace_rows(), pre.priority_rows()));
            if current.home_workspace_id is None {
                let j = choose|j: int| pre.workspace_at(fallback_workspace_id(), j);
                assert(lists_workspace(pre.workspace_rows(), fallback_workspace_id()));
            }
            TaskStore::lemma_task_replaced(*old(self), *self, i as int);
        }
        Ok(self.show_task(i))
    }

    /// Marks a task deleted; it stays stored and is left out of listings
    /// that leave out deleted records.
    pub fn soft_delete_task(&mut self, id: &str, expected_version: i64, deleted_at: &str) -> (r: Result<()>)
        requires
            old(self).wf(),
        ensures
            final(self).wf(),
            soft_delete_task_result(*old(self), *final(self), id, expected_version, deleted_at, r),
    {
        let i = match self.find_task(id) {
            Some(i) => i,
            None => {
                return Err(CoreError::TaskNotFound(id.to_owned()));
            },
        };
        let current = self.tasks[i].clone();
        if current.deleted_at.is_some() || current.version != expected_version {
            return Err(CoreError::VersionConflict);
        }
        if current.version == i64::MAX {
            return Err(CoreError::Database(String::from_str("版本号超出范围")));
        }
        let stamp = deleted_at.to_owned();
        let next = Task {
            deleted_at: Some(stamp.clone()),
            updated_at: stamp,
            version: current.version + 1,
            ..current
        };
        self.tasks.set(i, next);
        proof {
            TaskStore::lemma_task_replaced(*old(self), *self, i as int);
            assert(old(self).task_at(id@, i as int));
            assert(self.task_rows()[i as int].updated_at@ == deleted_at@);
        }
        Ok(())
    }
}

/// Completing a task and then reopening it brings it back pending, without a
/// completion time, to the workspace it calls home (the daily workspace when
/// it has none), two versions later.
pub proof fn lemma_reopen_after_complete(
    s0: TaskStore,
    s1: TaskStore,
    s2: TaskStore,
    id: &str,
    version: i64,
    completed_at: &str,
    reopened_at: &str,
    t1: Task,
    t2: Task,
)
    requires
        s0.wf(),
        set_status_result(s0, s1, id, version, TaskStatus::Completed, completed_at, Ok(t1)),
        reopen_task_result(s1, s2, id, t1.version, reopened_at, Ok(t2)),
    ensures
        t2.status == TaskStatus::Pending,
        t2.completed_at is None,
        t2.version == version + 2,
        t2.workspace_id matches Some(w) && w@ == (match s0.task_rows()[choose|i: int| s0.task_at(id@, i)].home_workspace_id {
            Some(h) => h@,
            None => fallback_workspace_id(),
        }),
{
    let i = choose|i: int| s0.task_at(id@, i) && #[trigger] s1.task_rows()[i].updated_at@ == completed_at@
        && s1.task_rows() == s0.task_rows().update(i, s1.task_rows()[i]) && status_changed(
        s0.task_rows()[i],
        TaskStatus::Completed,
        s1.task_rows()[i].updated_at,
        s1.task_rows()[i],
    ) && t1 == s1.shown(s1.task_rows()[i]);
    let c = choose|c: int| s0.task_at(id@, c);
    assert(c == i) by {
        if c < i {
            assert(s0.task_rows()[c].id@ != s0.task_rows()[i].id@);
        } else if c > i {
            assert(s0.task_rows()[i].id@ != s0.task_rows()[c].id@);
        }
    }
    let j = choose|j: int| s1.task_at(id@, j) && #[trigger] s2.task_rows()[j].updated_at@ == reopened_at@
        && s2.task_rows() == s1.task_rows().update(j, s2.task_rows()[j]);
    assert(j == i) by {
        if j != i {
            assert(s1.task_rows()[j] == s0.task_rows()[j]);
            if j < i {
                assert(s0.task_rows()[j].id@ != s0.task_rows()[i].id@);
            } else {
                assert(s0.task_rows()[i].id@ != s0.task_rows()[j].id@);
            }
        }
    }
}

} // verus!
