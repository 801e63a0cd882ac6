//! Work sessions and block records of a task.

use vstd::prelude::*;
use crate::clock::{new_id, uuid_v4_text};
use crate::domain::{Task, TaskBlock, TaskStatus, WorkSession};
use crate::error::{CoreError, Result};
use crate::lifecycle::{sessions_closed, unchanged};
use crate::rules::{opt_str_view, opt_view, validate_can_start_block, validate_can_start_work};
use crate::editing::owned_opt;
use crate::store::{active_block, active_session, lemma_activity_refs, lists_task, same_task_refs, TaskStore};
use crate::text::{blank, is_blank, str_eq, trim, trimmed};

verus! {

/// What starting a work session under identifier `id` does.
pub open spec fn start_work_result(pre: TaskStore, post: TaskStore, task_id: &str, started_at: &str, note: Option<&str>, id: Seq<char>, r: Result<WorkSession>) -> bool {
    &&& (!pre.has_task(task_id@) ==> (r matches Err(CoreError::TaskNotFound(x)) && x@ == task_id@))
    &&& (forall|i: int| pre.task_at(task_id@, i) ==> {
        let t = #[trigger] pre.task_rows()[i];
        if t.deleted_at is Some || t.status == TaskStatus::Completed || pre.blocked(task_id@) {
            r matches Err(CoreError::InvalidState(_))
        } else if pre.working(task_id@) {
            r matches Err(CoreError::ActiveSessionExists)
        } else if (t.status == TaskStatus::Pending && t.version == i64::MAX) || pre.has_session(id) {
            r matches Err(CoreError::Database(_))
        } else {
            r is Ok
        }
    })
    &&& (match r {
        Ok(session) => exists|i: int| {
            &&& #[trigger] pre.task_at(task_id@, i)
            &&& post.session_rows() == pre.session_rows().push(session)
            &&& session.id@ == id
            &&& session.task_id@ == task_id@
            &&& session.started_at@ == started_at@
            &&& session.ended_at is None
            &&& opt_view(session.note) == opt_str_view(note)
            &&& session.created_at == session.started_at
            &&& if pre.task_rows()[i].status == TaskStatus::Pending {
                post.task_rows() == pre.task_rows().update(i, Task {
                    status: TaskStatus::InProgress,
                    started_at: Some(session.started_at),
                    updated_at: session.started_at,
                    version: (pre.task_rows()[i].version + 1) as i64,
                    ..pre.task_rows()[i]
                })
            } else {
                post.task_rows() == pre.task_rows()
            }
            &&& post.workspace_rows() == pre.workspace_rows()
            &&& post.priority_rows() == pre.priority_rows()
            &&& post.block_rows() == pre.block_rows()
        },
        Err(_) => unchanged(pre, post),
    })
}

/// What ending a work session does.
pub open spec fn end_work_result(pre: TaskStore, post: TaskStore, session_id: &str, ended_at: &str, r: Result<WorkSession>) -> bool {
    &&& (!pre.has_session(session_id@) ==> (r matches Err(CoreError::SessionNotFound(x)) && x@ == session_id@))
    &&& (forall|i: int| pre.session_at(session_id@, i) ==> if (#[trigger] pre.session_rows()[i]).ended_at is Some {
        r matches Err(CoreError::InvalidState(_))
    } else {
        r is Ok
    })
    &&& (match r {
        Ok(session) => exists|i: int| {
            &&& #[trigger] pre.session_at(session_id@, i)
            &&& session.ended_at matches Some(e) && e@ == ended_at@
            &&& session == WorkSession { ended_at: session.ended_at, ..pre.session_rows()[i] }
            &&& post.session_rows() == pre.session_rows().update(i, session)
            &&& post.task_rows() == pre.task_rows()
            &&& post.workspace_rows() == pre.workspace_rows()
            &&& post.priority_rows() == pre.priority_rows()
            &&& post.block_rows() == pre.block_rows()
        },
        Err(_) => unchanged(pre, post),
    })
}

/// What starting a block record under identifier `id` does.
pub open spec fn start_block_result(pre: TaskStore, post: TaskStore, task_id: &str, reason: &str, note: Option<&str>, started_at: &str, id: Seq<char>, r: Result<TaskBlock>) -> bool {
    &&& (blank(reason@) ==> r matches Err(CoreError::InvalidInput(_)))
    &&& (!blank(reason@) && !pre.has_task(task_id@) ==> (r matches Err(CoreError::TaskNotFound(x)) && x@ == task_id@))
    &&& (forall|i: int| !blank(reason@) && pre.task_at(task_id@, i) ==> {
        let t = #[trigger] pre.task_rows()[i];
        if t.deleted_at is Some || t.status == TaskStatus::Completed {
            r matches Err(CoreError::InvalidState(_))
        } else if pre.blocked(task_id@) {
            r matches Err(CoreError::ActiveBlockExists)
        } else if pre.has_block(id) {
            r matches Err(CoreError::Database(_))
        } else {
            r is Ok
        }
    })
    &&& (match r {
        Ok(block) => {
            &&& pre.has_task(task_id@)
            &&& post.block_rows() == pre.block_rows().push(block)
            &&& block.id@ == id
            &&& block.task_id@ == task_id@
            &&& block.started_at@ == started_at@
            &&& block.reason@ == trimmed(reason@)
            &&& opt_view(block.note) == opt_str_view(note)
            &&& block == TaskBlock {
                ended_at: None,
                resolution_reason: None,
                created_at: block.started_at,
                updated_at: block.started_at,
                version: 1,
                deleted_at: None,
                ..block
            }
            &&& sessions_closed(pre.session_rows(), post.session_rows(), task_id@, block.started_at)
            &&& post.task_rows() == pre.task_rows()
            &&& post.workspace_rows() == pre.workspace_rows()
            &&& post.priority_rows() == pre.priority_rows()
        },
        Err(_) => unchanged(pre, post),
    })
}

/// What ending a block record does.
pub open spec fn end_block_result(pre: TaskStore, post: TaskStore, block_id: &str, expected_version: i64, resolution_reason: Option<&str>, ended_at: &str, r: Result<TaskBlock>) -> bool {
    &&& (!pre.has_block(block_id@) ==> (r matches Err(CoreError::BlockNotFound(x)) && x@ == block_id@))
    &&& (forall|i: int| pre.block_at(block_id@, i) ==> {
        let b = #[trigger] pre.block_rows()[i];
        if b.version != expected_version {
            r matches Err(CoreError::VersionConflict)
        } else if b.ended_at is Some || b.deleted_at is Some {
            r matches Err(CoreError::InvalidState(_))
        } else if b.version == i64::MAX || pre.task_resumes_at_max(b.task_id@) {
            r matches Err(CoreError::Database(_))
        } else {
            r is Ok
        }
    })
    &&& (match r {
        Ok(block) => exists|i: int| {
            &&& #[trigger] pre.block_at(block_id@, i)
            &&& block.ended_at matches Some(e) && e@ == ended_at@
            &&& opt_view(block.resolution_reason) == opt_str_view(resolution_reason)
            &&& block == TaskBlock {
                ended_at: block.ended_at,
                resolution_reason: block.resolution_reason,
                updated_at: block.ended_at->Some_0,
                version: (pre.block_rows()[i].version + 1) as i64,
                ..pre.block_rows()[i]
            }
            &&& post.block_rows() == pre.block_rows().update(i, block)
            &&& post.task_rows().len() == pre.task_rows().len()
            &&& forall|k: int| 0 <= k < pre.task_rows().len() ==> #[trigger] post.task_rows()[k] == if pre.task_rows()[k].id@ == block.task_id@
                && pre.task_rows()[k].deleted_at is None && pre.task_rows()[k].status != TaskStatus::Completed {
                Task {
                    status: TaskStatus::Pending,
                    updated_at: block.ended_at->Some_0,
                    version: (pre.task_rows()[k].version + 1) as i64,
                    ..pre.task_rows()[k]
                }
            } else {
                pre.task_rows()[k]
            }
            &&& post.session_rows() == pre.session_rows()
            &&& post.workspace_rows() == pre.workspace_rows()
            &&& post.priority_rows() == pre.priority_rows()
        },
        Err(_) => unchanged(pre, post),
    })
}

impl TaskStore {
    /// Starts a work session on a task at `started_at`, under a fresh random
    /// identifier. A pending task becomes in progress, its start time set to
    /// `started_at`.
    pub fn start_work(&mut self, task_id: &str, started_at: &str, note: Option<&str>) -> (r: Result<WorkSession>)
        requires
            old(self).wf(),
        ensures
            final(self).wf(),
            exists|id: Seq<char>|
                uuid_v4_text(id) && #[trigger] start_work_result(*old(self), *final(self), task_id, started_at, note, id, r),
    {
        let id = new_id();
        let ghost drawn = id@;
        let r = self.start_work_with_id(task_id, started_at, note, id);
        assert(start_work_result(*old(self), *self, task_id, started_at, note, drawn, r));
        r
    }

    /// Starts a work session with identifier `id` on a task at `started_at`.
    /// A pending task becomes in progress, its start time set to `started_at`.
    pub fn start_work_with_id(&mut self, task_id: &str, started_at: &str, note: Option<&str>, id: String) -> (r: Result<WorkSession>)
        requires
            old(self).wf(),
        ensures
            final(self).wf(),
            start_work_result(*old(self), *final(self), task_id, started_at, note, id@, r),
    {
        let i = match self.find_task(task_id) {
            Some(i) => i,
            None => {
                return Err(CoreError::TaskNotFound(task_id.to_owned()));
            },
        };
        let task = self.show_task(i);
        validate_can_start_work(&task)?;
        if self.has_running_session(task_id) {
            return Err(CoreError::ActiveSessionExists);
        }
        if task.status == TaskStatus::Pending && task.version == i64::MAX {
            return Err(CoreError::Database(String::from_str("版本号超出范围")));
        }
        if self.find_session(id.as_str()).is_some() {
            return Err(CoreError::Database(String::from_str("工作会话 ID 已存在")));
        }
        let stamp = started_at.to_owned();
        let session = WorkSession {
            id,
            task_id: task_id.to_owned(),
            started_at: stamp.clone(),
            ended_at: None,
            note: owned_opt(note),
            created_at: stamp.clone(),
        };
        let result = session.clone();
        self.sessions.push(session);
        if task.status == TaskStatus::Pending {
            let current = self.tasks[i].clone();
            let next = Task {
                status: TaskStatus::InProgress,
                started_at: Some(stamp.clone()),
                updated_at: stamp,
                version: current.version + 1,
                ..current
            };
            self.tasks.set(i, next);
        }
        proof {
            let rows = self.session_rows();
            assert(rows == old(self).session_rows().push(result));
            assert forall|a: int, b: int| 0 <= a < b < rows.len() implies rows[a].id@ != rows[b].id@ by {
                if b == rows.len() - 1 {
                    assert(!old(self).session_at(rows[b].id@, a));
                } else {
                    assert(rows[a] == old(self).session_rows()[a] && rows[b] == old(self).session_rows()[b]);
                }
            }
            assert forall|a: int, b: int|
                0 <= a < b < rows.len() && active_session(rows[a]) && active_session(rows[b]) implies rows[a].task_id@
                != rows[b].task_id@ by {
                if b == rows.len() - 1 {
                    assert(rows[a] == old(self).session_rows()[a]);
                }
            }
            let trows = self.task_rows();
            assert forall|a: int, b: int| 0 <= a < b < trows.len() implies trows[a].id@ != trows[b].id@ by {
                assert(trows[a].id == old(self).task_rows()[a].id && trows[b].id == old(self).task_rows()[b].id);
            }
            assert(old(self).task_at(task_id@, i as int));
            let pre = *old(self);
            assert forall|k: int| 0 <= k < pre.task_rows().len() implies (#[trigger] trows[k]).id == pre.task_rows()[k].id
                && same_task_refs(pre.task_rows()[k], trows[k]) by {
                if k != i {
                    assert(trows[k] == pre.task_rows()[k]);
                }
            }
            assert forall|k: int| 0 <= k < rows.len() implies (k < pre.session_rows().len() && (
            #[trigger] rows[k]).task_id == pre.session_rows()[k].task_id) || lists_task(pre.task_rows(), rows[k].task_id@) by {
                if k == rows.len() - 1 {
                    assert(pre.task_rows()[i as int].id@ == task_id@);
                } else {
                    assert(rows[k] == pre.session_rows()[k]);
                }
            }
            lemma_activity_refs(pre, *self);
        }
        Ok(result)
    }

    /// Ends a running work session at `ended_at`.
    pub fn end_work(&mut self, session_id: &str, ended_at: &str) -> (r: Result<WorkSession>)
        requires
            old(self).wf(),
        ensures
            final(self).wf(),
            end_work_result(*old(self), *final(self), session_id, ended_at, r),
    {
        let i = match self.find_session(session_id) {
            Some(i) => i,
            None => {
                return Err(CoreError::SessionNotFound(session_id.to_owned()));
            },
        };
        if self.sessions[i].ended_at.is_some() {
            return Err(CoreError::InvalidState(String::from_str("工作会话已经结束")));
        }
        let mut s = self.sessions[i].clone();
        s.ended_at = Some(ended_at.to_owned());
        let result = s.clone();
        self.sessions.set(i, s);
        proof {
            let rows = self.session_rows();
            assert forall|a: int, b: int| 0 <= a < b < rows.len() implies rows[a].id@ != rows[b].id@ by {
                assert(rows[a].id == old(self).session_rows()[a].id && rows[b].id == old(self).session_rows()[b].id);
            }
            assert forall|a: int, b: int|
                0 <= a < b < rows.len() && active_session(rows[a]) && active_session(rows[b]) implies rows[a].task_id@
                != rows[b].task_id@ by {
                assert(rows[a] == old(self).session_rows()[a] && rows[b] == old(self).session_rows()[b]);
            }
            assert(old(self).session_at(session_id@, i as int));
        }
        Ok(result)
    }

    /// Blocks a task from `started_at` for `reason` (stored trimmed), under a
    /// fresh random identifier. The task's running work sessions end at the
    /// same moment.
    pub fn start_block(&mut self, task_id: &str, reason: &str, note: Option<&str>, started_at: &str) -> (r: Result<TaskBlock>)
        requires
            old(self).wf(),
        ensures
            final(self).wf(),
            exists|id: Seq<char>|
                uuid_v4_text(id) && #[trigger] start_block_result(*old(self), *final(self), task_id, reason, note, started_at, id, r),
    {
        let id = new_id();
        let ghost drawn = id@;
        let r = self.start_block_with_id(task_id, reason, note, started_at, id);
        assert(start_block_result(*old(self), *self, task_id, reason, note, started_at, drawn, r));
        r
    }

    /// Blocks a task from `started_at` for `reason` (stored trimmed), the
    /// block record taking identifier `id`. The task's running work sessions
    /// end at the same moment.
    pub fn start_block_with_id(&mut self, task_id: &str, reason: &str, note: Option<&str>, started_at: &str, id: String) -> (r: Result<TaskBlock>)
        requires
            old(self).wf(),
        ensures
            final(self).wf(),
            start_block_result(*old(self), *final(self), task_id, reason, note, started_at, id@, r),
    {
        if is_blank(reason) {
            return Err(CoreError::InvalidInput(String::from_str("阻塞原因不能为空")));
        }
        let i = match self.find_task(task_id) {
            Some(i) => i,
            None => {
                return Err(CoreError::TaskNotFound(task_id.to_owned()));
            },
        };
        let task = self.show_task(i);
        validate_can_start_block(&task)?;
        if self.find_block(id.as_str()).is_some() {
            return Err(CoreError::Database(String::from_str("阻塞记录 ID 已存在")));
        }
        let stamp = started_at.to_owned();
        self.close_sessions_of(task_id, &stamp);
        let block = TaskBlock {
            id,
            task_id: task_id.to_owned(),
            started_at: stamp.clone(),
            ended_at: None,
            reason: trim(reason),
            note: owned_opt(note),
            resolution_reason: None,
            created_at: stamp.clone(),
            updated_at: stamp,
            version: 1,
            deleted_at: None,
        };
        let result = block.clone();
        let ghost mid = self.block_rows();
        self.blocks.push(block);
        proof {
            let rows = self.block_rows();
            assert(mid == old(self).block_rows());
            assert(rows == old(self).block_rows().push(result));
            assert forall|a: int, b: int| 0 <= a < b < rows.len() implies rows[a].id@ != rows[b].id@ by {
                if b == rows.len() - 1 {
                    assert(!old(self).block_at(rows[b].id@, a));
                } else {
                    assert(rows[a] == old(self).block_rows()[a] && rows[b] == old(self).block_rows()[b]);
                }
            }
            assert forall|a: int, b: int|
                0 <= a < b < rows.len() && active_block(rows[a]) && active_block(rows[b]) implies rows[a].task_id@
                != rows[b].task_id@ by {
                if b == rows.len() - 1 {
                    assert(rows[a] == old(self).block_rows()[a]);
                }
            }
            assert(old(self).task_at(task_id@, i as int));
            let pre = *old(self);
            assert forall|k: int| 0 <= k < rows.len() implies (k < pre.block_rows().len() && (
            #[trigger] rows[k]).task_id == pre.block_rows()[k].task_id) || lists_task(pre.task_rows(), rows[k].task_id@) by {
                if k == rows.len() - 1 {
                    assert(pre.task_rows()[i as int].id@ == task_id@);
                } else {
                    assert(rows[k] == pre.block_rows()[k]);
                }
            }
            assert forall|k: int| 0 <= k < self.session_rows().len() implies (k < pre.session_rows().len() && (
            #[trigger] self.session_rows()[k]).task_id == pre.session_rows()[k].task_id) || lists_task(
                pre.task_rows(),
                self.session_rows()[k].task_id@,
            ) by {}
            lemma_activity_refs(pre, *self);
        }
        Ok(result)
    }

    /// Resolves an open block record at `ended_at`, with an optional
    /// resolution reason. The blocked task, unless deleted or completed,
    /// returns to pending.
    pub fn end_block(&mut self, block_id: &str, expected_version: i64, resolution_reason: Option<&str>, ended_at: &str) -> (r: Result<TaskBlock>)
        requires
            old(self).wf(),
        ensures
            final(self).wf(),
            end_block_result(*old(self), *final(self), block_id, expected_version, resolution_reason, ended_at, r),
    {
        let i = match self.find_block(block_id) {
            Some(i) => i,
            None => {
                return Err(CoreError::BlockNotFound(block_id.to_owned()));
            },
        };
        let current = self.blocks[i].clone();
        if current.version != expected_version {
            return Err(CoreError::VersionConflict);
        }
        if current.ended_at.is_some() {
            return Err(CoreError::InvalidState(String::from_str("阻塞已经解除")));
        }
        if current.deleted_at.is_some() {
            return Err(CoreError::InvalidState(String::from_str("阻塞记录不可更新")));
        }
        let resumes = self.find_resumable(current.task_id.as_str());
        let max_version = match resumes {
            Some(k) => self.tasks[k].version == i64::MAX,
            None => false,
        };
        if current.version == i64::MAX || max_version {
            return Err(CoreError::Database(String::from_str("版本号超出范围")));
        }
        let stamp = ended_at.to_owned();
        let block = TaskBlock {
            ended_at: Some(stamp.clone()),
            resolution_reason: owned_opt(resolution_reason),
            updated_at: stamp.clone(),
            version: current.version + 1,
            ..current
        };
        let result = block.clone();
        self.blocks.set(i, block);
        let ghost before_tasks = self.task_rows();
        match resumes {
            Some(k) => {
                let t = self.tasks[k].clone();
                let next = Task {
                    status: TaskStatus::Pending,
                    updated_at: stamp,
                    version: t.version + 1,
                    ..t
                };
                self.tasks.set(k, next);
            },
            None => {},
        }
        proof {
            let rows = self.block_rows();
            assert forall|a: int, b: int| 0 <= a < b < rows.len() implies rows[a].id@ != rows[b].id@ by {
                assert(rows[a].id == old(self).block_rows()[a].id && rows[b].id == old(self).block_rows()[b].id);
            }
            assert forall|a: int, b: int|
                0 <= a < b < rows.len() && active_block(rows[a]) && active_block(rows[b]) implies rows[a].task_id@
                != rows[b].task_id@ by {
                assert(rows[a] == old(self).block_rows()[a] && rows[b] == old(self).block_rows()[b]);
            }
            let trows = self.task_rows();
            let orows = old(self).task_rows();
            assert forall|a: int, b: int| 0 <= a < b < trows.len() implies trows[a].id@ != trows[b].id@ by {
                assert(trows[a].id == orows[a].id && trows[b].id == orows[b].id);
            }
            assert(old(self).block_at(block_id@, i as int));
            assert forall|k: int| 0 <= k < orows.len() implies #[trigger] trows[k] == if orows[k].id@ == result.task_id@
                && orows[k].deleted_at is None && orows[k].status != TaskStatus::Completed {
                Task {
                    status: TaskStatus::Pending,
                    updated_at: result.ended_at->Some_0,
                    version: (orows[k].version + 1) as i64,
                    ..orows[k]
                }
            } else {
                orows[k]
            } by {
                match resumes {
                    Some(idx) => {
                        if k != idx && orows[k].id@ == result.task_id@ {
                            assert(orows[idx as int].id@ == result.task_id@);
                            if k < idx {
                                assert(orows[k].id@ != orows[idx as int].id@);
                            } else {
                                assert(orows[idx as int].id@ != orows[k].id@);
                            }
                        }
                    },
                    None => {
                        if orows[k].id@ == result.task_id@ {
                            assert(old(self).task_at(result.task_id@, k));
                        }
                    },
                }
            }
            let pre = *old(self);
            assert forall|k: int| 0 <= k < orows.len() implies (#[trigger] trows[k]).id == orows[k].id && same_task_refs(
                orows[k],
                trows[k],
            ) by {}
            assert forall|k: int| 0 <= k < rows.len() implies (k < pre.block_rows().len() && (
            #[trigger] rows[k]).task_id == pre.block_rows()[k].task_id) || lists_task(pre.task_rows(), rows[k].task_id@) by {}
            assert forall|k: int| 0 <= k < self.session_rows().len() implies (k < pre.session_rows().len() && (
            #[trigger] self.session_rows()[k]).task_id == pre.session_rows()[k].task_id) || lists_task(
                pre.task_rows(),
                self.session_rows()[k].task_id@,
            ) by {}
            lemma_activity_refs(pre, *self);
        }
        Ok(result)
    }

    /// Whether the task has a running work session.
    pub(crate) fn has_running_session(&self, task_id: &str) -> (r: bool)
        ensures
            r == self.working(task_id@),
    {
        let mut k: usize = 0;
        while k < self.sessions.len()
            invariant
                k <= self.session_rows().len(),
                forall|j: int| 0 <= j < k ==> !(active_session(#[trigger] self.session_rows()[j])
                    && self.session_rows()[j].task_id@ == task_id@),
            decreases self.session_rows().len() - k,
        {
            if self.sessions[k].ended_at.is_none() && str_eq(&self.sessions[k].task_id, task_id) {
                return true;
            }
            k = k + 1;
        }
        false
    }

    /// A live, unfinished task `task_id` whose version cannot be raised further.
    pub open spec fn task_resumes_at_max(&self, task_id: Seq<char>) -> bool {
        exists|k: int|
            self.task_at(task_id, k) && self.task_rows()[k].deleted_at is None && self.task_rows()[k].status
                != TaskStatus::Completed && self.task_rows()[k].version == i64::MAX
    }

    /// The position of task `task_id` if it is live and not completed.
    pub(crate) fn find_resumable(&self, task_id: &str) -> (r: Option<usize>)
        requires
            self.wf(),
        ensures
            match r {
                Some(k) => self.task_at(task_id@, k as int) && self.task_rows()[k as int].deleted_at is None
                    && self.task_rows()[k as int].status != TaskStatus::Completed,
                None => forall|k: int| self.task_at(task_id@, k) ==> !(self.task_rows()[k].deleted_at is None
                    && self.task_rows()[k].status != TaskStatus::Completed),
            },
    {
        match self.find_task(task_id) {
            Some(k) => {
                if self.tasks[k].deleted_at.is_none() && self.tasks[k].status != TaskStatus::Completed {
                    Some(k)
                } else {
                    None
                }
            },
            None => None,
        }
    }
}

} // verus!
