//! Creating and editing tasks.

use vstd::prelude::*;
use crate::clock::{new_id, now, uuid_v4_text};
use crate::domain::{NewTask, Task, TaskStatus};
use crate::error::{CoreError, Result};
use crate::lifecycle::{others_unchanged, unchanged};
use crate::rules::{
    new_task_ok, opt_str_view, opt_view, task_fields_ok, due_date_ok, validate_due_date,
    validate_new_task, validate_task_fields,
};
use crate::store::{active_block, done_id, lists_priority, lists_task, lists_workspace, lemma_refs_carried, refs_carried, same_task_refs, task_refs_within, TaskStore};
use crate::text::{str_eq, trim, trimmed};

verus! {

/// `row` is the task created from `input` at `created_at`.
pub open spec fn created_row(input: NewTask, created_at: Seq<char>, row: Task) -> bool {
    &&& row.title@ == trimmed(input.title@)
    &&& row.created_device_id@ == trimmed(input.created_device_id@)
    &&& row.created_at@ == created_at
    &&& row == Task {
        id: row.id,
        title: row.title,
        notes: input.notes,
        review_notes: None,
        estimated_active_minutes: input.estimated_active_minutes,
        due_date: input.due_date,
        created_at: row.created_at,
        started_at: None,
        completed_at: None,
        status: TaskStatus::Pending,
        sort_order: input.sort_order,
        created_device_id: row.created_device_id,
        updated_at: row.created_at,
        deleted_at: None,
        version: 1,
        is_blocked: false,
        workspace_id: input.workspace_id,
        priority_id: input.priority_id,
        home_workspace_id: input.workspace_id,
    }
}

/// An owned copy of an optional text.
pub(crate) fn owned_opt(o: Option<&str>) -> (r: Option<String>)
    ensures
        opt_view(r) == opt_str_view(o),
{
    match o {
        Some(s) => Some(s.to_owned()),
        None => None,
    }
}

/// Whether a workspace reference names the built-in workspace of completed tasks.
pub(crate) fn names_done(workspace_id: Option<&str>) -> (r: bool)
    ensures
        r == (opt_str_view(workspace_id) == Some(done_id())),
{
    match workspace_id {
        Some(w) => str_eq(w, "done"),
        None => false,
    }
}

/// What creating a task does.
/// `id` is the identifier the new row would take; it is refused only when a
/// stored task already has it.
pub open spec fn create_task_result(pre: TaskStore, post: TaskStore, input: NewTask, created_at: &str, id: Seq<char>, r: Result<Task>) -> bool {
    &&& (if !new_task_ok(input) {
        r matches Err(CoreError::InvalidInput(_))
    } else if input.workspace_id matches Some(w) && !pre.has_live_workspace(w@) {
        r matches Err(CoreError::WorkspaceNotFound(x)) && input.workspace_id matches Some(w) && x@ == w@
    } else if input.priority_id matches Some(p) && !pre.has_live_priority(p@) {
        r matches Err(CoreError::PriorityNotFound(x)) && input.priority_id matches Some(p) && x@ == p@
    } else if input.priority_id matches Some(p) && !pre.priority_in(p@, opt_view(input.workspace_id)) {
        r matches Err(CoreError::InvalidInput(_))
    } else if pre.has_task(id) {
        r matches Err(CoreError::Database(_))
    } else {
        r is Ok
    })
    &&& (match r {
        Ok(task) => {
            let row = post.task_rows().last();
            &&& post.task_rows() == pre.task_rows().push(row)
            &&& row.id@ == id
            &&& created_row(input, created_at@, row)
            &&& others_unchanged(pre, post)
            &&& post.session_rows() == pre.session_rows()
            &&& task == post.shown(row)
            &&& !task.is_blocked
        },
        Err(_) => unchanged(pre, post),
    })
}

/// What editing a task does.
pub open spec fn update_task_result(pre: TaskStore, post: TaskStore, id: &str, expected_version: i64, title: &str, notes: Option<&str>, review_notes: Option<&str>, estimated_active_minutes: Option<i64>, due_date: Option<&str>, sort_order: i64, workspace_id: Option<&str>, priority_id: Option<&str>, updated_at: &str, r: Result<Task>) -> bool {
    &&& (if !task_fields_ok(title@, estimated_active_minutes) || !due_date_ok(opt_str_view(due_date)) {
        r matches Err(CoreError::InvalidInput(_))
    } else if opt_str_view(workspace_id) == Some(done_id()) && !pre.has_task(id@) {
        r matches Err(CoreError::TaskNotFound(x)) && x@ == id@
    } else if priority_id matches Some(p) && !pre.has_live_priority(p@) {
        r matches Err(CoreError::PriorityNotFound(x)) && priority_id matches Some(p) && x@ == p@
    } else if priority_id matches Some(p) && !pre.priority_in(
        p@,
        if opt_str_view(workspace_id) == Some(done_id()) && pre.task_rows()[choose|i: int|
            pre.task_at(id@, i)].home_workspace_id is Some {
            opt_view(pre.task_rows()[choose|i: int| pre.task_at(id@, i)].home_workspace_id)
        } else {
            opt_str_view(workspace_id)
        },
    ) {
        r matches Err(CoreError::InvalidInput(_))
    } else if !pre.has_task(id@) {
        r matches Err(CoreError::TaskNotFound(x)) && x@ == id@
    } else {
        let t = pre.task_rows()[choose|i: int| pre.task_at(id@, i)];
        if t.deleted_at is Some || t.version != expected_version {
            r matches Err(CoreError::VersionConflict)
        } else if t.version == i64::MAX || (workspace_id matches Some(w) && !pre.has_workspace(w@)) {
            r matches Err(CoreError::Database(_))
        } else {
            r is Ok
        }
    })
    &&& (match r {
        Ok(task) => exists|i: int| {
            &&& pre.task_at(id@, i)
            &&& #[trigger] post.task_rows()[i].updated_at@ == updated_at@
            &&& post.task_rows() == pre.task_rows().update(i, post.task_rows()[i])
            &&& ({
                let o = pre.task_rows()[i];
                let n = post.task_rows()[i];
                &&& n.title@ == trimmed(title@)
                &&& opt_view(n.notes) == opt_str_view(notes)
                &&& opt_view(n.review_notes) == opt_str_view(review_notes)
                &&& opt_view(n.due_date) == opt_str_view(due_date)
                &&& opt_view(n.workspace_id) == opt_str_view(workspace_id)
                &&& opt_view(n.priority_id) == opt_str_view(priority_id)
                &&& if workspace_id is Some && opt_str_view(workspace_id) != Some(done_id()) {
                    opt_view(n.home_workspace_id) == opt_str_view(workspace_id)
                } else {
                    n.home_workspace_id == o.home_workspace_id
                }
                &&& n == Task {
                    title: n.title,
                    notes: n.notes,
                    review_notes: n.review_notes,
                    estimated_active_minutes,
                    due_date: n.due_date,
                    sort_order,
                    workspace_id: n.workspace_id,
                    priority_id: n.priority_id,
                    home_workspace_id: n.home_workspace_id,
                    updated_at: n.updated_at,
                    version: (o.version + 1) as i64,
                    ..o
                }
            })
            &&& others_unchanged(pre, post)
            &&& post.session_rows() == pre.session_rows()
            &&& task == post.shown(post.task_rows()[i])
        },
        Err(_) => unchanged(pre, post),
    })
}

impl TaskStore {
    /// Priority `id` is live and belongs to the workspace `workspace`.
    pub open spec fn priority_in(&self, id: Seq<char>, workspace: Option<Seq<char>>) -> bool {
        exists|j: int|
            self.priority_at(id, j) && self.priority_rows()[j].deleted_at is None && workspace == Some(
                self.priority_rows()[j].workspace_id@,
            )
    }

    /// Checks that a priority exists and belongs to the given workspace.
    pub(crate) fn check_priority_in(&self, priority_id: &str, workspace: Option<&str>) -> (r: Result<()>)
        requires
            self.wf(),
        ensures
            match r {
                Ok(_) => self.priority_in(priority_id@, opt_str_view(workspace)),
                Err(e) => if !self.has_live_priority(priority_id@) {
                    e matches CoreError::PriorityNotFound(x) && x@ == priority_id@
                } else {
                    !self.priority_in(priority_id@, opt_str_view(workspace)) && e is InvalidInput
                },
            },
    {
        match self.find_priority(priority_id) {
            Some(j) => {
                if self.priorities[j].deleted_at.is_some() {
                    return Err(CoreError::PriorityNotFound(priority_id.to_owned()));
                }
                let fits = match workspace {
                    Some(w) => str_eq(w, &self.priorities[j].workspace_id),
                    None => false,
                };
                if !fits {
                    return Err(CoreError::InvalidInput(String::from_str("分级不属于当前工作区")));
                }
                assert(self.priority_at(priority_id@, j as int));
                Ok(())
            },
            None => Err(CoreError::PriorityNotFound(priority_id.to_owned())),
        }
    }

    /// Creates a pending task with identifier `id` from `input` at
    /// `created_at`. Title and device identifier are stored trimmed; the task
    /// starts in, and calls home, the workspace given; a priority must belong
    /// to that workspace.
    pub fn create_task_with_id(&mut self, input: NewTask, created_at: &str, id: String) -> (r: Result<Task>)
        requires
            old(self).wf(),
        ensures
            final(self).wf(),
            create_task_result(*old(self), *final(self), input, created_at, id@, r),
    {
        validate_new_task(&input)?;
        match &input.workspace_id {
            Some(w) => {
                if self.get_workspace(w.as_str())?.is_none() {
                    return Err(CoreError::WorkspaceNotFound(w.clone()));
                }
            },
            None => {},
        }
        match &input.priority_id {
            Some(p) => {
                let workspace = match &input.workspace_id {
                    Some(w) => Some(w.as_str()),
                    None => None,
                };
                self.check_priority_in(p.as_str(), workspace)?;
            },
            None => {},
        }
        if self.find_task(id.as_str()).is_some() {
            return Err(CoreError::Database(String::from_str("任务 ID 已存在")));
        }
        let stamp = created_at.to_owned();
        let home = crate::domain::copy_opt(&input.workspace_id);
        let row = Task {
            id,
            title: trim(input.title.as_str()),
            notes: input.notes,
            review_notes: None,
            estimated_active_minutes: input.estimated_active_minutes,
            due_date: input.due_date,
            created_at: stamp.clone(),
            started_at: None,
            completed_at: None,
            status: TaskStatus::Pending,
            sort_order: input.sort_order,
            created_device_id: trim(input.created_device_id.as_str()),
            updated_at: stamp,
            deleted_at: None,
            version: 1,
            is_blocked: false,
            workspace_id: input.workspace_id,
            priority_id: input.priority_id,
            home_workspace_id: home,
        };
        self.tasks.push(row);
        let i = self.tasks.len() - 1;
        proof {
            let rows = self.task_rows();
            assert(rows == old(self).task_rows().push(rows.last()));
            assert forall|a: int, b: int| 0 <= a < b < rows.len() implies rows[a].id@ != rows[b].id@ by {
                if b == rows.len() - 1 {
                    assert(!old(self).task_at(rows[b].id@, a));
                } else {
                    assert(rows[a] == old(self).task_rows()[a] && rows[b] == old(self).task_rows()[b]);
                }
            }
            let pre = *old(self);
            if rows[i as int].workspace_id is Some {
                let j = choose|j: int| pre.workspace_at(rows[i as int].workspace_id->0@, j);
                assert(self.workspace_rows()[j].id@ == rows[i as int].workspace_id->0@);
            }
            if rows[i as int].priority_id is Some {
                let j = choose|j: int| pre.priority_at(rows[i as int].priority_id->0@, j);
                assert(self.priority_rows()[j].id@ == rows[i as int].priority_id->0@);
            }
            assert(task_refs_within(rows[i as int], self.workspace_rows(), self.priority_rows()));
            assert forall|k: int| 0 <= k < rows.len() implies (k < pre.task_rows().len() && same_task_refs(
                pre.task_rows()[k],
                #[trigger] rows[k],
            )) || task_refs_within(rows[k], self.workspace_rows(), self.priority_rows()) by {
                if k < pre.task_rows().len() {
                    assert(rows[k] == pre.task_rows()[k]);
                }
            }
            assert(refs_carried(pre, *self));
            lemma_refs_carried(pre, *self);
            assert forall|b: int|
                0 <= b < self.block_rows().len() && active_block(#[trigger] self.block_rows()[b]) implies self.block_rows()[b].task_id@
                != rows[i as int].id@ by {
                assert(lists_task(pre.task_rows(), pre.block_rows()[b].task_id@));
                let j = choose|j: int| 0 <= j < pre.task_rows().len() && pre.task_rows()[j].id@ == pre.block_rows()[b].task_id@;
                assert(!pre.task_at(rows[i as int].id@, j));
            }
        }
        Ok(self.show_task(i))
    }

    /// Creates a pending task from `input` at `created_at`, under a fresh
    /// random identifier.
    pub fn create_task_at(&mut self, input: NewTask, created_at: &str) -> (r: Result<Task>)
        requires
            old(self).wf(),
        ensures
            final(self).wf(),
            exists|id: Seq<char>|
                uuid_v4_text(id) && #[trigger] create_task_result(*old(self), *final(self), input, created_at, id, r),
    {
        let id = new_id();
        let ghost drawn = id@;
        let r = self.create_task_with_id(input, created_at, id);
        assert(uuid_v4_text(drawn) && create_task_result(*old(self), *self, input, created_at, drawn, r));
        r
    }

    /// Creates a pending task from `input`, stamped with the current time.
    pub fn create_task(&mut self, input: NewTask) -> (r: Result<Task>)
        requires
            old(self).wf(),
        ensures
            final(self).wf(),
            exists|stamp: &str, id: Seq<char>|
                uuid_v4_text(id) && #[trigger] create_task_result(*old(self), *final(self), input, stamp, id, r),
    {
        let stamp = now();
        let at = stamp.as_str();
        let r = self.create_task_at(input, at);
        proof {
            let id = choose|id: Seq<char>| uuid_v4_text(id) && create_task_result(*old(self), *self, input, at, id, r);
            assert(uuid_v4_text(id) && create_task_result(*old(self), *self, input, at, id, r));
        }
        r
    }

    /// Edits a task that is not deleted. Title is stored trimmed. Moving a
    /// task to the built-in workspace of completed tasks keeps its home
    /// workspace, and its priority is checked against that home; otherwise
    /// the workspace given becomes the home workspace.
    pub fn update_task(
        &mut self,
        id: &str,
        expected_version: i64,
        title: &str,
        notes: Option<&str>,
        review_notes: Option<&str>,
        estimated_active_minutes: Option<i64>,
        due_date: Option<&str>,
        sort_order: i64,
        workspace_id: Option<&str>,
        priority_id: Option<&str>,
        updated_at: &str,
    ) -> (r: Result<Task>)
        requires
            old(self).wf(),
        ensures
            final(self).wf(),
            update_task_result(*old(self), *final(self), id, expected_version, title, notes, review_notes, estimated_active_minutes, due_date, sort_order, workspace_id, priority_id, updated_at, r),
    {
        validate_task_fields(title, estimated_active_minutes)?;
        validate_due_date(due_date)?;
        let to_done = names_done(workspace_id);
        let found = self.find_task(id);
        proof {
            if let Some(i) = found {
                assert(self.task_at(id@, i as int));
                let c = choose|k: int| old(self).task_at(id@, k);
                assert(c == i as int);
            }
        }
        let archived_home: Option<String> = if to_done {
            match found {
                Some(i) => crate::domain::copy_opt(&self.tasks[i].home_workspace_id),
                None => {
                    return Err(CoreError::TaskNotFound(id.to_owned()));
                },
            }
        } else {
            None
        };
        match priority_id {
            Some(p) => {
                let validation = match &archived_home {
                    Some(h) => Some(h.as_str()),
                    None => workspace_id,
                };
                self.check_priority_in(p, validation)?;
            },
            None => {},
        }
        let i = match found {
            Some(i) => i,
            None => {
                return Err(CoreError::TaskNotFound(id.to_owned()));
            },
        };
        let current = self.tasks[i].clone();
        if current.deleted_at.is_some() || current.version != expected_version {
            return Err(CoreError::VersionConflict);
        }
        if current.version == i64::MAX {
            return Err(CoreError::Database(String::from_str("版本号超出范围")));
        }
        let workspace_stored = match workspace_id {
            Some(w) => self.find_workspace(w).is_some(),
            None => true,
        };
        if !workspace_stored {
            return Err(CoreError::Database(String::from_str("FOREIGN KEY constraint failed")));
        }
        let home = if to_done {
            current.home_workspace_id
        } else {
            match workspace_id {
                Some(w) => Some(w.to_owned()),
                None => current.home_workspace_id,
            }
        };
        let next = Task {
            title: trim(title),
            notes: owned_opt(notes),
            review_notes: owned_opt(review_notes),
            estimated_active_minutes,
            due_date: owned_opt(due_date),
            sort_order,
            workspace_id: owned_opt(workspace_id),
            priority_id: owned_opt(priority_id),
            home_workspace_id: home,
            updated_at: updated_at.to_owned(),
            version: current.version + 1,
            ..current
        };
        self.tasks.set(i, next);
        proof {
            let pre = *old(self);
            let n = self.task_rows()[i as int];
            assert(task_refs_within(pre.task_rows()[i as int], pre.workspace_rows(), pre.priority_rows()));
            if workspace_id is Some {
                let j = choose|j: int| pre.workspace_at(workspace_id->0@, j);
                assert(lists_workspace(pre.workspace_rows(), workspace_id->0@));
            }
            if priority_id is Some {
                assert(exists|j: int| pre.priority_at(priority_id->0@, j));
                let j = choose|j: int| pre.priority_at(priority_id->0@, j);
                assert(lists_priority(pre.priority_rows(), priority_id->0@));
            }
            assert(task_refs_within(n, pre.workspace_rows(), pre.priority_rows()));
            TaskStore::lemma_task_replaced(*old(self), *self, i as int);
            assert(old(self).task_at(id@, i as int));
        }
        Ok(self.show_task(i))
    }
}

} // verus!
