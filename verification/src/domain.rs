//! Records of the task core: tasks, their block records and work sessions,
//! workspaces and the priorities that belong to a workspace.

use vstd::prelude::*;
use crate::error::CoreError;
use crate::text::str_eq;

verus! {

/// Where a task stands in its lifecycle.
#[derive(Debug, Clone, Copy, PartialEq, Eq, Structural)]
pub enum TaskStatus {
    Pending,
    InProgress,
    Completed,
}

/// The stored name of each status.
pub open spec fn status_text(status: TaskStatus) -> Seq<char> {
    match status {
        TaskStatus::Pending => seq!['p', 'e', 'n', 'd', 'i', 'n', 'g'],
        TaskStatus::InProgress => seq!['i', 'n', '_', 'p', 'r', 'o', 'g', 'r', 'e', 's', 's'],
        TaskStatus::Completed => seq!['c', 'o', 'm', 'p', 'l', 'e', 't', 'e', 'd'],
    }
}

impl TaskStatus {
    /// The stored name of this status.
    pub fn as_str(self) -> (r: &'static str)
        ensures
            r@ == status_text(self),
    {
        match self {
            TaskStatus::Pending => {
                let r = "pending";
                proof {
                    reveal_strlit("pending");
                    assert(r@ =~= status_text(self));
                }
                r
            },
            TaskStatus::InProgress => {
                let r = "in_progress";
                proof {
                    reveal_strlit("in_progress");
                    assert(r@ =~= status_text(self));
                }
                r
            },
            TaskStatus::Completed => {
                let r = "completed";
                proof {
                    reveal_strlit("completed");
                    assert(r@ =~= status_text(self));
                }
                r
            },
        }
    }

    /// The status stored under `value`; any other text is an invalid status.
    pub fn parse(value: &str) -> (r: Result<TaskStatus, CoreError>)
        ensures
            match r {
                Ok(s) => status_text(s) == value@,
                Err(e) => (forall|s: TaskStatus| status_text(s) != value@) && e
                    == CoreError::InvalidStatus(e->InvalidStatus_0) && e->InvalidStatus_0@
                    == value@,
            },
    {
        if str_eq(value, TaskStatus::Pending.as_str()) {
            Ok(TaskStatus::Pending)
        } else if str_eq(value, TaskStatus::InProgress.as_str()) {
            Ok(TaskStatus::InProgress)
        } else if str_eq(value, TaskStatus::Completed.as_str()) {
            Ok(TaskStatus::Completed)
        } else {
            Err(CoreError::InvalidStatus(value.to_owned()))
        }
    }
}

/// Each status has its own stored name, so reading back a stored name gives
/// the status that was stored.
pub proof fn lemma_status_text_injective(a: TaskStatus, b: TaskStatus)
    ensures
        status_text(a) == status_text(b) ==> a == b,
{
    if status_text(a) == status_text(b) {
        assert(status_text(a).len() == status_text(b).len());
        assert(status_text(a)[0] == status_text(b)[0]);
    }
}

/// A task, as stored; `is_blocked` is derived from its open block records.
#[derive(Debug)]
pub struct Task {
    pub id: String,
    pub title: String,
    pub notes: Option<String>,
    pub review_notes: Option<String>,
    pub estimated_active_minutes: Option<i64>,
    pub due_date: Option<String>,
    pub created_at: String,
    pub started_at: Option<String>,
    pub completed_at: Option<String>,
    pub status: TaskStatus,
    pub sort_order: i64,
    pub created_device_id: String,
    pub updated_at: String,
    pub deleted_at: Option<String>,
    pub version: i64,
    pub is_blocked: bool,
    pub workspace_id: Option<String>,
    pub priority_id: Option<String>,
    pub home_workspace_id: Option<String>,
}

/// One period during which a task was blocked.
#[derive(Debug)]
pub struct TaskBlock {
    pub id: String,
    pub task_id: String,
    pub started_at: String,
    pub ended_at: Option<String>,
    pub reason: String,
    pub note: Option<String>,
    pub resolution_reason: Option<String>,
    pub created_at: String,
    pub updated_at: String,
    pub version: i64,
    pub deleted_at: Option<String>,
}

/// One period of work on a task.
#[derive(Debug)]
pub struct WorkSession {
    pub id: String,
    pub task_id: String,
    pub started_at: String,
    pub ended_at: Option<String>,
    pub note: Option<String>,
    pub created_at: String,
}

/// What a caller supplies to create a task.
#[derive(Debug)]
pub struct NewTask {
    pub title: String,
    pub notes: Option<String>,
    pub estimated_active_minutes: Option<i64>,
    pub due_date: Option<String>,
    pub sort_order: i64,
    pub created_device_id: String,
    pub workspace_id: Option<String>,
    pub priority_id: Option<String>,
}

/// A workspace groups tasks; only the built-in one cannot be moved or deleted.
#[derive(Debug)]
pub struct Workspace {
    pub id: String,
    pub name: String,
    pub sort_order: i64,
    pub builtin: bool,
    pub created_at: String,
    pub updated_at: String,
    pub deleted_at: Option<String>,
    pub version: i64,
}

/// A priority level of one workspace.
#[derive(Debug)]
pub struct Priority {
    pub id: String,
    pub workspace_id: String,
    pub name: String,
    pub color: Option<String>,
    pub sort_order: i64,
    pub created_at: String,
    pub updated_at: String,
    pub deleted_at: Option<String>,
    pub version: i64,
}

/// A copy of an optional text.
pub fn copy_opt(value: &Option<String>) -> (r: Option<String>)
    ensures
        r == *value,
{
    match value {
        Some(v) => Some(v.clone()),
        None => None,
    }
}

impl Clone for Task {
    fn clone(&self) -> (r: Self)
        ensures
            r == *self,
    {
        Task {
            id: self.id.clone(),
            title: self.title.clone(),
            notes: copy_opt(&self.notes),
            review_notes: copy_opt(&self.review_notes),
            estimated_active_minutes: self.estimated_active_minutes,
            due_date: copy_opt(&self.due_date),
            created_at: self.created_at.clone(),
            started_at: copy_opt(&self.started_at),
            completed_at: copy_opt(&self.completed_at),
            status: self.status,
            sort_order: self.sort_order,
            created_device_id: self.created_device_id.clone(),
            updated_at: self.updated_at.clone(),
            deleted_at: copy_opt(&self.deleted_at),
            version: self.version,
            is_blocked: self.is_blocked,
            workspace_id: copy_opt(&self.workspace_id),
            priority_id: copy_opt(&self.priority_id),
            home_workspace_id: copy_opt(&self.home_workspace_id),
        }
    }
}

impl Clone for TaskBlock {
    fn clone(&self) -> (r: Self)
        ensures
            r == *self,
    {
        TaskBlock {
            id: self.id.clone(),
            task_id: self.task_id.clone(),
            started_at: self.started_at.clone(),
            ended_at: copy_opt(&self.ended_at),
            reason: self.reason.clone(),
            note: copy_opt(&self.note),
            resolution_reason: copy_opt(&self.resolution_reason),
            created_at: self.created_at.clone(),
            updated_at: self.updated_at.clone(),
            version: self.version,
            deleted_at: copy_opt(&self.deleted_at),
        }
    }
}

impl Clone for WorkSession {
    fn clone(&self) -> (r: Self)
        ensures
            r == *self,
    {
        WorkSession {
            id: self.id.clone(),
            task_id: self.task_id.clone(),
            started_at: self.started_at.clone(),
            ended_at: copy_opt(&self.ended_at),
            note: copy_opt(&self.note),
            created_at: self.created_at.clone(),
        }
    }
}

impl Clone for NewTask {
    fn clone(&self) -> (r: Self)
        ensures
            r == *self,
    {
        NewTask {
            title: self.title.clone(),
            notes: copy_opt(&self.notes),
            estimated_active_minutes: self.estimated_active_minutes,
            due_date: copy_opt(&self.due_date),
            sort_order: self.sort_order,
            created_device_id: self.created_device_id.clone(),
            workspace_id: copy_opt(&self.workspace_id),
            priority_id: copy_opt(&self.priority_id),
        }
    }
}

impl Clone for Workspace {
    fn clone(&self) -> (r: Self)
        ensures
            r == *self,
    {
        Workspace {
            id: self.id.clone(),
            name: self.name.clone(),
            sort_order: self.sort_order,
            builtin: self.builtin,
            created_at: self.created_at.clone(),
            updated_at: self.updated_at.clone(),
            deleted_at: copy_opt(&self.deleted_at),
            version: self.version,
        }
    }
}

impl Clone for Priority {
    fn clone(&self) -> (r: Self)
        ensures
            r == *self,
    {
        Priority {
            id: self.id.clone(),
            workspace_id: self.workspace_id.clone(),
            name: self.name.clone(),
            color: copy_opt(&self.color),
            sort_order: self.sort_order,
            created_at: self.created_at.clone(),
            updated_at: self.updated_at.clone(),
            deleted_at: copy_opt(&self.deleted_at),
            version: self.version,
        }
    }
}

} // verus!
