//! The stable business facade for graphical, HTTP and command-line front ends:
//! requests come in as commands, every change is stamped with the current time.

use vstd::prelude::*;
use crate::activity::{end_block_result, end_work_result, start_block_result, start_work_result};
use crate::clock::{now, uuid_v4_text};
use crate::correction::{all_uuid_v4, correct_work_time_result};
use crate::domain::{NewTask, Priority, Task, TaskBlock, TaskStatus, WorkSession, Workspace};
use crate::editing::{create_task_result, update_task_result};
use crate::error::Result;
use crate::lifecycle::{reopen_task_result, set_status_result, soft_delete_task_result, unchanged};
use crate::ordering::sorted_by_key;
use crate::listing::{
    blocks_listed_in_order, priorities_listed_in_order, sessions_listed_in_order, tasks_listed_in_order,
    workspaces_listed_in_order,
};
use crate::reorder::reorder_workspaces_result;
use crate::rules::{opt_str_view, opt_view};
use crate::store::TaskStore;
use crate::summary::ActivitySummary;
use crate::sync::{
    merge_sync_snapshots, merged_listing, normalized_from, time_key_of, valid_snapshot, SyncCounts, SyncSnapshot,
};
use crate::replica::{applied_refs_hold, copy_snapshot};
use crate::text::{trim, trimmed};
use crate::workspaces::{
    create_priority_result, create_workspace_result, rename_workspace_result, soft_delete_priority_result,
    soft_delete_workspace_result, update_priority_result,
};

verus! {

/// What a front end sends to create a task.
#[derive(Debug)]
pub struct CreateTaskCommand {
    pub title: String,
    pub notes: Option<String>,
    pub estimated_active_minutes: Option<i64>,
    pub due_date: Option<String>,
    pub sort_order: i64,
    pub created_device_id: String,
    pub workspace_id: Option<String>,
    pub priority_id: Option<String>,
}

/// What a front end sends to edit a task.
#[derive(Debug)]
pub struct UpdateTaskCommand {
    pub title: String,
    pub notes: Option<String>,
    pub review_notes: Option<String>,
    pub estimated_active_minutes: Option<i64>,
    pub due_date: Option<String>,
    pub sort_order: i64,
    pub workspace_id: Option<String>,
    pub priority_id: Option<String>,
}

/// What a front end sends to block a task.
#[derive(Debug)]
pub struct BlockTaskCommand {
    pub reason: String,
    pub note: Option<String>,
}

/// What the desktop front end sends to create a task.
#[derive(Debug)]
pub struct CreateTaskInput {
    pub title: String,
    pub notes: Option<String>,
    pub estimated_active_minutes: Option<i64>,
    pub due_date: Option<String>,
    pub workspace_id: Option<String>,
    pub priority_id: Option<String>,
}

impl CreateTaskInput {
    /// The create command for this input on the device `device_id`: first in
    /// sort order.
    pub fn into_command(self, device_id: String) -> (c: CreateTaskCommand)
        ensures
            c == (CreateTaskCommand {
                title: self.title,
                notes: self.notes,
                estimated_active_minutes: self.estimated_active_minutes,
                due_date: self.due_date,
                sort_order: 0,
                created_device_id: device_id,
                workspace_id: self.workspace_id,
                priority_id: self.priority_id,
            }),
    {
        CreateTaskCommand {
            title: self.title,
            notes: self.notes,
            estimated_active_minutes: self.estimated_active_minutes,
            due_date: self.due_date,
            sort_order: 0,
            created_device_id: device_id,
            workspace_id: self.workspace_id,
            priority_id: self.priority_id,
        }
    }
}

/// The new task a create command asks for.
pub open spec fn new_task_of(c: CreateTaskCommand) -> NewTask {
    NewTask {
        title: c.title,
        notes: c.notes,
        estimated_active_minutes: c.estimated_active_minutes,
        due_date: c.due_date,
        sort_order: c.sort_order,
        created_device_id: c.created_device_id,
        workspace_id: c.workspace_id,
        priority_id: c.priority_id,
    }
}

/// A resolution reason as stored: trimmed, and none when blank.
pub open spec fn cleaned(o: Option<Seq<char>>) -> Option<Seq<char>> {
    match o {
        Some(s) => if trimmed(s).len() > 0 {
            Some(trimmed(s))
        } else {
            None
        },
        None => None,
    }
}

fn as_opt_str(o: &Option<String>) -> (r: Option<&str>)
    ensures
        opt_str_view(r) == opt_view(*o),
{
    match o {
        Some(s) => Some(s.as_str()),
        None => None,
    }
}

/// The counts of a snapshot.
pub open spec fn counts_of(s: SyncSnapshot) -> SyncCounts {
    SyncCounts {
        workspaces: s.workspaces@.len() as usize,
        priorities: s.priorities@.len() as usize,
        tasks: s.tasks@.len() as usize,
        task_blocks: s.task_blocks@.len() as usize,
        work_sessions: s.work_sessions@.len() as usize,
    }
}

/// What one synchronization round did: the counts of the local and the
/// remote side before, the merged snapshot that was stored, and its counts.
#[derive(Debug)]
pub struct SyncRound {
    pub local_before: SyncCounts,
    pub remote_before: SyncCounts,
    pub merged_counts: SyncCounts,
    pub merged: SyncSnapshot,
}

/// The task service: the store behind the operations front ends call.
pub struct TaskService {
    pub(crate) store: TaskStore,
}

impl TaskService {
    /// The store the service works on.
    pub open(crate) spec fn state(&self) -> TaskStore {
        self.store
    }

    /// The store's invariants hold.
    pub open spec fn wf(&self) -> bool {
        self.state().wf()
    }

    /// A service over `store`.
    pub fn new(store: TaskStore) -> (s: TaskService)
        ensures
            s.state() == store,
    {
        TaskService { store }
    }

    /// The store itself, for operations that take their own time stamps.
    pub fn store(&mut self) -> (r: &mut TaskStore)
        ensures
            *r == old(self).state(),
            final(self).state() == *final(r),
    {
        &mut self.store
    }

    /// Creates a task from a command, stamped now.
    pub fn create(&mut self, command: CreateTaskCommand) -> (r: Result<Task>)
        requires
            old(self).wf(),
        ensures
            final(self).wf(),
            exists|stamp: &str, id: Seq<char>|
                uuid_v4_text(id) && #[trigger] create_task_result(
                    old(self).state(),
                    final(self).state(),
                    new_task_of(command),
                    stamp,
                    id,
                    r,
                ),
    {
        let ghost spec_input = new_task_of(command);
        let input = NewTask {
            title: command.title,
            notes: command.notes,
            estimated_active_minutes: command.estimated_active_minutes,
            due_date: command.due_date,
            sort_order: command.sort_order,
            created_device_id: command.created_device_id,
            workspace_id: command.workspace_id,
            priority_id: command.priority_id,
        };
        let r = self.store.create_task(input);
        proof {
            let (w, id) = choose|stamp: &str, id: Seq<char>|
                uuid_v4_text(id) && create_task_result(old(self).state(), self.state(), spec_input, stamp, id, r);
            assert(uuid_v4_text(id) && create_task_result(old(self).state(), self.state(), spec_input, w, id, r));
        }
        r
    }

    /// Edits a task from a command, stamped now.
    pub fn update(&mut self, id: &str, expected_version: i64, command: UpdateTaskCommand) -> (r: Result<Task>)
        requires
            old(self).wf(),
        ensures
            final(self).wf(),
            exists|
                stamp: &str,
                title: &str,
                notes: Option<&str>,
                review_notes: Option<&str>,
                due_date: Option<&str>,
                workspace_id: Option<&str>,
                priority_id: Option<&str>,
            |
                {
                    &&& title@ == command.title@
                    &&& opt_str_view(notes) == opt_view(command.notes)
                    &&& opt_str_view(review_notes) == opt_view(command.review_notes)
                    &&& opt_str_view(due_date) == opt_view(command.due_date)
                    &&& opt_str_view(workspace_id) == opt_view(command.workspace_id)
                    &&& opt_str_view(priority_id) == opt_view(command.priority_id)
                    &&& #[trigger] update_task_result(
                        old(self).state(),
                        final(self).state(),
                        id,
                        expected_version,
                        title,
                        notes,
                        review_notes,
                        command.estimated_active_minutes,
                        due_date,
                        command.sort_order,
                        workspace_id,
                        priority_id,
                        stamp,
                        r,
                    )
                },
    {
        let stamp = now();
        let at = stamp.as_str();
        let title = command.title.as_str();
        let notes = as_opt_str(&command.notes);
        let review_notes = as_opt_str(&command.review_notes);
        let due_date = as_opt_str(&command.due_date);
        let workspace_id = as_opt_str(&command.workspace_id);
        let priority_id = as_opt_str(&command.priority_id);
        let r = self.store.update_task(
            id,
            expected_version,
            title,
            notes,
            review_notes,
            command.estimated_active_minutes,
            due_date,
            command.sort_order,
            workspace_id,
            priority_id,
            at,
        );
        proof {
            assert(update_task_result(
                old(self).state(),
                self.state(),
                id,
                expected_version,
                title,
                notes,
                review_notes,
                command.estimated_active_minutes,
                due_date,
                command.sort_order,
                workspace_id,
                priority_id,
                at,
                r,
            ));
        }
        r
    }

    /// Moves a task to in progress, stamped now.
    pub fn start(&mut self, id: &str, expected_version: i64) -> (r: Result<Task>)
        requires
            old(self).wf(),
        ensures
            final(self).wf(),
            exists|stamp: &str|
                #[trigger] set_status_result(
                    old(self).state(),
                    final(self).state(),
                    id,
                    expected_version,
                    TaskStatus::InProgress,
                    stamp,
                    r,
                ),
    {
        let stamp = now();
        let at = stamp.as_str();
        let r = self.store.set_status(id, expected_version, TaskStatus::InProgress, at);
        proof {
            assert(set_status_result(old(self).state(), self.state(), id, expected_version, TaskStatus::InProgress, at, r));
        }
        r
    }

    /// Completes a task, stamped now.
    pub fn complete(&mut self, id: &str, expected_version: i64) -> (r: Result<Task>)
        requires
            old(self).wf(),
        ensures
            final(self).wf(),
            exists|stamp: &str|
                #[trigger] set_status_result(
                    old(self).state(),
                    final(self).state(),
                    id,
                    expected_version,
                    TaskStatus::Completed,
                    stamp,
                    r,
                ),
    {
        let stamp = now();
        let at = stamp.as_str();
        let r = self.store.set_status(id, expected_version, TaskStatus::Completed, at);
        proof {
            assert(set_status_result(old(self).state(), self.state(), id, expected_version, TaskStatus::Completed, at, r));
        }
        r
    }

    /// Reopens a completed task, stamped now.
    pub fn reopen(&mut self, id: &str, expected_version: i64) -> (r: Result<Task>)
        requires
            old(self).wf(),
        ensures
            final(self).wf(),
            exists|stamp: &str|
                #[trigger] reopen_task_result(old(self).state(), final(self).state(), id, expected_version, stamp, r),
    {
        let stamp = now();
        let at = stamp.as_str();
        let r = self.store.reopen_task(id, expected_version, at);
        proof {
            assert(reopen_task_result(old(self).state(), self.state(), id, expected_version, at, r));
        }
        r
    }

    /// Moves a task back to pending, stamped now.
    pub fn pause(&mut self, id: &str, expected_version: i64) -> (r: Result<Task>)
        requires
            old(self).wf(),
        ensures
            final(self).wf(),
            exists|stamp: &str|
                #[trigger] set_status_result(
                    old(self).state(),
                    final(self).state(),
                    id,
                    expected_version,
                    TaskStatus::Pending,
                    stamp,
                    r,
                ),
    {
        let stamp = now();
        let at = stamp.as_str();
        let r = self.store.set_status(id, expected_version, TaskStatus::Pending, at);
        proof {
            assert(set_status_result(old(self).state(), self.state(), id, expected_version, TaskStatus::Pending, at, r));
        }
        r
    }

    /// Deletes a task, stamped now.
    pub fn delete(&mut self, id: &str, expected_version: i64) -> (r: Result<()>)
        requires
            old(self).wf(),
        ensures
            final(self).wf(),
            exists|stamp: &str|
                #[trigger] soft_delete_task_result(old(self).state(), final(self).state(), id, expected_version, stamp, r),
    {
        let stamp = now();
        let at = stamp.as_str();
        let r = self.store.soft_delete_task(id, expected_version, at);
        proof {
            assert(soft_delete_task_result(old(self).state(), self.state(), id, expected_version, at, r));
        }
        r
    }

    /// Starts a work session now.
    pub fn begin_work(&mut self, task_id: &str, note: Option<&str>) -> (r: Result<WorkSession>)
        requires
            old(self).wf(),
        ensures
            final(self).wf(),
            exists|stamp: &str, id: Seq<char>|
                uuid_v4_text(id) && #[trigger] start_work_result(old(self).state(), final(self).state(), task_id, stamp, note, id, r),
    {
        let stamp = now();
        let at = stamp.as_str();
        let r = self.store.start_work(task_id, at, note);
        proof {
            let id = choose|id: Seq<char>| uuid_v4_text(id) && start_work_result(old(self).state(), self.state(), task_id, at, note, id, r);
            assert(uuid_v4_text(id) && start_work_result(old(self).state(), self.state(), task_id, at, note, id, r));
        }
        r
    }

    /// Ends a work session now.
    pub fn finish_work(&mut self, session_id: &str) -> (r: Result<WorkSession>)
        requires
            old(self).wf(),
        ensures
            final(self).wf(),
            exists|stamp: &str| #[trigger] end_work_result(old(self).state(), final(self).state(), session_id, stamp, r),
    {
        let stamp = now();
        let at = stamp.as_str();
        let r = self.store.end_work(session_id, at);
        proof {
            assert(end_work_result(old(self).state(), self.state(), session_id, at, r));
        }
        r
    }

    /// Blocks a task now.
    pub fn block(&mut self, task_id: &str, command: BlockTaskCommand) -> (r: Result<TaskBlock>)
        requires
            old(self).wf(),
        ensures
            final(self).wf(),
            exists|stamp: &str, reason: &str, note: Option<&str>, id: Seq<char>|
                reason@ == command.reason@ && opt_str_view(note) == opt_view(command.note) && uuid_v4_text(id)
                    && #[trigger] start_block_result(old(self).state(), final(self).state(), task_id, reason, note, stamp, id, r),
    {
        let stamp = now();
        let at = stamp.as_str();
        let reason = command.reason.as_str();
        let note = as_opt_str(&command.note);
        let r = self.store.start_block(task_id, reason, note, at);
        proof {
            let id = choose|id: Seq<char>|
                uuid_v4_text(id) && start_block_result(old(self).state(), self.state(), task_id, reason, note, at, id, r);
            assert(uuid_v4_text(id) && start_block_result(old(self).state(), self.state(), task_id, reason, note, at, id, r));
        }
        r
    }

    /// Ends a block record now; the resolution reason is stored trimmed, and
    /// not at all when blank.
    pub fn unblock(&mut self, block_id: &str, expected_version: i64, resolution_reason: Option<&str>) -> (r: Result<
        TaskBlock,
    >)
        requires
            old(self).wf(),
        ensures
            final(self).wf(),
            exists|stamp: &str, reason: Option<&str>|
                opt_str_view(reason) == cleaned(opt_str_view(resolution_reason)) && #[trigger] end_block_result(
                    old(self).state(),
                    final(self).state(),
                    block_id,
                    expected_version,
                    reason,
                    stamp,
                    r,
                ),
    {
        let trimmed_reason: Option<String> = match resolution_reason {
            Some(s) => {
                let t = trim(s);
                if t.as_str().is_empty() {
                    None
                } else {
                    Some(t)
                }
            },
            None => None,
        };
        let stamp = now();
        let at = stamp.as_str();
        let reason = as_opt_str(&trimmed_reason);
        let r = self.store.end_block(block_id, expected_version, reason, at);
        proof {
            assert(end_block_result(old(self).state(), self.state(), block_id, expected_version, reason, at, r));
        }
        r
    }

    /// The task with identifier `id`, deleted or not.
    pub fn get(&self, id: &str) -> (r: Result<Option<Task>>)
        ensures
            match r {
                Ok(Some(t)) => exists|i: int|
                    self.state().task_at(id@, i) && t == self.state().shown(self.state().task_rows()[i]),
                Ok(None) => !self.state().has_task(id@),
                Err(_) => false,
            },
    {
        let r = self.store.get_task(id);
        proof {
            match &r {
                Ok(Some(t)) => {
                    let i = choose|i: int| self.store.task_at(id@, i) && *t == self.store.shown(self.store.task_rows()[i]);
                    assert(self.state().task_at(id@, i));
                },
                _ => {},
            }
        }
        r
    }

    /// All tasks, or those not deleted, by sort order and creation time.
    pub fn list(&self, include_deleted: bool) -> (r: Result<Vec<Task>>)
        ensures
            match r {
                Ok(list) => list@.to_multiset() == self.state().listed_tasks(include_deleted).to_multiset()
                    && sorted_by_key(list@) && tasks_listed_in_order(list@),
                Err(_) => false,
            },
    {
        self.store.list_tasks(include_deleted)
    }

    /// The task's block records, or its live ones, by start.
    pub fn blocks(&self, task_id: &str, include_deleted: bool) -> (r: Result<Vec<TaskBlock>>)
        ensures
            match r {
                Ok(list) => list@.to_multiset() == self.state().listed_blocks(task_id@, include_deleted).to_multiset()
                    && sorted_by_key(list@) && blocks_listed_in_order(list@),
                Err(_) => false,
            },
    {
        self.store.list_blocks(task_id, include_deleted)
    }

    /// The task's work sessions by start.
    pub fn sessions(&self, task_id: &str) -> (r: Result<Vec<WorkSession>>)
        ensures
            match r {
                Ok(list) => list@.to_multiset() == self.state().listed_sessions(task_id@).to_multiset()
                    && sorted_by_key(list@) && sessions_listed_in_order(list@),
                Err(_) => false,
            },
    {
        self.store.list_sessions(task_id)
    }

    /// Creates a workspace, stamped now.
    pub fn create_workspace(&mut self, name: &str) -> (r: Result<Workspace>)
        requires
            old(self).wf(),
        ensures
            final(self).wf(),
            exists|stamp: &str, id: Seq<char>, p0: Seq<char>, p1: Seq<char>, p2: Seq<char>|
                uuid_v4_text(id) && uuid_v4_text(p0) && uuid_v4_text(p1) && uuid_v4_text(p2)
                    && #[trigger] create_workspace_result(old(self).state(), final(self).state(), name, stamp, id, p0, p1, p2, r),
    {
        let stamp = now();
        let at = stamp.as_str();
        let r = self.store.create_workspace(name, at);
        proof {
            let (id, p0, p1, p2) = choose|id: Seq<char>, p0: Seq<char>, p1: Seq<char>, p2: Seq<char>|
                uuid_v4_text(id) && uuid_v4_text(p0) && uuid_v4_text(p1) && uuid_v4_text(p2)
                    && create_workspace_result(old(self).state(), self.state(), name, at, id, p0, p1, p2, r);
            assert(uuid_v4_text(id) && uuid_v4_text(p0) && uuid_v4_text(p1) && uuid_v4_text(p2)
                && create_workspace_result(old(self).state(), self.state(), name, at, id, p0, p1, p2, r));
        }
        r
    }

    /// All workspaces, or those not deleted, in display order.
    pub fn workspaces(&self, include_deleted: bool) -> (r: Result<Vec<Workspace>>)
        ensures
            match r {
                Ok(list) => list@.to_multiset() == self.state().listed_workspaces(include_deleted).to_multiset()
                    && sorted_by_key(list@) && workspaces_listed_in_order(list@),
                Err(_) => false,
            },
    {
        self.store.list_workspaces(include_deleted)
    }

    /// The live workspace with identifier `id`.
    pub fn workspace(&self, id: &str) -> (r: Result<Option<Workspace>>)
        requires
            self.wf(),
        ensures
            match r {
                Ok(Some(w)) => exists|i: int|
                    self.state().workspace_at(id@, i) && w == self.state().workspace_rows()[i] && w.deleted_at is None,
                Ok(None) => !self.state().has_live_workspace(id@),
                Err(_) => false,
            },
    {
        self.store.get_workspace(id)
    }

    /// Renames a workspace, stamped now.
    pub fn rename_workspace(&mut self, id: &str, expected_version: i64, name: &str) -> (r: Result<Workspace>)
        requires
            old(self).wf(),
        ensures
            final(self).wf(),
            exists|stamp: &str|
                #[trigger] rename_workspace_result(old(self).state(), final(self).state(), id, expected_version, name, stamp, r),
    {
        let stamp = now();
        let at = stamp.as_str();
        let r = self.store.rename_workspace(id, expected_version, name, at);
        proof {
            assert(rename_workspace_result(old(self).state(), self.state(), id, expected_version, name, at, r));
        }
        r
    }

    /// Deletes a workspace, stamped now.
    pub fn delete_workspace(&mut self, id: &str, expected_version: i64) -> (r: Result<()>)
        requires
            old(self).wf(),
        ensures
            final(self).wf(),
            exists|stamp: &str|
                #[trigger] soft_delete_workspace_result(old(self).state(), final(self).state(), id, expected_version, stamp, r),
    {
        let stamp = now();
        let at = stamp.as_str();
        let r = self.store.soft_delete_workspace(id, expected_version, at);
        proof {
            assert(soft_delete_workspace_result(old(self).state(), self.state(), id, expected_version, at, r));
        }
        r
    }

    /// Reorders the workspaces, stamped now.
    pub fn reorder_workspaces(&mut self, ordered_ids: &[String], expected_versions: &[i64]) -> (r: Result<Vec<Workspace>>)
        requires
            old(self).wf(),
        ensures
            final(self).wf(),
            exists|stamp: &str|
                #[trigger] reorder_workspaces_result(
                    old(self).state(),
                    final(self).state(),
                    ordered_ids,
                    expected_versions,
                    stamp,
                    r,
                ),
    {
        let stamp = now();
        let at = stamp.as_str();
        let r = self.store.reorder_workspaces(ordered_ids, expected_versions, at);
        proof {
            assert(reorder_workspaces_result(old(self).state(), self.state(), ordered_ids, expected_versions, at, r));
        }
        r
    }

    /// Creates a priority in a workspace, stamped now.
    pub fn create_priority(&mut self, workspace_id: &str, name: &str, color: Option<&str>) -> (r: Result<Priority>)
        requires
            old(self).wf(),
        ensures
            final(self).wf(),
            exists|stamp: &str, id: Seq<char>|
                uuid_v4_text(id) && #[trigger] create_priority_result(
                    old(self).state(),
                    final(self).state(),
                    workspace_id,
                    name,
                    color,
                    stamp,
                    id,
                    r,
                ),
    {
        let stamp = now();
        let at = stamp.as_str();
        let r = self.store.create_priority(workspace_id, name, color, at);
        proof {
            let id = choose|id: Seq<char>|
                uuid_v4_text(id) && create_priority_result(old(self).state(), self.state(), workspace_id, name, color, at, id, r);
            assert(uuid_v4_text(id) && create_priority_result(old(self).state(), self.state(), workspace_id, name, color, at, id, r));
        }
        r
    }

    /// All priorities, or those not deleted, by workspace and sort order.
    pub fn priorities(&self, include_deleted: bool) -> (r: Result<Vec<Priority>>)
        ensures
            match r {
                Ok(list) => list@.to_multiset() == self.state().listed_priorities(include_deleted).to_multiset()
                    && sorted_by_key(list@) && priorities_listed_in_order(list@),
                Err(_) => false,
            },
    {
        self.store.list_priorities(include_deleted)
    }

    /// The live priority with identifier `id`.
    pub fn priority(&self, id: &str) -> (r: Result<Option<Priority>>)
        requires
            self.wf(),
        ensures
            match r {
                Ok(Some(p)) => exists|i: int|
                    self.state().priority_at(id@, i) && p == self.state().priority_rows()[i] && p.deleted_at is None,
                Ok(None) => !self.state().has_live_priority(id@),
                Err(_) => false,
            },
    {
        self.store.get_priority(id)
    }

    /// Edits a priority, stamped now.
    pub fn update_priority(&mut self, id: &str, expected_version: i64, name: &str, color: Option<&str>) -> (r: Result<
        Priority,
    >)
        requires
            old(self).wf(),
        ensures
            final(self).wf(),
            exists|stamp: &str|
                #[trigger] update_priority_result(
                    old(self).state(),
                    final(self).state(),
                    id,
                    expected_version,
                    name,
                    color,
                    stamp,
                    r,
                ),
    {
        let stamp = now();
        let at = stamp.as_str();
        let r = self.store.update_priority(id, expected_version, name, color, at);
        proof {
            assert(update_priority_result(old(self).state(), self.state(), id, expected_version, name, color, at, r));
        }
        r
    }

    /// Deletes a priority, stamped now.
    pub fn delete_priority(&mut self, id: &str, expected_version: i64) -> (r: Result<()>)
        requires
            old(self).wf(),
        ensures
            final(self).wf(),
            exists|stamp: &str|
                #[trigger] soft_delete_priority_result(old(self).state(), final(self).state(), id, expected_version, stamp, r),
    {
        let stamp = now();
        let at = stamp.as_str();
        let r = self.store.soft_delete_priority(id, expected_version, at);
        proof {
            assert(soft_delete_priority_result(old(self).state(), self.state(), id, expected_version, at, r));
        }
        r
    }

    /// Sets a task's recorded work time to `target_active_minutes`, placed
    /// as late as it fits before now, outside its block records and before
    /// its completion.
    pub fn correct_work_time(&mut self, task_id: &str, expected_version: i64, target_active_minutes: i64) -> (r: Result<
        Task,
    >)
        requires
            old(self).wf(),
        ensures
            final(self).wf(),
            exists|stamp: &str, fresh: Seq<Seq<char>>|
                all_uuid_v4(fresh) && #[trigger] correct_work_time_result(
                    old(self).state(),
                    final(self).state(),
                    task_id,
                    expected_version,
                    target_active_minutes,
                    stamp,
                    fresh,
                    r,
                ),
    {
        let stamp = now();
        let at = stamp.as_str();
        let r = self.store.correct_work_time_at(task_id, expected_version, target_active_minutes, at);
        proof {
            let fresh = choose|fresh: Seq<Seq<char>>|
                all_uuid_v4(fresh) && correct_work_time_result(
                    old(self).state(),
                    self.state(),
                    task_id,
                    expected_version,
                    target_active_minutes,
                    at,
                    fresh,
                    r,
                );
            assert(all_uuid_v4(fresh) && correct_work_time_result(
                old(self).state(),
                self.state(),
                task_id,
                expected_version,
                target_active_minutes,
                at,
                fresh,
                r,
            ));
        }
        r
    }

    /// The overview of the live tasks now: counts, and the minutes of work
    /// recorded on them, running sessions counted up to now.
    pub fn activity_summary(&self) -> (r: ActivitySummary)
        requires
            self.wf(),
        ensures
            exists|now: i64| r == #[trigger] self.state().summary_at(now),
    {
        let stamp = now();
        let seconds = time_key_of(stamp.as_str()).0;
        self.store.activity_summary(seconds)
    }

    /// One synchronization round against the remote data: the local
    /// snapshot is merged with `remote` and the result stored; the merged
    /// snapshot is handed back for upload, with the counts before and after.
    pub fn merge_remote(&mut self, remote: SyncSnapshot) -> (r: Result<SyncRound>)
        requires
            old(self).wf(),
        ensures
            final(self).wf(),
            match r {
                Ok(round) => exists|local: SyncSnapshot, raw: SyncSnapshot|
                    {
                        &&& #[trigger] old(self).state().snapshot_of(local)
                        &&& #[trigger] merged_listing(local, remote, raw)
                        &&& normalized_from(raw, round.merged)
                        &&& round.local_before == counts_of(local)
                        &&& round.remote_before == counts_of(remote)
                        &&& round.merged_counts == counts_of(round.merged)
                        &&& valid_snapshot(round.merged)
                        &&& applied_refs_hold(round.merged)
                        &&& final(self).state().holds_applied(round.merged)
                    },
                Err(e) => {
                    &&& unchanged(old(self).state(), final(self).state())
                    &&& exists|local: SyncSnapshot, raw: SyncSnapshot, merged: SyncSnapshot|
                        {
                            &&& #[trigger] old(self).state().snapshot_of(local)
                            &&& #[trigger] merged_listing(local, remote, raw)
                            &&& #[trigger] normalized_from(raw, merged)
                            &&& if valid_snapshot(merged) {
                                e is Database && !applied_refs_hold(merged)
                            } else {
                                e is InvalidInput
                            }
                        }
                },
            },
    {
        let local = match self.store.sync_snapshot() {
            Ok(s) => s,
            Err(e) => {
                return Err(e);
            },
        };
        let ghost local_view = local;
        let local_before = local.counts();
        let remote_before = remote.counts();
        let ghost remote_view = remote;
        let merged = merge_sync_snapshots(local, remote);
        let merged_counts = merged.counts();
        let stored = copy_snapshot(&merged);
        let r = self.store.apply_sync_snapshot(stored);
        match r {
            Ok(()) => {
                proof {
                    let raw = choose|raw: SyncSnapshot| #[trigger] merged_listing(local_view, remote_view, raw)
                        && normalized_from(raw, merged);
                    assert(old(self).state().snapshot_of(local_view));
                    assert(merged_listing(local_view, remote_view, raw));
                }
                Ok(SyncRound { local_before, remote_before, merged_counts, merged })
            },
            Err(e) => {
                proof {
                    let raw = choose|raw: SyncSnapshot| #[trigger] merged_listing(local_view, remote_view, raw)
                        && normalized_from(raw, merged);
                    assert(old(self).state().snapshot_of(local_view));
                    assert(merged_listing(local_view, remote_view, raw));
                    assert(normalized_from(raw, merged));
                }
                Err(e)
            },
        }
    }

    /// Everything the store holds, for a synchronization.
    pub fn sync_snapshot(&self) -> (r: Result<SyncSnapshot>)
        ensures
            r matches Ok(s) && self.state().snapshot_of(s),
    {
        self.store.sync_snapshot()
    }

    /// Replaces the store's data with a merged snapshot.
    pub fn apply_sync_snapshot(&mut self, snapshot: SyncSnapshot) -> (r: Result<()>)
        requires
            old(self).wf(),
        ensures
            final(self).wf(),
            r is Ok <==> valid_snapshot(snapshot) && applied_refs_hold(snapshot),
            r matches Err(e) ==> if valid_snapshot(snapshot) {
                e is Database
            } else {
                e is InvalidInput
            },
            r is Ok ==> final(self).state().holds_applied(snapshot),
            r is Err ==> unchanged(old(self).state(), final(self).state()),
    {
        self.store.apply_sync_snapshot(snapshot)
    }
}

} // verus!
