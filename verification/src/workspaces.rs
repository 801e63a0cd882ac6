//! Workspaces and their priorities.

use vstd::prelude::*;
use crate::clock::{new_id, uuid_v4_text};
use crate::domain::{Priority, Task, Workspace};
use crate::editing::owned_opt;
use crate::error::{CoreError, Result};
use crate::rules::{opt_str_view, opt_view};
use crate::store::{done_id, lemma_refs_carried, lists_workspace, refs_carried, same_task_refs, task_refs_within, TaskStore};
use crate::text::{blank, is_blank, str_eq, trim, trimmed};

verus! {

/// Only the workspace and priority tables may differ.
pub open spec fn only_groups_changed(old: TaskStore, new: TaskStore) -> bool {
    &&& new.task_rows() == old.task_rows()
    &&& new.block_rows() == old.block_rows()
    &&& new.session_rows() == old.session_rows()
}

/// A task that is not deleted and is in workspace `id`.
pub open spec fn live_in_workspace(t: Task, id: Seq<char>) -> bool {
    t.deleted_at is None && opt_view(t.workspace_id) == Some(id)
}

/// A task that is not deleted and has priority `id`.
pub open spec fn live_with_priority(t: Task, id: Seq<char>) -> bool {
    t.deleted_at is None && opt_view(t.priority_id) == Some(id)
}

/// A workspace that is not deleted and is not the built-in one of completed tasks.
pub open spec fn ordinary_live(w: Workspace) -> bool {
    w.deleted_at is None && w.id@ != done_id()
}

impl TaskStore {
    /// Some task that is not deleted is in workspace `id`.
    pub open spec fn workspace_has_tasks(&self, id: Seq<char>) -> bool {
        exists|k: int|
            0 <= k < self.task_rows().len() && live_in_workspace(#[trigger] self.task_rows()[k], id)
    }

    /// Some task that is not deleted has priority `id`.
    pub open spec fn priority_has_tasks(&self, id: Seq<char>) -> bool {
        exists|k: int|
            0 <= k < self.task_rows().len() && live_with_priority(#[trigger] self.task_rows()[k], id)
    }

    /// The sort order the next workspace gets: one past the largest among
    /// ordinary live workspaces (wrapping at the top of `i64`), or 0.
    pub open spec fn next_workspace_order_is(&self, r: i64) -> bool {
        let rows = self.workspace_rows();
        if forall|k: int| 0 <= k < rows.len() ==> !ordinary_live(#[trigger] rows[k]) {
            r == 0
        } else {
            exists|j: int|
                0 <= j < rows.len() && ordinary_live(rows[j]) && r == rows[j].sort_order.wrapping_add(1) && forall|k: int|
                    0 <= k < rows.len() && ordinary_live(#[trigger] rows[k]) ==> rows[k].sort_order <= rows[j].sort_order
        }
    }

    /// The sort order the next priority of workspace `ws` gets: one past the
    /// largest among its live priorities (wrapping), or 0.
    pub open spec fn next_priority_order_is(&self, ws: Seq<char>, r: i64) -> bool {
        let rows = self.priority_rows();
        if forall|k: int| 0 <= k < rows.len() ==> !((#[trigger] rows[k]).deleted_at is None && rows[k].workspace_id@ == ws) {
            r == 0
        } else {
            exists|j: int|
                0 <= j < rows.len() && rows[j].deleted_at is None && rows[j].workspace_id@ == ws && r
                    == rows[j].sort_order.wrapping_add(1) && forall|k: int|
                    0 <= k < rows.len() && (#[trigger] rows[k]).deleted_at is None && rows[k].workspace_id@ == ws
                        ==> rows[k].sort_order <= rows[j].sort_order
        }
    }

    fn next_workspace_sort_order(&self) -> (r: Result<i64>)
        ensures
            r matches Ok(v) && self.next_workspace_order_is(v),
    {
        let mut best: Option<usize> = None;
        let mut k: usize = 0;
        while k < self.workspaces.len()
            invariant
                k <= self.workspace_rows().len(),
                match best {
                    Some(j) => j < k && ordinary_live(self.workspace_rows()[j as int]) && forall|m: int|
                        0 <= m < k && ordinary_live(#[trigger] self.workspace_rows()[m])
                            ==> self.workspace_rows()[m].sort_order <= self.workspace_rows()[j as int].sort_order,
                    None => forall|m: int| 0 <= m < k ==> !ordinary_live(#[trigger] self.workspace_rows()[m]),
                },
            decreases self.workspace_rows().len() - k,
        {
            let w = &self.workspaces[k];
            if w.deleted_at.is_none() && !str_eq(&w.id, "done") {
                match best {
                    Some(j) => {
                        if w.sort_order > self.workspaces[j].sort_order {
                            best = Some(k);
                        }
                    },
                    None => {
                        best = Some(k);
                    },
                }
            }
            k = k + 1;
        }
        match best {
            Some(j) => Ok(self.workspaces[j].sort_order.wrapping_add(1)),
            None => Ok(0),
        }
    }

    fn next_priority_sort_order(&self, workspace_id: &str) -> (r: Result<i64>)
        ensures
            r matches Ok(v) && self.next_priority_order_is(workspace_id@, v),
    {
        let mut best: Option<usize> = None;
        let mut k: usize = 0;
        while k < self.priorities.len()
            invariant
                k <= self.priority_rows().len(),
                match best {
                    Some(j) => j < k && self.priority_rows()[j as int].deleted_at is None
                        && self.priority_rows()[j as int].workspace_id@ == workspace_id@ && forall|m: int|
                        0 <= m < k && (#[trigger] self.priority_rows()[m]).deleted_at is None
                            && self.priority_rows()[m].workspace_id@ == workspace_id@
                            ==> self.priority_rows()[m].sort_order <= self.priority_rows()[j as int].sort_order,
                    None => forall|m: int| 0 <= m < k ==> !((#[trigger] self.priority_rows()[m]).deleted_at is None
                        && self.priority_rows()[m].workspace_id@ == workspace_id@),
                },
            decreases self.priority_rows().len() - k,
        {
            let p = &self.priorities[k];
            if p.deleted_at.is_none() && str_eq(&p.workspace_id, workspace_id) {
                match best {
                    Some(j) => {
                        if p.sort_order > self.priorities[j].sort_order {
                            best = Some(k);
                        }
                    },
                    None => {
                        best = Some(k);
                    },
                }
            }
            k = k + 1;
        }
        match best {
            Some(j) => Ok(self.priorities[j].sort_order.wrapping_add(1)),
            None => Ok(0),
        }
    }

    /// Whether some live task is in workspace `id`.
    fn live_task_in_workspace(&self, id: &str) -> (r: bool)
        ensures
            r == self.workspace_has_tasks(id@),
    {
        let mut k: usize = 0;
        while k < self.tasks.len()
            invariant
                k <= self.task_rows().len(),
                forall|m: int| 0 <= m < k ==> !live_in_workspace(#[trigger] self.task_rows()[m], id@),
            decreases self.task_rows().len() - k,
        {
            let t = &self.tasks[k];
            if t.deleted_at.is_none() {
                match &t.workspace_id {
                    Some(w) => {
                        if str_eq(w, id) {
                            return true;
                        }
                    },
                    None => {},
                }
            }
            k = k + 1;
        }
        false
    }

    /// Whether some live task has priority `id`.
    fn live_task_with_priority(&self, id: &str) -> (r: bool)
        ensures
            r == self.priority_has_tasks(id@),
    {
        let mut k: usize = 0;
        while k < self.tasks.len()
            invariant
                k <= self.task_rows().len(),
                forall|m: int| 0 <= m < k ==> !live_with_priority(#[trigger] self.task_rows()[m], id@),
            decreases self.task_rows().len() - k,
        {
            let t = &self.tasks[k];
            if t.deleted_at.is_none() {
                match &t.priority_id {
                    Some(p) => {
                        if str_eq(p, id) {
                            return true;
                        }
                    },
                    None => {},
                }
            }
            k = k + 1;
        }
        false
    }

    pub(crate) proof fn lemma_groups_wf(old: TaskStore, new: TaskStore)
        requires
            old.wf(),
            only_groups_changed(old, new),
            distinct_ids_kept_w(old.workspace_rows(), new.workspace_rows()),
            distinct_ids_kept_p(old.priority_rows(), new.priority_rows()),
            forall|k: int|
                0 <= k < old.priority_rows().len() ==> (#[trigger] new.priority_rows()[k]).workspace_id
                    == old.priority_rows()[k].workspace_id,
        ensures
            new.wf(),
    {
        let w = new.workspace_rows();
        assert forall|a: int, b: int| 0 <= a < b < w.len() implies w[a].id@ != w[b].id@ by {
            assert(w[a].id == old.workspace_rows()[a].id && w[b].id == old.workspace_rows()[b].id);
        }
        let p = new.priority_rows();
        assert forall|a: int, b: int| 0 <= a < b < p.len() implies p[a].id@ != p[b].id@ by {
            assert(p[a].id == old.priority_rows()[a].id && p[b].id == old.priority_rows()[b].id);
        }
        assert forall|k: int| 0 <= k < new.task_rows().len() implies (k < old.task_rows().len() && same_task_refs(
            old.task_rows()[k],
            #[trigger] new.task_rows()[k],
        )) || task_refs_within(new.task_rows()[k], new.workspace_rows(), new.priority_rows()) by {}
        assert(refs_carried(old, new));
        lemma_refs_carried(old, new);
    }
}

/// Same length and identifiers.
pub open spec fn distinct_ids_kept_w(old: Seq<Workspace>, new: Seq<Workspace>) -> bool {
    new.len() == old.len() && forall|k: int| 0 <= k < old.len() ==> (#[trigger] new[k]).id == old[k].id
}

/// Same length and identifiers.
pub open spec fn distinct_ids_kept_p(old: Seq<Priority>, new: Seq<Priority>) -> bool {
    new.len() == old.len() && forall|k: int| 0 <= k < old.len() ==> (#[trigger] new[k]).id == old[k].id
}

/// `p` is one of the priorities a new workspace `ws` comes with.
pub open spec fn default_priority(p: Priority, ws: Workspace, name: Seq<char>, color: Seq<char>, sort_order: int) -> bool {
    &&& p.workspace_id == ws.id
    &&& p.name@ == name
    &&& p.color matches Some(c) && c@ == color
    &&& p.sort_order == sort_order
    &&& p.created_at == ws.created_at
    &&& p.updated_at == ws.created_at
    &&& p.deleted_at is None
    &&& p.version == 1
}

/// `new` is `old` with every live priority of workspace `ws` deleted at `stamp`.
pub open spec fn priorities_deleted(old: Seq<Priority>, new: Seq<Priority>, ws: Seq<char>, stamp: String) -> bool {
    &&& new.len() == old.len()
    &&& forall|k: int| 0 <= k < old.len() ==> #[trigger] new[k] == if old[k].workspace_id@ == ws && old[k].deleted_at is None {
        Priority { deleted_at: Some(stamp), updated_at: stamp, version: (old[k].version + 1) as i64, ..old[k] }
    } else {
        old[k]
    }
}

/// The identifiers a new workspace `id` and its priorities `p0`, `p1`, `p2`
/// would take are all free: no stored workspace has `id`, no stored priority
/// has one of the others, and these three differ.
pub open spec fn fresh_group_ids(pre: TaskStore, id: Seq<char>, p0: Seq<char>, p1: Seq<char>, p2: Seq<char>) -> bool {
    &&& !pre.has_workspace(id)
    &&& !pre.has_priority(p0)
    &&& !pre.has_priority(p1)
    &&& !pre.has_priority(p2)
    &&& p0 != p1 && p0 != p2 && p1 != p2
}

/// What creating a workspace does, under identifier `id`, with its
/// priorities under `p0`, `p1` and `p2`.
pub open spec fn create_workspace_result(pre: TaskStore, post: TaskStore, name: &str, created_at: &str, id: Seq<char>, p0: Seq<char>, p1: Seq<char>, p2: Seq<char>, r: Result<Workspace>) -> bool {
    &&& (if blank(name@) {
        r matches Err(CoreError::InvalidInput(_))
    } else if !fresh_group_ids(pre, id, p0, p1, p2) {
        r matches Err(CoreError::Database(_))
    } else {
        r is Ok
    })
    &&& (match r {
        Ok(ws) => {
            let p = post.priority_rows();
            let n = pre.priority_rows().len();
            &&& post.workspace_rows() == pre.workspace_rows().push(ws)
            &&& ws.id@ == id
            &&& p[n as int].id@ == p0
            &&& p[n + 1int].id@ == p1
            &&& p[n + 2int].id@ == p2
            &&& ws.name@ == trimmed(name@)
            &&& pre.next_workspace_order_is(ws.sort_order)
            &&& ws.created_at@ == created_at@
            &&& ws == Workspace { builtin: false, updated_at: ws.created_at, deleted_at: None, version: 1, ..ws }
            &&& p.len() == n + 3
            &&& p.take(n as int) == pre.priority_rows()
            &&& default_priority(p[n as int], ws, "P0"@, "#b0432f"@, 0)
            &&& default_priority(p[n + 1int], ws, "P1"@, "#b16d42"@, 1)
            &&& default_priority(p[n + 2int], ws, "P2"@, "#8f9a90"@, 2)
            &&& only_groups_changed(pre, post)
        },
        Err(_) => post == pre,
    })
}

/// What renaming a workspace does.
pub open spec fn rename_workspace_result(pre: TaskStore, post: TaskStore, id: &str, expected_version: i64, name: &str, updated_at: &str, r: Result<Workspace>) -> bool {
    &&& (if blank(name@) {
        r matches Err(CoreError::InvalidInput(_))
    } else if !pre.has_live_workspace(id@) {
        r matches Err(CoreError::WorkspaceNotFound(x)) && x@ == id@
    } else {
        forall|i: int| pre.workspace_at(id@, i) ==> if (#[trigger] pre.workspace_rows()[i]).version != expected_version {
            r matches Err(CoreError::VersionConflict)
        } else if pre.workspace_rows()[i].version == i64::MAX {
            r matches Err(CoreError::Database(_))
        } else {
            r is Ok
        }
    })
    &&& (match r {
        Ok(ws) => exists|i: int| {
            &&& #[trigger] pre.workspace_at(id@, i)
            &&& ws.name@ == trimmed(name@)
            &&& ws.updated_at@ == updated_at@
            &&& ws == Workspace {
                name: ws.name,
                updated_at: ws.updated_at,
                version: (pre.workspace_rows()[i].version + 1) as i64,
                ..pre.workspace_rows()[i]
            }
            &&& post.workspace_rows() == pre.workspace_rows().update(i, ws)
            &&& post.priority_rows() == pre.priority_rows()
            &&& only_groups_changed(pre, post)
        },
        Err(_) => post == pre,
    })
}

/// What deleting a workspace does.
pub open spec fn soft_delete_workspace_result(pre: TaskStore, post: TaskStore, id: &str, expected_version: i64, deleted_at: &str, r: Result<()>) -> bool {
    &&& (if exists|i: int| pre.workspace_at(id@, i) && pre.workspace_rows()[i].deleted_at is None
        && pre.workspace_rows()[i].builtin {
        r matches Err(CoreError::InvalidState(_))
    } else if pre.workspace_has_tasks(id@) {
        r matches Err(CoreError::InvalidState(_))
    } else if !pre.has_live_workspace(id@) {
        r matches Err(CoreError::WorkspaceNotFound(x)) && x@ == id@
    } else {
        forall|i: int| pre.workspace_at(id@, i) ==> if (#[trigger] pre.workspace_rows()[i]).version != expected_version {
            r matches Err(CoreError::VersionConflict)
        } else if pre.workspace_rows()[i].version == i64::MAX || pre.workspace_priority_at_max(id@) {
            r matches Err(CoreError::Database(_))
        } else {
            r is Ok
        }
    })
    &&& (match r {
        Ok(_) => exists|i: int| {
            let ws = post.workspace_rows()[i];
            &&& #[trigger] pre.workspace_at(id@, i)
            &&& ws.updated_at@ == deleted_at@
            &&& ws == Workspace {
                deleted_at: Some(ws.updated_at),
                updated_at: ws.updated_at,
                version: (pre.workspace_rows()[i].version + 1) as i64,
                ..pre.workspace_rows()[i]
            }
            &&& post.workspace_rows() == pre.workspace_rows().update(i, ws)
            &&& priorities_deleted(pre.priority_rows(), post.priority_rows(), id@, ws.updated_at)
            &&& only_groups_changed(pre, post)
        },
        Err(_) => post == pre,
    })
}

/// What creating a priority under identifier `id` does.
pub open spec fn create_priority_result(pre: TaskStore, post: TaskStore, workspace_id: &str, name: &str, color: Option<&str>, created_at: &str, id: Seq<char>, r: Result<Priority>) -> bool {
    &&& (if blank(name@) {
        r matches Err(CoreError::InvalidInput(_))
    } else if !pre.has_live_workspace(workspace_id@) {
        r matches Err(CoreError::WorkspaceNotFound(x)) && x@ == workspace_id@
    } else if pre.has_priority(id) {
        r matches Err(CoreError::Database(_))
    } else {
        r is Ok
    })
    &&& (match r {
        Ok(p) => {
            &&& post.priority_rows() == pre.priority_rows().push(p)
            &&& p.id@ == id
            &&& p.workspace_id@ == workspace_id@
            &&& p.name@ == trimmed(name@)
            &&& opt_view(p.color) == opt_str_view(color)
            &&& pre.next_priority_order_is(workspace_id@, p.sort_order)
            &&& p.created_at@ == created_at@
            &&& p == Priority { updated_at: p.created_at, deleted_at: None, version: 1, ..p }
            &&& post.workspace_rows() == pre.workspace_rows()
            &&& only_groups_changed(pre, post)
        },
        Err(_) => post == pre,
    })
}

/// What editing a priority does.
pub open spec fn update_priority_result(pre: TaskStore, post: TaskStore, id: &str, expected_version: i64, name: &str, color: Option<&str>, updated_at: &str, r: Result<Priority>) -> bool {
    &&& (if blank(name@) {
        r matches Err(CoreError::InvalidInput(_))
    } else if !pre.has_live_priority(id@) {
        r matches Err(CoreError::PriorityNotFound(x)) && x@ == id@
    } else {
        forall|i: int| pre.priority_at(id@, i) ==> if (#[trigger] pre.priority_rows()[i]).version != expected_version {
            r matches Err(CoreError::VersionConflict)
        } else if pre.priority_rows()[i].version == i64::MAX {
            r matches Err(CoreError::Database(_))
        } else {
            r is Ok
        }
    })
    &&& (match r {
        Ok(p) => exists|i: int| {
            &&& #[trigger] pre.priority_at(id@, i)
            &&& p.name@ == trimmed(name@)
            &&& opt_view(p.color) == opt_str_view(color)
            &&& p.updated_at@ == updated_at@
            &&& p == Priority {
                name: p.name,
                color: p.color,
                updated_at: p.updated_at,
                version: (pre.priority_rows()[i].version + 1) as i64,
                ..pre.priority_rows()[i]
            }
            &&& post.priority_rows() == pre.priority_rows().update(i, p)
            &&& post.workspace_rows() == pre.workspace_rows()
            &&& only_groups_changed(pre, post)
        },
        Err(_) => post == pre,
    })
}

/// What deleting a priority does.
pub open spec fn soft_delete_priority_result(pre: TaskStore, post: TaskStore, id: &str, expected_version: i64, deleted_at: &str, r: Result<()>) -> bool {
    &&& (if pre.priority_has_tasks(id@) {
        r matches Err(CoreError::InvalidState(_))
    } else if !pre.has_live_priority(id@) {
        r matches Err(CoreError::Database(_))
    } else {
        forall|i: int| pre.priority_at(id@, i) ==> if !pre.has_other_priority(
            (#[trigger] pre.priority_rows()[i]).workspace_id@,
            id@,
        ) {
            r matches Err(CoreError::InvalidState(_))
        } else if pre.priority_rows()[i].version != expected_version {
            r matches Err(CoreError::VersionConflict)
        } else if pre.priority_rows()[i].version == i64::MAX {
            r matches Err(CoreError::Database(_))
        } else {
            r is Ok
        }
    })
    &&& (match r {
        Ok(_) => exists|i: int| {
            let p = post.priority_rows()[i];
            &&& #[trigger] pre.priority_at(id@, i)
            &&& p.updated_at@ == deleted_at@
            &&& p == Priority {
                deleted_at: Some(p.updated_at),
                updated_at: p.updated_at,
                version: (pre.priority_rows()[i].version + 1) as i64,
                ..pre.priority_rows()[i]
            }
            &&& post.priority_rows() == pre.priority_rows().update(i, p)
            &&& post.workspace_rows() == pre.workspace_rows()
            &&& only_groups_changed(pre, post)
        },
        Err(_) => post == pre,
    })
}

impl TaskStore {
    /// Some live priority of workspace `ws` cannot have its version raised.
    pub open spec fn workspace_priority_at_max(&self, ws: Seq<char>) -> bool {
        exists|k: int|
            0 <= k < self.priority_rows().len() && (#[trigger] self.priority_rows()[k]).workspace_id@ == ws
                && self.priority_rows()[k].deleted_at is None && self.priority_rows()[k].version == i64::MAX
    }

    fn workspace_priority_max(&self, ws: &str) -> (r: bool)
        ensures
            r == self.workspace_priority_at_max(ws@),
    {
        let mut k: usize = 0;
        while k < self.priorities.len()
            invariant
                k <= self.priority_rows().len(),
                forall|m: int| 0 <= m < k ==> !((#[trigger] self.priority_rows()[m]).workspace_id@ == ws@
                    && self.priority_rows()[m].deleted_at is None && self.priority_rows()[m].version == i64::MAX),
            decreases self.priority_rows().len() - k,
        {
            let p = &self.priorities[k];
            if p.deleted_at.is_none() && p.version == i64::MAX && str_eq(&p.workspace_id, ws) {
                return true;
            }
            k = k + 1;
        }
        false
    }

    fn has_priority_id(&self, id: &str) -> (r: bool)
        ensures
            r == exists|k: int| self.priority_at(id@, k),
    {
        self.find_priority(id).is_some()
    }

    /// Creates a workspace named `name` (stored trimmed), placed after the
    /// other ordinary workspaces, with the priorities P0, P1 and P2, under
    /// fresh random identifiers.
    pub fn create_workspace(&mut self, name: &str, created_at: &str) -> (r: Result<Workspace>)
        requires
            old(self).wf(),
        ensures
            final(self).wf(),
            exists|id: Seq<char>, p0: Seq<char>, p1: Seq<char>, p2: Seq<char>|
                uuid_v4_text(id) && uuid_v4_text(p0) && uuid_v4_text(p1) && uuid_v4_text(p2)
                    && #[trigger] create_workspace_result(*old(self), *final(self), name, created_at, id, p0, p1, p2, r),
    {
        let id = new_id();
        let p0 = new_id();
        let p1 = new_id();
        let p2 = new_id();
        let ghost drawn = (id@, p0@, p1@, p2@);
        let r = self.create_workspace_with_ids(name, created_at, id, p0, p1, p2);
        assert(create_workspace_result(*old(self), *self, name, created_at, drawn.0, drawn.1, drawn.2, drawn.3, r));
        r
    }

    /// Creates a workspace named `name` (stored trimmed) under identifier
    /// `id`, placed after the other ordinary workspaces, with the priorities
    /// P0, P1 and P2 under `p0`, `p1` and `p2`.
    pub fn create_workspace_with_ids(&mut self, name: &str, created_at: &str, id: String, p0: String, p1: String, p2: String) -> (r: Result<Workspace>)
        requires
            old(self).wf(),
        ensures
            final(self).wf(),
            create_workspace_result(*old(self), *final(self), name, created_at, id@, p0@, p1@, p2@, r),
    {
        if is_blank(name) {
            return Err(CoreError::InvalidInput(String::from_str("工作区名称不能为空")));
        }
        let sort_order = self.next_workspace_sort_order()?;
        if self.find_workspace(id.as_str()).is_some() || self.has_priority_id(p0.as_str()) || self.has_priority_id(p1.as_str())
            || self.has_priority_id(p2.as_str()) || str_eq(p0.as_str(), p1.as_str()) || str_eq(p0.as_str(), p2.as_str())
            || str_eq(p1.as_str(), p2.as_str()) {
            return Err(CoreError::Database(String::from_str("工作区 ID 已存在")));
        }
        let stamp = created_at.to_owned();
        let ws = Workspace {
            id,
            name: trim(name),
            sort_order,
            builtin: false,
            created_at: stamp.clone(),
            updated_at: stamp.clone(),
            deleted_at: None,
            version: 1,
        };
        let result = ws.clone();
        self.workspaces.push(ws);
        let ghost n = old(self).priority_rows().len();
        self.priorities.push(Priority {
            id: p0,
            workspace_id: result.id.clone(),
            name: String::from_str("P0"),
            color: Some(String::from_str("#b0432f")),
            sort_order: 0,
            created_at: stamp.clone(),
            updated_at: stamp.clone(),
            deleted_at: None,
            version: 1,
        });
        self.priorities.push(Priority {
            id: p1,
            workspace_id: result.id.clone(),
            name: String::from_str("P1"),
            color: Some(String::from_str("#b16d42")),
            sort_order: 1,
            created_at: stamp.clone(),
            updated_at: stamp.clone(),
            deleted_at: None,
            version: 1,
        });
        self.priorities.push(Priority {
            id: p2,
            workspace_id: result.id.clone(),
            name: String::from_str("P2"),
            color: Some(String::from_str("#8f9a90")),
            sort_order: 2,
            created_at: stamp.clone(),
            updated_at: stamp,
            deleted_at: None,
            version: 1,
        });
        proof {
            let w = self.workspace_rows();
            assert(w == old(self).workspace_rows().push(result));
            assert forall|a: int, b: int| 0 <= a < b < w.len() implies w[a].id@ != w[b].id@ by {
                if b == w.len() - 1 {
                    assert(!old(self).workspace_at(w[b].id@, a));
                } else {
                    assert(w[a] == old(self).workspace_rows()[a] && w[b] == old(self).workspace_rows()[b]);
                }
            }
            let p = self.priority_rows();
            assert(p.take(n as int) =~= old(self).priority_rows());
            assert forall|a: int, b: int| 0 <= a < b < p.len() implies p[a].id@ != p[b].id@ by {
                if b >= n {
                    if a < n {
                        assert(p[a] == old(self).priority_rows()[a]);
                        assert(!old(self).priority_at(p[b].id@, a));
                    }
                } else {
                    assert(p[a] == old(self).priority_rows()[a] && p[b] == old(self).priority_rows()[b]);
                }
            }
            let pre = *old(self);
            assert(w[w.len() - 1] == result);
            assert forall|k: int| 0 <= k < p.len() implies (k < pre.priority_rows().len() && (
            #[trigger] p[k]).workspace_id == pre.priority_rows()[k].workspace_id) || lists_workspace(w, p[k].workspace_id@) by {
                if k >= n {
                    assert(w[w.len() - 1].id@ == p[k].workspace_id@);
                } else {
                    assert(p[k] == pre.priority_rows()[k]);
                }
            }
            assert forall|k: int| 0 <= k < self.task_rows().len() implies (k < pre.task_rows().len() && same_task_refs(
                pre.task_rows()[k],
                #[trigger] self.task_rows()[k],
            )) || task_refs_within(self.task_rows()[k], w, p) by {}
            assert(refs_carried(pre, *self));
            lemma_refs_carried(pre, *self);
        }
        Ok(result)
    }

    /// Renames a live workspace; the name is stored trimmed.
    pub fn rename_workspace(&mut self, id: &str, expected_version: i64, name: &str, updated_at: &str) -> (r: Result<Workspace>)
        requires
            old(self).wf(),
        ensures
            final(self).wf(),
            rename_workspace_result(*old(self), *final(self), id, expected_version, name, updated_at, r),
    {
        if is_blank(name) {
            return Err(CoreError::InvalidInput(String::from_str("工作区名称不能为空")));
        }
        let i = match self.find_workspace(id) {
            Some(i) => i,
            None => {
                return Err(CoreError::WorkspaceNotFound(id.to_owned()));
            },
        };
        let current = self.workspaces[i].clone();
        if current.deleted_at.is_some() {
            return Err(CoreError::WorkspaceNotFound(id.to_owned()));
        }
        if current.version != expected_version {
            return Err(CoreError::VersionConflict);
        }
        if current.version == i64::MAX {
            return Err(CoreError::Database(String::from_str("版本号超出范围")));
        }
        let ws = Workspace { name: trim(name), updated_at: updated_at.to_owned(), version: current.version + 1, ..current };
        let result = ws.clone();
        self.workspaces.set(i, ws);
        proof {
            TaskStore::lemma_groups_wf(*old(self), *self);
            assert(old(self).workspace_at(id@, i as int));
        }
        Ok(result)
    }

    /// Deletes an ordinary workspace that holds no live task, together with
    /// its priorities. The built-in workspace cannot be deleted.
    pub fn soft_delete_workspace(&mut self, id: &str, expected_version: i64, deleted_at: &str) -> (r: Result<()>)
        requires
            old(self).wf(),
        ensures
            final(self).wf(),
            soft_delete_workspace_result(*old(self), *final(self), id, expected_version, deleted_at, r),
    {
        let found = self.find_workspace(id);
        match found {
            Some(i) => {
                if self.workspaces[i].deleted_at.is_none() && self.workspaces[i].builtin {
                    return Err(CoreError::InvalidState(String::from_str("内置工作区不能删除")));
                }
            },
            None => {},
        }
        if self.live_task_in_workspace(id) {
            return Err(CoreError::InvalidState(String::from_str("工作区还有任务，先移走再删除")));
        }
        let i = match found {
            Some(i) => i,
            None => {
                return Err(CoreError::WorkspaceNotFound(id.to_owned()));
            },
        };
        let current = self.workspaces[i].clone();
        if current.deleted_at.is_some() {
            return Err(CoreError::WorkspaceNotFound(id.to_owned()));
        }
        if current.version != expected_version {
            return Err(CoreError::VersionConflict);
        }
        if self.workspace_priority_max(id) {
            return Err(CoreError::Database(String::from_str("版本号超出范围")));
        }
        if current.version == i64::MAX {
            return Err(CoreError::Database(String::from_str("版本号超出范围")));
        }
        let stamp = deleted_at.to_owned();
        let ws = Workspace {
            deleted_at: Some(stamp.clone()),
            updated_at: stamp.clone(),
            version: current.version + 1,
            ..current
        };
        self.workspaces.set(i, ws);
        let ghost start = self.priority_rows();
        let ghost wrows = self.workspace_rows();
        proof {
            assert(distinct_ids_kept_w(old(self).workspace_rows(), wrows));
        }
        let mut k: usize = 0;
        while k < self.priorities.len()
            invariant
                k <= self.priority_rows().len(),
                start == old(self).priority_rows(),
                self.priority_rows().len() == start.len(),
                forall|m: int| 0 <= m < start.len() ==> !((#[trigger] start[m]).workspace_id@ == id@
                    && start[m].deleted_at is None && start[m].version == i64::MAX),
                forall|m: int| 0 <= m < start.len() ==> #[trigger] self.priority_rows()[m] == if m < k && start[m].workspace_id@ == id@
                    && start[m].deleted_at is None {
                    Priority { deleted_at: Some(stamp), updated_at: stamp, version: (start[m].version + 1) as i64, ..start[m] }
                } else {
                    start[m]
                },
                self.workspace_rows() == wrows,
                only_groups_changed(*old(self), *self),
            decreases start.len() - k,
        {
            if self.priorities[k].deleted_at.is_none() && str_eq(&self.priorities[k].workspace_id, id) {
                let p = self.priorities[k].clone();
                let next = Priority {
                    deleted_at: Some(stamp.clone()),
                    updated_at: stamp.clone(),
                    version: p.version + 1,
                    ..p
                };
                self.priorities.set(k, next);
            }
            k = k + 1;
        }
        proof {
            TaskStore::lemma_groups_wf(*old(self), *self);
            assert(old(self).workspace_at(id@, i as int));
        }
        Ok(())
    }

    /// Adds a priority named `name` (stored trimmed) to a live workspace,
    /// after its other priorities, under a fresh random identifier.
    pub fn create_priority(&mut self, workspace_id: &str, name: &str, color: Option<&str>, created_at: &str) -> (r: Result<Priority>)
        requires
            old(self).wf(),
        ensures
            final(self).wf(),
            exists|id: Seq<char>|
                uuid_v4_text(id) && #[trigger] create_priority_result(*old(self), *final(self), workspace_id, name, color, created_at, id, r),
    {
        let id = new_id();
        let ghost drawn = id@;
        let r = self.create_priority_with_id(workspace_id, name, color, created_at, id);
        assert(create_priority_result(*old(self), *self, workspace_id, name, color, created_at, drawn, r));
        r
    }

    /// Adds a priority named `name` (stored trimmed) under identifier `id` to
    /// a live workspace, after its other priorities.
    pub fn create_priority_with_id(&mut self, workspace_id: &str, name: &str, color: Option<&str>, created_at: &str, id: String) -> (r: Result<Priority>)
        requires
            old(self).wf(),
        ensures
            final(self).wf(),
            create_priority_result(*old(self), *final(self), workspace_id, name, color, created_at, id@, r),
    {
        if is_blank(name) {
            return Err(CoreError::InvalidInput(String::from_str("分级名称不能为空")));
        }
        if self.get_workspace(workspace_id)?.is_none() {
            return Err(CoreError::WorkspaceNotFound(workspace_id.to_owned()));
        }
        let sort_order = self.next_priority_sort_order(workspace_id)?;
        if self.has_priority_id(id.as_str()) {
            return Err(CoreError::Database(String::from_str("分级 ID 已存在")));
        }
        let stamp = created_at.to_owned();
        let p = Priority {
            id,
            workspace_id: workspace_id.to_owned(),
            name: trim(name),
            color: owned_opt(color),
            sort_order,
            created_at: stamp.clone(),
            updated_at: stamp,
            deleted_at: None,
            version: 1,
        };
        let result = p.clone();
        self.priorities.push(p);
        proof {
            let rows = self.priority_rows();
            assert(rows == old(self).priority_rows().push(result));
            assert forall|a: int, b: int| 0 <= a < b < rows.len() implies rows[a].id@ != rows[b].id@ by {
                if b == rows.len() - 1 {
                    assert(!old(self).priority_at(rows[b].id@, a));
                } else {
                    assert(rows[a] == old(self).priority_rows()[a] && rows[b] == old(self).priority_rows()[b]);
                }
            }
            let pre = *old(self);
            let wj = choose|j: int| pre.workspace_at(workspace_id@, j) && pre.workspace_rows()[j].deleted_at is None;
            assert forall|k: int| 0 <= k < rows.len() implies (k < pre.priority_rows().len() && (
            #[trigger] rows[k]).workspace_id == pre.priority_rows()[k].workspace_id) || lists_workspace(
                self.workspace_rows(),
                rows[k].workspace_id@,
            ) by {
                if k == rows.len() - 1 {
                    assert(self.workspace_rows()[wj].id@ == rows[k].workspace_id@);
                } else {
                    assert(rows[k] == pre.priority_rows()[k]);
                }
            }
            assert forall|k: int| 0 <= k < self.task_rows().len() implies (k < pre.task_rows().len() && same_task_refs(
                pre.task_rows()[k],
                #[trigger] self.task_rows()[k],
            )) || task_refs_within(self.task_rows()[k], self.workspace_rows(), rows) by {}
            assert(refs_carried(pre, *self));
            lemma_refs_carried(pre, *self);
        }
        Ok(result)
    }

    /// Renames and recolours a live priority; the name is stored trimmed.
    pub fn update_priority(&mut self, id: &str, expected_version: i64, name: &str, color: Option<&str>, updated_at: &str) -> (r: Result<Priority>)
        requires
            old(self).wf(),
        ensures
            final(self).wf(),
            update_priority_result(*old(self), *final(self), id, expected_version, name, color, updated_at, r),
    {
        if is_blank(name) {
            return Err(CoreError::InvalidInput(String::from_str("分级名称不能为空")));
        }
        let i = match self.find_priority(id) {
            Some(i) => i,
            None => {
                return Err(CoreError::PriorityNotFound(id.to_owned()));
            },
        };
        let current = self.priorities[i].clone();
        if current.deleted_at.is_some() {
            return Err(CoreError::PriorityNotFound(id.to_owned()));
        }
        if current.version != expected_version {
            return Err(CoreError::VersionConflict);
        }
        if current.version == i64::MAX {
            return Err(CoreError::Database(String::from_str("版本号超出范围")));
        }
        let p = Priority {
            name: trim(name),
            color: owned_opt(color),
            updated_at: updated_at.to_owned(),
            version: current.version + 1,
            ..current
        };
        let result = p.clone();
        self.priorities.set(i, p);
        proof {
            TaskStore::lemma_groups_wf(*old(self), *self);
            assert(old(self).priority_at(id@, i as int));
        }
        Ok(result)
    }

    /// Whether workspace `ws` keeps some live priority other than `id`.
    pub open spec fn has_other_priority(&self, ws: Seq<char>, id: Seq<char>) -> bool {
        exists|k: int|
            0 <= k < self.priority_rows().len() && (#[trigger] self.priority_rows()[k]).workspace_id@ == ws
                && self.priority_rows()[k].id@ != id && self.priority_rows()[k].deleted_at is None
    }

    /// Deletes a live priority that no live task uses, unless it is the last
    /// live priority of its workspace.
    pub fn soft_delete_priority(&mut self, id: &str, expected_version: i64, deleted_at: &str) -> (r: Result<()>)
        requires
            old(self).wf(),
        ensures
            final(self).wf(),
            soft_delete_priority_result(*old(self), *final(self), id, expected_version, deleted_at, r),
    {
        if self.live_task_with_priority(id) {
            return Err(CoreError::InvalidState(String::from_str("该分级还有任务，先移走再删除")));
        }
        let i = match self.find_priority(id) {
            Some(i) => i,
            None => {
                return Err(CoreError::Database(String::from_str("Query returned no rows")));
            },
        };
        if self.priorities[i].deleted_at.is_some() {
            return Err(CoreError::Database(String::from_str("Query returned no rows")));
        }
        let ws = self.priorities[i].workspace_id.clone();
        let mut k: usize = 0;
        let mut others = false;
        while k < self.priorities.len()
            invariant
                k <= self.priority_rows().len(),
                ws@ == self.priority_rows()[i as int].workspace_id@,
                i < self.priority_rows().len(),
                others == exists|m: int|
                    0 <= m < k && (#[trigger] self.priority_rows()[m]).workspace_id@ == ws@
                        && self.priority_rows()[m].id@ != id@ && self.priority_rows()[m].deleted_at is None,
            decreases self.priority_rows().len() - k,
        {
            let p = &self.priorities[k];
            if p.deleted_at.is_none() && str_eq(&p.workspace_id, ws.as_str()) && !str_eq(&p.id, id) {
                others = true;
            }
            k = k + 1;
        }
        if !others {
            return Err(CoreError::InvalidState(String::from_str("每个工作区至少要保留一个分级")));
        }
        let current = self.priorities[i].clone();
        if current.version != expected_version {
            return Err(CoreError::VersionConflict);
        }
        if current.version == i64::MAX {
            return Err(CoreError::Database(String::from_str("版本号超出范围")));
        }
        let stamp = deleted_at.to_owned();
        let p = Priority {
            deleted_at: Some(stamp.clone()),
            updated_at: stamp,
            version: current.version + 1,
            ..current
        };
        self.priorities.set(i, p);
        proof {
            TaskStore::lemma_groups_wf(*old(self), *self);
            assert(old(self).priority_at(id@, i as int));
        }
        Ok(())
    }
}

/// Only the workspace of completed tasks is built in.
pub open spec fn only_done_builtin(s: TaskStore) -> bool {
    forall|i: int|
        0 <= i < s.workspace_rows().len() && (#[trigger] s.workspace_rows()[i]).builtin ==> s.workspace_rows()[i].id@
            == done_id()
}

/// A new store's only built-in workspace is the one of completed tasks.
pub proof fn lemma_fresh_only_done_builtin(store: TaskStore)
    requires
        store.is_fresh(),
    ensures
        only_done_builtin(store),
{
    assert forall|i: int| 0 <= i < store.workspace_rows().len() && (#[trigger] store.workspace_rows()[i]).builtin implies store.workspace_rows()[i].id@ == done_id() by {
        assert(i == 2);
    }
}

/// Creating a workspace keeps the workspace of completed tasks the only
/// built-in one.
pub proof fn lemma_create_workspace_keeps_builtin(
    pre: TaskStore,
    post: TaskStore,
    name: &str,
    created_at: &str,
    id: Seq<char>,
    p0: Seq<char>,
    p1: Seq<char>,
    p2: Seq<char>,
    r: Result<Workspace>,
)
    requires
        only_done_builtin(pre),
        create_workspace_result(pre, post, name, created_at, id, p0, p1, p2, r),
    ensures
        only_done_builtin(post),
{
    if let Ok(ws) = r {
        assert forall|i: int| 0 <= i < post.workspace_rows().len() && (#[trigger] post.workspace_rows()[i]).builtin implies post.workspace_rows()[i].id@ == done_id() by {
            if i < pre.workspace_rows().len() {
                assert(post.workspace_rows()[i] == pre.workspace_rows()[i]);
            }
        }
    }
}

/// Renaming a workspace keeps the workspace of completed tasks the only
/// built-in one.
pub proof fn lemma_rename_workspace_keeps_builtin(
    pre: TaskStore,
    post: TaskStore,
    id: &str,
    expected_version: i64,
    name: &str,
    updated_at: &str,
    r: Result<Workspace>,
)
    requires
        only_done_builtin(pre),
        rename_workspace_result(pre, post, id, expected_version, name, updated_at, r),
    ensures
        only_done_builtin(post),
{
    if let Ok(ws) = r {
        let i = choose|i: int| #[trigger] pre.workspace_at(id@, i) && ws.name@ == trimmed(name@) && ws.updated_at@ == updated_at@
            && ws == Workspace {
            name: ws.name,
            updated_at: ws.updated_at,
            version: (pre.workspace_rows()[i].version + 1) as i64,
            ..pre.workspace_rows()[i]
        } && post.workspace_rows() == pre.workspace_rows().update(i, ws) && post.priority_rows() == pre.priority_rows()
            && only_groups_changed(pre, post);
        assert forall|k: int| 0 <= k < post.workspace_rows().len() && (#[trigger] post.workspace_rows()[k]).builtin implies post.workspace_rows()[k].id@ == done_id() by {
            assert(post.workspace_rows()[k].builtin == pre.workspace_rows()[k].builtin);
            assert(post.workspace_rows()[k].id == pre.workspace_rows()[k].id);
        }
    }
}

/// Deleting a workspace keeps the workspace of completed tasks the only
/// built-in one.
pub proof fn lemma_delete_workspace_keeps_builtin(
    pre: TaskStore,
    post: TaskStore,
    id: &str,
    expected_version: i64,
    deleted_at: &str,
    r: Result<()>,
)
    requires
        only_done_builtin(pre),
        soft_delete_workspace_result(pre, post, id, expected_version, deleted_at, r),
    ensures
        only_done_builtin(post),
{
    if r is Ok {
        let i = choose|i: int| {
            let ws = post.workspace_rows()[i];
            &&& #[trigger] pre.workspace_at(id@, i)
            &&& ws.updated_at@ == deleted_at@
            &&& ws == Workspace {
                deleted_at: Some(ws.updated_at),
                updated_at: ws.updated_at,
                version: (pre.workspace_rows()[i].version + 1) as i64,
                ..pre.workspace_rows()[i]
            }
            &&& post.workspace_rows() == pre.workspace_rows().update(i, ws)
            &&& priorities_deleted(pre.priority_rows(), post.priority_rows(), id@, ws.updated_at)
            &&& only_groups_changed(pre, post)
        };
        assert forall|k: int| 0 <= k < post.workspace_rows().len() && (#[trigger] post.workspace_rows()[k]).builtin implies post.workspace_rows()[k].id@ == done_id() by {
            assert(post.workspace_rows()[k].builtin == pre.workspace_rows()[k].builtin);
            assert(post.workspace_rows()[k].id == pre.workspace_rows()[k].id);
        }
    }
}

/// Only live tasks hold a workspace back: deleting a live ordinary
/// workspace is refused for its tasks only when a task that is not deleted
/// is in it; one whose tasks are all deleted, or that has none, is deleted
/// when its version matches and no version is at its limit.
pub proof fn lemma_delete_workspace_live_tasks(
    pre: TaskStore,
    post: TaskStore,
    id: &str,
    expected_version: i64,
    deleted_at: &str,
    r: Result<()>,
    i: int,
)
    requires
        pre.wf(),
        soft_delete_workspace_result(pre, post, id, expected_version, deleted_at, r),
        pre.workspace_at(id@, i),
        pre.workspace_rows()[i].deleted_at is None,
        !pre.workspace_rows()[i].builtin,
    ensures
        (r matches Err(CoreError::InvalidState(_))) ==> exists|k: int|
            0 <= k < pre.task_rows().len() && (#[trigger] pre.task_rows()[k]).deleted_at is None
                && opt_view(pre.task_rows()[k].workspace_id) == Some(id@),
        ({
            &&& forall|k: int|
                0 <= k < pre.task_rows().len() ==> (#[trigger] pre.task_rows()[k]).deleted_at is Some
                    || opt_view(pre.task_rows()[k].workspace_id) != Some(id@)
            &&& pre.workspace_rows()[i].version == expected_version
            &&& pre.workspace_rows()[i].version != i64::MAX
            &&& forall|k: int|
                0 <= k < pre.priority_rows().len() ==> !((#[trigger] pre.priority_rows()[k]).workspace_id@ == id@
                    && pre.priority_rows()[k].deleted_at is None && pre.priority_rows()[k].version == i64::MAX)
        }) ==> r is Ok,
{
    assert forall|j: int| pre.workspace_at(id@, j) implies j == i by {
        if j < i {
            assert(pre.workspace_rows()[j].id@ != pre.workspace_rows()[i].id@);
        } else if j > i {
            assert(pre.workspace_rows()[i].id@ != pre.workspace_rows()[j].id@);
        }
    }
    if pre.workspace_has_tasks(id@) {
        let k = choose|k: int| 0 <= k < pre.task_rows().len() && live_in_workspace(#[trigger] pre.task_rows()[k], id@);
        assert(pre.task_rows()[k].deleted_at is None);
    }
    if r matches Err(CoreError::InvalidState(_)) {
        assert(pre.workspace_has_tasks(id@));
    }
}

/// Only live tasks hold a priority back: deleting a live priority that is
/// not the last live one of its workspace is refused for its tasks only when
/// a task that is not deleted has it; one whose tasks are all deleted, or
/// that has none, is deleted when its version matches and is below the limit.
pub proof fn lemma_delete_priority_live_tasks(
    pre: TaskStore,
    post: TaskStore,
    id: &str,
    expected_version: i64,
    deleted_at: &str,
    r: Result<()>,
    i: int,
    other: int,
)
    requires
        pre.wf(),
        soft_delete_priority_result(pre, post, id, expected_version, deleted_at, r),
        pre.priority_at(id@, i),
        pre.priority_rows()[i].deleted_at is None,
        0 <= other < pre.priority_rows().len(),
        pre.priority_rows()[other].workspace_id == pre.priority_rows()[i].workspace_id,
        pre.priority_rows()[other].id@ != id@,
        pre.priority_rows()[other].deleted_at is None,
    ensures
        (r matches Err(CoreError::InvalidState(_))) ==> exists|k: int|
            0 <= k < pre.task_rows().len() && (#[trigger] pre.task_rows()[k]).deleted_at is None
                && opt_view(pre.task_rows()[k].priority_id) == Some(id@),
        ({
            &&& forall|k: int|
                0 <= k < pre.task_rows().len() ==> (#[trigger] pre.task_rows()[k]).deleted_at is Some
                    || opt_view(pre.task_rows()[k].priority_id) != Some(id@)
            &&& pre.priority_rows()[i].version == expected_version
            &&& pre.priority_rows()[i].version != i64::MAX
        }) ==> r is Ok,
{
    assert forall|j: int| pre.priority_at(id@, j) implies j == i by {
        if j < i {
            assert(pre.priority_rows()[j].id@ != pre.priority_rows()[i].id@);
        } else if j > i {
            assert(pre.priority_rows()[i].id@ != pre.priority_rows()[j].id@);
        }
    }
    assert(pre.has_other_priority(pre.priority_rows()[i].workspace_id@, id@)) by {
        assert(pre.priority_rows()[other].workspace_id@ == pre.priority_rows()[i].workspace_id@);
    }
    if pre.priority_has_tasks(id@) {
        let k = choose|k: int| 0 <= k < pre.task_rows().len() && live_with_priority(#[trigger] pre.task_rows()[k], id@);
        assert(pre.task_rows()[k].deleted_at is None);
    }
    if r matches Err(CoreError::InvalidState(_)) {
        assert(pre.priority_has_tasks(id@));
    }
}

} // verus!
