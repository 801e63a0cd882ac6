//! The task store: the five tables of the task core, the invariants that the
//! storage constraints guarantee, lookups and the ordered listings.

use vstd::prelude::*;
use crate::domain::{Priority, Task, TaskBlock, WorkSession, Workspace};
use crate::error::Result;
use crate::ordering::{key_before, sort_rows, sorted_by_key, Keyed, SortKey};
use crate::text::str_eq;
use crate::listing::{lemma_tasks_listed_in_order, tasks_listed_in_order};

verus! {

broadcast use vstd::seq_lib::group_to_multiset_ensures;

/// The time stamp of the records that a new store starts with.
pub open spec fn seed_time() -> Seq<char> {
    "1970-01-01T00:00:00.000Z"@
}

/// The identifier of the built-in workspace that completed tasks move to.
pub open spec fn done_id() -> Seq<char> {
    "done"@
}

/// The workspace a reopened task returns to when it has no home workspace.
pub open spec fn fallback_workspace_id() -> Seq<char> {
    "daily"@
}

/// A block record that is neither resolved nor deleted: the task is blocked.
pub open spec fn active_block(b: TaskBlock) -> bool {
    b.ended_at is None && b.deleted_at is None
}

/// A work session that has not ended.
pub open spec fn active_session(s: WorkSession) -> bool {
    s.ended_at is None
}

pub open spec fn distinct_task_ids(rows: Seq<Task>) -> bool {
    forall|i: int, j: int| 0 <= i < j < rows.len() ==> rows[i].id@ != rows[j].id@
}

pub open spec fn distinct_block_ids(rows: Seq<TaskBlock>) -> bool {
    forall|i: int, j: int| 0 <= i < j < rows.len() ==> rows[i].id@ != rows[j].id@
}

pub open spec fn distinct_session_ids(rows: Seq<WorkSession>) -> bool {
    forall|i: int, j: int| 0 <= i < j < rows.len() ==> rows[i].id@ != rows[j].id@
}

pub open spec fn distinct_workspace_ids(rows: Seq<Workspace>) -> bool {
    forall|i: int, j: int| 0 <= i < j < rows.len() ==> rows[i].id@ != rows[j].id@
}

pub open spec fn distinct_priority_ids(rows: Seq<Priority>) -> bool {
    forall|i: int, j: int| 0 <= i < j < rows.len() ==> rows[i].id@ != rows[j].id@
}

/// At most one open block record per task.
pub open spec fn one_active_block_per_task(rows: Seq<TaskBlock>) -> bool {
    forall|i: int, j: int|
        0 <= i < j < rows.len() && active_block(rows[i]) && active_block(rows[j]) ==> rows[i].task_id@
            != rows[j].task_id@
}

/// At most one running work session per task.
pub open spec fn one_active_session_per_task(rows: Seq<WorkSession>) -> bool {
    forall|i: int, j: int|
        0 <= i < j < rows.len() && active_session(rows[i]) && active_session(rows[j])
            ==> rows[i].task_id@ != rows[j].task_id@
}

/// Some task of `rows` has identifier `id`.
pub open spec fn lists_task(rows: Seq<Task>, id: Seq<char>) -> bool {
    exists|i: int| 0 <= i < rows.len() && rows[i].id@ == id
}

/// Some workspace of `rows` has identifier `id`.
pub open spec fn lists_workspace(rows: Seq<Workspace>, id: Seq<char>) -> bool {
    exists|i: int| 0 <= i < rows.len() && rows[i].id@ == id
}

/// Some priority of `rows` has identifier `id`.
pub open spec fn lists_priority(rows: Seq<Priority>, id: Seq<char>) -> bool {
    exists|i: int| 0 <= i < rows.len() && rows[i].id@ == id
}

/// The workspace, priority and home workspace a task names, where it names
/// one, are among `ws` and `ps`.
pub open spec fn task_refs_within(t: Task, ws: Seq<Workspace>, ps: Seq<Priority>) -> bool {
    &&& (t.workspace_id matches Some(w) ==> lists_workspace(ws, w@))
    &&& (t.priority_id matches Some(p) ==> lists_priority(ps, p@))
    &&& (t.home_workspace_id matches Some(h) ==> lists_workspace(ws, h@))
}

/// The foreign keys of the tables hold: every priority names a workspace of
/// `ws`, every task names workspaces and a priority that exist, every block
/// record and work session names a task of `ts`.
pub open spec fn refs_within(
    ws: Seq<Workspace>,
    ps: Seq<Priority>,
    ts: Seq<Task>,
    bs: Seq<TaskBlock>,
    ss: Seq<WorkSession>,
) -> bool {
    &&& forall|i: int| 0 <= i < ps.len() ==> lists_workspace(ws, (#[trigger] ps[i]).workspace_id@)
    &&& forall|i: int| 0 <= i < ts.len() ==> task_refs_within(#[trigger] ts[i], ws, ps)
    &&& forall|i: int| 0 <= i < bs.len() ==> lists_task(ts, (#[trigger] bs[i]).task_id@)
    &&& forall|i: int| 0 <= i < ss.len() ==> lists_task(ts, (#[trigger] ss[i]).task_id@)
}

/// Two tasks name the same workspace, priority and home workspace.
pub open spec fn same_task_refs(a: Task, b: Task) -> bool {
    a.workspace_id == b.workspace_id && a.priority_id == b.priority_id && a.home_workspace_id == b.home_workspace_id
}

/// `new` keeps the rows of `old` that others refer to, under the same
/// identifiers and in the same places, and each of its references is the
/// one `old` had in that place or names a row that `new` holds.
pub open spec fn refs_carried(old: TaskStore, new: TaskStore) -> bool {
    let (ow, op, ot, ob, os) = (old.workspace_rows(), old.priority_rows(), old.task_rows(), old.block_rows(), old.session_rows());
    let (nw, np, nt, nb, ns) = (new.workspace_rows(), new.priority_rows(), new.task_rows(), new.block_rows(), new.session_rows());
    &&& ow.len() <= nw.len()
    &&& op.len() <= np.len()
    &&& ot.len() <= nt.len()
    &&& forall|i: int| 0 <= i < ow.len() ==> (#[trigger] nw[i]).id == ow[i].id
    &&& forall|i: int| 0 <= i < op.len() ==> (#[trigger] np[i]).id == op[i].id
    &&& forall|i: int| 0 <= i < ot.len() ==> (#[trigger] nt[i]).id == ot[i].id
    &&& forall|i: int|
        0 <= i < np.len() ==> (i < op.len() && (#[trigger] np[i]).workspace_id == op[i].workspace_id) || lists_workspace(
            nw,
            np[i].workspace_id@,
        )
    &&& forall|i: int|
        0 <= i < nt.len() ==> (i < ot.len() && same_task_refs(ot[i], #[trigger] nt[i])) || task_refs_within(nt[i], nw, np)
    &&& forall|i: int|
        0 <= i < nb.len() ==> (i < ob.len() && (#[trigger] nb[i]).task_id == ob[i].task_id) || lists_task(nt, nb[i].task_id@)
    &&& forall|i: int|
        0 <= i < ns.len() ==> (i < os.len() && (#[trigger] ns[i]).task_id == os[i].task_id) || lists_task(nt, ns[i].task_id@)
}

/// References carried over from a store whose references hold still hold.
pub proof fn lemma_refs_carried(old: TaskStore, new: TaskStore)
    requires
        old.refs_ok(),
        refs_carried(old, new),
    ensures
        new.refs_ok(),
{
    let (ow, op, ot, ob, os) = (old.workspace_rows(), old.priority_rows(), old.task_rows(), old.block_rows(), old.session_rows());
    let (nw, np, nt, nb, ns) = (new.workspace_rows(), new.priority_rows(), new.task_rows(), new.block_rows(), new.session_rows());
    assert forall|x: Seq<char>| lists_workspace(ow, x) implies lists_workspace(nw, x) by {
        let j = choose|j: int| 0 <= j < ow.len() && ow[j].id@ == x;
        assert(nw[j].id == ow[j].id);
    }
    assert forall|x: Seq<char>| lists_priority(op, x) implies lists_priority(np, x) by {
        let j = choose|j: int| 0 <= j < op.len() && op[j].id@ == x;
        assert(np[j].id == op[j].id);
    }
    assert forall|x: Seq<char>| lists_task(ot, x) implies lists_task(nt, x) by {
        let j = choose|j: int| 0 <= j < ot.len() && ot[j].id@ == x;
        assert(nt[j].id == ot[j].id);
    }
    assert forall|i: int| 0 <= i < np.len() implies lists_workspace(nw, (#[trigger] np[i]).workspace_id@) by {
        if i < op.len() && np[i].workspace_id == op[i].workspace_id {
            assert(lists_workspace(ow, op[i].workspace_id@));
        }
    }
    assert forall|i: int| 0 <= i < nt.len() implies task_refs_within(#[trigger] nt[i], nw, np) by {
        if i < ot.len() && same_task_refs(ot[i], nt[i]) {
            assert(task_refs_within(ot[i], ow, op));
        }
    }
    assert forall|i: int| 0 <= i < nb.len() implies lists_task(nt, (#[trigger] nb[i]).task_id@) by {
        if i < ob.len() && nb[i].task_id == ob[i].task_id {
            assert(lists_task(ot, ob[i].task_id@));
        }
    }
    assert forall|i: int| 0 <= i < ns.len() implies lists_task(nt, (#[trigger] ns[i]).task_id@) by {
        if i < os.len() && ns[i].task_id == os[i].task_id {
            assert(lists_task(ot, os[i].task_id@));
        }
    }
}

/// The references still hold after a change that leaves workspaces and
/// priorities alone, keeps every task's identifier and references in place,
/// and gives each block record and session the task of the one in its place
/// before, or a task that is stored.
pub proof fn lemma_activity_refs(old: TaskStore, new: TaskStore)
    requires
        old.refs_ok(),
        new.workspace_rows() == old.workspace_rows(),
        new.priority_rows() == old.priority_rows(),
        new.task_rows().len() == old.task_rows().len(),
        forall|k: int|
            0 <= k < old.task_rows().len() ==> (#[trigger] new.task_rows()[k]).id == old.task_rows()[k].id
                && same_task_refs(old.task_rows()[k], new.task_rows()[k]),
        forall|k: int|
            0 <= k < new.block_rows().len() ==> (k < old.block_rows().len() && (#[trigger] new.block_rows()[k]).task_id
                == old.block_rows()[k].task_id) || lists_task(old.task_rows(), new.block_rows()[k].task_id@),
        forall|k: int|
            0 <= k < new.session_rows().len() ==> (k < old.session_rows().len() && (#[trigger] new.session_rows()[k]).task_id
                == old.session_rows()[k].task_id) || lists_task(old.task_rows(), new.session_rows()[k].task_id@),
    ensures
        new.refs_ok(),
{
    let (ot, nt) = (old.task_rows(), new.task_rows());
    assert forall|x: Seq<char>| lists_task(ot, x) implies lists_task(nt, x) by {
        let j = choose|j: int| 0 <= j < ot.len() && ot[j].id@ == x;
        assert(nt[j].id == ot[j].id);
    }
    assert forall|k: int| 0 <= k < nt.len() implies (k < ot.len() && same_task_refs(ot[k], #[trigger] nt[k]))
        || task_refs_within(nt[k], new.workspace_rows(), new.priority_rows()) by {}
    assert forall|k: int| 0 <= k < new.block_rows().len() implies (k < old.block_rows().len() && (
    #[trigger] new.block_rows()[k]).task_id == old.block_rows()[k].task_id) || lists_task(nt, new.block_rows()[k].task_id@) by {}
    assert forall|k: int| 0 <= k < new.session_rows().len() implies (k < old.session_rows().len() && (
    #[trigger] new.session_rows()[k]).task_id == old.session_rows()[k].task_id) || lists_task(nt, new.session_rows()[k].task_id@) by {}
    assert(refs_carried(old, new));
    lemma_refs_carried(old, new);
}

impl Keyed for Task {
    /// Tasks are listed by sort order, then creation time.
    open spec fn key(&self) -> SortKey {
        (0, ""@, self.sort_order as int, self.created_at@, self.id@)
    }

    fn before(&self, other: &Self) -> (r: bool) {
        key_before(0, "", self.sort_order, &self.created_at, &self.id, 0, "", other.sort_order, &other.created_at, &other.id)
    }
}

impl Keyed for Workspace {
    /// Workspaces are listed by sort order, then creation time, the built-in
    /// workspace of completed tasks last.
    open spec fn key(&self) -> SortKey {
        (if self.id@ == done_id() { 1 } else { 0 }, ""@, self.sort_order as int, self.created_at@, self.id@)
    }

    fn before(&self, other: &Self) -> (r: bool) {
        let rank_a: i64 = if str_eq(&self.id, "done") { 1 } else { 0 };
        let rank_b: i64 = if str_eq(&other.id, "done") { 1 } else { 0 };
        key_before(rank_a, "", self.sort_order, &self.created_at, &self.id, rank_b, "", other.sort_order, &other.created_at, &other.id)
    }
}

impl Keyed for Priority {
    /// Priorities are listed by workspace, then sort order, then creation time.
    open spec fn key(&self) -> SortKey {
        (0, self.workspace_id@, self.sort_order as int, self.created_at@, self.id@)
    }

    fn before(&self, other: &Self) -> (r: bool) {
        key_before(0, &self.workspace_id, self.sort_order, &self.created_at, &self.id, 0, &other.workspace_id, other.sort_order, &other.created_at, &other.id)
    }
}

impl Keyed for TaskBlock {
    /// Block records are listed by start.
    open spec fn key(&self) -> SortKey {
        (0, self.started_at@, 0, self.id@, ""@)
    }

    fn before(&self, other: &Self) -> (r: bool) {
        key_before(0, &self.started_at, 0, &self.id, "", 0, &other.started_at, 0, &other.id, "")
    }
}

impl Keyed for WorkSession {
    /// Work sessions are listed by start.
    open spec fn key(&self) -> SortKey {
        (0, self.started_at@, 0, self.id@, ""@)
    }

    fn before(&self, other: &Self) -> (r: bool) {
        key_before(0, &self.started_at, 0, &self.id, "", 0, &other.started_at, 0, &other.id, "")
    }
}

/// The task core's data: workspaces, priorities, tasks, block records and
/// work sessions. Deleting a task, workspace, priority or block record only
/// marks it deleted.
pub struct TaskStore {
    pub(crate) workspaces: Vec<Workspace>,
    pub(crate) priorities: Vec<Priority>,
    pub(crate) tasks: Vec<Task>,
    pub(crate) blocks: Vec<TaskBlock>,
    pub(crate) sessions: Vec<WorkSession>,
}

impl TaskStore {
    pub open(crate) spec fn workspace_rows(&self) -> Seq<Workspace> {
        self.workspaces@
    }

    pub open(crate) spec fn priority_rows(&self) -> Seq<Priority> {
        self.priorities@
    }

    pub open(crate) spec fn task_rows(&self) -> Seq<Task> {
        self.tasks@
    }

    pub open(crate) spec fn block_rows(&self) -> Seq<TaskBlock> {
        self.blocks@
    }

    pub open(crate) spec fn session_rows(&self) -> Seq<WorkSession> {
        self.sessions@
    }

    /// The foreign keys of the stored tables hold.
    pub open spec fn refs_ok(&self) -> bool {
        refs_within(self.workspace_rows(), self.priority_rows(), self.task_rows(), self.block_rows(), self.session_rows())
    }

    /// What the storage constraints guarantee: unique identifiers in every
    /// table, every reference naming a stored row, at most one open block
    /// record and one running session per task.
    pub open spec fn wf(&self) -> bool {
        &&& distinct_workspace_ids(self.workspace_rows())
        &&& distinct_priority_ids(self.priority_rows())
        &&& distinct_task_ids(self.task_rows())
        &&& distinct_block_ids(self.block_rows())
        &&& distinct_session_ids(self.session_rows())
        &&& one_active_block_per_task(self.block_rows())
        &&& one_active_session_per_task(self.session_rows())
        &&& self.refs_ok()
    }

    /// Position `i` holds the task with identifier `id`.
    pub open spec fn task_at(&self, id: Seq<char>, i: int) -> bool {
        0 <= i < self.task_rows().len() && self.task_rows()[i].id@ == id
    }

    pub open spec fn has_task(&self, id: Seq<char>) -> bool {
        exists|i: int| self.task_at(id, i)
    }

    pub open spec fn workspace_at(&self, id: Seq<char>, i: int) -> bool {
        0 <= i < self.workspace_rows().len() && self.workspace_rows()[i].id@ == id
    }

    pub open spec fn has_workspace(&self, id: Seq<char>) -> bool {
        exists|i: int| self.workspace_at(id, i)
    }

    /// Some workspace that is not deleted has identifier `id`.
    pub open spec fn has_live_workspace(&self, id: Seq<char>) -> bool {
        exists|i: int| self.workspace_at(id, i) && self.workspace_rows()[i].deleted_at is None
    }

    pub open spec fn priority_at(&self, id: Seq<char>, i: int) -> bool {
        0 <= i < self.priority_rows().len() && self.priority_rows()[i].id@ == id
    }

    pub open spec fn has_priority(&self, id: Seq<char>) -> bool {
        exists|i: int| self.priority_at(id, i)
    }

    /// Some priority that is not deleted has identifier `id`.
    pub open spec fn has_live_priority(&self, id: Seq<char>) -> bool {
        exists|i: int| self.priority_at(id, i) && self.priority_rows()[i].deleted_at is None
    }

    pub open spec fn block_at(&self, id: Seq<char>, i: int) -> bool {
        0 <= i < self.block_rows().len() && self.block_rows()[i].id@ == id
    }

    pub open spec fn has_block(&self, id: Seq<char>) -> bool {
        exists|i: int| self.block_at(id, i)
    }

    pub open spec fn session_at(&self, id: Seq<char>, i: int) -> bool {
        0 <= i < self.session_rows().len() && self.session_rows()[i].id@ == id
    }

    pub open spec fn has_session(&self, id: Seq<char>) -> bool {
        exists|i: int| self.session_at(id, i)
    }

    /// The task has an open block record.
    pub open spec fn blocked(&self, task_id: Seq<char>) -> bool {
        exists|b: int|
            0 <= b < self.block_rows().len() && active_block(#[trigger] self.block_rows()[b])
                && self.block_rows()[b].task_id@ == task_id
    }

    /// The task has a running work session.
    pub open spec fn working(&self, task_id: Seq<char>) -> bool {
        exists|s: int|
            0 <= s < self.session_rows().len() && active_session(#[trigger] self.session_rows()[s])
                && self.session_rows()[s].task_id@ == task_id
    }

    /// A stored task as it is handed out: `is_blocked` says whether it has an
    /// open block record.
    pub open spec fn shown(&self, t: Task) -> Task {
        Task { is_blocked: self.blocked(t.id@), ..t }
    }

    /// The tasks a listing holds, in storage order.
    pub open spec fn listed_tasks(&self, include_deleted: bool) -> Seq<Task> {
        self.task_rows().filter(|t: Task| include_deleted || t.deleted_at is None).map_values(
            |t: Task| self.shown(t),
        )
    }

    pub(crate) fn find_task(&self, id: &str) -> (r: Option<usize>)
        ensures
            match r {
                Some(i) => self.task_at(id@, i as int),
                None => !self.has_task(id@),
            },
    {
        let mut i: usize = 0;
        while i < self.tasks.len()
            invariant
                i <= self.task_rows().len(),
                forall|k: int| 0 <= k < i ==> self.task_rows()[k].id@ != id@,
            decreases self.task_rows().len() - i,
        {
            if str_eq(&self.tasks[i].id, id) {
                return Some(i);
            }
            i = i + 1;
        }
        None
    }

    pub(crate) fn find_workspace(&self, id: &str) -> (r: Option<usize>)
        ensures
            match r {
                Some(i) => self.workspace_at(id@, i as int),
                None => forall|k: int| !self.workspace_at(id@, k),
            },
    {
        let mut i: usize = 0;
        while i < self.workspaces.len()
            invariant
                i <= self.workspace_rows().len(),
                forall|k: int| 0 <= k < i ==> self.workspace_rows()[k].id@ != id@,
            decreases self.workspace_rows().len() - i,
        {
            if str_eq(&self.workspaces[i].id, id) {
                return Some(i);
            }
            i = i + 1;
        }
        None
    }

    pub(crate) fn find_priority(&self, id: &str) -> (r: Option<usize>)
        ensures
            match r {
                Some(i) => self.priority_at(id@, i as int),
                None => forall|k: int| !self.priority_at(id@, k),
            },
    {
        let mut i: usize = 0;
        while i < self.priorities.len()
            invariant
                i <= self.priority_rows().len(),
                forall|k: int| 0 <= k < i ==> self.priority_rows()[k].id@ != id@,
            decreases self.priority_rows().len() - i,
        {
            if str_eq(&self.priorities[i].id, id) {
                return Some(i);
            }
            i = i + 1;
        }
        None
    }

    pub(crate) fn find_block(&self, id: &str) -> (r: Option<usize>)
        ensures
            match r {
                Some(i) => self.block_at(id@, i as int),
                None => !self.has_block(id@),
            },
    {
        let mut i: usize = 0;
        while i < self.blocks.len()
            invariant
                i <= self.block_rows().len(),
                forall|k: int| 0 <= k < i ==> self.block_rows()[k].id@ != id@,
            decreases self.block_rows().len() - i,
        {
            if str_eq(&self.blocks[i].id, id) {
                return Some(i);
            }
            i = i + 1;
        }
        None
    }

    pub(crate) fn find_session(&self, id: &str) -> (r: Option<usize>)
        ensures
            match r {
                Some(i) => self.session_at(id@, i as int),
                None => !self.has_session(id@),
            },
    {
        let mut i: usize = 0;
        while i < self.sessions.len()
            invariant
                i <= self.session_rows().len(),
                forall|k: int| 0 <= k < i ==> self.session_rows()[k].id@ != id@,
            decreases self.session_rows().len() - i,
        {
            if str_eq(&self.sessions[i].id, id) {
                return Some(i);
            }
            i = i + 1;
        }
        None
    }

    /// Whether the task has an open block record.
    pub(crate) fn is_blocked(&self, task_id: &str) -> (r: bool)
        ensures
            r == self.blocked(task_id@),
    {
        let mut i: usize = 0;
        while i < self.blocks.len()
            invariant
                i <= self.block_rows().len(),
                forall|k: int|
                    0 <= k < i ==> !(active_block(#[trigger] self.block_rows()[k])
                        && self.block_rows()[k].task_id@ == task_id@),
            decreases self.block_rows().len() - i,
        {
            let b = &self.blocks[i];
            if b.ended_at.is_none() && b.deleted_at.is_none() && str_eq(&b.task_id, task_id) {
                return true;
            }
            i = i + 1;
        }
        false
    }

    /// The stored task at position `i`, as handed out.
    pub(crate) fn show_task(&self, i: usize) -> (t: Task)
        requires
            i < self.task_rows().len(),
        ensures
            t == self.shown(self.task_rows()[i as int]),
    {
        let mut t = self.tasks[i].clone();
        t.is_blocked = self.is_blocked(&self.tasks[i].id);
        t
    }

    /// The task with identifier `id`, deleted or not.
    pub fn get_task(&self, id: &str) -> (r: Result<Option<Task>>)
        ensures
            match r {
                Ok(Some(t)) => exists|i: int| self.task_at(id@, i) && t == self.shown(self.task_rows()[i]),
                Ok(None) => !self.has_task(id@),
                Err(_) => false,
            },
    {
        match self.find_task(id) {
            Some(i) => Ok(Some(self.show_task(i))),
            None => Ok(None),
        }
    }

    /// All tasks, or those not deleted, ordered by sort order and creation time.
    pub fn list_tasks(&self, include_deleted: bool) -> (r: Result<Vec<Task>>)
        ensures
            match r {
                Ok(list) => list@.to_multiset() == self.listed_tasks(include_deleted).to_multiset()
                    && sorted_by_key(list@) && tasks_listed_in_order(list@),
                Err(_) => false,
            },
    {
        let ghost pred = |t: Task| include_deleted || t.deleted_at is None;
        let ghost shown = |t: Task| self.shown(t);
        let mut kept: Vec<Task> = Vec::new();
        let mut i: usize = 0;
        while i < self.tasks.len()
            invariant
                i <= self.task_rows().len(),
                pred == (|t: Task| include_deleted || t.deleted_at is None),
                shown == (|t: Task| self.shown(t)),
                kept@ == self.task_rows().take(i as int).filter(pred).map_values(shown),
            decreases self.task_rows().len() - i,
        {
            proof {
                reveal(Seq::filter);
                assert(self.task_rows().take(i + 1).drop_last() =~= self.task_rows().take(i as int));
            }
            if include_deleted || self.tasks[i].deleted_at.is_none() {
                let ghost before = self.task_rows().take(i as int).filter(pred);
                kept.push(self.show_task(i));
                proof {
                    assert(before.push(self.task_rows()[i as int]).map_values(shown) =~= before.map_values(shown).push(
                        shown(self.task_rows()[i as int]),
                    ));
                }
            }
            i = i + 1;
        }
        proof {
            assert(self.task_rows().take(self.task_rows().len() as int) =~= self.task_rows());
        }
        let list = sort_rows(kept);
        proof {
            lemma_tasks_listed_in_order(list@);
        }
        Ok(list)
    }
}

/// A workspace record as a new store holds it.
pub open spec fn is_seed_workspace(w: Workspace, id: Seq<char>, name: Seq<char>, sort_order: int, builtin: bool) -> bool {
    &&& w.id@ == id
    &&& w.name@ == name
    &&& w.sort_order == sort_order
    &&& w.builtin == builtin
    &&& w.created_at@ == seed_time()
    &&& w.updated_at@ == seed_time()
    &&& w.deleted_at is None
    &&& w.version == 1
}

/// A priority record as a new store holds it.
pub open spec fn is_seed_priority(
    p: Priority,
    id: Seq<char>,
    workspace_id: Seq<char>,
    name: Seq<char>,
    color: Seq<char>,
    sort_order: int,
) -> bool {
    &&& p.id@ == id
    &&& p.workspace_id@ == workspace_id
    &&& p.name@ == name
    &&& p.color matches Some(c) && c@ == color
    &&& p.sort_order == sort_order
    &&& p.created_at@ == seed_time()
    &&& p.updated_at@ == seed_time()
    &&& p.deleted_at is None
    &&& p.version == 1
}

fn seed_workspace(id: &str, name: &str, sort_order: i64, builtin: bool) -> (w: Workspace)
    ensures
        is_seed_workspace(w, id@, name@, sort_order as int, builtin),
{
    Workspace {
        id: id.to_owned(),
        name: name.to_owned(),
        sort_order,
        builtin,
        created_at: "1970-01-01T00:00:00.000Z".to_owned(),
        updated_at: "1970-01-01T00:00:00.000Z".to_owned(),
        deleted_at: None,
        version: 1,
    }
}

fn seed_priority(id: &str, workspace_id: &str, name: &str, color: &str, sort_order: i64) -> (p: Priority)
    ensures
        is_seed_priority(p, id@, workspace_id@, name@, color@, sort_order as int),
{
    Priority {
        id: id.to_owned(),
        workspace_id: workspace_id.to_owned(),
        name: name.to_owned(),
        color: Some(color.to_owned()),
        sort_order,
        created_at: "1970-01-01T00:00:00.000Z".to_owned(),
        updated_at: "1970-01-01T00:00:00.000Z".to_owned(),
        deleted_at: None,
        version: 1,
    }
}

impl TaskStore {
    /// What a new store holds: the workspaces 日常 (`daily`) and 工作 (`work`),
    /// each with the priorities P0, P1 and P2, and the built-in workspace
    /// 已完成 (`done`) that completed tasks move to; no tasks.
    pub open spec fn is_fresh(&self) -> bool {
        &&& self.workspace_rows().len() == 3
        &&& is_seed_workspace(self.workspace_rows()[0], "daily"@, "日常"@, 0, false)
        &&& is_seed_workspace(self.workspace_rows()[1], "work"@, "工作"@, 1, false)
        &&& is_seed_workspace(self.workspace_rows()[2], "done"@, "已完成"@, 2, true)
        &&& self.priority_rows().len() == 6
        &&& is_seed_priority(self.priority_rows()[0], "P0"@, "daily"@, "P0"@, "#b0432f"@, 0)
        &&& is_seed_priority(self.priority_rows()[1], "P1"@, "daily"@, "P1"@, "#b16d42"@, 1)
        &&& is_seed_priority(self.priority_rows()[2], "P2"@, "daily"@, "P2"@, "#8f9a90"@, 2)
        &&& is_seed_priority(self.priority_rows()[3], "work-P0"@, "work"@, "P0"@, "#b0432f"@, 0)
        &&& is_seed_priority(self.priority_rows()[4], "work-P1"@, "work"@, "P1"@, "#b16d42"@, 1)
        &&& is_seed_priority(self.priority_rows()[5], "work-P2"@, "work"@, "P2"@, "#8f9a90"@, 2)
        &&& self.task_rows().len() == 0
        &&& self.block_rows().len() == 0
        &&& self.session_rows().len() == 0
    }

    /// A new store holding only the initial workspaces and priorities.
    pub fn new() -> (store: TaskStore)
        ensures
            store.wf(),
            store.is_fresh(),
    {
        let mut workspaces: Vec<Workspace> = Vec::new();
        workspaces.push(seed_workspace("daily", "日常", 0, false));
        workspaces.push(seed_workspace("work", "工作", 1, false));
        workspaces.push(seed_workspace("done", "已完成", 2, true));
        let mut priorities: Vec<Priority> = Vec::new();
        priorities.push(seed_priority("P0", "daily", "P0", "#b0432f", 0));
        priorities.push(seed_priority("P1", "daily", "P1", "#b16d42", 1));
        priorities.push(seed_priority("P2", "daily", "P2", "#8f9a90", 2));
        priorities.push(seed_priority("work-P0", "work", "P0", "#b0432f", 0));
        priorities.push(seed_priority("work-P1", "work", "P1", "#b16d42", 1));
        priorities.push(seed_priority("work-P2", "work", "P2", "#8f9a90", 2));
        proof {
            reveal_strlit("daily");
            reveal_strlit("work");
            reveal_strlit("done");
            reveal_strlit("P0");
            reveal_strlit("P1");
            reveal_strlit("P2");
            reveal_strlit("work-P0");
            reveal_strlit("work-P1");
            reveal_strlit("work-P2");
            assert("daily"@[0] != "work"@[0]);
            assert("daily"@[1] != "done"@[1]);
            assert("work"@ != "done"@);
            assert("P0"@[1] != "P1"@[1] && "P0"@[1] != "P2"@[1] && "P1"@[1] != "P2"@[1]);
            assert("P0"@[0] != "work-P0"@[0] && "P0"@[0] != "work-P1"@[0] && "P0"@[0] != "work-P2"@[0]);
            assert("P1"@[0] != "work-P0"@[0] && "P1"@[0] != "work-P1"@[0] && "P1"@[0] != "work-P2"@[0]);
            assert("P2"@[0] != "work-P0"@[0] && "P2"@[0] != "work-P1"@[0] && "P2"@[0] != "work-P2"@[0]);
            assert("work-P0"@[6] != "work-P1"@[6] && "work-P0"@[6] != "work-P2"@[6] && "work-P1"@[6] != "work-P2"@[6]);
            assert(workspaces@[0].id@ == "daily"@ && workspaces@[1].id@ == "work"@);
            assert forall|i: int| 0 <= i < priorities@.len() implies lists_workspace(
                workspaces@,
                (#[trigger] priorities@[i]).workspace_id@,
            ) by {
                if i < 3 {
                    assert(workspaces@[0].id@ == priorities@[i].workspace_id@);
                } else {
                    assert(workspaces@[1].id@ == priorities@[i].workspace_id@);
                }
            }
        }
        TaskStore { workspaces, priorities, tasks: Vec::new(), blocks: Vec::new(), sessions: Vec::new() }
    }

    /// A new store kept in memory, holding only the initial workspaces and priorities.
    pub fn open_in_memory() -> (r: Result<TaskStore>)
        ensures
            r matches Ok(store) && store.wf() && store.is_fresh(),
    {
        Ok(TaskStore::new())
    }
}

/// A task as the store hands it out is flagged blocked exactly when one of
/// the stored block records is neither ended nor deleted and names it.
pub proof fn lemma_shown_blocked(store: TaskStore, t: Task)
    ensures
        store.shown(t).is_blocked <==> exists|b: int|
            0 <= b < store.block_rows().len() && store.block_rows()[b].ended_at is None
                && store.block_rows()[b].deleted_at is None && store.block_rows()[b].task_id@ == t.id@,
{
    if store.shown(t).is_blocked {
        let b = choose|b: int|
            0 <= b < store.block_rows().len() && active_block(#[trigger] store.block_rows()[b])
                && store.block_rows()[b].task_id@ == t.id@;
        assert(store.block_rows()[b].ended_at is None && store.block_rows()[b].deleted_at is None);
    }
    if exists|b: int|
        0 <= b < store.block_rows().len() && store.block_rows()[b].ended_at is None
            && store.block_rows()[b].deleted_at is None && store.block_rows()[b].task_id@ == t.id@ {
        let b = choose|b: int|
            0 <= b < store.block_rows().len() && store.block_rows()[b].ended_at is None
                && store.block_rows()[b].deleted_at is None && store.block_rows()[b].task_id@ == t.id@;
        assert(active_block(store.block_rows()[b]));
    }
}

} // verus!
