//! Reconciling two copies of the task data: each record is kept in its newest
//! copy, then block records and work sessions that can no longer run are
//! closed and every task keeps at most one open block record and one running
//! session.

use vstd::prelude::*;
use crate::clock::{parse_rfc3339, spec_rfc3339_instant};
use crate::domain::{Priority, Task, TaskBlock, TaskStatus, WorkSession, Workspace};
use crate::error::{CoreError, Result};
use crate::ordering::{key_before, key_lt, lemma_key_order, SortKey};
use crate::store::{active_block, seed_time};
use crate::text::{blank, is_blank, str_eq};

verus! {

/// Everything one copy of the data holds.
#[derive(Debug)]
pub struct SyncSnapshot {
    pub workspaces: Vec<Workspace>,
    pub priorities: Vec<Priority>,
    pub tasks: Vec<Task>,
    pub task_blocks: Vec<TaskBlock>,
    pub work_sessions: Vec<WorkSession>,
}

/// How many records of each kind a snapshot holds.
#[derive(Debug, Clone, Copy, PartialEq, Eq, Structural)]
pub struct SyncCounts {
    pub workspaces: usize,
    pub priorities: usize,
    pub tasks: usize,
    pub task_blocks: usize,
    pub work_sessions: usize,
}

impl Default for SyncCounts {
    fn default() -> (r: SyncCounts)
        ensures
            r == (SyncCounts { workspaces: 0, priorities: 0, tasks: 0, task_blocks: 0, work_sessions: 0 }),
    {
        SyncCounts { workspaces: 0, priorities: 0, tasks: 0, task_blocks: 0, work_sessions: 0 }
    }
}

impl Default for SyncSnapshot {
    fn default() -> (r: SyncSnapshot)
        ensures
            r.workspaces@.len() == 0,
            r.priorities@.len() == 0,
            r.tasks@.len() == 0,
            r.task_blocks@.len() == 0,
            r.work_sessions@.len() == 0,
    {
        SyncSnapshot {
            workspaces: Vec::new(),
            priorities: Vec::new(),
            tasks: Vec::new(),
            task_blocks: Vec::new(),
            work_sessions: Vec::new(),
        }
    }
}

/// A record stamped as a new store writes its initial workspaces and priorities.
pub open spec fn seed_stamped(created_at: Seq<char>, updated_at: Seq<char>, deleted: bool, version: i64) -> bool {
    created_at == seed_time() && updated_at == seed_time() && !deleted && version == 1
}

/// The snapshot holds only what a new store starts with: workspaces, all of
/// them initial records, initial priorities, and nothing else.
pub open spec fn bootstrap_seed(s: SyncSnapshot) -> bool {
    &&& s.tasks@.len() == 0
    &&& s.task_blocks@.len() == 0
    &&& s.work_sessions@.len() == 0
    &&& s.workspaces@.len() > 0
    &&& forall|i: int|
        0 <= i < s.workspaces@.len() ==> seed_stamped(
            (#[trigger] s.workspaces@[i]).created_at@,
            s.workspaces@[i].updated_at@,
            s.workspaces@[i].deleted_at is Some,
            s.workspaces@[i].version,
        )
    &&& forall|i: int|
        0 <= i < s.priorities@.len() ==> seed_stamped(
            (#[trigger] s.priorities@[i]).created_at@,
            s.priorities@[i].updated_at@,
            s.priorities@[i].deleted_at is Some,
            s.priorities@[i].version,
        )
}

/// The snapshot holds some record.
pub open spec fn has_any_record(s: SyncSnapshot) -> bool {
    s.workspaces@.len() > 0 || s.priorities@.len() > 0 || s.tasks@.len() > 0 || s.task_blocks@.len() > 0
        || s.work_sessions@.len() > 0
}

fn is_seed_stamp(created_at: &str, updated_at: &str, deleted: bool, version: i64) -> (r: bool)
    ensures
        r == seed_stamped(created_at@, updated_at@, deleted, version),
{
    let seed = "1970-01-01T00:00:00.000Z";
    proof {
        reveal_strlit("1970-01-01T00:00:00.000Z");
    }
    str_eq(created_at, seed) && str_eq(updated_at, seed) && !deleted && version == 1
}

impl SyncSnapshot {
    /// The number of records of each kind.
    pub fn counts(&self) -> (r: SyncCounts)
        ensures
            r.workspaces == self.workspaces@.len(),
            r.priorities == self.priorities@.len(),
            r.tasks == self.tasks@.len(),
            r.task_blocks == self.task_blocks@.len(),
            r.work_sessions == self.work_sessions@.len(),
    {
        SyncCounts {
            workspaces: self.workspaces.len(),
            priorities: self.priorities.len(),
            tasks: self.tasks.len(),
            task_blocks: self.task_blocks.len(),
            work_sessions: self.work_sessions.len(),
        }
    }

    /// Whether the snapshot holds only the records a new store starts with.
    /// Those are defaults, not user data: a new device must not upload them
    /// when it first meets existing data.
    pub fn is_bootstrap_seed(&self) -> (r: bool)
        ensures
            r == bootstrap_seed(*self),
            r <==> {
                &&& self.tasks@.len() == 0 && self.task_blocks@.len() == 0 && self.work_sessions@.len() == 0
                &&& self.workspaces@.len() > 0
                &&& forall|i: int|
                    0 <= i < self.workspaces@.len() ==> (#[trigger] self.workspaces@[i]).created_at@
                        == "1970-01-01T00:00:00.000Z"@ && self.workspaces@[i].updated_at@
                        == "1970-01-01T00:00:00.000Z"@ && self.workspaces@[i].deleted_at is None
                        && self.workspaces@[i].version == 1
                &&& forall|i: int|
                    0 <= i < self.priorities@.len() ==> (#[trigger] self.priorities@[i]).created_at@
                        == "1970-01-01T00:00:00.000Z"@ && self.priorities@[i].updated_at@
                        == "1970-01-01T00:00:00.000Z"@ && self.priorities@[i].deleted_at is None
                        && self.priorities@[i].version == 1
            },
    {
        if !(self.tasks.len() == 0 && self.task_blocks.len() == 0 && self.work_sessions.len() == 0
            && self.workspaces.len() > 0) {
            return false;
        }
        let mut i: usize = 0;
        while i < self.workspaces.len()
            invariant
                i <= self.workspaces@.len(),
                forall|k: int|
                    0 <= k < i ==> seed_stamped(
                        (#[trigger] self.workspaces@[k]).created_at@,
                        self.workspaces@[k].updated_at@,
                        self.workspaces@[k].deleted_at is Some,
                        self.workspaces@[k].version,
                    ),
            decreases self.workspaces@.len() - i,
        {
            let w = &self.workspaces[i];
            if !is_seed_stamp(w.created_at.as_str(), w.updated_at.as_str(), w.deleted_at.is_some(), w.version) {
                return false;
            }
            i = i + 1;
        }
        let mut i: usize = 0;
        while i < self.priorities.len()
            invariant
                i <= self.priorities@.len(),
                forall|k: int|
                    0 <= k < self.workspaces@.len() ==> seed_stamped(
                        (#[trigger] self.workspaces@[k]).created_at@,
                        self.workspaces@[k].updated_at@,
                        self.workspaces@[k].deleted_at is Some,
                        self.workspaces@[k].version,
                    ),
                forall|k: int|
                    0 <= k < i ==> seed_stamped(
                        (#[trigger] self.priorities@[k]).created_at@,
                        self.priorities@[k].updated_at@,
                        self.priorities@[k].deleted_at is Some,
                        self.priorities@[k].version,
                    ),
            decreases self.priorities@.len() - i,
        {
            let p = &self.priorities[i];
            if !is_seed_stamp(p.created_at.as_str(), p.updated_at.as_str(), p.deleted_at.is_some(), p.version) {
                return false;
            }
            i = i + 1;
        }
        true
    }

    /// Whether the snapshot holds any record.
    pub fn has_records(&self) -> (r: bool)
        ensures
            r == has_any_record(*self),
    {
        self.workspaces.len() > 0 || self.priorities.len() > 0 || self.tasks.len() > 0
            || self.task_blocks.len() > 0 || self.work_sessions.len() > 0
    }
}

/// The instant a time stamp names, as whole seconds and nanoseconds; a text
/// that is no time stamp counts as the epoch.
pub open spec fn time_key(text: Seq<char>) -> (int, int) {
    match spec_rfc3339_instant(text) {
        Some(parts) => (parts.0 as int, parts.1 as int),
        None => (0, 0),
    }
}

/// Instant `a` comes before instant `b`.
pub open spec fn time_before(a: (int, int), b: (int, int)) -> bool {
    a.0 < b.0 || (a.0 == b.0 && a.1 < b.1)
}

/// The later of two time stamps, the first when they name the same instant.
pub open spec fn later(left: String, right: String) -> String {
    if time_before(time_key(left@), time_key(right@)) {
        right
    } else {
        left
    }
}

/// Stamp `a` is strictly newer than stamp `b`: a later instant, or the same
/// instant and a higher version.
pub open spec fn stamp_newer(a: (int, int, int), b: (int, int, int)) -> bool {
    a.0 > b.0 || (a.0 == b.0 && (a.1 > b.1 || (a.1 == b.1 && a.2 > b.2)))
}

/// The instant of a time stamp; the epoch for a text that is none.
pub fn time_key_of(text: &str) -> (r: (i64, u32))
    ensures
        (r.0 as int, r.1 as int) == time_key(text@),
{
    match parse_rfc3339(text) {
        Some(parts) => parts,
        None => (0, 0),
    }
}

/// The later of two time stamps, the first when they name the same instant.
pub fn later_time(left: &String, right: &String) -> (r: String)
    ensures
        r == later(*left, *right),
{
    let a = time_key_of(left.as_str());
    let b = time_key_of(right.as_str());
    if a.0 < b.0 || (a.0 == b.0 && a.1 < b.1) {
        right.clone()
    } else {
        left.clone()
    }
}

/// A record that two copies of the data may both hold.
pub trait SyncRecord: Sized {
    /// The record's identifier.
    spec fn record_id(&self) -> Seq<char>;

    /// What decides which copy is newer: seconds and nanoseconds of its last
    /// change, then its version.
    spec fn record_stamp(&self) -> (int, int, int);

    fn sync_id(&self) -> (r: &str)
        ensures
            r@ == self.record_id(),
    ;

    fn sync_stamp(&self) -> (r: (i64, u32, i64))
        ensures
            (r.0 as int, r.1 as int, r.2 as int) == self.record_stamp(),
    ;

    fn duplicate(&self) -> (r: Self)
        ensures
            r == *self,
    ;
}

impl SyncRecord for Workspace {
    open spec fn record_id(&self) -> Seq<char> {
        self.id@
    }

    open spec fn record_stamp(&self) -> (int, int, int) {
        (time_key(self.updated_at@).0, time_key(self.updated_at@).1, self.version as int)
    }

    fn sync_id(&self) -> (r: &str) {
        self.id.as_str()
    }

    fn sync_stamp(&self) -> (r: (i64, u32, i64)) {
        let t = time_key_of(self.updated_at.as_str());
        (t.0, t.1, self.version)
    }

    fn duplicate(&self) -> (r: Self) {
        self.clone()
    }
}

impl SyncRecord for Priority {
    open spec fn record_id(&self) -> Seq<char> {
        self.id@
    }

    open spec fn record_stamp(&self) -> (int, int, int) {
        (time_key(self.updated_at@).0, time_key(self.updated_at@).1, self.version as int)
    }

    fn sync_id(&self) -> (r: &str) {
        self.id.as_str()
    }

    fn sync_stamp(&self) -> (r: (i64, u32, i64)) {
        let t = time_key_of(self.updated_at.as_str());
        (t.0, t.1, self.version)
    }

    fn duplicate(&self) -> (r: Self) {
        self.clone()
    }
}

impl SyncRecord for Task {
    open spec fn record_id(&self) -> Seq<char> {
        self.id@
    }

    open spec fn record_stamp(&self) -> (int, int, int) {
        (time_key(self.updated_at@).0, time_key(self.updated_at@).1, self.version as int)
    }

    fn sync_id(&self) -> (r: &str) {
        self.id.as_str()
    }

    fn sync_stamp(&self) -> (r: (i64, u32, i64)) {
        let t = time_key_of(self.updated_at.as_str());
        (t.0, t.1, self.version)
    }

    fn duplicate(&self) -> (r: Self) {
        self.clone()
    }
}

impl SyncRecord for TaskBlock {
    open spec fn record_id(&self) -> Seq<char> {
        self.id@
    }

    open spec fn record_stamp(&self) -> (int, int, int) {
        (time_key(self.updated_at@).0, time_key(self.updated_at@).1, self.version as int)
    }

    fn sync_id(&self) -> (r: &str) {
        self.id.as_str()
    }

    fn sync_stamp(&self) -> (r: (i64, u32, i64)) {
        let t = time_key_of(self.updated_at.as_str());
        (t.0, t.1, self.version)
    }

    fn duplicate(&self) -> (r: Self) {
        self.clone()
    }
}

/// A work session has no version of its own: its creation time stands for
/// its last change, and the whole seconds of that time for its version.
impl SyncRecord for WorkSession {
    open spec fn record_id(&self) -> Seq<char> {
        self.id@
    }

    open spec fn record_stamp(&self) -> (int, int, int) {
        (time_key(self.created_at@).0, time_key(self.created_at@).1, time_key(self.created_at@).0)
    }

    fn sync_id(&self) -> (r: &str) {
        self.id.as_str()
    }

    fn sync_stamp(&self) -> (r: (i64, u32, i64)) {
        let t = time_key_of(self.created_at.as_str());
        (t.0, t.1, t.0)
    }

    fn duplicate(&self) -> (r: Self) {
        self.clone()
    }
}

/// No two of `rows` share an identifier.
pub open spec fn distinct_ids<T: SyncRecord>(rows: Seq<T>) -> bool {
    forall|i: int, j: int| 0 <= i < j < rows.len() ==> rows[i].record_id() != rows[j].record_id()
}

/// The records of `rows` by identifier, a later row replacing an earlier one.
pub open spec fn keyed<T: SyncRecord>(rows: Seq<T>) -> Map<Seq<char>, T>
    decreases rows.len(),
{
    if rows.len() == 0 {
        Map::empty()
    } else {
        keyed(rows.drop_last()).insert(rows.last().record_id(), rows.last())
    }
}

/// The records of `local` by identifier, with each of `remote` in turn
/// taking the place of the copy held when it is strictly newer or the
/// identifier is new.
pub open spec fn merged_map<T: SyncRecord>(local: Seq<T>, remote: Seq<T>) -> Map<Seq<char>, T>
    decreases remote.len(),
{
    if remote.len() == 0 {
        keyed(local)
    } else {
        let held = merged_map(local, remote.drop_last());
        let incoming = remote.last();
        if held.contains_key(incoming.record_id()) && !stamp_newer(
            incoming.record_stamp(),
            held[incoming.record_id()].record_stamp(),
        ) {
            held
        } else {
            held.insert(incoming.record_id(), incoming)
        }
    }
}

/// `rows` lists the records of `m`, each once.
pub open spec fn lists<T: SyncRecord>(rows: Seq<T>, m: Map<Seq<char>, T>) -> bool {
    &&& distinct_ids(rows)
    &&& forall|i: int|
        0 <= i < rows.len() ==> m.contains_key((#[trigger] rows[i]).record_id()) && m[rows[i].record_id()]
            == rows[i]
    &&& forall|id: Seq<char>| #[trigger] m.contains_key(id) ==> exists|i: int| 0 <= i < rows.len() && rows[i].record_id() == id
}

pub(crate) fn position_of<T: SyncRecord>(rows: &Vec<T>, id: &str) -> (r: Option<usize>)
    ensures
        match r {
            Some(p) => p < rows@.len() && rows@[p as int].record_id() == id@,
            None => forall|i: int| 0 <= i < rows@.len() ==> (#[trigger] rows@[i]).record_id() != id@,
        },
{
    let mut i: usize = 0;
    while i < rows.len()
        invariant
            i <= rows@.len(),
            forall|k: int| 0 <= k < i ==> (#[trigger] rows@[k]).record_id() != id@,
        decreases rows@.len() - i,
    {
        if str_eq(rows[i].sync_id(), id) {
            return Some(i);
        }
        i = i + 1;
    }
    None
}

/// Puts `x` into the listing `rows` of `m`: in place of the record with its
/// identifier, or at the end.
fn put_record<T: SyncRecord>(rows: &mut Vec<T>, x: T, Ghost(m): Ghost<Map<Seq<char>, T>>)
    requires
        lists(old(rows)@, m),
    ensures
        lists(final(rows)@, m.insert(x.record_id(), x)),
{
    let ghost id = x.record_id();
    match position_of(rows, x.sync_id()) {
        Some(p) => {
            let ghost before = rows@;
            rows.set(p, x);
            proof {
                let after = rows@;
                let m2 = m.insert(id, x);
                assert forall|i: int, j: int| 0 <= i < j < after.len() implies after[i].record_id()
                    != after[j].record_id() by {
                    if i != p && j != p {
                        assert(after[i] == before[i] && after[j] == before[j]);
                    } else if i == p {
                        assert(after[j] == before[j]);
                    } else {
                        assert(after[i] == before[i]);
                    }
                }
                assert forall|i: int| 0 <= i < after.len() implies m2.contains_key((#[trigger] after[i]).record_id())
                    && m2[after[i].record_id()] == after[i] by {
                    if i != p {
                        assert(after[i] == before[i]);
                        assert(before[i].record_id() != before[p as int].record_id());
                    }
                }
                assert forall|k: Seq<char>| #[trigger] m2.contains_key(k) implies exists|i: int|
                    0 <= i < after.len() && after[i].record_id() == k by {
                    if k == id {
                        assert(after[p as int].record_id() == k);
                    } else {
                        let i = choose|i: int| 0 <= i < before.len() && before[i].record_id() == k;
                        assert(i != p);
                        assert(after[i] == before[i]);
                    }
                }
            }
        },
        None => {
            let ghost before = rows@;
            rows.push(x);
            proof {
                let after = rows@;
                let m2 = m.insert(id, x);
                assert forall|i: int, j: int| 0 <= i < j < after.len() implies after[i].record_id()
                    != after[j].record_id() by {
                    assert(after[i] == before[i]);
                    if j < before.len() {
                        assert(after[j] == before[j]);
                    }
                }
                assert forall|i: int| 0 <= i < after.len() implies m2.contains_key((#[trigger] after[i]).record_id())
                    && m2[after[i].record_id()] == after[i] by {
                    if i < before.len() {
                        assert(after[i] == before[i]);
                    }
                }
                assert forall|k: Seq<char>| #[trigger] m2.contains_key(k) implies exists|i: int|
                    0 <= i < after.len() && after[i].record_id() == k by {
                    if k == id {
                        assert(after[before.len() as int].record_id() == k);
                    } else {
                        let i = choose|i: int| 0 <= i < before.len() && before[i].record_id() == k;
                        assert(after[i] == before[i]);
                    }
                }
            }
        },
    }
}

/// The records of both lists, one per identifier: the local copy unless a
/// remote copy is strictly newer (a later last change, or the same instant
/// and a higher version). Among local copies with one identifier the last
/// counts; remote copies are weighed in turn.
pub fn merge_by_id<T: SyncRecord>(local: Vec<T>, remote: Vec<T>) -> (r: Vec<T>)
    ensures
        lists(r@, merged_map(local@, remote@)),
{
    let mut out: Vec<T> = Vec::new();
    let mut k: usize = 0;
    proof {
        assert(local@.take(0) =~= Seq::<T>::empty());
    }
    while k < local.len()
        invariant
            k <= local@.len(),
            lists(out@, keyed(local@.take(k as int))),
        decreases local@.len() - k,
    {
        proof {
            assert(local@.take(k + 1).drop_last() =~= local@.take(k as int));
        }
        let x = local[k].duplicate();
        put_record(&mut out, x, Ghost(keyed(local@.take(k as int))));
        k = k + 1;
    }
    proof {
        assert(local@.take(local@.len() as int) =~= local@);
        assert(remote@.take(0) =~= Seq::<T>::empty());
    }
    let mut k: usize = 0;
    while k < remote.len()
        invariant
            k <= remote@.len(),
            lists(out@, merged_map(local@, remote@.take(k as int))),
        decreases remote@.len() - k,
    {
        proof {
            assert(remote@.take(k + 1).drop_last() =~= remote@.take(k as int));
        }
        let ghost held = merged_map(local@, remote@.take(k as int));
        let x = &remote[k];
        match position_of(&out, x.sync_id()) {
            Some(p) => {
                let a = x.sync_stamp();
                let b = out[p].sync_stamp();
                if a.0 > b.0 || (a.0 == b.0 && (a.1 > b.1 || (a.1 == b.1 && a.2 > b.2))) {
                    put_record(&mut out, x.duplicate(), Ghost(held));
                } else {
                    proof {
                        assert(held.contains_key(x.record_id()));
                        assert(held.insert(x.record_id(), held[x.record_id()]) =~= held);
                    }
                }
            },
            None => {
                proof {
                    if held.contains_key(x.record_id()) {
                        let i = choose|i: int| 0 <= i < out@.len() && out@[i].record_id() == x.record_id();
                        assert(out@[i].record_id() != x.record_id());
                    }
                }
                put_record(&mut out, x.duplicate(), Ghost(held));
            },
        }
        k = k + 1;
    }
    proof {
        assert(remote@.take(remote@.len() as int) =~= remote@);
    }
    out
}

/// A record that runs until it is closed: a block record or a work session.
pub trait SyncActivity: SyncRecord {
    /// The record is still running.
    spec fn is_open(&self) -> bool;

    /// The identifier of the task it belongs to.
    spec fn owner(&self) -> Seq<char>;

    /// When it started.
    spec fn opened(&self) -> String;

    /// The record closed at `boundary`.
    spec fn closed_at(&self, boundary: String) -> Self;

    fn sync_is_active(&self) -> (r: bool)
        ensures
            r == self.is_open(),
    ;

    fn sync_task_id(&self) -> (r: &str)
        ensures
            r@ == self.owner(),
    ;

    fn sync_started_at(&self) -> (r: &String)
        ensures
            *r == self.opened(),
    ;

    fn sync_close(&mut self, boundary: &String)
        ensures
            *final(self) == old(self).closed_at(*boundary),
    ;

    /// Closing a record leaves it closed, with its task, identifier and start.
    proof fn lemma_closed(&self, boundary: String)
        ensures
            !self.closed_at(boundary).is_open(),
            self.closed_at(boundary).owner() == self.owner(),
            self.closed_at(boundary).record_id() == self.record_id(),
            self.closed_at(boundary).opened() == self.opened(),
    ;
}

/// A block record closes at the boundary; its last change moves to the
/// boundary when that is later.
impl SyncActivity for TaskBlock {
    open spec fn is_open(&self) -> bool {
        self.ended_at is None && self.deleted_at is None
    }

    open spec fn owner(&self) -> Seq<char> {
        self.task_id@
    }

    open spec fn opened(&self) -> String {
        self.started_at
    }

    open spec fn closed_at(&self, boundary: String) -> Self {
        TaskBlock { ended_at: Some(boundary), updated_at: later(self.updated_at, boundary), ..*self }
    }

    fn sync_is_active(&self) -> (r: bool) {
        self.ended_at.is_none() && self.deleted_at.is_none()
    }

    fn sync_task_id(&self) -> (r: &str) {
        self.task_id.as_str()
    }

    fn sync_started_at(&self) -> (r: &String) {
        &self.started_at
    }

    fn sync_close(&mut self, boundary: &String) {
        let updated = later_time(&self.updated_at, boundary);
        self.ended_at = Some(boundary.clone());
        self.updated_at = updated;
    }

    proof fn lemma_closed(&self, boundary: String) {
    }
}

/// A work session closes at the boundary; its creation time, which stands
/// for its last change, moves to the boundary when that is later.
impl SyncActivity for WorkSession {
    open spec fn is_open(&self) -> bool {
        self.ended_at is None
    }

    open spec fn owner(&self) -> Seq<char> {
        self.task_id@
    }

    open spec fn opened(&self) -> String {
        self.started_at
    }

    open spec fn closed_at(&self, boundary: String) -> Self {
        WorkSession { ended_at: Some(boundary), created_at: later(self.created_at, boundary), ..*self }
    }

    fn sync_is_active(&self) -> (r: bool) {
        self.ended_at.is_none()
    }

    fn sync_task_id(&self) -> (r: &str) {
        self.task_id.as_str()
    }

    fn sync_started_at(&self) -> (r: &String) {
        &self.started_at
    }

    fn sync_close(&mut self, boundary: &String) {
        let created = later_time(&self.created_at, boundary);
        self.ended_at = Some(boundary.clone());
        self.created_at = created;
    }

    proof fn lemma_closed(&self, boundary: String) {
    }
}

/// Position `p` holds the last task of `tasks` with identifier `id`.
pub open spec fn last_named(tasks: Seq<Task>, id: Seq<char>, p: int) -> bool {
    &&& 0 <= p < tasks.len()
    &&& tasks[p].id@ == id
    &&& forall|q: int| p < q < tasks.len() ==> tasks[q].id@ != id
}

/// The task a record belongs to: the last task with its identifier.
pub open spec fn task_named(tasks: Seq<Task>, id: Seq<char>) -> Option<Task> {
    if exists|p: int| last_named(tasks, id, p) {
        Some(tasks[choose|p: int| last_named(tasks, id, p)])
    } else {
        None
    }
}

/// A deleted or completed task: none of its records may still run.
pub open spec fn finished(t: Task) -> bool {
    t.deleted_at is Some || t.status == TaskStatus::Completed
}

/// Where the records of a finished task end: its completion, else its
/// deletion, else its last change.
pub open spec fn finish_time(t: Task) -> String {
    match t.completed_at {
        Some(c) => c,
        None => match t.deleted_at {
            Some(d) => d,
            None => t.updated_at,
        },
    }
}

/// The record, closed at the end of its task when it runs for a finished task.
pub open spec fn closed_by_task<T: SyncActivity>(x: T, tasks: Seq<Task>) -> T {
    match task_named(tasks, x.owner()) {
        Some(t) => if x.is_open() && finished(t) {
            x.closed_at(finish_time(t))
        } else {
            x
        },
        None => x,
    }
}

/// Every record of `rows` closed where its task has finished.
pub open spec fn close_finished<T: SyncActivity>(rows: Seq<T>, tasks: Seq<Task>) -> Seq<T> {
    rows.map_values(|x: T| closed_by_task(x, tasks))
}

fn find_task_named(tasks: &Vec<Task>, id: &str) -> (r: Option<usize>)
    ensures
        match r {
            Some(p) => last_named(tasks@, id@, p as int) && task_named(tasks@, id@) == Some(tasks@[p as int]),
            None => task_named(tasks@, id@) is None,
        },
{
    let mut i = tasks.len();
    while i > 0
        invariant
            i <= tasks@.len(),
            forall|q: int| i <= q < tasks@.len() ==> (#[trigger] tasks@[q]).id@ != id@,
        decreases i,
    {
        if str_eq(tasks[i - 1].id.as_str(), id) {
            proof {
                let p = (i - 1) as int;
                assert(last_named(tasks@, id@, p));
                let c = choose|c: int| last_named(tasks@, id@, c);
                if c < p {
                    assert(tasks@[p].id@ != id@);
                } else if c > p {
                    assert(tasks@[c].id@ != id@);
                }
            }
            return Some(i - 1);
        }
        i = i - 1;
    }
    None
}

fn finish_time_of(t: &Task) -> (r: String)
    ensures
        r == finish_time(*t),
{
    match &t.completed_at {
        Some(c) => c.clone(),
        None => match &t.deleted_at {
            Some(d) => d.clone(),
            None => t.updated_at.clone(),
        },
    }
}

/// Closes every running record whose task is deleted or completed, at the
/// task's completion, else its deletion, else its last change.
pub fn close_invalid_activity<T: SyncActivity>(records: &mut Vec<T>, tasks: &Vec<Task>)
    ensures
        final(records)@ == close_finished(old(records)@, tasks@),
{
    let ghost start = records@;
    let mut i: usize = 0;
    while i < records.len()
        invariant
            i <= records@.len(),
            records@.len() == start.len(),
            forall|k: int|
                0 <= k < start.len() ==> #[trigger] records@[k] == if k < i {
                    closed_by_task(start[k], tasks@)
                } else {
                    start[k]
                },
        decreases records@.len() - i,
    {
        if records[i].sync_is_active() {
            match find_task_named(tasks, records[i].sync_task_id()) {
                Some(p) => {
                    let t = &tasks[p];
                    if t.deleted_at.is_some() || t.status == TaskStatus::Completed {
                        let boundary = finish_time_of(t);
                        let mut x = records[i].duplicate();
                        x.sync_close(&boundary);
                        records.set(i, x);
                    }
                },
                None => {},
            }
        }
        i = i + 1;
    }
    proof {
        assert(records@ =~= close_finished(start, tasks@));
    }
}

/// The order of open records of one task: start, then identifier.
pub open spec fn activity_key<T: SyncActivity>(x: T) -> SortKey {
    (0, x.opened()@, 0, x.record_id(), ""@)
}

/// Record `j` outranks record `i`, both open and of one task: a later start,
/// then a greater identifier, then a later position.
pub open spec fn outranks<T: SyncActivity>(rows: Seq<T>, j: int, i: int) -> bool {
    &&& 0 <= j < rows.len()
    &&& 0 <= i < rows.len()
    &&& j != i
    &&& rows[j].is_open()
    &&& rows[i].is_open()
    &&& rows[j].owner() == rows[i].owner()
    &&& (key_lt(activity_key(rows[i]), activity_key(rows[j])) || (activity_key(rows[i]) == activity_key(rows[j])
        && i < j))
}

/// Record `w` is the open record of task `owner` that no other outranks.
pub open spec fn leads<T: SyncActivity>(rows: Seq<T>, w: int, owner: Seq<char>) -> bool {
    &&& 0 <= w < rows.len()
    &&& rows[w].is_open()
    &&& rows[w].owner() == owner
    &&& forall|j: int| !#[trigger] outranks(rows, j, w)
}

/// The open record of task `owner` that stays open.
pub open spec fn leader<T: SyncActivity>(rows: Seq<T>, owner: Seq<char>) -> int {
    choose|w: int| leads(rows, w, owner)
}

/// Every open record that another of its task outranks, closed at the start
/// of the one that stays open.
pub open spec fn resolved<T: SyncActivity>(rows: Seq<T>) -> Seq<T> {
    Seq::new(
        rows.len(),
        |i: int|
            if rows[i].is_open() && !leads(rows, i, rows[i].owner()) {
                rows[i].closed_at(rows[leader(rows, rows[i].owner())].opened())
            } else {
                rows[i]
            },
    )
}

pub proof fn lemma_outranks_order<T: SyncActivity>(rows: Seq<T>, a: int, b: int, c: int)
    ensures
        outranks(rows, a, b) ==> !outranks(rows, b, a),
        0 <= a < rows.len() && 0 <= b < rows.len() && a != b && rows[a].is_open() && rows[b].is_open()
            && rows[a].owner() == rows[b].owner() ==> outranks(rows, a, b) || outranks(rows, b, a),
        outranks(rows, a, b) && outranks(rows, b, c) && a != c ==> outranks(rows, a, c),
{
    lemma_key_order(activity_key(rows[a]), activity_key(rows[b]), activity_key(rows[c]));
    lemma_key_order(activity_key(rows[b]), activity_key(rows[a]), activity_key(rows[c]));
    lemma_key_order(activity_key(rows[c]), activity_key(rows[b]), activity_key(rows[a]));
}

pub(crate) proof fn lemma_leader_unique<T: SyncActivity>(rows: Seq<T>, w: int, owner: Seq<char>)
    requires
        leads(rows, w, owner),
    ensures
        leader(rows, owner) == w,
        forall|i: int| leads(rows, i, owner) ==> i == w,
{
    assert forall|i: int| leads(rows, i, owner) implies i == w by {
        if i != w {
            lemma_outranks_order(rows, i, w, w);
        }
    }
}

fn leader_of<T: SyncActivity>(rows: &Vec<T>, i: usize) -> (w: usize)
    requires
        i < rows@.len(),
        rows@[i as int].is_open(),
    ensures
        leads(rows@, w as int, rows@[i as int].owner()),
{
    let ghost owner = rows@[i as int].owner();
    let mut best = i;
    let mut j: usize = 0;
    while j < rows.len()
        invariant
            j <= rows@.len(),
            best < rows@.len(),
            rows@[best as int].is_open(),
            rows@[best as int].owner() == owner,
            forall|k: int|
                0 <= k < j && k != best && rows@[k].is_open() && rows@[k].owner() == owner ==> outranks(
                    rows@,
                    best as int,
                    k,
                ),
        decreases rows@.len() - j,
    {
        if j != best && rows[j].sync_is_active() && str_eq(rows[j].sync_task_id(), rows[best].sync_task_id()) {
            let a = rows[best].sync_started_at();
            let b = rows[j].sync_started_at();
            let later_key = key_before(0, a.as_str(), 0, rows[best].sync_id(), "", 0, b.as_str(), 0, rows[j].sync_id(), "");
            let earlier_key = key_before(0, b.as_str(), 0, rows[j].sync_id(), "", 0, a.as_str(), 0, rows[best].sync_id(), "");
            proof {
                reveal_strlit("");
            }
            if later_key || (!earlier_key && best < j) {
                proof {
                    lemma_key_order(activity_key(rows@[best as int]), activity_key(rows@[j as int]), activity_key(rows@[j as int]));
                    assert(outranks(rows@, j as int, best as int));
                    assert forall|k: int|
                        0 <= k < j + 1 && k != j && rows@[k].is_open() && rows@[k].owner() == owner implies outranks(
                            rows@,
                            j as int,
                            k,
                        ) by {
                        if k != best {
                            lemma_outranks_order(rows@, j as int, best as int, k);
                        }
                    }
                }
                best = j;
            } else {
                proof {
                    lemma_key_order(activity_key(rows@[best as int]), activity_key(rows@[j as int]), activity_key(rows@[j as int]));
                    lemma_outranks_order(rows@, best as int, j as int, j as int);
                    assert(!outranks(rows@, j as int, best as int));
                    assert(outranks(rows@, best as int, j as int));
                }
            }
        }
        j = j + 1;
    }
    proof {
        assert forall|k: int| !#[trigger] outranks(rows@, k, best as int) by {
            if outranks(rows@, k, best as int) {
                lemma_outranks_order(rows@, k, best as int, best as int);
            }
        }
    }
    best
}

/// Leaves at most one open record per task: of several, the one with the
/// latest start (then the greatest identifier, then the last) stays open and
/// the others close at its start.
pub fn resolve_active_conflicts<T: SyncActivity>(records: &mut Vec<T>)
    ensures
        final(records)@ == resolved(old(records)@),
{
    let ghost start = records@;
    let mut plan: Vec<Option<String>> = Vec::new();
    let mut i: usize = 0;
    while i < records.len()
        invariant
            i <= start.len(),
            records@ == start,
            plan@.len() == i,
            forall|k: int|
                0 <= k < i ==> #[trigger] plan@[k] == if start[k].is_open() && !leads(start, k, start[k].owner()) {
                    Some(start[leader(start, start[k].owner())].opened())
                } else {
                    None
                },
        decreases start.len() - i,
    {
        if records[i].sync_is_active() {
            let w = leader_of(records, i);
            proof {
                lemma_leader_unique(start, w as int, start[i as int].owner());
            }
            if w != i {
                plan.push(Some(records[w].sync_started_at().clone()));
            } else {
                plan.push(None);
            }
        } else {
            plan.push(None);
        }
        i = i + 1;
    }
    let mut i: usize = 0;
    while i < records.len()
        invariant
            i <= start.len(),
            records@.len() == start.len(),
            plan@.len() == start.len(),
            forall|k: int|
                0 <= k < start.len() ==> #[trigger] plan@[k] == if start[k].is_open() && !leads(start, k, start[k].owner()) {
                    Some(start[leader(start, start[k].owner())].opened())
                } else {
                    None
                },
            forall|k: int|
                0 <= k < start.len() ==> #[trigger] records@[k] == if k < i {
                    resolved(start)[k]
                } else {
                    start[k]
                },
        decreases start.len() - i,
    {
        match &plan[i] {
            Some(boundary) => {
                let mut x = records[i].duplicate();
                x.sync_close(boundary);
                records.set(i, x);
            },
            None => {},
        }
        i = i + 1;
    }
    proof {
        assert(records@ =~= resolved(start));
    }
}

/// The task has an open block record among `blocks`.
pub open spec fn blocks_open_for(blocks: Seq<TaskBlock>, task_id: Seq<char>) -> bool {
    exists|b: int| 0 <= b < blocks.len() && active_block(#[trigger] blocks[b]) && blocks[b].task_id@ == task_id
}

/// The tasks with `is_blocked` set from `blocks`.
pub open spec fn flagged(tasks: Seq<Task>, blocks: Seq<TaskBlock>) -> Seq<Task> {
    tasks.map_values(|t: Task| Task { is_blocked: blocks_open_for(blocks, t.id@), ..t })
}

fn has_open_block(blocks: &Vec<TaskBlock>, task_id: &str) -> (r: bool)
    ensures
        r == blocks_open_for(blocks@, task_id@),
{
    let mut i: usize = 0;
    while i < blocks.len()
        invariant
            i <= blocks@.len(),
            forall|k: int| 0 <= k < i ==> !(active_block(#[trigger] blocks@[k]) && blocks@[k].task_id@ == task_id@),
        decreases blocks@.len() - i,
    {
        if blocks[i].ended_at.is_none() && blocks[i].deleted_at.is_none() && str_eq(blocks[i].task_id.as_str(), task_id) {
            return true;
        }
        i = i + 1;
    }
    false
}

fn flag_blocked(tasks: &mut Vec<Task>, blocks: &Vec<TaskBlock>)
    ensures
        final(tasks)@ == flagged(old(tasks)@, blocks@),
{
    let ghost start = tasks@;
    let mut i: usize = 0;
    while i < tasks.len()
        invariant
            i <= tasks@.len(),
            tasks@.len() == start.len(),
            forall|k: int|
                0 <= k < start.len() ==> #[trigger] tasks@[k] == if k < i {
                    flagged(start, blocks@)[k]
                } else {
                    start[k]
                },
        decreases tasks@.len() - i,
    {
        let mut t = tasks[i].clone();
        t.is_blocked = has_open_block(blocks, t.id.as_str());
        tasks.set(i, t);
        i = i + 1;
    }
    proof {
        assert(tasks@ =~= flagged(start, blocks@));
    }
}

/// `n` is `s` normalized: records of finished tasks closed, one open block
/// record and one running session per task, and `is_blocked` set from the
/// block records.
pub open spec fn normalized_from(s: SyncSnapshot, n: SyncSnapshot) -> bool {
    &&& n.workspaces@ == s.workspaces@
    &&& n.priorities@ == s.priorities@
    &&& n.task_blocks@ == resolved(close_finished(s.task_blocks@, s.tasks@))
    &&& n.work_sessions@ == resolved(close_finished(s.work_sessions@, s.tasks@))
    &&& n.tasks@ == flagged(s.tasks@, n.task_blocks@)
}

/// Closes what finished tasks still run, leaves one open block record and
/// one running session per task, and sets `is_blocked` from the block records.
pub fn normalize_snapshot(snapshot: &mut SyncSnapshot)
    ensures
        normalized_from(*old(snapshot), *final(snapshot)),
{
    close_invalid_activity(&mut snapshot.task_blocks, &snapshot.tasks);
    close_invalid_activity(&mut snapshot.work_sessions, &snapshot.tasks);
    resolve_active_conflicts(&mut snapshot.task_blocks);
    resolve_active_conflicts(&mut snapshot.work_sessions);
    flag_blocked(&mut snapshot.tasks, &snapshot.task_blocks);
}

/// Normalizes a snapshot before it is stored.
pub fn normalize_for_storage(snapshot: &mut SyncSnapshot)
    ensures
        normalized_from(*old(snapshot), *final(snapshot)),
{
    normalize_snapshot(snapshot);
}

/// `raw` holds, table by table, one record per identifier of the two
/// snapshots, the newer copy winning; the local records do not count when
/// they are only what a new store starts with and the remote side holds data.
pub open spec fn merged_listing(local: SyncSnapshot, remote: SyncSnapshot, raw: SyncSnapshot) -> bool {
    let drop = bootstrap_seed(local) && has_any_record(remote);
    &&& lists(raw.workspaces@, merged_map(if drop { Seq::empty() } else { local.workspaces@ }, remote.workspaces@))
    &&& lists(raw.priorities@, merged_map(if drop { Seq::empty() } else { local.priorities@ }, remote.priorities@))
    &&& lists(raw.tasks@, merged_map(if drop { Seq::empty() } else { local.tasks@ }, remote.tasks@))
    &&& lists(raw.task_blocks@, merged_map(if drop { Seq::empty() } else { local.task_blocks@ }, remote.task_blocks@))
    &&& lists(raw.work_sessions@, merged_map(if drop { Seq::empty() } else { local.work_sessions@ }, remote.work_sessions@))
}

/// Merges two snapshots: one record per identifier, the newer copy winning,
/// then normalized. A local snapshot that holds only what a new store starts
/// with gives way entirely to a remote one that holds data.
pub fn merge_sync_snapshots(local: SyncSnapshot, remote: SyncSnapshot) -> (r: SyncSnapshot)
    ensures
        exists|raw: SyncSnapshot| #[trigger] merged_listing(local, remote, raw) && normalized_from(raw, r),
{
    let ghost local0 = local;
    let ghost remote0 = remote;
    let drop = local.is_bootstrap_seed() && remote.has_records();
    let base = if drop {
        SyncSnapshot::default()
    } else {
        local
    };
    proof {
        if drop {
            assert(base.workspaces@ =~= Seq::<Workspace>::empty());
            assert(base.priorities@ =~= Seq::<Priority>::empty());
            assert(base.tasks@ =~= Seq::<Task>::empty());
            assert(base.task_blocks@ =~= Seq::<TaskBlock>::empty());
            assert(base.work_sessions@ =~= Seq::<WorkSession>::empty());
        }
    }
    let mut merged = SyncSnapshot {
        workspaces: merge_by_id(base.workspaces, remote.workspaces),
        priorities: merge_by_id(base.priorities, remote.priorities),
        tasks: merge_by_id(base.tasks, remote.tasks),
        task_blocks: merge_by_id(base.task_blocks, remote.task_blocks),
        work_sessions: merge_by_id(base.work_sessions, remote.work_sessions),
    };
    let ghost raw = merged;
    proof {
        assert(merged_listing(local0, remote0, raw));
    }
    normalize_snapshot(&mut merged);
    merged
}

/// The snapshot's records can be stored: names, titles and block reasons are
/// not blank, versions are positive, estimates are not negative, and a task
/// has a completion time exactly when it is completed.
pub open spec fn valid_snapshot(s: SyncSnapshot) -> bool {
    &&& forall|i: int|
        0 <= i < s.workspaces@.len() ==> !blank((#[trigger] s.workspaces@[i]).name@) && s.workspaces@[i].version > 0
    &&& forall|i: int|
        0 <= i < s.priorities@.len() ==> !blank((#[trigger] s.priorities@[i]).name@) && s.priorities@[i].version > 0
    &&& forall|i: int|
        0 <= i < s.tasks@.len() ==> {
            let t = #[trigger] s.tasks@[i];
            &&& !blank(t.title@)
            &&& t.version > 0
            &&& (t.estimated_active_minutes matches Some(m) ==> m >= 0)
            &&& (t.status == TaskStatus::Completed <==> t.completed_at is Some)
        }
    &&& forall|i: int|
        0 <= i < s.task_blocks@.len() ==> !blank((#[trigger] s.task_blocks@[i]).reason@) && s.task_blocks@[i].version > 0
}

/// Refuses a snapshot whose records cannot be stored.
pub fn ensure_valid_snapshot(snapshot: &SyncSnapshot) -> (r: Result<()>)
    ensures
        r is Ok <==> valid_snapshot(*snapshot),
        r matches Err(e) ==> e is InvalidInput,
{
    let mut i: usize = 0;
    while i < snapshot.workspaces.len()
        invariant
            i <= snapshot.workspaces@.len(),
            forall|k: int|
                0 <= k < i ==> !blank((#[trigger] snapshot.workspaces@[k]).name@) && snapshot.workspaces@[k].version > 0,
        decreases snapshot.workspaces@.len() - i,
    {
        if is_blank(snapshot.workspaces[i].name.as_str()) || snapshot.workspaces[i].version <= 0 {
            return Err(CoreError::InvalidInput(String::from_str("同步的工作区数据无效")));
        }
        i = i + 1;
    }
    let mut i: usize = 0;
    while i < snapshot.priorities.len()
        invariant
            i <= snapshot.priorities@.len(),
            forall|k: int|
                0 <= k < snapshot.workspaces@.len() ==> !blank((#[trigger] snapshot.workspaces@[k]).name@)
                    && snapshot.workspaces@[k].version > 0,
            forall|k: int|
                0 <= k < i ==> !blank((#[trigger] snapshot.priorities@[k]).name@) && snapshot.priorities@[k].version > 0,
        decreases snapshot.priorities@.len() - i,
    {
        if is_blank(snapshot.priorities[i].name.as_str()) || snapshot.priorities[i].version <= 0 {
            return Err(CoreError::InvalidInput(String::from_str("同步的分级数据无效")));
        }
        i = i + 1;
    }
    let mut i: usize = 0;
    while i < snapshot.tasks.len()
        invariant
            i <= snapshot.tasks@.len(),
            forall|k: int|
                0 <= k < snapshot.workspaces@.len() ==> !blank((#[trigger] snapshot.workspaces@[k]).name@)
                    && snapshot.workspaces@[k].version > 0,
            forall|k: int|
                0 <= k < snapshot.priorities@.len() ==> !blank((#[trigger] snapshot.priorities@[k]).name@)
                    && snapshot.priorities@[k].version > 0,
            forall|k: int|
                0 <= k < i ==> {
                    let t = #[trigger] snapshot.tasks@[k];
                    &&& !blank(t.title@)
                    &&& t.version > 0
                    &&& (t.estimated_active_minutes matches Some(m) ==> m >= 0)
                    &&& (t.status == TaskStatus::Completed <==> t.completed_at is Some)
                },
        decreases snapshot.tasks@.len() - i,
    {
        let t = &snapshot.tasks[i];
        let negative = match t.estimated_active_minutes {
            Some(m) => m < 0,
            None => false,
        };
        if is_blank(t.title.as_str()) || t.version <= 0 || negative {
            return Err(CoreError::InvalidInput(String::from_str("同步的任务数据无效")));
        }
        if t.status == TaskStatus::Completed && t.completed_at.is_none() {
            return Err(CoreError::InvalidInput(String::from_str("同步的已完成任务缺少完成时间")));
        }
        if t.status != TaskStatus::Completed && t.completed_at.is_some() {
            return Err(CoreError::InvalidInput(String::from_str("同步的未完成任务不能有完成时间")));
        }
        i = i + 1;
    }
    let mut i: usize = 0;
    while i < snapshot.task_blocks.len()
        invariant
            i <= snapshot.task_blocks@.len(),
            forall|k: int|
                0 <= k < snapshot.workspaces@.len() ==> !blank((#[trigger] snapshot.workspaces@[k]).name@)
                    && snapshot.workspaces@[k].version > 0,
            forall|k: int|
                0 <= k < snapshot.priorities@.len() ==> !blank((#[trigger] snapshot.priorities@[k]).name@)
                    && snapshot.priorities@[k].version > 0,
            forall|k: int|
                0 <= k < snapshot.tasks@.len() ==> {
                    let t = #[trigger] snapshot.tasks@[k];
                    &&& !blank(t.title@)
                    &&& t.version > 0
                    &&& (t.estimated_active_minutes matches Some(m) ==> m >= 0)
                    &&& (t.status == TaskStatus::Completed <==> t.completed_at is Some)
                },
            forall|k: int|
                0 <= k < i ==> !blank((#[trigger] snapshot.task_blocks@[k]).reason@) && snapshot.task_blocks@[k].version > 0,
        decreases snapshot.task_blocks@.len() - i,
    {
        if is_blank(snapshot.task_blocks[i].reason.as_str()) || snapshot.task_blocks[i].version <= 0 {
            return Err(CoreError::InvalidInput(String::from_str("同步的阻塞数据无效")));
        }
        i = i + 1;
    }
    Ok(())
}

pub(crate) proof fn lemma_keyed<T: SyncRecord>(rows: Seq<T>)
    ensures
        forall|id: Seq<char>|
            #[trigger] keyed(rows).contains_key(id) <==> exists|i: int| 0 <= i < rows.len() && rows[i].record_id() == id,
        forall|id: Seq<char>|
            #[trigger] keyed(rows).contains_key(id) ==> keyed(rows)[id].record_id() == id && rows.contains(keyed(rows)[id]),
        distinct_ids(rows) ==> forall|i: int| 0 <= i < rows.len() ==> keyed(rows)[(#[trigger] rows[i]).record_id()] == rows[i],
    decreases rows.len(),
{
    if rows.len() > 0 {
        let init = rows.drop_last();
        let x = rows.last();
        lemma_keyed(init);
        assert(keyed(rows) == keyed(init).insert(x.record_id(), x));
        assert forall|id: Seq<char>|
            #[trigger] keyed(rows).contains_key(id) <==> exists|i: int| 0 <= i < rows.len() && rows[i].record_id() == id by {
            if keyed(rows).contains_key(id) && id != x.record_id() {
                assert(keyed(init).contains_key(id));
                let i = choose|i: int| 0 <= i < init.len() && init[i].record_id() == id;
                assert(rows[i] == init[i]);
            }
            if exists|i: int| 0 <= i < rows.len() && rows[i].record_id() == id {
                let i = choose|i: int| 0 <= i < rows.len() && rows[i].record_id() == id;
                if i < init.len() {
                    assert(init[i] == rows[i]);
                }
            }
        }
        assert forall|id: Seq<char>| #[trigger] keyed(rows).contains_key(id) implies keyed(rows)[id].record_id() == id
            && rows.contains(keyed(rows)[id]) by {
            if id == x.record_id() {
                assert(rows[rows.len() - 1] == x);
            } else {
                let v = keyed(init)[id];
                assert(init.contains(v));
                let m = choose|m: int| 0 <= m < init.len() && init[m] == v;
                assert(rows[m] == init[m]);
            }
        }
        if distinct_ids(rows) {
            assert forall|i: int| 0 <= i < rows.len() implies keyed(rows)[(#[trigger] rows[i]).record_id()] == rows[i] by {
                if i < init.len() {
                    assert(rows[i] == init[i]);
                    assert(distinct_ids(init));
                    assert(rows[i].record_id() != x.record_id());
                }
            }
        }
    }
}

/// A merge keeps every identifier of either side and no other; the record
/// kept under an identifier carries it and is one of the copies.
pub proof fn lemma_merge_identifiers<T: SyncRecord>(local: Seq<T>, remote: Seq<T>)
    ensures
        forall|id: Seq<char>|
            #[trigger] merged_map(local, remote).contains_key(id) <==> (exists|i: int|
                0 <= i < local.len() && local[i].record_id() == id) || (exists|j: int|
                0 <= j < remote.len() && remote[j].record_id() == id),
        forall|id: Seq<char>|
            #[trigger] merged_map(local, remote).contains_key(id) ==> merged_map(local, remote)[id].record_id() == id
                && (local.contains(merged_map(local, remote)[id]) || remote.contains(merged_map(local, remote)[id])),
    decreases remote.len(),
{
    if remote.len() == 0 {
        lemma_keyed(local);
    } else {
        let init = remote.drop_last();
        let y = remote.last();
        lemma_merge_identifiers(local, init);
        let held = merged_map(local, init);
        let out = merged_map(local, remote);
        assert forall|id: Seq<char>|
            #[trigger] out.contains_key(id) <==> (exists|i: int| 0 <= i < local.len() && local[i].record_id() == id)
                || (exists|j: int| 0 <= j < remote.len() && remote[j].record_id() == id) by {
            if exists|j: int| 0 <= j < remote.len() && remote[j].record_id() == id {
                let j = choose|j: int| 0 <= j < remote.len() && remote[j].record_id() == id;
                if j < init.len() {
                    assert(init[j] == remote[j]);
                }
            }
            if out.contains_key(id) && id != y.record_id() {
                assert(held.contains_key(id));
                if exists|j: int| 0 <= j < init.len() && init[j].record_id() == id {
                    let j = choose|j: int| 0 <= j < init.len() && init[j].record_id() == id;
                    assert(remote[j] == init[j]);
                }
            }
            if id == y.record_id() {
                assert(remote[remote.len() - 1].record_id() == id);
            }
        }
        assert forall|id: Seq<char>| #[trigger] out.contains_key(id) implies out[id].record_id() == id
            && (local.contains(out[id]) || remote.contains(out[id])) by {
            if out[id] == y && held.insert(y.record_id(), y) == out && id == y.record_id() {
                assert(remote[remote.len() - 1] == y);
            } else {
                assert(held.contains_key(id));
                assert(out[id] == held[id]);
                if init.contains(held[id]) {
                    let m = choose|m: int| 0 <= m < init.len() && init[m] == held[id];
                    assert(remote[m] == init[m]);
                }
            }
        }
    }
}

/// Newer wins: what a merge keeps under an identifier is at least as new as
/// every remote copy, and, when the local side holds each identifier once, as
/// every local copy.
pub proof fn lemma_merge_newest<T: SyncRecord>(local: Seq<T>, remote: Seq<T>, x: T)
    requires
        distinct_ids(local),
        local.contains(x) || remote.contains(x),
    ensures
        merged_map(local, remote).contains_key(x.record_id()),
        !stamp_newer(x.record_stamp(), merged_map(local, remote)[x.record_id()].record_stamp()),
    decreases remote.len(),
{
    if remote.len() == 0 {
        lemma_keyed(local);
        let i = choose|i: int| 0 <= i < local.len() && local[i] == x;
        assert(keyed(local)[local[i].record_id()] == local[i]);
    } else {
        let init = remote.drop_last();
        let y = remote.last();
        let held = merged_map(local, init);
        if x == y {
            if held.contains_key(y.record_id()) && !stamp_newer(y.record_stamp(), held[y.record_id()].record_stamp()) {
            } else {
            }
        } else {
            if remote.contains(x) {
                let j = choose|j: int| 0 <= j < remote.len() && remote[j] == x;
                assert(j < init.len());
                assert(init[j] == x);
            }
            lemma_merge_newest(local, init, x);
        }
    }
}

/// After normalization no record runs for a deleted or completed task.
pub proof fn lemma_normalized_finished<T: SyncActivity>(rows: Seq<T>, tasks: Seq<Task>)
    ensures
        forall|i: int|
            0 <= i < rows.len() && (#[trigger] resolved(close_finished(rows, tasks))[i]).is_open() ==> match task_named(
                tasks,
                rows[i].owner(),
            ) {
                Some(t) => !finished(t),
                None => true,
            },
{
    let c = close_finished(rows, tasks);
    assert forall|i: int| 0 <= i < rows.len() && (#[trigger] resolved(c)[i]).is_open() implies match task_named(
        tasks,
        rows[i].owner(),
    ) {
        Some(t) => !finished(t),
        None => true,
    } by {
        if c[i].is_open() && !leads(c, i, c[i].owner()) {
            c[i].lemma_closed(c[leader(c, c[i].owner())].opened());
        }
        assert(resolved(c)[i] == c[i]);
        match task_named(tasks, rows[i].owner()) {
            Some(t) => {
                if rows[i].is_open() && finished(t) {
                    rows[i].lemma_closed(finish_time(t));
                }
            },
            None => {},
        }
    }
}

/// No two open records of `rows` belong to one task.
pub open spec fn one_open_per_owner<T: SyncActivity>(rows: Seq<T>) -> bool {
    forall|i: int, j: int|
        0 <= i < j < rows.len() && rows[i].is_open() && rows[j].is_open() ==> rows[i].owner() != rows[j].owner()
}

/// After resolution no task has two open records.
pub proof fn lemma_resolved_one_open<T: SyncActivity>(rows: Seq<T>)
    ensures
        one_open_per_owner(resolved(rows)),
{
    let r = resolved(rows);
    assert forall|i: int, j: int|
        0 <= i < j < r.len() && r[i].is_open() && r[j].is_open() implies r[i].owner() != r[j].owner() by {
        if rows[i].is_open() && !leads(rows, i, rows[i].owner()) {
            rows[i].lemma_closed(rows[leader(rows, rows[i].owner())].opened());
        }
        if rows[j].is_open() && !leads(rows, j, rows[j].owner()) {
            rows[j].lemma_closed(rows[leader(rows, rows[j].owner())].opened());
        }
        assert(r[i] == rows[i] && r[j] == rows[j]);
        if rows[i].owner() == rows[j].owner() {
            lemma_outranks_order(rows, i, j, j);
            if outranks(rows, i, j) {
                assert(!leads(rows, j, rows[j].owner()));
            } else {
                assert(!leads(rows, i, rows[i].owner()));
            }
        }
    }
}

pub(crate) proof fn lemma_last_named_unique(tasks: Seq<Task>, id: Seq<char>, p: int, q: int)
    requires
        last_named(tasks, id, p),
        last_named(tasks, id, q),
    ensures
        p == q,
{
}

proof fn lemma_task_named_flagged(tasks: Seq<Task>, blocks: Seq<TaskBlock>, id: Seq<char>)
    ensures
        match (task_named(flagged(tasks, blocks), id), task_named(tasks, id)) {
            (Some(a), Some(b)) => finished(a) == finished(b) && finish_time(a) == finish_time(b),
            (None, None) => true,
            _ => false,
        },
{
    let f = flagged(tasks, blocks);
    assert forall|p: int| last_named(f, id, p) <==> last_named(tasks, id, p) by {
        if 0 <= p < tasks.len() {
            assert(f[p].id == tasks[p].id);
            assert forall|q: int| p < q < tasks.len() implies (f[q].id@ != id <==> tasks[q].id@ != id) by {
                assert(f[q].id == tasks[q].id);
            }
        }
    }
    if exists|p: int| last_named(tasks, id, p) {
        let p = choose|p: int| last_named(tasks, id, p);
        let q = choose|q: int| last_named(f, id, q);
        assert(last_named(f, id, p));
        lemma_last_named_unique(f, id, p, q);
    }
}

pub(crate) proof fn lemma_owner_kept<T: SyncActivity>(rows: Seq<T>, tasks: Seq<Task>, i: int)
    requires
        0 <= i < rows.len(),
    ensures
        resolved(close_finished(rows, tasks))[i].owner() == rows[i].owner(),
{
    let c = close_finished(rows, tasks);
    match task_named(tasks, rows[i].owner()) {
        Some(t) => {
            if rows[i].is_open() && finished(t) {
                rows[i].lemma_closed(finish_time(t));
            }
        },
        None => {},
    }
    if c[i].is_open() && !leads(c, i, c[i].owner()) {
        c[i].lemma_closed(c[leader(c, c[i].owner())].opened());
    }
}

/// No record runs for a deleted or completed task.
pub open spec fn none_run_for_finished<T: SyncActivity>(rows: Seq<T>, tasks: Seq<Task>) -> bool {
    forall|i: int|
        0 <= i < rows.len() && (#[trigger] rows[i]).is_open() ==> match task_named(tasks, rows[i].owner()) {
            Some(t) => !finished(t),
            None => true,
        }
}

proof fn lemma_close_finished_noop<T: SyncActivity>(rows: Seq<T>, tasks: Seq<Task>)
    requires
        none_run_for_finished(rows, tasks),
    ensures
        close_finished(rows, tasks) == rows,
{
    assert(close_finished(rows, tasks) =~= rows);
}

proof fn lemma_resolved_noop<T: SyncActivity>(rows: Seq<T>)
    requires
        one_open_per_owner(rows),
    ensures
        resolved(rows) == rows,
{
    assert forall|i: int| 0 <= i < rows.len() && rows[i].is_open() implies leads(rows, i, rows[i].owner()) by {
        assert forall|j: int| !#[trigger] outranks(rows, j, i) by {
            if outranks(rows, j, i) {
                if j < i {
                    assert(rows[j].owner() != rows[i].owner());
                } else {
                    assert(rows[i].owner() != rows[j].owner());
                }
            }
        }
    }
    assert(resolved(rows) =~= rows);
}

/// Normalizing a normalized snapshot changes nothing: storing a merged
/// snapshot stores the records the merge chose.
pub proof fn lemma_normalize_idempotent(s: SyncSnapshot, n: SyncSnapshot, m: SyncSnapshot)
    requires
        normalized_from(s, n),
        normalized_from(n, m),
    ensures
        m.workspaces@ == n.workspaces@,
        m.priorities@ == n.priorities@,
        m.tasks@ == n.tasks@,
        m.task_blocks@ == n.task_blocks@,
        m.work_sessions@ == n.work_sessions@,
{
    let cb = close_finished(s.task_blocks@, s.tasks@);
    let cs = close_finished(s.work_sessions@, s.tasks@);
    lemma_normalized_finished(s.task_blocks@, s.tasks@);
    lemma_normalized_finished(s.work_sessions@, s.tasks@);
    lemma_resolved_one_open(cb);
    lemma_resolved_one_open(cs);
    assert(none_run_for_finished(n.task_blocks@, n.tasks@)) by {
        assert forall|i: int| 0 <= i < n.task_blocks@.len() && (#[trigger] n.task_blocks@[i]).is_open() implies match task_named(
            n.tasks@,
            n.task_blocks@[i].owner(),
        ) {
            Some(t) => !finished(t),
            None => true,
        } by {
            lemma_task_named_flagged(s.tasks@, n.task_blocks@, n.task_blocks@[i].owner());
            assert(n.task_blocks@[i].owner() == s.task_blocks@[i].owner()) by {
                lemma_owner_kept(s.task_blocks@, s.tasks@, i);
            }
        }
    }
    assert(none_run_for_finished(n.work_sessions@, n.tasks@)) by {
        assert forall|i: int| 0 <= i < n.work_sessions@.len() && (#[trigger] n.work_sessions@[i]).is_open() implies match task_named(
            n.tasks@,
            n.work_sessions@[i].owner(),
        ) {
            Some(t) => !finished(t),
            None => true,
        } by {
            lemma_task_named_flagged(s.tasks@, n.task_blocks@, n.work_sessions@[i].owner());
            assert(n.work_sessions@[i].owner() == s.work_sessions@[i].owner()) by {
                lemma_owner_kept(s.work_sessions@, s.tasks@, i);
            }
        }
    }
    lemma_close_finished_noop(n.task_blocks@, n.tasks@);
    lemma_close_finished_noop(n.work_sessions@, n.tasks@);
    lemma_resolved_noop(n.task_blocks@);
    lemma_resolved_noop(n.work_sessions@);
    assert(m.task_blocks@ == n.task_blocks@);
    assert(flagged(n.tasks@, n.task_blocks@) =~= n.tasks@);
}

} // verus!
