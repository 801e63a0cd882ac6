//! Reordering the ordinary workspaces.

use vstd::prelude::*;
use crate::domain::Workspace;
use crate::error::{CoreError, Result};
use crate::ordering::{key_lt, sorted_by_key, Keyed};
use crate::store::{distinct_workspace_ids, done_id, lemma_refs_carried, refs_carried, same_task_refs, task_refs_within, TaskStore};
use crate::text::str_eq;
use crate::workspaces::{only_done_builtin, only_groups_changed};

verus! {

/// The live workspace rows that may be reordered.
pub open spec fn movable(w: Workspace) -> bool {
    w.deleted_at is None && !w.builtin
}

/// `ids[p]` already appeared before position `p`.
pub open spec fn repeated_before(ids: Seq<String>, p: int) -> bool {
    exists|q: int| 0 <= q < p && (#[trigger] ids[q])@ == ids[p]@
}

/// Some id in `ids` is `id`.
pub open spec fn listed(ids: Seq<String>, id: Seq<char>) -> bool {
    exists|q: int| 0 <= q < ids.len() && (#[trigger] ids[q])@ == id
}

/// Whether `ids[p]` already appeared before position `p`.
fn repeats(ids: &[String], p: usize) -> (r: bool)
    requires
        p < ids@.len(),
    ensures
        r == repeated_before(ids@, p as int),
{
    let mut q: usize = 0;
    while q < p
        invariant
            q <= p,
            p < ids@.len(),
            forall|m: int| 0 <= m < q ==> ids@[m]@ != ids@[p as int]@,
        decreases p - q,
    {
        if str_eq(ids[q].as_str(), ids[p].as_str()) {
            return true;
        }
        q = q + 1;
    }
    false
}

/// What reordering the workspaces does.
pub open spec fn reorder_workspaces_result(pre: TaskStore, post: TaskStore, ordered_ids: &[String], expected_versions: &[i64], updated_at: &str, r: Result<Vec<Workspace>>) -> bool {
    &&& (({
        let ids = ordered_ids@;
        let vers = expected_versions@;
        if ids.len() != vers.len() {
            r matches Err(CoreError::InvalidInput(_))
        } else if exists|f: int| 0 <= f < ids.len() && !pre.reorder_entry_ok(ids, vers, f) {
            forall|f: int|
                0 <= f < ids.len() && !pre.reorder_entry_ok(ids, vers, f) && (forall|p: int|
                    0 <= p < f ==> pre.reorder_entry_ok(ids, vers, p)) ==> (r matches Err(e)
                    && pre.reorder_entry_error(ids, f, e))
        } else if ids.len() != pre.movable_count() {
            r matches Err(CoreError::InvalidInput(_))
        } else if exists|p: int| 0 <= p < ids.len() && (#[trigger] pre.live_workspace(ids[p]@))->Some_0.version == i64::MAX {
            r matches Err(CoreError::Database(_))
        } else {
            r is Ok
        }
    }))
    &&& (match r {
        Ok(list) => {
            let ids = ordered_ids@;
            let o = pre.workspace_rows();
            let n = post.workspace_rows();
            &&& n.len() == o.len()
            &&& forall|k: int| 0 <= k < o.len() && !listed(ids, o[k].id@) ==> #[trigger] n[k] == o[k]
            &&& forall|q: int, k: int|
                0 <= q < ids.len() && 0 <= k < o.len() && o[k].id@ == (#[trigger] ids[q])@ ==> (#[trigger] n[k]).updated_at@
                    == updated_at@ && n[k] == (Workspace {
                    sort_order: q as i64,
                    updated_at: n[k].updated_at,
                    version: (o[k].version + 1) as i64,
                    ..o[k]
                })
            &&& post.priority_rows() == pre.priority_rows()
            &&& only_groups_changed(pre, post)
            &&& list@.to_multiset() == post.listed_workspaces(false).to_multiset()
            &&& sorted_by_key(list@)
        },
        Err(_) => post == pre,
    })
}

impl TaskStore {
    /// The live workspace with identifier `id`, if any.
    pub open spec fn live_workspace(&self, id: Seq<char>) -> Option<Workspace> {
        if self.has_live_workspace(id) {
            Some(self.workspace_rows()[choose|i: int| self.workspace_at(id, i) && self.workspace_rows()[i].deleted_at is None])
        } else {
            None
        }
    }

    /// Entry `p` of a reordering request names a movable workspace at its
    /// expected version, for the first time.
    pub open spec fn reorder_entry_ok(&self, ids: Seq<String>, versions: Seq<i64>, p: int) -> bool {
        &&& !repeated_before(ids, p)
        &&& self.live_workspace(ids[p]@) matches Some(w)
        &&& !w.builtin
        &&& w.version == versions[p]
    }

    /// The error a reordering request gets for its first bad entry `p`.
    pub open spec fn reorder_entry_error(&self, ids: Seq<String>, p: int, e: CoreError) -> bool {
        if repeated_before(ids, p) {
            e is InvalidInput
        } else if self.live_workspace(ids[p]@) is None {
            e matches CoreError::WorkspaceNotFound(x) && x@ == ids[p]@
        } else if self.live_workspace(ids[p]@)->Some_0.builtin {
            e is InvalidState
        } else {
            e is VersionConflict
        }
    }

    /// A live workspace has identifier `id` and version `version`.
    pub open spec fn at_version(&self, id: Seq<char>, version: i64) -> bool {
        self.live_workspace(id) matches Some(w) && w.version == version
    }

    /// How many workspaces may be reordered.
    pub open spec fn movable_count(&self) -> nat {
        self.workspace_rows().filter(|w: Workspace| movable(w)).len()
    }

    proof fn lemma_live_workspace(&self, id: Seq<char>, i: int)
        requires
            self.wf(),
            self.workspace_at(id, i),
            self.workspace_rows()[i].deleted_at is None,
        ensures
            self.live_workspace(id) == Some(self.workspace_rows()[i]),
    {
        let j = choose|j: int| self.workspace_at(id, j) && self.workspace_rows()[j].deleted_at is None;
        assert(j == i);
    }

    fn count_movable(&self) -> (r: usize)
        ensures
            r == self.movable_count(),
    {
        let ghost pred = |w: Workspace| movable(w);
        let mut count: usize = 0;
        let mut k: usize = 0;
        while k < self.workspaces.len()
            invariant
                k <= self.workspace_rows().len(),
                pred == (|w: Workspace| movable(w)),
                count == self.workspace_rows().take(k as int).filter(pred).len(),
                count <= k,
            decreases self.workspace_rows().len() - k,
        {
            proof {
                reveal(Seq::filter);
                assert(self.workspace_rows().take(k + 1).drop_last() =~= self.workspace_rows().take(k as int));
            }
            if self.workspaces[k].deleted_at.is_none() && !self.workspaces[k].builtin {
                count = count + 1;
            }
            k = k + 1;
        }
        proof {
            assert(self.workspace_rows().take(self.workspace_rows().len() as int) =~= self.workspace_rows());
        }
        count
    }

    /// Gives the ordinary workspaces the order of `ordered_ids`: each gets its
    /// position as sort order. The request must name every ordinary live
    /// workspace exactly once, at its expected version; the built-in
    /// workspace cannot take part. Returns the live workspaces in their new order.
    pub fn reorder_workspaces(&mut self, ordered_ids: &[String], expected_versions: &[i64], updated_at: &str) -> (r: Result<Vec<Workspace>>)
        requires
            old(self).wf(),
        ensures
            final(self).wf(),
            reorder_workspaces_result(*old(self), *final(self), ordered_ids, expected_versions, updated_at, r),
    {
        if ordered_ids.len() != expected_versions.len() {
            return Err(CoreError::InvalidInput(String::from_str("工作区排序的 ID 与版本数量不一致")));
        }
        let ghost ids = ordered_ids@;
        let ghost vers = expected_versions@;
        let n = ordered_ids.len();
        let mut positions: Vec<usize> = Vec::new();
        let mut p: usize = 0;
        while p < n
            invariant
                n == ids.len(),
                ids == ordered_ids@,
                vers == expected_versions@,
                ids.len() == vers.len(),
                p <= n,
                *self == *old(self),
                self.wf(),
                positions@.len() == p,
                forall|q: int| 0 <= q < p ==> self.reorder_entry_ok(ids, vers, q),
                forall|q: int| 0 <= q < p ==> {
                    let j = #[trigger] positions@[q] as int;
                    &&& self.workspace_at(ids[q]@, j)
                    &&& self.workspace_rows()[j].deleted_at is None
                },
            decreases n - p,
        {
            if repeats(ordered_ids, p) {
                proof {
                    assert(!self.reorder_entry_ok(ids, vers, p as int));
                    assert forall|f: int|
                        0 <= f < ids.len() && !self.reorder_entry_ok(ids, vers, f) && (forall|m: int|
                            0 <= m < f ==> self.reorder_entry_ok(ids, vers, m)) implies f == p by {
                        if f > p {
                            assert(self.reorder_entry_ok(ids, vers, p as int));
                        }
                    }
                }
                return Err(CoreError::InvalidInput(String::from_str("工作区排序包含重复 ID")));
            }
            proof {
                assert(!repeated_before(ids, p as int));
            }
            let i = match self.find_workspace(ordered_ids[p].as_str()) {
                Some(i) => i,
                None => {
                    proof {
                        assert(self.live_workspace(ids[p as int]@) is None);
                        assert(!self.reorder_entry_ok(ids, vers, p as int));
                        assert forall|f: int|
                            0 <= f < ids.len() && !self.reorder_entry_ok(ids, vers, f) && (forall|m: int|
                                0 <= m < f ==> self.reorder_entry_ok(ids, vers, m)) implies f == p by {
                            if f > p {
                                assert(self.reorder_entry_ok(ids, vers, p as int));
                            }
                        }
                    }
                    return Err(CoreError::WorkspaceNotFound(ordered_ids[p].clone()));
                },
            };
            let ghost is_live = self.workspaces[i as int].deleted_at is None;
            proof {
                if is_live {
                    self.lemma_live_workspace(ids[p as int]@, i as int);
                } else {
                    assert(!self.has_live_workspace(ids[p as int]@));
                }
                assert forall|f: int|
                    0 <= f < ids.len() && !self.reorder_entry_ok(ids, vers, f) && (forall|m: int|
                        0 <= m < f ==> self.reorder_entry_ok(ids, vers, m)) && !self.reorder_entry_ok(ids, vers, p as int) implies f == p by {
                    if f > p {
                        assert(self.reorder_entry_ok(ids, vers, p as int));
                    }
                }
            }
            if self.workspaces[i].deleted_at.is_some() {
                return Err(CoreError::WorkspaceNotFound(ordered_ids[p].clone()));
            }
            if self.workspaces[i].builtin {
                return Err(CoreError::InvalidState(String::from_str("内置工作区不能参与排序")));
            }
            if self.workspaces[i].version != expected_versions[p] {
                return Err(CoreError::VersionConflict);
            }
            positions.push(i);
            p = p + 1;
        }
        if n != self.count_movable() {
            return Err(CoreError::InvalidInput(String::from_str("工作区排序必须包含所有普通工作区")));
        }
        let mut p: usize = 0;
        while p < n
            invariant
                n == ids.len(),
                ids == ordered_ids@,
                vers == expected_versions@,
                vers.len() == n,
                n == old(self).movable_count(),
                p <= n,
                *self == *old(self),
                self.wf(),
                positions@.len() == n,
                forall|q: int| 0 <= q < n ==> self.reorder_entry_ok(ids, vers, q),
                forall|q: int| 0 <= q < n ==> {
                    let j = #[trigger] positions@[q] as int;
                    &&& self.workspace_at(ids[q]@, j)
                    &&& self.workspace_rows()[j].deleted_at is None
                },
                forall|q: int| 0 <= q < p ==> (#[trigger] self.live_workspace(ids[q]@))->Some_0.version != i64::MAX,
            decreases n - p,
        {
            let j = positions[p];
            proof {
                self.lemma_live_workspace(ids[p as int]@, j as int);
            }
            if self.workspaces[j].version == i64::MAX {
                proof {
                    assert(old(self).live_workspace(ids[p as int]@)->Some_0.version == i64::MAX);
                    assert(exists|q: int| 0 <= q < ids.len() && (#[trigger] old(self).live_workspace(ids[q]@))->Some_0.version == i64::MAX);
                    assert(ids.len() == old(self).movable_count());
                    assert forall|f: int| 0 <= f < ids.len() implies old(self).reorder_entry_ok(ids, vers, f) by {
                        assert(self.reorder_entry_ok(ids, vers, f));
                    }
                }
                return Err(CoreError::Database(String::from_str("版本号超出范围")));
            }
            p = p + 1;
        }
        let stamp = updated_at.to_owned();
        let ghost start = self.workspace_rows();
        proof {
            assert forall|q: int| 0 <= q < n implies !repeated_before(ids, q) by {
                assert(self.reorder_entry_ok(ids, vers, q));
            }
            assert forall|q: int| 0 <= q < n implies {
                let j = #[trigger] positions@[q] as int;
                &&& old(self).workspace_at(ids[q]@, j)
                &&& start[j].deleted_at is None
                &&& start[j].version != i64::MAX
            } by {
                let j = positions@[q] as int;
                self.lemma_live_workspace(ids[q]@, j);
                assert(self.live_workspace(ids[q]@)->Some_0.version != i64::MAX);
            }
        }
        let mut p: usize = 0;
        while p < n
            invariant
                n == ids.len(),
                ids == ordered_ids@,
                p <= n,
                start == old(self).workspace_rows(),
                old(self).wf(),
                self.workspace_rows().len() == start.len(),
                only_groups_changed(*old(self), *self),
                self.priority_rows() == old(self).priority_rows(),
                positions@.len() == n,
                forall|q: int| 0 <= q < n ==> !repeated_before(ids, q),
                forall|q: int| 0 <= q < n ==> {
                    let j = #[trigger] positions@[q] as int;
                    &&& old(self).workspace_at(ids[q]@, j)
                    &&& start[j].deleted_at is None
                    &&& start[j].version != i64::MAX
                },
                forall|k: int| 0 <= k < start.len() ==> (#[trigger] self.workspace_rows()[k]).id == start[k].id,
                forall|k: int| 0 <= k < start.len() && !listed(ids.take(p as int), start[k].id@) ==> #[trigger] self.workspace_rows()[k] == start[k],
                forall|q: int, k: int|
                    0 <= q < p && 0 <= k < start.len() && start[k].id@ == (#[trigger] ids[q])@ ==> #[trigger] self.workspace_rows()[k] == (Workspace {
                        sort_order: q as i64,
                        updated_at: stamp,
                        version: (start[k].version + 1) as i64,
                        ..start[k]
                    }),
            decreases n - p,
        {
            let j = positions[p];
            let w = self.workspaces[j].clone();
            proof {
                assert(w == start[j as int]) by {
                    if listed(ids.take(p as int), start[j as int].id@) {
                        let q = choose|q: int| 0 <= q < ids.take(p as int).len() && (#[trigger] ids.take(p as int)[q])@ == start[j as int].id@;
                        assert(ids[q]@ == ids[p as int]@);
                        assert(repeated_before(ids, p as int));
                    }
                }
            }
            let next = Workspace {
                sort_order: p as i64,
                updated_at: stamp.clone(),
                version: w.version + 1,
                ..w
            };
            self.workspaces.set(j, next);
            proof {
                let rows = self.workspace_rows();
                assert forall|k: int| 0 <= k < start.len() && !listed(ids.take(p + 1), start[k].id@) implies #[trigger] rows[k] == start[k] by {
                    if k == j {
                        assert(ids.take(p + 1)[p as int] == ids[p as int]);
                    } else {
                        if listed(ids.take(p as int), start[k].id@) {
                            let q = choose|q: int| 0 <= q < ids.take(p as int).len() && (#[trigger] ids.take(p as int)[q])@ == start[k].id@;
                            assert(ids.take(p + 1)[q] == ids.take(p as int)[q]);
                        }
                    }
                }
                assert forall|q: int, k: int|
                    0 <= q < p + 1 && 0 <= k < start.len() && start[k].id@ == (#[trigger] ids[q])@ implies #[trigger] rows[k] == (Workspace {
                        sort_order: q as i64,
                        updated_at: stamp,
                        version: (start[k].version + 1) as i64,
                        ..start[k]
                    }) by {
                    if q == p {
                        if k != j {
                            assert(old(self).workspace_at(ids[q]@, j as int));
                            if k < j {
                                assert(start[k].id@ != start[j as int].id@);
                            } else {
                                assert(start[j as int].id@ != start[k].id@);
                            }
                        }
                    } else {
                        if k == j {
                            assert(ids[q]@ == ids[p as int]@);
                            assert(repeated_before(ids, p as int));
                        }
                    }
                }
            }
            p = p + 1;
        }
        proof {
            assert(ids.take(n as int) =~= ids);
            let rows = self.workspace_rows();
            assert forall|a: int, b: int| 0 <= a < b < rows.len() implies rows[a].id@ != rows[b].id@ by {
                assert(rows[a].id == start[a].id && rows[b].id == start[b].id);
            }
            let pre = *old(self);
            assert forall|k: int| 0 <= k < self.task_rows().len() implies (k < pre.task_rows().len() && same_task_refs(
                pre.task_rows()[k],
                #[trigger] self.task_rows()[k],
            )) || task_refs_within(self.task_rows()[k], rows, self.priority_rows()) by {}
            assert(refs_carried(pre, *self));
            lemma_refs_carried(pre, *self);
        }
        self.list_workspaces(false)
    }
}

/// Reordering the workspaces keeps the workspace of completed tasks the only
/// built-in one.
pub proof fn lemma_reorder_keeps_builtin(
    pre: TaskStore,
    post: TaskStore,
    ordered_ids: &[String],
    expected_versions: &[i64],
    updated_at: &str,
    r: Result<Vec<Workspace>>,
)
    requires
        only_done_builtin(pre),
        reorder_workspaces_result(pre, post, ordered_ids, expected_versions, updated_at, r),
    ensures
        only_done_builtin(post),
{
    if r is Ok {
        let ids = ordered_ids@;
        let o = pre.workspace_rows();
        let n = post.workspace_rows();
        assert forall|k: int| 0 <= k < n.len() && (#[trigger] n[k]).builtin implies n[k].id@ == done_id() by {
            if listed(ids, o[k].id@) {
                let q = choose|q: int| 0 <= q < ids.len() && ids[q]@ == o[k].id@;
                assert(o[k].id@ == (ids[q])@);
                assert(n[k] == (Workspace {
                    sort_order: q as i64,
                    updated_at: n[k].updated_at,
                    version: (o[k].version + 1) as i64,
                    ..o[k]
                }));
            } else {
                assert(n[k] == o[k]);
            }
        }
    }
}

/// The identifiers of the workspaces among `rows` that may be reordered.
pub open spec fn movable_ids(rows: Seq<Workspace>) -> Set<Seq<char>> {
    Set::new(|id: Seq<char>| exists|k: int| 0 <= k < rows.len() && movable(rows[k]) && rows[k].id@ == id)
}

/// The texts of a list of identifiers.
pub open spec fn id_texts(ids: Seq<String>) -> Seq<Seq<char>> {
    ids.map_values(|s: String| s@)
}

proof fn lemma_movable_ids_len(rows: Seq<Workspace>)
    requires
        distinct_workspace_ids(rows),
    ensures
        movable_ids(rows).finite(),
        movable_ids(rows).len() == rows.filter(|w: Workspace| movable(w)).len(),
    decreases rows.len(),
{
    let pred = |w: Workspace| movable(w);
    if rows.len() == 0 {
        assert(movable_ids(rows) =~= Set::empty());
        assert(rows.filter(pred) =~= Seq::empty()) by {
            reveal(Seq::filter);
        }
    } else {
        let init = rows.drop_last();
        let x = rows.last();
        lemma_movable_ids_len(init);
        assert(rows.filter(pred) == if pred(x) { init.filter(pred).push(x) } else { init.filter(pred) }) by {
            reveal(Seq::filter);
            assert(rows.drop_last() == init);
        }
        assert(!movable_ids(init).contains(x.id@)) by {
            if movable_ids(init).contains(x.id@) {
                let k = choose|k: int| 0 <= k < init.len() && movable(init[k]) && init[k].id@ == x.id@;
                assert(rows[k] == init[k]);
                assert(rows[k].id@ != rows[rows.len() - 1].id@);
            }
        }
        if movable(x) {
            assert(movable_ids(rows) =~= movable_ids(init).insert(x.id@)) by {
                assert forall|id: Seq<char>| movable_ids(rows).contains(id) implies movable_ids(init).insert(x.id@).contains(id) by {
                    let k = choose|k: int| 0 <= k < rows.len() && movable(rows[k]) && rows[k].id@ == id;
                    if k < init.len() {
                        assert(init[k] == rows[k]);
                    }
                }
                assert forall|id: Seq<char>| movable_ids(init).insert(x.id@).contains(id) implies movable_ids(rows).contains(id) by {
                    if id == x.id@ {
                        assert(rows[rows.len() - 1] == x);
                    } else {
                        let k = choose|k: int| 0 <= k < init.len() && movable(init[k]) && init[k].id@ == id;
                        assert(rows[k] == init[k]);
                    }
                }
            }
        } else {
            assert(movable_ids(rows) =~= movable_ids(init)) by {
                assert forall|id: Seq<char>| movable_ids(rows).contains(id) implies movable_ids(init).contains(id) by {
                    let k = choose|k: int| 0 <= k < rows.len() && movable(rows[k]) && rows[k].id@ == id;
                    if k < init.len() {
                        assert(init[k] == rows[k]);
                    }
                }
                assert forall|id: Seq<char>| movable_ids(init).contains(id) implies movable_ids(rows).contains(id) by {
                    let k = choose|k: int| 0 <= k < init.len() && movable(init[k]) && init[k].id@ == id;
                    assert(rows[k] == init[k]);
                }
            }
        }
    }
}

/// What a reordering request accepts: its entries are exactly the ordinary
/// live workspaces, each named once, each at the version it expects. The
/// entries all pass and their number is that of the ordinary live
/// workspaces exactly when the request names each ordinary live workspace
/// once, no other, at its current version.
pub proof fn lemma_reorder_accepts_exactly(store: TaskStore, ids: Seq<String>, versions: Seq<i64>)
    requires
        store.wf(),
        ids.len() == versions.len(),
    ensures
        ((forall|p: int| 0 <= p < ids.len() ==> store.reorder_entry_ok(ids, versions, p)) && ids.len()
            == store.movable_count()) <==> {
            &&& id_texts(ids).no_duplicates()
            &&& id_texts(ids).to_set() == movable_ids(store.workspace_rows())
            &&& forall|p: int|
                0 <= p < ids.len() ==> store.at_version(#[trigger] ids[p]@, versions[p])
        },
{
    let t = id_texts(ids);
    let rows = store.workspace_rows();
    lemma_movable_ids_len(rows);
    let all_ok = forall|p: int| 0 <= p < ids.len() ==> store.reorder_entry_ok(ids, versions, p);
    assert forall|p: int| 0 <= p < ids.len() && (#[trigger] store.live_workspace(ids[p]@)) is Some implies {
        let w = store.live_workspace(ids[p]@)->Some_0;
        w.id@ == ids[p]@ && w.deleted_at is None && rows.contains(w)
    } by {
        let i = choose|i: int| store.workspace_at(ids[p]@, i) && rows[i].deleted_at is None;
        assert(rows[i] == store.live_workspace(ids[p]@)->Some_0);
    }
    if all_ok && ids.len() == store.movable_count() {
        assert forall|a: int, b: int| 0 <= a < t.len() && 0 <= b < t.len() && a != b implies t[a] != t[b] by {
            assert(t[a] == ids[a]@ && t[b] == ids[b]@);
            if a < b {
                assert(store.reorder_entry_ok(ids, versions, b));
                assert(!repeated_before(ids, b));
            } else {
                assert(store.reorder_entry_ok(ids, versions, a));
                assert(!repeated_before(ids, a));
            }
        }
        t.unique_seq_to_set();
        assert(t.to_set().subset_of(movable_ids(rows))) by {
            assert forall|id: Seq<char>| t.to_set().contains(id) implies movable_ids(rows).contains(id) by {
                let p = choose|p: int| 0 <= p < t.len() && t[p] == id;
                assert(store.reorder_entry_ok(ids, versions, p));
                let w = store.live_workspace(ids[p]@)->Some_0;
                let k = choose|k: int| 0 <= k < rows.len() && rows[k] == w;
                assert(movable(rows[k]) && rows[k].id@ == id);
            }
        }
        assert(t.len() == ids.len());
        vstd::seq_lib::seq_to_set_is_finite(t);
        vstd::set_lib::lemma_subset_equality(t.to_set(), movable_ids(rows));
        assert forall|p: int| 0 <= p < ids.len() implies store.at_version(#[trigger] ids[p]@, versions[p]) by {
            assert(store.reorder_entry_ok(ids, versions, p));
        }
    }
    if t.no_duplicates() && t.to_set() == movable_ids(rows) && (forall|p: int|
        0 <= p < ids.len() ==> store.at_version(#[trigger] ids[p]@, versions[p])) {
        t.unique_seq_to_set();
        assert(t.len() == ids.len());
        assert forall|p: int| 0 <= p < ids.len() implies store.reorder_entry_ok(ids, versions, p) by {
            assert(!repeated_before(ids, p)) by {
                if repeated_before(ids, p) {
                    let q = choose|q: int| 0 <= q < p && (#[trigger] ids[q])@ == ids[p]@;
                    assert(t[q] == t[p]);
                }
            }
            assert(t.to_set().contains(t[p]));
            let k = choose|k: int| 0 <= k < rows.len() && movable(rows[k]) && rows[k].id@ == t[p];
            let w = store.live_workspace(ids[p]@)->Some_0;
            let j = choose|j: int| 0 <= j < rows.len() && rows[j] == w;
            if j != k {
                if j < k {
                    assert(rows[j].id@ != rows[k].id@);
                } else {
                    assert(rows[k].id@ != rows[j].id@);
                }
            }
        }
    }
}

proof fn lemma_reordered_row(
    pre: TaskStore,
    post: TaskStore,
    ordered_ids: &[String],
    expected_versions: &[i64],
    updated_at: &str,
    list: Vec<Workspace>,
    k: int,
    q: int,
)
    requires
        reorder_workspaces_result(pre, post, ordered_ids, expected_versions, updated_at, Ok(list)),
        0 <= k < post.workspace_rows().len(),
        0 <= q < ordered_ids@.len(),
        ordered_ids@[q]@ == post.workspace_rows()[k].id@,
    ensures
        post.workspace_rows()[k].sort_order == q as i64,
{
    let ids = ordered_ids@;
    let o = pre.workspace_rows();
    let n = post.workspace_rows();
    if !listed(ids, o[k].id@) {
        assert(n[k] == o[k]);
        assert(o[k].id@ == (ids[q])@);
        assert(false);
    }
    let q2 = choose|q2: int| 0 <= q2 < ids.len() && (#[trigger] ids[q2])@ == o[k].id@;
    assert(n[k] == (Workspace {
        sort_order: q2 as i64,
        updated_at: n[k].updated_at,
        version: (o[k].version + 1) as i64,
        ..o[k]
    }));
    assert(o[k].id@ == (ids[q])@);
}

proof fn lemma_list_rows(post: TaskStore, list: Seq<Workspace>)
    requires
        list.to_multiset() == post.listed_workspaces(false).to_multiset(),
    ensures
        forall|i: int| 0 <= i < list.len() ==> post.workspace_rows().contains(#[trigger] list[i]),
{
    broadcast use vstd::seq_lib::group_to_multiset_ensures;
    assert forall|i: int| 0 <= i < list.len() implies post.workspace_rows().contains(#[trigger] list[i]) by {
        assert(list.contains(list[i]));
        assert(post.listed_workspaces(false).to_multiset().count(list[i]) > 0);
        post.lemma_listed_workspace_stored(false, list[i]);
    }
}

/// After a reordering the listing names the reordered workspaces in the
/// order of the request, and the built-in workspace of completed tasks comes
/// after every other.
pub proof fn lemma_reorder_listing_order(
    pre: TaskStore,
    post: TaskStore,
    ordered_ids: &[String],
    expected_versions: &[i64],
    updated_at: &str,
    list: Vec<Workspace>,
)
    requires
        reorder_workspaces_result(pre, post, ordered_ids, expected_versions, updated_at, Ok(list)),
        ordered_ids@.len() <= i64::MAX,
    ensures
        forall|i: int, j: int, qi: int, qj: int|
            0 <= i < j < list@.len() && 0 <= qi < ordered_ids@.len() && 0 <= qj < ordered_ids@.len() && (
            #[trigger] ordered_ids@[qi])@ == (#[trigger] list@[i]).id@ && (#[trigger] ordered_ids@[qj])@
                == (#[trigger] list@[j]).id@ && list@[i].id@ != done_id() && list@[j].id@ != done_id() ==> qi <= qj,
        forall|i: int, j: int| 0 <= i < j < list@.len() ==> (#[trigger] list@[i]).id@ != done_id() || (
        #[trigger] list@[j]).id@ == done_id(),
{
    let ids = ordered_ids@;
    let n = post.workspace_rows();
    lemma_list_rows(post, list@);
    assert forall|i: int, j: int, qi: int, qj: int|
        0 <= i < j < list@.len() && 0 <= qi < ids.len() && 0 <= qj < ids.len() && (#[trigger] ids[qi])@ == (
        #[trigger] list@[i]).id@ && (#[trigger] ids[qj])@ == (#[trigger] list@[j]).id@ && list@[i].id@ != done_id()
            && list@[j].id@ != done_id() implies qi <= qj by {
        let ki = choose|k: int| 0 <= k < n.len() && n[k] == list@[i];
        let kj = choose|k: int| 0 <= k < n.len() && n[k] == list@[j];
        lemma_reordered_row(pre, post, ordered_ids, expected_versions, updated_at, list, ki, qi);
        lemma_reordered_row(pre, post, ordered_ids, expected_versions, updated_at, list, kj, qj);
        assert(!key_lt(list@[j].key(), list@[i].key()));
    }
    assert forall|i: int, j: int| 0 <= i < j < list@.len() implies (#[trigger] list@[i]).id@ != done_id() || (
    #[trigger] list@[j]).id@ == done_id() by {
        assert(!key_lt(list@[j].key(), list@[i].key()));
    }
}

} // verus!
