//! Saving a batch of changesets of the content-addressed graph.
//!
//! The changesets themselves can be written in any order. The index must
//! learn of a changeset only after it has learnt of its parents, so the
//! batch is put in an order in which parents come first. Parents that are
//! not part of the batch must be in the repository already.

use crate::bonsai::BonsaiChangeset;
use crate::errors::ErrorKind;
use crate::ids::ChangesetId;
use crate::planner::{
    distinct_ids, is_commit_id, is_plan_order, order_parents_first, parent_graph,
};
use crate::topo_sort::{contains_id, has_cycle};
use vstd::prelude::*;

verus! {

/// Whether one of `batch` lists `x` as a parent.
pub open spec fn is_batch_parent(batch: Seq<BonsaiChangeset>, x: ChangesetId) -> bool {
    exists|i: int, j: int|
        0 <= i < batch.len() && 0 <= j < batch[i].parents@.len() && #[trigger] batch[i].parents@[j]
            == x
}

/// Whether the changeset at position `i` is the last of `batch` with its
/// identifier.
pub open spec fn is_last_of_id(batch: Seq<BonsaiChangeset>, i: int) -> bool {
    &&& 0 <= i < batch.len()
    &&& forall|j: int| i < j < batch.len() ==> (#[trigger] batch[j]).id != batch[i].id
}

/// Whether `changesets` holds what counts of `batch`: of the changesets
/// with one identifier the last, and each of these once.
pub open spec fn is_batch_without_repeats(
    batch: Seq<BonsaiChangeset>,
    changesets: Seq<BonsaiChangeset>,
) -> bool {
    &&& distinct_ids(changesets)
    &&& forall|i: int| is_last_of_id(batch, i) ==> changesets.contains(#[trigger] batch[i])
    &&& forall|a: int|
        0 <= a < changesets.len() ==> #[trigger] counts_in(batch, changesets[a])
}

/// Whether `c` is the last changeset of `batch` with its identifier.
pub open spec fn counts_in(batch: Seq<BonsaiChangeset>, c: BonsaiChangeset) -> bool {
    exists|i: int| is_last_of_id(batch, i) && batch[i] == c
}

/// Whether no changeset of `changesets` comes before one of its parents.
pub open spec fn parents_come_first(changesets: Seq<BonsaiChangeset>) -> bool {
    forall|a: int, b: int|
        0 <= a < changesets.len() && 0 <= b < changesets.len() && (
        #[trigger] changesets[a]).parents@.contains((#[trigger] changesets[b]).id) ==> b < a
}

/// That the parent `parent` of a changeset of the batch is in the
/// repository, or the error that it is not.
pub fn require_parent(parent: ChangesetId, exists: bool) -> (r: Result<(), ErrorKind>)
    ensures
        r == (if exists {
            Ok::<(), ErrorKind>(())
        } else {
            Err(ErrorKind::MissingParent(parent))
        }),
{
    if exists {
        Ok(())
    } else {
        Err(ErrorKind::MissingParent(parent))
    }
}

/// How a batch of changesets is saved.
#[derive(Debug)]
pub struct SavePlan {
    /// The parents that are not part of the batch: each must exist in the
    /// repository.
    pub parents_to_check: Vec<ChangesetId>,
    /// The changesets to write, in the order in which the index is to learn
    /// of them.
    pub changesets: Vec<BonsaiChangeset>,
}

proof fn lemma_graph_of_last(batch: Seq<BonsaiChangeset>)
    ensures
        forall|x: ChangesetId| parent_graph(batch).contains_key(x) <==> is_commit_id(batch, x),
        forall|i: int|
            is_last_of_id(batch, i) ==> parent_graph(batch)[(#[trigger] batch[i]).id]
                == batch[i].parents@,
    decreases batch.len(),
{
    if batch.len() > 0 {
        let rest = batch.drop_last();
        let c = batch.last();
        lemma_graph_of_last(rest);
        assert(batch =~= rest.push(c));
        assert forall|x: ChangesetId| parent_graph(batch).contains_key(x) <==> is_commit_id(
            batch,
            x,
        ) by {
            if is_commit_id(rest, x) {
                let k = choose|k: int| 0 <= k < rest.len() && (#[trigger] rest[k]).id == x;
                assert(batch[k].id == x);
            }
            if x == c.id {
                assert(batch[batch.len() - 1].id == x);
            }
            if is_commit_id(batch, x) {
                let k = choose|k: int| 0 <= k < batch.len() && (#[trigger] batch[k]).id == x;
                if k < rest.len() {
                    assert(rest[k].id == x);
                }
            }
        }
        assert forall|i: int| is_last_of_id(batch, i) implies parent_graph(batch)[(
        #[trigger] batch[i]).id] == batch[i].parents@ by {
            if i < rest.len() {
                assert(batch[batch.len() - 1].id != batch[i].id);
                assert(is_last_of_id(rest, i)) by {
                    assert forall|j: int| i < j < rest.len() implies (#[trigger] rest[j]).id
                        != rest[i].id by {
                        assert(batch[j].id != batch[i].id);
                    }
                }
                assert(rest[i] == batch[i]);
            }
        }
    } else {
        assert forall|x: ChangesetId| parent_graph(batch).contains_key(x) <==> is_commit_id(
            batch,
            x,
        ) by {}
    }
}

proof fn lemma_same_graph(batch: Seq<BonsaiChangeset>, changesets: Seq<BonsaiChangeset>)
    requires
        is_batch_without_repeats(batch, changesets),
    ensures
        parent_graph(changesets) == parent_graph(batch),
{
    lemma_graph_of_last(batch);
    lemma_graph_of_last(changesets);
    let g1 = parent_graph(changesets);
    let g2 = parent_graph(batch);
    assert forall|x: ChangesetId| g1.contains_key(x) <==> g2.contains_key(x) by {
        if is_commit_id(changesets, x) {
            let a = choose|a: int| 0 <= a < changesets.len() && (#[trigger] changesets[a]).id == x;
            assert(counts_in(batch, changesets[a]));
            let i = choose|i: int| is_last_of_id(batch, i) && batch[i] == changesets[a];
            assert(batch[i].id == x);
        }
        if is_commit_id(batch, x) {
            let k = choose|k: int| 0 <= k < batch.len() && (#[trigger] batch[k]).id == x;
            let i = lemma_last_exists(batch, k);
            let a = changesets.index_of(batch[i]);
            assert(changesets[a].id == x);
        }
    }
    assert forall|x: ChangesetId| g1.contains_key(x) implies g1[x] == g2[x] by {
        assert(parent_graph(changesets).contains_key(x));
        assert(is_commit_id(changesets, x));
        let a = choose|a: int| 0 <= a < changesets.len() && (#[trigger] changesets[a]).id == x;
        assert(counts_in(batch, changesets[a]));
        let i = choose|i: int| is_last_of_id(batch, i) && batch[i] == changesets[a];
        assert(is_last_of_id(changesets, a)) by {
            assert forall|j: int| a < j < changesets.len() implies (#[trigger] changesets[j]).id
                != changesets[a].id by {}
        }
        assert(g1[changesets[a].id] == changesets[a].parents@);
        assert(g2[batch[i].id] == batch[i].parents@);
    }
    assert(g1 =~= g2);
}

/// The last position of `batch` that holds the identifier found at `k`.
proof fn lemma_last_exists(batch: Seq<BonsaiChangeset>, k: int) -> (i: int)
    requires
        0 <= k < batch.len(),
    ensures
        is_last_of_id(batch, i),
        batch[i].id == batch[k].id,
        k <= i,
    decreases batch.len() - k,
{
    if exists|j: int| k < j < batch.len() && (#[trigger] batch[j]).id == batch[k].id {
        let j = choose|j: int| k < j < batch.len() && (#[trigger] batch[j]).id == batch[k].id;
        lemma_last_exists(batch, j)
    } else {
        k
    }
}

fn has_later(ids: &Vec<ChangesetId>, i: usize) -> (r: bool)
    requires
        i < ids@.len(),
    ensures
        r == exists|j: int| i < j < ids@.len() && #[trigger] ids@[j] == ids@[i as int],
{
    let n = ids.len();
    let mut j: usize = i + 1;
    while j < ids.len()
        invariant
            i < j <= ids.len(),
            forall|k: int| i < k < j ==> #[trigger] ids@[k] != ids@[i as int],
        decreases ids.len() - j,
    {
        if ids[j] == ids[i] {
            return true;
        }
        j += 1;
    }
    false
}

/// Whether `plan` is the plan for saving `batch`: the parents outside the
/// batch, each once, and the batch without repeats in an order in which
/// parents come first.
pub open spec fn is_save_plan(batch: Seq<BonsaiChangeset>, plan: SavePlan) -> bool {
    &&& plan.parents_to_check@.no_duplicates()
    &&& forall|x: ChangesetId|
        #![trigger plan.parents_to_check@.contains(x)]
        plan.parents_to_check@.contains(x) <==> is_batch_parent(batch, x) && !is_commit_id(batch, x)
    &&& is_batch_without_repeats(batch, plan.changesets@)
    &&& parents_come_first(plan.changesets@)
}

/// The plan for saving `bonsai_changesets`. A batch whose parents form a
/// cycle is left out: such a chain is corrupt, and there is no plan for
/// it. `try_save_bonsai_changesets` tells whether it is so.
///
/// Of several changesets with one identifier the last counts.
pub fn save_bonsai_changesets(bonsai_changesets: Vec<BonsaiChangeset>) -> (r: SavePlan)
    requires
        !has_cycle(parent_graph(bonsai_changesets@)),
    ensures
        is_save_plan(bonsai_changesets@, r),
{
    match try_save_bonsai_changesets(bonsai_changesets) {
        Some(plan) => plan,
        None => vstd::pervasive::unreached(),
    }
}

/// The plan for saving `bonsai_changesets`, or `None` where their parents
/// form a cycle, and only then.
///
/// Of several changesets with one identifier the last counts.
pub fn try_save_bonsai_changesets(bonsai_changesets: Vec<BonsaiChangeset>) -> (r: Option<SavePlan>)
    ensures
        r is None <==> has_cycle(parent_graph(bonsai_changesets@)),
        r matches Some(plan) ==> is_save_plan(bonsai_changesets@, plan),
{
    let ghost batch = bonsai_changesets@;
    let n = bonsai_changesets.len();
    let mut ids: Vec<ChangesetId> = Vec::new();
    let mut parents_to_check: Vec<ChangesetId> = Vec::new();
    let mut i: usize = 0;
    while i < n
        invariant
            0 <= i <= n,
            n == batch.len(),
            batch == bonsai_changesets@,
            ids@.len() == i,
            forall|k: int| 0 <= k < i ==> #[trigger] ids@[k] == batch[k].id,
        decreases n - i,
    {
        ids.push(bonsai_changesets[i].id);
        i += 1;
    }
    proof {
        assert forall|x: ChangesetId| ids@.contains(x) <==> is_commit_id(batch, x) by {
            if ids@.contains(x) {
                let k = ids@.index_of(x);
                assert(batch[k].id == x);
            }
            if is_commit_id(batch, x) {
                let k = choose|k: int| 0 <= k < batch.len() && (#[trigger] batch[k]).id == x;
                assert(ids@[k] == x);
            }
        }
    }
    i = 0;
    while i < n
        invariant
            0 <= i <= n,
            n == batch.len(),
            batch == bonsai_changesets@,
            forall|x: ChangesetId| ids@.contains(x) <==> is_commit_id(batch, x),
            parents_to_check@.no_duplicates(),
            forall|x: ChangesetId|
                #![trigger parents_to_check@.contains(x)]
                parents_to_check@.contains(x) <==> is_batch_parent(batch.take(i as int), x)
                    && !is_commit_id(batch, x),
        decreases n - i,
    {
        let parents = &bonsai_changesets[i].parents;
        let ghost done = batch.take(i as int);
        let mut j: usize = 0;
        while j < parents.len()
            invariant
                0 <= j <= parents.len(),
                0 <= i < n,
                n == batch.len(),
                done == batch.take(i as int),
                parents@ == batch[i as int].parents@,
                forall|x: ChangesetId| ids@.contains(x) <==> is_commit_id(batch, x),
                parents_to_check@.no_duplicates(),
                forall|x: ChangesetId|
                    #![trigger parents_to_check@.contains(x)]
                    parents_to_check@.contains(x) <==> (is_batch_parent(done, x)
                        || parents@.take(j as int).contains(x)) && !is_commit_id(batch, x),
            decreases parents.len() - j,
        {
            let p = parents[j];
            let ghost before = parents_to_check@;
            let ghost seen = parents@.take(j as int);
            let ghost seen_next = parents@.take(j + 1);
            proof {
                assert(seen_next =~= seen.push(p));
                assert forall|x: ChangesetId|
                    #![trigger seen_next.contains(x)]
                    seen_next.contains(x) <==> seen.contains(x) || x == p by {
                    if seen.contains(x) {
                        let a = seen.index_of(x);
                        assert(seen_next[a] == x);
                    }
                    if x == p {
                        assert(seen_next[j as int] == p);
                    }
                    if seen_next.contains(x) {
                        let a = seen_next.index_of(x);
                        if a < j {
                            assert(seen[a] == x);
                        }
                    }
                }
            }
            if !contains_id(&ids, p) && !contains_id(&parents_to_check, p) {
                parents_to_check.push(p);
                proof {
                    assert(parents_to_check@ =~= before.push(p));
                    assert forall|x: ChangesetId|
                        #![trigger parents_to_check@.contains(x)]
                        parents_to_check@.contains(x) <==> before.contains(x) || x == p by {
                        if before.contains(x) {
                            let a = before.index_of(x);
                            assert(parents_to_check@[a] == x);
                        }
                        if x == p {
                            assert(parents_to_check@[before.len() as int] == p);
                        }
                        if parents_to_check@.contains(x) {
                            let a = parents_to_check@.index_of(x);
                            if a < before.len() {
                                assert(before[a] == x);
                            }
                        }
                    }
                }
            }
            proof {
                assert forall|x: ChangesetId|
                    #![trigger parents_to_check@.contains(x)]
                    parents_to_check@.contains(x) <==> (is_batch_parent(done, x)
                        || seen_next.contains(x)) && !is_commit_id(batch, x) by {
                    assert(before.contains(x) <==> (is_batch_parent(done, x) || seen.contains(x))
                        && !is_commit_id(batch, x));
                    assert(seen_next.contains(x) <==> seen.contains(x) || x == p);
                }
            }
            j += 1;
        }
        proof {
            let next = batch.take(i + 1);
            assert(parents@.take(parents@.len() as int) =~= parents@);
            assert forall|x: ChangesetId|
                is_batch_parent(next, x) <==> is_batch_parent(done, x) || parents@.contains(x) by {
                if is_batch_parent(done, x) {
                    let (a, b) = choose|a: int, b: int|
                        0 <= a < done.len() && 0 <= b < done[a].parents@.len()
                            && #[trigger] done[a].parents@[b] == x;
                    assert(next[a].parents@[b] == x);
                }
                if parents@.contains(x) {
                    let b = parents@.index_of(x);
                    assert(next[i as int].parents@[b] == x);
                }
                if is_batch_parent(next, x) {
                    let (a, b) = choose|a: int, b: int|
                        0 <= a < next.len() && 0 <= b < next[a].parents@.len()
                            && #[trigger] next[a].parents@[b] == x;
                    if a < i {
                        assert(done[a].parents@[b] == x);
                    } else {
                        assert(parents@[b] == x);
                    }
                }
            }
        }
        i += 1;
    }
    proof {
        assert(batch.take(n as int) =~= batch);
    }
    let mut kept: Vec<BonsaiChangeset> = Vec::new();
    let ghost mut from: Seq<int> = Seq::empty();
    let mut at: usize = 0;
    for c in it: bonsai_changesets
        invariant
            it.seq() == batch,
            at == it.index(),
            n == batch.len(),
            ids@.len() == n,
            forall|k: int| 0 <= k < n ==> #[trigger] ids@[k] == batch[k].id,
            from.len() == kept@.len(),
            forall|a: int|
                0 <= a < kept@.len() ==> 0 <= #[trigger] from[a] < at && is_last_of_id(
                    batch,
                    from[a],
                ) && kept@[a] == batch[from[a]],
            forall|a: int, b: int| 0 <= a < b < from.len() ==> #[trigger] from[a] < #[trigger] from[b],
            forall|k: int|
                0 <= k < at && is_last_of_id(batch, k) ==> kept@.contains(#[trigger] batch[k]),
    {
        let ghost idx = it.index() as int;
        let ghost before = kept@;
        let later = has_later(&ids, at);
        proof {
            if later {
                let j = choose|j: int| idx < j < ids@.len() && #[trigger] ids@[j] == ids@[idx];
                assert(batch[j].id == batch[idx].id);
            } else {
                assert forall|j: int| idx < j < batch.len() implies (#[trigger] batch[j]).id
                    != batch[idx].id by {
                    assert(ids@[j] != ids@[idx]);
                }
            }
        }
        if !later {
            kept.push(c);
            proof {
                from = from.push(idx);
            }
        }
        proof {
            assert forall|k: int| 0 <= k < idx + 1 && is_last_of_id(batch, k) implies kept@.contains(
                #[trigger] batch[k],
            ) by {
                if k < idx {
                    let a = before.index_of(batch[k]);
                    assert(kept@[a] == batch[k]);
                } else {
                    assert(kept@[before.len() as int] == batch[k]);
                }
            }
        }
        at += 1;
    }
    proof {
        assert(at == n);
        assert forall|a: int, b: int|
            0 <= a < kept@.len() && 0 <= b < kept@.len() && a != b implies (#[trigger] kept@[a]).id
            != (#[trigger] kept@[b]).id by {
            if a < b {
                assert(from[a] < from[b]);
            } else {
                assert(from[b] < from[a]);
            }
        }
        assert(is_batch_without_repeats(batch, kept@)) by {
            assert(distinct_ids(kept@));
            assert forall|i: int| is_last_of_id(batch, i) implies kept@.contains(
                #[trigger] batch[i],
            ) by {}
            assert forall|a: int| 0 <= a < kept@.len() implies #[trigger] counts_in(
                batch,
                kept@[a],
            ) by {
                assert(is_last_of_id(batch, from[a]) && batch[from[a]] == kept@[a]);
            }
        }
        lemma_same_graph(batch, kept@);
    }
    let ghost kept0 = kept@;
    match order_parents_first(kept) {
        None => None,
        Some(changesets) => {
            proof {
                assert(is_plan_order(kept0, changesets@));
                assert forall|i: int| is_last_of_id(batch, i) implies changesets@.contains(
                    #[trigger] batch[i],
                ) by {
                    let a = kept0.index_of(batch[i]);
                    assert(changesets@.contains(kept0[a]));
                }
                assert forall|a: int| 0 <= a < changesets@.len() implies #[trigger] counts_in(
                    batch,
                    changesets@[a],
                ) by {
                    let b = kept0.index_of(changesets@[a]);
                    assert(counts_in(batch, kept0[b]));
                }
            }
            Some(SavePlan { parents_to_check, changesets })
        },
    }
}

} // verus!
