//! Finding the changesets that still have to be derived.
//!
//! Starting from the changeset that was asked for, the planner walks the
//! parent graph breadth first. It stops at every changeset that the mapping
//! already knows, collects the others, and in the end puts them in an order
//! in which parents come first.

use crate::bonsai::BonsaiChangeset;
use crate::ids::{ChangesetId, HgChangesetId};
use crate::topo_sort::{
    contains_id, find_id, has_cycle, has_edge, is_node, is_topological_order, sort_topological,
    ParentGraph,
};
use std::collections::VecDeque;
use vstd::prelude::*;

verus! {

/// What the planner waits for.
#[derive(Clone, Copy, Debug, PartialEq, Eq)]
pub enum PlannerPhase {
    /// Whether the mapping knows this changeset.
    Lookup(ChangesetId),
    /// The content of this changeset, which the mapping does not know.
    Load(ChangesetId),
    /// Nothing: every changeset that it reached is collected or known.
    Collected,
}

/// What the stores answer to the planner.
#[derive(Clone, Debug, PartialEq, Eq)]
pub enum PlannerEvent {
    /// What the mapping holds for the changeset that was looked up.
    Mapping(Option<HgChangesetId>),
    /// The changeset that was to be loaded.
    Loaded(BonsaiChangeset),
}

/// The mathematical value of a planner.
pub struct PlannerView {
    /// The changeset that the plan is for.
    pub target: ChangesetId,
    /// The changesets that wait to be looked up, the next one first.
    pub queue: Seq<ChangesetId>,
    /// The changesets that were reached so far.
    pub visited: Seq<ChangesetId>,
    /// The changesets that have to be derived, in the order in which they
    /// were loaded.
    pub commits: Seq<BonsaiChangeset>,
    /// The changesets that the mapping knew.
    pub mapped: Seq<ChangesetId>,
    pub phase: PlannerPhase,
}

/// Whether one of `commits` has the identifier `x`.
pub open spec fn is_commit_id(commits: Seq<BonsaiChangeset>, x: ChangesetId) -> bool {
    exists|k: int| 0 <= k < commits.len() && (#[trigger] commits[k]).id == x
}

/// The changeset that the planner waits for an answer about.
pub open spec fn pending(phase: PlannerPhase) -> Option<ChangesetId> {
    match phase {
        PlannerPhase::Lookup(id) => Some(id),
        PlannerPhase::Load(id) => Some(id),
        PlannerPhase::Collected => None,
    }
}

/// The queue and the visited changesets after `parents` were reached: each
/// parent that was not visited before is visited now and waits at the end
/// of the queue.
pub open spec fn enqueue_unvisited(
    queue: Seq<ChangesetId>,
    visited: Seq<ChangesetId>,
    parents: Seq<ChangesetId>,
) -> (Seq<ChangesetId>, Seq<ChangesetId>)
    decreases parents.len(),
{
    if parents.len() == 0 {
        (queue, visited)
    } else {
        let (q, v) = enqueue_unvisited(queue, visited, parents.drop_last());
        let p = parents.last();
        if v.contains(p) {
            (q, v)
        } else {
            (q.push(p), v.push(p))
        }
    }
}

/// The planner after it turned to the next changeset of the queue.
pub open spec fn advance(v: PlannerView) -> PlannerView {
    if v.queue.len() > 0 {
        PlannerView { phase: PlannerPhase::Lookup(v.queue[0]), queue: v.queue.drop_first(), ..v }
    } else {
        PlannerView { phase: PlannerPhase::Collected, ..v }
    }
}

/// The planner after `event`, or `None` where it is not waiting for such an
/// event.
pub open spec fn planner_step(v: PlannerView, event: PlannerEvent) -> Option<PlannerView> {
    match (v.phase, event) {
        (PlannerPhase::Lookup(id), PlannerEvent::Mapping(Some(_))) => Some(
            advance(PlannerView { mapped: v.mapped.push(id), ..v }),
        ),
        (PlannerPhase::Lookup(id), PlannerEvent::Mapping(None)) => Some(
            PlannerView { phase: PlannerPhase::Load(id), ..v },
        ),
        (PlannerPhase::Load(id), PlannerEvent::Loaded(bcs)) => if bcs.id == id {
            let (q, vis) = enqueue_unvisited(v.queue, v.visited, bcs.parents@);
            Some(advance(PlannerView { commits: v.commits.push(bcs), queue: q, visited: vis, ..v }))
        } else {
            None
        },
        _ => None,
    }
}

/// The planner that is about to look up `target`.
pub open spec fn initial_planner(target: ChangesetId) -> PlannerView {
    PlannerView {
        target,
        queue: Seq::empty(),
        visited: seq![target],
        commits: Seq::empty(),
        mapped: Seq::empty(),
        phase: PlannerPhase::Lookup(target),
    }
}

/// What holds of every planner: no changeset is collected twice, every
/// visited changeset is collected, known to the mapping, queued or pending,
/// and the parents of every collected changeset were visited.
pub open spec fn planner_inv(v: PlannerView) -> bool {
    &&& forall|a: int, b: int|
        0 <= a < v.commits.len() && 0 <= b < v.commits.len() && a != b ==> (
        #[trigger] v.commits[a]).id != (#[trigger] v.commits[b]).id
    &&& v.queue.no_duplicates()
    &&& forall|x: ChangesetId|
        #![trigger v.visited.contains(x)]
        v.visited.contains(x) <==> is_commit_id(v.commits, x) || v.mapped.contains(x)
            || v.queue.contains(x) || pending(v.phase) == Some(x)
    &&& forall|x: ChangesetId| #[trigger] v.queue.contains(x) ==> !is_commit_id(v.commits, x)
    &&& forall|x: ChangesetId| #[trigger] v.queue.contains(x) ==> pending(v.phase) != Some(x)
    &&& forall|x: ChangesetId| pending(v.phase) == Some(x) ==> !is_commit_id(v.commits, x)
    &&& forall|k: int, j: int|
        0 <= k < v.commits.len() && 0 <= j < v.commits[k].parents@.len() ==> v.visited.contains(
            #[trigger] v.commits[k].parents@[j],
        )
    &&& v.visited.contains(v.target)
}

proof fn lemma_enqueue(queue: Seq<ChangesetId>, visited: Seq<ChangesetId>, parents: Seq<ChangesetId>)
    ensures
        forall|x: ChangesetId|
            #![trigger enqueue_unvisited(queue, visited, parents).1.contains(x)]
            enqueue_unvisited(queue, visited, parents).1.contains(x) <==> visited.contains(x)
                || parents.contains(x),
        forall|x: ChangesetId|
            #![trigger enqueue_unvisited(queue, visited, parents).0.contains(x)]
            enqueue_unvisited(queue, visited, parents).0.contains(x) <==> queue.contains(x) || (
            parents.contains(x) && !visited.contains(x)),
        queue.no_duplicates() && (forall|x: ChangesetId|
            #[trigger] queue.contains(x) ==> visited.contains(x)) ==> enqueue_unvisited(
            queue,
            visited,
            parents,
        ).0.no_duplicates(),
        enqueue_unvisited(queue, visited, parents).0.len() >= queue.len(),
        queue.len() > 0 ==> enqueue_unvisited(queue, visited, parents).0[0] == queue[0],
    decreases parents.len(),
{
    if parents.len() > 0 {
        let rest = parents.drop_last();
        let p = parents.last();
        lemma_enqueue(queue, visited, rest);
        let (q, v) = enqueue_unvisited(queue, visited, rest);
        let (q2, v2) = enqueue_unvisited(queue, visited, parents);
        assert forall|x: ChangesetId| parents.contains(x) <==> rest.contains(x) || x == p by {
            if rest.contains(x) {
                let a = rest.index_of(x);
                assert(parents[a] == x);
            }
            if x == p {
                assert(parents[parents.len() - 1] == p);
            }
            if parents.contains(x) {
                let a = parents.index_of(x);
                if a < rest.len() {
                    assert(rest[a] == x);
                }
            }
        }
        if !v.contains(p) {
            assert forall|x: ChangesetId| v2.contains(x) <==> v.contains(x) || x == p by {
                if v.contains(x) {
                    let a = v.index_of(x);
                    assert(v2[a] == x);
                }
                if x == p {
                    assert(v2[v.len() as int] == p);
                }
                if v2.contains(x) {
                    let a = v2.index_of(x);
                    if a < v.len() {
                        assert(v[a] == x);
                    }
                }
            }
            assert forall|x: ChangesetId| q2.contains(x) <==> q.contains(x) || x == p by {
                if q.contains(x) {
                    let a = q.index_of(x);
                    assert(q2[a] == x);
                }
                if x == p {
                    assert(q2[q.len() as int] == p);
                }
                if q2.contains(x) {
                    let a = q2.index_of(x);
                    if a < q.len() {
                        assert(q[a] == x);
                    }
                }
            }
            if queue.no_duplicates() && (forall|x: ChangesetId|
                #[trigger] queue.contains(x) ==> visited.contains(x)) {
                assert(!q.contains(p)) by {
                    if q.contains(p) {
                        assert(queue.contains(p) || (rest.contains(p) && !visited.contains(p)));
                        assert(v.contains(p));
                    }
                }
                assert forall|a: int, b: int| 0 <= a < q2.len() && 0 <= b < q2.len() && a != b implies q2[a]
                    != q2[b] by {
                    if a < q.len() && b < q.len() {
                        assert(q[a] != q[b]);
                    } else if a < q.len() {
                        assert(q.contains(q[a]));
                    } else if b < q.len() {
                        assert(q.contains(q[b]));
                    }
                }
            }
        }
        assert forall|x: ChangesetId|
            #![trigger enqueue_unvisited(queue, visited, parents).1.contains(x)]
            enqueue_unvisited(queue, visited, parents).1.contains(x) <==> visited.contains(x)
                || parents.contains(x) by {
            assert(v.contains(x) <==> visited.contains(x) || rest.contains(x));
        }
        assert forall|x: ChangesetId|
            #![trigger enqueue_unvisited(queue, visited, parents).0.contains(x)]
            enqueue_unvisited(queue, visited, parents).0.contains(x) <==> queue.contains(x) || (
            parents.contains(x) && !visited.contains(x)) by {
            assert(q.contains(x) <==> queue.contains(x) || (rest.contains(x) && !visited.contains(
                x,
            )));
            assert(v.contains(x) <==> visited.contains(x) || rest.contains(x));
            assert(v.contains(p) <==> visited.contains(p) || rest.contains(p));
        }
    }
}

proof fn lemma_commit_pushed(commits: Seq<BonsaiChangeset>, c: BonsaiChangeset, x: ChangesetId)
    ensures
        is_commit_id(commits.push(c), x) <==> is_commit_id(commits, x) || x == c.id,
{
    let pushed = commits.push(c);
    if is_commit_id(commits, x) {
        let k = choose|k: int| 0 <= k < commits.len() && (#[trigger] commits[k]).id == x;
        assert(pushed[k].id == x);
    }
    if x == c.id {
        assert(pushed[commits.len() as int].id == x);
    }
    if is_commit_id(pushed, x) {
        let k = choose|k: int| 0 <= k < pushed.len() && (#[trigger] pushed[k]).id == x;
        if k < commits.len() {
            assert(commits[k].id == x);
        }
    }
}

/// The invariant of a planner that has nothing pending.
spec fn planner_inv_queued(v: PlannerView) -> bool {
    &&& forall|a: int, b: int|
        0 <= a < v.commits.len() && 0 <= b < v.commits.len() && a != b ==> (
        #[trigger] v.commits[a]).id != (#[trigger] v.commits[b]).id
    &&& v.queue.no_duplicates()
    &&& forall|x: ChangesetId|
        #![trigger v.visited.contains(x)]
        v.visited.contains(x) <==> is_commit_id(v.commits, x) || v.mapped.contains(x)
            || v.queue.contains(x)
    &&& forall|x: ChangesetId| #[trigger] v.queue.contains(x) ==> !is_commit_id(v.commits, x)
    &&& forall|k: int, j: int|
        0 <= k < v.commits.len() && 0 <= j < v.commits[k].parents@.len() ==> v.visited.contains(
            #[trigger] v.commits[k].parents@[j],
        )
    &&& v.visited.contains(v.target)
}

proof fn lemma_advance_keeps_inv(v: PlannerView)
    requires
        planner_inv_queued(v),
    ensures
        planner_inv(advance(v)),
{
    let w = advance(v);
    if v.queue.len() > 0 {
        let head = v.queue[0];
        assert(v.queue.contains(head));
        assert forall|x: ChangesetId| v.queue.contains(x) <==> w.queue.contains(x) || x == head by {
            if w.queue.contains(x) {
                let a = w.queue.index_of(x);
                assert(v.queue[a + 1] == x);
            }
            if v.queue.contains(x) {
                let a = v.queue.index_of(x);
                if a > 0 {
                    assert(w.queue[a - 1] == x);
                }
            }
        }
        assert(!w.queue.contains(head)) by {
            if w.queue.contains(head) {
                let a = w.queue.index_of(head);
                assert(v.queue[a + 1] == head);
            }
        }
        assert forall|x: ChangesetId|
            #![trigger w.visited.contains(x)]
            w.visited.contains(x) <==> is_commit_id(w.commits, x) || w.mapped.contains(x)
                || w.queue.contains(x) || pending(w.phase) == Some(x) by {
            assert(v.visited.contains(x) <==> is_commit_id(v.commits, x) || v.mapped.contains(x)
                || v.queue.contains(x));
        }
        assert forall|x: ChangesetId| #[trigger] w.queue.contains(x) implies !is_commit_id(
            w.commits,
            x,
        ) by {
            assert(v.queue.contains(x));
        }
        assert forall|x: ChangesetId| #[trigger] w.queue.contains(x) implies pending(w.phase)
            != Some(x) by {}
        assert(w.visited.contains(w.target));
    } else {
        assert forall|x: ChangesetId|
            #![trigger w.visited.contains(x)]
            w.visited.contains(x) <==> is_commit_id(w.commits, x) || w.mapped.contains(x)
                || w.queue.contains(x) || pending(w.phase) == Some(x) by {
            assert(v.visited.contains(x) <==> is_commit_id(v.commits, x) || v.mapped.contains(x)
                || v.queue.contains(x));
        }
    }
}

/// The invariant holds when the planner starts.
pub proof fn lemma_initial_planner(target: ChangesetId)
    ensures
        planner_inv(initial_planner(target)),
{
    let v = initial_planner(target);
    assert(v.visited[0] == target);
    assert forall|x: ChangesetId|
        #![trigger v.visited.contains(x)]
        v.visited.contains(x) <==> is_commit_id(v.commits, x) || v.mapped.contains(x)
            || v.queue.contains(x) || pending(v.phase) == Some(x) by {
        if v.visited.contains(x) {
            let a = v.visited.index_of(x);
            assert(a == 0);
        }
    }
}

/// Every answer keeps the invariant.
pub proof fn lemma_step_keeps_inv(v: PlannerView, event: PlannerEvent)
    requires
        planner_inv(v),
        planner_step(v, event) is Some,
    ensures
        planner_inv(planner_step(v, event).unwrap()),
{
    match (v.phase, event) {
        (PlannerPhase::Lookup(id), PlannerEvent::Mapping(Some(_))) => {
            let u = PlannerView { mapped: v.mapped.push(id), phase: PlannerPhase::Collected, ..v };
            assert(u.mapped[v.mapped.len() as int] == id);
            assert forall|x: ChangesetId|
                #![trigger u.visited.contains(x)]
                u.visited.contains(x) <==> is_commit_id(u.commits, x) || u.mapped.contains(x)
                    || u.queue.contains(x) by {
                assert(v.visited.contains(x) <==> is_commit_id(v.commits, x) || v.mapped.contains(
                    x,
                ) || v.queue.contains(x) || pending(v.phase) == Some(x));
                if v.mapped.contains(x) {
                    let a = v.mapped.index_of(x);
                    assert(u.mapped[a] == x);
                }
                if u.mapped.contains(x) {
                    let a = u.mapped.index_of(x);
                    if a < v.mapped.len() {
                        assert(v.mapped[a] == x);
                    }
                }
            }
            assert(planner_inv_queued(u));
            lemma_advance_keeps_inv(u);
            assert(advance(u) == advance(PlannerView { mapped: v.mapped.push(id), ..v }));
        },
        (PlannerPhase::Lookup(id), PlannerEvent::Mapping(None)) => {
            let u = PlannerView { phase: PlannerPhase::Load(id), ..v };
            assert forall|x: ChangesetId|
                #![trigger u.visited.contains(x)]
                u.visited.contains(x) <==> is_commit_id(u.commits, x) || u.mapped.contains(x)
                    || u.queue.contains(x) || pending(u.phase) == Some(x) by {
                assert(v.visited.contains(x) <==> is_commit_id(v.commits, x) || v.mapped.contains(
                    x,
                ) || v.queue.contains(x) || pending(v.phase) == Some(x));
            }
            assert forall|x: ChangesetId| #[trigger] u.queue.contains(x) implies pending(u.phase)
                != Some(x) by {
                assert(pending(v.phase) != Some(x));
            }
        },
        (PlannerPhase::Load(id), PlannerEvent::Loaded(bcs)) => {
            let (q, vis) = enqueue_unvisited(v.queue, v.visited, bcs.parents@);
            lemma_enqueue(v.queue, v.visited, bcs.parents@);
            let u = PlannerView {
                commits: v.commits.push(bcs),
                queue: q,
                visited: vis,
                phase: PlannerPhase::Collected,
                ..v
            };
            assert(v.visited.contains(id));
            assert forall|x: ChangesetId|
                is_commit_id(u.commits, x) <==> is_commit_id(v.commits, x) || x == id by {
                lemma_commit_pushed(v.commits, bcs, x);
            }
            assert forall|a: int, b: int|
                0 <= a < u.commits.len() && 0 <= b < u.commits.len() && a != b implies (
            #[trigger] u.commits[a]).id != (#[trigger] u.commits[b]).id by {
                if a < v.commits.len() && b < v.commits.len() {
                    assert(v.commits[a].id != v.commits[b].id);
                } else if a < v.commits.len() {
                    assert(is_commit_id(v.commits, v.commits[a].id));
                } else {
                    assert(is_commit_id(v.commits, v.commits[b].id));
                }
            }
            assert forall|x: ChangesetId| #[trigger] v.queue.contains(x) implies v.visited.contains(
                x,
            ) by {}
            assert(q.no_duplicates());
            assert forall|x: ChangesetId|
                #![trigger u.visited.contains(x)]
                u.visited.contains(x) <==> is_commit_id(u.commits, x) || u.mapped.contains(x)
                    || u.queue.contains(x) by {
                assert(vis.contains(x) <==> v.visited.contains(x) || bcs.parents@.contains(x));
                assert(q.contains(x) <==> v.queue.contains(x) || (bcs.parents@.contains(x)
                    && !v.visited.contains(x)));
                assert(v.visited.contains(x) <==> is_commit_id(v.commits, x) || v.mapped.contains(
                    x,
                ) || v.queue.contains(x) || pending(v.phase) == Some(x));
            }
            assert forall|x: ChangesetId| #[trigger] u.queue.contains(x) implies !is_commit_id(
                u.commits,
                x,
            ) by {
                assert(q.contains(x) <==> v.queue.contains(x) || (bcs.parents@.contains(x)
                    && !v.visited.contains(x)));
                if v.queue.contains(x) {
                    assert(pending(v.phase) != Some(x));
                } else {
                    assert(!v.visited.contains(x));
                    if is_commit_id(v.commits, x) {
                        assert(v.visited.contains(x));
                    }
                }
            }
            assert forall|k: int, j: int|
                0 <= k < u.commits.len() && 0 <= j < u.commits[k].parents@.len() implies u.visited.contains(
                #[trigger] u.commits[k].parents@[j],
            ) by {
                let p = u.commits[k].parents@[j];
                assert(vis.contains(p) <==> v.visited.contains(p) || bcs.parents@.contains(p));
                if k < v.commits.len() {
                    assert(v.visited.contains(v.commits[k].parents@[j]));
                } else {
                    assert(bcs.parents@[j] == p);
                }
            }
            assert(vis.contains(v.target) <==> v.visited.contains(v.target)
                || bcs.parents@.contains(v.target));
            assert(planner_inv_queued(u));
            lemma_advance_keeps_inv(u);
            assert(advance(u) == advance(
                PlannerView { commits: v.commits.push(bcs), queue: q, visited: vis, ..v },
            ));
        },
        _ => {},
    }
}

/// Whether one of `commits` lists `x` as a parent.
pub open spec fn is_parent_of_commit(commits: Seq<BonsaiChangeset>, x: ChangesetId) -> bool {
    exists|k: int, j: int|
        0 <= k < commits.len() && 0 <= j < commits[k].parents@.len()
            && #[trigger] commits[k].parents@[j] == x
}

/// What also holds of every planner: it reaches a changeset only from the
/// target along the parents of collected changesets, and a changeset that
/// the mapping knows is neither collected nor asked about again.
pub open spec fn planner_sound(v: PlannerView) -> bool {
    &&& forall|x: ChangesetId|
        #[trigger] v.visited.contains(x) ==> x == v.target || is_parent_of_commit(v.commits, x)
    &&& forall|x: ChangesetId|
        #[trigger] v.mapped.contains(x) ==> !is_commit_id(v.commits, x) && !v.queue.contains(x)
            && pending(v.phase) != Some(x)
}

/// The planner is sound when it starts.
pub proof fn lemma_initial_planner_sound(target: ChangesetId)
    ensures
        planner_sound(initial_planner(target)),
{
    let v = initial_planner(target);
    assert forall|x: ChangesetId| #[trigger] v.visited.contains(x) implies x == v.target by {
        let a = v.visited.index_of(x);
        assert(a == 0);
    }
}

proof fn lemma_parent_of_pushed(commits: Seq<BonsaiChangeset>, c: BonsaiChangeset, x: ChangesetId)
    ensures
        is_parent_of_commit(commits, x) || c.parents@.contains(x) ==> is_parent_of_commit(
            commits.push(c),
            x,
        ),
{
    let pushed = commits.push(c);
    if is_parent_of_commit(commits, x) {
        let (k, j) = choose|k: int, j: int|
            0 <= k < commits.len() && 0 <= j < commits[k].parents@.len()
                && #[trigger] commits[k].parents@[j] == x;
        assert(pushed[k].parents@[j] == x);
    } else if c.parents@.contains(x) {
        let j = c.parents@.index_of(x);
        assert(pushed[commits.len() as int].parents@[j] == x);
    }
}

proof fn lemma_advance_keeps_sound(v: PlannerView)
    requires
        v.queue.no_duplicates(),
        forall|x: ChangesetId|
            #[trigger] v.visited.contains(x) ==> x == v.target || is_parent_of_commit(v.commits, x),
        forall|x: ChangesetId|
            #[trigger] v.mapped.contains(x) ==> !is_commit_id(v.commits, x) && !v.queue.contains(x),
    ensures
        planner_sound(advance(v)),
{
    let w = advance(v);
    if v.queue.len() > 0 {
        assert(v.queue.contains(v.queue[0]));
        assert forall|x: ChangesetId| #[trigger] w.mapped.contains(x) implies !is_commit_id(
            w.commits,
            x,
        ) && !w.queue.contains(x) && pending(w.phase) != Some(x) by {
            if w.queue.contains(x) {
                let a = w.queue.index_of(x);
                assert(v.queue[a + 1] == x);
            }
        }
    }
}

/// Every answer keeps the planner sound.
pub proof fn lemma_step_keeps_sound(v: PlannerView, event: PlannerEvent)
    requires
        planner_inv(v),
        planner_sound(v),
        planner_step(v, event) is Some,
    ensures
        planner_sound(planner_step(v, event).unwrap()),
{
    match (v.phase, event) {
        (PlannerPhase::Lookup(id), PlannerEvent::Mapping(Some(_))) => {
            let u = PlannerView { mapped: v.mapped.push(id), ..v };
            assert forall|x: ChangesetId| #[trigger] u.mapped.contains(x) implies !is_commit_id(
                u.commits,
                x,
            ) && !u.queue.contains(x) by {
                let a = u.mapped.index_of(x);
                if a < v.mapped.len() {
                    assert(v.mapped[a] == x);
                    assert(v.mapped.contains(x));
                } else {
                    assert(x == id);
                    if v.queue.contains(x) {
                        assert(pending(v.phase) != Some(x));
                    }
                }
            }
            lemma_advance_keeps_sound(u);
        },
        (PlannerPhase::Lookup(id), PlannerEvent::Mapping(None)) => {},
        (PlannerPhase::Load(id), PlannerEvent::Loaded(bcs)) => {
            let (q, vis) = enqueue_unvisited(v.queue, v.visited, bcs.parents@);
            lemma_enqueue(v.queue, v.visited, bcs.parents@);
            let u = PlannerView { commits: v.commits.push(bcs), queue: q, visited: vis, ..v };
            assert forall|x: ChangesetId| #[trigger] v.queue.contains(x) implies v.visited.contains(
                x,
            ) by {}
            assert forall|x: ChangesetId| #[trigger] u.visited.contains(x) implies x == u.target
                || is_parent_of_commit(u.commits, x) by {
                assert(vis.contains(x) <==> v.visited.contains(x) || bcs.parents@.contains(x));
                lemma_parent_of_pushed(v.commits, bcs, x);
            }
            assert forall|x: ChangesetId| #[trigger] u.mapped.contains(x) implies !is_commit_id(
                u.commits,
                x,
            ) && !u.queue.contains(x) by {
                lemma_commit_pushed(v.commits, bcs, x);
                assert(pending(v.phase) != Some(x));
                assert(v.visited.contains(x));
                assert(q.contains(x) <==> v.queue.contains(x) || (bcs.parents@.contains(x)
                    && !v.visited.contains(x)));
            }
            lemma_advance_keeps_sound(u);
        },
        _ => {},
    }
}

/// The plan holds nothing that it need not hold: every changeset of it is
/// the target or a parent of a changeset of the plan, and the mapping did
/// not know it.
pub proof fn lemma_plan_is_minimal(v: PlannerView)
    requires
        planner_inv(v),
        planner_sound(v),
    ensures
        forall|k: int|
            0 <= k < v.commits.len() ==> {
                let id = (#[trigger] v.commits[k]).id;
                (id == v.target || is_parent_of_commit(v.commits, id)) && !v.mapped.contains(id)
            },
{
    assert forall|k: int| 0 <= k < v.commits.len() implies {
        let id = (#[trigger] v.commits[k]).id;
        (id == v.target || is_parent_of_commit(v.commits, id)) && !v.mapped.contains(id)
    } by {
        let id = v.commits[k].id;
        assert(is_commit_id(v.commits, id));
        assert(v.visited.contains(id));
    }
}

/// The target comes last in every order of the plan in which parents come
/// first: every other changeset of the plan is a parent of one of them.
pub proof fn lemma_target_is_last(v: PlannerView, plan: Seq<BonsaiChangeset>)
    requires
        planner_inv(v),
        planner_sound(v),
        is_plan_order(v.commits, plan),
        plan.len() > 0,
    ensures
        plan.last().id == v.target,
{
    let n = plan.len() - 1;
    let y = plan[n];
    assert(v.commits.contains(y));
    let k = v.commits.index_of(y);
    assert(is_commit_id(v.commits, y.id));
    assert(v.visited.contains(y.id));
    if y.id != v.target {
        let (c, j) = choose|c: int, j: int|
            0 <= c < v.commits.len() && 0 <= j < v.commits[c].parents@.len()
                && #[trigger] v.commits[c].parents@[j] == y.id;
        assert(plan.contains(v.commits[c]));
        let b = plan.index_of(v.commits[c]);
        assert(plan[b].parents@.contains(plan[n].id));
    }
}

/// When nothing is left to look up, every parent of a changeset of the plan
/// is in the plan too or known to the mapping, and so is the target.
pub proof fn lemma_plan_is_closed(v: PlannerView)
    requires
        planner_inv(v),
        v.phase is Collected,
        v.queue.len() == 0,
    ensures
        forall|k: int, j: int|
            0 <= k < v.commits.len() && 0 <= j < v.commits[k].parents@.len() ==> {
                let p = #[trigger] v.commits[k].parents@[j];
                is_commit_id(v.commits, p) || v.mapped.contains(p)
            },
        is_commit_id(v.commits, v.target) || v.mapped.contains(v.target),
{
    assert forall|k: int, j: int|
        0 <= k < v.commits.len() && 0 <= j < v.commits[k].parents@.len() implies {
        let p = #[trigger] v.commits[k].parents@[j];
        is_commit_id(v.commits, p) || v.mapped.contains(p)
    } by {
        let p = v.commits[k].parents@[j];
        assert(v.visited.contains(p));
    }
}

/// What the planner asks its driver to do.
#[derive(Clone, Copy, Debug, PartialEq, Eq)]
pub enum PlannerRequest {
    /// Ask the mapping whether it knows this changeset.
    LookupMapping(ChangesetId),
    /// Load this changeset from the content store.
    LoadChangeset(ChangesetId),
    /// Nothing is left to ask: take the plan.
    Finish,
}

/// What a planner in `phase` asks for.
pub open spec fn planner_request(phase: PlannerPhase) -> PlannerRequest {
    match phase {
        PlannerPhase::Lookup(id) => PlannerRequest::LookupMapping(id),
        PlannerPhase::Load(id) => PlannerRequest::LoadChangeset(id),
        PlannerPhase::Collected => PlannerRequest::Finish,
    }
}

/// The parents of each changeset of `commits`, by its identifier. Where two
/// of them have one identifier, the later one counts.
pub open spec fn parent_graph(commits: Seq<BonsaiChangeset>) -> Map<ChangesetId, Seq<ChangesetId>>
    decreases commits.len(),
{
    if commits.len() == 0 {
        Map::empty()
    } else {
        parent_graph(commits.drop_last()).insert(commits.last().id, commits.last().parents@)
    }
}

/// Whether `plan` holds the changesets of `commits`, each one once, and
/// none of them before one of its parents.
pub open spec fn is_plan_order(commits: Seq<BonsaiChangeset>, plan: Seq<BonsaiChangeset>) -> bool {
    &&& plan.len() == commits.len()
    &&& forall|k: int| 0 <= k < commits.len() ==> plan.contains(#[trigger] commits[k])
    &&& forall|a: int| 0 <= a < plan.len() ==> commits.contains(#[trigger] plan[a])
    &&& forall|a: int, b: int|
        0 <= a < plan.len() && 0 <= b < plan.len() && a != b ==> (#[trigger] plan[a]).id != (
        #[trigger] plan[b]).id
    &&& forall|a: int, b: int|
        0 <= a < plan.len() && 0 <= b < plan.len() && (#[trigger] plan[a]).parents@.contains(
            (#[trigger] plan[b]).id,
        ) ==> b < a
}

proof fn lemma_parent_graph(commits: Seq<BonsaiChangeset>)
    requires
        forall|a: int, b: int|
            0 <= a < commits.len() && 0 <= b < commits.len() && a != b ==> (
            #[trigger] commits[a]).id != (#[trigger] commits[b]).id,
    ensures
        forall|x: ChangesetId| parent_graph(commits).contains_key(x) <==> is_commit_id(commits, x),
        forall|k: int|
            0 <= k < commits.len() ==> parent_graph(commits)[(#[trigger] commits[k]).id]
                == commits[k].parents@,
    decreases commits.len(),
{
    if commits.len() > 0 {
        let rest = commits.drop_last();
        let c = commits.last();
        assert forall|a: int, b: int| 0 <= a < rest.len() && 0 <= b < rest.len() && a != b implies (
        #[trigger] rest[a]).id != (#[trigger] rest[b]).id by {
            assert(commits[a].id != commits[b].id);
        }
        lemma_parent_graph(rest);
        assert(commits =~= rest.push(c));
        assert forall|x: ChangesetId|
            parent_graph(commits).contains_key(x) <==> is_commit_id(commits, x) by {
            lemma_commit_pushed(rest, c, x);
        }
        assert forall|k: int| 0 <= k < commits.len() implies parent_graph(commits)[(
        #[trigger] commits[k]).id] == commits[k].parents@ by {
            if k < rest.len() {
                assert(rest[k] == commits[k]);
                assert(commits[k].id != commits[commits.len() - 1].id);
            }
        }
    } else {
        assert forall|x: ChangesetId|
            parent_graph(commits).contains_key(x) <==> is_commit_id(commits, x) by {}
    }
}

fn clone_ids(ids: &Vec<ChangesetId>) -> (r: Vec<ChangesetId>)
    ensures
        r@ == ids@,
{
    let mut out: Vec<ChangesetId> = Vec::new();
    let mut i: usize = 0;
    while i < ids.len()
        invariant
            0 <= i <= ids.len(),
            out@ == ids@.take(i as int),
        decreases ids.len() - i,
    {
        out.push(ids[i]);
        assert(ids@.take(i + 1) =~= ids@.take(i as int).push(ids@[i as int]));
        i += 1;
    }
    assert(ids@.take(ids@.len() as int) =~= ids@);
    out
}

/// Whether no two of `commits` have one identifier.
pub open spec fn distinct_ids(commits: Seq<BonsaiChangeset>) -> bool {
    forall|a: int, b: int|
        0 <= a < commits.len() && 0 <= b < commits.len() && a != b ==> (#[trigger] commits[a]).id
            != (#[trigger] commits[b]).id
}

/// The changesets of `commits` in an order in which no changeset comes before
/// one of its parents; `None` where their parents form a cycle, and only
/// then.
pub(crate) fn order_parents_first(commits: Vec<BonsaiChangeset>) -> (r: Option<Vec<BonsaiChangeset>>)
    requires
        distinct_ids(commits@),
    ensures
        r is None <==> has_cycle(parent_graph(commits@)),
        r matches Some(plan) ==> is_plan_order(commits@, plan@),
{
    proof {
        lemma_parent_graph(commits@);
    }
    let ghost commits0 = commits@;
    let ghost g = parent_graph(commits0);
    let n = commits.len();
    let mut dag = ParentGraph::new();
    let mut ids: Vec<ChangesetId> = Vec::new();
    let mut k: usize = 0;
    while k < n
        invariant
            0 <= k <= n,
            n == commits@.len(),
            commits@ == commits0,
            dag@ == parent_graph(commits0.take(k as int)),
            ids@.len() == k,
            forall|x: int| 0 <= x < k ==> #[trigger] ids@[x] == commits0[x].id,
        decreases n - k,
    {
        proof {
            assert(commits0.take(k + 1).drop_last() =~= commits0.take(k as int));
            assert(commits0.take(k + 1).last() == commits0[k as int]);
        }
        dag = dag.insert(commits[k].id, clone_ids(&commits[k].parents));
        ids.push(commits[k].id);
        k += 1;
    }
    proof {
        assert(commits0.take(n as int) =~= commits0);
    }
    let order = match sort_topological(&dag) {
        Some(order) => order,
        None => {
            return None;
        },
    };
    let mut slots: Vec<Option<BonsaiChangeset>> = Vec::new();
    for c in it: commits
        invariant
            slots@.len() == it.index(),
            it.seq() == commits0,
            forall|x: int| 0 <= x < slots@.len() ==> #[trigger] slots@[x] == Some(commits0[x]),
    {
        slots.push(Some(c));
    }
    let mut plan: Vec<BonsaiChangeset> = Vec::new();
    let ghost mut pos: Seq<int> = Seq::empty();
    let ghost mut slot_of: Seq<int> = Seq::empty();
    let mut i: usize = 0;
    while i < order.len()
        invariant
            0 <= i <= order.len(),
            slot_of.len() == plan@.len(),
            forall|a: int|
                0 <= a < slot_of.len() ==> 0 <= #[trigger] slot_of[a] < n && plan@[a]
                    == commits0[slot_of[a]],
            n == commits0.len(),
            ids@.len() == n,
            forall|x: int| 0 <= x < n ==> #[trigger] ids@[x] == commits0[x].id,
            forall|a: int, b: int|
                0 <= a < commits0.len() && 0 <= b < commits0.len() && a != b ==> (
                #[trigger] commits0[a]).id != (#[trigger] commits0[b]).id,
            is_topological_order(g, order@),
            slots@.len() == n,
            forall|x: int|
                0 <= x < n ==> (#[trigger] slots@[x] matches Some(c) ==> c == commits0[x]),
            forall|x: int|
                0 <= x < n ==> (#[trigger] slots@[x] is None <==> order@.take(i as int).contains(
                    commits0[x].id,
                )),
            forall|x: int| 0 <= x < n && #[trigger] slots@[x] is None ==> plan@.contains(commits0[x]),
            pos.len() == plan@.len(),
            forall|a: int| 0 <= a < pos.len() ==> 0 <= #[trigger] pos[a] < i,
            forall|a: int, b: int| 0 <= a < b < pos.len() ==> #[trigger] pos[a] < #[trigger] pos[b],
            forall|a: int|
                0 <= a < plan@.len() ==> (#[trigger] plan@[a]).id == order@[pos[a]]
                    && commits0.contains(plan@[a]),
        decreases order.len() - i,
    {
        let id = order[i];
        let ghost seen = order@.take(i as int);
        let ghost seen_next = order@.take(i + 1);
        proof {
            assert(seen_next =~= seen.push(id));
            assert forall|x: ChangesetId|
                #![trigger seen_next.contains(x)]
                seen_next.contains(x) <==> seen.contains(x) || x == id by {
                if seen.contains(x) {
                    let a = seen.index_of(x);
                    assert(seen_next[a] == x);
                }
                if x == id {
                    assert(seen_next[i as int] == id);
                }
                if seen_next.contains(x) {
                    let a = seen_next.index_of(x);
                    if a < i {
                        assert(seen[a] == x);
                    }
                }
            }
            assert(!seen.contains(id)) by {
                if seen.contains(id) {
                    let a = seen.index_of(id);
                    assert(order@[a] == id);
                }
            }
        }
        match find_id(&ids, id) {
            Some(k) => {
                let ghost slots_before = slots@;
                let ghost plan_before = plan@;
                let taken = slots[k].take();
                match taken {
                    Some(c) => {
                        plan.push(c);
                        proof {
                            pos = pos.push(i as int);
                            slot_of = slot_of.push(k as int);
                            assert(commits0.contains(commits0[k as int]));
                            assert forall|x: int|
                                0 <= x < n && #[trigger] slots@[x] is None implies plan@.contains(
                                commits0[x],
                            ) by {
                                if x == k {
                                    assert(plan@[plan_before.len() as int] == commits0[x]);
                                } else {
                                    assert(slots_before[x] is None);
                                    let a = plan_before.index_of(commits0[x]);
                                    assert(plan@[a] == commits0[x]);
                                }
                            }
                            assert forall|x: int| 0 <= x < n implies (#[trigger] slots@[x]
                                is None <==> seen_next.contains(commits0[x].id)) by {
                                if x != k {
                                    assert(slots@[x] == slots_before[x]);
                                    assert(commits0[x].id != commits0[k as int].id);
                                }
                            }
                            assert forall|a: int| 0 <= a < plan@.len() implies (
                            #[trigger] plan@[a]).id == order@[pos[a]] && commits0.contains(
                                plan@[a],
                            ) by {
                                if a < plan_before.len() {
                                    assert(plan@[a] == plan_before[a]);
                                }
                            }
                        }
                    },
                    None => {
                        proof {
                            assert(slots_before[k as int] is None);
                            assert(seen.contains(commits0[k as int].id));
                        }
                    },
                }
            },
            None => {
                proof {
                    assert forall|x: int| 0 <= x < n implies (#[trigger] slots@[x]
                        is None <==> seen_next.contains(commits0[x].id)) by {
                        assert(ids@[x] == commits0[x].id);
                        assert(ids@.contains(commits0[x].id));
                    }
                }
            },
        }
        i += 1;
    }
    proof {
        assert(order@.take(order@.len() as int) =~= order@);
        assert forall|x: int| 0 <= x < commits0.len() implies plan@.contains(
            #[trigger] commits0[x],
        ) by {
            assert(is_commit_id(commits0, commits0[x].id));
            assert(is_node(g, commits0[x].id));
            assert(order@.contains(commits0[x].id));
            assert(slots@[x] is None);
        }
        assert forall|a: int, b: int|
            0 <= a < plan@.len() && 0 <= b < plan@.len() && a != b implies (
        #[trigger] plan@[a]).id != (#[trigger] plan@[b]).id by {
            if a < b {
                assert(pos[a] < pos[b]);
            } else {
                assert(pos[b] < pos[a]);
            }
        }
        assert forall|a: int, b: int|
            0 <= a < plan@.len() && 0 <= b < plan@.len() && (
            #[trigger] plan@[a]).parents@.contains((#[trigger] plan@[b]).id) implies b < a by {
            let ka = commits0.index_of(plan@[a]);
            assert(is_commit_id(commits0, commits0[ka].id));
            assert(g[commits0[ka].id] == commits0[ka].parents@);
            assert(has_edge(g, order@[pos[a]], order@[pos[b]]));
            assert(pos[b] < pos[a]);
            if a < b {
                assert(pos[a] < pos[b]);
            }
        }
        crate::topo_sort::lemma_order_excludes_cycle(g, order@);
        assert forall|a: int, b: int|
            0 <= a < slot_of.len() && 0 <= b < slot_of.len() && a != b implies slot_of[a]
            != slot_of[b] by {
            assert(plan@[a].id != plan@[b].id);
        }
        assert forall|x: int| 0 <= x < n implies slot_of.contains(x) by {
            assert(plan@.contains(commits0[x]));
            let a = plan@.index_of(commits0[x]);
            assert(commits0[slot_of[a]].id == commits0[x].id);
            assert(slot_of[a] == x);
        }
        crate::topo_sort::lemma_permutation_len(slot_of, n as int);
    }
    Some(plan)
}

/// The walk over the parent graph that collects what has to be derived.
pub struct Planner {
    target: ChangesetId,
    queue: VecDeque<ChangesetId>,
    visited: Vec<ChangesetId>,
    commits: Vec<BonsaiChangeset>,
    mapped: Ghost<Seq<ChangesetId>>,
    phase: PlannerPhase,
}

impl View for Planner {
    type V = PlannerView;

    closed spec fn view(&self) -> PlannerView {
        PlannerView {
            target: self.target,
            queue: self.queue@,
            visited: self.visited@,
            commits: self.commits@,
            mapped: self.mapped@,
            phase: self.phase,
        }
    }
}

impl Planner {
    #[verifier::type_invariant]
    spec fn inv(self) -> bool {
        planner_inv(self@) && planner_sound(self@)
    }

    /// The planner that is about to look up `target`.
    pub fn new(target: ChangesetId) -> (r: Self)
        ensures
            r@ == initial_planner(target),
            planner_inv(r@),
            planner_sound(r@),
    {
        let mut visited: Vec<ChangesetId> = Vec::new();
        visited.push(target);
        proof {
            lemma_initial_planner(target);
            lemma_initial_planner_sound(target);
            assert(visited@ =~= seq![target]);
        }
        Planner {
            target,
            queue: VecDeque::new(),
            visited,
            commits: Vec::new(),
            mapped: Ghost(Seq::empty()),
            phase: PlannerPhase::Lookup(target),
        }
    }

    /// What the planner asks for.
    pub fn request(&self) -> (r: PlannerRequest)
        ensures
            r == planner_request(self@.phase),
            planner_inv(self@),
            planner_sound(self@),
    {
        proof {
            use_type_invariant(self);
        }
        match self.phase {
            PlannerPhase::Lookup(id) => PlannerRequest::LookupMapping(id),
            PlannerPhase::Load(id) => PlannerRequest::LoadChangeset(id),
            PlannerPhase::Collected => PlannerRequest::Finish,
        }
    }

    /// The changesets collected so far.
    pub fn commits(&self) -> (r: &Vec<BonsaiChangeset>)
        ensures
            r@ == self@.commits,
    {
        &self.commits
    }

    /// The planner after `event`, or `None` where it is not waiting for
    /// such an event.
    pub fn step(self, event: PlannerEvent) -> (r: Option<Planner>)
        ensures
            match r {
                Some(next) => planner_step(self@, event) == Some(next@),
                None => planner_step(self@, event) is None,
            },
    {
        proof {
            use_type_invariant(&self);
            if planner_step(self@, event) is Some {
                lemma_step_keeps_inv(self@, event);
                lemma_step_keeps_sound(self@, event);
            }
        }
        let ghost before = self@;
        let Planner { target, queue: mut queue, visited: mut visited, commits: mut commits, mapped, phase } =
            self;
        match (phase, event) {
            (PlannerPhase::Lookup(id), PlannerEvent::Mapping(Some(_))) => {
                let ghost mapped2 = mapped@.push(id);
                let next = match queue.pop_front() {
                    Some(head) => PlannerPhase::Lookup(head),
                    None => PlannerPhase::Collected,
                };
                let r = Planner { target, queue, visited, commits, mapped: Ghost(mapped2), phase: next };
                proof {
                    let u = PlannerView { mapped: mapped2, ..before };
                    if before.queue.len() > 0 {
                        assert(r@.queue =~= before.queue.drop_first());
                    }
                    assert(r@ == advance(u));
                }
                Some(r)
            },
            (PlannerPhase::Lookup(id), PlannerEvent::Mapping(None)) => {
                Some(Planner { target, queue, visited, commits, mapped, phase: PlannerPhase::Load(id) })
            },
            (PlannerPhase::Load(id), PlannerEvent::Loaded(bcs)) => {
                if bcs.id == id {
                    let mut j: usize = 0;
                    while j < bcs.parents.len()
                        invariant
                            0 <= j <= bcs.parents.len(),
                            (queue@, visited@) == enqueue_unvisited(
                                before.queue,
                                before.visited,
                                bcs.parents@.take(j as int),
                            ),
                        decreases bcs.parents.len() - j,
                    {
                        let p = bcs.parents[j];
                        proof {
                            assert(bcs.parents@.take(j + 1).drop_last() =~= bcs.parents@.take(
                                j as int,
                            ));
                            assert(bcs.parents@.take(j + 1).last() == p);
                        }
                        if !contains_id(&visited, p) {
                            visited.push(p);
                            queue.push_back(p);
                        }
                        j += 1;
                    }
                    proof {
                        assert(bcs.parents@.take(bcs.parents@.len() as int) =~= bcs.parents@);
                    }
                    commits.push(bcs);
                    let ghost u = PlannerView {
                        commits: commits@,
                        queue: queue@,
                        visited: visited@,
                        ..before
                    };
                    let next = match queue.pop_front() {
                        Some(head) => PlannerPhase::Lookup(head),
                        None => PlannerPhase::Collected,
                    };
                    let r = Planner { target, queue, visited, commits, mapped, phase: next };
                    proof {
                        if u.queue.len() > 0 {
                            assert(r@.queue =~= u.queue.drop_first());
                        }
                        assert(r@ == advance(u));
                    }
                    Some(r)
                } else {
                    None
                }
            },
            _ => None,
        }
    }

    /// The changesets that were collected, in an order in which no changeset
    /// comes before one of its parents. Changesets whose parents form a
    /// cycle are left out: such a graph is corrupt, and there is no plan
    /// for it. `try_finish` tells whether it is so.
    pub fn finish(self) -> (r: Vec<BonsaiChangeset>)
        requires
            !has_cycle(parent_graph(self@.commits)),
        ensures
            is_plan_order(self@.commits, r@),
    {
        match self.try_finish() {
            Some(plan) => plan,
            None => vstd::pervasive::unreached(),
        }
    }

    /// The changesets that were collected, in an order in which no changeset
    /// comes before one of its parents; `None` where the parents of the
    /// collected changesets form a cycle, and only then.
    pub fn try_finish(self) -> (r: Option<Vec<BonsaiChangeset>>)
        ensures
            r is None <==> has_cycle(parent_graph(self@.commits)),
            r matches Some(plan) ==> is_plan_order(self@.commits, plan@),
    {
        proof {
            use_type_invariant(&self);
        }
        let Planner { target: _, queue: _, visited: _, commits, mapped: _, phase: _ } = self;
        order_parents_first(commits)
    }
}

} // verus!
