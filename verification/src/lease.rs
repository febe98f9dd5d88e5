//! Waiting for the right to derive one changeset.
//!
//! Servers that want the tree-manifest form of the same changeset compete for
//! a lease. The one that gets it derives and then gives the lease back; the
//! others poll the mapping, with growing pauses, until the result shows up
//! or the lease falls to them.

use crate::ids::{ChangesetId, HgChangesetId};
use vstd::prelude::*;

verus! {

/// The pause, in milliseconds, after the first refusal.
pub const INITIAL_BACKOFF_MS: u64 = 200;

/// The longest pause, in milliseconds.
pub const MAX_BACKOFF_MS: u64 = 1000;

/// The pause that follows a pause of `ms` milliseconds: twice as long, but
/// no longer than the longest pause.
pub open spec fn spec_next_backoff(ms: u64) -> u64 {
    if 2 * ms >= MAX_BACKOFF_MS {
        MAX_BACKOFF_MS
    } else {
        (2 * ms) as u64
    }
}

/// The pause after `retries` refusals have already been waited out.
pub open spec fn backoff_after(retries: nat) -> u64
    decreases retries,
{
    if retries == 0 {
        INITIAL_BACKOFF_MS
    } else {
        spec_next_backoff(backoff_after((retries - 1) as nat))
    }
}

/// The pauses are 200, 400, 800 and from then on 1000 milliseconds.
pub proof fn lemma_backoff_schedule(retries: nat)
    ensures
        backoff_after(0) == 200,
        backoff_after(1) == 400,
        backoff_after(2) == 800,
        retries >= 3 ==> backoff_after(retries) == 1000,
        INITIAL_BACKOFF_MS <= backoff_after(retries) <= MAX_BACKOFF_MS,
        backoff_after(retries) <= backoff_after(retries + 1),
    decreases retries,
{
    reveal_with_fuel(backoff_after, 4);
    if retries > 3 {
        lemma_backoff_schedule((retries - 1) as nat);
    }
}

/// The pause that follows a pause of `ms` milliseconds.
pub fn next_backoff(ms: u64) -> (r: u64)
    ensures
        r == spec_next_backoff(ms),
{
    if ms >= MAX_BACKOFF_MS / 2 {
        MAX_BACKOFF_MS
    } else {
        2 * ms
    }
}

/// Where an attempt to take the lease stands.
#[derive(Clone, Copy, Debug, PartialEq, Eq)]
pub enum LeasePhase {
    /// The lease store has been asked for the lease.
    Acquiring,
    /// The mapping has been asked for a result; `leased` says whether the
    /// lease was granted.
    Checking { leased: bool },
    /// The lease is being given back: the mapping held a result while the
    /// lease was held, or the holder has derived it.
    Releasing { found: HgChangesetId },
    /// Neither lease nor result: pausing before the next attempt.
    Sleeping,
    /// The lease is held and the mapping holds no result: the holder
    /// derives, and the attempt waits for the result.
    Granted,
    /// The mapping holds the result.
    Satisfied { found: HgChangesetId },
}

/// An attempt to take the lease for one changeset.
#[derive(Clone, Copy, Debug, PartialEq, Eq)]
pub struct LeaseAttempt {
    /// The changeset whose derivation the lease guards.
    pub bcs_id: ChangesetId,
    /// The pause that the next refusal leads to, in milliseconds.
    pub backoff_ms: u64,
    pub phase: LeasePhase,
}

/// What the stores answer to an attempt.
#[derive(Clone, Copy, Debug, PartialEq, Eq)]
pub enum LeaseEvent {
    /// The answer of the lease store: granted, refused, or `None` where the
    /// store failed.
    Lease(Option<bool>),
    /// What the mapping holds for the changeset.
    Mapping(Option<HgChangesetId>),
    /// The lease was given back, or giving it back failed.
    Released,
    /// The pause is over.
    Slept,
    /// The holder derived the changeset; the mapping now holds this result.
    Derived(HgChangesetId),
}

/// What an attempt waits for.
#[derive(Clone, Copy, Debug, PartialEq, Eq)]
pub enum LeaseRequest {
    /// Ask the lease store for the lease of this changeset.
    TryLease(ChangesetId),
    /// Ask the mapping for the result of this changeset.
    LookupMapping(ChangesetId),
    /// Give the lease of this changeset back.
    ReleaseLease(ChangesetId),
    /// Pause for this many milliseconds.
    Sleep(u64),
    /// The lease is held: derive the changeset and report the result.
    Derive(ChangesetId),
    /// The attempt is over: this is the result.
    Done(HgChangesetId),
}

/// Whether a failure of the lease store counts as a grant: it never does.
pub open spec fn lease_granted(answer: Option<bool>) -> bool {
    answer == Some(true)
}

/// The attempt after `event`, or `None` where the attempt is not waiting
/// for such an event.
pub open spec fn lease_step(s: LeaseAttempt, event: LeaseEvent) -> Option<LeaseAttempt> {
    match (s.phase, event) {
        (LeasePhase::Acquiring, LeaseEvent::Lease(answer)) => Some(
            LeaseAttempt { phase: LeasePhase::Checking { leased: lease_granted(answer) }, ..s },
        ),
        (LeasePhase::Checking { leased }, LeaseEvent::Mapping(Some(found))) => Some(
            LeaseAttempt {
                phase: if leased {
                    LeasePhase::Releasing { found }
                } else {
                    LeasePhase::Satisfied { found }
                },
                ..s
            },
        ),
        (LeasePhase::Checking { leased }, LeaseEvent::Mapping(None)) => Some(
            LeaseAttempt {
                phase: if leased {
                    LeasePhase::Granted
                } else {
                    LeasePhase::Sleeping
                },
                ..s
            },
        ),
        (LeasePhase::Granted, LeaseEvent::Derived(found)) => Some(
            LeaseAttempt { phase: LeasePhase::Releasing { found }, ..s },
        ),
        (LeasePhase::Releasing { found }, LeaseEvent::Released) => Some(
            LeaseAttempt { phase: LeasePhase::Satisfied { found }, ..s },
        ),
        (LeasePhase::Sleeping, LeaseEvent::Slept) => Some(
            LeaseAttempt {
                phase: LeasePhase::Acquiring,
                backoff_ms: spec_next_backoff(s.backoff_ms),
                ..s
            },
        ),
        _ => None,
    }
}

/// What an attempt in state `s` waits for.
pub open spec fn lease_request(s: LeaseAttempt) -> LeaseRequest {
    match s.phase {
        LeasePhase::Acquiring => LeaseRequest::TryLease(s.bcs_id),
        LeasePhase::Checking { .. } => LeaseRequest::LookupMapping(s.bcs_id),
        LeasePhase::Releasing { .. } => LeaseRequest::ReleaseLease(s.bcs_id),
        LeasePhase::Sleeping => LeaseRequest::Sleep(s.backoff_ms),
        LeasePhase::Granted => LeaseRequest::Derive(s.bcs_id),
        LeasePhase::Satisfied { found } => LeaseRequest::Done(found),
    }
}

impl LeaseAttempt {
    /// A fresh attempt for `bcs_id`: it asks for the lease first.
    pub fn new(bcs_id: ChangesetId) -> (r: Self)
        ensures
            r == (LeaseAttempt {
                bcs_id,
                backoff_ms: INITIAL_BACKOFF_MS,
                phase: LeasePhase::Acquiring,
            }),
    {
        LeaseAttempt { bcs_id, backoff_ms: INITIAL_BACKOFF_MS, phase: LeasePhase::Acquiring }
    }

    /// What the attempt waits for.
    pub fn request(&self) -> (r: LeaseRequest)
        ensures
            r == lease_request(*self),
    {
        match self.phase {
            LeasePhase::Acquiring => LeaseRequest::TryLease(self.bcs_id),
            LeasePhase::Checking { .. } => LeaseRequest::LookupMapping(self.bcs_id),
            LeasePhase::Releasing { .. } => LeaseRequest::ReleaseLease(self.bcs_id),
            LeasePhase::Sleeping => LeaseRequest::Sleep(self.backoff_ms),
            LeasePhase::Granted => LeaseRequest::Derive(self.bcs_id),
            LeasePhase::Satisfied { found } => LeaseRequest::Done(found),
        }
    }

    /// Whether the attempt is over: it has the result and holds no lease.
    pub fn is_finished(&self) -> (r: bool)
        ensures
            r == self.phase is Satisfied,
    {
        match self.phase {
            LeasePhase::Satisfied { .. } => true,
            _ => false,
        }
    }

    /// The attempt after `event`, or `None` where the attempt is not
    /// waiting for such an event.
    pub fn step(self, event: LeaseEvent) -> (r: Option<LeaseAttempt>)
        ensures
            r == lease_step(self, event),
    {
        match (self.phase, event) {
            (LeasePhase::Acquiring, LeaseEvent::Lease(answer)) => {
                let leased = match answer {
                    Some(granted) => granted,
                    None => false,
                };
                Some(
                    LeaseAttempt {
                        bcs_id: self.bcs_id,
                        backoff_ms: self.backoff_ms,
                        phase: LeasePhase::Checking { leased },
                    },
                )
            },
            (LeasePhase::Checking { leased }, LeaseEvent::Mapping(Some(found))) => {
                let phase = if leased {
                    LeasePhase::Releasing { found }
                } else {
                    LeasePhase::Satisfied { found }
                };
                Some(LeaseAttempt { bcs_id: self.bcs_id, backoff_ms: self.backoff_ms, phase })
            },
            (LeasePhase::Checking { leased }, LeaseEvent::Mapping(None)) => {
                let phase = if leased {
                    LeasePhase::Granted
                } else {
                    LeasePhase::Sleeping
                };
                Some(LeaseAttempt { bcs_id: self.bcs_id, backoff_ms: self.backoff_ms, phase })
            },
            (LeasePhase::Granted, LeaseEvent::Derived(found)) => Some(
                LeaseAttempt {
                    bcs_id: self.bcs_id,
                    backoff_ms: self.backoff_ms,
                    phase: LeasePhase::Releasing { found },
                },
            ),
            (LeasePhase::Releasing { found }, LeaseEvent::Released) => Some(
                LeaseAttempt {
                    bcs_id: self.bcs_id,
                    backoff_ms: self.backoff_ms,
                    phase: LeasePhase::Satisfied { found },
                },
            ),
            (LeasePhase::Sleeping, LeaseEvent::Slept) => Some(
                LeaseAttempt {
                    bcs_id: self.bcs_id,
                    backoff_ms: next_backoff(self.backoff_ms),
                    phase: LeasePhase::Acquiring,
                },
            ),
            _ => None,
        }
    }
}

/// The pause of an attempt stays between the first and the longest pause.
pub proof fn lemma_backoff_stays_in_range(s: LeaseAttempt, event: LeaseEvent)
    requires
        INITIAL_BACKOFF_MS <= s.backoff_ms <= MAX_BACKOFF_MS,
        lease_step(s, event) is Some,
    ensures
        INITIAL_BACKOFF_MS <= lease_step(s, event).unwrap().backoff_ms <= MAX_BACKOFF_MS,
        s.backoff_ms <= lease_step(s, event).unwrap().backoff_ms,
        lease_step(s, event).unwrap().bcs_id == s.bcs_id,
{
}

/// A failure of the lease store has the effect of a refusal.
pub proof fn lemma_failure_is_refusal(s: LeaseAttempt)
    ensures
        lease_step(s, LeaseEvent::Lease(None)) == lease_step(s, LeaseEvent::Lease(Some(false))),
{
}

/// An attempt that was granted the lease gives it back: after the derivation
/// it asks for the release, and only the answer to that ends it.
pub proof fn lemma_granted_lease_is_released(s: LeaseAttempt, found: HgChangesetId)
    requires
        s.phase is Granted,
    ensures
        lease_step(s, LeaseEvent::Derived(found)) matches Some(t) && lease_request(t)
            == LeaseRequest::ReleaseLease(s.bcs_id) && lease_step(t, LeaseEvent::Released) == Some(
            LeaseAttempt { phase: LeasePhase::Satisfied { found }, ..s },
        ),
{
}

/// Several attempts for one changeset, the lease they compete for and the
/// mapping they poll.
pub struct LeaseWorld {
    /// The attempt that holds the lease, if one does.
    pub holder: Option<int>,
    /// What the mapping holds for the changeset.
    pub mapping: Option<HgChangesetId>,
    /// Whether the mapping held a result before the attempts started.
    pub found_at_start: bool,
    pub attempts: Seq<LeaseAttempt>,
    /// How often the changeset was derived.
    pub derivations: nat,
    /// The attempt that derived the changeset, if one did.
    pub deriver: Option<int>,
}

/// Whether attempt `i` acts as the holder of the lease.
pub open spec fn acts_as_holder(s: LeaseAttempt) -> bool {
    s.phase == (LeasePhase::Checking { leased: true }) || s.phase is Releasing || s.phase
        is Granted
}

/// Whether `event` can come to attempt `i`: the lease is granted only while
/// nobody holds it, and the mapping answers what it holds.
pub open spec fn can_answer(w: LeaseWorld, i: int, event: LeaseEvent) -> bool {
    &&& 0 <= i < w.attempts.len()
    &&& lease_step(w.attempts[i], event) is Some
    &&& event == LeaseEvent::Lease(Some(true)) ==> w.holder is None
    &&& event matches LeaseEvent::Mapping(m) ==> m == w.mapping
}

/// What the mapping holds after `event`: a derivation stores its result
/// where nothing was stored, and nothing else changes the mapping.
pub open spec fn mapping_after(mapping: Option<HgChangesetId>, event: LeaseEvent) -> Option<
    HgChangesetId,
> {
    match (mapping, event) {
        (None, LeaseEvent::Derived(result)) => Some(result),
        _ => mapping,
    }
}

/// The world after `event` came to attempt `i`. The lease passes to the
/// attempt that is granted it, stays with it while it checks the mapping
/// and derives, and is free again when the attempt has given it back.
pub open spec fn world_after(w: LeaseWorld, i: int, event: LeaseEvent) -> LeaseWorld {
    LeaseWorld {
        holder: if event == LeaseEvent::Lease(Some(true)) {
            Some(i)
        } else if event == LeaseEvent::Released && w.holder == Some(i) {
            None
        } else {
            w.holder
        },
        mapping: mapping_after(w.mapping, event),
        attempts: w.attempts.update(i, lease_step(w.attempts[i], event).unwrap()),
        derivations: if event is Derived {
            w.derivations + 1
        } else {
            w.derivations
        },
        deriver: if event is Derived {
            Some(i)
        } else {
            w.deriver
        },
        ..w
    }
}

/// What holds of every world that the attempts can reach.
pub open spec fn world_inv(w: LeaseWorld) -> bool {
    &&& forall|i: int|
        0 <= i < w.attempts.len() ==> (acts_as_holder(#[trigger] w.attempts[i]) <==> w.holder
            == Some(i))
    &&& forall|i: int|
        0 <= i < w.attempts.len() ==> ((#[trigger] w.attempts[i]).phase matches LeasePhase::Releasing {
            found,
        } ==> w.mapping == Some(found))
    &&& forall|i: int|
        0 <= i < w.attempts.len() ==> ((#[trigger] w.attempts[i]).phase matches LeasePhase::Satisfied {
            found,
        } ==> w.mapping == Some(found))
    &&& forall|i: int|
        0 <= i < w.attempts.len() && (#[trigger] w.attempts[i]).phase is Granted ==> w.mapping
            is None
    &&& w.mapping is None ==> w.derivations == 0 && !w.found_at_start
    &&& w.mapping is Some ==> (w.derivations == 1 <==> !w.found_at_start)
    &&& w.derivations <= 1
    &&& w.derivations == 1 <==> w.deriver is Some
    &&& w.deriver matches Some(d) ==> 0 <= d < w.attempts.len() && !(w.attempts[d].phase
        is Acquiring) && !(w.attempts[d].phase is Checking) && !(w.attempts[d].phase is Sleeping)
        && !(w.attempts[d].phase is Granted)
}

/// The world in which `n` fresh attempts for `bcs_id` are about to start.
pub open spec fn initial_world(bcs_id: ChangesetId, n: nat, mapping: Option<HgChangesetId>) -> LeaseWorld {
    LeaseWorld {
        holder: None,
        mapping,
        found_at_start: mapping is Some,
        attempts: Seq::new(
            n,
            |i: int|
                LeaseAttempt {
                    bcs_id,
                    backoff_ms: INITIAL_BACKOFF_MS,
                    phase: LeasePhase::Acquiring,
                },
        ),
        derivations: 0,
        deriver: None,
    }
}

/// The invariant holds when the attempts start.
pub proof fn lemma_initial_world(bcs_id: ChangesetId, n: nat, mapping: Option<HgChangesetId>)
    ensures
        world_inv(initial_world(bcs_id, n, mapping)),
{
}

/// Every event keeps the invariant: the answers of the stores, the
/// derivation of the holder and the release of the lease.
pub proof fn lemma_answer_keeps_inv(w: LeaseWorld, i: int, event: LeaseEvent)
    requires
        world_inv(w),
        can_answer(w, i, event),
    ensures
        world_inv(world_after(w, i, event)),
{
    let w2 = world_after(w, i, event);
    assert(acts_as_holder(w.attempts[i]) <==> w.holder == Some(i));
    assert(w.attempts[i].phase is Granted ==> w.mapping is None);
    assert(w.attempts[i].phase matches LeasePhase::Releasing { found } ==> w.mapping == Some(found));
    assert forall|j: int| 0 <= j < w2.attempts.len() implies (acts_as_holder(
        #[trigger] w2.attempts[j],
    ) <==> w2.holder == Some(j)) by {
        if j != i {
            assert(w2.attempts[j] == w.attempts[j]);
            assert(acts_as_holder(w.attempts[j]) <==> w.holder == Some(j));
        }
    }
    assert forall|j: int| 0 <= j < w2.attempts.len() implies ((
    #[trigger] w2.attempts[j]).phase matches LeasePhase::Releasing { found } ==> w2.mapping
        == Some(found)) by {
        if j != i {
            assert(w2.attempts[j] == w.attempts[j]);
            assert(w.attempts[j].phase matches LeasePhase::Releasing { found } ==> w.mapping
                == Some(found));
        }
    }
    assert forall|j: int| 0 <= j < w2.attempts.len() implies ((
    #[trigger] w2.attempts[j]).phase matches LeasePhase::Satisfied { found } ==> w2.mapping
        == Some(found)) by {
        if j != i {
            assert(w2.attempts[j] == w.attempts[j]);
            assert(w.attempts[j].phase matches LeasePhase::Satisfied { found } ==> w.mapping
                == Some(found));
        }
    }
    assert forall|j: int|
        0 <= j < w2.attempts.len() && (#[trigger] w2.attempts[j]).phase is Granted implies w2.mapping
        is None by {
        if j != i {
            assert(w2.attempts[j] == w.attempts[j]);
            assert(acts_as_holder(w.attempts[j]));
            assert(w.mapping is None);
            if event is Derived {
                assert(acts_as_holder(w.attempts[i]));
            }
        }
    }
}

/// What the mapping holds for the changeset never changes once it holds
/// something: a derivation stores its result only where nothing was stored.
pub proof fn lemma_mapping_is_stable(w: LeaseWorld, i: int, event: LeaseEvent)
    requires
        w.mapping is Some,
    ensures
        world_after(w, i, event).mapping == w.mapping,
{
}

/// How many events an attempt needs at most before it is over, once the
/// mapping holds the result.
pub open spec fn answers_needed(phase: LeasePhase) -> nat {
    match phase {
        LeasePhase::Sleeping => 4,
        LeasePhase::Acquiring => 3,
        LeasePhase::Checking { leased: true } => 2,
        LeasePhase::Checking { leased: false } => 1,
        LeasePhase::Granted => 2,
        LeasePhase::Releasing { .. } => 1,
        LeasePhase::Satisfied { .. } => 0,
    }
}

/// Once the mapping holds the result, every event brings an attempt closer
/// to returning it, whether the lease is granted or not: an attempt that
/// was refused the lease reads the result after four events at most.
pub proof fn lemma_result_is_read_soon(w: LeaseWorld, i: int, event: LeaseEvent)
    requires
        world_inv(w),
        w.mapping is Some,
        can_answer(w, i, event),
    ensures
        answers_needed(world_after(w, i, event).attempts[i].phase) < answers_needed(
            w.attempts[i].phase,
        ),
        answers_needed(world_after(w, i, event).attempts[i].phase) == 0 ==> world_after(
            w,
            i,
            event,
        ).attempts[i].phase == (LeasePhase::Satisfied { found: w.mapping.unwrap() }),
{
    assert(w.attempts[i].phase matches LeasePhase::Releasing { found } ==> w.mapping == Some(found));
    assert(w.attempts[i].phase is Granted ==> w.mapping is None);
}

/// In a reachable world at most one attempt holds the lease and derives,
/// the changeset was derived at most once, and all attempts that are over
/// have the same result, which is what the mapping holds.
pub proof fn lemma_mutual_exclusion(w: LeaseWorld, i: int, j: int)
    requires
        world_inv(w),
        0 <= i < w.attempts.len(),
        0 <= j < w.attempts.len(),
    ensures
        w.attempts[i].phase is Granted && w.attempts[j].phase is Granted ==> i == j,
        acts_as_holder(w.attempts[i]) && acts_as_holder(w.attempts[j]) ==> i == j,
        w.derivations <= 1,
        w.attempts[i].phase is Satisfied && w.attempts[j].phase is Satisfied
            ==> w.attempts[i].phase == w.attempts[j].phase,
        w.attempts[i].phase matches LeasePhase::Satisfied { found } ==> w.mapping == Some(found),
{
    assert(acts_as_holder(w.attempts[i]) <==> w.holder == Some(i));
    assert(acts_as_holder(w.attempts[j]) <==> w.holder == Some(j));
}

/// Where the mapping held nothing when the attempts started and one of
/// them is over, the changeset was derived exactly once: one attempt did
/// the work, it is the only one that was ever told to, and every attempt
/// that is over returns what it stored.
pub proof fn lemma_exactly_one_derivation(w: LeaseWorld, i: int)
    requires
        world_inv(w),
        !w.found_at_start,
        0 <= i < w.attempts.len(),
        w.attempts[i].phase is Satisfied,
    ensures
        w.derivations == 1,
        w.deriver matches Some(d) && 0 <= d < w.attempts.len(),
        w.attempts[i].phase == (LeasePhase::Satisfied { found: w.mapping.unwrap() }),
{
    assert(w.attempts[i].phase matches LeasePhase::Satisfied { found } ==> w.mapping == Some(found));
}

/// Where the mapping held a result when the attempts started, nobody
/// derives: no attempt is ever told to.
pub proof fn lemma_no_derivation_when_found(w: LeaseWorld, i: int)
    requires
        world_inv(w),
        w.found_at_start,
        0 <= i < w.attempts.len(),
    ensures
        w.derivations == 0,
        w.deriver is None,
        !(w.attempts[i].phase is Granted),
{
    assert(w.attempts[i].phase is Granted ==> w.mapping is None);
}

} // verus!
