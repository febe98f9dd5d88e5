//! Deriving the tree-manifest form of a changeset.
//!
//! A derivation plans which ancestors still lack the derived form, then
//! takes them one by one, parents first: it competes for the lease of the
//! changeset, and where it gets the lease it looks up the derived parents,
//! has the changeset generated and gives the lease back. In the end it
//! reads the result for the target from the mapping.
//!
//! The derivation itself touches no store. It says what to ask next, and is
//! told the answer.

use crate::bonsai::BonsaiChangeset;
use crate::ids::{ChangesetId, HgChangesetId};
use crate::lease::{lease_step, LeaseAttempt, LeaseEvent, LeasePhase, INITIAL_BACKOFF_MS};
use crate::planner::{
    initial_planner, is_plan_order, parent_graph, planner_inv, planner_sound, planner_step,
    Planner, PlannerEvent, PlannerPhase, PlannerRequest, PlannerView,
};
use crate::topo_sort::has_cycle;
use std::collections::VecDeque;
use vstd::prelude::*;

verus! {

/// What the stores, the clock and the generator answer to a derivation.
#[derive(Clone, Debug, PartialEq, Eq)]
pub enum Event {
    /// What the mapping holds for the changeset that was looked up.
    Mapping(Option<HgChangesetId>),
    /// The changeset that was to be loaded.
    Loaded(BonsaiChangeset),
    /// The answer of the lease store: granted, refused, or `None` where the
    /// store failed.
    Lease(Option<bool>),
    /// The lease was given back, or giving it back failed.
    Released,
    /// The pause is over.
    Slept,
    /// The changeset was generated and stored under this identifier, and
    /// the mapping knows it.
    Generated(HgChangesetId),
}

/// What a derivation asks its driver to do next.
#[derive(Clone, Debug, PartialEq, Eq)]
pub enum Action {
    /// Ask the mapping for the derived form of this changeset.
    LookupMapping(ChangesetId),
    /// Load this changeset from the content store.
    LoadChangeset(ChangesetId),
    /// Ask the lease store for the lease of this changeset.
    TryLease(ChangesetId),
    /// Give the lease of this changeset back.
    ReleaseLease(ChangesetId),
    /// Pause for this many milliseconds.
    Sleep(u64),
    /// Generate the derived form of `changeset`, whose parents have the
    /// derived forms `parents`, in the order of its parents. The lease is
    /// held: keep it alive until the generation is over. The derivation
    /// asks for its release once the generation is reported.
    Generate { changeset: BonsaiChangeset, parents: Vec<HgChangesetId> },
    /// The derivation is over: the target has the derived form `hg_cs_id`,
    /// and this derivation generated `generated` changesets on the way.
    Done { hg_cs_id: HgChangesetId, generated: usize },
}

/// The mathematical value of an `Action`.
pub enum ActionView {
    LookupMapping(ChangesetId),
    LoadChangeset(ChangesetId),
    TryLease(ChangesetId),
    ReleaseLease(ChangesetId),
    Sleep(u64),
    Generate { changeset: BonsaiChangeset, parents: Seq<HgChangesetId> },
    Done { hg_cs_id: HgChangesetId, generated: nat },
}

impl View for Action {
    type V = ActionView;

    open spec fn view(&self) -> ActionView {
        match self {
            Action::LookupMapping(id) => ActionView::LookupMapping(*id),
            Action::LoadChangeset(id) => ActionView::LoadChangeset(*id),
            Action::TryLease(id) => ActionView::TryLease(*id),
            Action::ReleaseLease(id) => ActionView::ReleaseLease(*id),
            Action::Sleep(ms) => ActionView::Sleep(*ms),
            Action::Generate { changeset, parents } => ActionView::Generate {
                changeset: *changeset,
                parents: parents@,
            },
            Action::Done { hg_cs_id, generated } => ActionView::Done {
                hg_cs_id: *hg_cs_id,
                generated: *generated as nat,
            },
        }
    }
}

/// Why a derivation cannot go on.
#[derive(Clone, Copy, Debug, PartialEq, Eq)]
pub enum DerivationError {
    /// The event is not an answer to what the derivation asked.
    UnexpectedEvent,
    /// The parents of the changesets to derive form a cycle: the graph is
    /// corrupt.
    CycleDetected,
    /// The mapping does not know this changeset, which must have been
    /// derived by now.
    MissingMapping(ChangesetId),
}

/// Where a derivation stands.
pub enum StageView {
    /// It collects the changesets to derive.
    Planning(PlannerView),
    /// It competes for the lease of the current changeset.
    Leasing(LeaseAttempt),
    /// It holds the lease and looks up the derived parents of the current
    /// changeset; these are known so far.
    Parents { attempt: LeaseAttempt, found: Seq<HgChangesetId> },
    /// The current changeset is being generated.
    Generating { attempt: LeaseAttempt },
    /// Everything is derived; the result for the target is being read.
    FinalLookup,
    /// The result was handed out.
    Finished,
}

/// The mathematical value of a derivation.
pub struct DerivationView {
    /// The changeset whose derived form was asked for.
    pub target: ChangesetId,
    /// The changesets that are still to be taken, the next one first.
    pub todo: Seq<BonsaiChangeset>,
    /// The changeset that is being taken.
    pub current: Option<BonsaiChangeset>,
    /// How many changesets this derivation has generated.
    pub generated: nat,
    pub stage: StageView,
}

/// The part of `event` that a planner understands.
pub open spec fn planner_event(event: Event) -> Option<PlannerEvent> {
    match event {
        Event::Mapping(m) => Some(PlannerEvent::Mapping(m)),
        Event::Loaded(bcs) => Some(PlannerEvent::Loaded(bcs)),
        _ => None,
    }
}

/// The part of `event` that an attempt to take the lease understands.
pub open spec fn lease_event(event: Event) -> Option<LeaseEvent> {
    match event {
        Event::Mapping(m) => Some(LeaseEvent::Mapping(m)),
        Event::Lease(answer) => Some(LeaseEvent::Lease(answer)),
        Event::Released => Some(LeaseEvent::Released),
        Event::Slept => Some(LeaseEvent::Slept),
        _ => None,
    }
}

/// The derivation as it turns to the next changeset of `todo`, or to the
/// result where nothing is left.
pub open spec fn next_changeset(target: ChangesetId, todo: Seq<BonsaiChangeset>, generated: nat) -> (
    DerivationView,
    ActionView,
) {
    if todo.len() > 0 {
        (
            DerivationView {
                target,
                todo: todo.drop_first(),
                current: Some(todo[0]),
                generated,
                stage: StageView::Leasing(
                    LeaseAttempt {
                        bcs_id: todo[0].id,
                        backoff_ms: INITIAL_BACKOFF_MS,
                        phase: LeasePhase::Acquiring,
                    },
                ),
            },
            ActionView::TryLease(todo[0].id),
        )
    } else {
        (
            DerivationView {
                target,
                todo: Seq::empty(),
                current: None,
                generated,
                stage: StageView::FinalLookup,
            },
            ActionView::LookupMapping(target),
        )
    }
}

/// The derivation that holds the lease of `current` through `attempt` and
/// knows the derived forms `found` of its first parents: it asks for the
/// next parent, or has the changeset generated where all are known.
pub open spec fn next_parent(
    v: DerivationView,
    attempt: LeaseAttempt,
    current: BonsaiChangeset,
    found: Seq<HgChangesetId>,
) -> (DerivationView, ActionView) {
    if found.len() < current.parents@.len() {
        (
            DerivationView {
                current: Some(current),
                stage: StageView::Parents { attempt, found },
                ..v
            },
            ActionView::LookupMapping(current.parents@[found.len() as int]),
        )
    } else {
        (
            DerivationView { current: None, stage: StageView::Generating { attempt }, ..v },
            ActionView::Generate { changeset: current, parents: found },
        )
    }
}

/// Whether `event` ends the planning of a derivation in state `v` with a
/// cycle among the parents of the changesets to derive. Such a graph is
/// corrupt, and a derivation must not go on with it.
pub open spec fn finds_cycle(v: DerivationView, event: Event) -> bool {
    v.stage matches StageView::Planning(p) && planner_event(event) matches Some(pe)
        && planner_step(p, pe) matches Some(p2) && p2.phase is Collected && has_cycle(
        parent_graph(p2.commits),
    )
}

/// The derivation that is about to plan for `target`, and its first
/// question.
pub open spec fn initial_derivation(target: ChangesetId) -> (DerivationView, ActionView) {
    (
        DerivationView {
            target,
            todo: Seq::empty(),
            current: None,
            generated: 0,
            stage: StageView::Planning(initial_planner(target)),
        },
        ActionView::LookupMapping(target),
    )
}

/// Whether `r` is what a derivation in state `v` makes of `event`: the next
/// state and what to do, or why it cannot go on.
///
/// The order in which the planned changesets are taken is any order in
/// which no changeset comes before one of its parents. A changeset that was
/// generated is followed by the release of its lease, and the derivation
/// turns to the next changeset only when the lease is given back.
pub open spec fn derivation_next(
    v: DerivationView,
    event: Event,
    r: Result<(DerivationView, ActionView), DerivationError>,
) -> bool {
    match v.stage {
        StageView::Planning(p) => match planner_event(event) {
            None => r == Err::<(DerivationView, ActionView), _>(DerivationError::UnexpectedEvent),
            Some(pe) => match planner_step(p, pe) {
                None => r == Err::<(DerivationView, ActionView), _>(
                    DerivationError::UnexpectedEvent,
                ),
                Some(p2) => match p2.phase {
                    PlannerPhase::Lookup(id) => r == Ok::<_, DerivationError>(
                        (
                            DerivationView { stage: StageView::Planning(p2), ..v },
                            ActionView::LookupMapping(id),
                        ),
                    ),
                    PlannerPhase::Load(id) => r == Ok::<_, DerivationError>(
                        (
                            DerivationView { stage: StageView::Planning(p2), ..v },
                            ActionView::LoadChangeset(id),
                        ),
                    ),
                    PlannerPhase::Collected => if has_cycle(parent_graph(p2.commits)) {
                        r == Err::<(DerivationView, ActionView), _>(DerivationError::CycleDetected)
                    } else {
                        exists|plan: Seq<BonsaiChangeset>|
                            #![trigger is_plan_order(p2.commits, plan)]
                            is_plan_order(p2.commits, plan) && r == Ok::<_, DerivationError>(
                                next_changeset(v.target, plan, 0),
                            )
                    },
                },
            },
        },
        StageView::Leasing(attempt) => match lease_event(event) {
            None => r == Err::<(DerivationView, ActionView), _>(DerivationError::UnexpectedEvent),
            Some(le) => match lease_step(attempt, le) {
                None => r == Err::<(DerivationView, ActionView), _>(
                    DerivationError::UnexpectedEvent,
                ),
                Some(a2) => match a2.phase {
                    LeasePhase::Granted => v.current is Some && r == Ok::<_, DerivationError>(
                        next_parent(v, a2, v.current.unwrap(), Seq::empty()),
                    ),
                    LeasePhase::Satisfied { .. } => r == Ok::<_, DerivationError>(
                        next_changeset(v.target, v.todo, v.generated),
                    ),
                    LeasePhase::Acquiring => r == Ok::<_, DerivationError>(
                        (
                            DerivationView { stage: StageView::Leasing(a2), ..v },
                            ActionView::TryLease(a2.bcs_id),
                        ),
                    ),
                    LeasePhase::Checking { .. } => r == Ok::<_, DerivationError>(
                        (
                            DerivationView { stage: StageView::Leasing(a2), ..v },
                            ActionView::LookupMapping(a2.bcs_id),
                        ),
                    ),
                    LeasePhase::Releasing { .. } => r == Ok::<_, DerivationError>(
                        (
                            DerivationView { stage: StageView::Leasing(a2), ..v },
                            ActionView::ReleaseLease(a2.bcs_id),
                        ),
                    ),
                    LeasePhase::Sleeping => r == Ok::<_, DerivationError>(
                        (
                            DerivationView { stage: StageView::Leasing(a2), ..v },
                            ActionView::Sleep(a2.backoff_ms),
                        ),
                    ),
                },
            },
        },
        StageView::Parents { attempt, found } => match event {
            Event::Mapping(Some(hg)) => v.current is Some && r == Ok::<_, DerivationError>(
                next_parent(v, attempt, v.current.unwrap(), found.push(hg)),
            ),
            Event::Mapping(None) => v.current is Some && found.len()
                < v.current.unwrap().parents@.len() && r == Err::<(DerivationView, ActionView), _>(
                DerivationError::MissingMapping(v.current.unwrap().parents@[found.len() as int]),
            ),
            _ => r == Err::<(DerivationView, ActionView), _>(DerivationError::UnexpectedEvent),
        },
        StageView::Generating { attempt } => match event {
            Event::Generated(hg) => match lease_step(attempt, LeaseEvent::Derived(hg)) {
                Some(a2) => r == Ok::<_, DerivationError>(
                    (
                        DerivationView {
                            stage: StageView::Leasing(a2),
                            generated: v.generated + 1,
                            ..v
                        },
                        ActionView::ReleaseLease(a2.bcs_id),
                    ),
                ),
                None => r == Err::<(DerivationView, ActionView), _>(
                    DerivationError::UnexpectedEvent,
                ),
            },
            _ => r == Err::<(DerivationView, ActionView), _>(DerivationError::UnexpectedEvent),
        },
        StageView::FinalLookup => match event {
            Event::Mapping(Some(hg)) => r == Ok::<_, DerivationError>(
                (
                    DerivationView { stage: StageView::Finished, ..v },
                    ActionView::Done { hg_cs_id: hg, generated: v.generated },
                ),
            ),
            Event::Mapping(None) => r == Err::<(DerivationView, ActionView), _>(
                DerivationError::MissingMapping(v.target),
            ),
            _ => r == Err::<(DerivationView, ActionView), _>(DerivationError::UnexpectedEvent),
        },
        StageView::Finished => r == Err::<(DerivationView, ActionView), _>(
            DerivationError::UnexpectedEvent,
        ),
    }
}

/// The mathematical value of what a step of a derivation returns.
pub open spec fn outcome_view(r: Result<(Derivation, Action), DerivationError>) -> Result<
    (DerivationView, ActionView),
    DerivationError,
> {
    match r {
        Ok((d, a)) => Ok((d@, a@)),
        Err(e) => Err(e),
    }
}

enum Stage {
    Planning(Planner),
    Leasing(LeaseAttempt),
    Parents(LeaseAttempt, Vec<HgChangesetId>),
    Generating(LeaseAttempt),
    FinalLookup,
    Finished,
}

/// A derivation of the tree-manifest form of one changeset and of those of
/// its ancestors that lack it.
pub struct Derivation {
    target: ChangesetId,
    todo: VecDeque<BonsaiChangeset>,
    current: Option<BonsaiChangeset>,
    generated: usize,
    stage: Stage,
}

impl View for Derivation {
    type V = DerivationView;

    closed spec fn view(&self) -> DerivationView {
        DerivationView {
            target: self.target,
            todo: self.todo@,
            current: self.current,
            generated: self.generated as nat,
            stage: match self.stage {
                Stage::Planning(p) => StageView::Planning(p@),
                Stage::Leasing(a) => StageView::Leasing(a),
                Stage::Parents(attempt, found) => StageView::Parents { attempt, found: found@ },
                Stage::Generating(attempt) => StageView::Generating { attempt },
                Stage::FinalLookup => StageView::FinalLookup,
                Stage::Finished => StageView::Finished,
            },
        }
    }
}

/// What holds of every derivation: the planner is sound while it plans; a
/// changeset is at hand until it is generated or found derived, and the
/// lease that is asked for is the lease of that changeset; while its
/// parents are looked up and while it is generated the lease is held; and
/// the count of generated changesets cannot overflow.
pub open spec fn derivation_inv(v: DerivationView) -> bool {
    match v.stage {
        StageView::Planning(p) => planner_inv(p) && planner_sound(p) && p.target == v.target
            && v.generated == 0 && v.todo.len() == 0,
        StageView::Leasing(attempt) => if attempt.phase is Releasing {
            v.generated + v.todo.len() <= usize::MAX
        } else {
            v.current is Some && attempt.bcs_id == v.current.unwrap().id && v.generated
                + v.todo.len() < usize::MAX
        },
        StageView::Parents { attempt, found } => attempt.phase is Granted && v.current is Some
            && attempt.bcs_id == v.current.unwrap().id && found.len()
            < v.current.unwrap().parents@.len() && v.generated + v.todo.len() < usize::MAX,
        StageView::Generating { attempt } => attempt.phase is Granted && v.generated
            + v.todo.len() < usize::MAX,
        StageView::FinalLookup => true,
        StageView::Finished => true,
    }
}

fn take_next(target: ChangesetId, todo: VecDeque<BonsaiChangeset>, generated: usize) -> (r: (
    Derivation,
    Action,
))
    requires
        generated + todo@.len() <= usize::MAX,
    ensures
        (r.0@, r.1@) == next_changeset(target, todo@, generated as nat),
        derivation_inv(r.0@),
{
    let mut todo = todo;
    let ghost before = todo@;
    match todo.pop_front() {
        Some(next) => {
            let id = next.id;
            proof {
                assert(todo@ =~= before.drop_first());
            }
            (
                Derivation {
                    target,
                    todo,
                    current: Some(next),
                    generated,
                    stage: Stage::Leasing(LeaseAttempt::new(id)),
                },
                Action::TryLease(id),
            )
        },
        None => {
            proof {
                assert(todo@ =~= Seq::<BonsaiChangeset>::empty());
            }
            (
                Derivation { target, todo, current: None, generated, stage: Stage::FinalLookup },
                Action::LookupMapping(target),
            )
        },
    }
}

fn resolve_parents(
    target: ChangesetId,
    todo: VecDeque<BonsaiChangeset>,
    generated: usize,
    attempt: LeaseAttempt,
    current: BonsaiChangeset,
    found: Vec<HgChangesetId>,
    Ghost(before): Ghost<DerivationView>,
) -> (r: (Derivation, Action))
    requires
        generated + todo@.len() < usize::MAX,
        attempt.phase is Granted,
        attempt.bcs_id == current.id,
        before.target == target,
        before.todo == todo@,
        before.generated == generated,
    ensures
        (r.0@, r.1@) == next_parent(before, attempt, current, found@),
        derivation_inv(r.0@),
{
    if found.len() < current.parents.len() {
        let next = current.parents[found.len()];
        (
            Derivation {
                target,
                todo,
                current: Some(current),
                generated,
                stage: Stage::Parents(attempt, found),
            },
            Action::LookupMapping(next),
        )
    } else {
        (
            Derivation { target, todo, current: None, generated, stage: Stage::Generating(attempt) },
            Action::Generate { changeset: current, parents: found },
        )
    }
}

impl Derivation {
    #[verifier::type_invariant]
    spec fn inv(self) -> bool {
        derivation_inv(self@)
    }

    /// The derivation of `target`, and its first question.
    pub fn new(target: ChangesetId) -> (r: (Derivation, Action))
        ensures
            (r.0@, r.1@) == initial_derivation(target),
            derivation_inv(r.0@),
    {
        let planner = Planner::new(target);
        let d = Derivation {
            target,
            todo: VecDeque::new(),
            current: None,
            generated: 0,
            stage: Stage::Planning(planner),
        };
        assert(d@.todo =~= Seq::<BonsaiChangeset>::empty());
        (d, Action::LookupMapping(target))
    }

    /// The changeset whose derived form was asked for.
    pub fn target(&self) -> (r: ChangesetId)
        ensures
            r == self@.target,
    {
        self.target
    }

    /// How many changesets this derivation has generated so far.
    pub fn generated(&self) -> (r: usize)
        ensures
            r == self@.generated,
            derivation_inv(self@),
    {
        proof {
            use_type_invariant(self);
        }
        self.generated
    }

    /// What the derivation makes of `event`: its next state and what to do
    /// next, or why it cannot go on. An event that ends the planning with a
    /// cycle among the changesets to derive is left out: the graph is
    /// corrupt then, and whoever drives the derivation has to stop for good.
    /// `checked_step` tells whether it is so.
    pub fn step(self, event: Event) -> (r: Result<(Derivation, Action), DerivationError>)
        requires
            !finds_cycle(self@, event),
        ensures
            derivation_next(self@, event, outcome_view(r)),
            r != Err::<(Derivation, Action), _>(DerivationError::CycleDetected),
            r matches Ok((next, _)) ==> derivation_inv(next@),
    {
        self.checked_step(event)
    }

    /// What the derivation makes of `event`, whatever the event: its next
    /// state and what to do next, or why it cannot go on. The error is
    /// `CycleDetected` exactly where the event ends the planning with a
    /// cycle among the changesets to derive.
    pub fn checked_step(self, event: Event) -> (r: Result<(Derivation, Action), DerivationError>)
        ensures
            derivation_next(self@, event, outcome_view(r)),
            r == Err::<(Derivation, Action), _>(DerivationError::CycleDetected) <==> finds_cycle(
                self@,
                event,
            ),
            r matches Ok((next, _)) ==> derivation_inv(next@),
    {
        proof {
            use_type_invariant(&self);
        }
        let ghost before = self@;
        let Derivation { target, todo, current, generated, stage } = self;
        match stage {
            Stage::Planning(planner) => {
                let pe = match event {
                    Event::Mapping(m) => PlannerEvent::Mapping(m),
                    Event::Loaded(bcs) => PlannerEvent::Loaded(bcs),
                    _ => {
                        return Err(DerivationError::UnexpectedEvent);
                    },
                };
                let p2 = match planner.step(pe) {
                    Some(p2) => p2,
                    None => {
                        return Err(DerivationError::UnexpectedEvent);
                    },
                };
                match p2.request() {
                    PlannerRequest::LookupMapping(id) => Ok(
                        (
                            Derivation { target, todo, current, generated, stage: Stage::Planning(p2) },
                            Action::LookupMapping(id),
                        ),
                    ),
                    PlannerRequest::LoadChangeset(id) => Ok(
                        (
                            Derivation { target, todo, current, generated, stage: Stage::Planning(p2) },
                            Action::LoadChangeset(id),
                        ),
                    ),
                    PlannerRequest::Finish => {
                        let ghost commits = p2@.commits;
                        match p2.try_finish() {
                            None => Err(DerivationError::CycleDetected),
                            Some(plan) => {
                                let ghost plan0 = plan@;
                                let len = plan.len();
                                let mut queue: VecDeque<BonsaiChangeset> = VecDeque::new();
                                for c in it: plan
                                    invariant
                                        it.seq() == plan0,
                                        plan0.len() == len,
                                        queue@ == plan0.take(it.index() as int),
                                {
                                    proof {
                                        assert(plan0.take(it.index() + 1) =~= plan0.take(
                                            it.index() as int,
                                        ).push(c));
                                    }
                                    queue.push_back(c);
                                }
                                proof {
                                    assert(plan0.take(plan0.len() as int) =~= plan0);
                                    assert(is_plan_order(commits, plan0));
                                }
                                Ok(take_next(target, queue, 0))
                            },
                        }
                    },
                }
            },
            Stage::Leasing(attempt) => {
                let le = match event {
                    Event::Mapping(m) => LeaseEvent::Mapping(m),
                    Event::Lease(answer) => LeaseEvent::Lease(answer),
                    Event::Released => LeaseEvent::Released,
                    Event::Slept => LeaseEvent::Slept,
                    _ => {
                        return Err(DerivationError::UnexpectedEvent);
                    },
                };
                let a2 = match attempt.step(le) {
                    Some(a2) => a2,
                    None => {
                        return Err(DerivationError::UnexpectedEvent);
                    },
                };
                match a2.phase {
                    LeasePhase::Granted => match current {
                        Some(c) => Ok(
                            resolve_parents(
                                target,
                                todo,
                                generated,
                                a2,
                                c,
                                Vec::new(),
                                Ghost(before),
                            ),
                        ),
                        None => Err(DerivationError::UnexpectedEvent),
                    },
                    LeasePhase::Satisfied { .. } => Ok(take_next(target, todo, generated)),
                    LeasePhase::Acquiring => Ok(
                        (
                            Derivation { target, todo, current, generated, stage: Stage::Leasing(a2) },
                            Action::TryLease(a2.bcs_id),
                        ),
                    ),
                    LeasePhase::Checking { .. } => Ok(
                        (
                            Derivation { target, todo, current, generated, stage: Stage::Leasing(a2) },
                            Action::LookupMapping(a2.bcs_id),
                        ),
                    ),
                    LeasePhase::Releasing { .. } => Ok(
                        (
                            Derivation { target, todo, current, generated, stage: Stage::Leasing(a2) },
                            Action::ReleaseLease(a2.bcs_id),
                        ),
                    ),
                    LeasePhase::Sleeping => Ok(
                        (
                            Derivation { target, todo, current, generated, stage: Stage::Leasing(a2) },
                            Action::Sleep(a2.backoff_ms),
                        ),
                    ),
                }
            },
            Stage::Parents(attempt, found) => match (event, current) {
                (Event::Mapping(Some(hg)), Some(c)) => {
                    let mut found = found;
                    found.push(hg);
                    Ok(resolve_parents(target, todo, generated, attempt, c, found, Ghost(before)))
                },
                (Event::Mapping(None), Some(c)) => Err(
                    DerivationError::MissingMapping(c.parents[found.len()]),
                ),
                _ => Err(DerivationError::UnexpectedEvent),
            },
            Stage::Generating(attempt) => match event {
                Event::Generated(hg) => match attempt.step(LeaseEvent::Derived(hg)) {
                    Some(a2) => Ok(
                        (
                            Derivation {
                                target,
                                todo,
                                current,
                                generated: generated + 1,
                                stage: Stage::Leasing(a2),
                            },
                            Action::ReleaseLease(a2.bcs_id),
                        ),
                    ),
                    None => Err(DerivationError::UnexpectedEvent),
                },
                _ => Err(DerivationError::UnexpectedEvent),
            },
            Stage::FinalLookup => match event {
                Event::Mapping(Some(hg)) => Ok(
                    (
                        Derivation { target, todo, current, generated, stage: Stage::Finished },
                        Action::Done { hg_cs_id: hg, generated },
                    ),
                ),
                Event::Mapping(None) => Err(DerivationError::MissingMapping(target)),
                _ => Err(DerivationError::UnexpectedEvent),
            },
            Stage::Finished => Err(DerivationError::UnexpectedEvent),
        }
    }
}

/// A derivation whose target the mapping already knows generates nothing:
/// it asks the mapping once more and hands out what the mapping holds.
pub proof fn lemma_known_target_is_read_back(
    target: ChangesetId,
    known: HgChangesetId,
    first: Result<(DerivationView, ActionView), DerivationError>,
    second: Result<(DerivationView, ActionView), DerivationError>,
)
    requires
        derivation_next(initial_derivation(target).0, Event::Mapping(Some(known)), first),
        first matches Ok((v, _)) ==> derivation_next(v, Event::Mapping(Some(known)), second),
    ensures
        first matches Ok((v, a)) && a == ActionView::LookupMapping(target) && v.stage
            is FinalLookup,
        second matches Ok((v, a)) && a == (ActionView::Done { hg_cs_id: known, generated: 0 })
            && v.stage is Finished,
{
    let start = initial_derivation(target).0;
    let p = initial_planner(target);
    let p2 = planner_step(p, PlannerEvent::Mapping(Some(known))).unwrap();
    assert(p2.phase is Collected);
    assert(p2.commits.len() == 0);
    let g = parent_graph(p2.commits);
    assert(g =~= Map::<ChangesetId, Seq<ChangesetId>>::empty());
    if has_cycle(g) {
        let path = choose|path: Seq<ChangesetId>| crate::topo_sort::is_cycle(g, path);
        assert(crate::topo_sort::has_edge(
            g,
            path[0],
            path[crate::topo_sort::next_on_cycle(0, path.len() as int)],
        ));
    }
    let plan = choose|plan: Seq<BonsaiChangeset>|
        #![trigger is_plan_order(p2.commits, plan)]
        is_plan_order(p2.commits, plan) && first == Ok::<_, DerivationError>(
            next_changeset(start.target, plan, 0),
        );
    if plan.len() > 0 {
        assert(p2.commits.contains(plan[0]));
    }
}

/// Where a derivation has a changeset generated, it hands over the derived
/// form of each of its parents: all of them were in the mapping before.
/// And the lease that it holds, and gives back afterwards, is the lease of
/// that changeset.
pub proof fn lemma_generate_follows_parents(
    v: DerivationView,
    event: Event,
    r: Result<(DerivationView, ActionView), DerivationError>,
)
    requires
        derivation_inv(v),
        derivation_next(v, event, r),
    ensures
        r matches Ok((w, ActionView::Generate { changeset, parents })) ==> (parents.len()
            == changeset.parents@.len() && v.current == Some(changeset) && (
        w.stage matches StageView::Generating { attempt } && attempt.bcs_id == changeset.id)),
{
    match r {
        Ok((_, ActionView::Generate { changeset, parents })) => {
            match v.stage {
                StageView::Planning(p) => {
                    let pe = planner_event(event).unwrap();
                    let p2 = planner_step(p, pe).unwrap();
                    if p2.phase is Collected {
                        let plan = choose|plan: Seq<BonsaiChangeset>|
                            #![trigger is_plan_order(p2.commits, plan)]
                            is_plan_order(p2.commits, plan) && r == Ok::<_, DerivationError>(
                                next_changeset(v.target, plan, 0),
                            );
                    }
                },
                _ => {},
            }
        },
        _ => {},
    }
}

/// The lease of a changeset is given back once the changeset is generated:
/// after the generation the derivation asks for the release of that lease,
/// and it turns to the next changeset only on the answer to that.
pub proof fn lemma_lease_is_released_after_generation(
    v: DerivationView,
    id: ChangesetId,
    hg: HgChangesetId,
    first: Result<(DerivationView, ActionView), DerivationError>,
    second: Result<(DerivationView, ActionView), DerivationError>,
)
    requires
        derivation_inv(v),
        v.stage matches StageView::Generating { attempt } && attempt.bcs_id == id,
        derivation_next(v, Event::Generated(hg), first),
        first matches Ok((w, _)) ==> derivation_next(w, Event::Released, second),
    ensures
        first matches Ok((w, a)) && a == ActionView::ReleaseLease(id) && w.generated
            == v.generated + 1 && w.stage is Leasing,
        second == Ok::<_, DerivationError>(next_changeset(v.target, v.todo, v.generated + 1)),
{
}

/// The count of a derivation counts its generations and nothing else: it
/// grows by one with every changeset that this derivation generated, and
/// stays where a lease attempt ends with what another one stored.
pub proof fn lemma_count_counts_generations(
    v: DerivationView,
    event: Event,
    r: Result<(DerivationView, ActionView), DerivationError>,
)
    requires
        derivation_inv(v),
        derivation_next(v, event, r),
    ensures
        r matches Ok((w, _)) ==> w.generated == v.generated + (if event is Generated {
            1nat
        } else {
            0nat
        }),
        r matches Ok((_, ActionView::Done { generated, .. })) ==> generated == v.generated,
{
    match v.stage {
        StageView::Planning(p) => {
            if planner_event(event) is Some && planner_step(p, planner_event(event).unwrap())
                is Some {
                let p2 = planner_step(p, planner_event(event).unwrap()).unwrap();
                if p2.phase is Collected && !has_cycle(parent_graph(p2.commits)) {
                    let plan = choose|plan: Seq<BonsaiChangeset>|
                        #![trigger is_plan_order(p2.commits, plan)]
                        is_plan_order(p2.commits, plan) && r == Ok::<_, DerivationError>(
                            next_changeset(v.target, plan, 0),
                        );
                }
            }
        },
        _ => {},
    }
}

/// The target is taken last: when the planning is over and something is to
/// derive, the changeset at the end of the line is the one that was asked
/// for, so all of its ancestors that lacked the derived form have theirs
/// before its own generation begins.
pub proof fn lemma_target_is_taken_last(
    v: DerivationView,
    event: Event,
    r: Result<(DerivationView, ActionView), DerivationError>,
)
    requires
        derivation_inv(v),
        v.stage is Planning,
        derivation_next(v, event, r),
    ensures
        r is Ok && r.unwrap().0.stage is Leasing ==> (if r.unwrap().0.todo.len() > 0 {
            r.unwrap().0.todo.last().id == v.target
        } else {
            r.unwrap().0.current is Some && r.unwrap().0.current.unwrap().id == v.target
        }),
{
    if let StageView::Planning(p) = v.stage {
        if planner_event(event) is Some && planner_step(p, planner_event(event).unwrap()) is Some {
            let pe = planner_event(event).unwrap();
            let p2 = planner_step(p, pe).unwrap();
            crate::planner::lemma_step_keeps_inv(p, pe);
            crate::planner::lemma_step_keeps_sound(p, pe);
            if p2.phase is Collected && !has_cycle(parent_graph(p2.commits)) {
                let plan = choose|plan: Seq<BonsaiChangeset>|
                    #![trigger is_plan_order(p2.commits, plan)]
                    is_plan_order(p2.commits, plan) && r == Ok::<_, DerivationError>(
                        next_changeset(v.target, plan, 0),
                    );
                if plan.len() > 0 {
                    crate::planner::lemma_target_is_last(p2, plan);
                    if plan.len() > 1 {
                        assert(plan.drop_first().last() == plan.last());
                    }
                }
            }
        }
    }
}

} // verus!
