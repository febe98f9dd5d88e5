//! Finding the identifiers of a changeset in one form for those in the
//! other.
//!
//! The mapping stores the pair of a changeset once its tree-manifest form
//! is derived. A lookup by identifiers of the content-addressed graph
//! derives what is missing, as far as the repository knows the changeset;
//! a lookup by identifiers of the tree-manifest form returns what is
//! stored.

use crate::ids::{ChangesetId, HgChangesetId};
use crate::topo_sort::contains_id;
use vstd::prelude::*;

verus! {

/// A pair of the mapping: a changeset in the tree-manifest form and in the
/// content-addressed graph.
pub type MappingPair = (HgChangesetId, ChangesetId);

/// The identifiers that a lookup is for.
#[derive(Clone, Debug, PartialEq, Eq)]
pub enum BonsaiOrHgChangesetIds {
    Bonsai(Vec<ChangesetId>),
    Hg(Vec<HgChangesetId>),
}

/// Whether one of `pairs` is for the changeset `id`.
pub open spec fn is_mapped(pairs: Seq<MappingPair>, id: ChangesetId) -> bool {
    exists|k: int| 0 <= k < pairs.len() && (#[trigger] pairs[k]).1 == id
}

/// Those of `requested`, in their order, for which `pairs` holds nothing.
pub open spec fn unmapped(requested: Seq<ChangesetId>, pairs: Seq<MappingPair>) -> Seq<ChangesetId>
    decreases requested.len(),
{
    if requested.len() == 0 {
        Seq::empty()
    } else {
        let rest = unmapped(requested.drop_last(), pairs);
        if is_mapped(pairs, requested.last()) {
            rest
        } else {
            rest.push(requested.last())
        }
    }
}

/// Those of `missing`, in their order, that occur in `existing`.
pub open spec fn known(missing: Seq<ChangesetId>, existing: Seq<ChangesetId>) -> Seq<ChangesetId>
    decreases missing.len(),
{
    if missing.len() == 0 {
        Seq::empty()
    } else {
        let rest = known(missing.drop_last(), existing);
        if existing.contains(missing.last()) {
            rest.push(missing.last())
        } else {
            rest
        }
    }
}

fn has_pair(pairs: &Vec<MappingPair>, id: ChangesetId) -> (r: bool)
    ensures
        r == is_mapped(pairs@, id),
{
    let mut k: usize = 0;
    while k < pairs.len()
        invariant
            0 <= k <= pairs.len(),
            forall|j: int| 0 <= j < k ==> (#[trigger] pairs@[j]).1 != id,
        decreases pairs.len() - k,
    {
        if pairs[k].1 == id {
            return true;
        }
        k += 1;
    }
    false
}

/// Those of `requested` for which the mapping returned nothing.
pub fn missing_from_mapping(requested: &Vec<ChangesetId>, pairs: &Vec<MappingPair>) -> (r: Vec<
    ChangesetId,
>)
    ensures
        r@ == unmapped(requested@, pairs@),
{
    let mut out: Vec<ChangesetId> = Vec::new();
    let mut i: usize = 0;
    assert(requested@.take(0) =~= Seq::empty());
    while i < requested.len()
        invariant
            0 <= i <= requested.len(),
            out@ == unmapped(requested@.take(i as int), pairs@),
        decreases requested.len() - i,
    {
        proof {
            assert(requested@.take(i + 1).drop_last() =~= requested@.take(i as int));
            assert(requested@.take(i + 1).last() == requested@[i as int]);
        }
        if !has_pair(pairs, requested[i]) {
            out.push(requested[i]);
        }
        i += 1;
    }
    proof {
        assert(requested@.take(requested@.len() as int) =~= requested@);
    }
    out
}

/// Those of `missing` that the repository knows.
pub fn known_to_repo(missing: &Vec<ChangesetId>, existing: &Vec<ChangesetId>) -> (r: Vec<ChangesetId>)
    ensures
        r@ == known(missing@, existing@),
{
    let mut out: Vec<ChangesetId> = Vec::new();
    let mut i: usize = 0;
    assert(missing@.take(0) =~= Seq::empty());
    while i < missing.len()
        invariant
            0 <= i <= missing.len(),
            out@ == known(missing@.take(i as int), existing@),
        decreases missing.len() - i,
    {
        proof {
            assert(missing@.take(i + 1).drop_last() =~= missing@.take(i as int));
            assert(missing@.take(i + 1).last() == missing@[i as int]);
        }
        if contains_id(existing, missing[i]) {
            out.push(missing[i]);
        }
        i += 1;
    }
    proof {
        assert(missing@.take(missing@.len() as int) =~= missing@);
    }
    out
}

/// What the stores and the derivations answer to a lookup.
#[derive(Clone, Debug, PartialEq, Eq)]
pub enum MappingEvent {
    /// The pairs that the mapping holds for the identifiers.
    Fetched(Vec<MappingPair>),
    /// Those of the changesets asked about that the repository knows.
    Existing(Vec<ChangesetId>),
    /// The pairs of the changesets that were derived, in any order.
    Derived(Vec<MappingPair>),
}

/// What a lookup asks for.
#[derive(Clone, Debug, PartialEq, Eq)]
pub enum MappingRequest {
    /// Ask the mapping for the pairs of these identifiers.
    Fetch(BonsaiOrHgChangesetIds),
    /// Ask the index which of these changesets it knows.
    GetMany(Vec<ChangesetId>),
    /// Derive the tree-manifest form of each of these changesets.
    Derive(Vec<ChangesetId>),
}

/// The mathematical value of the identifiers that a lookup is for.
pub enum IdsView {
    Bonsai(Seq<ChangesetId>),
    Hg(Seq<HgChangesetId>),
}

/// The mathematical value of a `MappingRequest`.
pub enum MappingRequestView {
    Fetch(IdsView),
    GetMany(Seq<ChangesetId>),
    Derive(Seq<ChangesetId>),
}

impl View for BonsaiOrHgChangesetIds {
    type V = IdsView;

    open spec fn view(&self) -> IdsView {
        match self {
            BonsaiOrHgChangesetIds::Bonsai(ids) => IdsView::Bonsai(ids@),
            BonsaiOrHgChangesetIds::Hg(ids) => IdsView::Hg(ids@),
        }
    }
}

impl View for MappingRequest {
    type V = MappingRequestView;

    open spec fn view(&self) -> MappingRequestView {
        match self {
            MappingRequest::Fetch(ids) => MappingRequestView::Fetch(ids@),
            MappingRequest::GetMany(ids) => MappingRequestView::GetMany(ids@),
            MappingRequest::Derive(ids) => MappingRequestView::Derive(ids@),
        }
    }
}

/// The mathematical value of a lookup that waits for an answer.
pub enum LookupView {
    /// The mapping was asked; `bonsais` are the changesets asked about,
    /// or `None` where the lookup is by the tree-manifest form.
    AwaitFetched { bonsais: Option<Seq<ChangesetId>> },
    /// The index was asked about `missing`; the mapping held `fetched`.
    AwaitExisting { missing: Seq<ChangesetId>, fetched: Seq<MappingPair> },
    /// The derivations run; the mapping held `fetched`.
    AwaitDerived { fetched: Seq<MappingPair> },
}

/// The mathematical value of a `LookupStep`.
pub enum LookupStepView {
    Ask(LookupView, MappingRequestView),
    Done(Seq<MappingPair>),
}

/// The first step of a lookup: the mapping is asked.
pub open spec fn lookup_start(ids: IdsView) -> LookupStepView {
    LookupStepView::Ask(
        LookupView::AwaitFetched {
            bonsais: match ids {
                IdsView::Bonsai(b) => Some(b),
                IdsView::Hg(_) => None,
            },
        },
        MappingRequestView::Fetch(ids),
    )
}

/// The step after `event`, or `None` where such an event is not awaited.
///
/// What the mapping holds is the answer to a lookup by the tree-manifest
/// form. For a lookup by the content-addressed graph, the changesets that
/// the mapping lacks and the repository knows are derived, and their pairs
/// come before the pairs that the mapping held.
pub open spec fn lookup_step(s: LookupView, event: MappingEvent) -> Option<LookupStepView> {
    match (s, event) {
        (LookupView::AwaitFetched { bonsais: None }, MappingEvent::Fetched(pairs)) => Some(
            LookupStepView::Done(pairs@),
        ),
        (LookupView::AwaitFetched { bonsais: Some(b) }, MappingEvent::Fetched(pairs)) => Some(
            LookupStepView::Ask(
                LookupView::AwaitExisting { missing: unmapped(b, pairs@), fetched: pairs@ },
                MappingRequestView::GetMany(unmapped(b, pairs@)),
            ),
        ),
        (LookupView::AwaitExisting { missing, fetched }, MappingEvent::Existing(existing)) => Some(
            LookupStepView::Ask(
                LookupView::AwaitDerived { fetched },
                MappingRequestView::Derive(known(missing, existing@)),
            ),
        ),
        (LookupView::AwaitDerived { fetched }, MappingEvent::Derived(derived)) => Some(
            LookupStepView::Done(derived@ + fetched),
        ),
        _ => None,
    }
}

/// A lookup that waits for an answer.
#[derive(Debug)]
pub enum HgBonsaiMappingLookup {
    AwaitFetched { bonsais: Option<Vec<ChangesetId>> },
    AwaitExisting { missing: Vec<ChangesetId>, fetched: Vec<MappingPair> },
    AwaitDerived { fetched: Vec<MappingPair> },
}

impl View for HgBonsaiMappingLookup {
    type V = LookupView;

    open spec fn view(&self) -> LookupView {
        match self {
            HgBonsaiMappingLookup::AwaitFetched { bonsais } => LookupView::AwaitFetched {
                bonsais: match bonsais {
                    Some(b) => Some(b@),
                    None => None,
                },
            },
            HgBonsaiMappingLookup::AwaitExisting { missing, fetched } => LookupView::AwaitExisting {
                missing: missing@,
                fetched: fetched@,
            },
            HgBonsaiMappingLookup::AwaitDerived { fetched } => LookupView::AwaitDerived {
                fetched: fetched@,
            },
        }
    }
}

/// The next thing to do for a lookup.
#[derive(Debug)]
pub enum LookupStep {
    /// Do what `1` names and hand the answer to `0`.
    Ask(HgBonsaiMappingLookup, MappingRequest),
    /// The pairs that the lookup yields.
    Done(Vec<MappingPair>),
}

impl View for LookupStep {
    type V = LookupStepView;

    open spec fn view(&self) -> LookupStepView {
        match self {
            LookupStep::Ask(s, request) => LookupStepView::Ask(s@, request@),
            LookupStep::Done(pairs) => LookupStepView::Done(pairs@),
        }
    }
}

fn copy_ids(ids: &Vec<ChangesetId>) -> (r: Vec<ChangesetId>)
    ensures
        r@ == ids@,
{
    let mut out: Vec<ChangesetId> = Vec::new();
    let mut i: usize = 0;
    while i < ids.len()
        invariant
            0 <= i <= ids.len(),
            out@ == ids@.take(i as int),
        decreases ids.len() - i,
    {
        out.push(ids[i]);
        assert(ids@.take(i + 1) =~= ids@.take(i as int).push(ids@[i as int]));
        i += 1;
    }
    assert(ids@.take(ids@.len() as int) =~= ids@);
    out
}

impl HgBonsaiMappingLookup {
    /// The first step of the lookup of `ids`.
    pub fn new(ids: BonsaiOrHgChangesetIds) -> (r: LookupStep)
        ensures
            r@ == lookup_start(ids@),
    {
        let bonsais = match &ids {
            BonsaiOrHgChangesetIds::Bonsai(b) => Some(copy_ids(b)),
            BonsaiOrHgChangesetIds::Hg(_) => None,
        };
        LookupStep::Ask(HgBonsaiMappingLookup::AwaitFetched { bonsais }, MappingRequest::Fetch(ids))
    }

    /// The step after `event`, or `None` where such an event is not
    /// awaited.
    pub fn step(self, event: MappingEvent) -> (r: Option<LookupStep>)
        ensures
            match r {
                Some(next) => lookup_step(self@, event) == Some(next@),
                None => lookup_step(self@, event) is None,
            },
    {
        match (self, event) {
            (HgBonsaiMappingLookup::AwaitFetched { bonsais: None }, MappingEvent::Fetched(pairs)) => {
                Some(LookupStep::Done(pairs))
            },
            (
                HgBonsaiMappingLookup::AwaitFetched { bonsais: Some(b) },
                MappingEvent::Fetched(pairs),
            ) => {
                let missing = missing_from_mapping(&b, &pairs);
                let ask = copy_ids(&missing);
                Some(
                    LookupStep::Ask(
                        HgBonsaiMappingLookup::AwaitExisting { missing, fetched: pairs },
                        MappingRequest::GetMany(ask),
                    ),
                )
            },
            (
                HgBonsaiMappingLookup::AwaitExisting { missing, fetched },
                MappingEvent::Existing(existing),
            ) => {
                let derive = known_to_repo(&missing, &existing);
                Some(
                    LookupStep::Ask(
                        HgBonsaiMappingLookup::AwaitDerived { fetched },
                        MappingRequest::Derive(derive),
                    ),
                )
            },
            (HgBonsaiMappingLookup::AwaitDerived { fetched }, MappingEvent::Derived(derived)) => {
                let mut all = derived;
                let mut rest = fetched;
                all.append(&mut rest);
                Some(LookupStep::Done(all))
            },
            _ => None,
        }
    }
}

/// How many bookmarks are resolved with one lookup.
pub const BOOKMARK_CHUNK_SIZE: usize = 100;

/// The changeset of a bookmark has no pair in the mapping.
#[derive(Clone, Copy, Debug, PartialEq, Eq)]
pub struct MissingFromMapping(pub ChangesetId);

/// The identifier that `pairs` gives for the changeset `id`; of two pairs
/// for one changeset the later one counts.
pub open spec fn mapped_hg(pairs: Seq<MappingPair>, id: ChangesetId) -> Option<HgChangesetId>
    decreases pairs.len(),
{
    if pairs.len() == 0 {
        None
    } else if pairs.last().1 == id {
        Some(pairs.last().0)
    } else {
        mapped_hg(pairs.drop_last(), id)
    }
}

fn find_hg(pairs: &Vec<MappingPair>, id: ChangesetId) -> (r: Option<HgChangesetId>)
    ensures
        r == mapped_hg(pairs@, id),
{
    let mut found: Option<HgChangesetId> = None;
    let mut i: usize = 0;
    assert(pairs@.take(0) =~= Seq::empty());
    while i < pairs.len()
        invariant
            0 <= i <= pairs.len(),
            found == mapped_hg(pairs@.take(i as int), id),
        decreases pairs.len() - i,
    {
        proof {
            assert(pairs@.take(i + 1).drop_last() =~= pairs@.take(i as int));
            assert(pairs@.take(i + 1).last() == pairs@[i as int]);
        }
        if pairs[i].1 == id {
            found = Some(pairs[i].0);
        }
        i += 1;
    }
    proof {
        assert(pairs@.take(pairs@.len() as int) =~= pairs@);
    }
    found
}

/// The changesets that the bookmarks of `chunk` point to, in their order.
pub fn bookmark_targets<B>(chunk: &Vec<(B, ChangesetId)>) -> (r: Vec<ChangesetId>)
    ensures
        r@.len() == chunk@.len(),
        forall|i: int| 0 <= i < chunk@.len() ==> r@[i] == (#[trigger] chunk@[i]).1,
{
    let mut out: Vec<ChangesetId> = Vec::new();
    let mut i: usize = 0;
    while i < chunk.len()
        invariant
            0 <= i <= chunk.len(),
            out@.len() == i,
            forall|k: int| 0 <= k < i ==> out@[k] == (#[trigger] chunk@[k]).1,
        decreases chunk.len() - i,
    {
        out.push(chunk[i].1);
        i += 1;
    }
    out
}

/// What becomes of a bookmark that points to `id`: it points to the
/// tree-manifest form of the changeset, or the pair is missing.
pub open spec fn resolved_bookmark<B>(bookmark: (B, ChangesetId), pairs: Seq<MappingPair>) -> Result<
    (B, HgChangesetId),
    MissingFromMapping,
> {
    match mapped_hg(pairs, bookmark.1) {
        Some(hg) => Ok((bookmark.0, hg)),
        None => Err(MissingFromMapping(bookmark.1)),
    }
}

/// The bookmarks of `chunk` with the changesets they point to resolved by
/// `pairs`, each one at its place.
pub fn to_hg_bookmarks<B>(chunk: Vec<(B, ChangesetId)>, pairs: &Vec<MappingPair>) -> (r: Vec<
    Result<(B, HgChangesetId), MissingFromMapping>,
>)
    ensures
        r@.len() == chunk@.len(),
        forall|i: int| 0 <= i < chunk@.len() ==> #[trigger] r@[i] == resolved_bookmark(chunk@[i], pairs@),
{
    let ghost all = chunk@;
    let mut out: Vec<Result<(B, HgChangesetId), MissingFromMapping>> = Vec::new();
    for entry in it: chunk
        invariant
            it.seq() == all,
            out@.len() == it.index(),
            forall|k: int| 0 <= k < out@.len() ==> #[trigger] out@[k] == resolved_bookmark(all[k], pairs@),
    {
        let (bookmark, id) = entry;
        match find_hg(pairs, id) {
            Some(hg) => out.push(Ok((bookmark, hg))),
            None => out.push(Err(MissingFromMapping(id))),
        }
    }
    out
}

/// How many chunks `n` bookmarks make.
pub open spec fn chunk_count(n: int) -> int {
    (n + BOOKMARK_CHUNK_SIZE - 1) / (BOOKMARK_CHUNK_SIZE as int)
}

/// Whether `chunks` cuts `items` into pieces of `BOOKMARK_CHUNK_SIZE`, the
/// last one possibly shorter, none of them empty.
pub open spec fn is_chunking<T>(items: Seq<T>, chunks: Seq<Vec<T>>) -> bool {
    &&& chunks.len() == chunk_count(items.len() as int)
    &&& forall|c: int|
        0 <= c < chunks.len() ==> (#[trigger] chunks[c])@.len() == (if c + 1 < chunks.len() {
            BOOKMARK_CHUNK_SIZE as int
        } else {
            items.len() - BOOKMARK_CHUNK_SIZE * c
        })
    &&& forall|c: int, k: int|
        0 <= c < chunks.len() && 0 <= k < chunks[c]@.len() ==> #[trigger] chunks[c]@[k]
            == items[BOOKMARK_CHUNK_SIZE * c + k]
}

/// Cuts `items` into chunks of `BOOKMARK_CHUNK_SIZE`, in their order.
pub fn bookmark_chunks<T>(items: Vec<T>) -> (r: Vec<Vec<T>>)
    ensures
        is_chunking(items@, r@),
{
    let ghost all = items@;
    let n = items.len();
    let mut out: Vec<Vec<T>> = Vec::new();
    let mut current: Vec<T> = Vec::new();
    for item in it: items
        invariant
            it.seq() == all,
            n == all.len(),
            current@.len() < BOOKMARK_CHUNK_SIZE,
            it.index() == BOOKMARK_CHUNK_SIZE * out@.len() + current@.len(),
            forall|c: int|
                0 <= c < out@.len() ==> (#[trigger] out@[c])@.len() == BOOKMARK_CHUNK_SIZE,
            forall|c: int, k: int|
                0 <= c < out@.len() && 0 <= k < out@[c]@.len() ==> #[trigger] out@[c]@[k]
                    == all[BOOKMARK_CHUNK_SIZE * c + k],
            forall|k: int|
                0 <= k < current@.len() ==> #[trigger] current@[k] == all[BOOKMARK_CHUNK_SIZE
                    * out@.len() + k],
    {
        current.push(item);
        if current.len() == BOOKMARK_CHUNK_SIZE {
            let mut full: Vec<T> = Vec::new();
            std::mem::swap(&mut full, &mut current);
            let ghost before = out@;
            out.push(full);
            proof {
                assert forall|c: int, k: int|
                    0 <= c < out@.len() && 0 <= k < out@[c]@.len() implies #[trigger] out@[c]@[k]
                    == all[BOOKMARK_CHUNK_SIZE * c + k] by {
                    if c < before.len() {
                        assert(out@[c] == before[c]);
                    }
                }
            }
        }
    }
    let ghost full_chunks = out@.len();
    if current.len() > 0 {
        let ghost before = out@;
        out.push(current);
        proof {
            assert forall|c: int, k: int|
                0 <= c < out@.len() && 0 <= k < out@[c]@.len() implies #[trigger] out@[c]@[k]
                == all[BOOKMARK_CHUNK_SIZE * c + k] by {
                if c < before.len() {
                    assert(out@[c] == before[c]);
                }
            }
            assert forall|c: int| 0 <= c < out@.len() implies (#[trigger] out@[c])@.len() == (if c
                + 1 < out@.len() {
                BOOKMARK_CHUNK_SIZE as int
            } else {
                all.len() - BOOKMARK_CHUNK_SIZE * c
            }) by {
                if c < before.len() {
                    assert(out@[c] == before[c]);
                }
            }
        }
    }
    out
}

} // verus!
