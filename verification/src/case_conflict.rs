//! Looking for a path that differs from a new path only by the case of its
//! letters.
//!
//! The check walks down the manifest of the parent along the new path. At
//! the first element that the manifest does not hold, every name of that
//! directory that equals the element when letters are folded to lower case
//! may collide. Such a name is a conflict only if it is still there in the
//! manifest of the child: a path may collide with one that the same
//! changeset deletes.

use crate::errors::{ErrorKind, ErrorKindView};
use crate::ids::HgManifestId;
use crate::path::{paths_view, MPath, MPathElement};
use vstd::prelude::*;
use vstd::utf8::{decode_utf8, valid_utf8};

verus! {

/// The text that `str::to_lowercase` makes of `text`.
pub uninterp spec fn lowercase_of(text: Seq<char>) -> Seq<char>;

/// Calls `str::to_lowercase`: the result is the lower-case form of the text,
/// a function of the text alone.
#[verifier::external_body]
fn to_lowercase(text: &str) -> (r: String)
    ensures
        r@ == lowercase_of(text@),
{
    text.to_lowercase()
}

/// Calls `std::str::from_utf8`: the bytes are accepted exactly when they are
/// valid UTF-8, and the text then consists of the characters they encode.
#[verifier::external_body]
fn from_utf8(bytes: &[u8]) -> (r: Option<&str>)
    ensures
        r is Some <==> valid_utf8(bytes@),
        r matches Some(text) ==> text@ == decode_utf8(bytes@),
{
    std::str::from_utf8(bytes).ok()
}

/// Whether two names are the same once letters are folded to lower case.
/// Names that are not valid UTF-8 are the same as no name.
pub open spec fn same_ignoring_case(a: Seq<u8>, b: Seq<u8>) -> bool {
    valid_utf8(a) && valid_utf8(b) && lowercase_of(decode_utf8(a)) == lowercase_of(decode_utf8(b))
}

/// The lower-case form of a name, where the name is valid UTF-8.
fn lowercase(name: &Vec<u8>) -> (r: Option<String>)
    ensures
        r is Some <==> valid_utf8(name@),
        r matches Some(text) ==> text@ == lowercase_of(decode_utf8(name@)),
{
    match from_utf8(name.as_slice()) {
        Some(text) => Some(to_lowercase(text)),
        None => None,
    }
}

/// What a manifest holds under a name: a file, or a directory with a
/// manifest of its own.
#[derive(Clone, Copy, Debug, PartialEq, Eq)]
pub enum ManifestEntry {
    Leaf,
    Tree(HgManifestId),
}

/// The names in one directory, in the order of the manifest, each with what
/// it names.
pub type Listing = Vec<(MPathElement, ManifestEntry)>;

/// The mathematical value of a listing.
pub open spec fn listing_view(listing: Seq<(MPathElement, ManifestEntry)>) -> Seq<
    (Seq<u8>, ManifestEntry),
> {
    Seq::new(listing.len(), |i: int| (listing[i].0@, listing[i].1))
}

/// What the listing holds under `name`: the first entry with that name.
pub open spec fn entry_named(listing: Seq<(Seq<u8>, ManifestEntry)>, name: Seq<u8>) -> Option<
    ManifestEntry,
>
    decreases listing.len(),
{
    if listing.len() == 0 {
        None
    } else if listing.first().0 == name {
        Some(listing.first().1)
    } else {
        entry_named(listing.drop_first(), name)
    }
}

/// The paths in directory `dir` that may collide with `element`: those whose
/// name equals `element` once letters are folded, in the order of the
/// listing.
pub open spec fn potential_conflicts(
    dir: Seq<Seq<u8>>,
    listing: Seq<(Seq<u8>, ManifestEntry)>,
    element: Seq<u8>,
) -> Seq<Seq<Seq<u8>>>
    decreases listing.len(),
{
    if listing.len() == 0 {
        Seq::empty()
    } else {
        let rest = potential_conflicts(dir, listing.drop_last(), element);
        if same_ignoring_case(element, listing.last().0) {
            rest.push(dir.push(listing.last().0))
        } else {
            rest
        }
    }
}

/// What the stores answer to the check.
#[derive(Debug)]
pub enum CaseEvent {
    /// The listing of the manifest that was to be loaded.
    Manifest(Listing),
    /// Of the paths that were to be found in the manifest of the child,
    /// those that are there, in the order in which they were found. `None`
    /// stands for the root.
    Found(Vec<Option<MPath>>),
}

/// What the check asks for.
#[derive(Debug)]
pub enum CaseRequest {
    /// Load this manifest and list its directory.
    LoadManifest(HgManifestId),
    /// Report which of `paths` the manifest `manifest` holds.
    FindEntries { manifest: HgManifestId, paths: Vec<MPath> },
}

/// The mathematical value of a `CaseRequest`.
pub enum CaseRequestView {
    LoadManifest(HgManifestId),
    FindEntries { manifest: HgManifestId, paths: Seq<Seq<Seq<u8>>> },
}

impl View for CaseRequest {
    type V = CaseRequestView;

    open spec fn view(&self) -> CaseRequestView {
        match self {
            CaseRequest::LoadManifest(id) => CaseRequestView::LoadManifest(*id),
            CaseRequest::FindEntries { manifest, paths } => CaseRequestView::FindEntries {
                manifest: *manifest,
                paths: paths_view(paths@),
            },
        }
    }
}

/// The mathematical value of a check that waits for an answer.
pub struct CaseView {
    /// The manifest of the child.
    pub child: HgManifestId,
    /// The path that is checked.
    pub path: Seq<Seq<u8>>,
    /// How many elements of the path the manifest of the parent holds as
    /// directories, as far as the walk has come.
    pub depth: nat,
    /// Whether the check waits for what was found in the child, and not
    /// for a listing.
    pub finding: bool,
}

/// The mathematical value of a `CaseStep`.
pub enum CaseStepView {
    Ask(CaseView, CaseRequestView),
    Done(Option<Seq<Seq<u8>>>),
}

/// The first step of the check of `path`: the manifest of the parent is
/// loaded.
pub open spec fn case_start(parent: HgManifestId, child: HgManifestId, path: Seq<Seq<u8>>) -> CaseStepView {
    CaseStepView::Ask(
        CaseView { child, path, depth: 0, finding: false },
        CaseRequestView::LoadManifest(parent),
    )
}

/// The mathematical value of what was found.
pub open spec fn found_view(found: Seq<Option<MPath>>) -> Seq<Option<Seq<Seq<u8>>>> {
    Seq::new(
        found.len(),
        |i: int|
            match found[i] {
                Some(p) => Some(p@),
                None => None,
            },
    )
}

/// The step after a listing arrived.
///
/// A file under the name of the next element ends the check without a
/// conflict, and so does a directory where the path ends. Another
/// directory is walked into. Where the name is missing, the names that may
/// collide are looked for in the child; without such names there is no
/// conflict.
pub open spec fn case_after_listing(s: CaseView, listing: Seq<(Seq<u8>, ManifestEntry)>) -> CaseStepView {
    let element = s.path[s.depth as int];
    match entry_named(listing, element) {
        Some(ManifestEntry::Leaf) => CaseStepView::Done(None),
        Some(ManifestEntry::Tree(id)) => if s.depth + 1 == s.path.len() {
            CaseStepView::Done(None)
        } else {
            CaseStepView::Ask(
                CaseView { depth: s.depth + 1, ..s },
                CaseRequestView::LoadManifest(id),
            )
        },
        None => {
            let paths = potential_conflicts(s.path.take(s.depth as int), listing, element);
            if paths.len() == 0 {
                CaseStepView::Done(None)
            } else {
                CaseStepView::Ask(
                    CaseView { finding: true, ..s },
                    CaseRequestView::FindEntries { manifest: s.child, paths },
                )
            }
        },
    }
}

/// The conflict after the child answered: the first path that it holds.
pub open spec fn case_after_found(found: Seq<Option<Seq<Seq<u8>>>>) -> CaseStepView {
    CaseStepView::Done(
        if found.len() > 0 {
            found[0]
        } else {
            None
        },
    )
}

/// The step after `event`, or `None` where such an event is not awaited.
pub open spec fn case_step(s: CaseView, event: CaseEvent) -> Option<CaseStepView> {
    match event {
        CaseEvent::Manifest(listing) => if s.finding {
            None
        } else {
            Some(case_after_listing(s, listing_view(listing@)))
        },
        CaseEvent::Found(found) => if s.finding {
            Some(case_after_found(found_view(found@)))
        } else {
            None
        },
    }
}

/// A check that waits for an answer.
#[derive(Debug)]
pub struct CaseConflictCheck {
    child: HgManifestId,
    path: MPath,
    depth: usize,
    finding: bool,
}

impl View for CaseConflictCheck {
    type V = CaseView;

    closed spec fn view(&self) -> CaseView {
        CaseView {
            child: self.child,
            path: self.path@,
            depth: self.depth as nat,
            finding: self.finding,
        }
    }
}

/// The next thing to do for a check.
#[derive(Debug)]
pub enum CaseStep {
    /// Read what `1` names and hand the answer to `0`.
    Ask(CaseConflictCheck, CaseRequest),
    /// The check is over: the conflicting path, or `None`.
    Done(Option<MPath>),
}

impl View for CaseStep {
    type V = CaseStepView;

    open spec fn view(&self) -> CaseStepView {
        match self {
            CaseStep::Ask(s, request) => CaseStepView::Ask(s@, request@),
            CaseStep::Done(conflict) => CaseStepView::Done(
                match conflict {
                    Some(p) => Some(p@),
                    None => None,
                },
            ),
        }
    }
}

fn find_entry(listing: &Listing, name: &Vec<u8>) -> (r: Option<ManifestEntry>)
    ensures
        r == entry_named(listing_view(listing@), name@),
{
    let ghost all = listing_view(listing@);
    let mut i: usize = 0;
    assert(all.skip(0) =~= all);
    while i < listing.len()
        invariant
            0 <= i <= listing.len(),
            all == listing_view(listing@),
            entry_named(all, name@) == entry_named(all.skip(i as int), name@),
        decreases listing.len() - i,
    {
        proof {
            assert(all.skip(i as int).first() == all[i as int]);
            assert(all.skip(i as int).drop_first() =~= all.skip(i + 1));
        }
        if crate::path::bytes_eq(listing[i].0.as_bytes(), name) {
            return Some(listing[i].1);
        }
        i += 1;
    }
    None
}

/// The mathematical value of a text that may be absent.
pub open spec fn text_view(text: Option<String>) -> Option<Seq<char>> {
    match text {
        Some(t) => Some(t@),
        None => None,
    }
}

/// The mathematical value of names with their lower-case forms.
pub open spec fn folded_view(names: Seq<(MPathElement, Option<String>)>) -> Seq<
    (Seq<u8>, Option<Seq<char>>),
> {
    Seq::new(names.len(), |i: int| (names[i].0@, text_view(names[i].1)))
}

/// The paths in directory `dir` under the names whose lower-case form is
/// `element`, in the order of `names`. A name without a lower-case form
/// collides with nothing, and nothing collides where `element` is absent.
pub open spec fn colliding_paths(
    dir: Seq<Seq<u8>>,
    names: Seq<(Seq<u8>, Option<Seq<char>>)>,
    element: Option<Seq<char>>,
) -> Seq<Seq<Seq<u8>>>
    decreases names.len(),
{
    if names.len() == 0 {
        Seq::empty()
    } else {
        let rest = colliding_paths(dir, names.drop_last(), element);
        if element is Some && names.last().1 == element {
            rest.push(dir.push(names.last().0))
        } else {
            rest
        }
    }
}

/// The lower-case form of a name as the check uses it: that of its text,
/// where the name is valid UTF-8.
pub open spec fn folded(name: Seq<u8>) -> Option<Seq<char>> {
    if valid_utf8(name) {
        Some(lowercase_of(decode_utf8(name)))
    } else {
        None
    }
}

/// The paths in directory `dir`, or at the root where `dir` is `None`,
/// under the names of `names` whose lower-case form is `element`. The
/// lower-case forms are given with the names.
pub fn collect_colliding(
    dir: Option<&MPath>,
    names: &Vec<(MPathElement, Option<String>)>,
    element: &Option<String>,
) -> (r: Vec<MPath>)
    ensures
        paths_view(r@) == colliding_paths(
            match dir {
                Some(d) => d@,
                None => Seq::empty(),
            },
            folded_view(names@),
            text_view(*element),
        ),
{
    let ghost all = folded_view(names@);
    let ghost dir_view = match dir {
        Some(d) => d@,
        None => Seq::empty(),
    };
    let mut out: Vec<MPath> = Vec::new();
    let mut i: usize = 0;
    assert(all.take(0) =~= Seq::empty());
    assert(paths_view(out@) =~= Seq::empty());
    while i < names.len()
        invariant
            0 <= i <= names.len(),
            all == folded_view(names@),
            dir_view == match dir {
                Some(d) => d@,
                None => Seq::empty(),
            },
            paths_view(out@) == colliding_paths(dir_view, all.take(i as int), text_view(*element)),
        decreases names.len() - i,
    {
        proof {
            assert(all.take(i + 1).drop_last() =~= all.take(i as int));
            assert(all.take(i + 1).last() == all[i as int]);
        }
        let same = match (element, &names[i].1) {
            (Some(wanted), Some(lowered)) => *lowered == *wanted,
            _ => false,
        };
        if same {
            let ghost before = paths_view(out@);
            let p = MPath::join_opt_element(dir, &names[i].0);
            out.push(p);
            proof {
                let name = names@[i as int].0@;
                assert(dir_view.push(name) =~= match dir {
                    Some(d) => d@.push(name),
                    None => seq![name],
                });
                assert(paths_view(out@) =~= before.push(dir_view.push(name)));
            }
        }
        i += 1;
    }
    proof {
        assert(all.take(all.len() as int) =~= all);
    }
    out
}

/// With the lower-case forms that the check uses, the colliding paths are
/// the paths that may collide.
pub proof fn lemma_colliding_are_potential_conflicts(
    dir: Seq<Seq<u8>>,
    listing: Seq<(Seq<u8>, ManifestEntry)>,
    names: Seq<(Seq<u8>, Option<Seq<char>>)>,
    element: Seq<u8>,
)
    requires
        names.len() == listing.len(),
        forall|i: int|
            0 <= i < names.len() ==> (#[trigger] names[i]).0 == listing[i].0 && names[i].1
                == folded(listing[i].0),
    ensures
        colliding_paths(dir, names, folded(element)) == potential_conflicts(dir, listing, element),
    decreases names.len(),
{
    if names.len() > 0 {
        let n = names.len() - 1;
        assert(names.drop_last().len() == listing.drop_last().len());
        assert forall|i: int| 0 <= i < names.drop_last().len() implies (
        #[trigger] names.drop_last()[i]).0 == listing.drop_last()[i].0 && names.drop_last()[i].1
            == folded(listing.drop_last()[i].0) by {
            assert(names.drop_last()[i] == names[i]);
        }
        lemma_colliding_are_potential_conflicts(
            dir,
            listing.drop_last(),
            names.drop_last(),
            element,
        );
        assert(names.last() == names[n]);
        assert(listing.last() == listing[n]);
    }
}

fn collect_conflicts(dir: Option<&MPath>, listing: &Listing, element: &Vec<u8>) -> (r: Vec<MPath>)
    ensures
        paths_view(r@) == potential_conflicts(
            match dir {
                Some(d) => d@,
                None => Seq::empty(),
            },
            listing_view(listing@),
            element@,
        ),
{
    let wanted = lowercase(element);
    let mut names: Vec<(MPathElement, Option<String>)> = Vec::new();
    let mut i: usize = 0;
    while i < listing.len()
        invariant
            0 <= i <= listing.len(),
            names@.len() == i,
            forall|k: int|
                0 <= k < i ==> (#[trigger] names@[k]).0@ == listing@[k].0@ && text_view(names@[k].1)
                    == folded(listing@[k].0@),
        decreases listing.len() - i,
    {
        let lowered = lowercase(listing[i].0.as_bytes());
        names.push((listing[i].0.clone(), lowered));
        i += 1;
    }
    proof {
        let dir_view = match dir {
            Some(d) => d@,
            None => Seq::empty(),
        };
        assert(text_view(wanted) == folded(element@));
        lemma_colliding_are_potential_conflicts(
            dir_view,
            listing_view(listing@),
            folded_view(names@),
            element@,
        );
    }
    collect_colliding(dir, &names, &wanted)
}

impl CaseConflictCheck {
    #[verifier::type_invariant]
    spec fn inv(self) -> bool {
        self.depth < self.path@.len()
    }

    /// The first step of checking whether adding `path` to the manifest
    /// `parent_mf_id` collides with a path that the manifest `child_mf_id`
    /// still holds.
    pub fn new(parent_mf_id: HgManifestId, child_mf_id: HgManifestId, path: MPath) -> (r: CaseStep)
        ensures
            r@ == case_start(parent_mf_id, child_mf_id, path@),
    {
        let _components = path.num_components();
        CaseStep::Ask(
            CaseConflictCheck { child: child_mf_id, path, depth: 0, finding: false },
            CaseRequest::LoadManifest(parent_mf_id),
        )
    }

    /// The step after `event`, or `None` where such an event is not
    /// awaited.
    pub fn step(self, event: CaseEvent) -> (r: Option<CaseStep>)
        ensures
            match r {
                Some(next) => case_step(self@, event) == Some(next@),
                None => case_step(self@, event) is None,
            },
    {
        proof {
            use_type_invariant(&self);
        }
        let CaseConflictCheck { child, path, depth, finding } = self;
        match event {
            CaseEvent::Manifest(listing) => {
                if finding {
                    return None;
                }
                let n = path.num_components();
                let element = path.element(depth);
                match find_entry(&listing, element) {
                    Some(ManifestEntry::Leaf) => Some(CaseStep::Done(None)),
                    Some(ManifestEntry::Tree(id)) => {
                        if depth + 1 == n {
                            Some(CaseStep::Done(None))
                        } else {
                            Some(
                                CaseStep::Ask(
                                    CaseConflictCheck { child, path, depth: depth + 1, finding },
                                    CaseRequest::LoadManifest(id),
                                ),
                            )
                        }
                    },
                    None => {
                        let dir = path.take_prefix(depth);
                        proof {
                            if depth == 0 {
                                assert(path@.take(0) =~= Seq::empty());
                            }
                        }
                        let paths = collect_conflicts(dir.as_ref(), &listing, element);
                        if paths.len() == 0 {
                            Some(CaseStep::Done(None))
                        } else {
                            Some(
                                CaseStep::Ask(
                                    CaseConflictCheck { child, path, depth, finding: true },
                                    CaseRequest::FindEntries { manifest: child, paths },
                                ),
                            )
                        }
                    },
                }
            },
            CaseEvent::Found(found) => {
                if !finding {
                    return None;
                }
                let mut found = found;
                if found.len() > 0 {
                    let ghost before = found@;
                    let first = found.swap_remove(0);
                    proof {
                        assert(found_view(before)[0] == match first {
                            Some(p) => Some(p@),
                            None => None,
                        });
                    }
                    Some(CaseStep::Done(first))
                } else {
                    Some(CaseStep::Done(None))
                }
            },
        }
    }
}

/// What a check that ended means for the changeset: a conflict makes its
/// creation fail.
pub fn fail_on_conflict(conflict: Option<MPath>) -> (r: Result<(), ErrorKind>)
    ensures
        match conflict {
            Some(path) => r matches Err(e) && e@ == ErrorKindView::CaseConflict(path@),
            None => r is Ok,
        },
{
    match conflict {
        Some(path) => Err(ErrorKind::CaseConflict(path)),
        None => Ok(()),
    }
}

/// A name that the child no longer holds is no conflict: where the child
/// reports none of the paths, the check ends without one.
pub proof fn lemma_deleted_path_is_no_conflict(s: CaseView, found: Vec<Option<MPath>>)
    requires
        s.finding,
        found@.len() == 0,
    ensures
        case_step(s, CaseEvent::Found(found)) == Some(CaseStepView::Done(None)),
{
}

} // verus!
