//! Preparing the manifest of a changeset from its changes and the manifests
//! of its parents.
//!
//! The tree-manifest format knows two parents. Of a changeset with more,
//! only the first two are looked at for the nodes and the copy sources of
//! its files.

use crate::bonsai::{path_change_view, BonsaiChangeset, FileChange, FileChangeView, PathChange};
use crate::file_change::{copy_source_view, store_start, StoreFileChange, StoreStep, StoreStepView};
use crate::ids::{ChangesetId, HgFileNodeId, HgManifestId};
use crate::path::{paths_view, MPath};
use vstd::prelude::*;

verus! {

/// The first two changesets of `parents`, as far as there are any.
pub fn first_two_parents(parents: &Vec<ChangesetId>) -> (r: (Option<ChangesetId>, Option<ChangesetId>))
    ensures
        r.0 == (if parents@.len() > 0 {
            Some(parents@[0])
        } else {
            None
        }),
        r.1 == (if parents@.len() > 1 {
            Some(parents@[1])
        } else {
            None
        }),
{
    let first = if parents.len() > 0 {
        Some(parents[0])
    } else {
        None
    };
    let second = if parents.len() > 1 {
        Some(parents[1])
    } else {
        None
    };
    (first, second)
}

/// The first two manifests of `manifests`, as far as there are any.
pub fn first_two_manifests(manifests: &Vec<HgManifestId>) -> (r: (Option<HgManifestId>, Option<HgManifestId>))
    ensures
        r.0 == (if manifests@.len() > 0 {
            Some(manifests@[0])
        } else {
            None
        }),
        r.1 == (if manifests@.len() > 1 {
            Some(manifests@[1])
        } else {
            None
        }),
{
    let first = if manifests.len() > 0 {
        Some(manifests[0])
    } else {
        None
    };
    let second = if manifests.len() > 1 {
        Some(manifests[1])
    } else {
        None
    };
    (first, second)
}

/// The mathematical value of a list of changes to paths.
pub open spec fn changes_view(changes: Seq<PathChange>) -> Seq<(Seq<Seq<u8>>, Option<FileChangeView>)> {
    Seq::new(changes.len(), |i: int| path_change_view(changes[i]))
}

/// The paths to look up in the manifests of the first two parents `p1` and
/// `p2`, in each of them: every path that is added or modified, preceded by
/// its copy source where the file was copied from one of the two. The
/// source is looked up in both, so that it is known whether it exists
/// through the first parent only. Deleted paths are not looked up.
pub open spec fn paths_to_look_up(
    changes: Seq<(Seq<Seq<u8>>, Option<FileChangeView>)>,
    p1: Option<ChangesetId>,
    p2: Option<ChangesetId>,
) -> Seq<Seq<Seq<u8>>>
    decreases changes.len(),
{
    if changes.len() == 0 {
        Seq::empty()
    } else {
        let rest = paths_to_look_up(changes.drop_last(), p1, p2);
        let (path, change) = changes.last();
        match change {
            None => rest,
            Some(fc) => match fc.copy_from {
                Some((source, from)) => if p1 == Some(from) || p2 == Some(from) {
                    rest.push(source).push(path)
                } else {
                    rest.push(path)
                },
                None => rest.push(path),
            },
        }
    }
}

/// The first parent, if there is one.
pub open spec fn first_parent(parents: Seq<ChangesetId>) -> Option<ChangesetId> {
    if parents.len() > 0 {
        Some(parents[0])
    } else {
        None
    }
}

/// The second parent, if there is one.
pub open spec fn second_parent(parents: Seq<ChangesetId>) -> Option<ChangesetId> {
    if parents.len() > 1 {
        Some(parents[1])
    } else {
        None
    }
}

/// What has to be looked up in the manifests of the first two parents
/// before the changes of a changeset can be stored.
#[derive(Debug)]
pub struct ManifestLookups {
    /// The manifest of the first parent, if there is one.
    pub manifest_p1: Option<HgManifestId>,
    /// The paths to look up in it: the changed paths and the sources of
    /// copies.
    pub p1_paths: Vec<MPath>,
    /// The manifest of the second parent, if there is one.
    pub manifest_p2: Option<HgManifestId>,
    /// The paths to look up in it: the same paths.
    pub p2_paths: Vec<MPath>,
}

fn parent_is(parent: Option<ChangesetId>, id: ChangesetId) -> (r: bool)
    ensures
        r == (parent == Some(id)),
{
    match parent {
        Some(p) => p == id,
        None => false,
    }
}

/// The lookups for the changes of `bcs`, whose parents have the manifests
/// `parent_manifests`, in the order of the parents.
pub fn manifest_lookups(bcs: &BonsaiChangeset, parent_manifests: &Vec<HgManifestId>) -> (r:
    ManifestLookups)
    ensures
        r.manifest_p1 == (if parent_manifests@.len() > 0 {
            Some(parent_manifests@[0])
        } else {
            None
        }),
        r.manifest_p2 == (if parent_manifests@.len() > 1 {
            Some(parent_manifests@[1])
        } else {
            None
        }),
        paths_view(r.p1_paths@) == paths_to_look_up(
            changes_view(bcs.file_changes@),
            first_parent(bcs.parents@),
            second_parent(bcs.parents@),
        ),
        paths_view(r.p2_paths@) == paths_view(r.p1_paths@),
{
    let (manifest_p1, manifest_p2) = first_two_manifests(parent_manifests);
    let (p1, p2) = first_two_parents(&bcs.parents);
    let ghost all = changes_view(bcs.file_changes@);
    let mut p1_paths: Vec<MPath> = Vec::new();
    let mut p2_paths: Vec<MPath> = Vec::new();
    let mut i: usize = 0;
    assert(all.take(0) =~= Seq::empty());
    assert(paths_view(p1_paths@) =~= Seq::<Seq<Seq<u8>>>::empty());
    assert(paths_view(p2_paths@) =~= Seq::<Seq<Seq<u8>>>::empty());
    while i < bcs.file_changes.len()
        invariant
            0 <= i <= bcs.file_changes.len(),
            all == changes_view(bcs.file_changes@),
            paths_view(p1_paths@) == paths_to_look_up(all.take(i as int), p1, p2),
            paths_view(p2_paths@) == paths_view(p1_paths@),
        decreases bcs.file_changes.len() - i,
    {
        let entry = &bcs.file_changes[i];
        proof {
            assert(all.take(i + 1).drop_last() =~= all.take(i as int));
            assert(all.take(i + 1).last() == path_change_view(bcs.file_changes@[i as int]));
        }
        match &entry.1 {
            Some(fc) => {
                match &fc.copy_from {
                    Some((source, from)) => {
                        if parent_is(p1, *from) || parent_is(p2, *from) {
                            let ghost before = paths_view(p1_paths@);
                            p1_paths.push(source.duplicate());
                            p2_paths.push(source.duplicate());
                            assert(paths_view(p1_paths@) =~= before.push(source@));
                            assert(paths_view(p2_paths@) =~= before.push(source@));
                        }
                    },
                    None => {},
                }
                let ghost before1 = paths_view(p1_paths@);
                let ghost before2 = paths_view(p2_paths@);
                p1_paths.push(entry.0.duplicate());
                p2_paths.push(entry.0.duplicate());
                proof {
                    assert(paths_view(p1_paths@) =~= before1.push(entry.0@));
                    assert(paths_view(p2_paths@) =~= before2.push(entry.0@));
                }
            },
            None => {},
        }
        i += 1;
    }
    proof {
        assert(all.take(all.len() as int) =~= all);
    }
    ManifestLookups { manifest_p1, p1_paths, manifest_p2, p2_paths }
}

/// The file nodes that a manifest holds at some paths. A path that was
/// looked up and is missing has no file in the manifest.
#[derive(Debug)]
pub struct ResolvedPaths {
    entries: Vec<(MPath, HgFileNodeId)>,
}

/// The map that a list of findings stands for; of two findings for one
/// path the later one counts.
pub open spec fn findings_map(entries: Seq<(Seq<Seq<u8>>, HgFileNodeId)>) -> Map<
    Seq<Seq<u8>>,
    HgFileNodeId,
>
    decreases entries.len(),
{
    if entries.len() == 0 {
        Map::empty()
    } else {
        findings_map(entries.drop_last()).insert(entries.last().0, entries.last().1)
    }
}

impl ResolvedPaths {
    spec fn findings(self) -> Seq<(Seq<Seq<u8>>, HgFileNodeId)> {
        Seq::new(self.entries@.len(), |i: int| (self.entries@[i].0@, self.entries@[i].1))
    }
}

impl View for ResolvedPaths {
    type V = Map<Seq<Seq<u8>>, HgFileNodeId>;

    closed spec fn view(&self) -> Map<Seq<Seq<u8>>, HgFileNodeId> {
        findings_map(self.findings())
    }
}

impl ResolvedPaths {
    /// Nothing was found.
    pub fn new() -> (r: Self)
        ensures
            r@ == Map::<Seq<Seq<u8>>, HgFileNodeId>::empty(),
    {
        let r = ResolvedPaths { entries: Vec::new() };
        assert(r.findings() =~= Seq::empty());
        r
    }

    /// The findings with the file node `node` at `path`.
    pub fn insert(self, path: MPath, node: HgFileNodeId) -> (r: Self)
        ensures
            r@ == self@.insert(path@, node),
    {
        let ghost before = self.findings();
        let mut entries = self.entries;
        entries.push((path, node));
        let r = ResolvedPaths { entries };
        proof {
            assert(r.findings().drop_last() =~= before);
            assert(r.findings().last() == (path@, node));
        }
        r
    }

    /// The file node found at `path`.
    pub fn get(&self, path: &MPath) -> (r: Option<HgFileNodeId>)
        ensures
            r == (if self@.contains_key(path@) {
                Some(self@[path@])
            } else {
                None
            }),
    {
        let ghost all = self.findings();
        let mut found: Option<HgFileNodeId> = None;
        let mut i: usize = 0;
        assert(all.take(0) =~= Seq::empty());
        while i < self.entries.len()
            invariant
                0 <= i <= self.entries.len(),
                all == self.findings(),
                found == (if findings_map(all.take(i as int)).contains_key(path@) {
                    Some(findings_map(all.take(i as int))[path@])
                } else {
                    None
                }),
            decreases self.entries.len() - i,
        {
            proof {
                assert(all.take(i + 1).drop_last() =~= all.take(i as int));
                assert(all.take(i + 1).last() == (self.entries@[i as int].0@, self.entries@[i as int].1));
            }
            if self.entries[i].0 == *path {
                found = Some(self.entries[i].1);
            }
            i += 1;
        }
        proof {
            assert(all.take(all.len() as int) =~= all);
        }
        found
    }
}

/// What a manifest holds at a path that was looked for.
#[derive(Clone, Copy, Debug, PartialEq, Eq)]
pub enum FoundEntry {
    Leaf(HgFileNodeId),
    Tree(HgManifestId),
}

/// The mathematical value of what was found in a manifest: the paths, where
/// `None` stands for the root, each with what is there.
pub open spec fn found_view(found: Seq<(Option<MPath>, FoundEntry)>) -> Seq<
    (Option<Seq<Seq<u8>>>, FoundEntry),
> {
    Seq::new(
        found.len(),
        |i: int|
            (
                match found[i].0 {
                    Some(p) => Some(p@),
                    None => None,
                },
                found[i].1,
            ),
    )
}

/// The files among what was found: directories and the root are left out.
pub open spec fn files_found(found: Seq<(Option<Seq<Seq<u8>>>, FoundEntry)>) -> Map<
    Seq<Seq<u8>>,
    HgFileNodeId,
>
    decreases found.len(),
{
    if found.len() == 0 {
        Map::empty()
    } else {
        let rest = files_found(found.drop_last());
        match found.last() {
            (Some(path), FoundEntry::Leaf(node)) => rest.insert(path, node),
            _ => rest,
        }
    }
}

impl ResolvedPaths {
    /// The files among what was found in a manifest.
    pub fn from_found(found: Vec<(Option<MPath>, FoundEntry)>) -> (r: Self)
        ensures
            r@ == files_found(found_view(found@)),
    {
        let ghost all = found_view(found@);
        let ghost found0 = found@;
        let mut out = ResolvedPaths::new();
        proof {
            assert(all.take(0) =~= Seq::empty());
        }
        let len = found.len();
        let mut at: usize = 0;
        for entry in it: found
            invariant
                it.seq() == found0,
                found0.len() == len,
                all == found_view(found0),
                at == it.index(),
                out@ == files_found(all.take(at as int)),
        {
            proof {
                assert(all.take(at + 1).drop_last() =~= all.take(at as int));
                assert(all.take(at + 1).last() == all[at as int]);
            }
            match entry {
                (Some(path), FoundEntry::Leaf(node)) => {
                    out = out.insert(path, node);
                },
                _ => {},
            }
            at += 1;
        }
        proof {
            assert(all.take(all.len() as int) =~= all);
        }
        out
    }
}

/// Where a lookup is keyed by a path of the library.
pub open spec fn lookup(m: Map<Seq<Seq<u8>>, HgFileNodeId>, path: Seq<Seq<u8>>) -> Option<
    HgFileNodeId,
> {
    if m.contains_key(path) {
        Some(m[path])
    } else {
        None
    }
}

/// The copy source of a change as the tree-manifest format records it: the
/// path and the node that the file was copied from, where it was copied
/// from the first or the second parent and that parent has a file there.
pub open spec fn resolved_copy_from(
    change: FileChangeView,
    p1: Option<ChangesetId>,
    p2: Option<ChangesetId>,
    p1s: Map<Seq<Seq<u8>>, HgFileNodeId>,
    p2s: Map<Seq<Seq<u8>>, HgFileNodeId>,
) -> Option<(Seq<Seq<u8>>, HgFileNodeId)> {
    match change.copy_from {
        None => None,
        Some((source, from)) => {
            let found = if p1 == Some(from) {
                lookup(p1s, source)
            } else if p2 == Some(from) {
                lookup(p2s, source)
            } else {
                None
            };
            match found {
                Some(node) => Some((source, node)),
                None => None,
            }
        },
    }
}

/// Whether the source of the copy that `change` records exists in the
/// manifest of the first parent and not in that of the second, given what
/// was found in the two.
pub open spec fn source_only_in_p1(
    change: FileChangeView,
    p1s: Map<Seq<Seq<u8>>, HgFileNodeId>,
    p2s: Map<Seq<Seq<u8>>, HgFileNodeId>,
) -> bool {
    change.copy_from matches Some((source, _)) && p1s.contains_key(source) && !p2s.contains_key(
        source,
    )
}

/// The first step of storing each change of a changeset: `None` for a
/// deleted path.
pub open spec fn store_steps(
    changes: Seq<(Seq<Seq<u8>>, Option<FileChangeView>)>,
    p1: Option<ChangesetId>,
    p2: Option<ChangesetId>,
    p1s: Map<Seq<Seq<u8>>, HgFileNodeId>,
    p2s: Map<Seq<Seq<u8>>, HgFileNodeId>,
) -> Seq<(Seq<Seq<u8>>, Option<StoreStepView>)> {
    Seq::new(
        changes.len(),
        |i: int|
            (
                changes[i].0,
                match changes[i].1 {
                    None => None,
                    Some(fc) => Some(
                        store_start(
                            lookup(p1s, changes[i].0),
                            lookup(p2s, changes[i].0),
                            changes[i].0,
                            fc,
                            resolved_copy_from(fc, p1, p2, p1s, p2s),
                            source_only_in_p1(fc, p1s, p2s),
                        ),
                    ),
                },
            ),
    )
}

/// The mathematical value of the first steps.
pub open spec fn steps_view(steps: Seq<(MPath, Option<StoreStep>)>) -> Seq<
    (Seq<Seq<u8>>, Option<StoreStepView>),
> {
    Seq::new(
        steps.len(),
        |i: int|
            (
                steps[i].0@,
                match steps[i].1 {
                    None => None,
                    Some(step) => Some(step@),
                },
            ),
    )
}

fn resolve_copy_from(
    change: &FileChange,
    p1: Option<ChangesetId>,
    p2: Option<ChangesetId>,
    p1s: &ResolvedPaths,
    p2s: &ResolvedPaths,
) -> (r: Option<(MPath, HgFileNodeId)>)
    ensures
        copy_source_view(r) == resolved_copy_from(change@, p1, p2, p1s@, p2s@),
{
    match &change.copy_from {
        None => None,
        Some((source, from)) => {
            let found = if parent_is(p1, *from) {
                p1s.get(source)
            } else if parent_is(p2, *from) {
                p2s.get(source)
            } else {
                None
            };
            match found {
                Some(node) => Some((source.duplicate(), node)),
                None => None,
            }
        },
    }
}

/// Starts storing the changes of a changeset with the first two parents
/// `p1` and `p2`, in whose manifests `p1s` and `p2s` were found. The
/// changes come back in their order, each with its first step.
pub fn store_file_changes(
    file_changes: Vec<PathChange>,
    p1: Option<ChangesetId>,
    p2: Option<ChangesetId>,
    p1s: &ResolvedPaths,
    p2s: &ResolvedPaths,
) -> (r: Vec<(MPath, Option<StoreStep>)>)
    ensures
        steps_view(r@) == store_steps(changes_view(file_changes@), p1, p2, p1s@, p2s@),
{
    let ghost changes = file_changes@;
    let ghost want = store_steps(changes_view(changes), p1, p2, p1s@, p2s@);
    let mut out: Vec<(MPath, Option<StoreStep>)> = Vec::new();
    for entry in it: file_changes
        invariant
            it.seq() == changes,
            want == store_steps(changes_view(changes), p1, p2, p1s@, p2s@),
            out@.len() == it.index(),
            forall|k: int| 0 <= k < out@.len() ==> #[trigger] steps_view(out@)[k] == want[k],
    {
        let ghost before = out@;
        let ghost idx = it.index() as int;
        let ghost entry0 = entry;
        let (path, change) = entry;
        proof {
            assert(changes_view(changes)[idx] == path_change_view(entry0));
        }
        match change {
            None => {
                out.push((path, None));
            },
            Some(fc) => {
                let copy_from = resolve_copy_from(&fc, p1, p2, p1s, p2s);
                let n1 = p1s.get(&path);
                let n2 = p2s.get(&path);
                let only_in_p1 = match &fc.copy_from {
                    Some((source, _)) => p1s.get(source).is_some() && p2s.get(source).is_none(),
                    None => false,
                };
                let step = StoreFileChange::new(
                    n1,
                    n2,
                    path.duplicate(),
                    fc,
                    copy_from,
                    only_in_p1,
                );
                out.push((path, Some(step)));
            },
        }
        proof {
            assert forall|k: int| 0 <= k < out@.len() implies #[trigger] steps_view(out@)[k]
                == want[k] by {
                if k < before.len() {
                    assert(out@[k] == before[k]);
                    assert(steps_view(before)[k] == want[k]);
                }
            }
        }
    }
    proof {
        assert(steps_view(out@) =~= want);
    }
    out
}

} // verus!
