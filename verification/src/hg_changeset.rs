//! Preparing a changeset of the tree-manifest format.
//!
//! The format knows two parents. A changeset of the content-addressed graph
//! may have more: the first two become the parents of the derived
//! changeset, the others are recorded with its metadata.

use crate::bonsai::{BonsaiChangeset, DateTime};
use crate::ids::{HgChangesetId, HgManifestId};
use crate::path::bytes_clone;
use vstd::prelude::*;
use vstd::utf8::encode_utf8;
use vstd::string::StrSliceExecFns;

verus! {

/// What is read of the derived form of a parent: its identifier and the
/// root of its manifest.
#[derive(Clone, Copy, Debug, PartialEq, Eq)]
pub struct HgParent {
    pub cs_id: HgChangesetId,
    pub manifest_id: HgManifestId,
}

/// Who made a changeset, when, and what was written about it.
#[derive(Clone, Debug, PartialEq, Eq)]
pub struct ChangesetMetadata {
    pub user: String,
    pub time: DateTime,
    pub extra: Vec<(Vec<u8>, Vec<u8>)>,
    pub comments: String,
}

/// What a changeset of the tree-manifest format is built from, besides its
/// manifest and the list of its files.
#[derive(Debug)]
pub struct HgChangesetPlan {
    /// The manifests of all parents, in their order: the manifest of the
    /// changeset is derived from all of them.
    pub parent_manifests: Vec<HgManifestId>,
    pub p1: Option<HgChangesetId>,
    pub p2: Option<HgChangesetId>,
    pub manifest_p1: Option<HgManifestId>,
    pub manifest_p2: Option<HgManifestId>,
    /// The parents beyond the second, to be recorded with the metadata.
    pub step_parents: Vec<HgChangesetId>,
    pub metadata: ChangesetMetadata,
}

/// The identifier of the parent at position `i`, if there is one.
pub open spec fn parent_id(parents: Seq<HgParent>, i: int) -> Option<HgChangesetId> {
    if 0 <= i < parents.len() {
        Some(parents[i].cs_id)
    } else {
        None
    }
}

/// The manifest of the parent at position `i`, if there is one.
pub open spec fn parent_manifest_id(parents: Seq<HgParent>, i: int) -> Option<HgManifestId> {
    if 0 <= i < parents.len() {
        Some(parents[i].manifest_id)
    } else {
        None
    }
}

/// The manifests of all parents.
pub open spec fn manifests_of(parents: Seq<HgParent>) -> Seq<HgManifestId> {
    Seq::new(parents.len(), |i: int| parents[i].manifest_id)
}

/// The identifiers of the parents beyond the second.
pub open spec fn step_parents_of(parents: Seq<HgParent>) -> Seq<HgChangesetId> {
    if parents.len() > 2 {
        Seq::new((parents.len() - 2) as nat, |i: int| parents[i + 2].cs_id)
    } else {
        Seq::empty()
    }
}

/// The extra metadata in the form of the tree-manifest format: the keys as
/// the UTF-8 bytes of their text.
pub open spec fn extra_view(extra: Seq<(String, Vec<u8>)>) -> Seq<(Seq<u8>, Seq<u8>)> {
    Seq::new(extra.len(), |i: int| (encode_utf8(extra[i].0@), extra[i].1@))
}

/// The mathematical value of extra metadata.
pub open spec fn hg_extra_view(extra: Seq<(Vec<u8>, Vec<u8>)>) -> Seq<(Seq<u8>, Seq<u8>)> {
    Seq::new(extra.len(), |i: int| (extra[i].0@, extra[i].1@))
}

/// The metadata of the derived form of `bcs`: the author, the date of
/// authorship, the message and the extra metadata.
pub fn metadata_of(bcs: &BonsaiChangeset) -> (r: ChangesetMetadata)
    ensures
        r.user@ == bcs.author@,
        r.time == bcs.author_date,
        r.comments@ == bcs.message@,
        hg_extra_view(r.extra@) == extra_view(bcs.extra@),
{
    let mut extra: Vec<(Vec<u8>, Vec<u8>)> = Vec::new();
    let mut i: usize = 0;
    while i < bcs.extra.len()
        invariant
            0 <= i <= bcs.extra.len(),
            extra@.len() == i,
            forall|k: int|
                0 <= k < i ==> (#[trigger] extra@[k]).0@ == encode_utf8(bcs.extra@[k].0@)
                    && extra@[k].1@ == bcs.extra@[k].1@,
        decreases bcs.extra.len() - i,
    {
        let key = bcs.extra[i].0.as_str().as_bytes_vec();
        let value = bytes_clone(&bcs.extra[i].1);
        extra.push((key, value));
        i += 1;
    }
    proof {
        assert(hg_extra_view(extra@) =~= extra_view(bcs.extra@));
    }
    ChangesetMetadata {
        user: bcs.author.clone(),
        time: bcs.author_date,
        extra,
        comments: bcs.message.clone(),
    }
}

/// What the derived form of `bcs` is built from, given the derived forms
/// `parents` of its parents in their order.
pub fn generate_hg_changeset(bcs: &BonsaiChangeset, parents: &Vec<HgParent>) -> (r: HgChangesetPlan)
    ensures
        r.parent_manifests@ == manifests_of(parents@),
        r.p1 == parent_id(parents@, 0),
        r.p2 == parent_id(parents@, 1),
        r.manifest_p1 == parent_manifest_id(parents@, 0),
        r.manifest_p2 == parent_manifest_id(parents@, 1),
        r.step_parents@ == step_parents_of(parents@),
        r.metadata.user@ == bcs.author@,
        r.metadata.time == bcs.author_date,
        r.metadata.comments@ == bcs.message@,
        hg_extra_view(r.metadata.extra@) == extra_view(bcs.extra@),
{
    let mut parent_manifests: Vec<HgManifestId> = Vec::new();
    let mut step_parents: Vec<HgChangesetId> = Vec::new();
    let mut i: usize = 0;
    while i < parents.len()
        invariant
            0 <= i <= parents.len(),
            parent_manifests@.len() == i,
            forall|k: int| 0 <= k < i ==> parent_manifests@[k] == parents@[k].manifest_id,
            step_parents@.len() == (if i > 2 {
                i - 2
            } else {
                0
            }),
            forall|k: int| 0 <= k < step_parents@.len() ==> step_parents@[k] == parents@[k + 2].cs_id,
        decreases parents.len() - i,
    {
        parent_manifests.push(parents[i].manifest_id);
        if i >= 2 {
            step_parents.push(parents[i].cs_id);
        }
        i += 1;
    }
    let (p1, manifest_p1) = if parents.len() > 0 {
        (Some(parents[0].cs_id), Some(parents[0].manifest_id))
    } else {
        (None, None)
    };
    let (p2, manifest_p2) = if parents.len() > 1 {
        (Some(parents[1].cs_id), Some(parents[1].manifest_id))
    } else {
        (None, None)
    };
    proof {
        assert(parent_manifests@ =~= manifests_of(parents@));
        assert(step_parents@ =~= step_parents_of(parents@));
    }
    HgChangesetPlan {
        parent_manifests,
        p1,
        p2,
        manifest_p1,
        manifest_p2,
        step_parents,
        metadata: metadata_of(bcs),
    }
}

} // verus!
