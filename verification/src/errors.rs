//! What can go wrong in the changeset core.

use crate::filenodes::{RepoPath, RepoPathView};
use crate::ids::{ChangesetId, HgChangesetId, HgFileNodeId};
use crate::path::MPath;
use vstd::prelude::*;

verus! {

/// An error of the changeset core.
#[derive(Clone, Debug, PartialEq, Eq)]
pub enum ErrorKind {
    /// The index does not know the changeset.
    BonsaiNotFound(ChangesetId),
    /// The mapping does not know the changeset of the tree-manifest form.
    BonsaiMappingNotFound(HgChangesetId),
    /// The history of the path lacks the file node.
    MissingFilenode(RepoPath, HgFileNodeId),
    /// A new path differs from this path only by case.
    CaseConflict(MPath),
    /// A parent of a changeset that is to be saved is not in the
    /// repository.
    MissingParent(ChangesetId),
}

/// The mathematical value of an `ErrorKind`.
pub enum ErrorKindView {
    BonsaiNotFound(ChangesetId),
    BonsaiMappingNotFound(HgChangesetId),
    MissingFilenode(RepoPathView, HgFileNodeId),
    CaseConflict(Seq<Seq<u8>>),
    MissingParent(ChangesetId),
}

impl View for ErrorKind {
    type V = ErrorKindView;

    open spec fn view(&self) -> ErrorKindView {
        match self {
            ErrorKind::BonsaiNotFound(id) => ErrorKindView::BonsaiNotFound(*id),
            ErrorKind::BonsaiMappingNotFound(id) => ErrorKindView::BonsaiMappingNotFound(*id),
            ErrorKind::MissingFilenode(path, node) => ErrorKindView::MissingFilenode(path@, *node),
            ErrorKind::CaseConflict(path) => ErrorKindView::CaseConflict(path@),
            ErrorKind::MissingParent(id) => ErrorKindView::MissingParent(*id),
        }
    }
}

} // verus!
