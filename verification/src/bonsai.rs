//! Changesets of the content-addressed graph.

use crate::ids::{ChangesetId, ContentId};
use crate::path::MPath;
use vstd::prelude::*;

verus! {

/// What kind of file a path holds.
#[derive(Clone, Copy, Debug, PartialEq, Eq, Structural, Hash)]
pub enum FileType {
    Regular,
    Executable,
    Symlink,
}

/// A point in time with the offset of the zone in which it was recorded.
#[derive(Clone, Copy, Debug, PartialEq, Eq, Structural, Hash)]
pub struct DateTime {
    pub timestamp_secs: i64,
    pub tz_offset_secs: i32,
}

/// The new state of a file that a changeset adds or modifies.
#[derive(Clone, Debug, PartialEq, Eq)]
pub struct FileChange {
    pub content_id: ContentId,
    pub file_type: FileType,
    pub size: u64,
    /// The path and changeset that the file was copied from, if it was.
    pub copy_from: Option<(MPath, ChangesetId)>,
}

/// The mathematical value of a `FileChange`.
pub struct FileChangeView {
    pub content_id: ContentId,
    pub file_type: FileType,
    pub size: u64,
    pub copy_from: Option<(Seq<Seq<u8>>, ChangesetId)>,
}

impl View for FileChange {
    type V = FileChangeView;

    open spec fn view(&self) -> FileChangeView {
        FileChangeView {
            content_id: self.content_id,
            file_type: self.file_type,
            size: self.size,
            copy_from: match self.copy_from {
                Some((path, id)) => Some((path@, id)),
                None => None,
            },
        }
    }
}

impl FileChange {
    /// The change to a file with the given content.
    pub fn new(
        content_id: ContentId,
        file_type: FileType,
        size: u64,
        copy_from: Option<(MPath, ChangesetId)>,
    ) -> (r: Self)
        ensures
            r == (FileChange { content_id, file_type, size, copy_from }),
    {
        FileChange { content_id, file_type, size, copy_from }
    }

    /// The content of the file.
    pub fn content_id(&self) -> (r: ContentId)
        ensures
            r == self.content_id,
    {
        self.content_id
    }

    /// The kind of the file.
    pub fn file_type(&self) -> (r: FileType)
        ensures
            r == self.file_type,
    {
        self.file_type
    }

    /// The size of the content in bytes.
    pub fn size(&self) -> (r: u64)
        ensures
            r == self.size,
    {
        self.size
    }

    /// The path and changeset that the file was copied from, if it was.
    pub fn copy_from(&self) -> (r: Option<&(MPath, ChangesetId)>)
        ensures
            match r {
                Some(c) => self.copy_from == Some(*c),
                None => self.copy_from is None,
            },
    {
        self.copy_from.as_ref()
    }
}

/// The change that a changeset makes to one path: the new state of the file,
/// or `None` where the file is deleted.
pub type PathChange = (MPath, Option<FileChange>);

/// The mathematical value of the change to one path.
pub open spec fn path_change_view(change: PathChange) -> (Seq<Seq<u8>>, Option<FileChangeView>) {
    (
        change.0@,
        match change.1 {
            Some(fc) => Some(fc@),
            None => None,
        },
    )
}

/// A changeset of the content-addressed graph: a list of parents of any
/// length, and what it changes relative to them.
#[derive(Clone, Debug, PartialEq, Eq)]
pub struct BonsaiChangeset {
    /// The digest of the changeset's serialised content.
    pub id: ChangesetId,
    pub parents: Vec<ChangesetId>,
    pub file_changes: Vec<PathChange>,
    pub author: String,
    pub author_date: DateTime,
    pub message: String,
    pub extra: Vec<(String, Vec<u8>)>,
}

impl BonsaiChangeset {
    /// The identifier of the changeset.
    pub fn get_changeset_id(&self) -> (r: ChangesetId)
        ensures
            r == self.id,
    {
        self.id
    }

    /// The parents, in their order.
    pub fn parents(&self) -> (r: &Vec<ChangesetId>)
        ensures
            *r == self.parents,
    {
        &self.parents
    }

    /// The changes to paths, in their order.
    pub fn file_changes(&self) -> (r: &Vec<PathChange>)
        ensures
            *r == self.file_changes,
    {
        &self.file_changes
    }

    /// Who made the changeset.
    pub fn author(&self) -> (r: &String)
        ensures
            *r == self.author,
    {
        &self.author
    }

    /// When the changeset was made.
    pub fn author_date(&self) -> (r: DateTime)
        ensures
            r == self.author_date,
    {
        self.author_date
    }

    /// What was written about the changeset.
    pub fn message(&self) -> (r: &String)
        ensures
            *r == self.message,
    {
        &self.message
    }

    /// Further metadata by key.
    pub fn extra(&self) -> (r: &Vec<(String, Vec<u8>)>)
        ensures
            *r == self.extra,
    {
        &self.extra
    }
}

} // verus!
