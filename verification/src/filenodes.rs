//! Records of file history in the tree-manifest format, and the cache that a
//! reader of them keeps in memory.

use crate::ids::{HgChangesetId, HgFileNodeId, RepositoryId};
use crate::path::MPath;
use vstd::prelude::*;

verus! {

/// A path together with what it names: the root, a directory or a file.
#[derive(Clone, Debug, PartialEq, Eq)]
pub enum RepoPath {
    RootPath,
    DirectoryPath(MPath),
    FilePath(MPath),
}

/// The mathematical value of a `RepoPath`.
pub enum RepoPathView {
    RootPath,
    DirectoryPath(Seq<Seq<u8>>),
    FilePath(Seq<Seq<u8>>),
}

impl View for RepoPath {
    type V = RepoPathView;

    open spec fn view(&self) -> RepoPathView {
        match self {
            RepoPath::RootPath => RepoPathView::RootPath,
            RepoPath::DirectoryPath(p) => RepoPathView::DirectoryPath(p@),
            RepoPath::FilePath(p) => RepoPathView::FilePath(p@),
        }
    }
}

impl RepoPath {
    /// The root of the repository.
    pub fn root() -> (r: Self)
        ensures
            r == RepoPath::RootPath,
    {
        RepoPath::RootPath
    }

    /// The file at `path`.
    pub fn file(path: MPath) -> (r: Self)
        ensures
            r == RepoPath::FilePath(path),
    {
        RepoPath::FilePath(path)
    }

    /// The directory at `path`.
    pub fn dir(path: MPath) -> (r: Self)
        ensures
            r == RepoPath::DirectoryPath(path),
    {
        RepoPath::DirectoryPath(path)
    }

    /// A copy of the path.
    pub fn duplicate(&self) -> (r: RepoPath)
        ensures
            r@ == self@,
    {
        match self {
            RepoPath::RootPath => RepoPath::RootPath,
            RepoPath::DirectoryPath(p) => RepoPath::DirectoryPath(p.duplicate()),
            RepoPath::FilePath(p) => RepoPath::FilePath(p.duplicate()),
        }
    }

    /// Whether two paths name the same thing.
    pub fn same(&self, other: &RepoPath) -> (r: bool)
        ensures
            r == (self@ == other@),
    {
        match (self, other) {
            (RepoPath::RootPath, RepoPath::RootPath) => true,
            (RepoPath::DirectoryPath(a), RepoPath::DirectoryPath(b)) => a == b,
            (RepoPath::FilePath(a), RepoPath::FilePath(b)) => a == b,
            _ => false,
        }
    }
}

/// One revision of one path: its identifier, the revisions it follows, where
/// it was copied from, and the changeset that introduced it.
#[derive(Clone, Debug, PartialEq, Eq)]
pub struct FilenodeInfo {
    pub path: RepoPath,
    pub filenode: HgFileNodeId,
    pub p1: Option<HgFileNodeId>,
    pub p2: Option<HgFileNodeId>,
    pub copyfrom: Option<(RepoPath, HgFileNodeId)>,
    pub linknode: HgChangesetId,
}

/// An in-memory cache of file-node records, for readers under test.
#[derive(Clone, Debug)]
pub struct HashMapCache {
    entries: Vec<(RepositoryId, FilenodeInfo)>,
}

impl View for HashMapCache {
    type V = Seq<(RepositoryId, FilenodeInfo)>;

    closed spec fn view(&self) -> Seq<(RepositoryId, FilenodeInfo)> {
        self.entries@
    }
}

/// Whether the cached `entry` answers the question for `filenode` at `path`
/// in repository `repo`.
pub open spec fn entry_matches(
    entry: (RepositoryId, FilenodeInfo),
    repo: RepositoryId,
    path: RepoPathView,
    filenode: HgFileNodeId,
) -> bool {
    entry.0 == repo && entry.1.path@ == path && entry.1.filenode == filenode
}

/// The first of `entries` that answers the question, if any does.
pub open spec fn cached(
    entries: Seq<(RepositoryId, FilenodeInfo)>,
    repo: RepositoryId,
    path: RepoPathView,
    filenode: HgFileNodeId,
) -> Option<FilenodeInfo>
    decreases entries.len(),
{
    if entries.len() == 0 {
        None
    } else if entry_matches(entries.first(), repo, path, filenode) {
        Some(entries.first().1)
    } else {
        cached(entries.drop_first(), repo, path, filenode)
    }
}

impl HashMapCache {
    /// The cache that holds nothing.
    pub fn new() -> (r: Self)
        ensures
            r@ == Seq::<(RepositoryId, FilenodeInfo)>::empty(),
    {
        HashMapCache { entries: Vec::new() }
    }

    /// The record cached for `filenode` at `path` in repository `repo`.
    pub fn get(&self, repo: RepositoryId, path: &RepoPath, filenode: HgFileNodeId) -> (r: Option<
        &FilenodeInfo,
    >)
        ensures
            match r {
                Some(info) => cached(self@, repo, path@, filenode) == Some(*info),
                None => cached(self@, repo, path@, filenode) is None,
            },
    {
        let mut i: usize = 0;
        assert(self@.skip(0) =~= self@);
        while i < self.entries.len()
            invariant
                0 <= i <= self.entries.len(),
                cached(self@, repo, path@, filenode) == cached(
                    self@.skip(i as int),
                    repo,
                    path@,
                    filenode,
                ),
            decreases self.entries.len() - i,
        {
            proof {
                assert(self@.skip(i as int).first() == self@[i as int]);
                assert(self@.skip(i as int).drop_first() =~= self@.skip(i + 1));
            }
            let entry = &self.entries[i];
            if entry.0 == repo && entry.1.path.same(path) && entry.1.filenode == filenode {
                return Some(&entry.1);
            }
            i += 1;
        }
        None
    }

    /// The cache that also holds `info` for repository `repo`. A record
    /// cached earlier for the same question stays the answer.
    pub fn fill(self, repo: RepositoryId, info: FilenodeInfo) -> (r: Self)
        ensures
            r@ == self@.push((repo, info)),
    {
        let mut entries = self.entries;
        entries.push((repo, info));
        HashMapCache { entries }
    }
}

/// The cache that a reader consults before it asks the store.
#[derive(Clone, Debug)]
pub enum LocalCache {
    /// Nothing is cached.
    Noop,
    /// Records are cached in memory.
    Test(HashMapCache),
}

impl LocalCache {
    /// What the cache holds.
    pub open spec fn contents(self) -> Seq<(RepositoryId, FilenodeInfo)> {
        match self {
            LocalCache::Noop => Seq::empty(),
            LocalCache::Test(cache) => cache@,
        }
    }

    /// The record cached for `filenode` at `path` in repository `repo`.
    pub fn get(&self, repo: RepositoryId, path: &RepoPath, filenode: HgFileNodeId) -> (r: Option<
        &FilenodeInfo,
    >)
        ensures
            match r {
                Some(info) => cached(self.contents(), repo, path@, filenode) == Some(*info),
                None => cached(self.contents(), repo, path@, filenode) is None,
            },
    {
        match self {
            LocalCache::Noop => None,
            LocalCache::Test(cache) => cache.get(repo, path, filenode),
        }
    }

    /// The cache after a record read from the store was offered to it.
    pub fn fill(self, repo: RepositoryId, info: FilenodeInfo) -> (r: Self)
        ensures
            self is Noop ==> r is Noop,
            self is Test ==> r is Test && r.contents() == self.contents().push((repo, info)),
    {
        match self {
            LocalCache::Noop => LocalCache::Noop,
            LocalCache::Test(cache) => LocalCache::Test(cache.fill(repo, info)),
        }
    }
}

/// What a reader of file-node records holds besides its connections to the
/// store.
#[derive(Clone, Debug)]
pub struct FilenodesReader {
    pub local_cache: LocalCache,
}

impl FilenodesReader {
    /// A reader that caches nothing.
    pub fn new() -> (r: Self)
        ensures
            r.local_cache == LocalCache::Noop,
    {
        FilenodesReader { local_cache: LocalCache::Noop }
    }
}

/// The reader as it is.
pub fn no_caching(reader: FilenodesReader) -> (r: FilenodesReader)
    ensures
        r == reader,
{
    reader
}

/// The reader with an empty in-memory cache in place of the one it had.
pub fn with_caching(reader: FilenodesReader) -> (r: FilenodesReader)
    ensures
        r.local_cache is Test,
        r.local_cache.contents() == Seq::<(RepositoryId, FilenodeInfo)>::empty(),
{
    let mut reader = reader;
    reader.local_cache = LocalCache::Test(HashMapCache::new());
    reader
}

/// What the store of file-node records answers: a value, or that the store
/// is switched off.
#[derive(Clone, Debug, PartialEq, Eq)]
pub enum FilenodeResult<T> {
    Present(T),
    Disabled,
}

} // verus!
