use blobrepo::filenodes::{
    no_caching, with_caching, FilenodeInfo, FilenodesReader, HashMapCache, LocalCache, RepoPath,
};
use blobrepo::ids::{HgChangesetId, HgFileNodeId, HgNodeHash, RepositoryId};
use blobrepo::path::MPath;

const REPO_ZERO: RepositoryId = RepositoryId(0);
const REPO_ONE: RepositoryId = RepositoryId(1);

fn ones_fnid() -> HgFileNodeId {
    HgFileNodeId::new(HgNodeHash::new([0x11; 20]))
}

fn twos_fnid() -> HgFileNodeId {
    HgFileNodeId::new(HgNodeHash::new([0x22; 20]))
}

fn ones_csid() -> HgChangesetId {
    HgChangesetId::new(HgNodeHash::new([0x11; 20]))
}

fn twos_csid() -> HgChangesetId {
    HgChangesetId::new(HgNodeHash::new([0x22; 20]))
}

fn file(p: &[u8]) -> RepoPath {
    RepoPath::file(MPath::new(p).unwrap())
}

fn root_first_filenode() -> FilenodeInfo {
    FilenodeInfo {
        path: RepoPath::root(),
        filenode: ones_fnid(),
        p1: None,
        p2: None,
        copyfrom: None,
        linknode: ones_csid(),
    }
}

/// A record is absent before it is offered to the cache and present after.
fn check_roundtrip(cache: LocalCache, repo_id: RepositoryId, info: FilenodeInfo) -> LocalCache {
    assert_eq!(cache.get(repo_id, &info.path, info.filenode), None);
    let cache = cache.fill(repo_id, info.clone());
    assert_eq!(cache.get(repo_id, &info.path, info.filenode), Some(&info));
    cache
}

fn cache() -> LocalCache {
    with_caching(FilenodesReader::new()).local_cache
}

#[test]
fn test_basic() {
    let info = FilenodeInfo {
        path: file(b"test"),
        filenode: ones_fnid(),
        p1: Some(twos_fnid()),
        p2: None,
        copyfrom: None,
        linknode: ones_csid(),
    };
    check_roundtrip(cache(), REPO_ZERO, info);
}

#[test]
fn read_copy_info() {
    let from = FilenodeInfo {
        path: file(b"from"),
        filenode: ones_fnid(),
        p1: None,
        p2: None,
        copyfrom: None,
        linknode: ones_csid(),
    };
    let cache = cache().fill(REPO_ZERO, from.clone());
    let info = FilenodeInfo {
        path: file(b"test"),
        filenode: twos_fnid(),
        p1: None,
        p2: None,
        copyfrom: Some((from.path.clone(), from.filenode)),
        linknode: twos_csid(),
    };
    let cache = check_roundtrip(cache, REPO_ZERO, info);
    assert_eq!(cache.get(REPO_ZERO, &from.path, from.filenode), Some(&from));
}

#[test]
fn test_repo_ids() {
    let info = root_first_filenode();
    let cache = cache().fill(REPO_ZERO, info.clone());
    assert_eq!(cache.get(REPO_ZERO, &info.path, info.filenode), Some(&info));
    assert_eq!(cache.get(REPO_ONE, &info.path, info.filenode), None);
}

#[test]
fn reader_without_caching_is_unchanged() {
    let reader = no_caching(FilenodesReader::new());
    assert!(matches!(reader.local_cache, LocalCache::Noop));
    let reader = no_caching(with_caching(FilenodesReader::new()));
    assert!(matches!(reader.local_cache, LocalCache::Test(_)));
}

#[test]
fn reader_with_caching_starts_with_an_empty_cache() {
    let reader = with_caching(FilenodesReader::new());
    let info = root_first_filenode();
    assert_eq!(reader.local_cache.get(REPO_ZERO, &info.path, info.filenode), None);
    let filled = FilenodesReader { local_cache: reader.local_cache.fill(REPO_ZERO, info.clone()) };
    assert_eq!(filled.local_cache.get(REPO_ZERO, &info.path, info.filenode), Some(&info));
    let emptied = with_caching(filled);
    assert_eq!(emptied.local_cache.get(REPO_ZERO, &info.path, info.filenode), None);
}

#[test]
fn cache_that_caches_nothing_stays_empty() {
    let info = root_first_filenode();
    let cache = LocalCache::Noop.fill(REPO_ZERO, info.clone());
    assert!(matches!(cache, LocalCache::Noop));
    assert_eq!(cache.get(REPO_ZERO, &info.path, info.filenode), None);
}

#[test]
fn cache_tells_paths_and_nodes_apart() {
    let a = FilenodeInfo { path: file(b"a"), ..root_first_filenode() };
    let dir_a = FilenodeInfo { path: RepoPath::dir(MPath::new(b"a").unwrap()), filenode: twos_fnid(), ..root_first_filenode() };
    let cache = HashMapCache::new().fill(REPO_ZERO, a.clone()).fill(REPO_ZERO, dir_a.clone());
    assert_eq!(cache.get(REPO_ZERO, &a.path, a.filenode), Some(&a));
    assert_eq!(cache.get(REPO_ZERO, &a.path, twos_fnid()), None);
    assert_eq!(cache.get(REPO_ZERO, &dir_a.path, twos_fnid()), Some(&dir_a));
    assert_eq!(cache.get(REPO_ZERO, &RepoPath::root(), a.filenode), None);
    assert!(a.path.same(&file(b"a")));
    assert!(!a.path.same(&dir_a.path));
    assert!(RepoPath::root().same(&RepoPath::RootPath));
    assert_eq!(a.path.duplicate(), a.path);
    // The record that was cached first stays the answer.
    let changed = FilenodeInfo { linknode: twos_csid(), ..a.clone() };
    let cache = cache.fill(REPO_ZERO, changed);
    assert_eq!(cache.get(REPO_ZERO, &a.path, a.filenode), Some(&a));
}
