use blobrepo::case_conflict::{
    collect_colliding, fail_on_conflict, CaseConflictCheck, CaseEvent, CaseRequest, CaseStep,
    ManifestEntry,
};
use blobrepo::errors::ErrorKind;
use blobrepo::ids::{HgManifestId, HgNodeHash, RepositoryId};
use blobrepo::path::{MPath, MPathElement};
use blobrepo::repo::BlobRepo;

fn mf(n: u8) -> HgManifestId {
    HgManifestId::new(HgNodeHash::new([n; 20]))
}

fn path(p: &str) -> MPath {
    MPath::new(p.as_bytes()).unwrap()
}

fn name(n: &[u8]) -> MPathElement {
    MPathElement::new(n.to_vec()).unwrap()
}

fn ask(step: CaseStep) -> (CaseConflictCheck, CaseRequest) {
    match step {
        CaseStep::Ask(s, r) => (s, r),
        CaseStep::Done(d) => panic!("unexpected end {:?}", d),
    }
}

fn done(step: CaseStep) -> Option<MPath> {
    match step {
        CaseStep::Done(d) => d,
        CaseStep::Ask(_, r) => panic!("unexpected request {:?}", r),
    }
}

fn load(request: CaseRequest) -> HgManifestId {
    match request {
        CaseRequest::LoadManifest(id) => id,
        other => panic!("unexpected request {:?}", other),
    }
}

fn find(request: CaseRequest) -> (HgManifestId, Vec<MPath>) {
    match request {
        CaseRequest::FindEntries { manifest, paths } => (manifest, paths),
        other => panic!("unexpected request {:?}", other),
    }
}

/// Walks `Dir/file.txt` through a parent manifest that holds `Dir/File.txt`
/// up to the question to the child.
fn walk_to_the_child() -> (CaseConflictCheck, Vec<MPath>) {
    let repo = BlobRepo::new(RepositoryId::new(0), "repo".to_string());
    let (s, request) = ask(repo.check_case_conflict_in_manifest(mf(1), mf(2), path("Dir/file.txt")));
    assert_eq!(load(request), mf(1));
    let root = vec![(name(b"Dir"), ManifestEntry::Tree(mf(3))), (name(b"other"), ManifestEntry::Leaf)];
    let (s, request) = ask(s.step(CaseEvent::Manifest(root)).unwrap());
    assert_eq!(load(request), mf(3));
    let dir = vec![(name(b"File.txt"), ManifestEntry::Leaf), (name(b"readme"), ManifestEntry::Leaf)];
    let (s, request) = ask(s.step(CaseEvent::Manifest(dir)).unwrap());
    let (manifest, paths) = find(request);
    assert_eq!(manifest, mf(2));
    (s, paths)
}

#[test]
fn path_that_differs_by_case_is_a_conflict() {
    let (s, paths) = walk_to_the_child();
    assert_eq!(paths, vec![path("Dir/File.txt")]);
    let conflict = done(s.step(CaseEvent::Found(vec![Some(path("Dir/File.txt"))])).unwrap());
    assert_eq!(conflict, Some(path("Dir/File.txt")));
}

#[test]
fn path_that_is_deleted_at_the_same_time_is_no_conflict() {
    let (s, paths) = walk_to_the_child();
    assert_eq!(paths, vec![path("Dir/File.txt")]);
    let conflict = done(s.step(CaseEvent::Found(vec![])).unwrap());
    assert_eq!(conflict, None);
}

#[test]
fn existing_file_is_no_conflict() {
    let (s, _) = ask(CaseConflictCheck::new(mf(1), mf(2), path("Dir/File.txt")));
    let root = vec![(name(b"Dir"), ManifestEntry::Tree(mf(3)))];
    let (s, _) = ask(s.step(CaseEvent::Manifest(root)).unwrap());
    let dir = vec![(name(b"File.txt"), ManifestEntry::Leaf), (name(b"file.TXT"), ManifestEntry::Leaf)];
    assert_eq!(done(s.step(CaseEvent::Manifest(dir)).unwrap()), None);
}

#[test]
fn existing_directory_at_the_end_of_the_path_is_no_conflict() {
    let (s, _) = ask(CaseConflictCheck::new(mf(1), mf(2), path("Dir")));
    let root = vec![(name(b"Dir"), ManifestEntry::Tree(mf(3)))];
    assert_eq!(done(s.step(CaseEvent::Manifest(root)).unwrap()), None);
}

#[test]
fn file_in_the_way_of_a_directory_ends_the_check() {
    let (s, _) = ask(CaseConflictCheck::new(mf(1), mf(2), path("Dir/file.txt")));
    let root = vec![(name(b"Dir"), ManifestEntry::Leaf), (name(b"dir"), ManifestEntry::Leaf)];
    assert_eq!(done(s.step(CaseEvent::Manifest(root)).unwrap()), None);
}

#[test]
fn new_name_without_lookalike_needs_no_question() {
    let (s, _) = ask(CaseConflictCheck::new(mf(1), mf(2), path("new")));
    let root = vec![(name(b"Dir"), ManifestEntry::Tree(mf(3))), (name(b"other"), ManifestEntry::Leaf)];
    assert_eq!(done(s.step(CaseEvent::Manifest(root)).unwrap()), None);
}

#[test]
fn conflicts_at_the_root_and_in_order_of_the_listing() {
    let (s, _) = ask(CaseConflictCheck::new(mf(1), mf(2), path("readme/x")));
    let root = vec![
        (name(b"README"), ManifestEntry::Leaf),
        (name(b"src"), ManifestEntry::Tree(mf(3))),
        (name(b"ReadMe"), ManifestEntry::Tree(mf(4))),
    ];
    let (s, request) = ask(s.step(CaseEvent::Manifest(root)).unwrap());
    let (manifest, paths) = find(request);
    assert_eq!(manifest, mf(2));
    assert_eq!(paths, vec![path("README"), path("ReadMe")]);
    // The first path that the child reports is the conflict.
    let conflict = done(s.step(CaseEvent::Found(vec![Some(path("ReadMe")), Some(path("README"))])).unwrap());
    assert_eq!(conflict, Some(path("ReadMe")));
}

#[test]
fn letters_beyond_ascii_are_folded_too() {
    let (s, _) = ask(CaseConflictCheck::new(mf(1), mf(2), path("ärger")));
    let root = vec![(name("ÄRGER".as_bytes()), ManifestEntry::Leaf)];
    let (_, request) = ask(s.step(CaseEvent::Manifest(root)).unwrap());
    let (_, paths) = find(request);
    assert_eq!(paths, vec![path("ÄRGER")]);
}

#[test]
fn names_that_are_not_text_never_collide() {
    let (s, _) = ask(CaseConflictCheck::new(mf(1), mf(2), MPath::from_element(vec![0xff, b'a']).unwrap()));
    let root = vec![(name(&[0xff, b'A']), ManifestEntry::Leaf), (name(&[0xfe]), ManifestEntry::Leaf)];
    assert_eq!(done(s.step(CaseEvent::Manifest(root)).unwrap()), None);
    let (s, _) = ask(CaseConflictCheck::new(mf(1), mf(2), path("a")));
    let root = vec![(name(&[0xff, b'A']), ManifestEntry::Leaf)];
    assert_eq!(done(s.step(CaseEvent::Manifest(root)).unwrap()), None);
}

#[test]
fn root_reported_by_the_child_is_no_conflict() {
    let (s, _) = walk_to_the_child();
    let conflict = done(s.step(CaseEvent::Found(vec![None, Some(path("Dir/File.txt"))])).unwrap());
    assert_eq!(conflict, None);
}

#[test]
fn case_check_rejects_answers_it_did_not_ask_for() {
    let (s, _) = ask(CaseConflictCheck::new(mf(1), mf(2), path("a")));
    assert!(s.step(CaseEvent::Found(vec![])).is_none());
    let (s, _) = walk_to_the_child();
    assert!(s.step(CaseEvent::Manifest(vec![])).is_none());
}

#[test]
fn conflict_is_an_error() {
    assert_eq!(fail_on_conflict(None), Ok(()));
    assert_eq!(fail_on_conflict(Some(path("a/B"))), Err(ErrorKind::CaseConflict(path("a/B"))));
}

#[test]
fn names_with_the_same_lower_case_form_collide() {
    let names = vec![
        (name(b"File.txt"), Some("file.txt".to_string())),
        (name(b"readme"), Some("readme".to_string())),
        (name(&[0xff]), None),
        (name(b"FILE.TXT"), Some("file.txt".to_string())),
        (name(b"file.txt2"), Some("file.txt2".to_string())),
    ];
    let dir = path("Dir");
    let wanted = Some("file.txt".to_string());
    assert_eq!(
        collect_colliding(Some(&dir), &names, &wanted),
        vec![path("Dir/File.txt"), path("Dir/FILE.TXT")]
    );
    assert_eq!(collect_colliding(None, &names, &wanted), vec![path("File.txt"), path("FILE.TXT")]);
    assert_eq!(collect_colliding(Some(&dir), &names, &Some("other".to_string())), vec![]);
    // An element that is no text collides with nothing, not even with such names.
    assert_eq!(collect_colliding(Some(&dir), &names, &None), vec![]);
    assert_eq!(collect_colliding(Some(&dir), &vec![], &wanted), vec![]);
}
