use blobrepo::bonsai::{BonsaiChangeset, DateTime, FileChange, FileType};
use blobrepo::file_change::{FileNodeDecision, StoreEvent, StoreRequest, StoreStep};
use blobrepo::ids::{ChangesetId, ContentId, HgFileNodeId, HgManifestId, HgNodeHash};
use blobrepo::manifest::{
    first_two_manifests, first_two_parents, manifest_lookups, store_file_changes, FoundEntry,
    ResolvedPaths,
};
use blobrepo::path::MPath;
use blobrepo::repo::BlobRepo;
use blobrepo::ids::RepositoryId;

fn cs(n: u8) -> ChangesetId {
    ChangesetId::new([n; 32])
}

fn mf(n: u8) -> HgManifestId {
    HgManifestId::new(HgNodeHash::new([n; 20]))
}

fn node(n: u8) -> HgFileNodeId {
    HgFileNodeId::new(HgNodeHash::new([n; 20]))
}

fn path(p: &str) -> MPath {
    MPath::new(p.as_bytes()).unwrap()
}

fn file(c: u8, copy_from: Option<(&str, u8)>) -> FileChange {
    FileChange::new(
        ContentId::new([c; 32]),
        FileType::Regular,
        1,
        copy_from.map(|(p, id)| (path(p), cs(id))),
    )
}

fn changeset(parents: &[u8], changes: Vec<(&str, Option<FileChange>)>) -> BonsaiChangeset {
    BonsaiChangeset {
        id: cs(100),
        parents: parents.iter().map(|p| cs(*p)).collect(),
        file_changes: changes.into_iter().map(|(p, c)| (path(p), c)).collect(),
        author: "author".to_string(),
        author_date: DateTime { timestamp_secs: 1, tz_offset_secs: 0 },
        message: "message".to_string(),
        extra: vec![],
    }
}

#[test]
fn first_two_of_parents_and_manifests() {
    assert_eq!(first_two_parents(&vec![]), (None, None));
    assert_eq!(first_two_parents(&vec![cs(1)]), (Some(cs(1)), None));
    assert_eq!(first_two_parents(&vec![cs(1), cs(2), cs(3)]), (Some(cs(1)), Some(cs(2))));
    assert_eq!(first_two_manifests(&vec![]), (None, None));
    assert_eq!(first_two_manifests(&vec![mf(1), mf(2), mf(3)]), (Some(mf(1)), Some(mf(2))));
}

#[test]
fn lookups_hold_changed_paths_and_copy_sources() {
    let bcs = changeset(
        &[1, 2, 3],
        vec![
            ("a", Some(file(1, None))),
            ("b", Some(file(2, Some(("x", 1))))),
            ("c", Some(file(3, Some(("y", 2))))),
            ("d", Some(file(4, Some(("z", 3))))),
            ("e", None),
        ],
    );
    let repo = BlobRepo::new(RepositoryId::new(0), "repo".to_string());
    let lookups = repo.get_manifest_from_bonsai(&bcs, &vec![mf(1), mf(2), mf(3)]);
    assert_eq!(lookups.manifest_p1, Some(mf(1)));
    assert_eq!(lookups.manifest_p2, Some(mf(2)));
    // The source of a copy from one of the first two parents is looked up in both.
    let expected = vec![path("a"), path("x"), path("b"), path("y"), path("c"), path("d")];
    assert_eq!(lookups.p1_paths, expected);
    assert_eq!(lookups.p2_paths, expected);
}

#[test]
fn lookups_of_a_root_changeset_name_no_manifest() {
    let bcs = changeset(&[], vec![("a", Some(file(1, Some(("x", 1)))))]);
    let lookups = manifest_lookups(&bcs, &vec![]);
    assert_eq!(lookups.manifest_p1, None);
    assert_eq!(lookups.manifest_p2, None);
    assert_eq!(lookups.p1_paths, vec![path("a")]);
    assert_eq!(lookups.p2_paths, vec![path("a")]);
}

#[test]
fn resolved_paths_answer_with_the_latest_finding() {
    let found = ResolvedPaths::new()
        .insert(path("a"), node(1))
        .insert(path("b/c"), node(2))
        .insert(path("a"), node(3));
    assert_eq!(found.get(&path("a")), Some(node(3)));
    assert_eq!(found.get(&path("b/c")), Some(node(2)));
    assert_eq!(found.get(&path("b")), None);
    assert_eq!(ResolvedPaths::new().get(&path("a")), None);
}

#[test]
fn store_steps_resolve_nodes_and_copy_sources() {
    let bcs = changeset(
        &[1, 2, 3],
        vec![
            ("a", Some(file(1, None))),
            ("b", Some(file(2, Some(("x", 1))))),
            ("c", Some(file(3, Some(("y", 2))))),
            ("d", Some(file(4, Some(("z", 3))))),
            ("e", None),
            ("f", Some(file(5, Some(("missing", 1))))),
            ("g", Some(file(6, Some(("x", 1))))),
            ("h", Some(file(7, Some(("both", 1))))),
        ],
    );
    let p1s = ResolvedPaths::new()
        .insert(path("a"), node(11))
        .insert(path("x"), node(12))
        .insert(path("both"), node(13))
        .insert(path("h"), node(14));
    let p2s = ResolvedPaths::new()
        .insert(path("y"), node(21))
        .insert(path("g"), node(22))
        .insert(path("both"), node(23));
    let mut steps = store_file_changes(bcs.file_changes, Some(cs(1)), Some(cs(2)), &p1s, &p2s);
    assert_eq!(steps.len(), 8);

    // a: one parent has a node: its content is asked for.
    assert_eq!(steps[0].0, path("a"));
    match &steps[0].1 {
        Some(StoreStep::Ask(_, request)) => {
            assert_eq!(*request, StoreRequest::LoadParentEnvelope(node(11)))
        }
        other => panic!("unexpected step {:?}", other),
    }
    // b: copied from x in the first parent.
    match &steps[1].1 {
        Some(StoreStep::Done(FileNodeDecision::Upload { copy_from, p1, p2, .. })) => {
            assert_eq!(*copy_from, Some((path("x"), node(12))));
            assert_eq!((*p1, *p2), (None, None));
        }
        other => panic!("unexpected step {:?}", other),
    }
    // c: copied from y in the second parent.
    match &steps[2].1 {
        Some(StoreStep::Done(FileNodeDecision::Upload { copy_from, .. })) => {
            assert_eq!(*copy_from, Some((path("y"), node(21))));
        }
        other => panic!("unexpected step {:?}", other),
    }
    // d: copied from a parent beyond the second: the copy is not recorded.
    match &steps[3].1 {
        Some(StoreStep::Done(FileNodeDecision::Upload { copy_from, .. })) => {
            assert_eq!(*copy_from, None);
        }
        other => panic!("unexpected step {:?}", other),
    }
    // e: deleted.
    assert_eq!(steps[4].0, path("e"));
    assert!(steps[4].1.is_none());
    // f: copied from a path that the parent does not hold.
    match &steps[5].1 {
        Some(StoreStep::Done(FileNodeDecision::Upload { copy_from, .. })) => {
            assert_eq!(*copy_from, None);
        }
        other => panic!("unexpected step {:?}", other),
    }
    // g: copied from x, which only the first parent holds, onto a path that only the
    // second parent holds: the content of that node is asked for, and whatever it is,
    // the new node has no parents.
    match steps.remove(6).1 {
        Some(StoreStep::Ask(s, request)) => {
            assert_eq!(request, StoreRequest::LoadParentEnvelope(node(22)));
            match s.step(StoreEvent::ParentContent(ContentId::new([6; 32]))).unwrap() {
                StoreStep::Done(FileNodeDecision::Upload { copy_from, p1, p2, .. }) => {
                    assert_eq!(copy_from, Some((path("x"), node(12))));
                    assert_eq!((p1, p2), (None, None));
                }
                other => panic!("unexpected step {:?}", other),
            }
        }
        other => panic!("unexpected step {:?}", other),
    }
    // h: copied from a path that both parents hold: the node of the first parent stays.
    match steps.remove(6).1 {
        Some(StoreStep::Ask(s, request)) => {
            assert_eq!(request, StoreRequest::LoadParentEnvelope(node(14)));
            match s.step(StoreEvent::ParentContent(ContentId::new([9; 32]))).unwrap() {
                StoreStep::Done(FileNodeDecision::Upload { copy_from, p1, p2, .. }) => {
                    assert_eq!(copy_from, Some((path("both"), node(13))));
                    assert_eq!((p1, p2), (Some(node(14)), None));
                }
                other => panic!("unexpected step {:?}", other),
            }
        }
        other => panic!("unexpected step {:?}", other),
    }
}

#[test]
fn only_files_count_among_what_was_found() {
    let found = ResolvedPaths::from_found(vec![
        (Some(path("a")), FoundEntry::Leaf(node(1))),
        (Some(path("dir")), FoundEntry::Tree(mf(2))),
        (None, FoundEntry::Tree(mf(3))),
        (None, FoundEntry::Leaf(node(4))),
        (Some(path("dir/b")), FoundEntry::Leaf(node(5))),
        (Some(path("a")), FoundEntry::Leaf(node(6))),
    ]);
    assert_eq!(found.get(&path("a")), Some(node(6)));
    assert_eq!(found.get(&path("dir/b")), Some(node(5)));
    assert_eq!(found.get(&path("dir")), None);
    assert_eq!(ResolvedPaths::from_found(vec![]).get(&path("a")), None);
}
