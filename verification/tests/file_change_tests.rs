use blobrepo::bonsai::{FileChange, FileType};
use blobrepo::file_change::{
    FileNodeDecision, FilenodesRelatedResult, StoreEvent, StoreFileChange, StoreRequest, StoreStep,
};
use blobrepo::ids::{ChangesetId, ContentId, HgFileNodeId, HgNodeHash};
use blobrepo::path::MPath;

fn node(n: u8) -> HgFileNodeId {
    HgFileNodeId::new(HgNodeHash::new([n; 20]))
}

fn content(n: u8) -> ContentId {
    ContentId::new([n; 32])
}

fn path(p: &str) -> MPath {
    MPath::new(p.as_bytes()).unwrap()
}

fn change(c: u8, file_type: FileType) -> FileChange {
    FileChange::new(content(c), file_type, 10, None)
}

fn copy_change(c: u8, from: &str) -> FileChange {
    FileChange::new(content(c), FileType::Regular, 10, Some((path(from), ChangesetId::new([9; 32]))))
}

fn ask(step: StoreStep) -> (StoreFileChange, StoreRequest) {
    match step {
        StoreStep::Ask(s, r) => (s, r),
        StoreStep::Done(d) => panic!("unexpected decision {:?}", d),
    }
}

fn done(step: StoreStep) -> FileNodeDecision {
    match step {
        StoreStep::Done(d) => d,
        StoreStep::Ask(_, r) => panic!("unexpected request {:?}", r),
    }
}

fn upload(p: &str, c: u8, copy_from: Option<(MPath, HgFileNodeId)>, p1: Option<HgFileNodeId>, p2: Option<HgFileNodeId>) -> FileNodeDecision {
    FileNodeDecision::Upload {
        path: path(p),
        content_id: content(c),
        size: 10,
        file_type: FileType::Regular,
        copy_from,
        p1,
        p2,
    }
}

#[test]
fn changed_type_with_same_content_reuses_the_node() {
    let step = StoreFileChange::new(Some(node(1)), None, path("a"), change(5, FileType::Executable), None, false);
    let (s, request) = ask(step);
    assert_eq!(request, StoreRequest::LoadParentEnvelope(node(1)));
    let decision = done(s.step(StoreEvent::ParentContent(content(5))).unwrap());
    assert_eq!(decision, FileNodeDecision::Reuse { node: node(1), file_type: FileType::Executable });
}

#[test]
fn same_content_in_the_second_parent_alone_reuses_the_node() {
    let step = StoreFileChange::new(None, Some(node(2)), path("a"), change(5, FileType::Regular), None, false);
    let (s, request) = ask(step);
    assert_eq!(request, StoreRequest::LoadParentEnvelope(node(2)));
    let decision = done(s.step(StoreEvent::ParentContent(content(5))).unwrap());
    assert_eq!(decision, FileNodeDecision::Reuse { node: node(2), file_type: FileType::Regular });
}

#[test]
fn changed_content_mints_a_node_with_the_parent() {
    let step = StoreFileChange::new(Some(node(1)), None, path("a"), change(5, FileType::Regular), None, false);
    let (s, _) = ask(step);
    let decision = done(s.step(StoreEvent::ParentContent(content(6))).unwrap());
    assert_eq!(decision, upload("a", 5, None, Some(node(1)), None));
}

#[test]
fn node_of_the_second_parent_alone_becomes_the_first() {
    let step = StoreFileChange::new(None, Some(node(2)), path("a"), change(5, FileType::Regular), None, false);
    let (s, _) = ask(step);
    let decision = done(s.step(StoreEvent::ParentContent(content(6))).unwrap());
    assert_eq!(decision, upload("a", 5, None, Some(node(2)), None));
}

#[test]
fn new_file_has_no_parents() {
    let decision = done(StoreFileChange::new(None, None, path("a"), change(5, FileType::Regular), None, false));
    assert_eq!(decision, upload("a", 5, None, None, None));
}

#[test]
fn copy_onto_new_path_has_no_parents() {
    let copy_from = Some((path("a"), node(1)));
    let decision = done(StoreFileChange::new(None, None, path("b"), copy_change(5, "a"), copy_from.clone(), true));
    assert_eq!(decision, upload("b", 5, copy_from, None, None));
}

#[test]
fn copy_over_existing_file_drops_its_node() {
    let copy_from = Some((path("2"), node(2)));
    let step = StoreFileChange::new(Some(node(1)), None, path("1"), copy_change(5, "2"), copy_from.clone(), true);
    let (s, request) = ask(step);
    assert_eq!(request, StoreRequest::LoadParentEnvelope(node(1)));
    // Even the same content is no reason to use the node again: the change is a copy.
    let decision = done(s.step(StoreEvent::ParentContent(content(5))).unwrap());
    assert_eq!(decision, upload("1", 5, copy_from, None, None));
}

#[test]
fn copy_from_the_same_path_keeps_the_parent() {
    let copy_from = Some((path("a"), node(3)));
    let step = StoreFileChange::new(Some(node(1)), None, path("a"), copy_change(5, "a"), copy_from.clone(), true);
    let (s, _) = ask(step);
    let decision = done(s.step(StoreEvent::ParentContent(content(6))).unwrap());
    assert_eq!(decision, upload("a", 5, copy_from, Some(node(1)), None));
}

#[test]
fn two_different_parents_are_checked_for_ancestry() {
    for (related, expected) in [
        (FilenodesRelatedResult::Unrelated, (Some(node(1)), Some(node(2)))),
        (FilenodesRelatedResult::FirstAncestorOfSecond, (Some(node(1)), None)),
        (FilenodesRelatedResult::SecondAncestorOfFirst, (Some(node(2)), None)),
    ] {
        let step = StoreFileChange::new(Some(node(1)), Some(node(2)), path("a"), change(5, FileType::Regular), None, false);
        let (s, request) = ask(step);
        assert_eq!(request, StoreRequest::CheckRelated(node(1), node(2)));
        let decision = done(s.step(StoreEvent::Related(related)).unwrap());
        assert_eq!(decision, upload("a", 5, None, expected.0, expected.1));
    }
}

#[test]
fn two_equal_parents_stay_without_a_question() {
    let decision = done(StoreFileChange::new(Some(node(1)), Some(node(1)), path("a"), change(5, FileType::Regular), None, false));
    assert_eq!(decision, upload("a", 5, None, Some(node(1)), Some(node(1))));
}

#[test]
fn store_rejects_answers_it_did_not_ask_for() {
    let step = StoreFileChange::new(Some(node(1)), None, path("a"), change(5, FileType::Regular), None, false);
    let (s, _) = ask(step);
    assert!(s.step(StoreEvent::Related(FilenodesRelatedResult::Unrelated)).is_none());
    let step = StoreFileChange::new(Some(node(1)), Some(node(2)), path("a"), change(5, FileType::Regular), None, false);
    let (s, _) = ask(step);
    assert!(s.step(StoreEvent::ParentContent(content(5))).is_none());
}

#[test]
fn copy_from_a_source_of_the_first_parent_drops_any_parents() {
    let copy_from = Some((path("a"), node(9)));
    // The destination has a node in the second parent only.
    let step = StoreFileChange::new(None, Some(node(2)), path("b"), copy_change(5, "a"), copy_from.clone(), true);
    let (s, request) = ask(step);
    assert_eq!(request, StoreRequest::LoadParentEnvelope(node(2)));
    let decision = done(s.step(StoreEvent::ParentContent(content(6))).unwrap());
    assert_eq!(decision, upload("b", 5, copy_from.clone(), None, None));
    // The destination has different nodes in both parents: nothing is asked.
    let decision = done(StoreFileChange::new(
        Some(node(1)),
        Some(node(2)),
        path("b"),
        copy_change(5, "a"),
        copy_from.clone(),
        true,
    ));
    assert_eq!(decision, upload("b", 5, copy_from, None, None));
}

#[test]
fn copy_from_a_source_of_both_parents_keeps_the_rules() {
    let copy_from = Some((path("a"), node(9)));
    let step = StoreFileChange::new(Some(node(1)), None, path("b"), copy_change(5, "a"), copy_from.clone(), false);
    let (s, _) = ask(step);
    let decision = done(s.step(StoreEvent::ParentContent(content(5))).unwrap());
    assert_eq!(decision, upload("b", 5, copy_from.clone(), Some(node(1)), None));
    let step = StoreFileChange::new(None, Some(node(2)), path("b"), copy_change(5, "a"), copy_from.clone(), false);
    let (s, _) = ask(step);
    let decision = done(s.step(StoreEvent::ParentContent(content(5))).unwrap());
    assert_eq!(decision, upload("b", 5, copy_from.clone(), Some(node(2)), None));
    let step = StoreFileChange::new(Some(node(1)), Some(node(2)), path("b"), copy_change(5, "a"), copy_from.clone(), false);
    let (s, request) = ask(step);
    assert_eq!(request, StoreRequest::CheckRelated(node(1), node(2)));
    let decision = done(s.step(StoreEvent::Related(FilenodesRelatedResult::SecondAncestorOfFirst)).unwrap());
    assert_eq!(decision, upload("b", 5, copy_from, Some(node(2)), None));
}
