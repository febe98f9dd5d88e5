use blobrepo::ids::{ChangesetId, HgChangesetId, HgNodeHash, RepositoryId};
use blobrepo::mapping::{
    bookmark_chunks, bookmark_targets, known_to_repo, missing_from_mapping, to_hg_bookmarks,
    BonsaiOrHgChangesetIds, HgBonsaiMappingLookup, LookupStep, MappingEvent, MappingRequest,
    MissingFromMapping, BOOKMARK_CHUNK_SIZE,
};
use blobrepo::repo::BlobRepo;

fn cs(n: u8) -> ChangesetId {
    ChangesetId::new([n; 32])
}

fn hg(n: u8) -> HgChangesetId {
    HgChangesetId::new(HgNodeHash::new([n; 20]))
}

fn ask(step: LookupStep) -> (HgBonsaiMappingLookup, MappingRequest) {
    match step {
        LookupStep::Ask(s, r) => (s, r),
        LookupStep::Done(d) => panic!("unexpected end {:?}", d),
    }
}

#[test]
fn missing_and_known_keep_the_order() {
    let pairs = vec![(hg(1), cs(1)), (hg(3), cs(3))];
    assert_eq!(missing_from_mapping(&vec![cs(4), cs(1), cs(2), cs(3), cs(4)], &pairs), vec![cs(4), cs(2), cs(4)]);
    assert_eq!(missing_from_mapping(&vec![], &pairs), vec![]);
    assert_eq!(known_to_repo(&vec![cs(4), cs(2), cs(4)], &vec![cs(4)]), vec![cs(4), cs(4)]);
    assert_eq!(known_to_repo(&vec![cs(4), cs(2)], &vec![]), vec![]);
}

#[test]
fn lookup_by_hg_returns_what_the_mapping_holds() {
    let repo = BlobRepo::new(RepositoryId::new(0), "repo".to_string());
    let ids = BonsaiOrHgChangesetIds::Hg(vec![hg(1), hg(2)]);
    let (s, request) = ask(repo.get_hg_bonsai_mapping(ids.clone()));
    assert_eq!(request, MappingRequest::Fetch(ids));
    match s.step(MappingEvent::Fetched(vec![(hg(1), cs(1))])).unwrap() {
        LookupStep::Done(pairs) => assert_eq!(pairs, vec![(hg(1), cs(1))]),
        other => panic!("unexpected step {:?}", other),
    }
}

#[test]
fn lookup_by_bonsai_derives_what_the_repository_knows() {
    let ids = BonsaiOrHgChangesetIds::Bonsai(vec![cs(1), cs(2), cs(3)]);
    let (s, request) = ask(HgBonsaiMappingLookup::new(ids.clone()));
    assert_eq!(request, MappingRequest::Fetch(ids));
    let (s, request) = ask(s.step(MappingEvent::Fetched(vec![(hg(1), cs(1))])).unwrap());
    assert_eq!(request, MappingRequest::GetMany(vec![cs(2), cs(3)]));
    let (s, request) = ask(s.step(MappingEvent::Existing(vec![cs(3)])).unwrap());
    assert_eq!(request, MappingRequest::Derive(vec![cs(3)]));
    match s.step(MappingEvent::Derived(vec![(hg(3), cs(3))])).unwrap() {
        LookupStep::Done(pairs) => assert_eq!(pairs, vec![(hg(3), cs(3)), (hg(1), cs(1))]),
        other => panic!("unexpected step {:?}", other),
    }
}

#[test]
fn lookup_rejects_answers_it_did_not_ask_for() {
    let (s, _) = ask(HgBonsaiMappingLookup::new(BonsaiOrHgChangesetIds::Bonsai(vec![cs(1)])));
    assert!(s.step(MappingEvent::Existing(vec![])).is_none());
    let (s, _) = ask(HgBonsaiMappingLookup::new(BonsaiOrHgChangesetIds::Bonsai(vec![cs(1)])));
    let (s, _) = ask(s.step(MappingEvent::Fetched(vec![])).unwrap());
    assert!(s.step(MappingEvent::Derived(vec![])).is_none());
}

#[test]
fn bookmarks_are_resolved_in_place() {
    let chunk = vec![("a".to_string(), cs(1)), ("b".to_string(), cs(2)), ("c".to_string(), cs(1))];
    assert_eq!(bookmark_targets(&chunk), vec![cs(1), cs(2), cs(1)]);
    let pairs = vec![(hg(9), cs(1)), (hg(1), cs(1))];
    assert_eq!(
        to_hg_bookmarks(chunk, &pairs),
        vec![
            Ok(("a".to_string(), hg(1))),
            Err(MissingFromMapping(cs(2))),
            Ok(("c".to_string(), hg(1))),
        ]
    );
}

#[test]
fn bookmarks_are_cut_into_chunks_of_a_hundred() {
    assert_eq!(BOOKMARK_CHUNK_SIZE, 100);
    assert_eq!(bookmark_chunks(Vec::<u32>::new()), Vec::<Vec<u32>>::new());
    let chunks = bookmark_chunks((0..100u32).collect());
    assert_eq!(chunks, vec![(0..100u32).collect::<Vec<u32>>()]);
    let chunks = bookmark_chunks((0..250u32).collect());
    assert_eq!(chunks.len(), 3);
    assert_eq!(chunks[0], (0..100u32).collect::<Vec<u32>>());
    assert_eq!(chunks[1], (100..200u32).collect::<Vec<u32>>());
    assert_eq!(chunks[2], (200..250u32).collect::<Vec<u32>>());
    let chunks = bookmark_chunks((0..101u32).collect());
    assert_eq!(chunks[1], vec![100]);
}
