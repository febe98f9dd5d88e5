use blobrepo::bonsai::{BonsaiChangeset, DateTime};
use blobrepo::errors::ErrorKind;
use blobrepo::filenodes::{FilenodeInfo, FilenodeResult, RepoPath};
use blobrepo::hg_changeset::{generate_hg_changeset, metadata_of, HgParent};
use blobrepo::ids::{
    parse_hex, ChangesetId, ContentId, HgChangesetId, HgFileNodeId, HgManifestId, HgNodeHash,
    RepositoryId,
};
use blobrepo::lease::{LeasePhase, INITIAL_BACKOFF_MS};
use blobrepo::path::MPath;
use blobrepo::repo::{BlobRepo, ChangesetEntry, Generation};

fn cs(n: u8) -> ChangesetId {
    ChangesetId::new([n; 32])
}

fn hash(n: u8) -> HgNodeHash {
    HgNodeHash::new([n; 20])
}

fn hg(n: u8) -> HgChangesetId {
    HgChangesetId::new(hash(n))
}

fn node(n: u8) -> HgFileNodeId {
    HgFileNodeId::new(hash(n))
}

fn mf(n: u8) -> HgManifestId {
    HgManifestId::new(hash(n))
}

fn repo(id: i32) -> BlobRepo {
    BlobRepo::new(RepositoryId::new(id), "repo".to_string())
}

fn info() -> FilenodeInfo {
    FilenodeInfo {
        path: RepoPath::file(MPath::new(b"a").unwrap()),
        filenode: node(1),
        p1: Some(node(2)),
        p2: None,
        copyfrom: None,
        linknode: hg(3),
    }
}

#[test]
fn repository_knows_its_number_and_name() {
    let r = repo(7);
    assert_eq!(r.get_repoid(), RepositoryId::new(7));
    assert_eq!(r.get_repoid().id(), 7);
    assert_eq!(r.name(), "repo");
}

#[test]
fn lease_key_is_made_of_number_and_digest() {
    let mut bytes = [0u8; 32];
    for i in 0..32 {
        bytes[i] = (i as u8) * 8 + 3;
    }
    let id = ChangesetId::new(bytes);
    let hex = "030b131b232b333b434b535b636b737b838b939ba3abb3bbc3cbd3dbe3ebf3fb";
    assert_eq!(id.to_hex(), hex);
    assert_eq!(repo(0).generate_lease_key(&id), format!("repoid.0.hg-changeset.{}", hex));
    assert_eq!(repo(9).generate_lease_key(&id), format!("repoid.9.hg-changeset.{}", hex));
    assert_eq!(repo(10).generate_lease_key(&id), format!("repoid.10.hg-changeset.{}", hex));
    assert_eq!(repo(2102).generate_lease_key(&id), format!("repoid.2102.hg-changeset.{}", hex));
    assert_eq!(repo(-5).generate_lease_key(&id), format!("repoid.-5.hg-changeset.{}", hex));
    assert_eq!(
        repo(i32::MAX).generate_lease_key(&id),
        format!("repoid.2147483647.hg-changeset.{}", hex)
    );
    assert_eq!(
        repo(i32::MIN).generate_lease_key(&id),
        format!("repoid.-2147483648.hg-changeset.{}", hex)
    );
    assert_ne!(repo(1).generate_lease_key(&cs(1)), repo(1).generate_lease_key(&cs(2)));
    assert_ne!(repo(1).generate_lease_key(&cs(1)), repo(2).generate_lease_key(&cs(1)));
}

#[test]
fn lease_attempt_starts_by_asking_for_the_lease() {
    let a = repo(0).take_hg_generation_lease(cs(1));
    assert_eq!(a.bcs_id, cs(1));
    assert_eq!(a.backoff_ms, INITIAL_BACKOFF_MS);
    assert_eq!(a.phase, LeasePhase::Acquiring);
}

#[test]
fn missing_changesets_are_errors() {
    let r = repo(0);
    assert_eq!(r.get_bonsai_or_fail(hg(1), Some(cs(1))), Ok(cs(1)));
    assert_eq!(r.get_bonsai_or_fail(hg(1), None), Err(ErrorKind::BonsaiMappingNotFound(hg(1))));
    let entry = ChangesetEntry { repo_id: RepositoryId::new(0), cs_id: cs(1), parents: vec![cs(2), cs(3)], gen: 5 };
    assert_eq!(r.get_bonsai_cs_entry_or_fail(cs(1), Some(entry.clone())), Ok(entry.clone()));
    assert_eq!(r.get_bonsai_cs_entry_or_fail(cs(1), None), Err(ErrorKind::BonsaiNotFound(cs(1))));
    assert_eq!(r.get_changeset_parents_by_bonsai(cs(1), Some(entry.clone())), Ok(vec![cs(2), cs(3)]));
    assert_eq!(r.get_changeset_parents_by_bonsai(cs(1), None), Err(ErrorKind::BonsaiNotFound(cs(1))));
    assert!(r.changeset_exists_by_bonsai(Some(&entry)));
    assert!(!r.changeset_exists_by_bonsai(None));
    assert_eq!(r.get_generation_number(Some(&entry)), Some(Generation(5)));
    assert_eq!(r.get_generation_number(None), None);
}

#[test]
fn missing_filenode_is_an_error_and_a_disabled_store_is_none() {
    let r = repo(0);
    let path = RepoPath::file(MPath::new(b"a").unwrap());
    assert_eq!(
        r.get_filenode(&path, node(1), FilenodeResult::Present(Some(info()))),
        Ok(FilenodeResult::Present(info()))
    );
    assert_eq!(
        r.get_filenode(&path, node(1), FilenodeResult::Present(None)),
        Err(ErrorKind::MissingFilenode(path.clone(), node(1)))
    );
    assert_eq!(r.get_filenode(&path, node(1), FilenodeResult::Disabled), Ok(FilenodeResult::Disabled));
    assert_eq!(r.get_linknode_opt(FilenodeResult::Present(Some(info()))), FilenodeResult::Present(Some(hg(3))));
    assert_eq!(r.get_linknode_opt(FilenodeResult::Present(None)), FilenodeResult::Present(None));
    assert_eq!(r.get_linknode_opt(FilenodeResult::Disabled), FilenodeResult::Disabled);
    assert_eq!(r.get_linknode(FilenodeResult::Present(info())), FilenodeResult::Present(hg(3)));
    assert_eq!(r.get_linknode(FilenodeResult::Disabled), FilenodeResult::Disabled);
}

#[test]
fn filenode_record_from_an_envelope() {
    let r = repo(0);
    let path = RepoPath::file(MPath::new(b"to").unwrap());
    let made = r.get_filenode_from_envelope(
        path.clone(),
        node(1),
        hg(3),
        Some(node(2)),
        None,
        Some((MPath::new(b"from").unwrap(), node(4))),
    );
    assert_eq!(
        made,
        FilenodeInfo {
            path,
            filenode: node(1),
            p1: Some(node(2)),
            p2: None,
            copyfrom: Some((RepoPath::file(MPath::new(b"from").unwrap()), node(4))),
            linknode: hg(3),
        }
    );
}

#[test]
fn derived_changeset_takes_two_parents_and_records_the_rest() {
    let bcs = BonsaiChangeset {
        id: cs(9),
        parents: vec![cs(1), cs(2), cs(3), cs(4)],
        file_changes: vec![],
        author: "Jörg <j@example.com>".to_string(),
        author_date: DateTime { timestamp_secs: 1234, tz_offset_secs: -3600 },
        message: "message".to_string(),
        extra: vec![("käy".to_string(), vec![1, 2, 3]), ("branch".to_string(), vec![])],
    };
    let parents: Vec<HgParent> = (1..=4u8).map(|n| HgParent { cs_id: hg(n), manifest_id: mf(10 + n) }).collect();
    let plan = generate_hg_changeset(&bcs, &parents);
    assert_eq!(plan.parent_manifests, vec![mf(11), mf(12), mf(13), mf(14)]);
    assert_eq!(plan.p1, Some(hg(1)));
    assert_eq!(plan.p2, Some(hg(2)));
    assert_eq!(plan.manifest_p1, Some(mf(11)));
    assert_eq!(plan.manifest_p2, Some(mf(12)));
    assert_eq!(plan.step_parents, vec![hg(3), hg(4)]);
    assert_eq!(plan.metadata, metadata_of(&bcs));
    assert_eq!(plan.metadata.user, "Jörg <j@example.com>");
    assert_eq!(plan.metadata.time, DateTime { timestamp_secs: 1234, tz_offset_secs: -3600 });
    assert_eq!(plan.metadata.comments, "message");
    assert_eq!(
        plan.metadata.extra,
        vec![("käy".as_bytes().to_vec(), vec![1, 2, 3]), (b"branch".to_vec(), vec![])]
    );

    let root = generate_hg_changeset(&bcs, &vec![]);
    assert_eq!((root.p1, root.p2, root.manifest_p1, root.manifest_p2), (None, None, None, None));
    assert!(root.step_parents.is_empty());
    let one = generate_hg_changeset(&bcs, &parents[..1].to_vec());
    assert_eq!((one.p1, one.p2), (Some(hg(1)), None));
    assert!(one.step_parents.is_empty());
}

#[test]
fn identifiers_compare_by_their_bytes() {
    assert_eq!(cs(1), cs(1));
    assert_ne!(cs(1), cs(2));
    let mut a = [7u8; 32];
    a[31] = 8;
    assert_ne!(ChangesetId::new(a), cs(7));
    assert_eq!(ContentId::new([1; 32]), ContentId::new([1; 32]));
    assert_ne!(ContentId::new([1; 32]), ContentId::new([2; 32]));
    assert_eq!(hash(1), hash(1));
    assert_ne!(hash(1), hash(2));
    assert_eq!(hg(1).into_nodehash(), hash(1));
    assert_eq!(mf(1).into_nodehash(), hash(1));
    assert_eq!(node(1).into_nodehash(), hash(1));
    assert_ne!(hg(1), hg(2));
    assert_ne!(mf(1), mf(2));
    assert_ne!(node(1), node(2));
    assert_eq!(cs(0xab).to_hex(), "ab".repeat(32));
}

#[test]
fn digests_are_read_from_hexadecimal_text() {
    assert_eq!(parse_hex(b""), Some(vec![]));
    assert_eq!(parse_hex(b"00ff7Fa0"), Some(vec![0, 255, 127, 160]));
    assert_eq!(parse_hex(b"AbCdEf"), Some(vec![0xab, 0xcd, 0xef]));
    assert_eq!(parse_hex(b"abc"), None);
    assert_eq!(parse_hex(b"ag"), None);
    assert_eq!(parse_hex(b"0x"), None);
    assert_eq!(parse_hex(b" 1"), None);
    let h = HgNodeHash::new([0x1f; 20]);
    assert_eq!(h.to_hex(), "1f".repeat(20));
    assert_eq!(HgNodeHash::from_hex(h.to_hex().as_bytes()), Some(h));
    assert_eq!(HgNodeHash::from_hex("1F".repeat(20).as_bytes()), Some(h));
    assert_eq!(HgNodeHash::from_hex("1f".repeat(19).as_bytes()), None);
    assert_eq!(HgNodeHash::from_hex("1f".repeat(21).as_bytes()), None);
    assert_eq!(HgNodeHash::from_hex("1g".repeat(20).as_bytes()), None);
    let mut bytes = [0u8; 20];
    for i in 0..20 {
        bytes[i] = (i as u8) * 13 + 1;
    }
    let h = HgNodeHash::new(bytes);
    assert_eq!(HgNodeHash::from_hex(h.to_hex().as_bytes()), Some(h));
}
