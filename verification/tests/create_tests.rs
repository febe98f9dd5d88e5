use blobrepo::create::{
    ChangesetCreation, Command, CreateChangeset, CreateError, CreateEvent, PipelineState, ReadyData,
    Stage, Step,
};
use blobrepo::ids::{ChangesetId, HgChangesetId, HgManifestId, HgNodeHash};
use blobrepo::path::MPath;

fn cs(n: u8) -> ChangesetId {
    ChangesetId::new([n; 32])
}

fn hash(n: u8) -> HgNodeHash {
    HgNodeHash::new([n; 20])
}

fn hg(n: u8) -> HgChangesetId {
    HgChangesetId::new(hash(n))
}

fn mf(n: u8) -> HgManifestId {
    HgManifestId::new(hash(n))
}

fn path(p: &str) -> MPath {
    MPath::new(p.as_bytes()).unwrap()
}

fn ready(n: u8) -> ReadyData {
    ReadyData { bcs_id: cs(n), hg_cs_id: hg(n), manifest_id: mf(n) }
}

fn start(expected_nodeid: Option<HgNodeHash>, expected_files: Option<Vec<MPath>>, check: bool) -> ChangesetCreation {
    let (creation, commands) = CreateChangeset {
        expected_nodeid,
        expected_files,
        must_check_case_conflicts: check,
    }
    .create();
    assert_eq!(
        commands,
        vec![Command::UploadEntries, Command::AwaitParentsReady, Command::AwaitParentsComplete]
    );
    assert_eq!(creation.state(), PipelineState::Pending);
    assert_eq!(creation.stage(), Stage::Gathering);
    creation
}

fn step(c: ChangesetCreation, event: CreateEvent) -> (ChangesetCreation, Vec<Command>) {
    c.step(event).unwrap()
}

/// Runs a creation up to the point where the changeset is being built.
fn up_to_making(expected_nodeid: Option<HgNodeHash>) -> ChangesetCreation {
    let c = start(expected_nodeid, Some(vec![path("a")]), false);
    let (c, commands) = step(c, CreateEvent::EntriesUploaded(mf(10)));
    assert_eq!(commands, vec![]);
    let (c, commands) = step(c, CreateEvent::ParentsReady(vec![ready(1)]));
    assert_eq!(
        commands,
        vec![Command::MakeChangesets { root: mf(10), parents: vec![ready(1)], files: vec![path("a")] }]
    );
    assert_eq!(c.stage(), Stage::Making);
    c
}

#[test]
fn creation_runs_through_all_states() {
    let c = start(Some(hash(10)), None, true);
    let (c, commands) = step(c, CreateEvent::ParentsReady(vec![ready(1), ready(2)]));
    assert_eq!(commands, vec![]);
    assert_eq!(c.stage(), Stage::Gathering);
    let (c, commands) = step(c, CreateEvent::EntriesUploaded(mf(10)));
    assert_eq!(
        commands,
        vec![
            Command::ComputeChangedFiles { root: mf(10), p1: Some(mf(1)), p2: Some(mf(2)) },
            Command::CheckCaseConflicts { root: mf(10), p1: Some(mf(1)) },
        ]
    );
    assert_eq!(c.stage(), Stage::Computing);
    let (c, commands) = step(c, CreateEvent::CaseConflictsChecked);
    assert_eq!(commands, vec![]);
    let (c, commands) = step(c, CreateEvent::ChangedFiles(vec![path("a"), path("b")]));
    assert_eq!(
        commands,
        vec![Command::MakeChangesets {
            root: mf(10),
            parents: vec![ready(1), ready(2)],
            files: vec![path("a"), path("b")],
        }]
    );
    assert_eq!(c.state(), PipelineState::Pending);
    let (c, commands) = step(c, CreateEvent::ChangesetsMade(ready(10)));
    assert_eq!(commands, vec![Command::SignalParentReady(Ok(ready(10))), Command::WriteBlobs]);
    assert_eq!(c.state(), PipelineState::ParentReady);
    assert_eq!(c.stage(), Stage::Writing);
    let (c, commands) = step(c, CreateEvent::BlobsWritten);
    assert_eq!(commands, vec![]);
    let (c, commands) = step(c, CreateEvent::ParentsComplete);
    assert_eq!(commands, vec![Command::InsertMapping { bcs_id: cs(10), hg_cs_id: hg(10) }]);
    assert_eq!(c.stage(), Stage::Mapping);
    let (c, commands) = step(c, CreateEvent::MappingInserted);
    assert_eq!(
        commands,
        vec![Command::InsertChangeset { cs_id: cs(10), parent_ids: vec![cs(1), cs(2)] }]
    );
    assert_eq!(c.state(), PipelineState::ParentReady);
    let (c, commands) = step(c, CreateEvent::ChangesetInserted);
    assert_eq!(commands, vec![Command::Finish(Ok(ready(10)))]);
    assert_eq!(c.state(), PipelineState::Complete);
    assert!(c.step(CreateEvent::ChangesetInserted).is_none());
}

#[test]
fn supplied_files_are_not_computed() {
    let c = start(None, Some(vec![path("x")]), true);
    let (c, _) = step(c, CreateEvent::EntriesUploaded(mf(10)));
    let (c, commands) = step(c, CreateEvent::ParentsReady(vec![]));
    assert_eq!(commands, vec![Command::CheckCaseConflicts { root: mf(10), p1: None }]);
    assert!(c.step(CreateEvent::ChangedFiles(vec![])).is_none());
}

#[test]
fn root_changeset_without_checks_is_built_at_once() {
    let c = start(None, Some(vec![]), false);
    let (c, _) = step(c, CreateEvent::ParentsReady(vec![]));
    let (c, commands) = step(c, CreateEvent::EntriesUploaded(mf(10)));
    assert_eq!(commands, vec![Command::MakeChangesets { root: mf(10), parents: vec![], files: vec![] }]);
    let (c, _) = step(c, CreateEvent::ChangesetsMade(ready(10)));
    let (c, _) = step(c, CreateEvent::ParentsComplete);
    let (c, commands) = step(c, CreateEvent::BlobsWritten);
    assert_eq!(commands, vec![Command::InsertMapping { bcs_id: cs(10), hg_cs_id: hg(10) }]);
    let (_, commands) = step(c, CreateEvent::MappingInserted);
    assert_eq!(commands, vec![Command::InsertChangeset { cs_id: cs(10), parent_ids: vec![] }]);
}

#[test]
fn parents_may_complete_early() {
    let c = start(None, Some(vec![]), false);
    let (c, commands) = step(c, CreateEvent::ParentsComplete);
    assert_eq!(commands, vec![]);
    assert!(c.step(CreateEvent::ParentsComplete).is_none());
}

#[test]
fn unexpected_identifier_fails_the_creation() {
    let c = up_to_making(Some(hash(11)));
    let (c, commands) = step(c, CreateEvent::ChangesetsMade(ready(10)));
    let error = CreateError::InconsistentChangesetHash { expected: hash(11), actual: hash(10) };
    assert_eq!(commands, vec![Command::SignalParentReady(Err(error)), Command::Finish(Err(error))]);
    assert_eq!(c.state(), PipelineState::Failed);
    assert!(c.step(CreateEvent::BlobsWritten).is_none());
}

#[test]
fn expected_identifier_passes() {
    let c = up_to_making(Some(hash(10)));
    let (c, commands) = step(c, CreateEvent::ChangesetsMade(ready(10)));
    assert_eq!(commands, vec![Command::SignalParentReady(Ok(ready(10))), Command::WriteBlobs]);
    assert_eq!(c.state(), PipelineState::ParentReady);
}

#[test]
fn failure_before_readiness_tells_the_children() {
    let c = start(None, None, true);
    let (c, commands) = step(c, CreateEvent::Failed(Step::ProcessingEntries));
    let error = CreateError::StepFailed(Step::ProcessingEntries);
    assert_eq!(commands, vec![Command::SignalParentReady(Err(error)), Command::Finish(Err(error))]);
    assert_eq!(c.state(), PipelineState::Failed);

    let c = start(None, None, true);
    let (c, _) = step(c, CreateEvent::EntriesUploaded(mf(10)));
    let (c, _) = step(c, CreateEvent::ParentsReady(vec![ready(1)]));
    let (c, commands) = step(c, CreateEvent::Failed(Step::CaseConflicts));
    let error = CreateError::StepFailed(Step::CaseConflicts);
    assert_eq!(commands, vec![Command::SignalParentReady(Err(error)), Command::Finish(Err(error))]);
    assert_eq!(c.state(), PipelineState::Failed);
}

#[test]
fn failure_after_readiness_is_told_too() {
    for (events, failed) in [
        (vec![], Step::WritingBlobs),
        (vec![], Step::ParentsComplete),
        (vec![CreateEvent::BlobsWritten, CreateEvent::ParentsComplete], Step::InsertingMapping),
        (
            vec![CreateEvent::BlobsWritten, CreateEvent::ParentsComplete, CreateEvent::MappingInserted],
            Step::InsertingChangeset,
        ),
    ] {
        let c = up_to_making(None);
        let (mut c, _) = step(c, CreateEvent::ChangesetsMade(ready(10)));
        for e in events {
            c = step(c, e).0;
        }
        let (c, commands) = step(c, CreateEvent::Failed(failed));
        let error = CreateError::StepFailed(failed);
        assert_eq!(
            commands,
            vec![Command::SignalParentReady(Err(error)), Command::Finish(Err(error))]
        );
        assert_eq!(c.state(), PipelineState::Failed);
    }
}

#[test]
fn reports_on_work_that_is_not_outstanding_are_rejected() {
    let c = start(None, None, false);
    assert!(c.step(CreateEvent::BlobsWritten).is_none());
    let c = start(None, None, false);
    assert!(c.step(CreateEvent::ChangesetsMade(ready(1))).is_none());
    let c = start(None, None, false);
    assert!(c.step(CreateEvent::Failed(Step::InsertingMapping)).is_none());
    let c = start(None, None, false);
    assert!(c.step(CreateEvent::CaseConflictsChecked).is_none());
    let c = start(None, None, false);
    let (c, _) = step(c, CreateEvent::EntriesUploaded(mf(1)));
    assert!(c.step(CreateEvent::EntriesUploaded(mf(1))).is_none());
    let c = up_to_making(None);
    assert!(c.step(CreateEvent::MappingInserted).is_none());
    let c = up_to_making(None);
    let (c, _) = step(c, CreateEvent::ChangesetsMade(ready(10)));
    assert!(c.step(CreateEvent::ChangesetInserted).is_none());
}
