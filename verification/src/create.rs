//! Creating a changeset in both forms at once.
//!
//! A new changeset goes through four states. While it is `Pending`, its
//! entries are uploaded and its identity is computed. As soon as the
//! identity is known it is `ParentReady`: changesets that have it as a
//! parent may go on with their own work, though its writes are not yet
//! durable. It is `Complete` when everything is written, the mapping knows
//! the pair and the index knows the changeset; that last insert makes it
//! visible to readers. Any failure leads to `Failed`, and whoever waits for
//! the changeset to become ready is told.
//!
//! The creation itself touches no store. For every event it says which
//! commands to start.

use crate::ids::{ChangesetId, HgChangesetId, HgManifestId, HgNodeHash};
use crate::path::{paths_view, MPath};
use vstd::prelude::*;

verus! {

/// The state of a changeset that is being created.
#[derive(Clone, Copy, Debug, PartialEq, Eq, Structural, Hash)]
pub enum PipelineState {
    Pending,
    ParentReady,
    Complete,
    Failed,
}

/// How far a creation has come.
#[derive(Clone, Copy, Debug, PartialEq, Eq, Structural, Hash)]
pub enum Stage {
    /// The entries are being uploaded and the parents are awaited.
    Gathering,
    /// The changed files are computed and case conflicts are looked for.
    Computing,
    /// The changeset is built in both forms.
    Making,
    /// The identity is announced; both forms are written.
    Writing,
    /// The pair is inserted into the mapping.
    Mapping,
    /// The changeset is inserted into the index.
    Indexing,
    Complete,
    Failed,
}

/// The state that a stage belongs to.
pub open spec fn pipeline_state(stage: Stage) -> PipelineState {
    match stage {
        Stage::Gathering => PipelineState::Pending,
        Stage::Computing => PipelineState::Pending,
        Stage::Making => PipelineState::Pending,
        Stage::Writing => PipelineState::ParentReady,
        Stage::Mapping => PipelineState::ParentReady,
        Stage::Indexing => PipelineState::ParentReady,
        Stage::Complete => PipelineState::Complete,
        Stage::Failed => PipelineState::Failed,
    }
}

/// The identity of a changeset in both forms, with the root of its
/// manifest: what a changeset announces when it is ready to be a parent.
#[derive(Clone, Copy, Debug, PartialEq, Eq)]
pub struct ReadyData {
    pub bcs_id: ChangesetId,
    pub hg_cs_id: HgChangesetId,
    pub manifest_id: HgManifestId,
}

/// A piece of work that a creation starts and that may fail.
#[derive(Clone, Copy, Debug, PartialEq, Eq, Structural, Hash)]
pub enum Step {
    ProcessingEntries,
    ParentsData,
    ParentsComplete,
    ChangedFiles,
    CaseConflicts,
    MakingChangesets,
    WritingBlobs,
    InsertingMapping,
    InsertingChangeset,
}

/// Why a creation failed.
#[derive(Clone, Copy, Debug, PartialEq, Eq)]
pub enum CreateError {
    /// The changeset was expected to have the first identifier and has the
    /// second.
    InconsistentChangesetHash { expected: HgNodeHash, actual: HgNodeHash },
    /// This piece of work failed.
    StepFailed(Step),
}

/// What happened to the work that a creation started.
#[derive(Clone, Debug, PartialEq, Eq)]
pub enum CreateEvent {
    /// The entries are uploaded; this is the root of the manifest.
    EntriesUploaded(HgManifestId),
    /// Every parent has announced its identity; these are the parents in
    /// their order.
    ParentsReady(Vec<ReadyData>),
    /// Every parent is complete.
    ParentsComplete,
    /// The files that the changeset changes.
    ChangedFiles(Vec<MPath>),
    /// No path of the changeset collides with another by case.
    CaseConflictsChecked,
    /// The changeset was built in both forms and has this identity.
    ChangesetsMade(ReadyData),
    /// Both forms are written and the entries are finalized.
    BlobsWritten,
    MappingInserted,
    ChangesetInserted,
    /// The piece of work failed.
    Failed(Step),
}

/// The mathematical value of a `CreateEvent`.
pub enum CreateEventView {
    EntriesUploaded(HgManifestId),
    ParentsReady(Seq<ReadyData>),
    ParentsComplete,
    ChangedFiles(Seq<Seq<Seq<u8>>>),
    CaseConflictsChecked,
    ChangesetsMade(ReadyData),
    BlobsWritten,
    MappingInserted,
    ChangesetInserted,
    Failed(Step),
}

impl View for CreateEvent {
    type V = CreateEventView;

    open spec fn view(&self) -> CreateEventView {
        match self {
            CreateEvent::EntriesUploaded(root) => CreateEventView::EntriesUploaded(*root),
            CreateEvent::ParentsReady(parents) => CreateEventView::ParentsReady(parents@),
            CreateEvent::ParentsComplete => CreateEventView::ParentsComplete,
            CreateEvent::ChangedFiles(files) => CreateEventView::ChangedFiles(paths_view(files@)),
            CreateEvent::CaseConflictsChecked => CreateEventView::CaseConflictsChecked,
            CreateEvent::ChangesetsMade(identity) => CreateEventView::ChangesetsMade(*identity),
            CreateEvent::BlobsWritten => CreateEventView::BlobsWritten,
            CreateEvent::MappingInserted => CreateEventView::MappingInserted,
            CreateEvent::ChangesetInserted => CreateEventView::ChangesetInserted,
            CreateEvent::Failed(step) => CreateEventView::Failed(*step),
        }
    }
}

/// A piece of work that a creation has its driver start.
#[derive(Debug, PartialEq, Eq)]
pub enum Command {
    /// Upload the entries of the manifest.
    UploadEntries,
    /// Wait until every parent has announced its identity.
    AwaitParentsReady,
    /// Wait until every parent is complete.
    AwaitParentsComplete,
    /// Compute the files that differ between the manifest `root` and the
    /// manifests of the first two parents.
    ComputeChangedFiles { root: HgManifestId, p1: Option<HgManifestId>, p2: Option<HgManifestId> },
    /// Look for paths of `root` that collide by case with paths that it
    /// shares with the manifest of the first parent.
    CheckCaseConflicts { root: HgManifestId, p1: Option<HgManifestId> },
    /// Build the changeset in both forms.
    MakeChangesets { root: HgManifestId, parents: Vec<ReadyData>, files: Vec<MPath> },
    /// Tell whoever waits for this changeset to become ready: its identity,
    /// or that it failed. A failure is told at whatever stage it happens,
    /// so after the identity was announced it takes the place of the
    /// identity for those who still wait or come later.
    SignalParentReady(Result<ReadyData, CreateError>),
    /// Write both forms and finalize the entries.
    WriteBlobs,
    /// Insert the pair into the mapping.
    InsertMapping { bcs_id: ChangesetId, hg_cs_id: HgChangesetId },
    /// Insert the changeset with its parents into the index.
    InsertChangeset { cs_id: ChangesetId, parent_ids: Vec<ChangesetId> },
    /// The creation is over.
    Finish(Result<ReadyData, CreateError>),
}

/// The mathematical value of a `Command`.
pub enum CommandView {
    UploadEntries,
    AwaitParentsReady,
    AwaitParentsComplete,
    ComputeChangedFiles { root: HgManifestId, p1: Option<HgManifestId>, p2: Option<HgManifestId> },
    CheckCaseConflicts { root: HgManifestId, p1: Option<HgManifestId> },
    MakeChangesets { root: HgManifestId, parents: Seq<ReadyData>, files: Seq<Seq<Seq<u8>>> },
    SignalParentReady(Result<ReadyData, CreateError>),
    WriteBlobs,
    InsertMapping { bcs_id: ChangesetId, hg_cs_id: HgChangesetId },
    InsertChangeset { cs_id: ChangesetId, parent_ids: Seq<ChangesetId> },
    Finish(Result<ReadyData, CreateError>),
}

impl View for Command {
    type V = CommandView;

    open spec fn view(&self) -> CommandView {
        match self {
            Command::UploadEntries => CommandView::UploadEntries,
            Command::AwaitParentsReady => CommandView::AwaitParentsReady,
            Command::AwaitParentsComplete => CommandView::AwaitParentsComplete,
            Command::ComputeChangedFiles { root, p1, p2 } => CommandView::ComputeChangedFiles {
                root: *root,
                p1: *p1,
                p2: *p2,
            },
            Command::CheckCaseConflicts { root, p1 } => CommandView::CheckCaseConflicts {
                root: *root,
                p1: *p1,
            },
            Command::MakeChangesets { root, parents, files } => CommandView::MakeChangesets {
                root: *root,
                parents: parents@,
                files: paths_view(files@),
            },
            Command::SignalParentReady(r) => CommandView::SignalParentReady(*r),
            Command::WriteBlobs => CommandView::WriteBlobs,
            Command::InsertMapping { bcs_id, hg_cs_id } => CommandView::InsertMapping {
                bcs_id: *bcs_id,
                hg_cs_id: *hg_cs_id,
            },
            Command::InsertChangeset { cs_id, parent_ids } => CommandView::InsertChangeset {
                cs_id: *cs_id,
                parent_ids: parent_ids@,
            },
            Command::Finish(r) => CommandView::Finish(*r),
        }
    }
}

/// The mathematical value of a list of commands.
pub open spec fn commands_view(commands: Seq<Command>) -> Seq<CommandView> {
    Seq::new(commands.len(), |i: int| commands[i]@)
}

/// The mathematical value of a creation.
pub struct CreateView {
    /// The identifier that the changeset must turn out to have, if one is
    /// known in advance.
    pub expected_nodeid: Option<HgNodeHash>,
    /// The changed files, where the caller supplies them, until they are
    /// taken as the changed files.
    pub expected_files: Option<Seq<Seq<Seq<u8>>>>,
    pub must_check_case_conflicts: bool,
    /// The root of the manifest, once the entries are uploaded.
    pub root: Option<HgManifestId>,
    /// The parents, from when they have announced themselves until the
    /// changeset is built.
    pub parents: Option<Seq<ReadyData>>,
    /// The identifiers of the parents in the content-addressed graph, from
    /// when the changeset is built until it goes into the index.
    pub parent_ids: Seq<ChangesetId>,
    pub parents_complete: bool,
    /// The changed files, from when they are known until the changeset is
    /// built.
    pub files: Option<Seq<Seq<Seq<u8>>>>,
    pub conflicts_checked: bool,
    /// The identity of the changeset, once it is built.
    pub identity: Option<ReadyData>,
    pub blobs_written: bool,
    /// Whether those who wait for the changeset to become ready were told
    /// something: its identity or its failure.
    pub signalled: bool,
    pub stage: Stage,
}

/// The manifest of the parent at position `i`, if there is such a parent.
pub open spec fn parent_manifest(parents: Seq<ReadyData>, i: int) -> Option<HgManifestId> {
    if 0 <= i < parents.len() {
        Some(parents[i].manifest_id)
    } else {
        None
    }
}

/// The identifiers of the parents in the content-addressed graph.
pub open spec fn bonsai_parents(parents: Seq<ReadyData>) -> Seq<ChangesetId> {
    Seq::new(parents.len(), |i: int| parents[i].bcs_id)
}

/// The creation as it starts, and the work it starts with.
pub open spec fn create_start(
    expected_nodeid: Option<HgNodeHash>,
    expected_files: Option<Seq<Seq<Seq<u8>>>>,
    must_check_case_conflicts: bool,
) -> (CreateView, Seq<CommandView>) {
    (
        CreateView {
            expected_nodeid,
            expected_files,
            must_check_case_conflicts,
            root: None,
            parents: None,
            parent_ids: Seq::empty(),
            parents_complete: false,
            files: None,
            conflicts_checked: false,
            identity: None,
            blobs_written: false,
            signalled: false,
            stage: Stage::Gathering,
        },
        seq![
            CommandView::UploadEntries,
            CommandView::AwaitParentsReady,
            CommandView::AwaitParentsComplete,
        ],
    )
}

/// Whether the piece of work `step` was started and is not over.
pub open spec fn outstanding(v: CreateView, step: Step) -> bool {
    match step {
        Step::ProcessingEntries => v.stage == Stage::Gathering && v.root is None,
        Step::ParentsData => v.stage == Stage::Gathering && v.parents is None,
        Step::ParentsComplete => !v.parents_complete && (v.stage == Stage::Gathering || v.stage
            == Stage::Computing || v.stage == Stage::Making || v.stage == Stage::Writing),
        Step::ChangedFiles => v.stage == Stage::Computing && v.files is None,
        Step::CaseConflicts => v.stage == Stage::Computing && !v.conflicts_checked,
        Step::MakingChangesets => v.stage == Stage::Making,
        Step::WritingBlobs => v.stage == Stage::Writing && !v.blobs_written,
        Step::InsertingMapping => v.stage == Stage::Mapping,
        Step::InsertingChangeset => v.stage == Stage::Indexing,
    }
}

/// The piece of work that `event` reports on.
pub open spec fn step_of(event: CreateEventView) -> Step {
    match event {
        CreateEventView::EntriesUploaded(_) => Step::ProcessingEntries,
        CreateEventView::ParentsReady(_) => Step::ParentsData,
        CreateEventView::ParentsComplete => Step::ParentsComplete,
        CreateEventView::ChangedFiles(_) => Step::ChangedFiles,
        CreateEventView::CaseConflictsChecked => Step::CaseConflicts,
        CreateEventView::ChangesetsMade(_) => Step::MakingChangesets,
        CreateEventView::BlobsWritten => Step::WritingBlobs,
        CreateEventView::MappingInserted => Step::InsertingMapping,
        CreateEventView::ChangesetInserted => Step::InsertingChangeset,
        CreateEventView::Failed(step) => step,
    }
}

/// The creation after it failed with `error`: those who wait for it to
/// become ready are told of the failure, also where its identity was
/// announced to them before, and then the creation is over.
pub open spec fn fail(v: CreateView, error: CreateError) -> (CreateView, Seq<CommandView>) {
    (
        CreateView { stage: Stage::Failed, signalled: true, ..v },
        seq![CommandView::SignalParentReady(Err(error)), CommandView::Finish(Err(error))],
    )
}

/// The creation once the files are known and the case conflicts are
/// checked: the changeset is built.
pub open spec fn after_computing(v: CreateView) -> (CreateView, Seq<CommandView>) {
    if v.files is Some && v.conflicts_checked {
        (
            CreateView {
                stage: Stage::Making,
                files: None,
                parents: None,
                parent_ids: bonsai_parents(v.parents.unwrap()),
                ..v
            },
            seq![
                CommandView::MakeChangesets {
                    root: v.root.unwrap(),
                    parents: v.parents.unwrap(),
                    files: v.files.unwrap(),
                },
            ],
        )
    } else {
        (v, Seq::empty())
    }
}

/// The creation once the entries are uploaded and the parents are known:
/// the changed files are computed unless they were supplied, and case
/// conflicts are looked for if that was asked.
pub open spec fn after_gathering(v: CreateView) -> (CreateView, Seq<CommandView>) {
    if v.root is Some && v.parents is Some {
        let root = v.root.unwrap();
        let p1 = parent_manifest(v.parents.unwrap(), 0);
        let p2 = parent_manifest(v.parents.unwrap(), 1);
        let compute = if v.expected_files is None {
            seq![CommandView::ComputeChangedFiles { root, p1, p2 }]
        } else {
            Seq::empty()
        };
        let check = if v.must_check_case_conflicts {
            seq![CommandView::CheckCaseConflicts { root, p1 }]
        } else {
            Seq::empty()
        };
        let w = CreateView {
            stage: Stage::Computing,
            files: v.expected_files,
            expected_files: None,
            conflicts_checked: !v.must_check_case_conflicts,
            ..v
        };
        let (w2, make) = after_computing(w);
        (w2, compute + check + make)
    } else {
        (v, Seq::empty())
    }
}

/// The creation once both forms are written and the parents are complete:
/// the pair goes into the mapping.
pub open spec fn after_writing(v: CreateView) -> (CreateView, Seq<CommandView>) {
    if v.blobs_written && v.parents_complete {
        (
            CreateView { stage: Stage::Mapping, ..v },
            seq![
                CommandView::InsertMapping {
                    bcs_id: v.identity.unwrap().bcs_id,
                    hg_cs_id: v.identity.unwrap().hg_cs_id,
                },
            ],
        )
    } else {
        (v, Seq::empty())
    }
}

/// The creation after `event` and the work it starts, or `None` where the
/// event reports on work that is not outstanding.
pub open spec fn create_step(v: CreateView, event: CreateEventView) -> Option<
    (CreateView, Seq<CommandView>),
> {
    if !outstanding(v, step_of(event)) {
        None
    } else {
        Some(
            match event {
                CreateEventView::EntriesUploaded(root) => after_gathering(
                    CreateView { root: Some(root), ..v },
                ),
                CreateEventView::ParentsReady(parents) => after_gathering(
                    CreateView { parents: Some(parents), ..v },
                ),
                CreateEventView::ParentsComplete => if v.stage == Stage::Writing {
                    after_writing(CreateView { parents_complete: true, ..v })
                } else {
                    (CreateView { parents_complete: true, ..v }, Seq::empty())
                },
                CreateEventView::ChangedFiles(files) => after_computing(
                    CreateView { files: Some(files), ..v },
                ),
                CreateEventView::CaseConflictsChecked => after_computing(
                    CreateView { conflicts_checked: true, ..v },
                ),
                CreateEventView::ChangesetsMade(identity) => {
                    if v.expected_nodeid is Some && v.expected_nodeid.unwrap()
                        != identity.hg_cs_id.0 {
                        fail(
                            v,
                            CreateError::InconsistentChangesetHash {
                                expected: v.expected_nodeid.unwrap(),
                                actual: identity.hg_cs_id.0,
                            },
                        )
                    } else {
                        (
                            CreateView {
                                identity: Some(identity),
                                signalled: true,
                                stage: Stage::Writing,
                                ..v
                            },
                            seq![
                                CommandView::SignalParentReady(Ok(identity)),
                                CommandView::WriteBlobs,
                            ],
                        )
                    }
                },
                CreateEventView::BlobsWritten => after_writing(
                    CreateView { blobs_written: true, ..v },
                ),
                CreateEventView::MappingInserted => (
                    CreateView { stage: Stage::Indexing, parent_ids: Seq::empty(), ..v },
                    seq![
                        CommandView::InsertChangeset {
                            cs_id: v.identity.unwrap().bcs_id,
                            parent_ids: v.parent_ids,
                        },
                    ],
                ),
                CreateEventView::ChangesetInserted => (
                    CreateView { stage: Stage::Complete, ..v },
                    seq![CommandView::Finish(Ok(v.identity.unwrap()))],
                ),
                CreateEventView::Failed(step) => fail(v, CreateError::StepFailed(step)),
            },
        )
    }
}

/// What holds of every creation.
pub open spec fn create_inv(v: CreateView) -> bool {
    &&& v.signalled <==> !(pipeline_state(v.stage) is Pending)
    &&& v.stage == Stage::Computing ==> v.root is Some && v.parents is Some
    &&& pipeline_state(v.stage) is ParentReady || v.stage == Stage::Complete ==> v.identity is Some
    &&& (v.expected_nodeid is Some && v.identity is Some) ==> v.expected_nodeid.unwrap()
        == v.identity.unwrap().hg_cs_id.0
    &&& v.stage == Stage::Mapping || v.stage == Stage::Indexing || v.stage == Stage::Complete
        ==> v.blobs_written && v.parents_complete
    &&& pipeline_state(v.stage) is Pending ==> !v.blobs_written && v.identity is None
}

/// How many of `commands` tell the waiting children something.
pub open spec fn count_signals(commands: Seq<CommandView>) -> nat
    decreases commands.len(),
{
    if commands.len() == 0 {
        0
    } else {
        count_signals(commands.drop_last()) + if commands.last() is SignalParentReady {
            1nat
        } else {
            0nat
        }
    }
}

/// Whether one of `commands` inserts into the index.
pub open spec fn inserts_changeset(commands: Seq<CommandView>) -> bool {
    exists|i: int| 0 <= i < commands.len() && #[trigger] commands[i] is InsertChangeset
}

/// Whether one of `commands` writes the changeset.
pub open spec fn writes_blobs(commands: Seq<CommandView>) -> bool {
    exists|i: int| 0 <= i < commands.len() && #[trigger] commands[i] is WriteBlobs
}

/// The invariant holds when a creation starts.
pub proof fn lemma_create_start(
    expected_nodeid: Option<HgNodeHash>,
    expected_files: Option<Seq<Seq<Seq<u8>>>>,
    must_check_case_conflicts: bool,
)
    ensures
        create_inv(create_start(expected_nodeid, expected_files, must_check_case_conflicts).0),
{
}

/// Every event keeps the invariant.
pub proof fn lemma_create_step_keeps_inv(v: CreateView, event: CreateEventView)
    requires
        create_inv(v),
        create_step(v, event) is Some,
    ensures
        create_inv(create_step(v, event).unwrap().0),
{
}

/// Whether `commands` tell those who wait for the changeset to become ready
/// that it failed with `error`, and then end the creation with it.
pub open spec fn tells_failure(commands: Seq<CommandView>, error: CreateError) -> bool {
    commands == seq![CommandView::SignalParentReady(Err(error)), CommandView::Finish(Err(error))]
}

/// Whether one of `commands` announces the identity of the changeset.
pub open spec fn announces_identity(commands: Seq<CommandView>) -> bool {
    exists|i: int|
        0 <= i < commands.len() && #[trigger] commands[i] matches CommandView::SignalParentReady(
            Ok(_),
        )
}

/// Those who wait for the changeset to become ready are told its identity
/// once, when it is known. Every failure is told to them too, whether it
/// happens before or after that, and is told before the creation is over;
/// no other event tells them anything.
pub proof fn lemma_waiters_are_told(v: CreateView, event: CreateEventView)
    requires
        create_inv(v),
        create_step(v, event) is Some,
    ensures
        ({
            let (w, commands) = create_step(v, event).unwrap();
            &&& w.stage == Stage::Failed ==> exists|error: CreateError|
                tells_failure(commands, error)
            &&& announces_identity(commands) <==> pipeline_state(v.stage) is Pending
                && pipeline_state(w.stage) is ParentReady
            &&& announces_identity(commands) ==> !v.signalled
            &&& w.stage != Stage::Failed && !announces_identity(commands) ==> count_signals(
                commands,
            ) == 0
            &&& pipeline_state(w.stage) is Failed || pipeline_state(w.stage) is Complete
                ==> w.signalled
        }),
{
    let (w, commands) = create_step(v, event).unwrap();
    reveal_with_fuel(count_signals, 4);
    match event {
        CreateEventView::EntriesUploaded(root) => {
            lemma_gathering_signals(CreateView { root: Some(root), ..v });
            lemma_no_signal_no_identity(commands);
        },
        CreateEventView::ParentsReady(parents) => {
            lemma_gathering_signals(CreateView { parents: Some(parents), ..v });
            lemma_no_signal_no_identity(commands);
        },
        CreateEventView::ChangesetsMade(identity) => {
            if !(v.expected_nodeid is Some && v.expected_nodeid.unwrap() != identity.hg_cs_id.0) {
                let c = seq![CommandView::SignalParentReady(Ok(identity)), CommandView::WriteBlobs];
                assert(commands == c);
                assert(c[0] matches CommandView::SignalParentReady(Ok(_)));
            } else {
                let error = CreateError::InconsistentChangesetHash {
                    expected: v.expected_nodeid.unwrap(),
                    actual: identity.hg_cs_id.0,
                };
                assert(tells_failure(commands, error));
                lemma_fail_tells_no_identity(v, error);
            }
        },
        CreateEventView::Failed(step) => {
            let error = CreateError::StepFailed(step);
            assert(tells_failure(commands, error));
            lemma_fail_tells_no_identity(v, error);
        },
        _ => {
            lemma_count_no_signal(commands);
            lemma_no_signal_no_identity(commands);
        },
    }
}

/// A piece of work that fails after the identity was announced still
/// reaches those who wait for the changeset to become ready: they are told
/// of the failure before the creation is over.
pub proof fn lemma_late_failure_is_told(v: CreateView, step: Step)
    requires
        pipeline_state(v.stage) is ParentReady,
        outstanding(v, step),
    ensures
        create_step(v, CreateEventView::Failed(step)) matches Some((w, commands)) && w.stage
            == Stage::Failed && tells_failure(commands, CreateError::StepFailed(step)),
{
}

proof fn lemma_fail_tells_no_identity(v: CreateView, error: CreateError)
    ensures
        !announces_identity(fail(v, error).1),
        count_signals(fail(v, error).1) == 1,
{
    reveal_with_fuel(count_signals, 4);
    let c = fail(v, error).1;
    assert(c.drop_last() =~= seq![CommandView::SignalParentReady(Err(error))]);
    assert(c.drop_last().drop_last() =~= Seq::<CommandView>::empty());
    if announces_identity(c) {
        let i = choose|i: int|
            0 <= i < c.len() && #[trigger] c[i] matches CommandView::SignalParentReady(Ok(_));
    }
}

proof fn lemma_no_signal_no_identity(commands: Seq<CommandView>)
    requires
        forall|i: int| 0 <= i < commands.len() ==> !(#[trigger] commands[i] is SignalParentReady),
    ensures
        !announces_identity(commands),
{
    if announces_identity(commands) {
        let i = choose|i: int|
            0 <= i < commands.len() && #[trigger] commands[i] matches CommandView::SignalParentReady(
                Ok(_),
            );
        assert(commands[i] is SignalParentReady);
    }
}

proof fn lemma_count_no_signal(commands: Seq<CommandView>)
    requires
        forall|i: int| 0 <= i < commands.len() ==> !(#[trigger] commands[i] is SignalParentReady),
    ensures
        count_signals(commands) == 0,
    decreases commands.len(),
{
    if commands.len() > 0 {
        lemma_count_no_signal(commands.drop_last());
    }
}

proof fn lemma_gathering_signals(v: CreateView)
    ensures
        count_signals(after_gathering(v).1) == 0,
{
    lemma_count_no_signal(after_gathering(v).1);
}

/// The index learns of the changeset last: only when both forms are
/// written, every parent is complete and the mapping holds the pair. And
/// nothing is written before the identity has passed the comparison with
/// the expected one.
pub proof fn lemma_index_insert_is_last(v: CreateView, event: CreateEventView)
    requires
        create_inv(v),
        create_step(v, event) is Some,
    ensures
        ({
            let (w, commands) = create_step(v, event).unwrap();
            &&& inserts_changeset(commands) ==> event is MappingInserted && v.blobs_written
                && v.parents_complete && v.stage == Stage::Mapping
            &&& writes_blobs(commands) ==> (event matches CreateEventView::ChangesetsMade(identity)
                && (v.expected_nodeid is Some ==> v.expected_nodeid.unwrap() == identity.hg_cs_id.0))
            &&& w.stage == Stage::Complete ==> v.stage == Stage::Indexing
        }),
{
    let (w, commands) = create_step(v, event).unwrap();
    if inserts_changeset(commands) {
        let i = choose|i: int| 0 <= i < commands.len() && #[trigger] commands[i] is InsertChangeset;
    }
    if writes_blobs(commands) {
        let i = choose|i: int| 0 <= i < commands.len() && #[trigger] commands[i] is WriteBlobs;
    }
}

/// A changeset whose identifier is not the expected one fails, and nothing
/// of it is written.
pub proof fn lemma_hash_mismatch_fails(v: CreateView, identity: ReadyData)
    requires
        outstanding(v, Step::MakingChangesets),
        v.expected_nodeid is Some,
        v.expected_nodeid.unwrap() != identity.hg_cs_id.0,
    ensures
        create_step(v, CreateEventView::ChangesetsMade(identity)) matches Some((w, commands))
            && w.stage == Stage::Failed && !writes_blobs(commands) && commands.last()
            == CommandView::Finish(
            Err(
                CreateError::InconsistentChangesetHash {
                    expected: v.expected_nodeid.unwrap(),
                    actual: identity.hg_cs_id.0,
                },
            ),
        ),
{
}

/// The mathematical value of a list of paths that may be absent.
pub open spec fn opt_paths_view(paths: Option<Vec<MPath>>) -> Option<Seq<Seq<Seq<u8>>>> {
    match paths {
        Some(p) => Some(paths_view(p@)),
        None => None,
    }
}

/// The mathematical value of a list of parents that may be absent.
pub open spec fn opt_parents_view(parents: Option<Vec<ReadyData>>) -> Option<Seq<ReadyData>> {
    match parents {
        Some(p) => Some(p@),
        None => None,
    }
}

/// What is known of a changeset before it is created.
#[derive(Debug)]
pub struct CreateChangeset {
    /// The identifier that the changeset must turn out to have, if one is
    /// known in advance.
    pub expected_nodeid: Option<HgNodeHash>,
    /// The files that the changeset changes, where the caller knows them.
    pub expected_files: Option<Vec<MPath>>,
    /// Whether paths that collide by case make the creation fail.
    pub must_check_case_conflicts: bool,
}

#[derive(Debug)]
struct Progress {
    expected_nodeid: Option<HgNodeHash>,
    expected_files: Option<Vec<MPath>>,
    must_check_case_conflicts: bool,
    root: Option<HgManifestId>,
    parents: Option<Vec<ReadyData>>,
    parent_ids: Vec<ChangesetId>,
    parents_complete: bool,
    files: Option<Vec<MPath>>,
    conflicts_checked: bool,
    identity: Option<ReadyData>,
    blobs_written: bool,
    signalled: bool,
    stage: Stage,
}

/// A changeset that is being created.
#[derive(Debug)]
pub struct ChangesetCreation {
    progress: Progress,
}

impl View for Progress {
    type V = CreateView;

    closed spec fn view(&self) -> CreateView {
        CreateView {
            expected_nodeid: self.expected_nodeid,
            expected_files: opt_paths_view(self.expected_files),
            must_check_case_conflicts: self.must_check_case_conflicts,
            root: self.root,
            parents: opt_parents_view(self.parents),
            parent_ids: self.parent_ids@,
            parents_complete: self.parents_complete,
            files: opt_paths_view(self.files),
            conflicts_checked: self.conflicts_checked,
            identity: self.identity,
            blobs_written: self.blobs_written,
            signalled: self.signalled,
            stage: self.stage,
        }
    }
}

impl View for ChangesetCreation {
    type V = CreateView;

    closed spec fn view(&self) -> CreateView {
        self.progress@
    }
}

fn manifest_at(parents: &Vec<ReadyData>, i: usize) -> (r: Option<HgManifestId>)
    ensures
        r == parent_manifest(parents@, i as int),
{
    if i < parents.len() {
        Some(parents[i].manifest_id)
    } else {
        None
    }
}

fn ids_of(parents: &Vec<ReadyData>) -> (r: Vec<ChangesetId>)
    ensures
        r@ == bonsai_parents(parents@),
{
    let mut out: Vec<ChangesetId> = Vec::new();
    let mut i: usize = 0;
    while i < parents.len()
        invariant
            0 <= i <= parents.len(),
            out@.len() == i,
            forall|k: int| 0 <= k < i ==> out@[k] == parents@[k].bcs_id,
        decreases parents.len() - i,
    {
        out.push(parents[i].bcs_id);
        i += 1;
    }
    assert(out@ =~= bonsai_parents(parents@));
    out
}

fn no_commands() -> (r: Vec<Command>)
    ensures
        commands_view(r@) == Seq::<CommandView>::empty(),
{
    let r: Vec<Command> = Vec::new();
    assert(commands_view(r@) =~= Seq::<CommandView>::empty());
    r
}

fn is_stage(a: Stage, b: Stage) -> (r: bool)
    ensures
        r == (a == b),
{
    a == b
}

impl Progress {
    fn fail(self, error: CreateError) -> (r: (Progress, Vec<Command>))
        ensures
            (r.0@, commands_view(r.1@)) == fail(self@, error),
    {
        let ghost before = self@;
        let mut commands: Vec<Command> = Vec::new();
        commands.push(Command::SignalParentReady(Err(error)));
        commands.push(Command::Finish(Err(error)));
        let mut next = self;
        next.signalled = true;
        next.stage = Stage::Failed;
        proof {
            assert(commands_view(commands@) =~= fail(before, error).1);
        }
        (next, commands)
    }

    fn after_computing(self) -> (r: (Progress, Vec<Command>))
        requires
            self@.files is Some && self@.conflicts_checked ==> self@.root is Some && self@.parents
                is Some,
        ensures
            (r.0@, commands_view(r.1@)) == after_computing(self@),
    {
        let ghost before = self@;
        if self.files.is_some() && self.conflicts_checked {
            let mut next = self;
            let files = next.files.take().unwrap();
            let parents = next.parents.take().unwrap();
            let root = next.root.unwrap();
            next.parent_ids = ids_of(&parents);
            next.stage = Stage::Making;
            let mut commands: Vec<Command> = Vec::new();
            commands.push(Command::MakeChangesets { root, parents, files });
            proof {
                assert(commands_view(commands@) =~= after_computing(before).1);
            }
            (next, commands)
        } else {
            (self, no_commands())
        }
    }

    fn after_gathering(self) -> (r: (Progress, Vec<Command>))
        ensures
            (r.0@, commands_view(r.1@)) == after_gathering(self@),
    {
        let ghost before = self@;
        if self.root.is_some() && self.parents.is_some() {
            let mut next = self;
            let root = next.root.unwrap();
            let (p1, p2) = match &next.parents {
                Some(parents) => (manifest_at(parents, 0), manifest_at(parents, 1)),
                None => (None, None),
            };
            let mut commands: Vec<Command> = Vec::new();
            if next.expected_files.is_none() {
                commands.push(Command::ComputeChangedFiles { root, p1, p2 });
            }
            if next.must_check_case_conflicts {
                commands.push(Command::CheckCaseConflicts { root, p1 });
            }
            next.files = next.expected_files.take();
            next.conflicts_checked = !next.must_check_case_conflicts;
            next.stage = Stage::Computing;
            let ghost first = commands_view(commands@);
            let (done, mut make) = next.after_computing();
            let ghost second = commands_view(make@);
            commands.append(&mut make);
            proof {
                assert(commands_view(commands@) =~= first + second);
                let compute = if before.expected_files is None {
                    seq![CommandView::ComputeChangedFiles { root, p1, p2 }]
                } else {
                    Seq::empty()
                };
                let check = if before.must_check_case_conflicts {
                    seq![CommandView::CheckCaseConflicts { root, p1 }]
                } else {
                    Seq::empty()
                };
                assert(first =~= compute + check);
            }
            (done, commands)
        } else {
            (self, no_commands())
        }
    }

    fn after_writing(self) -> (r: (Progress, Vec<Command>))
        requires
            self@.identity is Some,
        ensures
            (r.0@, commands_view(r.1@)) == after_writing(self@),
    {
        let ghost before = self@;
        if self.blobs_written && self.parents_complete {
            let identity = self.identity.unwrap();
            let mut next = self;
            next.stage = Stage::Mapping;
            let mut commands: Vec<Command> = Vec::new();
            commands.push(
                Command::InsertMapping { bcs_id: identity.bcs_id, hg_cs_id: identity.hg_cs_id },
            );
            proof {
                assert(commands_view(commands@) =~= after_writing(before).1);
            }
            (next, commands)
        } else {
            (self, no_commands())
        }
    }

    fn is_outstanding(&self, step: Step) -> (r: bool)
        ensures
            r == outstanding(self@, step),
    {
        let waiting = is_stage(self.stage, Stage::Gathering) || is_stage(
            self.stage,
            Stage::Computing,
        ) || is_stage(self.stage, Stage::Making) || is_stage(self.stage, Stage::Writing);
        match step {
            Step::ProcessingEntries => is_stage(self.stage, Stage::Gathering)
                && self.root.is_none(),
            Step::ParentsData => is_stage(self.stage, Stage::Gathering) && self.parents.is_none(),
            Step::ParentsComplete => !self.parents_complete && waiting,
            Step::ChangedFiles => is_stage(self.stage, Stage::Computing) && self.files.is_none(),
            Step::CaseConflicts => is_stage(self.stage, Stage::Computing)
                && !self.conflicts_checked,
            Step::MakingChangesets => is_stage(self.stage, Stage::Making),
            Step::WritingBlobs => is_stage(self.stage, Stage::Writing) && !self.blobs_written,
            Step::InsertingMapping => is_stage(self.stage, Stage::Mapping),
            Step::InsertingChangeset => is_stage(self.stage, Stage::Indexing),
        }
    }

    fn advance(self, event: CreateEvent) -> (r: Option<(Progress, Vec<Command>)>)
        requires
            create_inv(self@),
        ensures
            match r {
                Some((next, commands)) => create_step(self@, event@) == Some(
                    (next@, commands_view(commands@)),
                ),
                None => create_step(self@, event@) is None,
            },
    {
        let ghost before = self@;
        let step = match &event {
            CreateEvent::EntriesUploaded(_) => Step::ProcessingEntries,
            CreateEvent::ParentsReady(_) => Step::ParentsData,
            CreateEvent::ParentsComplete => Step::ParentsComplete,
            CreateEvent::ChangedFiles(_) => Step::ChangedFiles,
            CreateEvent::CaseConflictsChecked => Step::CaseConflicts,
            CreateEvent::ChangesetsMade(_) => Step::MakingChangesets,
            CreateEvent::BlobsWritten => Step::WritingBlobs,
            CreateEvent::MappingInserted => Step::InsertingMapping,
            CreateEvent::ChangesetInserted => Step::InsertingChangeset,
            CreateEvent::Failed(step) => *step,
        };
        if !self.is_outstanding(step) {
            return None;
        }
        let mut next = self;
        match event {
            CreateEvent::EntriesUploaded(root) => {
                next.root = Some(root);
                Some(next.after_gathering())
            },
            CreateEvent::ParentsReady(parents) => {
                next.parents = Some(parents);
                Some(next.after_gathering())
            },
            CreateEvent::ParentsComplete => {
                next.parents_complete = true;
                if is_stage(next.stage, Stage::Writing) {
                    Some(next.after_writing())
                } else {
                    Some((next, no_commands()))
                }
            },
            CreateEvent::ChangedFiles(files) => {
                next.files = Some(files);
                Some(next.after_computing())
            },
            CreateEvent::CaseConflictsChecked => {
                next.conflicts_checked = true;
                Some(next.after_computing())
            },
            CreateEvent::ChangesetsMade(identity) => {
                let mismatch = match next.expected_nodeid {
                    Some(expected) => if expected == identity.hg_cs_id.0 {
                        None
                    } else {
                        Some(expected)
                    },
                    None => None,
                };
                match mismatch {
                    Some(expected) => Some(
                        next.fail(
                            CreateError::InconsistentChangesetHash {
                                expected,
                                actual: identity.hg_cs_id.0,
                            },
                        ),
                    ),
                    None => {
                        next.identity = Some(identity);
                        next.signalled = true;
                        next.stage = Stage::Writing;
                        let mut commands: Vec<Command> = Vec::new();
                        commands.push(Command::SignalParentReady(Ok(identity)));
                        commands.push(Command::WriteBlobs);
                        proof {
                            assert(commands_view(commands@) =~= seq![
                                CommandView::SignalParentReady(Ok(identity)),
                                CommandView::WriteBlobs,
                            ]);
                        }
                        Some((next, commands))
                    },
                }
            },
            CreateEvent::BlobsWritten => {
                next.blobs_written = true;
                Some(next.after_writing())
            },
            CreateEvent::MappingInserted => {
                let cs_id = next.identity.unwrap().bcs_id;
                let mut parent_ids: Vec<ChangesetId> = Vec::new();
                std::mem::swap(&mut parent_ids, &mut next.parent_ids);
                next.stage = Stage::Indexing;
                let mut commands: Vec<Command> = Vec::new();
                commands.push(Command::InsertChangeset { cs_id, parent_ids });
                proof {
                    assert(next@.parent_ids =~= Seq::<ChangesetId>::empty());
                    assert(commands_view(commands@) =~= seq![
                        CommandView::InsertChangeset {
                            cs_id: before.identity.unwrap().bcs_id,
                            parent_ids: before.parent_ids,
                        },
                    ]);
                }
                Some((next, commands))
            },
            CreateEvent::ChangesetInserted => {
                next.stage = Stage::Complete;
                let mut commands: Vec<Command> = Vec::new();
                commands.push(Command::Finish(Ok(next.identity.unwrap())));
                proof {
                    assert(commands_view(commands@) =~= seq![
                        CommandView::Finish(Ok(before.identity.unwrap())),
                    ]);
                }
                Some((next, commands))
            },
            CreateEvent::Failed(step) => Some(next.fail(CreateError::StepFailed(step))),
        }
    }
}

impl CreateChangeset {
    /// Starts the creation: the entries are uploaded while the parents are
    /// awaited.
    pub fn create(self) -> (r: (ChangesetCreation, Vec<Command>))
        ensures
            (r.0@, commands_view(r.1@)) == create_start(
                self.expected_nodeid,
                opt_paths_view(self.expected_files),
                self.must_check_case_conflicts,
            ),
            create_inv(r.0@),
    {
        let progress = Progress {
            expected_nodeid: self.expected_nodeid,
            expected_files: self.expected_files,
            must_check_case_conflicts: self.must_check_case_conflicts,
            root: None,
            parents: None,
            parent_ids: Vec::new(),
            parents_complete: false,
            files: None,
            conflicts_checked: false,
            identity: None,
            blobs_written: false,
            signalled: false,
            stage: Stage::Gathering,
        };
        let mut commands: Vec<Command> = Vec::new();
        commands.push(Command::UploadEntries);
        commands.push(Command::AwaitParentsReady);
        commands.push(Command::AwaitParentsComplete);
        proof {
            assert(progress@.parent_ids =~= Seq::<ChangesetId>::empty());
            assert(commands_view(commands@) =~= seq![
                CommandView::UploadEntries,
                CommandView::AwaitParentsReady,
                CommandView::AwaitParentsComplete,
            ]);
        }
        (ChangesetCreation { progress }, commands)
    }
}

impl ChangesetCreation {
    #[verifier::type_invariant]
    spec fn inv(self) -> bool {
        create_inv(self@)
    }

    /// The state of the changeset.
    pub fn state(&self) -> (r: PipelineState)
        ensures
            r == pipeline_state(self@.stage),
            create_inv(self@),
    {
        proof {
            use_type_invariant(self);
        }
        match self.progress.stage {
            Stage::Gathering => PipelineState::Pending,
            Stage::Computing => PipelineState::Pending,
            Stage::Making => PipelineState::Pending,
            Stage::Writing => PipelineState::ParentReady,
            Stage::Mapping => PipelineState::ParentReady,
            Stage::Indexing => PipelineState::ParentReady,
            Stage::Complete => PipelineState::Complete,
            Stage::Failed => PipelineState::Failed,
        }
    }

    /// How far the creation has come.
    pub fn stage(&self) -> (r: Stage)
        ensures
            r == self@.stage,
    {
        self.progress.stage
    }

    /// The creation after `event` and the work to start, or `None` where
    /// the event reports on work that is not outstanding.
    pub fn step(self, event: CreateEvent) -> (r: Option<(ChangesetCreation, Vec<Command>)>)
        ensures
            match r {
                Some((next, commands)) => create_step(self@, event@) == Some(
                    (next@, commands_view(commands@)),
                ),
                None => create_step(self@, event@) is None,
            },
            r matches Some((next, _)) ==> create_inv(next@),
    {
        proof {
            use_type_invariant(&self);
            if create_step(self@, event@) is Some {
                lemma_create_step_keeps_inv(self@, event@);
            }
        }
        let ChangesetCreation { progress } = self;
        match progress.advance(event) {
            Some((next, commands)) => Some((ChangesetCreation { progress: next }, commands)),
            None => None,
        }
    }
}

} // verus!
