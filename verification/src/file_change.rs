//! Deciding how a changed file is stored in the tree-manifest format.
//!
//! Every revision of a file has a node with up to two parents. For a file
//! that a changeset adds or modifies, the node of the file in the first two
//! parents of the changeset and the copy information decide whether an
//! existing node can be used again, and otherwise which parents the new
//! node gets.

use crate::bonsai::{FileChange, FileChangeView, FileType};
use crate::ids::{ContentId, HgFileNodeId};
use crate::path::MPath;
use vstd::prelude::*;

verus! {

/// How two nodes of one file are related in the history of the file.
#[derive(Clone, Copy, Debug, PartialEq, Eq, Structural, Hash)]
pub enum FilenodesRelatedResult {
    Unrelated,
    FirstAncestorOfSecond,
    SecondAncestorOfFirst,
}

/// Whether a copy makes the new node start a history of its own: the file
/// was copied from another path, and that path exists through the first
/// parent only. Whether the parents have a node at the destination does not
/// matter.
pub open spec fn drops_parents(
    path: Seq<Seq<u8>>,
    copy_from: Option<(Seq<Seq<u8>>, HgFileNodeId)>,
    source_only_in_p1: bool,
) -> bool {
    copy_from matches Some((source, _)) && source != path && source_only_in_p1
}

/// Whether the history of the file has to be asked how the two parents are
/// related: both are there and differ, and the copy rule does not apply.
pub open spec fn needs_ancestry_check(
    path: Seq<Seq<u8>>,
    p1: Option<HgFileNodeId>,
    p2: Option<HgFileNodeId>,
    copy_from: Option<(Seq<Seq<u8>>, HgFileNodeId)>,
    source_only_in_p1: bool,
) -> bool {
    !drops_parents(path, copy_from, source_only_in_p1) && p1 is Some && p2 is Some && p1 != p2
}

/// The parents of the new node.
///
/// A copy from another path that exists through the first parent only
/// drops both. Else a node that only the second parent has becomes the
/// sole parent. Else, where both are there and differ and one is an
/// ancestor of the other, the ancestor is kept alone. In every other case
/// the parents stay as they are.
pub open spec fn resolved_parents(
    path: Seq<Seq<u8>>,
    p1: Option<HgFileNodeId>,
    p2: Option<HgFileNodeId>,
    copy_from: Option<(Seq<Seq<u8>>, HgFileNodeId)>,
    source_only_in_p1: bool,
    related: FilenodesRelatedResult,
) -> (Option<HgFileNodeId>, Option<HgFileNodeId>) {
    if drops_parents(path, copy_from, source_only_in_p1) {
        (None, None)
    } else if p1 is None {
        (p2, None)
    } else if p2 is Some && p1 != p2 {
        match related {
            FilenodesRelatedResult::Unrelated => (p1, p2),
            FilenodesRelatedResult::FirstAncestorOfSecond => (p1, None),
            FilenodesRelatedResult::SecondAncestorOfFirst => (p2, None),
        }
    } else {
        (p1, p2)
    }
}

/// The one parent node, where exactly one of the two is there.
pub open spec fn single_parent(p1: Option<HgFileNodeId>, p2: Option<HgFileNodeId>) -> Option<
    HgFileNodeId,
> {
    match (p1, p2) {
        (Some(parent), None) => Some(parent),
        (None, Some(parent)) => Some(parent),
        _ => None,
    }
}

/// Whether the node of the single parent can stand for the changed file:
/// the content is the same and the change carries no copy information. The
/// type of the file may have changed.
pub open spec fn reuses_parent(parent_content: ContentId, change: FileChangeView) -> bool {
    parent_content == change.content_id && change.copy_from is None
}

/// How the changed file is stored.
#[derive(Clone, Debug, PartialEq, Eq)]
pub enum FileNodeDecision {
    /// Under the node that the parent already has, with the type of the
    /// changed file.
    Reuse { node: HgFileNodeId, file_type: FileType },
    /// Under a new node.
    Upload {
        path: MPath,
        content_id: ContentId,
        size: u64,
        file_type: FileType,
        copy_from: Option<(MPath, HgFileNodeId)>,
        p1: Option<HgFileNodeId>,
        p2: Option<HgFileNodeId>,
    },
}

/// The mathematical value of a `FileNodeDecision`.
pub enum FileNodeDecisionView {
    Reuse { node: HgFileNodeId, file_type: FileType },
    Upload {
        path: Seq<Seq<u8>>,
        content_id: ContentId,
        size: u64,
        file_type: FileType,
        copy_from: Option<(Seq<Seq<u8>>, HgFileNodeId)>,
        p1: Option<HgFileNodeId>,
        p2: Option<HgFileNodeId>,
    },
}

/// The mathematical value of the resolved source of a copy.
pub open spec fn copy_source_view(copy_from: Option<(MPath, HgFileNodeId)>) -> Option<
    (Seq<Seq<u8>>, HgFileNodeId),
> {
    match copy_from {
        Some((path, node)) => Some((path@, node)),
        None => None,
    }
}

impl View for FileNodeDecision {
    type V = FileNodeDecisionView;

    open spec fn view(&self) -> FileNodeDecisionView {
        match self {
            FileNodeDecision::Reuse { node, file_type } => FileNodeDecisionView::Reuse {
                node: *node,
                file_type: *file_type,
            },
            FileNodeDecision::Upload { path, content_id, size, file_type, copy_from, p1, p2 } => {
                FileNodeDecisionView::Upload {
                    path: path@,
                    content_id: *content_id,
                    size: *size,
                    file_type: *file_type,
                    copy_from: copy_source_view(*copy_from),
                    p1: *p1,
                    p2: *p2,
                }
            },
        }
    }
}

/// What the stores answer while a changed file is being stored.
#[derive(Clone, Copy, Debug, PartialEq, Eq)]
pub enum StoreEvent {
    /// The content of the node whose envelope was loaded.
    ParentContent(ContentId),
    /// How the two nodes are related.
    Related(FilenodesRelatedResult),
}

/// What has to be read before the decision can be made.
#[derive(Clone, Copy, Debug, PartialEq, Eq)]
pub enum StoreRequest {
    /// Load the envelope of this node and report the content it names.
    LoadParentEnvelope(HgFileNodeId),
    /// Ask the history of the file how these two nodes are related.
    CheckRelated(HgFileNodeId, HgFileNodeId),
}

/// Which answer is awaited.
#[derive(Clone, Copy, Debug, PartialEq, Eq)]
pub enum StoreStage {
    AwaitContent(HgFileNodeId),
    AwaitRelated,
}

/// The mathematical value of a changed file that is being stored.
pub struct StoreView {
    pub p1: Option<HgFileNodeId>,
    pub p2: Option<HgFileNodeId>,
    pub path: Seq<Seq<u8>>,
    pub change: FileChangeView,
    pub copy_from: Option<(Seq<Seq<u8>>, HgFileNodeId)>,
    /// Whether the source of the copy exists in the manifest of the first
    /// parent and not in that of the second.
    pub source_only_in_p1: bool,
    pub stage: StoreStage,
}

/// The mathematical value of a `StoreStep`.
pub enum StoreStepView {
    Ask(StoreView, StoreRequest),
    Done(FileNodeDecisionView),
}

/// The new node with the parents that `related` leads to.
pub open spec fn upload_decision(s: StoreView, related: FilenodesRelatedResult) -> FileNodeDecisionView {
    let (p1, p2) = resolved_parents(
        s.path,
        s.p1,
        s.p2,
        s.copy_from,
        s.source_only_in_p1,
        related,
    );
    FileNodeDecisionView::Upload {
        path: s.path,
        content_id: s.change.content_id,
        size: s.change.size,
        file_type: s.change.file_type,
        copy_from: s.copy_from,
        p1,
        p2,
    }
}

/// What follows once it is settled that no node is used again: the
/// question about the parents, or the decision where nothing has to be
/// asked.
pub open spec fn settle_parents(s: StoreView) -> StoreStepView {
    if needs_ancestry_check(s.path, s.p1, s.p2, s.copy_from, s.source_only_in_p1) {
        StoreStepView::Ask(
            StoreView { stage: StoreStage::AwaitRelated, ..s },
            StoreRequest::CheckRelated(s.p1.unwrap(), s.p2.unwrap()),
        )
    } else {
        StoreStepView::Done(upload_decision(s, FilenodesRelatedResult::Unrelated))
    }
}

/// The first step: where exactly one parent has a node, its content is
/// asked for.
pub open spec fn store_start(
    p1: Option<HgFileNodeId>,
    p2: Option<HgFileNodeId>,
    path: Seq<Seq<u8>>,
    change: FileChangeView,
    copy_from: Option<(Seq<Seq<u8>>, HgFileNodeId)>,
    source_only_in_p1: bool,
) -> StoreStepView {
    match single_parent(p1, p2) {
        Some(parent) => StoreStepView::Ask(
            StoreView {
                p1,
                p2,
                path,
                change,
                copy_from,
                source_only_in_p1,
                stage: StoreStage::AwaitContent(parent),
            },
            StoreRequest::LoadParentEnvelope(parent),
        ),
        None => settle_parents(
            StoreView {
                p1,
                p2,
                path,
                change,
                copy_from,
                source_only_in_p1,
                stage: StoreStage::AwaitRelated,
            },
        ),
    }
}

/// The step after `event`, or `None` where such an event is not awaited.
pub open spec fn store_step(s: StoreView, event: StoreEvent) -> Option<StoreStepView> {
    match (s.stage, event) {
        (StoreStage::AwaitContent(parent), StoreEvent::ParentContent(content)) => Some(
            if reuses_parent(content, s.change) {
                StoreStepView::Done(
                    FileNodeDecisionView::Reuse { node: parent, file_type: s.change.file_type },
                )
            } else {
                settle_parents(s)
            },
        ),
        (StoreStage::AwaitRelated, StoreEvent::Related(related)) => Some(
            StoreStepView::Done(upload_decision(s, related)),
        ),
        _ => None,
    }
}

/// A changed file that is being stored.
#[derive(Debug)]
pub struct StoreFileChange {
    p1: Option<HgFileNodeId>,
    p2: Option<HgFileNodeId>,
    path: MPath,
    change: FileChange,
    copy_from: Option<(MPath, HgFileNodeId)>,
    source_only_in_p1: bool,
    stage: StoreStage,
}

impl View for StoreFileChange {
    type V = StoreView;

    closed spec fn view(&self) -> StoreView {
        StoreView {
            p1: self.p1,
            p2: self.p2,
            path: self.path@,
            change: self.change@,
            copy_from: copy_source_view(self.copy_from),
            source_only_in_p1: self.source_only_in_p1,
            stage: self.stage,
        }
    }
}

/// The next thing to do for a changed file.
#[derive(Debug)]
pub enum StoreStep {
    /// Read what `1` names and hand the answer to `0`.
    Ask(StoreFileChange, StoreRequest),
    /// The decision.
    Done(FileNodeDecision),
}

impl View for StoreStep {
    type V = StoreStepView;

    open spec fn view(&self) -> StoreStepView {
        match self {
            StoreStep::Ask(s, request) => StoreStepView::Ask(s@, *request),
            StoreStep::Done(decision) => StoreStepView::Done(decision@),
        }
    }
}

fn node_eq(a: Option<HgFileNodeId>, b: Option<HgFileNodeId>) -> (r: bool)
    ensures
        r == (a == b),
{
    match (a, b) {
        (Some(x), Some(y)) => x == y,
        (None, None) => true,
        _ => false,
    }
}

impl StoreFileChange {
    fn settle(self) -> (r: StoreStep)
        ensures
            r@ == settle_parents(self@),
    {
        let StoreFileChange { p1, p2, path, change, copy_from, source_only_in_p1, stage: _ } =
            self;
        let drops = match &copy_from {
            Some((source, _)) => !(*source == path) && source_only_in_p1,
            None => false,
        };
        if !drops && p1.is_some() && p2.is_some() && !node_eq(p1, p2) {
            let first = p1.unwrap();
            let second = p2.unwrap();
            StoreStep::Ask(
                StoreFileChange {
                    p1,
                    p2,
                    path,
                    change,
                    copy_from,
                    source_only_in_p1,
                    stage: StoreStage::AwaitRelated,
                },
                StoreRequest::CheckRelated(first, second),
            )
        } else {
            let (q1, q2) = if drops {
                (None, None)
            } else if p1.is_none() {
                (p2, None)
            } else {
                (p1, p2)
            };
            StoreStep::Done(
                FileNodeDecision::Upload {
                    path,
                    content_id: change.content_id,
                    size: change.size,
                    file_type: change.file_type,
                    copy_from,
                    p1: q1,
                    p2: q2,
                },
            )
        }
    }

    /// The path of the file.
    pub fn path(&self) -> (r: &MPath)
        ensures
            r@ == self@.path,
    {
        &self.path
    }

    /// The first step of storing the change `change` to the file at `path`,
    /// whose node in the first parent is `p1` and in the second `p2`, and
    /// whose copy source, where it has one in these parents, is `copy_from`.
    /// `source_only_in_p1` says whether the path that the file was copied
    /// from exists in the manifest of the first parent and not in that of
    /// the second.
    pub fn new(
        p1: Option<HgFileNodeId>,
        p2: Option<HgFileNodeId>,
        path: MPath,
        change: FileChange,
        copy_from: Option<(MPath, HgFileNodeId)>,
        source_only_in_p1: bool,
    ) -> (r: StoreStep)
        requires
            copy_from is Some ==> change.copy_from is Some,
        ensures
            r@ == store_start(
                p1,
                p2,
                path@,
                change@,
                copy_source_view(copy_from),
                source_only_in_p1,
            ),
    {
        let single = match (p1, p2) {
            (Some(parent), None) => Some(parent),
            (None, Some(parent)) => Some(parent),
            _ => None,
        };
        match single {
            Some(parent) => StoreStep::Ask(
                StoreFileChange {
                    p1,
                    p2,
                    path,
                    change,
                    copy_from,
                    source_only_in_p1,
                    stage: StoreStage::AwaitContent(parent),
                },
                StoreRequest::LoadParentEnvelope(parent),
            ),
            None => {
                let s = StoreFileChange {
                    p1,
                    p2,
                    path,
                    change,
                    copy_from,
                    source_only_in_p1,
                    stage: StoreStage::AwaitRelated,
                };
                s.settle()
            },
        }
    }

    /// The step after `event`, or `None` where such an event is not
    /// awaited.
    pub fn step(self, event: StoreEvent) -> (r: Option<StoreStep>)
        ensures
            match r {
                Some(next) => store_step(self@, event) == Some(next@),
                None => store_step(self@, event) is None,
            },
    {
        match (self.stage, event) {
            (StoreStage::AwaitContent(parent), StoreEvent::ParentContent(content)) => {
                if content == self.change.content_id && self.change.copy_from.is_none() {
                    Some(
                        StoreStep::Done(
                            FileNodeDecision::Reuse { node: parent, file_type: self.change.file_type },
                        ),
                    )
                } else {
                    Some(self.settle())
                }
            },
            (StoreStage::AwaitRelated, StoreEvent::Related(related)) => {
                let ghost before = self@;
                let StoreFileChange {
                    p1,
                    p2,
                    path,
                    change,
                    copy_from,
                    source_only_in_p1,
                    stage: _,
                } = self;
                let drops = match &copy_from {
                    Some((source, _)) => !(*source == path) && source_only_in_p1,
                    None => false,
                };
                let (q1, q2) = if drops {
                    (None, None)
                } else if p1.is_none() {
                    (p2, None)
                } else if p2.is_some() && !node_eq(p1, p2) {
                    match related {
                        FilenodesRelatedResult::Unrelated => (p1, p2),
                        FilenodesRelatedResult::FirstAncestorOfSecond => (p1, None),
                        FilenodesRelatedResult::SecondAncestorOfFirst => (p2, None),
                    }
                } else {
                    (p1, p2)
                };
                Some(
                    StoreStep::Done(
                        FileNodeDecision::Upload {
                            path,
                            content_id: change.content_id,
                            size: change.size,
                            file_type: change.file_type,
                            copy_from,
                            p1: q1,
                            p2: q2,
                        },
                    ),
                )
            },
            _ => None,
        }
    }
}

/// A change of the type of a file alone mints no node: where exactly one
/// parent has a node for the file, the content is the one of that node and
/// the change is no copy, the node of the parent is used again.
pub proof fn lemma_same_content_reuses_node(
    p1: Option<HgFileNodeId>,
    p2: Option<HgFileNodeId>,
    path: Seq<Seq<u8>>,
    change: FileChangeView,
    parent: HgFileNodeId,
    source_only_in_p1: bool,
)
    requires
        single_parent(p1, p2) == Some(parent),
        change.copy_from is None,
    ensures
        store_start(p1, p2, path, change, None, source_only_in_p1) matches StoreStepView::Ask(
            s,
            request,
        ) && request == StoreRequest::LoadParentEnvelope(parent) && store_step(
            s,
            StoreEvent::ParentContent(change.content_id),
        ) == Some(
            StoreStepView::Done(
                FileNodeDecisionView::Reuse { node: parent, file_type: change.file_type },
            ),
        ),
{
}

/// Whether `step` is the decision for a new node without parents.
pub open spec fn uploads_without_parents(step: StoreStepView) -> bool {
    step matches StoreStepView::Done(FileNodeDecisionView::Upload { p1, p2, .. }) && p1 is None
        && p2 is None
}

/// A file copied from another path that exists through the first parent
/// only gets a node without parents, whatever nodes the parents have at the
/// destination and whatever they hold: the history of the file is never
/// asked, and the content of a parent, where it is asked for, changes
/// nothing.
pub proof fn lemma_copy_drops_parents(
    p1: Option<HgFileNodeId>,
    p2: Option<HgFileNodeId>,
    path: Seq<Seq<u8>>,
    change: FileChangeView,
    source: Seq<Seq<u8>>,
    source_node: HgFileNodeId,
    content: ContentId,
)
    requires
        source != path,
        change.copy_from is Some,
    ensures
        match store_start(p1, p2, path, change, Some((source, source_node)), true) {
            StoreStepView::Ask(s, request) => single_parent(p1, p2) is Some && request
                == StoreRequest::LoadParentEnvelope(single_parent(p1, p2).unwrap()) && store_step(
                s,
                StoreEvent::ParentContent(content),
            ) is Some && uploads_without_parents(
                store_step(s, StoreEvent::ParentContent(content)).unwrap(),
            ),
            done => single_parent(p1, p2) is None && uploads_without_parents(done),
        },
{
}

/// Where the source of a copy also exists through the second parent, or the
/// file is copied from its own path, the copy changes nothing about the
/// parents: they are what they would be without it.
pub proof fn lemma_other_copies_keep_the_rules(
    p1: Option<HgFileNodeId>,
    p2: Option<HgFileNodeId>,
    path: Seq<Seq<u8>>,
    source: Seq<Seq<u8>>,
    source_node: HgFileNodeId,
    source_only_in_p1: bool,
    related: FilenodesRelatedResult,
)
    requires
        source == path || !source_only_in_p1,
    ensures
        resolved_parents(path, p1, p2, Some((source, source_node)), source_only_in_p1, related)
            == resolved_parents(path, p1, p2, None, false, related),
{
}

} // verus!
