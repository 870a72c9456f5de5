//! Dragging entries out of a pane to another program.

use vstd::prelude::*;

use crate::fs_path::{FsPath, FsPathView};
use crate::import_flow::DropEffect;
use crate::pane::PaneId;
use crate::save_flow::ConfirmChoice;
use crate::text::optional_text;
use crate::transfer_flow::{fs_paths_view, TransferPaneState};

verus! {

/// What came of a drag.
#[derive(Debug, Clone, Copy, PartialEq, Eq, Structural)]
pub enum DragOutcome {
    Cancelled,
    /// The target took the entries; `move_reported` where it asks for their sources
    /// to be removed.
    Dropped { effect: DropEffect, move_reported: bool },
}

/// Why no drag can start in a pane now.
pub open spec fn drag_rejection(pane: TransferPaneState, globally_busy: bool) -> Option<Seq<char>> {
    if globally_busy {
        Some("Another save, transfer, or drag is in progress"@)
    } else if pane.offline {
        Some("Cannot start a drag with an offline or unreachable pane"@)
    } else if pane.crashed {
        Some("Cannot start a drag with a stopped pane"@)
    } else if pane.dirty {
        Some("Cannot start a drag with a pane being edited. Save or discard changes first."@)
    } else if !pane.idle {
        Some("Cannot start a drag with a pane that is saving"@)
    } else {
        None
    }
}

/// Why no drag can start in a pane now.
pub fn start_rejection(pane: TransferPaneState, globally_busy: bool) -> (r: Option<&'static str>)
    ensures
        optional_text(r) == drag_rejection(pane, globally_busy),
{
    if globally_busy {
        Some("Another save, transfer, or drag is in progress")
    } else if pane.offline {
        Some("Cannot start a drag with an offline or unreachable pane")
    } else if pane.crashed {
        Some("Cannot start a drag with a stopped pane")
    } else if pane.dirty {
        Some("Cannot start a drag with a pane being edited. Save or discard changes first.")
    } else if !pane.idle {
        Some("Cannot start a drag with a pane that is saving")
    } else {
        None
    }
}

/// Where a drag stands.
#[derive(Debug)]
pub enum DragOutState {
    Idle,
    Running { pane_id: PaneId },
    /// The sources are still there, and a user is asked whether to remove them.
    ConfirmingCleanup { pane_id: PaneId, remaining: Vec<FsPath> },
    /// The sources are being removed.
    CleaningUp { pane_id: PaneId },
}

/// Where a drag stands.
#[verifier::ext_equal]
pub enum DragOutStateView {
    Idle,
    Running { pane_id: PaneId },
    ConfirmingCleanup { pane_id: PaneId, remaining: Seq<FsPathView> },
    CleaningUp { pane_id: PaneId },
}

impl DragOutState {
    pub open spec fn view(&self) -> DragOutStateView {
        match self {
            DragOutState::Idle => DragOutStateView::Idle,
            DragOutState::Running { pane_id } => DragOutStateView::Running { pane_id: *pane_id },
            DragOutState::ConfirmingCleanup { pane_id, remaining } =>
                DragOutStateView::ConfirmingCleanup {
                pane_id: *pane_id,
                remaining: fs_paths_view(remaining@),
            },
            DragOutState::CleaningUp { pane_id } => DragOutStateView::CleaningUp {
                pane_id: *pane_id,
            },
        }
    }
}

/// What the end of a drag asks of its surroundings.
#[derive(Debug)]
pub enum DragOutFlowResult {
    Done,
    /// A user has to be asked whether to remove these.
    NeedsCleanupConfirm { pane_id: PaneId, remaining: Vec<FsPath> },
    Ignored,
}

/// What the end of a drag asks of its surroundings.
#[verifier::ext_equal]
pub enum DragOutFlowView {
    Done,
    NeedsCleanupConfirm { pane_id: PaneId, remaining: Seq<FsPathView> },
    Ignored,
}

impl DragOutFlowResult {
    pub open spec fn view(&self) -> DragOutFlowView {
        match self {
            DragOutFlowResult::Done => DragOutFlowView::Done,
            DragOutFlowResult::NeedsCleanupConfirm { pane_id, remaining } =>
                DragOutFlowView::NeedsCleanupConfirm {
                pane_id: *pane_id,
                remaining: fs_paths_view(remaining@),
            },
            DragOutFlowResult::Ignored => DragOutFlowView::Ignored,
        }
    }
}

/// What a user's word on the sources asks of its surroundings.
#[derive(Debug)]
pub enum CleanupChoiceResult {
    /// These are to be removed.
    Approved { pane_id: PaneId, remaining: Vec<FsPath> },
    Cancelled { pane_id: PaneId },
    Ignored,
}

/// What a user's word on the sources asks of its surroundings.
#[verifier::ext_equal]
pub enum CleanupChoiceView {
    Approved { pane_id: PaneId, remaining: Seq<FsPathView> },
    Cancelled { pane_id: PaneId },
    Ignored,
}

impl CleanupChoiceResult {
    pub open spec fn view(&self) -> CleanupChoiceView {
        match self {
            CleanupChoiceResult::Approved { pane_id, remaining } => CleanupChoiceView::Approved {
                pane_id: *pane_id,
                remaining: fs_paths_view(remaining@),
            },
            CleanupChoiceResult::Cancelled { pane_id } => CleanupChoiceView::Cancelled {
                pane_id: *pane_id,
            },
            CleanupChoiceResult::Ignored => CleanupChoiceView::Ignored,
        }
    }
}

/// What the end of a drag leads to, where `existing` are the sources that are
/// still there.
pub open spec fn drag_outcome(
    state: DragOutStateView,
    pane: PaneId,
    outcome: DragOutcome,
    existing: Seq<FsPathView>,
) -> (DragOutStateView, DragOutFlowView) {
    if state != (DragOutStateView::Running { pane_id: pane }) {
        (state, DragOutFlowView::Ignored)
    } else if (outcome matches DragOutcome::Dropped { move_reported, .. } && move_reported)
        && existing.len() > 0 {
        (
            DragOutStateView::ConfirmingCleanup { pane_id: pane, remaining: existing },
            DragOutFlowView::NeedsCleanupConfirm { pane_id: pane, remaining: existing },
        )
    } else {
        (DragOutStateView::Idle, DragOutFlowView::Done)
    }
}

/// What a user's word on the sources leads to.
pub open spec fn cleanup_choice(state: DragOutStateView, choice: ConfirmChoice) -> (
    DragOutStateView,
    CleanupChoiceView,
) {
    match state {
        DragOutStateView::ConfirmingCleanup { pane_id, remaining } => if choice is Cancel {
            (DragOutStateView::Idle, CleanupChoiceView::Cancelled { pane_id })
        } else {
            (
                DragOutStateView::CleaningUp { pane_id },
                CleanupChoiceView::Approved { pane_id, remaining },
            )
        },
        _ => (DragOutStateView::Idle, CleanupChoiceView::Ignored),
    }
}

/// The pane that has part in a drag.
pub open spec fn drag_pane(state: DragOutStateView) -> Option<PaneId> {
    match state {
        DragOutStateView::Idle => None,
        DragOutStateView::Running { pane_id } => Some(pane_id),
        DragOutStateView::ConfirmingCleanup { pane_id, .. } => Some(pane_id),
        DragOutStateView::CleaningUp { pane_id } => Some(pane_id),
    }
}

/// One drag at a time.
#[derive(Debug)]
pub struct DragOutController {
    state: DragOutState,
}

impl DragOutController {
    /// Where the drag stands.
    pub closed spec fn view(&self) -> DragOutStateView {
        self.state@
    }

    /// No drag.
    pub fn new() -> (r: DragOutController)
        ensures
            r@ == DragOutStateView::Idle,
    {
        DragOutController { state: DragOutState::Idle }
    }

    /// Starts a drag.
    pub fn begin(&mut self, pane_id: PaneId)
        ensures
            final(self)@ == (DragOutStateView::Running { pane_id }),
    {
        self.state = DragOutState::Running { pane_id };
    }

    /// Whether a drag is going on, or what follows it.
    pub fn is_busy(&self) -> (r: bool)
        ensures
            r == !(self@ is Idle),
    {
        match &self.state {
            DragOutState::Idle => false,
            _ => true,
        }
    }

    /// The pane that has part in the drag.
    fn pane(&self) -> (r: Option<PaneId>)
        ensures
            r == drag_pane(self@),
    {
        match &self.state {
            DragOutState::Idle => None,
            DragOutState::Running { pane_id } => Some(*pane_id),
            DragOutState::ConfirmingCleanup { pane_id, .. } => Some(*pane_id),
            DragOutState::CleaningUp { pane_id } => Some(*pane_id),
        }
    }

    /// Takes what came of the drag. `existing` are the sources that are still
    /// there.
    pub fn on_outcome(&mut self, pane_id: PaneId, outcome: DragOutcome, existing: Vec<FsPath>) -> (r:
        DragOutFlowResult)
        ensures
            (final(self)@, r@) == drag_outcome(
                old(self)@,
                pane_id,
                outcome,
                fs_paths_view(existing@),
            ),
    {
        match &self.state {
            DragOutState::Running { pane_id: running } => {
                if *running != pane_id {
                    return DragOutFlowResult::Ignored;
                }
            },
            _ => {
                return DragOutFlowResult::Ignored;
            },
        }
        let reported = match outcome {
            DragOutcome::Cancelled => false,
            DragOutcome::Dropped { move_reported, .. } => move_reported,
        };
        if !reported || existing.len() == 0 {
            self.state = DragOutState::Idle;
            return DragOutFlowResult::Done;
        }
        let remaining = copy_fs_paths(&existing);
        self.state = DragOutState::ConfirmingCleanup { pane_id, remaining: existing };
        DragOutFlowResult::NeedsCleanupConfirm { pane_id, remaining }
    }

    /// Whether a user is asked about the sources.
    pub fn is_confirming(&self) -> (r: bool)
        ensures
            r == (self@ is ConfirmingCleanup),
    {
        match &self.state {
            DragOutState::ConfirmingCleanup { .. } => true,
            _ => false,
        }
    }

    /// Takes a user's word on the sources.
    pub fn on_choice(&mut self, choice: ConfirmChoice) -> (r: CleanupChoiceResult)
        ensures
            (final(self)@, r@) == cleanup_choice(old(self)@, choice),
    {
        let mut state = DragOutState::Idle;
        std::mem::swap(&mut state, &mut self.state);
        match state {
            DragOutState::ConfirmingCleanup { pane_id, remaining } => {
                if choice == ConfirmChoice::Cancel {
                    return CleanupChoiceResult::Cancelled { pane_id };
                }
                self.state = DragOutState::CleaningUp { pane_id };
                CleanupChoiceResult::Approved { pane_id, remaining }
            },
            _ => CleanupChoiceResult::Ignored,
        }
    }

    /// Takes the news that the sources are removed.
    pub fn finish_cleanup(&mut self, pane_id: PaneId)
        ensures
            final(self)@ == (if old(self)@ == (DragOutStateView::CleaningUp { pane_id }) {
                DragOutStateView::Idle
            } else {
                old(self)@
            }),
    {
        let finished = match &self.state {
            DragOutState::CleaningUp { pane_id: other } => *other == pane_id,
            _ => false,
        };
        if finished {
            self.state = DragOutState::Idle;
        }
    }

    /// Forgets a drag that a pane has part in, and says whether there was one.
    pub fn invalidate_if_involves(&mut self, pane: PaneId) -> (r: bool)
        ensures
            r == (drag_pane(old(self)@) == Some(pane)),
            final(self)@ == (if r {
                DragOutStateView::Idle
            } else {
                old(self)@
            }),
    {
        let involved = match self.pane() {
            Some(other) => other == pane,
            None => false,
        };
        if involved {
            self.state = DragOutState::Idle;
        }
        involved
    }
}

/// The same paths once more.
pub fn copy_fs_paths(paths: &Vec<FsPath>) -> (r: Vec<FsPath>)
    ensures
        fs_paths_view(r@) == fs_paths_view(paths@),
{
    let mut copies: Vec<FsPath> = Vec::new();
    let mut i: usize = 0;
    while i < paths.len()
        invariant
            i <= paths@.len(),
            copies@.len() == i,
            forall|j: int| 0 <= j < i ==> (#[trigger] copies@[j])@ == paths@[j]@,
        decreases paths@.len() - i,
    {
        copies.push(paths[i].copy());
        i = i + 1;
    }
    assert(fs_paths_view(copies@) =~= fs_paths_view(paths@));
    copies
}

/// No source is removed unless the target asked for it, the source is still there
/// and a user approved.
pub proof fn sources_are_removed_only_with_approval(
    state: DragOutStateView,
    pane: PaneId,
    outcome: DragOutcome,
    existing: Seq<FsPathView>,
    choice: ConfirmChoice,
)
    requires
        state == (DragOutStateView::Running { pane_id: pane }),
        cleanup_choice(drag_outcome(state, pane, outcome, existing).0, choice).1 is Approved,
    ensures
        outcome matches DragOutcome::Dropped { move_reported, .. } && move_reported,
        !(choice is Cancel),
        cleanup_choice(drag_outcome(state, pane, outcome, existing).0, choice).1 == (
        CleanupChoiceView::Approved { pane_id: pane, remaining: existing }),
        existing.len() > 0,
{
}

} // verus!
