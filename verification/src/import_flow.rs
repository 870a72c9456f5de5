//! Taking in entries from outside: from the clipboard, or dropped on a pane.

use vstd::prelude::*;

use crate::fs_path::{FsPath, FsPathView};
use crate::pane::PaneId;
use crate::report::{CommitReport, OpOutcomeView, OpResult};
use crate::save_flow::ConfirmChoice;
use crate::save_result::CancelToken;
use crate::text::optional_text;
use crate::transfer_flow::{fs_paths_view, TransferPaneState};

verus! {

/// What becomes of entries that were dropped or put on the clipboard.
#[derive(Debug, Clone, Copy, PartialEq, Eq, Structural)]
pub enum DropEffect {
    Copy,
    Move,
}

/// One entry that is taken in.
#[derive(Debug, PartialEq, Eq)]
pub struct ImportOp {
    pub source: FsPath,
}

/// What is taken in, and where it goes.
#[derive(Debug, PartialEq, Eq)]
pub struct ImportPlan {
    pub sources: Vec<FsPath>,
    pub dest_dir: FsPath,
    pub effect: DropEffect,
}

/// What is taken in, and where it goes.
#[verifier::ext_equal]
pub struct ImportPlanView {
    pub sources: Seq<FsPathView>,
    pub dest_dir: FsPathView,
    pub effect: DropEffect,
}

impl ImportPlan {
    pub open spec fn view(&self) -> ImportPlanView {
        ImportPlanView {
            sources: fs_paths_view(self.sources@),
            dest_dir: self.dest_dir@,
            effect: self.effect,
        }
    }
}

/// What a report says of the entries that were taken in.
pub open spec fn import_report_view(results: Seq<OpResult<ImportOp>>) -> Seq<
    (FsPathView, OpOutcomeView),
> {
    results.map_values(|result: OpResult<ImportOp>| (result.op.source@, result.outcome@))
}

/// Why the clipboard cannot be used with a pane now.
pub open spec fn import_rejection(pane: TransferPaneState, globally_busy: bool) -> Option<
    Seq<char>,
> {
    if globally_busy {
        Some("Another save, transfer, or import is in progress"@)
    } else if pane.offline {
        Some("Cannot use the clipboard with an offline or unreachable pane"@)
    } else if pane.crashed {
        Some("Cannot use the clipboard with a stopped pane"@)
    } else if pane.dirty {
        Some("Cannot use the clipboard with a pane being edited. Save or discard changes first."@)
    } else if !pane.idle {
        Some("Cannot use the clipboard with a pane that is saving"@)
    } else {
        None
    }
}

/// Why the clipboard cannot be used with a pane now.
pub fn start_rejection(pane: TransferPaneState, globally_busy: bool) -> (r: Option<&'static str>)
    ensures
        optional_text(r) == import_rejection(pane, globally_busy),
{
    if globally_busy {
        Some("Another save, transfer, or import is in progress")
    } else if pane.offline {
        Some("Cannot use the clipboard with an offline or unreachable pane")
    } else if pane.crashed {
        Some("Cannot use the clipboard with a stopped pane")
    } else if pane.dirty {
        Some("Cannot use the clipboard with a pane being edited. Save or discard changes first.")
    } else if !pane.idle {
        Some("Cannot use the clipboard with a pane that is saving")
    } else {
        None
    }
}

/// Where taking in stands.
#[derive(Debug)]
pub enum ImportState {
    Idle,
    Awaiting { pane: PaneId, plan: ImportPlan, overwrites: Vec<FsPath> },
    Running { pane: PaneId, effect: DropEffect, cancel: CancelToken, cancelled: bool },
}

/// Where taking in stands.
#[verifier::ext_equal]
pub enum ImportStateView {
    Idle,
    Awaiting { pane: PaneId, plan: ImportPlanView, overwrites: Seq<FsPathView> },
    Running { pane: PaneId, effect: DropEffect, cancel: CancelToken, cancelled: bool },
}

impl ImportState {
    pub open spec fn view(&self) -> ImportStateView {
        match self {
            ImportState::Idle => ImportStateView::Idle,
            ImportState::Awaiting { pane, plan, overwrites } => ImportStateView::Awaiting {
                pane: *pane,
                plan: plan@,
                overwrites: fs_paths_view(overwrites@),
            },
            ImportState::Running { pane, effect, cancel, cancelled } => ImportStateView::Running {
                pane: *pane,
                effect: *effect,
                cancel: *cancel,
                cancelled: *cancelled,
            },
        }
    }
}

/// What a step of taking in asks of its surroundings.
#[derive(Debug)]
pub enum ImportFlowResult {
    StartApply { pane: PaneId, plan: ImportPlan, overwrites: Vec<FsPath>, cancel: CancelToken },
    Cancelled,
    CancelRequested,
    Finished { pane: PaneId, effect: DropEffect, report: CommitReport<ImportOp> },
    Ignored,
}

/// What a step of taking in asks of its surroundings.
#[verifier::ext_equal]
pub enum ImportFlowView {
    StartApply {
        pane: PaneId,
        plan: ImportPlanView,
        overwrites: Seq<FsPathView>,
        cancel: CancelToken,
    },
    Cancelled,
    CancelRequested,
    Finished { pane: PaneId, effect: DropEffect, report: Seq<(FsPathView, OpOutcomeView)> },
    Ignored,
}

impl ImportFlowResult {
    pub open spec fn view(&self) -> ImportFlowView {
        match self {
            ImportFlowResult::StartApply { pane, plan, overwrites, cancel } =>
                ImportFlowView::StartApply {
                pane: *pane,
                plan: plan@,
                overwrites: fs_paths_view(overwrites@),
                cancel: *cancel,
            },
            ImportFlowResult::Cancelled => ImportFlowView::Cancelled,
            ImportFlowResult::CancelRequested => ImportFlowView::CancelRequested,
            ImportFlowResult::Finished { pane, effect, report } => ImportFlowView::Finished {
                pane: *pane,
                effect: *effect,
                report: import_report_view(report.results@),
            },
            ImportFlowResult::Ignored => ImportFlowView::Ignored,
        }
    }
}

/// What a user's word leads to; a worker that it starts is stopped by `token`.
pub open spec fn import_choice(
    state: ImportStateView,
    choice: ConfirmChoice,
    token: CancelToken,
) -> (ImportStateView, ImportFlowView) {
    match state {
        ImportStateView::Running { pane, effect, cancel, .. } => if choice is Cancel {
            (
                ImportStateView::Running { pane, effect, cancel, cancelled: true },
                ImportFlowView::CancelRequested,
            )
        } else {
            (state, ImportFlowView::Ignored)
        },
        ImportStateView::Awaiting { pane, plan, overwrites } => if choice is Cancel {
            (ImportStateView::Idle, ImportFlowView::Cancelled)
        } else {
            (
                ImportStateView::Running {
                    pane,
                    effect: plan.effect,
                    cancel: token,
                    cancelled: false,
                },
                ImportFlowView::StartApply { pane, plan, overwrites, cancel: token },
            )
        },
        ImportStateView::Idle => (state, ImportFlowView::Ignored),
    }
}

/// What the end of the worker leads to.
pub open spec fn import_finished(
    state: ImportStateView,
    results: Seq<OpResult<ImportOp>>,
) -> (ImportStateView, ImportFlowView) {
    (
        ImportStateView::Idle,
        match state {
            ImportStateView::Running { pane, effect, .. } => ImportFlowView::Finished {
                pane,
                effect,
                report: import_report_view(results),
            },
            _ => ImportFlowView::Ignored,
        },
    )
}

/// Taking in one thing at a time, from the question to the report.
#[derive(Debug)]
pub struct ImportController {
    state: ImportState,
}

impl ImportController {
    /// Where taking in stands.
    pub closed spec fn view(&self) -> ImportStateView {
        self.state@
    }

    /// Nothing is taken in.
    pub fn new() -> (r: ImportController)
        ensures
            r@ == ImportStateView::Idle,
    {
        ImportController { state: ImportState::Idle }
    }

    /// Waits for a user's word.
    pub fn begin(&mut self, pane: PaneId, plan: ImportPlan, overwrites: Vec<FsPath>)
        ensures
            final(self)@ == (ImportStateView::Awaiting {
                pane,
                plan: plan@,
                overwrites: fs_paths_view(overwrites@),
            }),
    {
        self.state = ImportState::Awaiting { pane, plan, overwrites };
    }

    /// Takes a user's word; a worker that it starts is stopped by `token`.
    pub fn on_choice(&mut self, choice: ConfirmChoice, token: CancelToken) -> (r: ImportFlowResult)
        ensures
            (final(self)@, r@) == import_choice(old(self)@, choice, token),
    {
        let cancelling = choice == ConfirmChoice::Cancel;
        let mut state = ImportState::Idle;
        std::mem::swap(&mut state, &mut self.state);
        match state {
            ImportState::Running { pane, effect, cancel, cancelled } => {
                self.state =
                ImportState::Running { pane, effect, cancel, cancelled: cancelled || cancelling };
                if cancelling {
                    ImportFlowResult::CancelRequested
                } else {
                    ImportFlowResult::Ignored
                }
            },
            ImportState::Awaiting { pane, plan, overwrites } => {
                if cancelling {
                    return ImportFlowResult::Cancelled;
                }
                self.state =
                ImportState::Running {
                    pane,
                    effect: plan.effect,
                    cancel: token,
                    cancelled: false,
                };
                ImportFlowResult::StartApply { pane, plan, overwrites, cancel: token }
            },
            ImportState::Idle => ImportFlowResult::Ignored,
        }
    }

    /// Takes what came of the worker.
    pub fn on_finished(&mut self, report: CommitReport<ImportOp>) -> (r: ImportFlowResult)
        ensures
            (final(self)@, r@) == import_finished(old(self)@, report.results@),
    {
        let mut state = ImportState::Idle;
        std::mem::swap(&mut state, &mut self.state);
        match state {
            ImportState::Running { pane, effect, .. } => ImportFlowResult::Finished {
                pane,
                effect,
                report,
            },
            _ => ImportFlowResult::Ignored,
        }
    }

    /// Forgets what waits for a user's word and has to do with a pane, and says
    /// whether there was anything.
    pub fn invalidate_if_involves(&mut self, pane: PaneId) -> (r: bool)
        ensures
            r == (old(self)@ matches ImportStateView::Awaiting { pane: other, .. } && other
                == pane),
            final(self)@ == (if r {
                ImportStateView::Idle
            } else {
                old(self)@
            }),
    {
        let involved = match &self.state {
            ImportState::Awaiting { pane: other, .. } => *other == pane,
            _ => false,
        };
        if involved {
            self.state = ImportState::Idle;
        }
        involved
    }

    /// Whether something waits for a user's word.
    pub fn is_awaiting(&self) -> (r: bool)
        ensures
            r == (self@ is Awaiting),
    {
        match &self.state {
            ImportState::Awaiting { .. } => true,
            _ => false,
        }
    }

    /// Whether a worker is running.
    pub fn is_running(&self) -> (r: bool)
        ensures
            r == (self@ is Running),
    {
        match &self.state {
            ImportState::Running { .. } => true,
            _ => false,
        }
    }

    /// Whether the running worker was asked to stop.
    pub fn cancel_requested(&self) -> (r: bool)
        ensures
            r == (self@ matches ImportStateView::Running { cancelled, .. } && cancelled),
    {
        match &self.state {
            ImportState::Running { cancelled, .. } => *cancelled,
            _ => false,
        }
    }
}

/// What is taken in is what a user was asked about, and its effect is reported.
pub proof fn approved_import_is_the_one_asked_about(
    pane: PaneId,
    plan: ImportPlanView,
    overwrites: Seq<FsPathView>,
    token: CancelToken,
    results: Seq<OpResult<ImportOp>>,
)
    ensures
        ({
            let (running, started) = import_choice(
                ImportStateView::Awaiting { pane, plan, overwrites },
                ConfirmChoice::Approve,
                token,
            );
            &&& started == (ImportFlowView::StartApply { pane, plan, overwrites, cancel: token })
            &&& import_finished(running, results).1 == (ImportFlowView::Finished {
                pane,
                effect: plan.effect,
                report: import_report_view(results),
            })
        }),
{
}

} // verus!
