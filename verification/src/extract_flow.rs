//! Unpacking an archive beside itself.

use vstd::prelude::*;

use crate::fs_path::{FsPath, FsPathView};
use crate::pane::PaneId;
use crate::report::{
    outcome_label, outcome_line, some_failed, CommitReport, OpOutcomeView, OpResult,
};
use crate::save_flow::ConfirmChoice;
use crate::save_result::CancelToken;
use crate::text::{decimal, decimal_text, optional_text, texts};
use crate::transfer_flow::TransferPaneState;

verus! {

/// One entry of an archive.
#[derive(Debug, PartialEq, Eq)]
pub struct ExtractOp {
    pub name: String,
    pub target: FsPath,
    pub is_dir: bool,
}

/// What is unpacked, and where it goes.
#[derive(Debug, PartialEq, Eq)]
pub struct ExtractPlan {
    pub archive: FsPath,
    pub dest_dir: FsPath,
    pub ops: Vec<ExtractOp>,
    pub total_bytes: u64,
}

/// One entry of an archive.
#[verifier::ext_equal]
pub struct ExtractOpView {
    pub name: Seq<char>,
    pub target: FsPathView,
    pub is_dir: bool,
}

/// What is unpacked, and where it goes.
#[verifier::ext_equal]
pub struct ExtractPlanView {
    pub archive: FsPathView,
    pub dest_dir: FsPathView,
    pub ops: Seq<ExtractOpView>,
    pub total_bytes: u64,
}

impl ExtractOp {
    pub open spec fn view(&self) -> ExtractOpView {
        ExtractOpView { name: self.name@, target: self.target@, is_dir: self.is_dir }
    }
}

impl ExtractPlan {
    pub open spec fn view(&self) -> ExtractPlanView {
        ExtractPlanView {
            archive: self.archive@,
            dest_dir: self.dest_dir@,
            ops: self.ops@.map_values(|op: ExtractOp| op@),
            total_bytes: self.total_bytes,
        }
    }
}

/// What a report says of the entries that were unpacked.
pub open spec fn extract_report_view(results: Seq<OpResult<ExtractOp>>) -> Seq<
    (ExtractOpView, OpOutcomeView),
> {
    results.map_values(|result: OpResult<ExtractOp>| (result.op@, result.outcome@))
}

/// Why nothing can be unpacked into a pane now.
pub open spec fn extract_rejection(pane: TransferPaneState, globally_busy: bool) -> Option<
    Seq<char>,
> {
    if globally_busy {
        Some("Another save, transfer, or import is in progress"@)
    } else if pane.offline {
        Some("Cannot extract into an offline or unreachable pane"@)
    } else if pane.crashed {
        Some("Cannot extract into a pane that has stopped"@)
    } else if pane.dirty {
        Some("Cannot extract into a pane being edited. Save or discard changes first."@)
    } else if !pane.idle {
        Some("Cannot extract into a pane that is saving"@)
    } else {
        None
    }
}

/// Why nothing can be unpacked into a pane now.
pub fn start_rejection(pane: TransferPaneState, globally_busy: bool) -> (r: Option<&'static str>)
    ensures
        optional_text(r) == extract_rejection(pane, globally_busy),
{
    if globally_busy {
        Some("Another save, transfer, or import is in progress")
    } else if pane.offline {
        Some("Cannot extract into an offline or unreachable pane")
    } else if pane.crashed {
        Some("Cannot extract into a pane that has stopped")
    } else if pane.dirty {
        Some("Cannot extract into a pane being edited. Save or discard changes first.")
    } else if !pane.idle {
        Some("Cannot extract into a pane that is saving")
    } else {
        None
    }
}

/// The line that asks whether to unpack, with the size in megabytes in the words
/// `megabytes`.
pub open spec fn confirm_line(plan: ExtractPlanView, megabytes: Seq<char>) -> Seq<char> {
    "EXTRACT "@ + plan.archive.text + " → "@ + plan.dest_dir.text + "/ ("@ + decimal(
        plan.ops.len(),
    ) + (if plan.ops.len() == 1 {
        " entry, ~"@
    } else {
        " entries, ~"@
    }) + megabytes + " MB)"@
}

/// The lines that ask whether to unpack, with the size in megabytes in the words
/// `megabytes`.
pub fn confirm_lines(plan: &ExtractPlan, megabytes: &str) -> (r: Vec<String>)
    ensures
        texts(r@) == seq![confirm_line(plan@, megabytes@)],
{
    let mut line = "EXTRACT ".to_owned();
    line.append(plan.archive.text.as_str());
    line.append(" → ");
    line.append(plan.dest_dir.text.as_str());
    line.append("/ (");
    line.append(decimal_text(plan.ops.len() as u64).as_str());
    if plan.ops.len() == 1 {
        line.append(" entry, ~");
    } else {
        line.append(" entries, ~");
    }
    line.append(megabytes);
    line.append(" MB)");
    assert(line@ =~= confirm_line(plan@, megabytes@));
    let mut lines: Vec<String> = Vec::new();
    lines.push(line);
    assert(texts(lines@) =~= seq![confirm_line(plan@, megabytes@)]);
    lines
}

/// The lines of a report.
pub open spec fn extract_lines(results: Seq<OpResult<ExtractOp>>) -> Seq<Seq<char>> {
    results.map_values(
        |result: OpResult<ExtractOp>|
            outcome_line("EXTRACT "@ + result.op.name@, result.outcome),
    )
}

/// The lines of a report, and whether something failed.
pub fn report_lines(report: &CommitReport<ExtractOp>) -> (r: (Vec<String>, bool))
    ensures
        texts(r.0@) == extract_lines(report.results@),
        r.1 == some_failed(report.results@),
{
    let ghost all = extract_lines(report.results@);
    let mut lines: Vec<String> = Vec::new();
    let mut i: usize = 0;
    while i < report.results.len()
        invariant
            i <= report.results@.len(),
            all == extract_lines(report.results@),
            lines@.len() == i,
            forall|j: int| 0 <= j < i ==> (#[trigger] lines@[j])@ == all[j],
        decreases report.results@.len() - i,
    {
        let result = &report.results[i];
        let label = "EXTRACT ".to_owned().concat(result.op.name.as_str());
        lines.push(outcome_label(label.as_str(), &result.outcome));
        i = i + 1;
    }
    assert(texts(lines@) =~= all);
    (lines, report.any_failed())
}

/// Where unpacking stands.
#[derive(Debug)]
pub enum ExtractState {
    Idle,
    Awaiting { pane: PaneId, plan: ExtractPlan },
    Running { pane: PaneId, cancel: CancelToken, cancelled: bool },
}

/// Where unpacking stands.
#[verifier::ext_equal]
pub enum ExtractStateView {
    Idle,
    Awaiting { pane: PaneId, plan: ExtractPlanView },
    Running { pane: PaneId, cancel: CancelToken, cancelled: bool },
}

impl ExtractState {
    pub open spec fn view(&self) -> ExtractStateView {
        match self {
            ExtractState::Idle => ExtractStateView::Idle,
            ExtractState::Awaiting { pane, plan } => ExtractStateView::Awaiting {
                pane: *pane,
                plan: plan@,
            },
            ExtractState::Running { pane, cancel, cancelled } => ExtractStateView::Running {
                pane: *pane,
                cancel: *cancel,
                cancelled: *cancelled,
            },
        }
    }
}

/// What a step of unpacking asks of its surroundings.
#[derive(Debug)]
pub enum ExtractFlowResult {
    StartApply { pane: PaneId, plan: ExtractPlan, cancel: CancelToken },
    Cancelled,
    CancelRequested,
    Finished { pane: PaneId, report: CommitReport<ExtractOp> },
    Ignored,
}

/// What a step of unpacking asks of its surroundings.
#[verifier::ext_equal]
pub enum ExtractFlowView {
    StartApply { pane: PaneId, plan: ExtractPlanView, cancel: CancelToken },
    Cancelled,
    CancelRequested,
    Finished { pane: PaneId, report: Seq<(ExtractOpView, OpOutcomeView)> },
    Ignored,
}

impl ExtractFlowResult {
    pub open spec fn view(&self) -> ExtractFlowView {
        match self {
            ExtractFlowResult::StartApply { pane, plan, cancel } => ExtractFlowView::StartApply {
                pane: *pane,
                plan: plan@,
                cancel: *cancel,
            },
            ExtractFlowResult::Cancelled => ExtractFlowView::Cancelled,
            ExtractFlowResult::CancelRequested => ExtractFlowView::CancelRequested,
            ExtractFlowResult::Finished { pane, report } => ExtractFlowView::Finished {
                pane: *pane,
                report: extract_report_view(report.results@),
            },
            ExtractFlowResult::Ignored => ExtractFlowView::Ignored,
        }
    }
}

/// What a user's word leads to; a worker that it starts is stopped by `token`.
pub open spec fn extract_choice(
    state: ExtractStateView,
    choice: ConfirmChoice,
    token: CancelToken,
) -> (ExtractStateView, ExtractFlowView) {
    match state {
        ExtractStateView::Running { pane, cancel, .. } => if choice is Cancel {
            (
                ExtractStateView::Running { pane, cancel, cancelled: true },
                ExtractFlowView::CancelRequested,
            )
        } else {
            (state, ExtractFlowView::Ignored)
        },
        ExtractStateView::Awaiting { pane, plan } => if choice is Cancel {
            (ExtractStateView::Idle, ExtractFlowView::Cancelled)
        } else {
            (
                ExtractStateView::Running { pane, cancel: token, cancelled: false },
                ExtractFlowView::StartApply { pane, plan, cancel: token },
            )
        },
        ExtractStateView::Idle => (state, ExtractFlowView::Ignored),
    }
}

/// What the end of the worker leads to.
pub open spec fn extract_finished(
    state: ExtractStateView,
    results: Seq<OpResult<ExtractOp>>,
) -> (ExtractStateView, ExtractFlowView) {
    (
        ExtractStateView::Idle,
        match state {
            ExtractStateView::Running { pane, .. } => ExtractFlowView::Finished {
                pane,
                report: extract_report_view(results),
            },
            _ => ExtractFlowView::Ignored,
        },
    )
}

/// Unpacking one archive at a time, from the question to the report.
#[derive(Debug)]
pub struct ExtractController {
    state: ExtractState,
}

impl ExtractController {
    /// Where unpacking stands.
    pub closed spec fn view(&self) -> ExtractStateView {
        self.state@
    }

    /// Nothing is unpacked.
    pub fn new() -> (r: ExtractController)
        ensures
            r@ == ExtractStateView::Idle,
    {
        ExtractController { state: ExtractState::Idle }
    }

    /// Waits for a user's word.
    pub fn begin(&mut self, pane: PaneId, plan: ExtractPlan)
        ensures
            final(self)@ == (ExtractStateView::Awaiting { pane, plan: plan@ }),
    {
        self.state = ExtractState::Awaiting { pane, plan };
    }

    /// Takes a user's word; a worker that it starts is stopped by `token`.
    pub fn on_choice(&mut self, choice: ConfirmChoice, token: CancelToken) -> (r: ExtractFlowResult)
        ensures
            (final(self)@, r@) == extract_choice(old(self)@, choice, token),
    {
        let cancelling = choice == ConfirmChoice::Cancel;
        let mut state = ExtractState::Idle;
        std::mem::swap(&mut state, &mut self.state);
        match state {
            ExtractState::Running { pane, cancel, cancelled } => {
                self.state =
                ExtractState::Running { pane, cancel, cancelled: cancelled || cancelling };
                if cancelling {
                    ExtractFlowResult::CancelRequested
                } else {
                    ExtractFlowResult::Ignored
                }
            },
            ExtractState::Awaiting { pane, plan } => {
                if cancelling {
                    return ExtractFlowResult::Cancelled;
                }
                self.state = ExtractState::Running { pane, cancel: token, cancelled: false };
                ExtractFlowResult::StartApply { pane, plan, cancel: token }
            },
            ExtractState::Idle => ExtractFlowResult::Ignored,
        }
    }

    /// Takes what came of the worker.
    pub fn on_finished(&mut self, report: CommitReport<ExtractOp>) -> (r: ExtractFlowResult)
        ensures
            (final(self)@, r@) == extract_finished(old(self)@, report.results@),
    {
        let mut state = ExtractState::Idle;
        std::mem::swap(&mut state, &mut self.state);
        match state {
            ExtractState::Running { pane, .. } => ExtractFlowResult::Finished { pane, report },
            _ => ExtractFlowResult::Ignored,
        }
    }

    /// Forgets what waits for a user's word and has to do with a pane, and says
    /// whether there was anything.
    pub fn invalidate_if_involves(&mut self, pane: PaneId) -> (r: bool)
        ensures
            r == (old(self)@ matches ExtractStateView::Awaiting { pane: other, .. } && other
                == pane),
            final(self)@ == (if r {
                ExtractStateView::Idle
            } else {
                old(self)@
            }),
    {
        let involved = match &self.state {
            ExtractState::Awaiting { pane: other, .. } => *other == pane,
            _ => false,
        };
        if involved {
            self.state = ExtractState::Idle;
        }
        involved
    }

    /// Whether something waits for a user's word.
    pub fn is_awaiting(&self) -> (r: bool)
        ensures
            r == (self@ is Awaiting),
    {
        match &self.state {
            ExtractState::Awaiting { .. } => true,
            _ => false,
        }
    }

    /// Whether a worker is running.
    pub fn is_running(&self) -> (r: bool)
        ensures
            r == (self@ is Running),
    {
        match &self.state {
            ExtractState::Running { .. } => true,
            _ => false,
        }
    }

    /// Whether the running worker was asked to stop.
    pub fn cancel_requested(&self) -> (r: bool)
        ensures
            r == (self@ matches ExtractStateView::Running { cancelled, .. } && cancelled),
    {
        match &self.state {
            ExtractState::Running { cancelled, .. } => *cancelled,
            _ => false,
        }
    }
}

/// What is unpacked is what a user was asked about.
pub proof fn approved_extraction_is_the_one_asked_about(
    pane: PaneId,
    plan: ExtractPlanView,
    token: CancelToken,
)
    ensures
        extract_choice(
            ExtractStateView::Awaiting { pane, plan },
            ConfirmChoice::Approve,
            token,
        ).1 == (ExtractFlowView::StartApply { pane, plan, cancel: token }),
{
}

} // verus!
