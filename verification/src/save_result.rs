//! What a step of saving or undoing asks of its surroundings.

use vstd::prelude::*;

use crate::plan::{
    errors_view, report_view, same_errors, same_report, FsOperation, FsOperationView,
    OperationPlan, ValidateError, ValidateErrorView,
};
use crate::report::{CommitReport, OpOutcomeView};
use crate::text::{same_texts, texts};
use crate::tree::{contains_path, paths_view, TreePath};
use crate::undo::{
    same_statuses, same_undo_report, statuses_view, undo_report_view, UndoStep, UndoStepStatus,
    UndoStepStatusView, UndoStepView, UndoTransaction, UndoTransactionView,
};
use crate::warnings::{same_warnings, warnings_view, PlanWarning, PlanWarningView};

verus! {

/// The name of a flag by which a running worker is asked to stop.
#[derive(Debug, Clone, Copy, PartialEq, Eq, Structural)]
pub struct CancelToken(pub u64);

/// What a step of saving or undoing asks of its surroundings.
#[derive(Debug)]
#[allow(inconsistent_fields)]
pub enum SaveFlowResult {
    /// Shows a plan, what to know before it is done, and what it overwrites.
    ShowPlan { plan: OperationPlan, warnings: Vec<PlanWarning>, overwrites: Vec<TreePath> },
    /// Does a plan that was approved, with leave to overwrite these entries.
    StartApply { plan: OperationPlan, overwrites: Vec<TreePath>, cancel: CancelToken },
    /// Shows what an undo will do, and what stands against each step.
    ShowUndoPlan { transaction: UndoTransaction, statuses: Vec<UndoStepStatus> },
    /// No step of an undo can be done.
    UndoNothingLeft { reasons: Vec<String> },
    /// Does an undo that was approved.
    StartUndo { transaction: UndoTransaction, cancel: CancelToken },
    /// Asks the running worker to stop between two operations.
    ApplyCancelRequested,
    /// An undo was declined; the transaction can be undone later.
    UndoCancelled { transaction: UndoTransaction },
    /// An undo went stale before it was approved; the transaction can be undone
    /// later.
    UndoInvalidated { transaction: UndoTransaction, message: String },
    ShowValidationErrors(Vec<ValidateError>),
    ShowReport(CommitReport<FsOperation>),
    ShowUndoReport(CommitReport<UndoStep>),
    /// A plan was done, but the tree could not be read again.
    ReconcileFailed { report: CommitReport<FsOperation>, error: String },
    /// An undo was done, but the tree could not be read again.
    UndoReconcileFailed { report: CommitReport<UndoStep>, error: String },
    ExternalChanged,
    ExternalChangeNotified(String),
    ExternalChangeFailed(String),
    /// A plan went stale before it was approved.
    PlanInvalidated(String),
    WentOffline(String),
    Reconnected(String),
    OfflineRejected(String),
    NoChanges,
    Cancelled,
    Ignored,
}

/// What a step of saving or undoing asks of its surroundings.
#[verifier::ext_equal]
#[allow(inconsistent_fields)]
pub enum SaveFlowView {
    ShowPlan {
        plan: Seq<FsOperationView>,
        warnings: Seq<PlanWarningView>,
        overwrites: Seq<Seq<Seq<char>>>,
    },
    StartApply {
        plan: Seq<FsOperationView>,
        overwrites: Set<Seq<Seq<char>>>,
        cancel: CancelToken,
    },
    ShowUndoPlan { transaction: UndoTransactionView, statuses: Seq<UndoStepStatusView> },
    UndoNothingLeft { reasons: Seq<Seq<char>> },
    StartUndo { transaction: UndoTransactionView, cancel: CancelToken },
    ApplyCancelRequested,
    UndoCancelled { transaction: UndoTransactionView },
    UndoInvalidated { transaction: UndoTransactionView, message: Seq<char> },
    ShowValidationErrors(Seq<ValidateErrorView>),
    ShowReport(Seq<(FsOperationView, OpOutcomeView)>),
    ShowUndoReport(Seq<(UndoStepView, OpOutcomeView)>),
    ReconcileFailed { report: Seq<(FsOperationView, OpOutcomeView)>, error: Seq<char> },
    UndoReconcileFailed { report: Seq<(UndoStepView, OpOutcomeView)>, error: Seq<char> },
    ExternalChanged,
    ExternalChangeNotified(Seq<char>),
    ExternalChangeFailed(Seq<char>),
    PlanInvalidated(Seq<char>),
    WentOffline(Seq<char>),
    Reconnected(Seq<char>),
    OfflineRejected(Seq<char>),
    NoChanges,
    Cancelled,
    Ignored,
}

/// Paths without regard to their order and number.
pub open spec fn path_set(paths: Seq<TreePath>) -> Set<Seq<Seq<char>>> {
    paths_view(paths).to_set()
}

/// Whether each path of the first list is in the second.
fn all_among(paths: &Vec<TreePath>, others: &Vec<TreePath>) -> (r: bool)
    ensures
        r == path_set(paths@).subset_of(path_set(others@)),
{
    let ghost mine = paths_view(paths@);
    let ghost theirs = paths_view(others@);
    let mut i: usize = 0;
    while i < paths.len()
        invariant
            i <= paths@.len(),
            mine == paths_view(paths@),
            theirs == paths_view(others@),
            forall|j: int| 0 <= j < i ==> theirs.contains(#[trigger] mine[j]),
        decreases paths@.len() - i,
    {
        assert(mine[i as int] == paths@[i as int]@);
        if !contains_path(others, &paths[i]) {
            assert(path_set(paths@).contains(mine[i as int]));
            assert(!path_set(others@).contains(mine[i as int]));
            return false;
        }
        i = i + 1;
    }
    true
}

/// Whether two lists hold the same paths, whatever their order and number.
pub fn same_path_set(a: &Vec<TreePath>, b: &Vec<TreePath>) -> (r: bool)
    ensures
        r == (path_set(a@) == path_set(b@)),
{
    let same = all_among(a, b) && all_among(b, a);
    proof {
        if same {
            assert(path_set(a@) =~= path_set(b@));
        }
    }
    same
}

/// Whether two lists hold the same paths in the same order.
pub fn same_paths(a: &Vec<TreePath>, b: &Vec<TreePath>) -> (r: bool)
    ensures
        r == (paths_view(a@) == paths_view(b@)),
{
    let ghost mine = paths_view(a@);
    let ghost theirs = paths_view(b@);
    if a.len() != b.len() {
        assert(mine.len() != theirs.len());
        return false;
    }
    let mut i: usize = 0;
    while i < a.len()
        invariant
            i <= a@.len() == b@.len(),
            mine == paths_view(a@),
            theirs == paths_view(b@),
            forall|j: int| 0 <= j < i ==> #[trigger] mine[j] == theirs[j],
        decreases a@.len() - i,
    {
        if !a[i].same(&b[i]) {
            assert(mine[i as int] != theirs[i as int]);
            return false;
        }
        assert(mine[i as int] == theirs[i as int]);
        i = i + 1;
    }
    assert(mine =~= theirs);
    true
}

impl SaveFlowResult {
    pub open spec fn view(&self) -> SaveFlowView {
        match self {
            SaveFlowResult::ShowPlan { plan, warnings, overwrites } => SaveFlowView::ShowPlan {
                plan: plan@,
                warnings: warnings_view(warnings@),
                overwrites: paths_view(overwrites@),
            },
            SaveFlowResult::StartApply { plan, overwrites, cancel } => SaveFlowView::StartApply {
                plan: plan@,
                overwrites: path_set(overwrites@),
                cancel: *cancel,
            },
            SaveFlowResult::ShowUndoPlan { transaction, statuses } => SaveFlowView::ShowUndoPlan {
                transaction: transaction@,
                statuses: statuses_view(statuses@),
            },
            SaveFlowResult::UndoNothingLeft { reasons } => SaveFlowView::UndoNothingLeft {
                reasons: texts(reasons@),
            },
            SaveFlowResult::StartUndo { transaction, cancel } => SaveFlowView::StartUndo {
                transaction: transaction@,
                cancel: *cancel,
            },
            SaveFlowResult::ApplyCancelRequested => SaveFlowView::ApplyCancelRequested,
            SaveFlowResult::UndoCancelled { transaction } => SaveFlowView::UndoCancelled {
                transaction: transaction@,
            },
            SaveFlowResult::UndoInvalidated { transaction, message } =>
                SaveFlowView::UndoInvalidated { transaction: transaction@, message: message@ },
            SaveFlowResult::ShowValidationErrors(errors) => SaveFlowView::ShowValidationErrors(
                errors_view(errors@),
            ),
            SaveFlowResult::ShowReport(report) => SaveFlowView::ShowReport(
                report_view(report.results@),
            ),
            SaveFlowResult::ShowUndoReport(report) => SaveFlowView::ShowUndoReport(
                undo_report_view(report.results@),
            ),
            SaveFlowResult::ReconcileFailed { report, error } => SaveFlowView::ReconcileFailed {
                report: report_view(report.results@),
                error: error@,
            },
            SaveFlowResult::UndoReconcileFailed { report, error } =>
                SaveFlowView::UndoReconcileFailed {
                report: undo_report_view(report.results@),
                error: error@,
            },
            SaveFlowResult::ExternalChanged => SaveFlowView::ExternalChanged,
            SaveFlowResult::ExternalChangeNotified(text) =>
                SaveFlowView::ExternalChangeNotified(text@),
            SaveFlowResult::ExternalChangeFailed(text) => SaveFlowView::ExternalChangeFailed(
                text@,
            ),
            SaveFlowResult::PlanInvalidated(text) => SaveFlowView::PlanInvalidated(text@),
            SaveFlowResult::WentOffline(text) => SaveFlowView::WentOffline(text@),
            SaveFlowResult::Reconnected(text) => SaveFlowView::Reconnected(text@),
            SaveFlowResult::OfflineRejected(text) => SaveFlowView::OfflineRejected(text@),
            SaveFlowResult::NoChanges => SaveFlowView::NoChanges,
            SaveFlowResult::Cancelled => SaveFlowView::Cancelled,
            SaveFlowResult::Ignored => SaveFlowView::Ignored,
        }
    }

    /// Whether two results ask for the same. The entries that an approved plan may
    /// overwrite are compared without regard to their order.
    pub fn same(&self, other: &SaveFlowResult) -> (r: bool)
        ensures
            r == (self@ == other@),
    {
        match (self, other) {
            (
                SaveFlowResult::ShowPlan { plan, warnings, overwrites },
                SaveFlowResult::ShowPlan {
                    plan: other_plan,
                    warnings: other_warnings,
                    overwrites: other_overwrites,
                },
            ) => plan.same(other_plan) && same_warnings(warnings, other_warnings) && same_paths(
                overwrites,
                other_overwrites,
            ),
            (
                SaveFlowResult::StartApply { plan, overwrites, cancel },
                SaveFlowResult::StartApply {
                    plan: other_plan,
                    overwrites: other_overwrites,
                    cancel: other_cancel,
                },
            ) => plan.same(other_plan) && same_path_set(overwrites, other_overwrites) && *cancel
                == *other_cancel,
            (
                SaveFlowResult::ShowUndoPlan { transaction, statuses },
                SaveFlowResult::ShowUndoPlan {
                    transaction: other_transaction,
                    statuses: other_statuses,
                },
            ) => transaction.same(other_transaction) && same_statuses(statuses, other_statuses),
            (
                SaveFlowResult::UndoNothingLeft { reasons },
                SaveFlowResult::UndoNothingLeft { reasons: other_reasons },
            ) => same_texts(reasons, other_reasons),
            (
                SaveFlowResult::StartUndo { transaction, cancel },
                SaveFlowResult::StartUndo { transaction: other_transaction, cancel: other_cancel },
            ) => transaction.same(other_transaction) && *cancel == *other_cancel,
            (
                SaveFlowResult::UndoCancelled { transaction },
                SaveFlowResult::UndoCancelled { transaction: other_transaction },
            ) => transaction.same(other_transaction),
            (
                SaveFlowResult::UndoInvalidated { transaction, message },
                SaveFlowResult::UndoInvalidated {
                    transaction: other_transaction,
                    message: other_message,
                },
            ) => transaction.same(other_transaction) && *message == *other_message,
            (SaveFlowResult::ShowValidationErrors(mine), SaveFlowResult::ShowValidationErrors(
                theirs,
            )) => same_errors(mine, theirs),
            (SaveFlowResult::ShowReport(mine), SaveFlowResult::ShowReport(theirs)) => same_report(
                mine,
                theirs,
            ),
            (SaveFlowResult::ShowUndoReport(mine), SaveFlowResult::ShowUndoReport(theirs)) =>
                same_undo_report(mine, theirs),
            (
                SaveFlowResult::ReconcileFailed { report, error },
                SaveFlowResult::ReconcileFailed { report: other_report, error: other_error },
            ) => same_report(report, other_report) && *error == *other_error,
            (
                SaveFlowResult::UndoReconcileFailed { report, error },
                SaveFlowResult::UndoReconcileFailed { report: other_report, error: other_error },
            ) => same_undo_report(report, other_report) && *error == *other_error,
            (SaveFlowResult::ExternalChangeNotified(mine), SaveFlowResult::ExternalChangeNotified(
                theirs,
            )) => *mine == *theirs,
            (SaveFlowResult::ExternalChangeFailed(mine), SaveFlowResult::ExternalChangeFailed(
                theirs,
            )) => *mine == *theirs,
            (SaveFlowResult::PlanInvalidated(mine), SaveFlowResult::PlanInvalidated(theirs)) =>
                *mine == *theirs,
            (SaveFlowResult::WentOffline(mine), SaveFlowResult::WentOffline(theirs)) => *mine
                == *theirs,
            (SaveFlowResult::Reconnected(mine), SaveFlowResult::Reconnected(theirs)) => *mine
                == *theirs,
            (SaveFlowResult::OfflineRejected(mine), SaveFlowResult::OfflineRejected(theirs)) =>
                *mine == *theirs,
            (SaveFlowResult::ApplyCancelRequested, SaveFlowResult::ApplyCancelRequested) => true,
            (SaveFlowResult::ExternalChanged, SaveFlowResult::ExternalChanged) => true,
            (SaveFlowResult::NoChanges, SaveFlowResult::NoChanges) => true,
            (SaveFlowResult::Cancelled, SaveFlowResult::Cancelled) => true,
            (SaveFlowResult::Ignored, SaveFlowResult::Ignored) => true,
            _ => false,
        }
    }
}

impl PartialEq for SaveFlowResult {
    fn eq(&self, other: &SaveFlowResult) -> (r: bool) {
        self.same(other)
    }
}

impl vstd::std_specs::cmp::PartialEqSpecImpl for SaveFlowResult {
    open spec fn obeys_eq_spec() -> bool {
        true
    }

    open spec fn eq_spec(&self, other: &SaveFlowResult) -> bool {
        self@ == other@
    }
}

impl Eq for SaveFlowResult {

}

} // verus!
