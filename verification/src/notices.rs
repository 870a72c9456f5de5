//! What a user is told and shown after a step of saving or undoing.

use vstd::prelude::*;

use crate::plan::{
    errors_view, report_view, FsOperation, FsOperationView, OperationPlan, ValidateError,
    ValidateErrorView,
};
use crate::report::{some_failed, CommitReport, OpOutcomeView};
use crate::save_result::SaveFlowResult;
use crate::text::{join_texts, joined_texts, texts};
use crate::tree::{paths_view, TreePath};
use crate::undo::{UndoTransaction, UndoTransactionView};
use crate::undo_format::{plan_lines, report_lines, undo_plan_lines, undo_report_lines};
use crate::warnings::{warnings_view, PlanWarning, PlanWarningView};

verus! {

/// How much a message matters.
#[derive(Debug, Clone, Copy, PartialEq, Eq, Structural)]
pub enum MessageKind {
    Info,
    Warn,
    Error,
}

/// A message for a user.
#[derive(Debug, PartialEq, Eq)]
pub struct Message {
    pub kind: MessageKind,
    pub text: String,
}

/// A message for a user.
#[verifier::ext_equal]
pub struct MessageView {
    pub kind: MessageKind,
    pub text: Seq<char>,
}

impl Message {
    pub open spec fn view(&self) -> MessageView {
        MessageView { kind: self.kind, text: self.text@ }
    }

    /// A message for a user.
    pub fn new(kind: MessageKind, text: &str) -> (r: Message)
        ensures
            r@ == message(kind, text@),
    {
        Message { kind, text: text.to_owned() }
    }
}

/// A message for a user.
pub open spec fn message(kind: MessageKind, text: Seq<char>) -> MessageView {
    MessageView { kind, text }
}

/// A message that there may be.
pub open spec fn told_view(r: Option<Message>) -> Option<MessageView> {
    match r {
        Some(message) => Some(message@),
        None => None,
    }
}

/// What came of something that was tried.
pub open spec fn tried(done: Result<(), String>) -> Result<(), Seq<char>> {
    match done {
        Ok(_) => Ok(()),
        Err(error) => Err(error@),
    }
}

/// What a user is told of something that was tried: nothing where it was done, and where
/// it was not, `words` and the reason.
pub open spec fn told_of(
    kind: MessageKind,
    words: Seq<char>,
    done: Result<(), Seq<char>>,
) -> Option<MessageView> {
    match done {
        Ok(_) => None,
        Err(error) => Some(message(kind, words + error)),
    }
}

/// What a user is told of something that was tried.
pub fn tell_of(kind: MessageKind, words: &str, done: Result<(), String>) -> (r: Option<Message>)
    ensures
        told_view(r) == told_of(kind, words@, tried(done)),
{
    match done {
        Ok(_) => None,
        Err(error) => {
            let text = words.to_owned().concat(error.as_str());
            Some(Message::new(kind, text.as_str()))
        },
    }
}

/// Something that a user is shown or told.
#[derive(Debug, PartialEq, Eq)]
pub enum SaveNotice {
    ShowPlan { plan: OperationPlan, warnings: Vec<PlanWarning>, overwrites: Vec<TreePath> },
    ShowValidationErrors(Vec<ValidateError>),
    ShowReport(CommitReport<FsOperation>),
    ShowUndoPlan { lines: Vec<String> },
    ShowUndoReport { lines: Vec<String>, any_failed: bool },
    CloseDialog,
    Tell(Message),
}

/// Something that a user is shown or told.
#[verifier::ext_equal]
pub enum SaveNoticeView {
    ShowPlan {
        plan: Seq<FsOperationView>,
        warnings: Seq<PlanWarningView>,
        overwrites: Seq<Seq<Seq<char>>>,
    },
    ShowValidationErrors(Seq<ValidateErrorView>),
    ShowReport(Seq<(FsOperationView, OpOutcomeView)>),
    ShowUndoPlan { lines: Seq<Seq<char>> },
    ShowUndoReport { lines: Seq<Seq<char>>, any_failed: bool },
    CloseDialog,
    Tell(MessageView),
}

impl SaveNotice {
    pub open spec fn view(&self) -> SaveNoticeView {
        match self {
            SaveNotice::ShowPlan { plan, warnings, overwrites } => SaveNoticeView::ShowPlan {
                plan: plan@,
                warnings: warnings_view(warnings@),
                overwrites: paths_view(overwrites@),
            },
            SaveNotice::ShowValidationErrors(errors) => SaveNoticeView::ShowValidationErrors(
                errors_view(errors@),
            ),
            SaveNotice::ShowReport(report) => SaveNoticeView::ShowReport(
                report_view(report.results@),
            ),
            SaveNotice::ShowUndoPlan { lines } => SaveNoticeView::ShowUndoPlan {
                lines: texts(lines@),
            },
            SaveNotice::ShowUndoReport { lines, any_failed } => SaveNoticeView::ShowUndoReport {
                lines: texts(lines@),
                any_failed: *any_failed,
            },
            SaveNotice::CloseDialog => SaveNoticeView::CloseDialog,
            SaveNotice::Tell(message) => SaveNoticeView::Tell(message@),
        }
    }
}

/// What a user is shown and told, in order.
pub open spec fn notices_view(notices: Seq<SaveNotice>) -> Seq<SaveNoticeView> {
    notices.map_values(|notice: SaveNotice| notice@)
}

/// A user is told something.
pub open spec fn told(kind: MessageKind, text: Seq<char>) -> SaveNoticeView {
    SaveNoticeView::Tell(message(kind, text))
}

/// What a user is told where nothing can be undone.
pub open spec fn nothing_left_text(reasons: Seq<Seq<char>>) -> Seq<char> {
    if reasons.len() == 0 {
        "No operations are available to undo"@
    } else {
        "No operations are available to undo: "@ + joined_texts(reasons, " / "@)
    }
}

/// What a user is shown and told after a step, in order. What a user's approval
/// starts is no matter of notices.
pub open spec fn save_notices(result: SaveFlowResult) -> Seq<SaveNoticeView> {
    match result {
        SaveFlowResult::ShowPlan { plan, warnings, overwrites } => seq![
            SaveNoticeView::ShowPlan {
                plan: plan@,
                warnings: warnings_view(warnings@),
                overwrites: paths_view(overwrites@),
            },
        ],
        SaveFlowResult::ShowValidationErrors(errors) => seq![
            SaveNoticeView::ShowValidationErrors(errors_view(errors@)),
        ],
        SaveFlowResult::ShowReport(report) => seq![
            SaveNoticeView::ShowReport(report_view(report.results@)),
        ],
        SaveFlowResult::ShowUndoPlan { transaction, statuses } => seq![
            SaveNoticeView::ShowUndoPlan { lines: plan_lines(transaction.steps@, statuses@) },
        ],
        SaveFlowResult::UndoNothingLeft { reasons } => seq![
            told(MessageKind::Info, nothing_left_text(texts(reasons@))),
        ],
        SaveFlowResult::ShowUndoReport(report) => seq![
            SaveNoticeView::ShowUndoReport {
                lines: report_lines(report.results@),
                any_failed: some_failed(report.results@),
            },
        ],
        SaveFlowResult::UndoReconcileFailed { report, error } => seq![
            SaveNoticeView::ShowUndoReport {
                lines: report_lines(report.results@),
                any_failed: some_failed(report.results@),
            },
            told(
                MessageKind::Warn,
                "The folder became offline or unreachable after undo. Reconnect and it will refresh automatically. ("@
                    + error@ + ")"@,
            ),
        ],
        SaveFlowResult::ReconcileFailed { report, error } => seq![
            SaveNoticeView::ShowReport(report_view(report.results@)),
            told(
                MessageKind::Warn,
                "The folder became offline or unreachable after the operation. Reconnect and it will refresh automatically. ("@
                    + error@ + ")"@,
            ),
        ],
        SaveFlowResult::ExternalChanged => Seq::empty(),
        SaveFlowResult::ExternalChangeNotified(text) => seq![told(MessageKind::Info, text@)],
        SaveFlowResult::ExternalChangeFailed(text) => seq![told(MessageKind::Error, text@)],
        SaveFlowResult::WentOffline(text) => seq![
            told(
                MessageKind::Warn,
                "The folder is offline or unreachable. Reconnect and it will refresh automatically. ("@
                    + text@ + ")"@,
            ),
        ],
        SaveFlowResult::Reconnected(text) => seq![told(MessageKind::Info, text@)],
        SaveFlowResult::OfflineRejected(text) => seq![told(MessageKind::Info, text@)],
        SaveFlowResult::PlanInvalidated(text) => seq![
            SaveNoticeView::CloseDialog,
            told(MessageKind::Warn, text@),
        ],
        SaveFlowResult::UndoInvalidated { message, .. } => seq![
            SaveNoticeView::CloseDialog,
            told(MessageKind::Warn, message@),
        ],
        SaveFlowResult::NoChanges => seq![told(MessageKind::Info, "No changes"@)],
        SaveFlowResult::Cancelled => seq![SaveNoticeView::CloseDialog],
        SaveFlowResult::UndoCancelled { .. } => seq![SaveNoticeView::CloseDialog],
        SaveFlowResult::StartApply { .. } => Seq::empty(),
        SaveFlowResult::StartUndo { .. } => Seq::empty(),
        SaveFlowResult::ApplyCancelRequested => Seq::empty(),
        SaveFlowResult::Ignored => Seq::empty(),
    }
}

/// A notice alone.
fn only(notice: SaveNotice) -> (r: Vec<SaveNotice>)
    ensures
        notices_view(r@) == seq![notice@],
{
    let mut notices: Vec<SaveNotice> = Vec::new();
    notices.push(notice);
    assert(notices_view(notices@) =~= seq![notice@]);
    notices
}

/// A notice and another one.
fn both(first: SaveNotice, second: SaveNotice) -> (r: Vec<SaveNotice>)
    ensures
        notices_view(r@) == seq![first@, second@],
{
    let mut notices: Vec<SaveNotice> = Vec::new();
    notices.push(first);
    notices.push(second);
    assert(notices_view(notices@) =~= seq![first@, second@]);
    notices
}

/// A user is told something.
fn tell(kind: MessageKind, text: String) -> (r: SaveNotice)
    ensures
        r@ == told(kind, text@),
{
    SaveNotice::Tell(Message { kind, text })
}

/// What a user is shown and told after a step, in order.
pub fn send_save_result(result: SaveFlowResult) -> (r: Vec<SaveNotice>)
    ensures
        notices_view(r@) == save_notices(result),
{
    match result {
        SaveFlowResult::ShowPlan { plan, warnings, overwrites } => only(
            SaveNotice::ShowPlan { plan, warnings, overwrites },
        ),
        SaveFlowResult::ShowValidationErrors(errors) => only(
            SaveNotice::ShowValidationErrors(errors),
        ),
        SaveFlowResult::ShowReport(report) => only(SaveNotice::ShowReport(report)),
        SaveFlowResult::ShowUndoPlan { transaction, statuses } => only(
            SaveNotice::ShowUndoPlan { lines: undo_plan_lines(&transaction, &statuses) },
        ),
        SaveFlowResult::UndoNothingLeft { reasons } => {
            let text = if reasons.len() == 0 {
                "No operations are available to undo".to_owned()
            } else {
                "No operations are available to undo: ".to_owned().concat(
                    join_texts(&reasons, " / ").as_str(),
                )
            };
            only(tell(MessageKind::Info, text))
        },
        SaveFlowResult::ShowUndoReport(report) => {
            let (lines, any_failed) = undo_report_lines(&report);
            only(SaveNotice::ShowUndoReport { lines, any_failed })
        },
        SaveFlowResult::UndoReconcileFailed { report, error } => {
            let (lines, any_failed) = undo_report_lines(&report);
            let text =
                "The folder became offline or unreachable after undo. Reconnect and it will refresh automatically. (".to_owned().concat(
                error.as_str(),
            ).concat(")");
            both(
                SaveNotice::ShowUndoReport { lines, any_failed },
                tell(MessageKind::Warn, text),
            )
        },
        SaveFlowResult::ReconcileFailed { report, error } => {
            let text =
                "The folder became offline or unreachable after the operation. Reconnect and it will refresh automatically. (".to_owned().concat(
                error.as_str(),
            ).concat(")");
            both(SaveNotice::ShowReport(report), tell(MessageKind::Warn, text))
        },
        SaveFlowResult::ExternalChangeNotified(text) => only(tell(MessageKind::Info, text)),
        SaveFlowResult::ExternalChangeFailed(text) => only(tell(MessageKind::Error, text)),
        SaveFlowResult::WentOffline(text) => {
            let text =
                "The folder is offline or unreachable. Reconnect and it will refresh automatically. (".to_owned().concat(
                text.as_str(),
            ).concat(")");
            only(tell(MessageKind::Warn, text))
        },
        SaveFlowResult::Reconnected(text) => only(tell(MessageKind::Info, text)),
        SaveFlowResult::OfflineRejected(text) => only(tell(MessageKind::Info, text)),
        SaveFlowResult::PlanInvalidated(text) => both(
            SaveNotice::CloseDialog,
            tell(MessageKind::Warn, text),
        ),
        SaveFlowResult::UndoInvalidated { message, .. } => both(
            SaveNotice::CloseDialog,
            tell(MessageKind::Warn, message),
        ),
        SaveFlowResult::NoChanges => only(tell(MessageKind::Info, "No changes".to_owned())),
        SaveFlowResult::Cancelled => only(SaveNotice::CloseDialog),
        SaveFlowResult::UndoCancelled { .. } => only(SaveNotice::CloseDialog),
        _ => {
            let notices: Vec<SaveNotice> = Vec::new();
            assert(notices_view(notices@) =~= Seq::empty());
            notices
        },
    }
}

/// What a change from outside means for the window: whether a question went
/// stale, and the transaction that can be undone later.
#[derive(Debug, PartialEq, Eq)]
pub struct ExternalChangeOutcome {
    pub invalidated_dialog: bool,
    pub undo_transaction: Option<UndoTransaction>,
}

/// A transaction that may be missing.
pub open spec fn transaction_view(transaction: Option<UndoTransaction>) -> Option<
    UndoTransactionView,
> {
    match transaction {
        Some(transaction) => Some(transaction@),
        None => None,
    }
}

/// What a change from outside means for the window, and what a user is shown and
/// told. Where nothing changed a user is told nothing.
pub fn external_change_notices(result: SaveFlowResult) -> (r: (
    ExternalChangeOutcome,
    Vec<SaveNotice>,
))
    ensures
        r.0.invalidated_dialog == (result is PlanInvalidated || result is UndoInvalidated),
        transaction_view(r.0.undo_transaction) == (match result {
            SaveFlowResult::UndoInvalidated { transaction, .. } => Some(transaction@),
            _ => None,
        }),
        notices_view(r.1@) == (if result is NoChanges {
            Seq::empty()
        } else {
            save_notices(result)
        }),
{
    let invalidated_dialog = match &result {
        SaveFlowResult::PlanInvalidated(_) => true,
        SaveFlowResult::UndoInvalidated { .. } => true,
        _ => false,
    };
    let undo_transaction = match &result {
        SaveFlowResult::UndoInvalidated { transaction, .. } => Some(transaction.copy()),
        _ => None,
    };
    let outcome = ExternalChangeOutcome { invalidated_dialog, undo_transaction };
    match result {
        SaveFlowResult::NoChanges => {
            let notices: Vec<SaveNotice> = Vec::new();
            assert(notices_view(notices@) =~= Seq::empty());
            (outcome, notices)
        },
        result => (outcome, send_save_result(result)),
    }
}

/// A question that went stale is closed before a user is told why.
pub proof fn stale_questions_are_closed_first(result: SaveFlowResult)
    requires
        result is PlanInvalidated || result is UndoInvalidated,
    ensures
        save_notices(result).len() == 2,
        save_notices(result)[0] is CloseDialog,
        save_notices(result)[1] matches SaveNoticeView::Tell(told) && told.kind
            == MessageKind::Warn,
{
}

} // verus!
