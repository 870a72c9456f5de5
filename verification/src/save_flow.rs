//! Saving and undoing, one step at a time, and the folds of the tree that is
//! shown.

use std::collections::{HashMap, HashSet};

use vstd::prelude::*;

use crate::baseline::{
    entries_view, find_entry, meta_of, BaselineTree, BaselineView, EntryMeta, EntryView,
};
use crate::folding::{
    carried, carry_collapsed_dirs, collapse_dirs, dirs_above, dirs_at, dirs_within, entry_by_path,
    find_path, fold_at, folded, folds_at, toggle_at, toggled, unfold_above, FoldOp,
};
use crate::fs_path::{compared, letters, FsPath, FsPathView};
use crate::grammar::{
    after_indent, indent_levels, line_texts, prefix_of, split_dir_suffix, split_id_prefix,
    split_indent, without_suffix, EditorLine, EntryId, PrefixParse, PrefixView,
};
use crate::listing::{
    baseline_to_lines, entry_at, position, position_of, refs_view, resolve_line_entry, shown,
    shown_lines, visible_entries, visible_position_by_id,
};
use crate::options::{ScanOptions, SortKey, SortOrder};
use crate::plan::{
    errors_view, occupied_by_directory, occupied_errors, report_view, FsOperation,
    FsOperationView, OperationPlan, ValidateError, ValidateErrorView,
};
use crate::report::{some_succeeded, CommitReport, OpResult};
use crate::save_result::{CancelToken, SaveFlowResult, SaveFlowView};
use crate::save_state::{applying, SaveState, SaveStateView};
use crate::text::{same_text, texts};
use crate::tree::{paths_view, EntryKind, TreePath};
use crate::undo::{
    statuses_view, undo_report_view, UndoStep, UndoStepStatus, UndoStepStatusView,
    UndoTransaction, UndoTransactionView,
};
use crate::warnings::{
    expected_warnings, overwrites_view, overwritten_paths, paths_of, plan_warnings, Overwrite,
    OverwriteView, SourceFact,
};

verus! {

broadcast use vstd::std_specs::hash::group_hash_axioms;

/// A user's word on a question.
#[derive(Debug, Clone, Copy, PartialEq, Eq, Structural)]
pub enum ConfirmChoice {
    Approve,
    Cancel,
    /// The answer to another question: which program to open with.
    OpenWithSelected(usize),
}

/// What came of reading a tree again.
#[derive(Debug)]
pub enum ScanOutcome {
    /// The numbers of entries could not be had.
    LockPoisoned,
    Failed,
    Scanned(BaselineTree),
}

/// What came of reading a tree again.
pub enum ScanView {
    LockPoisoned,
    Failed,
    Scanned(BaselineView),
}

impl ScanOutcome {
    pub open spec fn view(&self) -> ScanView {
        match self {
            ScanOutcome::LockPoisoned => ScanView::LockPoisoned,
            ScanOutcome::Failed => ScanView::Failed,
            ScanOutcome::Scanned(baseline) => ScanView::Scanned(baseline@),
        }
    }
}

/// A tree that was read again, with its folds and the lines that show it.
#[derive(Debug)]
pub struct Reconciled {
    baseline: BaselineTree,
    collapsed: HashSet<u64>,
    lines: Vec<EditorLine>,
}

/// A tree that was read again, with its folds and the lines that show it.
#[verifier::ext_equal]
pub struct ReconciledView {
    pub baseline: BaselineView,
    pub collapsed: Set<u64>,
    pub lines: Seq<Seq<char>>,
}

impl Reconciled {
    pub closed spec fn view(&self) -> ReconciledView {
        ReconciledView {
            baseline: self.baseline@,
            collapsed: self.collapsed@,
            lines: line_texts(self.lines@),
        }
    }

    /// The lines to show.
    pub fn lines(&self) -> (r: &Vec<EditorLine>)
        ensures
            line_texts(r@) == self@.lines,
    {
        &self.lines
    }
}

/// What came of reading a tree again and showing it.
#[derive(Debug)]
pub enum ReconcileOutcome {
    /// The numbers of entries could not be had.
    LockPoisoned,
    ScanFailed,
    /// The editor did not take the lines.
    NotSent,
    Done(Reconciled),
}

/// What came of reading a tree again and showing it.
pub enum ReconcileView {
    LockPoisoned,
    ScanFailed,
    NotSent,
    Done(ReconciledView),
}

impl ReconcileOutcome {
    pub open spec fn view(&self) -> ReconcileView {
        match self {
            ReconcileOutcome::LockPoisoned => ReconcileView::LockPoisoned,
            ReconcileOutcome::ScanFailed => ReconcileView::ScanFailed,
            ReconcileOutcome::NotSent => ReconcileView::NotSent,
            ReconcileOutcome::Done(reconciled) => ReconcileView::Done(reconciled@),
        }
    }
}

/// What went wrong when a tree was read again, or the tree.
pub open spec fn reconcile_result(outcome: ReconcileView) -> Result<ReconciledView, Seq<char>> {
    match outcome {
        ReconcileView::LockPoisoned => Err("ID採番器のロックが破損しています"@),
        ReconcileView::ScanFailed => Err("実FSの再スキャンに失敗しました"@),
        ReconcileView::NotSent => Err("reconcile後のバッファ行をエンジンへ送信できません"@),
        ReconcileView::Done(reconciled) => Ok(reconciled),
    }
}

/// What went wrong when a tree was read again, or the tree.
fn reconcile_outcome(outcome: ReconcileOutcome) -> (r: Result<Reconciled, String>)
    ensures
        match r {
            Ok(reconciled) => reconcile_result(outcome@) == Ok::<ReconciledView, Seq<char>>(
                reconciled@,
            ),
            Err(error) => reconcile_result(outcome@) == Err::<ReconciledView, Seq<char>>(error@),
        },
{
    match outcome {
        ReconcileOutcome::LockPoisoned => Err("ID採番器のロックが破損しています".to_owned()),
        ReconcileOutcome::ScanFailed => Err("実FSの再スキャンに失敗しました".to_owned()),
        ReconcileOutcome::NotSent => Err(
            "reconcile後のバッファ行をエンジンへ送信できません".to_owned(),
        ),
        ReconcileOutcome::Done(reconciled) => Ok(reconciled),
    }
}

/// The operations that lead to the tree that the buffer asks for, and what the
/// file system says of them.
#[derive(Debug)]
pub struct PlannedChanges {
    pub plan: OperationPlan,
    /// What is known of the source of each operation.
    pub sources: Vec<SourceFact>,
    /// The targets where a directory stands.
    pub blocked: Vec<TreePath>,
    /// The targets that are overwritten, in the order of the plan.
    pub overwrites: Vec<Overwrite>,
}

/// What came of reading the buffer.
#[derive(Debug)]
pub enum PipelineOutcome {
    /// The lines do not describe a tree.
    Unparsed(Vec<ValidateError>),
    /// The lines describe a tree: what is wrong with it, and the operations that
    /// lead to it or why there are none.
    Parsed { errors: Vec<ValidateError>, planned: Result<PlannedChanges, Vec<ValidateError>> },
}

/// The operations that lead to the tree that the buffer asks for.
#[verifier::ext_equal]
pub struct PlannedView {
    pub plan: Seq<FsOperationView>,
    pub sources: Seq<SourceFact>,
    pub blocked: Seq<Seq<Seq<char>>>,
    pub overwrites: Seq<OverwriteView>,
}

/// What came of reading the buffer.
pub enum PipelineView {
    Unparsed(Seq<ValidateErrorView>),
    Parsed {
        errors: Seq<ValidateErrorView>,
        planned: Result<PlannedView, Seq<ValidateErrorView>>,
    },
}

impl PlannedChanges {
    pub open spec fn view(&self) -> PlannedView {
        PlannedView {
            plan: self.plan@,
            sources: self.sources@,
            blocked: paths_view(self.blocked@),
            overwrites: overwrites_view(self.overwrites@),
        }
    }
}

impl PipelineOutcome {
    pub open spec fn view(&self) -> PipelineView {
        match self {
            PipelineOutcome::Unparsed(errors) => PipelineView::Unparsed(errors_view(errors@)),
            PipelineOutcome::Parsed { errors, planned } => PipelineView::Parsed {
                errors: errors_view(errors@),
                planned: match planned {
                    Ok(planned) => Ok(planned@),
                    Err(errors) => Err(errors_view(errors@)),
                },
            },
        }
    }
}

/// The operations that a buffer asks for, or what stands against them: that the
/// lines do not describe a tree, that the tree is not allowed, that no operations
/// lead to it, or that directories stand where something is to go.
pub open spec fn agreed_changes(pipeline: PipelineView) -> Result<
    PlannedView,
    Seq<ValidateErrorView>,
> {
    match pipeline {
        PipelineView::Unparsed(errors) => Err(errors),
        PipelineView::Parsed { errors, planned } => if errors.len() > 0 {
            Err(errors)
        } else {
            match planned {
                Err(errors) => Err(errors),
                Ok(planned) => if planned.blocked.len() > 0 {
                    Err(occupied_errors(planned.blocked))
                } else {
                    Ok(planned)
                },
            }
        },
    }
}

/// The operations that a buffer asks for, or what stands against them.
fn agree(pipeline: PipelineOutcome) -> (r: Result<PlannedChanges, Vec<ValidateError>>)
    ensures
        match r {
            Ok(planned) => agreed_changes(pipeline@) == Ok::<PlannedView, Seq<ValidateErrorView>>(
                planned@,
            ),
            Err(errors) => agreed_changes(pipeline@) == Err::<PlannedView, Seq<ValidateErrorView>>(
                errors_view(errors@),
            ),
        },
{
    match pipeline {
        PipelineOutcome::Unparsed(errors) => Err(errors),
        PipelineOutcome::Parsed { errors, planned } => {
            if errors.len() > 0 {
                return Err(errors);
            }
            match planned {
                Err(errors) => Err(errors),
                Ok(planned) => {
                    if planned.blocked.len() > 0 {
                        return Err(occupied_by_directory(planned.blocked));
                    }
                    Ok(planned)
                },
            }
        },
    }
}

/// Everything that saving and undoing know.
#[verifier::ext_equal]
pub struct SaveView {
    pub state: SaveStateView,
    pub root: FsPathView,
    /// The tree as it was last read.
    pub baseline: BaselineView,
    /// The directories that are folded away.
    pub collapsed: Set<u64>,
    pub scan_options: ScanOptions,
    /// What the editor has yet to be told: whether the buffer can be edited.
    pub commands: Seq<bool>,
}

impl SaveView {
    /// The same, but in another state.
    pub open spec fn at(self, state: SaveStateView) -> SaveView {
        SaveView { state, ..self }
    }

    /// The same, with one more thing to tell the editor.
    pub open spec fn telling(self, editable: bool) -> SaveView {
        SaveView { commands: self.commands.push(editable), ..self }
    }

    /// The same, with a tree that was read again.
    pub open spec fn showing(self, reconciled: ReconciledView) -> SaveView {
        SaveView {
            baseline: reconciled.baseline,
            collapsed: reconciled.collapsed,
            ..self
        }
    }
}

/// The tree that was read again, with the folds carried over.
pub open spec fn reconciled(before: SaveView, baseline: BaselineView) -> ReconciledView {
    let collapsed = carried(before.collapsed, before.baseline.entries, baseline.entries);
    ReconciledView { baseline, collapsed, lines: shown_lines(baseline.entries, collapsed) }
}

/// What a request to save leads to.
pub open spec fn commit_step(before: SaveView, changedtick: u64, pipeline: PipelineView) -> (
    SaveView,
    SaveFlowView,
) {
    if !(before.state is Idle) {
        (before, SaveFlowView::Ignored)
    } else {
        match agreed_changes(pipeline) {
            Err(errors) => (
                before.telling(false).telling(true),
                SaveFlowView::ShowValidationErrors(errors),
            ),
            Ok(planned) => if planned.plan.len() == 0 {
                (before.telling(false).telling(true), SaveFlowView::NoChanges)
            } else {
                let overwrites = overwritten_paths(planned.overwrites);
                (
                    before.telling(false).at(
                        SaveStateView::AwaitingConfirmation {
                            changedtick,
                            plan: planned.plan,
                            overwrites,
                        },
                    ),
                    SaveFlowView::ShowPlan {
                        plan: planned.plan,
                        warnings: expected_warnings(
                            planned.plan,
                            before.baseline.entries,
                            before.baseline.metas,
                            planned.sources,
                            planned.overwrites,
                        ),
                        overwrites,
                    },
                )
            },
        }
    }
}

/// Whether some step can be undone.
pub open spec fn some_ready(statuses: Seq<UndoStepStatusView>) -> bool {
    exists|i: int| 0 <= i < statuses.len() && #[trigger] statuses[i] is Ready
}

/// Why steps cannot be undone, in order.
pub open spec fn rejections(statuses: Seq<UndoStepStatusView>) -> Seq<Seq<char>>
    decreases statuses.len(),
{
    if statuses.len() == 0 {
        Seq::empty()
    } else {
        let before = rejections(statuses.drop_last());
        match statuses.last() {
            UndoStepStatusView::Ready => before,
            UndoStepStatusView::Rejected { reason } => before.push(reason),
        }
    }
}

/// What a request to undo leads to.
pub open spec fn undo_step(
    before: SaveView,
    transaction: UndoTransactionView,
    statuses: Seq<UndoStepStatusView>,
) -> (SaveView, SaveFlowView) {
    if !(before.state is Idle) {
        (before, SaveFlowView::Ignored)
    } else if !some_ready(statuses) {
        let reasons = rejections(statuses);
        (
            before,
            SaveFlowView::UndoNothingLeft {
                reasons: if reasons.len() == 0 {
                    seq!["undo対象の操作がありません"@]
                } else {
                    reasons
                },
            },
        )
    } else {
        (
            before.telling(false).at(SaveStateView::AwaitingUndoConfirmation { transaction }),
            SaveFlowView::ShowUndoPlan { transaction, statuses },
        )
    }
}

/// What a user's word leads to; a worker that it starts is stopped by `token`.
pub open spec fn choice_step(before: SaveView, choice: ConfirmChoice, token: CancelToken) -> (
    SaveView,
    SaveFlowView,
) {
    match (before.state, choice) {
        (SaveStateView::Applying { plan, cancel, .. }, ConfirmChoice::Cancel) => (
            before.at(SaveStateView::Applying { plan, cancel, cancelled: true }),
            SaveFlowView::ApplyCancelRequested,
        ),
        (SaveStateView::ApplyingUndo { transaction, cancel, .. }, ConfirmChoice::Cancel) => (
            before.at(SaveStateView::ApplyingUndo { transaction, cancel, cancelled: true }),
            SaveFlowView::ApplyCancelRequested,
        ),
        (SaveStateView::AwaitingUndoConfirmation { transaction }, ConfirmChoice::Cancel) => (
            before.at(SaveStateView::Idle).telling(true),
            SaveFlowView::UndoCancelled { transaction },
        ),
        (SaveStateView::AwaitingUndoConfirmation { transaction }, ConfirmChoice::Approve) => (
            before.at(
                SaveStateView::ApplyingUndo { transaction, cancel: token, cancelled: false },
            ),
            SaveFlowView::StartUndo { transaction, cancel: token },
        ),
        (SaveStateView::AwaitingConfirmation { .. }, ConfirmChoice::Cancel) => (
            before.at(SaveStateView::Idle).telling(true),
            SaveFlowView::Cancelled,
        ),
        (
            SaveStateView::AwaitingConfirmation { plan, overwrites, .. },
            ConfirmChoice::Approve,
        ) => (
            before.at(SaveStateView::Applying { plan, cancel: token, cancelled: false }),
            SaveFlowView::StartApply { plan, overwrites: overwrites.to_set(), cancel: token },
        ),
        _ => (before, SaveFlowView::Ignored),
    }
}

/// What is known when a worker is done. The tree is read again where some
/// operation succeeded; where that fails, saving waits for it.
pub open spec fn worker_done(before: SaveView, succeeded: bool, outcome: ReconcileView) -> SaveView {
    if !succeeded {
        before.at(SaveStateView::Idle).telling(true)
    } else {
        match reconcile_result(outcome) {
            Ok(reconciled) => before.showing(reconciled).at(SaveStateView::Idle).telling(true),
            Err(_) => before.at(SaveStateView::Reconciling),
        }
    }
}

/// What the end of a worker that did a plan leads to.
pub open spec fn apply_finished_step(
    before: SaveView,
    results: Seq<OpResult<FsOperation>>,
    outcome: ReconcileView,
) -> (SaveView, SaveFlowView) {
    if !(before.state is Applying) {
        (before, SaveFlowView::Ignored)
    } else {
        let report = report_view(results);
        (
            worker_done(before, some_succeeded(results), outcome),
            match (some_succeeded(results), reconcile_result(outcome)) {
                (true, Err(error)) => SaveFlowView::ReconcileFailed { report, error },
                _ => SaveFlowView::ShowReport(report),
            },
        )
    }
}

/// What the end of a worker that did an undo leads to.
pub open spec fn undo_finished_step(
    before: SaveView,
    results: Seq<OpResult<UndoStep>>,
    outcome: ReconcileView,
) -> (SaveView, SaveFlowView) {
    if !(before.state is ApplyingUndo) {
        (before, SaveFlowView::Ignored)
    } else {
        (
            worker_done(before, some_succeeded(results), outcome),
            SaveFlowView::ShowUndoReport(undo_report_view(results)),
        )
    }
}

/// What a change from outside leads to.
#[derive(Debug)]
pub enum ExternalStep {
    Done(SaveFlowResult),
    /// These lines are to be shown.
    Send(Reconciled),
}

/// What a change from outside leads to.
#[verifier::ext_equal]
pub enum ExternalView {
    Done(SaveFlowView),
    Send(ReconciledView),
}

impl ExternalStep {
    pub open spec fn view(&self) -> ExternalView {
        match self {
            ExternalStep::Done(result) => ExternalView::Done(result@),
            ExternalStep::Send(reconciled) => ExternalView::Send(reconciled@),
        }
    }
}

/// What a change from outside leads to. A tree with the same entries only brings
/// what is shown beside them up to date; another tree ends a question that waits
/// for a user's word, and is shown unless the buffer was edited.
pub open spec fn external_step(before: SaveView, scan: ScanView, same_root: bool, dirty: bool) -> (
    SaveView,
    ExternalView,
) {
    match scan {
        ScanView::LockPoisoned => (
            before,
            ExternalView::Done(
                SaveFlowView::ExternalChangeFailed("ID採番器のロックが破損しています"@),
            ),
        ),
        ScanView::Failed => (
            before,
            ExternalView::Done(
                SaveFlowView::ExternalChangeFailed("外部変更後の実FS再スキャンに失敗しました"@),
            ),
        ),
        ScanView::Scanned(baseline) => if same_root && baseline.entries
            == before.baseline.entries {
            (SaveView { baseline, ..before }, ExternalView::Done(SaveFlowView::NoChanges))
        } else {
            match before.state {
                SaveStateView::AwaitingUndoConfirmation { transaction } => (
                    before.at(SaveStateView::Idle).telling(true),
                    ExternalView::Done(
                        SaveFlowView::UndoInvalidated {
                            transaction,
                            message: "外部でファイルが変更されたため、undoを中断しました。内容を確認して再度 :FylerUndo してください"@,
                        },
                    ),
                ),
                SaveStateView::AwaitingConfirmation { .. } => (
                    before.at(SaveStateView::Idle).telling(true),
                    ExternalView::Done(
                        SaveFlowView::PlanInvalidated(
                            "外部でファイルが変更されたため、保存を中断しました。内容を確認して再度 :w してください"@,
                        ),
                    ),
                ),
                _ => if dirty {
                    (
                        before,
                        ExternalView::Done(
                            SaveFlowView::ExternalChangeNotified(
                                "外部でファイルが変更されました。編集中のため表示は更新していません"@,
                            ),
                        ),
                    )
                } else {
                    (before, ExternalView::Send(reconciled(before, baseline)))
                },
            }
        },
    }
}

/// What a user's wish for another view of the tree leads to: the new state and
/// the lines, or why it cannot be had.
pub open spec fn rescan_step(
    before: SaveView,
    options: ScanOptions,
    scan: ScanView,
    busy: Seq<char>,
    failed: Seq<char>,
) -> (SaveView, Result<Seq<Seq<char>>, Seq<char>>) {
    if !(before.state is Idle) {
        (before, Err(busy))
    } else {
        match scan {
            ScanView::LockPoisoned => (before, Err("ID採番器のロックが破損しています"@)),
            ScanView::Failed => (before, Err(failed)),
            ScanView::Scanned(baseline) => {
                let fresh = reconciled(before, baseline);
                (
                    SaveView { scan_options: options, ..before.showing(fresh) },
                    Ok(fresh.lines),
                )
            },
        }
    }
}

/// Lines, or why there are none.
pub open spec fn lines_result(r: Result<Vec<EditorLine>, String>) -> Result<
    Seq<Seq<char>>,
    Seq<char>,
> {
    match r {
        Ok(lines) => Ok(line_texts(lines@)),
        Err(error) => Err(error@),
    }
}

/// Nothing, or what went wrong.
pub open spec fn done_result(r: Result<(), String>) -> Result<(), Seq<char>> {
    match r {
        Ok(done) => Ok(done),
        Err(error) => Err(error@),
    }
}

/// What a wish for another root leads to.
pub open spec fn change_root_step(
    before: SaveView,
    root: FsPathView,
    baseline: BaselineView,
    roots_match: bool,
) -> (SaveView, Result<(), Seq<char>>) {
    if !(before.state is Idle) {
        (before, Err("保存処理中は表示ルートを変更できません"@))
    } else if !roots_match {
        (
            before,
            Err(
                "表示ルートとbaselineのルートが一致しません: root="@ + root.text + ", baseline="@
                    + baseline.root.text,
            ),
        )
    } else {
        (SaveView { root, baseline, collapsed: Set::empty(), ..before }, Ok(()))
    }
}

/// What a wish to fold or unfold the directory under the cursor leads to.
#[derive(Debug, PartialEq, Eq)]
pub enum ToggleCollapseResult {
    Toggled(Vec<EditorLine>),
    NotFound,
    NotADirectory,
    Busy,
    /// The directory could not be read whole, so it stays folded.
    CannotExpandIncomplete,
    /// The directory has to be read first.
    NeedsLoad { dir: TreePath },
}

/// What a wish to fold or unfold leads to.
#[derive(Debug, PartialEq, Eq)]
pub enum FoldResult {
    Applied { lines: Vec<EditorLine>, cursor_line: Option<usize> },
    NoOp,
    NotFound,
    Busy,
    /// The directory could not be read whole, so it stays folded.
    CannotExpandIncomplete,
    /// The directory has to be read first.
    NeedsLoad { dir: TreePath },
    /// The directories have to be read first.
    NeedsLoadRecursive { dirs: Vec<TreePath> },
}

/// What a wish to show an entry leads to.
#[derive(Debug, PartialEq, Eq)]
pub enum RevealResult {
    AlreadyVisible { line: usize },
    Revealed { lines: Vec<EditorLine>, line: usize },
    NotFound,
    Busy,
}

/// What a wish to fold or unfold the directory under the cursor leads to.
#[verifier::ext_equal]
pub enum ToggleView {
    Toggled(Seq<Seq<char>>),
    NotFound,
    NotADirectory,
    Busy,
    CannotExpandIncomplete,
    NeedsLoad { dir: Seq<Seq<char>> },
}

/// What a wish to fold or unfold leads to.
#[verifier::ext_equal]
pub enum FoldView {
    Applied { lines: Seq<Seq<char>>, cursor_line: Option<nat> },
    NoOp,
    NotFound,
    Busy,
    CannotExpandIncomplete,
    NeedsLoad { dir: Seq<Seq<char>> },
    NeedsLoadRecursive { dirs: Seq<Seq<Seq<char>>> },
}

/// What a wish to show an entry leads to.
#[verifier::ext_equal]
pub enum RevealView {
    AlreadyVisible { line: nat },
    Revealed { lines: Seq<Seq<char>>, line: nat },
    NotFound,
    Busy,
}

impl ToggleCollapseResult {
    pub open spec fn view(&self) -> ToggleView {
        match self {
            ToggleCollapseResult::Toggled(lines) => ToggleView::Toggled(line_texts(lines@)),
            ToggleCollapseResult::NotFound => ToggleView::NotFound,
            ToggleCollapseResult::NotADirectory => ToggleView::NotADirectory,
            ToggleCollapseResult::Busy => ToggleView::Busy,
            ToggleCollapseResult::CannotExpandIncomplete => ToggleView::CannotExpandIncomplete,
            ToggleCollapseResult::NeedsLoad { dir } => ToggleView::NeedsLoad { dir: dir@ },
        }
    }
}

impl FoldResult {
    pub open spec fn view(&self) -> FoldView {
        match self {
            FoldResult::Applied { lines, cursor_line } => FoldView::Applied {
                lines: line_texts(lines@),
                cursor_line: position(*cursor_line),
            },
            FoldResult::NoOp => FoldView::NoOp,
            FoldResult::NotFound => FoldView::NotFound,
            FoldResult::Busy => FoldView::Busy,
            FoldResult::CannotExpandIncomplete => FoldView::CannotExpandIncomplete,
            FoldResult::NeedsLoad { dir } => FoldView::NeedsLoad { dir: dir@ },
            FoldResult::NeedsLoadRecursive { dirs } => FoldView::NeedsLoadRecursive {
                dirs: paths_view(dirs@),
            },
        }
    }
}

impl RevealResult {
    pub open spec fn view(&self) -> RevealView {
        match self {
            RevealResult::AlreadyVisible { line } => RevealView::AlreadyVisible {
                line: *line as nat,
            },
            RevealResult::Revealed { lines, line } => RevealView::Revealed {
                lines: line_texts(lines@),
                line: *line as nat,
            },
            RevealResult::NotFound => RevealView::NotFound,
            RevealResult::Busy => RevealView::Busy,
        }
    }
}

/// What a wish to fold or unfold the directory under the cursor leads to.
pub open spec fn toggle_step(before: SaveView, lines: Seq<Seq<char>>, line: int) -> (
    SaveView,
    ToggleView,
) {
    match entry_at(before.baseline.entries, lines, line) {
        None => (before, ToggleView::NotFound),
        Some(entry) => if entry.kind != EntryKind::Dir {
            (before, ToggleView::NotADirectory)
        } else if !(before.state is Idle) {
            (before, ToggleView::Busy)
        } else {
            let collapsed = toggled(before.collapsed, entry.id);
            (
                SaveView { collapsed, ..before },
                ToggleView::Toggled(shown_lines(before.baseline.entries, collapsed)),
            )
        },
    }
}

/// What a wish to fold or unfold leads to.
pub open spec fn fold_step(before: SaveView, lines: Seq<Seq<char>>, line: int, op: FoldOp) -> (
    SaveView,
    FoldView,
) {
    let entries = before.baseline.entries;
    match entry_at(entries, lines, line) {
        None => (before, FoldView::NotFound),
        Some(entry) => if !(before.state is Idle) {
            (before, FoldView::Busy)
        } else {
            match folded(entries, before.collapsed, entry, op) {
                None => (before, FoldView::NoOp),
                Some((collapsed, cursor)) => if collapsed == before.collapsed {
                    (before, FoldView::NoOp)
                } else {
                    (
                        SaveView { collapsed, ..before },
                        FoldView::Applied {
                            lines: shown_lines(entries, collapsed),
                            cursor_line: position_of(shown(entries, collapsed), cursor),
                        },
                    )
                },
            }
        },
    }
}

/// What a wish to show an entry leads to.
pub open spec fn reveal_step(before: SaveView, id: EntryId) -> (SaveView, RevealView) {
    let entries = before.baseline.entries;
    if !(before.state is Idle) {
        (before, RevealView::Busy)
    } else {
        match find_entry(entries, id) {
            None => (before, RevealView::NotFound),
            Some(entry) => match position_of(shown(entries, before.collapsed), id) {
                Some(line) => (before, RevealView::AlreadyVisible { line }),
                None => {
                    let collapsed = before.collapsed.difference(dirs_above(entries, entry.path));
                    (
                        SaveView { collapsed, ..before },
                        match position_of(shown(entries, collapsed), id) {
                            Some(line) => RevealView::Revealed {
                                lines: shown_lines(entries, collapsed),
                                line,
                            },
                            None => RevealView::NotFound,
                        },
                    )
                },
            },
        }
    }
}

/// The name of the entry that a line without indentation shows.
pub open spec fn top_level_name(line: Seq<char>) -> Option<Seq<char>> {
    match prefix_of(line) {
        PrefixView::WithId { rest, .. } => if indent_levels(rest) == 0 {
            Some(without_suffix(after_indent(rest)).0)
        } else {
            None
        },
        _ => None,
    }
}

/// The first line without indentation that shows a name.
pub open spec fn top_level_line(lines: Seq<Seq<char>>, name: Seq<char>) -> Option<nat>
    decreases lines.len(),
{
    if lines.len() == 0 {
        None
    } else {
        match top_level_line(lines.drop_last(), name) {
            Some(line) => Some(line),
            None => if top_level_name(lines.last()) == Some(name) {
                Some((lines.len() - 1) as nat)
            } else {
                None
            },
        }
    }
}

/// The mark that statuses give a place.
pub open spec fn badge_at<B>(statuses: Seq<(TreePath, B)>, path: Seq<Seq<char>>) -> Option<B>
    decreases statuses.len(),
{
    if statuses.len() == 0 {
        None
    } else if statuses[0].0@ == path {
        Some(statuses[0].1)
    } else {
        badge_at(statuses.drop_first(), path)
    }
}

/// The marks that statuses give entries, by number.
pub open spec fn badges<B>(entries: Seq<EntryView>, statuses: Seq<(TreePath, B)>) -> Map<u64, B>
    decreases entries.len(),
{
    if entries.len() == 0 {
        Map::empty()
    } else {
        let before = badges(entries.drop_last(), statuses);
        match badge_at(statuses, entries.last().path) {
            Some(badge) => before.insert(entries.last().id.0, badge),
            None => before,
        }
    }
}

/// What is shown beside entries, by number.
pub open spec fn infos(entries: Seq<EntryView>, metas: Map<u64, EntryMeta>) -> Map<u64, EntryMeta>
    decreases entries.len(),
{
    if entries.len() == 0 {
        Map::empty()
    } else {
        let before = infos(entries.drop_last(), metas);
        match meta_of(metas, entries.last().id) {
            Some(meta) => before.insert(entries.last().id.0, meta),
            None => before,
        }
    }
}

/// Saving and undoing, and the tree that is shown meanwhile.
#[derive(Debug)]
pub struct SaveController {
    state: SaveState,
    root: FsPath,
    baseline: BaselineTree,
    collapsed: HashSet<u64>,
    scan_options: ScanOptions,
    commands: Vec<bool>,
}

/// The line that shows a place.
pub open spec fn line_of_place(
    entries: Seq<EntryView>,
    collapsed: Set<u64>,
    path: Seq<Seq<char>>,
) -> Option<nat> {
    match find_path(entries, path) {
        Some(entry) => position_of(shown(entries, collapsed), entry.id),
        None => None,
    }
}

impl SaveController {
    /// Everything that saving and undoing know.
    pub closed spec fn view(&self) -> SaveView {
        SaveView {
            state: self.state@,
            root: self.root@,
            baseline: self.baseline@,
            collapsed: self.collapsed@,
            scan_options: self.scan_options,
            commands: self.commands@,
        }
    }

    /// A tree that is shown with nothing folded away, hidden files left out and
    /// entries sorted by name, directories first.
    pub fn new(root: FsPath, baseline: BaselineTree) -> (r: SaveController)
        ensures
            r@ == (SaveView {
                state: SaveStateView::Idle,
                root: root@,
                baseline: baseline@,
                collapsed: Set::empty(),
                scan_options: default_scan_options(),
                commands: Seq::empty(),
            }),
    {
        SaveController::new_with_scan_options(
            root,
            baseline,
            ScanOptions {
                show_hidden: false,
                sort: SortOrder::DirsFirst,
                key: SortKey::Name,
                reverse: false,
            },
        )
    }

    /// Nothing going on in a tree that is scanned in this way.
    pub fn new_with_scan_options(
        root: FsPath,
        baseline: BaselineTree,
        scan_options: ScanOptions,
    ) -> (r: SaveController)
        ensures
            r@ == (SaveView {
                state: SaveStateView::Idle,
                root: root@,
                baseline: baseline@,
                collapsed: Set::empty(),
                scan_options,
                commands: Seq::empty(),
            }),
    {
        let r = SaveController {
            state: SaveState::Idle,
            root,
            baseline,
            collapsed: HashSet::new(),
            scan_options,
            commands: Vec::new(),
        };
        assert(r@.collapsed =~= Set::empty());
        assert(r@.commands =~= Seq::empty());
        r
    }

    /// Takes a request to save what the buffer asks for.
    pub fn on_commit(&mut self, changedtick: u64, pipeline: PipelineOutcome) -> (r: SaveFlowResult)
        ensures
            (final(self)@, r@) == commit_step(old(self)@, changedtick, pipeline@),
    {
        if !self.is_idle() {
            return SaveFlowResult::Ignored;
        }
        self.commands.push(false);
        let planned = match agree(pipeline) {
            Err(errors) => {
                self.commands.push(true);
                return SaveFlowResult::ShowValidationErrors(errors);
            },
            Ok(planned) => planned,
        };
        if planned.plan.ops.len() == 0 {
            self.commands.push(true);
            return SaveFlowResult::NoChanges;
        }
        let warnings = plan_warnings(
            &self.baseline,
            &planned.plan,
            &planned.sources,
            &planned.overwrites,
        );
        let overwrites = paths_of(&planned.overwrites);
        let pending = paths_of(&planned.overwrites);
        let plan = planned.plan.copy();
        self.state =
        SaveState::AwaitingConfirmation { changedtick, plan: planned.plan, overwrites: pending };
        SaveFlowResult::ShowPlan { plan, warnings, overwrites }
    }

    /// Takes a request to undo a transaction; `statuses` says what stands against
    /// each of its steps.
    pub fn request_undo(
        &mut self,
        transaction: UndoTransaction,
        statuses: Vec<UndoStepStatus>,
    ) -> (r: SaveFlowResult)
        ensures
            (final(self)@, r@) == undo_step(
                old(self)@,
                transaction@,
                statuses_view(statuses@),
            ),
    {
        if !self.is_idle() {
            return SaveFlowResult::Ignored;
        }
        if !has_ready(&statuses) {
            let mut reasons = rejected_reasons(&statuses);
            if reasons.len() == 0 {
                reasons.push("undo対象の操作がありません".to_owned());
                assert(texts(reasons@) =~= seq!["undo対象の操作がありません"@]);
            }
            return SaveFlowResult::UndoNothingLeft { reasons };
        }
        self.commands.push(false);
        self.state = SaveState::AwaitingUndoConfirmation { transaction: transaction.copy() };
        SaveFlowResult::ShowUndoPlan { transaction, statuses }
    }

    /// Takes a user's word; a worker that it starts is stopped by `token`.
    pub fn on_choice(&mut self, choice: ConfirmChoice, token: CancelToken) -> (r: SaveFlowResult)
        ensures
            (final(self)@, r@) == choice_step(old(self)@, choice, token),
    {
        let ghost before = self@;
        match choice {
            ConfirmChoice::OpenWithSelected(_) => {
                return SaveFlowResult::Ignored;
            },
            _ => {},
        }
        let approved = choice == ConfirmChoice::Approve;
        let mut state = SaveState::Idle;
        std::mem::swap(&mut state, &mut self.state);
        match state {
            SaveState::Applying { plan, cancel, cancelled } => {
                if approved {
                    self.state = SaveState::Applying { plan, cancel, cancelled };
                    return SaveFlowResult::Ignored;
                }
                self.state = SaveState::Applying { plan, cancel, cancelled: true };
                SaveFlowResult::ApplyCancelRequested
            },
            SaveState::ApplyingUndo { transaction, cancel, cancelled } => {
                if approved {
                    self.state = SaveState::ApplyingUndo { transaction, cancel, cancelled };
                    return SaveFlowResult::Ignored;
                }
                self.state = SaveState::ApplyingUndo { transaction, cancel, cancelled: true };
                SaveFlowResult::ApplyCancelRequested
            },
            SaveState::AwaitingUndoConfirmation { transaction } => {
                if approved {
                    let approved_transaction = transaction.copy();
                    self.state =
                    SaveState::ApplyingUndo { transaction, cancel: token, cancelled: false };
                    return SaveFlowResult::StartUndo {
                        transaction: approved_transaction,
                        cancel: token,
                    };
                }
                self.commands.push(true);
                SaveFlowResult::UndoCancelled { transaction }
            },
            SaveState::AwaitingConfirmation { plan, overwrites, .. } => {
                if approved {
                    let approved_plan = plan.copy();
                    self.state =
                    SaveState::Applying { plan, cancel: token, cancelled: false };
                    return SaveFlowResult::StartApply {
                        plan: approved_plan,
                        overwrites,
                        cancel: token,
                    };
                }
                self.commands.push(true);
                SaveFlowResult::Cancelled
            },
            SaveState::Reconciling => {
                self.state = SaveState::Reconciling;
                SaveFlowResult::Ignored
            },
            SaveState::Idle => SaveFlowResult::Ignored,
        }
    }

    /// Takes what came of the worker that did a plan; `outcome` says what came of
    /// reading the tree again, and counts only where some operation succeeded.
    pub fn on_apply_finished(
        &mut self,
        report: CommitReport<FsOperation>,
        outcome: ReconcileOutcome,
    ) -> (r: SaveFlowResult)
        ensures
            (final(self)@, r@) == apply_finished_step(old(self)@, report.results@, outcome@),
    {
        match self.state {
            SaveState::Applying { .. } => {},
            _ => {
                return SaveFlowResult::Ignored;
            },
        }
        match self.finish_worker(report.any_succeeded(), outcome) {
            Ok(_) => SaveFlowResult::ShowReport(report),
            Err(error) => SaveFlowResult::ReconcileFailed { report, error },
        }
    }

    /// Takes what came of the worker that did an undo; `outcome` says what came of
    /// reading the tree again, and counts only where some step succeeded.
    pub fn on_undo_finished(
        &mut self,
        report: CommitReport<UndoStep>,
        outcome: ReconcileOutcome,
    ) -> (r: SaveFlowResult)
        ensures
            (final(self)@, r@) == undo_finished_step(old(self)@, report.results@, outcome@),
    {
        match self.state {
            SaveState::ApplyingUndo { .. } => {},
            _ => {
                return SaveFlowResult::Ignored;
            },
        }
        let _ = self.finish_worker(report.any_succeeded(), outcome);
        SaveFlowResult::ShowUndoReport(report)
    }

    /// Goes on when a worker is done, and says what went wrong when the tree was
    /// read again.
    fn finish_worker(&mut self, succeeded: bool, outcome: ReconcileOutcome) -> (r: Result<
        (),
        String,
    >)
        ensures
            final(self)@ == worker_done(old(self)@, succeeded, outcome@),
            match r {
                Ok(_) => !(succeeded && reconcile_result(outcome@) is Err),
                Err(error) => succeeded && reconcile_result(outcome@) == Err::<
                    ReconciledView,
                    Seq<char>,
                >(error@),
            },
    {
        if !succeeded {
            self.state = SaveState::Idle;
            self.commands.push(true);
            return Ok(());
        }
        match reconcile_outcome(outcome) {
            Ok(reconciled) => {
                self.baseline = reconciled.baseline;
                self.collapsed = reconciled.collapsed;
                self.state = SaveState::Idle;
                self.commands.push(true);
                Ok(())
            },
            Err(error) => {
                self.state = SaveState::Reconciling;
                Err(error)
            },
        }
    }

    /// Takes the news that the tree changed from outside. `dirty` says whether the
    /// buffer was edited. Whether the tree that was read has the root of the one that is
    /// shown is for the platform to say.
    pub fn on_external_change(&mut self, scan: ScanOutcome, dirty: bool) -> (r: ExternalStep)
        ensures
            exists|same_root: bool|
                (scan@ matches ScanView::Scanned(baseline) ==> compared(
                    baseline.root,
                    old(self)@.baseline.root,
                    same_root,
                )) && (final(self)@, r@) == #[trigger] external_step(
                    old(self)@,
                    scan@,
                    same_root,
                    dirty,
                ),
    {
        let same_root = match &scan {
            ScanOutcome::Scanned(baseline) => baseline.root().is_same_path(self.baseline.root()),
            _ => false,
        };
        self.take_external_scan(scan, same_root, dirty)
    }

    /// Takes a tree that was read after a change from outside. `same_root` says whether it
    /// has the root of the one that is shown.
    pub fn take_external_scan(&mut self, scan: ScanOutcome, same_root: bool, dirty: bool) -> (r:
        ExternalStep)
        ensures
            (final(self)@, r@) == external_step(old(self)@, scan@, same_root, dirty),
    {
        let baseline = match scan {
            ScanOutcome::LockPoisoned => {
                return ExternalStep::Done(
                    SaveFlowResult::ExternalChangeFailed(
                        "ID採番器のロックが破損しています".to_owned(),
                    ),
                );
            },
            ScanOutcome::Failed => {
                return ExternalStep::Done(
                    SaveFlowResult::ExternalChangeFailed(
                        "外部変更後の実FS再スキャンに失敗しました".to_owned(),
                    ),
                );
            },
            ScanOutcome::Scanned(baseline) => baseline,
        };
        if baseline.same_structure(&self.baseline, same_root) {
            self.baseline = baseline;
            return ExternalStep::Done(SaveFlowResult::NoChanges);
        }
        let mut state = SaveState::Idle;
        std::mem::swap(&mut state, &mut self.state);
        match state {
            SaveState::AwaitingUndoConfirmation { transaction } => {
                self.commands.push(true);
                ExternalStep::Done(
                    SaveFlowResult::UndoInvalidated {
                        transaction,
                        message: "外部でファイルが変更されたため、undoを中断しました。内容を確認して再度 :FylerUndo してください".to_owned(),
                    },
                )
            },
            SaveState::AwaitingConfirmation { .. } => {
                self.commands.push(true);
                ExternalStep::Done(
                    SaveFlowResult::PlanInvalidated(
                        "外部でファイルが変更されたため、保存を中断しました。内容を確認して再度 :w してください".to_owned(),
                    ),
                )
            },
            other => {
                self.state = other;
                if dirty {
                    return ExternalStep::Done(
                        SaveFlowResult::ExternalChangeNotified(
                            "外部でファイルが変更されました。編集中のため表示は更新していません".to_owned(),
                        ),
                    );
                }
                ExternalStep::Send(self.prepare_reconcile(baseline))
            },
        }
    }

    /// Takes the news whether the editor took the lines of a tree that changed
    /// from outside.
    pub fn on_external_lines_sent(&mut self, reconciled: Reconciled, sent: bool) -> (r:
        SaveFlowResult)
        ensures
            (final(self)@, r@) == (if sent {
                (old(self)@.showing(reconciled@), SaveFlowView::ExternalChanged)
            } else {
                (
                    old(self)@,
                    SaveFlowView::ExternalChangeFailed(
                        "外部変更後のバッファ行をエンジンへ送信できません"@,
                    ),
                )
            }),
    {
        if !sent {
            return SaveFlowResult::ExternalChangeFailed(
                "外部変更後のバッファ行をエンジンへ送信できません".to_owned(),
            );
        }
        self.baseline = reconciled.baseline;
        self.collapsed = reconciled.collapsed;
        SaveFlowResult::ExternalChanged
    }

    /// A tree that was read again, with the folds carried over, and the lines that
    /// show it.
    pub fn prepare_reconcile(&self, baseline: BaselineTree) -> (r: Reconciled)
        ensures
            r@ == reconciled(self@, baseline@),
    {
        let collapsed = carry_collapsed_dirs(&self.collapsed, &self.baseline, &baseline);
        let lines = baseline_to_lines(&baseline, &collapsed);
        Reconciled { baseline, collapsed, lines }
    }

    /// Takes what came of reading directories of the tree.
    pub fn replace_baseline_after_load(&mut self, loaded: Result<Reconciled, String>) -> (r: Result<
        (),
        String,
    >)
        ensures
            match loaded {
                Ok(reconciled) => r is Ok && final(self)@ == old(self)@.showing(reconciled@),
                Err(error) => r matches Err(e) && e@ == error@ && final(self)@ == old(self)@,
            },
    {
        match loaded {
            Ok(reconciled) => {
                self.baseline = reconciled.baseline;
                self.collapsed = reconciled.collapsed;
                Ok(())
            },
            Err(error) => Err(error),
        }
    }

    /// Takes what came of reading the tree again after something was moved in
    /// or out.
    pub fn reconcile_after_transfer(&mut self, outcome: ReconcileOutcome) -> (r: Result<(), String>)
        ensures
            match reconcile_result(outcome@) {
                Ok(reconciled) => r is Ok && final(self)@ == old(self)@.showing(reconciled),
                Err(error) => r matches Err(e) && e@ == error && final(self)@ == old(self)@,
            },
    {
        match reconcile_outcome(outcome) {
            Ok(reconciled) => {
                self.baseline = reconciled.baseline;
                self.collapsed = reconciled.collapsed;
                Ok(())
            },
            Err(error) => Err(error),
        }
    }

    /// Whether nothing is going on.
    pub fn is_idle(&self) -> (r: bool)
        ensures
            r == (self@.state is Idle),
    {
        match self.state {
            SaveState::Idle => true,
            _ => false,
        }
    }

    /// Whether a worker is running.
    pub fn is_applying(&self) -> (r: bool)
        ensures
            r == applying(self@.state),
    {
        match self.state {
            SaveState::Applying { .. } => true,
            SaveState::ApplyingUndo { .. } => true,
            _ => false,
        }
    }

    /// The entry that a line names, as the tree was last read.
    pub fn resolve_line(&self, lines: &Vec<EditorLine>, line: usize) -> (r: Option<
        (TreePath, EntryKind),
    >)
        ensures
            match entry_at(self@.baseline.entries, line_texts(lines@), line as int) {
                Some(entry) => r matches Some(found) && found.0@ == entry.path && found.1
                    == entry.kind,
                None => r is None,
            },
    {
        match resolve_line_entry(&self.baseline, lines, line) {
            Some(entry) => Some((entry.path.copy(), entry.kind)),
            None => None,
        }
    }

    /// The line that shows an entry.
    pub fn visible_line_for_entry(&self, id: EntryId) -> (r: Option<usize>)
        ensures
            position(r) == position_of(shown(self@.baseline.entries, self@.collapsed), id),
    {
        visible_position_by_id(&self.baseline, &self.collapsed, id)
    }

    /// The lines that show the tree.
    pub fn visible_lines(&self) -> (r: Vec<EditorLine>)
        ensures
            line_texts(r@) == shown_lines(self@.baseline.entries, self@.collapsed),
    {
        baseline_to_lines(&self.baseline, &self.collapsed)
    }

    /// Folds or unfolds the directory under the cursor.
    pub fn toggle_collapse(&mut self, lines: &Vec<EditorLine>, line: usize) -> (r:
        ToggleCollapseResult)
        ensures
            (final(self)@, r@) == toggle_step(old(self)@, line_texts(lines@), line as int),
    {
        let id = match resolve_line_entry(&self.baseline, lines, line) {
            None => {
                return ToggleCollapseResult::NotFound;
            },
            Some(entry) => {
                if entry.kind != EntryKind::Dir {
                    return ToggleCollapseResult::NotADirectory;
                }
                entry.id
            },
        };
        if !self.is_idle() {
            return ToggleCollapseResult::Busy;
        }
        proof {
            let entry = entry_at(self@.baseline.entries, line_texts(lines@), line as int)->Some_0;
            assert(entry.id == id);
        }
        toggle_at(&mut self.collapsed, id);
        ToggleCollapseResult::Toggled(self.visible_lines())
    }

    /// Folds or unfolds as a user asks at the cursor.
    pub fn fold(&mut self, lines: &Vec<EditorLine>, line: usize, op: FoldOp) -> (r: FoldResult)
        ensures
            (final(self)@, r@) == fold_step(old(self)@, line_texts(lines@), line as int, op),
    {
        let idle = self.is_idle();
        let entry = match resolve_line_entry(&self.baseline, lines, line) {
            None => {
                return FoldResult::NotFound;
            },
            Some(entry) => entry,
        };
        if !idle {
            return FoldResult::Busy;
        }
        match fold_at(&self.baseline, &mut self.collapsed, entry, op) {
            Some((cursor, true)) => {
                let lines = self.visible_lines();
                let cursor_line = visible_position_by_id(&self.baseline, &self.collapsed, cursor);
                FoldResult::Applied { lines, cursor_line }
            },
            _ => FoldResult::NoOp,
        }
    }

    /// Unfolds what hides an entry.
    pub fn reveal_entry(&mut self, id: EntryId) -> (r: RevealResult)
        ensures
            (final(self)@, r@) == reveal_step(old(self)@, id),
    {
        if !self.is_idle() {
            return RevealResult::Busy;
        }
        let path = match self.baseline.get(id) {
            None => {
                return RevealResult::NotFound;
            },
            Some(entry) => entry.path.copy(),
        };
        if let Some(line) = visible_position_by_id(&self.baseline, &self.collapsed, id) {
            return RevealResult::AlreadyVisible { line };
        }
        unfold_above(&self.baseline, &mut self.collapsed, &path);
        match visible_position_by_id(&self.baseline, &self.collapsed, id) {
            Some(line) => RevealResult::Revealed { lines: self.visible_lines(), line },
            None => RevealResult::NotFound,
        }
    }

    /// Folds every directory away.
    pub fn collapse_all_dirs(&mut self)
        ensures
            final(self)@ == (SaveView {
                collapsed: old(self)@.collapsed.union(
                    dirs_within(old(self)@.baseline.entries, None),
                ),
                ..old(self)@
            }),
    {
        collapse_dirs(&self.baseline, &mut self.collapsed, None);
    }

    /// Folds just the directories at some places away.
    pub fn restore_collapsed_paths(&mut self, paths: &Vec<TreePath>)
        ensures
            final(self)@ == (SaveView {
                collapsed: dirs_at(old(self)@.baseline.entries, paths_view(paths@)),
                ..old(self)@
            }),
    {
        self.collapsed = folds_at(&self.baseline, paths);
    }

    /// The line that shows a place.
    pub fn visible_line_for_path(&self, path: &TreePath) -> (r: Option<usize>)
        ensures
            position(r) == line_of_place(self@.baseline.entries, self@.collapsed, path@),
    {
        match entry_by_path(&self.baseline, path) {
            Some(entry) => self.visible_line_for_entry(entry.id),
            None => None,
        }
    }

    /// The line that shows the entry with a name directly under the root.
    pub fn find_top_level_line(&self, name: &str) -> (r: Option<usize>)
        ensures
            position(r) == top_level_line(
                shown_lines(self@.baseline.entries, self@.collapsed),
                name@,
            ),
    {
        let lines = self.visible_lines();
        let ghost all = line_texts(lines@);
        let mut i: usize = 0;
        assert(all.take(0) =~= Seq::empty());
        while i < lines.len()
            invariant
                i <= lines@.len(),
                all == line_texts(lines@),
                all == shown_lines(self@.baseline.entries, self@.collapsed),
                top_level_line(all.take(i as int), name@) is None,
            decreases lines@.len() - i,
        {
            proof {
                assert(all.take(i + 1).drop_last() =~= all.take(i as int));
                assert(all.take(i + 1).last() == lines@[i as int].text@);
            }
            if let PrefixParse::WithId { rest, .. } = split_id_prefix(lines[i].text.as_str()) {
                let (levels, shown_name) = split_indent(rest.as_str());
                if levels == 0 {
                    let (entry_name, _) = split_dir_suffix(shown_name.as_str());
                    if same_text(entry_name.as_str(), name) {
                        assert(top_level_line(all.take(i + 1), name@) == Some(i as nat));
                        proof {
                            lemma_top_level_line(all, i + 1, name@);
                        }
                        return Some(i);
                    }
                }
            }
            i = i + 1;
        }
        assert(all.take(i as int) =~= all);
        None
    }

    /// The marks that statuses give the entries, by number.
    pub fn map_git_badges<B: Copy>(&self, statuses: &Vec<(TreePath, B)>) -> (r: HashMap<u64, B>)
        ensures
            r@ == badges(self@.baseline.entries, statuses@),
    {
        let entries = self.baseline.entries();
        let ghost all = self.baseline@.entries;
        let mut marked: HashMap<u64, B> = HashMap::new();
        let mut i: usize = 0;
        assert(all.take(0) =~= Seq::empty());
        while i < entries.len()
            invariant
                i <= entries@.len(),
                all == entries_view(entries@),
                marked@ == badges(all.take(i as int), statuses@),
            decreases entries@.len() - i,
        {
            proof {
                assert(all.take(i + 1).drop_last() =~= all.take(i as int));
                assert(all.take(i + 1).last() == entries@[i as int]@);
            }
            if let Some(badge) = badge_for(statuses, &entries[i].path) {
                marked.insert(entries[i].id.0, badge);
            }
            i = i + 1;
        }
        assert(all.take(i as int) =~= all);
        marked
    }

    /// What is shown beside the entries that are shown, by number.
    pub fn visible_file_infos(&self) -> (r: HashMap<u64, EntryMeta>)
        ensures
            r@ == infos(
                shown(self@.baseline.entries, self@.collapsed),
                self@.baseline.metas,
            ),
    {
        let entries = visible_entries(&self.baseline, &self.collapsed);
        let ghost all = refs_view(entries@);
        let ghost metas = self.baseline@.metas;
        let mut known: HashMap<u64, EntryMeta> = HashMap::new();
        let mut i: usize = 0;
        assert(all.take(0) =~= Seq::empty());
        while i < entries.len()
            invariant
                i <= entries@.len(),
                all == refs_view(entries@),
                metas == self.baseline@.metas,
                known@ == infos(all.take(i as int), metas),
            decreases entries@.len() - i,
        {
            proof {
                assert(all.take(i + 1).drop_last() =~= all.take(i as int));
                assert(all.take(i + 1).last() == entries@[i as int]@);
            }
            let id = entries[i].id;
            if let Some(meta) = self.baseline.meta(id) {
                known.insert(id.0, meta);
            }
            i = i + 1;
        }
        assert(all.take(i as int) =~= all);
        known
    }

    /// Shows hidden files where they were not shown, and does not where they were.
    pub fn toggle_hidden(&mut self, scan: ScanOutcome) -> (r: Result<Vec<EditorLine>, String>)
        ensures
            (final(self)@, lines_result(r)) == rescan_step(
                old(self)@,
                hidden_toggled(old(self)@.scan_options),
                scan@,
                "保存処理中は隠しファイル表示を変更できません"@,
                "隠しファイル表示切り替え後の実FS再スキャンに失敗しました"@,
            ),
    {
        let options = self.toggled_hidden_options();
        self.rescan(
            options,
            scan,
            "保存処理中は隠しファイル表示を変更できません",
            "隠しファイル表示切り替え後の実FS再スキャンに失敗しました",
        )
    }

    /// How the tree is to be read so that hidden files are shown where they were
    /// not, and are not where they were.
    pub fn toggled_hidden_options(&self) -> (r: ScanOptions)
        ensures
            r == hidden_toggled(self@.scan_options),
    {
        let options = self.scan_options;
        ScanOptions {
            show_hidden: !options.show_hidden,
            sort: options.sort,
            key: options.key,
            reverse: options.reverse,
        }
    }

    /// Sorts the tree in another way. Where that is the way it is sorted in, the
    /// tree is not read again.
    pub fn change_sort(&mut self, key: SortKey, reverse: bool, scan: ScanOutcome) -> (r: Result<
        Vec<EditorLine>,
        String,
    >)
        ensures
            (final(self)@, lines_result(r)) == change_sort_step(old(self)@, key, reverse, scan@),
    {
        let options = self.sorted_options(key, reverse);
        if self.is_idle() && options == self.scan_options {
            return Ok(self.visible_lines());
        }
        self.rescan(
            options,
            scan,
            "保存処理中はソート条件を変更できません",
            "ソート条件変更後の実FS再スキャンに失敗しました",
        )
    }

    /// How the tree is to be read so that it is sorted in a way.
    pub fn sorted_options(&self, key: SortKey, reverse: bool) -> (r: ScanOptions)
        ensures
            r == sorted_by(self@.scan_options, key, reverse),
    {
        let options = self.scan_options;
        ScanOptions { show_hidden: options.show_hidden, sort: options.sort, key, reverse }
    }

    /// Shows a tree that was read in another way.
    fn rescan(&mut self, options: ScanOptions, scan: ScanOutcome, busy: &str, failed: &str) -> (r:
        Result<Vec<EditorLine>, String>)
        ensures
            (final(self)@, lines_result(r)) == rescan_step(
                old(self)@,
                options,
                scan@,
                busy@,
                failed@,
            ),
    {
        if !self.is_idle() {
            return Err(busy.to_owned());
        }
        match scan {
            ScanOutcome::LockPoisoned => Err("ID採番器のロックが破損しています".to_owned()),
            ScanOutcome::Failed => Err(failed.to_owned()),
            ScanOutcome::Scanned(baseline) => {
                let fresh = self.prepare_reconcile(baseline);
                self.baseline = fresh.baseline;
                self.collapsed = fresh.collapsed;
                self.scan_options = options;
                Ok(fresh.lines)
            },
        }
    }

    /// Shows the tree of another root, with nothing folded. Whether `root` is the root of
    /// `baseline` is for the platform to say.
    pub fn change_root_preserving_allocator(&mut self, root: FsPath, baseline: BaselineTree) -> (r:
        Result<(), String>)
        ensures
            exists|roots_match: bool|
                compared(baseline@.root, root@, roots_match) && (final(self)@, done_result(r))
                    == #[trigger] change_root_step(old(self)@, root@, baseline@, roots_match),
            r is Ok ==> old(self)@.state is Idle && letters(baseline@.root.text) == letters(
                root@.text,
            ),
            old(self)@.state is Idle && baseline@.root == root@ ==> r is Ok,
    {
        let roots_match = baseline.root().is_same_path(&root);
        self.change_root_to(root, baseline, roots_match)
    }

    /// Shows the tree of another root, with nothing folded. `roots_match` says
    /// whether `root` is the root of `baseline`.
    pub fn change_root_to(&mut self, root: FsPath, baseline: BaselineTree, roots_match: bool) -> (r:
        Result<(), String>)
        ensures
            (final(self)@, done_result(r)) == change_root_step(
                old(self)@,
                root@,
                baseline@,
                roots_match,
            ),
    {
        if !self.is_idle() {
            return Err("保存処理中は表示ルートを変更できません".to_owned());
        }
        if !roots_match {
            return Err(
                "表示ルートとbaselineのルートが一致しません: root=".to_owned().concat(
                    root.text.as_str(),
                ).concat(", baseline=").concat(baseline.root().text.as_str()),
            );
        }
        self.root = root;
        self.baseline = baseline;
        self.collapsed = HashSet::new();
        assert(self.collapsed@ =~= Set::empty());
        Ok(())
    }

    /// Where a save or an undo stands.
    pub fn state(&self) -> (r: &SaveState)
        ensures
            r@ == self@.state,
    {
        &self.state
    }

    /// The root of the tree that is shown.
    pub fn root(&self) -> (r: &FsPath)
        ensures
            r@ == self@.root,
    {
        &self.root
    }

    /// The tree as it was last read.
    pub fn baseline(&self) -> (r: &BaselineTree)
        ensures
            r@ == self@.baseline,
    {
        &self.baseline
    }

    /// The directories that are folded away.
    pub fn collapsed_dirs(&self) -> (r: &HashSet<u64>)
        ensures
            r@ == self@.collapsed,
    {
        &self.collapsed
    }

    /// How the tree is read.
    pub fn scan_options(&self) -> (r: ScanOptions)
        ensures
            r == self@.scan_options,
    {
        self.scan_options
    }

    /// What the tree is sorted by, and whether backwards.
    pub fn sort_state(&self) -> (r: (SortKey, bool))
        ensures
            r == (self@.scan_options.key, self@.scan_options.reverse),
    {
        (self.scan_options.key, self.scan_options.reverse)
    }

    /// The name of the transaction that is being undone.
    pub fn applying_undo_transaction_id(&self) -> (r: Option<&str>)
        ensures
            match self@.state {
                SaveStateView::ApplyingUndo { transaction, .. } => r matches Some(id) && id@
                    == transaction.id,
                _ => r is None,
            },
    {
        match &self.state {
            SaveState::ApplyingUndo { transaction, .. } => Some(transaction.id.as_str()),
            _ => None,
        }
    }

    /// Takes what the editor has yet to be told.
    pub fn take_commands(&mut self) -> (r: Vec<bool>)
        ensures
            r@ == old(self)@.commands,
            final(self)@ == (SaveView { commands: Seq::empty(), ..old(self)@ }),
    {
        let mut commands: Vec<bool> = Vec::new();
        std::mem::swap(&mut commands, &mut self.commands);
        assert(self.commands@ =~= Seq::empty());
        commands
    }
}

/// The mark that statuses give a place.
fn badge_for<B: Copy>(statuses: &Vec<(TreePath, B)>, path: &TreePath) -> (r: Option<B>)
    ensures
        r == badge_at(statuses@, path@),
{
    let mut i: usize = 0;
    assert(statuses@.skip(0) =~= statuses@);
    while i < statuses.len()
        invariant
            i <= statuses@.len(),
            badge_at(statuses@, path@) == badge_at(statuses@.skip(i as int), path@),
        decreases statuses@.len() - i,
    {
        proof {
            assert(statuses@.skip(i as int).drop_first() =~= statuses@.skip(i + 1));
            assert(statuses@.skip(i as int)[0] == statuses@[i as int]);
        }
        if statuses[i].0.same(path) {
            return Some(statuses[i].1);
        }
        i = i + 1;
    }
    None
}

/// A line that is found among the first lines is found among all.
proof fn lemma_top_level_line(lines: Seq<Seq<char>>, n: int, name: Seq<char>)
    requires
        0 <= n <= lines.len(),
        top_level_line(lines.take(n), name) is Some,
    ensures
        top_level_line(lines, name) == top_level_line(lines.take(n), name),
    decreases lines.len() - n,
{
    if n == lines.len() {
        assert(lines.take(n) =~= lines);
    } else {
        assert(lines.take(n + 1).drop_last() =~= lines.take(n));
        lemma_top_level_line(lines, n + 1, name);
    }
}

/// How a tree is scanned and sorted where nothing else is asked for.
pub open spec fn default_scan_options() -> ScanOptions {
    ScanOptions {
        show_hidden: false,
        sort: SortOrder::DirsFirst,
        key: SortKey::Name,
        reverse: false,
    }
}

/// The options with hidden files shown where they were not, and not where they
/// were.
pub open spec fn hidden_toggled(options: ScanOptions) -> ScanOptions {
    ScanOptions { show_hidden: !options.show_hidden, ..options }
}

/// The options with another order.
pub open spec fn sorted_by(options: ScanOptions, key: SortKey, reverse: bool) -> ScanOptions {
    ScanOptions { key, reverse, ..options }
}

/// What a wish for another order leads to.
pub open spec fn change_sort_step(
    before: SaveView,
    key: SortKey,
    reverse: bool,
    scan: ScanView,
) -> (SaveView, Result<Seq<Seq<char>>, Seq<char>>) {
    let options = sorted_by(before.scan_options, key, reverse);
    if before.state is Idle && options == before.scan_options {
        (before, Ok(shown_lines(before.baseline.entries, before.collapsed)))
    } else {
        rescan_step(
            before,
            options,
            scan,
            "保存処理中はソート条件を変更できません"@,
            "ソート条件変更後の実FS再スキャンに失敗しました"@,
        )
    }
}

/// Whether some step can be undone.
fn has_ready(statuses: &Vec<UndoStepStatus>) -> (r: bool)
    ensures
        r == some_ready(statuses_view(statuses@)),
{
    let ghost all = statuses_view(statuses@);
    let mut i: usize = 0;
    while i < statuses.len()
        invariant
            i <= statuses@.len(),
            all == statuses_view(statuses@),
            forall|j: int| 0 <= j < i ==> !(#[trigger] all[j] is Ready),
        decreases statuses@.len() - i,
    {
        assert(all[i as int] == statuses@[i as int]@);
        if let UndoStepStatus::Ready = &statuses[i] {
            assert(all[i as int] is Ready);
            return true;
        }
        i = i + 1;
    }
    false
}

/// Why steps cannot be undone, in order.
fn rejected_reasons(statuses: &Vec<UndoStepStatus>) -> (r: Vec<String>)
    ensures
        texts(r@) == rejections(statuses_view(statuses@)),
{
    let ghost all = statuses_view(statuses@);
    let mut reasons: Vec<String> = Vec::new();
    let mut i: usize = 0;
    assert(all.take(0) =~= Seq::empty());
    assert(texts(reasons@) =~= rejections(all.take(0)));
    while i < statuses.len()
        invariant
            i <= statuses@.len(),
            all == statuses_view(statuses@),
            texts(reasons@) == rejections(all.take(i as int)),
        decreases statuses@.len() - i,
    {
        let ghost before = texts(reasons@);
        proof {
            assert(all.take(i + 1).drop_last() =~= all.take(i as int));
            assert(all.take(i + 1).last() == statuses@[i as int]@);
        }
        if let UndoStepStatus::Rejected { reason } = &statuses[i] {
            reasons.push(reason.clone());
            assert(texts(reasons@) =~= before.push(reason@));
        }
        i = i + 1;
    }
    assert(all.take(i as int) =~= all);
    reasons
}

} // verus!
