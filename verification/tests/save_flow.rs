use std::collections::{HashMap, HashSet};

use fyler_app::baseline::{BaselineEntry, BaselineTree, EntryMeta};
use fyler_app::folding::FoldOp;
use fyler_app::fs_path::FsPath;
use fyler_app::grammar::{format_id_prefix, split_id_prefix, EditorLine, EntryId, PrefixParse};
use fyler_app::listing::baseline_to_lines;
use fyler_app::options::{ScanOptions, SortKey, SortOrder};
use fyler_app::plan::{FsOperation, OperationPlan, ValidateError};
use fyler_app::report::{failed_report, CommitReport, OpOutcome, OpResult};
use fyler_app::save_flow::{
    ConfirmChoice, ExternalStep, FoldResult, PipelineOutcome, PlannedChanges, ReconcileOutcome,
    RevealResult, SaveController, ScanOutcome, ToggleCollapseResult,
};
use fyler_app::save_result::{CancelToken, SaveFlowResult};
use fyler_app::save_state::SaveState;
use fyler_app::tree::{EntryKind, TreePath};
use fyler_app::undo::{Fingerprint, UndoStep, UndoStepStatus, UndoTransaction};
use fyler_app::warnings::{plan_warnings, Overwrite, OverwriteSize, PlanWarning, SourceFact};

const ROOT: &str = "C:/test-root";
const TOKEN: CancelToken = CancelToken(1);

fn root() -> FsPath {
    FsPath::from_text(ROOT)
}

fn tree(entries: &[(u64, &str, EntryKind)]) -> BaselineTree {
    tree_at(ROOT, entries)
}

fn tree_at(root: &str, entries: &[(u64, &str, EntryKind)]) -> BaselineTree {
    let mut baseline = BaselineTree::new(FsPath::from_text(root));
    for (id, path, kind) in entries {
        baseline.insert(BaselineEntry {
            id: EntryId(*id),
            path: TreePath::parse(path),
            kind: *kind,
        });
    }
    baseline
}

fn controller() -> SaveController {
    SaveController::new(root(), tree(&[(1, "a.txt", EntryKind::File)]))
}

fn hierarchy_controller() -> SaveController {
    SaveController::new(
        root(),
        tree(&[
            (1, "a", EntryKind::Dir),
            (2, "a/nested", EntryKind::Dir),
            (3, "a/nested/leaf.txt", EntryKind::File),
            (4, "a/child.txt", EntryKind::File),
            (5, "top.txt", EntryKind::File),
        ]),
    )
}

fn nested_dirs_controller() -> SaveController {
    SaveController::new(
        root(),
        tree(&[(1, "a", EntryKind::Dir), (2, "a/b", EntryKind::Dir), (3, "a/b/c", EntryKind::Dir)]),
    )
}

fn lines(lines: &[&str]) -> Vec<EditorLine> {
    lines.iter().map(|line| EditorLine::new(line.to_string())).collect()
}

fn planned(ops: Vec<FsOperation>, overwrites: Vec<Overwrite>) -> PipelineOutcome {
    let sources = ops.iter().map(|_| SourceFact { placeholder: false, size: None }).collect();
    PipelineOutcome::Parsed {
        errors: Vec::new(),
        planned: Ok(PlannedChanges {
            plan: OperationPlan { ops },
            sources,
            blocked: Vec::new(),
            overwrites,
        }),
    }
}

fn rename(id: u64, from: &str, to: &str) -> FsOperation {
    FsOperation::Move { id: EntryId(id), from: TreePath::parse(from), to: TreePath::parse(to) }
}

fn renamed(to: &str) -> PipelineOutcome {
    planned(vec![rename(1, "a.txt", to)], Vec::new())
}

fn begin_rename_apply(controller: &mut SaveController) -> (OperationPlan, CancelToken) {
    assert!(matches!(
        controller.on_commit(1, renamed("b.txt")),
        SaveFlowResult::ShowPlan { .. }
    ));
    match controller.on_choice(ConfirmChoice::Approve, TOKEN) {
        SaveFlowResult::StartApply { plan, cancel, .. } => (plan, cancel),
        result => panic!("nothing was started: {result:?}"),
    }
}

fn transaction(name: &str) -> UndoTransaction {
    UndoTransaction {
        id: format!("tx-{name}"),
        root: root(),
        steps: vec![UndoStep::RemoveCreated {
            path: FsPath::from_text(&format!("{ROOT}/{name}")),
            identity: None,
            post: Fingerprint {
                kind: EntryKind::File,
                size: Some(7),
                mtime: None,
                link_target: None,
            },
        }],
        backup_dir: None,
    }
}

fn undo_report(step: UndoStep, outcome: OpOutcome) -> CommitReport<UndoStep> {
    CommitReport { results: vec![OpResult { op: step, outcome }] }
}

fn done(controller: &SaveController, baseline: BaselineTree) -> ReconcileOutcome {
    ReconcileOutcome::Done(controller.prepare_reconcile(baseline))
}

fn ask_undo(controller: &mut SaveController) {
    assert!(matches!(
        controller.request_undo(transaction("created.txt"), vec![UndoStepStatus::Ready]),
        SaveFlowResult::ShowUndoPlan { .. }
    ));
}

fn external(controller: &mut SaveController, scanned: BaselineTree, dirty: bool) -> SaveFlowResult {
    match controller.on_external_change(ScanOutcome::Scanned(scanned), dirty) {
        ExternalStep::Done(result) => result,
        ExternalStep::Send(reconciled) => controller.on_external_lines_sent(reconciled, true),
    }
}

fn ends(lines: &[EditorLine], end: &str) -> bool {
    lines.iter().any(|line| line.text.ends_with(end))
}

fn toggled(result: ToggleCollapseResult) -> Vec<EditorLine> {
    match result {
        ToggleCollapseResult::Toggled(lines) => lines,
        result => panic!("unexpected toggle result: {result:?}"),
    }
}

fn fold_applied(result: FoldResult) -> (Vec<EditorLine>, Option<usize>) {
    match result {
        FoldResult::Applied { lines, cursor_line } => (lines, cursor_line),
        result => panic!("unexpected fold result: {result:?}"),
    }
}

fn filtered_lines(baseline: &BaselineTree, collapsed: &HashSet<u64>) -> Vec<EditorLine> {
    let folded = baseline
        .entries()
        .iter()
        .filter(|entry| entry.kind == EntryKind::Dir && collapsed.contains(&entry.id.0))
        .collect::<Vec<_>>();
    baseline
        .entries()
        .iter()
        .filter(|entry| !folded.iter().any(|dir| dir.path.is_strict_ancestor_of(&entry.path)))
        .map(|entry| {
            EditorLine::new(format!(
                "{}{}{}{}",
                format_id_prefix(entry.id),
                fyler_app::grammar::indent(entry.path.depth().saturating_sub(1)),
                entry.path.name().unwrap(),
                if entry.kind == EntryKind::Dir { "/" } else { "" },
            ))
        })
        .collect()
}

#[test]
fn map_git_badges_matches_exact_root_relative_paths_only() {
    let controller = controller();
    let statuses = vec![
        (TreePath::parse("a.txt"), 'M'),
        (TreePath::parse("other/a.txt"), 'A'),
    ];
    assert_eq!(controller.map_git_badges(&statuses), HashMap::from([(1, 'M')]));
}

#[test]
fn map_git_badges_returns_empty_for_empty_statuses() {
    assert!(controller().map_git_badges::<char>(&Vec::new()).is_empty());
}

#[test]
fn map_git_badges_ignores_unmatched_paths() {
    let statuses = vec![(TreePath::parse("missing.txt"), 'U')];
    assert!(controller().map_git_badges(&statuses).is_empty());
}

#[test]
fn change_sort_rescans_and_preserves_collapsed_dirs() {
    let options = ScanOptions {
        show_hidden: false,
        sort: SortOrder::Mixed,
        key: SortKey::Name,
        reverse: false,
    };
    let mut controller = SaveController::new_with_scan_options(
        root(),
        tree(&[
            (1, "dir", EntryKind::Dir),
            (2, "dir/child.txt", EntryKind::File),
            (3, "large.txt", EntryKind::File),
            (4, "small.txt", EntryKind::File),
        ]),
        options,
    );
    controller.collapse_all_dirs();
    assert_eq!(
        controller.sorted_options(SortKey::Size, false),
        ScanOptions { key: SortKey::Size, ..options }
    );
    let by_size = tree(&[
        (4, "small.txt", EntryKind::File),
        (3, "large.txt", EntryKind::File),
        (1, "dir", EntryKind::Dir),
        (2, "dir/child.txt", EntryKind::File),
    ]);
    let lines =
        controller.change_sort(SortKey::Size, false, ScanOutcome::Scanned(by_size)).unwrap();

    assert_eq!(controller.sort_state(), (SortKey::Size, false));
    assert!(controller.collapsed_dirs().contains(&1));
    assert_eq!(lines.len(), 3);
    assert!(lines[0].text.ends_with("small.txt"));
    assert!(lines[1].text.ends_with("large.txt"));
    assert!(lines[2].text.ends_with("dir/"));
}

#[test]
fn change_sort_requires_idle_state() {
    let mut controller = controller();
    assert!(matches!(
        controller.on_commit(1, renamed("b.txt")),
        SaveFlowResult::ShowPlan { .. }
    ));
    let error = controller
        .change_sort(SortKey::Date, false, ScanOutcome::Scanned(tree(&[])))
        .unwrap_err();
    assert!(error.contains("保存処理中"));
    assert_eq!(controller.sort_state(), (SortKey::Name, false));
}

#[test]
fn rename_returns_confirmation_plan() {
    let mut controller = controller();
    let result = controller.on_commit(7, renamed("b.txt"));
    assert_eq!(
        result,
        SaveFlowResult::ShowPlan {
            plan: OperationPlan { ops: vec![rename(1, "a.txt", "b.txt")] },
            warnings: Vec::new(),
            overwrites: Vec::new(),
        }
    );
    assert!(matches!(
        controller.state(),
        SaveState::AwaitingConfirmation { changedtick: 7, .. }
    ));
    assert_eq!(controller.take_commands(), [false]);
}

fn told(warnings: &[PlanWarning], sizes: &[&str]) -> Vec<String> {
    warnings.iter().zip(sizes).map(|(warning, size)| warning.text(size)).collect()
}

#[test]
fn plan_warnings_include_placeholder_path_and_human_readable_size() {
    let plan = OperationPlan {
        ops: vec![FsOperation::Copy {
            src: EntryId(1),
            from: TreePath::parse("cloud.bin"),
            to: TreePath::parse("cloud-copy.bin"),
        }],
    };
    let warnings = plan_warnings(
        &tree(&[]),
        &plan,
        &vec![SourceFact { placeholder: true, size: Some(2048) }],
        &Vec::new(),
    );
    assert_eq!(warnings[0].size(), Some(2048));
    assert_eq!(told(&warnings, &["2.0 KB"]), ["クラウドから取得します: cloud.bin(2.0 KB)"]);
}

#[test]
fn plan_warnings_omit_size_when_metadata_is_unavailable() {
    let plan = OperationPlan { ops: vec![rename(1, "missing.bin", "renamed.bin")] };
    let warnings = plan_warnings(
        &tree(&[]),
        &plan,
        &vec![SourceFact { placeholder: true, size: None }],
        &Vec::new(),
    );
    assert_eq!(told(&warnings, &[""]), ["クラウドから取得します: missing.bin"]);
}

fn meta(size: Option<u64>, is_placeholder: bool) -> EntryMeta {
    EntryMeta { size, modified: None, is_placeholder }
}

#[test]
fn plan_warnings_include_delete_backup_estimate_and_unknown_size() {
    let mut baseline = tree(&[
        (1, "old", EntryKind::Dir),
        (2, "old/a.bin", EntryKind::File),
        (3, "old/b.bin", EntryKind::File),
        (4, "old/unknown.bin", EntryKind::File),
    ]);
    baseline.set_meta(EntryId(1), meta(None, false));
    baseline.set_meta(EntryId(2), meta(Some(1024 * 1024), false));
    baseline.set_meta(EntryId(3), meta(Some(512 * 1024), false));
    let plan = OperationPlan {
        ops: vec![FsOperation::Delete { id: EntryId(1), path: TreePath::parse("old") }],
    };
    let warnings = plan_warnings(
        &baseline,
        &plan,
        &vec![SourceFact { placeholder: false, size: None }],
        &Vec::new(),
    );
    assert_eq!(warnings.len(), 1);
    assert_eq!(warnings[0].size(), Some(1536 * 1024));
    assert_eq!(
        told(&warnings, &["1.5 MB"]),
        ["削除前にbackupを作成します: 約1.5 MB (一部サイズ不明)"]
    );
}

fn overwrite(path: &str, size: OverwriteSize, placeholder: bool) -> Overwrite {
    Overwrite { path: TreePath::parse(path), size, placeholder }
}

#[test]
fn plan_warnings_include_overwrite_backup_estimate() {
    let warnings = plan_warnings(
        &tree(&[]),
        &OperationPlan { ops: Vec::new() },
        &Vec::new(),
        &vec![overwrite("existing.bin", OverwriteSize::Known(2048), false)],
    );
    assert_eq!(warnings[0].size(), Some(2048));
    assert_eq!(told(&warnings, &["2.0 KB"]), ["上書き前にbackupを作成します: 約2.0 KB"]);
}

#[test]
fn plan_warnings_include_placeholder_backup_warnings() {
    let mut baseline = tree(&[(1, "cloud.bin", EntryKind::File)]);
    baseline.set_meta(EntryId(1), meta(Some(4096), true));
    let plan = OperationPlan {
        ops: vec![FsOperation::Delete { id: EntryId(1), path: TreePath::parse("cloud.bin") }],
    };
    let warnings = plan_warnings(
        &baseline,
        &plan,
        &vec![SourceFact { placeholder: false, size: None }],
        &vec![overwrite("overwrite.bin", OverwriteSize::Known(1024), true)],
    );
    assert_eq!(
        told(&warnings, &["4.0 KB", "4.0 KB", "1.0 KB", "1.0 KB"]),
        [
            "クラウドから取得します: cloud.bin(4.0 KB)",
            "削除前にbackupを作成します: 約4.0 KB",
            "クラウドから取得します: overwrite.bin(1.0 KB)",
            "上書き前にbackupを作成します: 約1.0 KB",
        ]
    );
    assert_eq!(
        warnings.iter().map(PlanWarning::size).collect::<Vec<_>>(),
        [Some(4096), Some(4096), Some(1024), Some(1024)]
    );
}

#[test]
fn reserved_character_returns_validation_errors() {
    let mut controller = controller();
    let result = controller.on_commit(
        1,
        PipelineOutcome::Parsed {
            errors: vec![ValidateError::ReservedChar { line: 0, ch: '<' }],
            planned: Err(Vec::new()),
        },
    );
    assert!(matches!(
        result,
        SaveFlowResult::ShowValidationErrors(ref errors)
            if errors.iter().any(|error| matches!(
                error,
                ValidateError::ReservedChar { line: 0, ch: '<' }
            ))
    ));
    assert!(matches!(controller.state(), SaveState::Idle));
    assert_eq!(controller.take_commands(), [false, true]);
}

#[test]
fn broken_prefix_returns_validation_errors() {
    let mut controller = controller();
    assert!(matches!(split_id_prefix("/0"), PrefixParse::Broken));
    let result = controller.on_commit(
        1,
        PipelineOutcome::Unparsed(vec![ValidateError::BrokenIdPrefix { line: 0 }]),
    );
    assert!(matches!(
        result,
        SaveFlowResult::ShowValidationErrors(ref errors)
            if errors == &[ValidateError::BrokenIdPrefix { line: 0 }]
    ));
    assert!(matches!(controller.state(), SaveState::Idle));
}

#[test]
fn unchanged_buffer_skips_confirmation_and_returns_to_idle() {
    let mut controller = controller();
    let result = controller.on_commit(1, planned(Vec::new(), Vec::new()));
    assert_eq!(result, SaveFlowResult::NoChanges);
    assert!(matches!(controller.state(), SaveState::Idle));
}

#[test]
fn approve_applies_rename_and_reconciles_buffer_from_filesystem() {
    let mut controller = controller();
    let (plan, _) = begin_rename_apply(&mut controller);
    assert!(matches!(controller.state(), SaveState::Applying { cancelled: false, .. }));
    let report = CommitReport {
        results: plan
            .ops
            .into_iter()
            .map(|op| OpResult { op, outcome: OpOutcome::Success })
            .collect(),
    };
    let outcome = done(&controller, tree(&[(2, "b.txt", EntryKind::File)]));
    if let ReconcileOutcome::Done(reconciled) = &outcome {
        assert!(ends(reconciled.lines(), "b.txt"));
        assert!(!ends(reconciled.lines(), "a.txt"));
    }
    let result = controller.on_apply_finished(report, outcome);
    assert!(matches!(
        result,
        SaveFlowResult::ShowReport(ref report) if report.any_succeeded() && !report.any_failed()
    ));
    assert!(matches!(controller.state(), SaveState::Idle));
    assert!(controller
        .baseline()
        .entries()
        .iter()
        .any(|entry| entry.path == TreePath::parse("b.txt")));
    assert_eq!(controller.take_commands(), [false, true]);
}

#[test]
fn hidden_file_conflict_is_approved_and_recycled_end_to_end() {
    let mut controller =
        SaveController::new(root(), tree(&[(1, "visible.txt", EntryKind::File)]));
    let result = controller.on_commit(
        1,
        planned(
            vec![rename(1, "visible.txt", ".hidden")],
            vec![overwrite(".hidden", OverwriteSize::Known(8), false)],
        ),
    );
    assert!(matches!(
        result,
        SaveFlowResult::ShowPlan { ref overwrites, .. }
            if overwrites == &[TreePath::parse(".hidden")]
    ));
    let SaveFlowResult::StartApply { plan, overwrites, .. } =
        controller.on_choice(ConfirmChoice::Approve, TOKEN)
    else {
        panic!("nothing was started");
    };
    assert_eq!(overwrites, [TreePath::parse(".hidden")]);
    assert_eq!(plan.ops, [rename(1, "visible.txt", ".hidden")]);
}

#[test]
fn hidden_directory_conflict_returns_validation_error_and_keeps_dirty_buffer() {
    let mut controller =
        SaveController::new(root(), tree(&[(1, "visible.txt", EntryKind::File)]));
    let result = controller.on_commit(
        1,
        PipelineOutcome::Parsed {
            errors: Vec::new(),
            planned: Ok(PlannedChanges {
                plan: OperationPlan { ops: vec![rename(1, "visible.txt", ".d")] },
                sources: vec![SourceFact { placeholder: false, size: None }],
                blocked: vec![TreePath::parse(".d")],
                overwrites: Vec::new(),
            }),
        },
    );
    assert_eq!(
        result,
        SaveFlowResult::ShowValidationErrors(vec![ValidateError::TargetOccupiedByDirectory {
            path: TreePath::parse(".d"),
        }])
    );
    assert!(matches!(controller.state(), SaveState::Idle));
    assert_eq!(controller.take_commands(), [false, true]);
}

#[test]
fn cancel_clears_pending_overwrites_and_recomputes_them_on_next_commit() {
    let mut controller =
        SaveController::new(root(), tree(&[(1, "visible.txt", EntryKind::File)]));
    for changedtick in [1, 2] {
        assert!(matches!(
            controller.on_commit(
                changedtick,
                planned(
                    vec![rename(1, "visible.txt", ".hidden")],
                    vec![overwrite(".hidden", OverwriteSize::Known(8), false)],
                ),
            ),
            SaveFlowResult::ShowPlan { ref overwrites, .. }
                if overwrites == &[TreePath::parse(".hidden")]
        ));
        assert_eq!(
            controller.on_choice(ConfirmChoice::Cancel, TOKEN),
            SaveFlowResult::Cancelled
        );
        assert!(matches!(controller.state(), SaveState::Idle));
    }
}

#[test]
fn cancel_leaves_filesystem_and_baseline_unchanged() {
    let mut controller = controller();
    controller.on_commit(1, renamed("b.txt"));
    assert_eq!(
        controller.on_choice(ConfirmChoice::Cancel, TOKEN),
        SaveFlowResult::Cancelled
    );
    assert!(matches!(controller.state(), SaveState::Idle));
    assert_eq!(controller.baseline().entries()[0].path, TreePath::parse("a.txt"));
    assert_eq!(controller.take_commands(), [false, true]);
}

#[test]
fn all_failed_returns_report_without_reconciling() {
    let mut controller = controller();
    let (plan, _) = begin_rename_apply(&mut controller);
    let outcome = done(&controller, tree(&[(9, "other.txt", EntryKind::File)]));
    let result = controller.on_apply_finished(failed_report(plan.ops, "missing"), outcome);
    assert!(matches!(
        result,
        SaveFlowResult::ShowReport(ref report) if !report.any_succeeded()
    ));
    assert!(matches!(controller.state(), SaveState::Idle));
    assert_eq!(controller.baseline().entries()[0].path, TreePath::parse("a.txt"));
    assert_eq!(controller.take_commands(), [false, true]);
}

#[test]
fn all_skipped_apply_returns_idle_without_reconciling_baseline() {
    let mut controller = controller();
    let (plan, _) = begin_rename_apply(&mut controller);
    let report = CommitReport {
        results: plan
            .ops
            .into_iter()
            .map(|op| OpResult {
                op,
                outcome: OpOutcome::Skipped {
                    reason: "ユーザーがキャンセルしました".to_owned(),
                },
            })
            .collect(),
    };
    let outcome = done(&controller, tree(&[(9, "other.txt", EntryKind::File)]));
    let result = controller.on_apply_finished(report, outcome);
    assert!(matches!(
        result,
        SaveFlowResult::ShowReport(ref report) if !report.any_succeeded()
    ));
    assert!(matches!(controller.state(), SaveState::Idle));
    assert_eq!(controller.baseline().entries()[0].path, TreePath::parse("a.txt"));
    assert_eq!(controller.take_commands(), [false, true]);
}

#[test]
fn tree_that_cannot_be_read_again_is_reported() {
    let mut controller = controller();
    let (plan, _) = begin_rename_apply(&mut controller);
    let report = CommitReport {
        results: plan
            .ops
            .into_iter()
            .map(|op| OpResult { op, outcome: OpOutcome::Success })
            .collect(),
    };
    assert!(matches!(
        controller.on_apply_finished(report, ReconcileOutcome::ScanFailed),
        SaveFlowResult::ReconcileFailed { ref error, .. }
            if error == "実FSの再スキャンに失敗しました"
    ));
}

#[test]
fn cancel_while_applying_sets_worker_flag_and_keeps_applying() {
    let mut controller = controller();
    let (_, cancel) = begin_rename_apply(&mut controller);
    assert_eq!(cancel, TOKEN);
    let result = controller.on_choice(ConfirmChoice::Cancel, CancelToken(2));
    assert_eq!(result, SaveFlowResult::ApplyCancelRequested);
    assert!(matches!(
        controller.state(),
        SaveState::Applying { cancel: TOKEN, cancelled: true, .. }
    ));
    assert!(controller.is_applying());
}

#[test]
fn approve_while_applying_is_ignored() {
    let mut controller = controller();
    begin_rename_apply(&mut controller);
    let result = controller.on_choice(ConfirmChoice::Approve, CancelToken(2));
    assert_eq!(result, SaveFlowResult::Ignored);
    assert!(matches!(controller.state(), SaveState::Applying { cancelled: false, .. }));
    assert!(controller.is_applying());
}

#[test]
fn request_undo_ready_transaction_returns_plan_and_locks_buffer() {
    let mut controller = controller();
    let result = controller.request_undo(transaction("created.txt"), vec![UndoStepStatus::Ready]);
    assert!(matches!(
        result,
        SaveFlowResult::ShowUndoPlan { transaction: actual, statuses }
            if actual == transaction("created.txt") && statuses == vec![UndoStepStatus::Ready]
    ));
    assert!(matches!(
        controller.state(),
        SaveState::AwaitingUndoConfirmation { .. }
    ));
    assert_eq!(controller.take_commands(), [false]);
}

#[test]
fn request_undo_all_rejected_returns_nothing_left_without_state_change() {
    let mut controller = controller();
    let result = controller.request_undo(
        transaction("missing.txt"),
        vec![UndoStepStatus::Rejected { reason: "gone".to_owned() }],
    );
    assert!(matches!(
        result,
        SaveFlowResult::UndoNothingLeft { reasons } if !reasons.is_empty()
    ));
    assert!(matches!(controller.state(), SaveState::Idle));
    assert!(controller.take_commands().is_empty());
}

#[test]
fn request_undo_while_not_idle_is_ignored() {
    let mut controller = controller();
    controller.on_commit(1, renamed("b.txt"));
    let result = controller.request_undo(transaction("created.txt"), vec![UndoStepStatus::Ready]);
    assert_eq!(result, SaveFlowResult::Ignored);
    assert!(matches!(
        controller.state(),
        SaveState::AwaitingConfirmation { .. }
    ));
}

#[test]
fn approving_undo_starts_worker_and_enters_applying_undo() {
    let mut controller = controller();
    ask_undo(&mut controller);
    let SaveFlowResult::StartUndo { transaction: actual, cancel } =
        controller.on_choice(ConfirmChoice::Approve, TOKEN)
    else {
        panic!("nothing was started");
    };
    assert_eq!(actual, transaction("created.txt"));
    assert_eq!(cancel, TOKEN);
    assert!(matches!(
        controller.state(),
        SaveState::ApplyingUndo { cancelled: false, .. }
    ));
    assert_eq!(controller.applying_undo_transaction_id(), Some("tx-created.txt"));
}

#[test]
fn canceling_undo_returns_transaction_and_unlocks_buffer() {
    let mut controller = controller();
    ask_undo(&mut controller);
    let result = controller.on_choice(ConfirmChoice::Cancel, TOKEN);
    assert_eq!(
        result,
        SaveFlowResult::UndoCancelled { transaction: transaction("created.txt") }
    );
    assert!(matches!(controller.state(), SaveState::Idle));
    assert_eq!(controller.take_commands(), [false, true]);
}

#[test]
fn cancel_while_applying_undo_sets_worker_flag_and_keeps_applying() {
    let mut controller = controller();
    ask_undo(&mut controller);
    controller.on_choice(ConfirmChoice::Approve, TOKEN);
    let result = controller.on_choice(ConfirmChoice::Cancel, CancelToken(2));
    assert_eq!(result, SaveFlowResult::ApplyCancelRequested);
    assert!(matches!(
        controller.state(),
        SaveState::ApplyingUndo { cancelled: true, .. }
    ));
}

#[test]
fn undo_finished_all_failed_reports_without_reconcile() {
    let mut controller = controller();
    ask_undo(&mut controller);
    controller.on_choice(ConfirmChoice::Approve, TOKEN);
    let report = || {
        undo_report(
            transaction("created.txt").steps.remove(0),
            OpOutcome::Failed { error: "stale".to_owned(), progress: None },
        )
    };
    let outcome = done(&controller, tree(&[]));
    let result = controller.on_undo_finished(report(), outcome);
    assert_eq!(result, SaveFlowResult::ShowUndoReport(report()));
    assert!(matches!(controller.state(), SaveState::Idle));
    assert_eq!(controller.baseline().entries().len(), 1);
}

#[test]
fn undo_finished_partial_success_reconciles_from_filesystem() {
    let mut controller = controller();
    ask_undo(&mut controller);
    controller.on_choice(ConfirmChoice::Approve, TOKEN);
    let report = || undo_report(transaction("created.txt").steps.remove(0), OpOutcome::Success);
    let outcome = done(&controller, tree(&[(1, "a.txt", EntryKind::File), (2, "created.txt", EntryKind::File)]));
    let result = controller.on_undo_finished(report(), outcome);
    assert_eq!(result, SaveFlowResult::ShowUndoReport(report()));
    assert!(matches!(controller.state(), SaveState::Idle));
    assert!(ends(&controller.visible_lines(), "created.txt"));
    assert_eq!(controller.take_commands(), [false, true]);
}

#[test]
fn external_change_during_undo_confirmation_invalidates_and_returns_transaction() {
    let mut controller = controller();
    ask_undo(&mut controller);
    let result = external(
        &mut controller,
        tree(&[(1, "a.txt", EntryKind::File), (2, "external.txt", EntryKind::File)]),
        false,
    );
    assert!(matches!(
        result,
        SaveFlowResult::UndoInvalidated { transaction: actual, message }
            if actual == transaction("created.txt") && message.contains("undoを中断しました")
    ));
    assert!(matches!(controller.state(), SaveState::Idle));
    assert_eq!(controller.take_commands(), [false, true]);
}

#[test]
fn commit_while_applying_is_ignored() {
    let mut controller = controller();
    begin_rename_apply(&mut controller);
    let result = controller.on_commit(2, renamed("c.txt"));
    assert_eq!(result, SaveFlowResult::Ignored);
    assert!(controller.is_applying());
}

#[test]
fn external_change_replaces_clean_buffer_and_updates_baseline() {
    let mut controller = controller();
    let both = [(1, "a.txt", EntryKind::File), (2, "b.txt", EntryKind::File)];
    assert_eq!(external(&mut controller, tree(&both), false), SaveFlowResult::ExternalChanged);
    assert!(controller
        .baseline()
        .entries()
        .iter()
        .any(|entry| entry.path == TreePath::parse("b.txt")));
    assert!(ends(&controller.visible_lines(), "b.txt"));
    assert!(controller.take_commands().is_empty());
}

#[test]
fn external_change_does_not_replace_dirty_buffer_or_baseline() {
    let mut controller = controller();
    let both = [(1, "a.txt", EntryKind::File), (2, "b.txt", EntryKind::File)];
    let result = external(&mut controller, tree(&both), true);
    assert!(matches!(
        result,
        SaveFlowResult::ExternalChangeNotified(ref message)
            if message.contains("外部でファイルが変更されました")
    ));
    assert!(controller
        .baseline()
        .entries()
        .iter()
        .all(|entry| entry.path != TreePath::parse("b.txt")));
    assert!(controller.take_commands().is_empty());
}

#[test]
fn external_change_matching_baseline_is_ignored() {
    let mut controller = controller();
    let result = external(&mut controller, tree(&[(1, "a.txt", EntryKind::File)]), false);
    assert_eq!(result, SaveFlowResult::NoChanges);
    assert!(controller.take_commands().is_empty());
}

#[test]
fn metadata_only_external_change_refreshes_visible_file_info() {
    let mut controller = controller();
    let mut changed = tree(&[(1, "a.txt", EntryKind::File)]);
    changed.set_meta(EntryId(1), meta(Some(14), false));
    assert_eq!(external(&mut controller, changed, false), SaveFlowResult::NoChanges);
    assert_eq!(controller.visible_file_infos().get(&1).unwrap().size, Some(14));
    assert!(controller.take_commands().is_empty());
}

#[test]
fn external_mtime_change_resorts_date_order_and_sends_lines() {
    let mut controller = SaveController::new(
        root(),
        tree(&[(1, "a.txt", EntryKind::File), (2, "b.txt", EntryKind::File)]),
    );
    let resorted = tree(&[(2, "b.txt", EntryKind::File), (1, "a.txt", EntryKind::File)]);
    match controller.on_external_change(ScanOutcome::Scanned(resorted), false) {
        ExternalStep::Send(reconciled) => {
            assert_eq!(reconciled.lines().len(), 2);
            assert!(reconciled.lines()[0].text.ends_with("b.txt"));
            assert!(reconciled.lines()[1].text.ends_with("a.txt"));
            assert_eq!(
                controller.on_external_lines_sent(reconciled, true),
                SaveFlowResult::ExternalChanged
            );
        }
        ExternalStep::Done(result) => panic!("unexpected result: {result:?}"),
    }
}

#[test]
fn external_change_that_cannot_be_shown_is_reported() {
    let mut controller = controller();
    let step = controller.on_external_change(ScanOutcome::Scanned(tree(&[])), false);
    let ExternalStep::Send(reconciled) = step else {
        panic!("nothing to send");
    };
    assert!(matches!(
        controller.on_external_lines_sent(reconciled, false),
        SaveFlowResult::ExternalChangeFailed(_)
    ));
    assert_eq!(controller.baseline().entries().len(), 1);
    assert!(matches!(
        controller.on_external_change(ScanOutcome::Failed, false),
        ExternalStep::Done(SaveFlowResult::ExternalChangeFailed(_))
    ));
    assert!(matches!(
        controller.on_external_change(ScanOutcome::LockPoisoned, false),
        ExternalStep::Done(SaveFlowResult::ExternalChangeFailed(_))
    ));
}

#[test]
fn external_change_during_confirmation_invalidates_plan_and_blocks_approve() {
    let mut controller = controller();
    controller.on_commit(1, renamed("b.txt"));
    let result = external(
        &mut controller,
        tree(&[(1, "a.txt", EntryKind::File), (3, "c.txt", EntryKind::File)]),
        false,
    );
    assert!(matches!(
        &result,
        SaveFlowResult::PlanInvalidated(message)
            if message.contains("外部でファイルが変更されたため、保存を中断しました")
    ));
    assert!(matches!(controller.state(), SaveState::Idle));
    assert_eq!(controller.take_commands(), [false, true]);
    assert_eq!(
        controller.on_choice(ConfirmChoice::Approve, TOKEN),
        SaveFlowResult::Ignored
    );
}

#[test]
fn external_change_event_matching_baseline_keeps_confirmation_approvable() {
    let mut controller = controller();
    controller.on_commit(1, renamed("b.txt"));
    let result = external(&mut controller, tree(&[(1, "a.txt", EntryKind::File)]), false);
    assert_eq!(result, SaveFlowResult::NoChanges);
    assert!(matches!(
        controller.state(),
        SaveState::AwaitingConfirmation { .. }
    ));
    let SaveFlowResult::StartApply { plan, .. } =
        controller.on_choice(ConfirmChoice::Approve, TOKEN)
    else {
        panic!("an approved plan is applied");
    };
    assert!(matches!(controller.state(), SaveState::Applying { cancelled: false, .. }));
    assert_eq!(controller.baseline().entries()[0].path, TreePath::parse("a.txt"));
    let report = CommitReport {
        results: plan
            .ops
            .into_iter()
            .map(|op| OpResult { op, outcome: OpOutcome::Success })
            .collect(),
    };
    let outcome = done(&controller, tree(&[(2, "b.txt", EntryKind::File)]));
    assert!(matches!(
        controller.on_apply_finished(report, outcome),
        SaveFlowResult::ShowReport(ref report)
            if report.results.len() == 1
                && report.results.iter().all(|result| matches!(result.outcome, OpOutcome::Success))
    ));
    assert!(matches!(controller.state(), SaveState::Idle));
    assert_eq!(controller.baseline().entries()[0].path, TreePath::parse("b.txt"));
}

#[test]
fn toggled_directory_keeps_its_line() {
    let mut controller = hierarchy_controller();
    let before = controller.visible_lines();
    assert_eq!(
        controller.resolve_line(&before, 1),
        Some((TreePath::parse("a/nested"), EntryKind::Dir))
    );
    let folded = toggled(controller.toggle_collapse(&before, 1));
    assert_eq!(folded.len(), before.len() - 1);
    assert_eq!(
        controller.resolve_line(&folded, 1),
        Some((TreePath::parse("a/nested"), EntryKind::Dir))
    );
    assert_eq!(folded[0].text, before[0].text);
    let again = toggled(controller.toggle_collapse(&folded, 1));
    assert_eq!(again, before);
}

#[test]
fn resolve_line_uses_embedded_id_and_current_baseline() {
    let controller = controller();
    let edited = format!("{}edited-name.txt", format_id_prefix(EntryId(1)));
    let buffer_lines = lines(&["保存前の新規行.txt", &edited, "/999 missing.txt"]);
    assert_eq!(controller.resolve_line(&buffer_lines, 0), None);
    assert_eq!(
        controller.resolve_line(&buffer_lines, 1),
        Some((TreePath::parse("a.txt"), EntryKind::File))
    );
    assert_eq!(controller.resolve_line(&buffer_lines, 2), None);
    assert_eq!(controller.resolve_line(&buffer_lines, 3), None);
}

#[test]
fn find_top_level_line_ignores_children_and_missing_names() {
    let controller = hierarchy_controller();
    assert_eq!(controller.find_top_level_line("a"), Some(0));
    assert_eq!(controller.find_top_level_line("top.txt"), Some(4));
    assert_eq!(controller.find_top_level_line("nested"), None);
    assert_eq!(controller.find_top_level_line("missing"), None);
}

#[test]
fn parent_navigation_cursor_target_finds_the_previous_child_in_shallow_baseline() {
    let controller = SaveController::new(root(), tree(&[(1, "child", EntryKind::Dir)]));
    assert_eq!(controller.find_top_level_line("child"), Some(0));
}

#[test]
fn visible_file_infos_excludes_collapsed_descendants_and_restores_them_after_expand() {
    let mut baseline = tree(&[
        (1, "directory", EntryKind::Dir),
        (2, "directory/child.txt", EntryKind::File),
        (3, "file.txt", EntryKind::File),
    ]);
    for (id, size) in [(1, None), (2, Some(5)), (3, Some(7))] {
        baseline.set_meta(EntryId(id), meta(size, false));
    }
    let mut controller = SaveController::new(root(), baseline);
    controller.collapse_all_dirs();
    let collapsed_infos = controller.visible_file_infos();
    assert_eq!(collapsed_infos.len(), 2);
    assert!(collapsed_infos.contains_key(&1));
    assert!(collapsed_infos.contains_key(&3));
    assert!(!collapsed_infos.contains_key(&2));

    let collapsed_lines = controller.visible_lines();
    toggled(controller.toggle_collapse(&collapsed_lines, 0));
    let expanded_infos = controller.visible_file_infos();
    assert_eq!(expanded_infos.len(), 3);
    assert!(expanded_infos.contains_key(&2));
}

#[test]
fn change_root_succeeds_only_while_idle() {
    let mut controller =
        SaveController::new(FsPath::from_text("C:/old-root"), tree_at("C:/old-root", &[(1, "a.txt", EntryKind::File)]));
    let new_root = || FsPath::from_text("C:/new-root");
    let moved = || tree_at("C:/new-root", &[(1, "a.txt", EntryKind::File)]);
    controller.change_root_preserving_allocator(new_root(), moved()).unwrap();

    assert_eq!(controller.root(), &new_root());
    assert_eq!(controller.baseline().root(), &new_root());
    assert_eq!(
        controller.resolve_line(&lines(&["/001 a.txt"]), 0),
        Some((TreePath::parse("a.txt"), EntryKind::File))
    );

    assert!(matches!(
        controller.on_commit(7, renamed("b.txt")),
        SaveFlowResult::ShowPlan { .. }
    ));
    let rejected = FsPath::from_text("C:/rejected-root");
    assert!(controller
        .change_root_preserving_allocator(rejected, tree_at("C:/rejected-root", &[]))
        .is_err());
    assert_eq!(controller.root(), &new_root());
    assert!(matches!(
        controller.state(),
        SaveState::AwaitingConfirmation { .. }
    ));
}

#[test]
fn root_and_tree_have_to_match() {
    let mut controller = controller();
    let error = controller
        .change_root_preserving_allocator(FsPath::from_text("C:/x"), tree_at("C:/y", &[]))
        .unwrap_err();
    assert!(error.contains("C:/x"));
    assert!(error.contains("C:/y"));
    assert_eq!(controller.root(), &root());
}

#[test]
fn toggle_collapse_removes_descendants_and_expand_restores_them() {
    let mut controller = hierarchy_controller();
    let expanded = controller.visible_lines();
    let collapsed = toggled(controller.toggle_collapse(&expanded, 0));
    assert_eq!(collapsed.len(), 2);
    assert!(collapsed[0].text.ends_with("a/"));
    assert!(collapsed[1].text.ends_with("top.txt"));
    let expanded_again = toggled(controller.toggle_collapse(&collapsed, 0));
    assert_eq!(expanded_again, expanded);
}

#[test]
fn close_on_file_collapses_parent_and_moves_cursor() {
    let mut controller = hierarchy_controller();
    let expanded = controller.visible_lines();
    let (collapsed, cursor_line) = fold_applied(controller.fold(&expanded, 2, FoldOp::Close));
    assert_eq!(cursor_line, Some(1));
    assert!(collapsed[1].text.ends_with("nested/"));
    assert!(!ends(&collapsed, "leaf.txt"));
    assert_eq!(controller.collapsed_dirs(), &HashSet::from([2]));
}

#[test]
fn close_on_expanded_dir_collapses_it() {
    let mut controller = hierarchy_controller();
    let expanded = controller.visible_lines();
    let (collapsed, cursor_line) = fold_applied(controller.fold(&expanded, 0, FoldOp::Close));
    assert_eq!(cursor_line, Some(0));
    assert_eq!(collapsed.len(), 2);
    assert!(collapsed[0].text.ends_with("a/"));
    assert_eq!(controller.collapsed_dirs(), &HashSet::from([1]));
}

#[test]
fn close_on_collapsed_dir_climbs_to_parent() {
    let mut controller = hierarchy_controller();
    let expanded = controller.visible_lines();
    let (nested_collapsed, _) = fold_applied(controller.fold(&expanded, 1, FoldOp::Close));
    let (parent_collapsed, cursor_line) =
        fold_applied(controller.fold(&nested_collapsed, 1, FoldOp::Close));
    assert_eq!(cursor_line, Some(0));
    assert_eq!(parent_collapsed.len(), 2);
    assert!(parent_collapsed[0].text.ends_with("a/"));
    assert_eq!(controller.collapsed_dirs(), &HashSet::from([1, 2]));
}

#[test]
fn close_on_top_level_file_is_noop() {
    let mut controller = hierarchy_controller();
    let expanded = controller.visible_lines();
    assert_eq!(controller.fold(&expanded, 4, FoldOp::Close), FoldResult::NoOp);
    assert_eq!(controller.visible_lines(), expanded);
}

#[test]
fn open_on_collapsed_dir_expands() {
    let mut controller = hierarchy_controller();
    let expanded = controller.visible_lines();
    let (nested_collapsed, _) = fold_applied(controller.fold(&expanded, 1, FoldOp::Close));
    let (opened, cursor_line) = fold_applied(controller.fold(&nested_collapsed, 1, FoldOp::Open));
    assert_eq!(cursor_line, Some(1));
    assert!(ends(&opened, "leaf.txt"));
    assert!(controller.collapsed_dirs().is_empty());
}

#[test]
fn toggle_on_file_closes_parent() {
    let mut controller = hierarchy_controller();
    let expanded = controller.visible_lines();
    let (collapsed, cursor_line) = fold_applied(controller.fold(&expanded, 3, FoldOp::Toggle));
    assert_eq!(cursor_line, Some(0));
    assert_eq!(collapsed.len(), 2);
    assert_eq!(controller.collapsed_dirs(), &HashSet::from([1]));
}

#[test]
fn close_recursive_collapses_descendant_dirs() {
    let mut controller = hierarchy_controller();
    let expanded = controller.visible_lines();
    let (collapsed, cursor_line) =
        fold_applied(controller.fold(&expanded, 0, FoldOp::CloseRecursive));
    assert_eq!(cursor_line, Some(0));
    assert_eq!(collapsed.len(), 2);
    assert_eq!(controller.collapsed_dirs(), &HashSet::from([1, 2]));
}

#[test]
fn reveal_entry_returns_the_correct_line_when_already_visible() {
    let mut controller = hierarchy_controller();
    assert_eq!(
        controller.reveal_entry(EntryId(3)),
        RevealResult::AlreadyVisible { line: 2 }
    );
}

#[test]
fn open_recursive_expands_descendant_dirs() {
    let mut controller = hierarchy_controller();
    controller.collapse_all_dirs();
    let collapsed = controller.visible_lines();
    let (opened, cursor_line) =
        fold_applied(controller.fold(&collapsed, 0, FoldOp::OpenRecursive));
    assert_eq!(cursor_line, Some(0));
    assert!(ends(&opened, "leaf.txt"));
    assert!(controller.collapsed_dirs().is_empty());
}

#[test]
fn close_all_moves_cursor_to_top_level_ancestor() {
    let mut controller = hierarchy_controller();
    let expanded = controller.visible_lines();
    let (collapsed, cursor_line) = fold_applied(controller.fold(&expanded, 2, FoldOp::CloseAll));
    assert_eq!(cursor_line, Some(0));
    assert_eq!(collapsed.len(), 2);
    assert_eq!(controller.collapsed_dirs(), &HashSet::from([1, 2]));
}

#[test]
fn open_all_clears_and_keeps_cursor_entry() {
    let mut controller = hierarchy_controller();
    let expanded = controller.visible_lines();
    let (nested_collapsed, _) = fold_applied(controller.fold(&expanded, 1, FoldOp::Close));
    let (opened, cursor_line) =
        fold_applied(controller.fold(&nested_collapsed, 1, FoldOp::OpenAll));
    assert_eq!(cursor_line, Some(1));
    assert_eq!(opened, expanded);
    assert!(controller.collapsed_dirs().is_empty());
}

fn ask_about_top(controller: &mut SaveController) {
    assert!(matches!(
        controller.on_commit(
            7,
            planned(vec![rename(5, "top.txt", "renamed.txt")], Vec::new()),
        ),
        SaveFlowResult::ShowPlan { .. }
    ));
}

#[test]
fn fold_busy_when_not_idle() {
    let mut controller = hierarchy_controller();
    let lines = controller.visible_lines();
    ask_about_top(&mut controller);
    assert_eq!(controller.fold(&lines, 0, FoldOp::Close), FoldResult::Busy);
}

#[test]
fn fold_not_found_for_no_id_line() {
    let mut controller = hierarchy_controller();
    assert_eq!(
        controller.fold(&lines(&["new.txt"]), 0, FoldOp::Close),
        FoldResult::NotFound
    );
}

#[test]
fn reveal_entry_expands_one_collapsed_ancestor() {
    let mut controller = hierarchy_controller();
    let expanded = controller.visible_lines();
    toggled(controller.toggle_collapse(&expanded, 0));
    let RevealResult::Revealed { lines, line } = controller.reveal_entry(EntryId(4)) else {
        panic!("collapsed child was not revealed");
    };
    assert_eq!(line, 3);
    assert_eq!(lines, controller.visible_lines());
    assert!(matches!(
        split_id_prefix(&lines[line].text),
        PrefixParse::WithId { id: EntryId(4), .. }
    ));
}

#[test]
fn reveal_entry_expands_every_collapsed_ancestor() {
    let mut controller = hierarchy_controller();
    controller.collapse_all_dirs();
    let RevealResult::Revealed { lines, line } = controller.reveal_entry(EntryId(3)) else {
        panic!("deeply collapsed entry was not revealed");
    };
    assert_eq!(line, 2);
    assert_eq!(lines, controller.visible_lines());
    assert!(!controller.collapsed_dirs().contains(&1));
    assert!(!controller.collapsed_dirs().contains(&2));
    assert!(matches!(
        split_id_prefix(&lines[line].text),
        PrefixParse::WithId { id: EntryId(3), .. }
    ));
}

#[test]
fn reveal_entry_returns_not_found_without_changing_collapsed_state() {
    let mut controller = hierarchy_controller();
    controller.collapse_all_dirs();
    let collapsed = controller.collapsed_dirs().clone();
    assert_eq!(controller.reveal_entry(EntryId(999)), RevealResult::NotFound);
    assert_eq!(controller.collapsed_dirs(), &collapsed);
}

#[test]
fn reveal_entry_returns_busy_during_save_flow() {
    let mut controller = hierarchy_controller();
    controller.collapse_all_dirs();
    ask_about_top(&mut controller);
    let collapsed = controller.collapsed_dirs().clone();
    assert_eq!(controller.reveal_entry(EntryId(3)), RevealResult::Busy);
    assert_eq!(controller.collapsed_dirs(), &collapsed);
}

#[test]
fn visible_entries_matches_legacy_filter_for_nested_collapsed_dirs() {
    let controller = hierarchy_controller();
    let collapsed = HashSet::from([1, 2]);
    assert_eq!(
        baseline_to_lines(controller.baseline(), &collapsed),
        filtered_lines(controller.baseline(), &collapsed)
    );
}

#[test]
fn visible_entries_matches_legacy_filter_after_parent_is_expanded() {
    let controller = hierarchy_controller();
    let collapsed = HashSet::from([2]);
    let actual = baseline_to_lines(controller.baseline(), &collapsed);
    assert_eq!(actual, filtered_lines(controller.baseline(), &collapsed));
    assert!(ends(&actual, "nested/"));
    assert!(!ends(&actual, "leaf.txt"));
}

#[test]
fn visible_entries_matches_legacy_filter_for_deep_hierarchy() {
    let baseline = tree(&[
        (1, "a", EntryKind::Dir),
        (2, "a/b", EntryKind::Dir),
        (3, "a/b/c", EntryKind::Dir),
        (4, "a/b/c/d", EntryKind::Dir),
        (5, "a/b/c/d/leaf.txt", EntryKind::File),
        (6, "top.txt", EntryKind::File),
    ]);
    let collapsed = HashSet::from([3]);
    assert_eq!(
        baseline_to_lines(&baseline, &collapsed),
        filtered_lines(&baseline, &collapsed)
    );
}

#[test]
fn collapse_all_dirs_marks_every_directory_collapsed() {
    let mut controller = hierarchy_controller();
    controller.collapse_all_dirs();
    let lines = controller.visible_lines();
    assert_eq!(lines.len(), 2);
    assert!(lines[0].text.ends_with("a/"));
    assert!(lines[1].text.ends_with("top.txt"));
    assert_eq!(controller.collapsed_dirs(), &HashSet::from([1, 2]));
}

#[test]
fn expanding_directory_reveals_only_one_level() {
    let mut controller = nested_dirs_controller();
    controller.collapse_all_dirs();
    let collapsed = controller.visible_lines();
    let expanded_parent = toggled(controller.toggle_collapse(&collapsed, 0));
    assert!(ends(&expanded_parent, "b/"));
    assert!(!ends(&expanded_parent, "c/"));
}

#[test]
fn parent_collapse_and_reexpand_preserves_expanded_child() {
    let mut controller = nested_dirs_controller();
    controller.collapse_all_dirs();
    let collapsed = controller.visible_lines();
    let expanded_parent = toggled(controller.toggle_collapse(&collapsed, 0));
    let expanded_child = toggled(controller.toggle_collapse(&expanded_parent, 1));
    assert!(ends(&expanded_child, "c/"));
    let collapsed_parent = toggled(controller.toggle_collapse(&expanded_child, 0));
    let reexpanded_parent = toggled(controller.toggle_collapse(&collapsed_parent, 0));
    assert!(ends(&reexpanded_parent, "c/"));
    assert!(!controller.collapsed_dirs().contains(&2));
}

#[test]
fn toggle_collapse_preserves_nested_collapsed_directory() {
    let mut controller = hierarchy_controller();
    let expanded = controller.visible_lines();
    let nested_collapsed = toggled(controller.toggle_collapse(&expanded, 1));
    assert!(!ends(&nested_collapsed, "leaf.txt"));
    let parent_collapsed = toggled(controller.toggle_collapse(&nested_collapsed, 0));
    let parent_expanded = toggled(controller.toggle_collapse(&parent_collapsed, 0));
    assert!(ends(&parent_expanded, "nested/"));
    assert!(ends(&parent_expanded, "child.txt"));
    assert!(!ends(&parent_expanded, "leaf.txt"));
}

#[test]
fn toggle_collapse_rejects_non_directory() {
    let mut controller = hierarchy_controller();
    let lines = controller.visible_lines();
    assert_eq!(
        controller.toggle_collapse(&lines, 2),
        ToggleCollapseResult::NotADirectory
    );
    assert_eq!(controller.visible_lines(), lines);
}

#[test]
fn toggle_collapse_rejects_non_idle_save_state() {
    let mut controller = hierarchy_controller();
    let lines = controller.visible_lines();
    ask_about_top(&mut controller);
    assert_eq!(controller.toggle_collapse(&lines, 0), ToggleCollapseResult::Busy);
}

#[test]
fn external_change_keeps_existing_collapsed_state() {
    let before = [
        (1, "a", EntryKind::Dir),
        (2, "a/child.txt", EntryKind::File),
        (3, "top.txt", EntryKind::File),
    ];
    let after = [
        (1, "a", EntryKind::Dir),
        (2, "a/child.txt", EntryKind::File),
        (4, "new.txt", EntryKind::File),
        (3, "top.txt", EntryKind::File),
    ];
    let mut controller = SaveController::new(root(), tree(&before));
    let expanded = controller.visible_lines();
    let collapsed = toggled(controller.toggle_collapse(&expanded, 0));
    assert!(!ends(&collapsed, "child.txt"));
    assert_eq!(
        external(&mut controller, tree(&after), false),
        SaveFlowResult::ExternalChanged
    );
    let shown = controller.visible_lines();
    assert!(!ends(&shown, "child.txt"));
    assert!(ends(&shown, "new.txt"));
}

#[test]
fn toggle_hidden_rescans_and_preserves_the_option() {
    let visible = [(1, "visible.txt", EntryKind::File)];
    let all = [(2, ".hidden.txt", EntryKind::File), (1, "visible.txt", EntryKind::File)];
    let mut controller = SaveController::new(root(), tree(&visible));
    assert!(controller.toggled_hidden_options().show_hidden);
    let shown = controller.toggle_hidden(ScanOutcome::Scanned(tree(&all))).unwrap();
    assert!(controller.scan_options().show_hidden);
    assert!(ends(&shown, ".hidden.txt"));
    let hidden = controller.toggle_hidden(ScanOutcome::Scanned(tree(&visible))).unwrap();
    assert!(!controller.scan_options().show_hidden);
    assert!(!ends(&hidden, ".hidden.txt"));
    assert!(controller.toggle_hidden(ScanOutcome::Failed).is_err());
    assert!(!controller.scan_options().show_hidden);
}

#[test]
fn toggle_hidden_adds_new_directory_as_collapsed() {
    let mut controller = SaveController::new(root(), tree(&[]));
    controller.collapse_all_dirs();
    let shown = controller
        .toggle_hidden(ScanOutcome::Scanned(tree(&[
            (1, ".hidden", EntryKind::Dir),
            (2, ".hidden/child.txt", EntryKind::File),
        ])))
        .unwrap();
    assert!(ends(&shown, ".hidden/"));
    assert!(!ends(&shown, "child.txt"));
    assert!(controller.collapsed_dirs().contains(&1));
}

#[test]
fn results_are_equal_where_their_paths_are_in_any_order() {
    let started = |overwrites: [&str; 2]| SaveFlowResult::StartApply {
        plan: OperationPlan { ops: Vec::new() },
        overwrites: overwrites.iter().map(|path| TreePath::parse(path)).collect(),
        cancel: TOKEN,
    };
    assert_eq!(started(["a", "b"]), started(["b", "a"]));
    assert_ne!(started(["a", "b"]), started(["a", "c"]));
    assert_ne!(SaveFlowResult::Cancelled, SaveFlowResult::Ignored);
}
