use fyler_app::extract_flow::{
    confirm_lines, report_lines, start_rejection, ExtractController, ExtractFlowResult, ExtractOp,
    ExtractPlan,
};
use fyler_app::fs_path::FsPath;
use fyler_app::pane::PaneId;
use fyler_app::report::{CommitReport, OpOutcome, OpResult};
use fyler_app::save_flow::ConfirmChoice;
use fyler_app::save_result::CancelToken;
use fyler_app::transfer_flow::TransferPaneState;

fn plan() -> ExtractPlan {
    ExtractPlan {
        archive: FsPath::from_text("C:/src/a.zip"),
        dest_dir: FsPath::from_text("C:/src/a"),
        ops: Vec::new(),
        total_bytes: 0,
    }
}

fn file(name: &str) -> ExtractOp {
    ExtractOp {
        name: name.to_owned(),
        target: FsPath::from_text(&format!("C:/src/a/{name}")),
        is_dir: false,
    }
}

#[test]
fn extract_flow_happy_path_moves_through_states() {
    let mut controller = ExtractController::new();
    let pane = PaneId(1);
    controller.begin(pane, plan());
    assert!(controller.is_awaiting());

    let ExtractFlowResult::StartApply { pane: started_pane, cancel, plan: started } =
        controller.on_choice(ConfirmChoice::Approve, CancelToken(9))
    else {
        panic!("expected StartApply");
    };
    assert_eq!(started_pane, pane);
    assert_eq!(cancel, CancelToken(9));
    assert_eq!(started, plan());
    assert!(controller.is_running());
    assert!(!controller.cancel_requested());

    let report = CommitReport { results: Vec::new() };
    let ExtractFlowResult::Finished { pane: finished_pane, .. } = controller.on_finished(report)
    else {
        panic!("expected Finished");
    };
    assert_eq!(finished_pane, pane);
    assert!(!controller.is_awaiting());
    assert!(!controller.is_running());
}

#[test]
fn extract_flow_cancel_choice_while_awaiting_returns_to_idle() {
    let mut controller = ExtractController::new();
    let pane = PaneId(1);
    controller.begin(pane, plan());
    assert!(matches!(
        controller.on_choice(ConfirmChoice::Cancel, CancelToken(1)),
        ExtractFlowResult::Cancelled
    ));
    assert!(!controller.is_awaiting());
    assert!(!controller.is_running());
}

#[test]
fn extract_flow_cancel_choice_while_running_requests_cancellation_without_leaving_running() {
    let mut controller = ExtractController::new();
    let pane = PaneId(1);
    controller.begin(pane, plan());
    let ExtractFlowResult::StartApply { .. } =
        controller.on_choice(ConfirmChoice::Approve, CancelToken(1))
    else {
        panic!("expected StartApply");
    };
    assert!(matches!(
        controller.on_choice(ConfirmChoice::Cancel, CancelToken(2)),
        ExtractFlowResult::CancelRequested
    ));
    assert!(controller.cancel_requested());
    assert!(controller.is_running());
}

#[test]
fn extract_flow_invalidate_if_involves_only_clears_awaiting_matching_pane() {
    let mut controller = ExtractController::new();
    let pane = PaneId(1);
    let other = PaneId(2);
    controller.begin(pane, plan());
    assert!(!controller.invalidate_if_involves(other));
    assert!(controller.is_awaiting());
    assert!(controller.invalidate_if_involves(pane));
    assert!(!controller.is_awaiting());
}

#[test]
fn start_rejection_orders_checks() {
    let idle_pane =
        TransferPaneState { dirty: false, idle: true, crashed: false, offline: false };
    assert_eq!(
        start_rejection(idle_pane, true),
        Some("Another save, transfer, or import is in progress")
    );
    assert_eq!(
        start_rejection(TransferPaneState { offline: true, ..idle_pane }, false),
        Some("Cannot extract into an offline or unreachable pane")
    );
    assert_eq!(
        start_rejection(TransferPaneState { crashed: true, ..idle_pane }, false),
        Some("Cannot extract into a pane that has stopped")
    );
    assert_eq!(
        start_rejection(TransferPaneState { dirty: true, ..idle_pane }, false),
        Some("Cannot extract into a pane being edited. Save or discard changes first.")
    );
    assert_eq!(
        start_rejection(TransferPaneState { idle: false, ..idle_pane }, false),
        Some("Cannot extract into a pane that is saving")
    );
    assert_eq!(start_rejection(idle_pane, false), None);
}

#[test]
fn confirm_lines_reports_entry_count_and_size() {
    let mut single = plan();
    single.ops.push(file("a.txt"));
    single.total_bytes = 2 * 1024 * 1024;
    let lines = confirm_lines(&single, "2.0");
    assert_eq!(lines.len(), 1);
    assert!(lines[0].starts_with("EXTRACT C:/src/a.zip"));
    assert!(lines[0].contains("1 entry"));
    assert!(lines[0].contains("2.0 MB"));

    let mut multi = plan();
    multi.ops.push(file("a.txt"));
    multi.ops.push(file("b.txt"));
    assert!(confirm_lines(&multi, "0.0")[0].contains("2 entries"));
}

#[test]
fn report_lines_marks_failures_with_ng_prefix() {
    let report = CommitReport {
        results: vec![
            OpResult { op: file("a.txt"), outcome: OpOutcome::Success },
            OpResult {
                op: file("b.txt"),
                outcome: OpOutcome::Failed { error: "disk full".to_owned(), progress: None },
            },
        ],
    };
    let (lines, any_failed) = report_lines(&report);
    assert!(any_failed);
    assert_eq!(lines.len(), 2);
    assert!(lines[0].starts_with("OK  EXTRACT a.txt"));
    assert!(lines[1].starts_with("NG  EXTRACT b.txt"));
    assert!(lines[1].contains("disk full"));
}
