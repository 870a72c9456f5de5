use fyler_app::fs_path::FsPath;
use fyler_app::import_flow::{
    start_rejection, DropEffect, ImportController, ImportFlowResult, ImportPlan,
};
use fyler_app::pane::PaneId;
use fyler_app::report::CommitReport;
use fyler_app::save_flow::ConfirmChoice;
use fyler_app::save_result::CancelToken;
use fyler_app::transfer_flow::TransferPaneState;

fn pane_ok() -> TransferPaneState {
    TransferPaneState { dirty: false, idle: true, crashed: false, offline: false }
}

#[test]
fn start_rejection_blocks_when_globally_busy() {
    assert_eq!(
        start_rejection(pane_ok(), true),
        Some("Another save, transfer, or import is in progress")
    );
}

#[test]
fn start_rejection_blocks_offline_crashed_dirty_and_non_idle_panes() {
    let mut state = pane_ok();
    state.offline = true;
    assert!(start_rejection(state, false).is_some());

    let mut state = pane_ok();
    state.crashed = true;
    assert!(start_rejection(state, false).is_some());

    let mut state = pane_ok();
    state.dirty = true;
    assert!(start_rejection(state, false).is_some());

    let mut state = pane_ok();
    state.idle = false;
    assert!(start_rejection(state, false).is_some());
}

#[test]
fn start_rejection_allows_idle_pane() {
    assert_eq!(start_rejection(pane_ok(), false), None);
}

fn plan() -> ImportPlan {
    ImportPlan {
        sources: vec![FsPath::from_text("C:/src/a.txt")],
        dest_dir: FsPath::from_text("C:/dest"),
        effect: DropEffect::Copy,
    }
}

#[test]
fn import_flow_happy_path_moves_through_states() {
    let mut controller = ImportController::new();
    let pane = PaneId(1);
    controller.begin(pane, plan(), Vec::new());
    assert!(controller.is_awaiting());

    let ImportFlowResult::StartApply { pane: started_pane, cancel, plan: started, .. } =
        controller.on_choice(ConfirmChoice::Approve, CancelToken(3))
    else {
        panic!("expected StartApply");
    };
    assert_eq!(started_pane, pane);
    assert_eq!(cancel, CancelToken(3));
    assert_eq!(started, plan());
    assert!(controller.is_running());
    assert!(!controller.cancel_requested());

    let report = CommitReport { results: Vec::new() };
    let ImportFlowResult::Finished { pane: finished_pane, effect, .. } =
        controller.on_finished(report)
    else {
        panic!("expected Finished");
    };
    assert_eq!(finished_pane, pane);
    assert_eq!(effect, DropEffect::Copy);
    assert!(!controller.is_awaiting());
    assert!(!controller.is_running());
}

#[test]
fn import_flow_cancel_choice_while_awaiting_returns_to_idle() {
    let mut controller = ImportController::new();
    let pane = PaneId(1);
    controller.begin(pane, plan(), Vec::new());
    assert!(matches!(
        controller.on_choice(ConfirmChoice::Cancel, CancelToken(1)),
        ImportFlowResult::Cancelled
    ));
    assert!(!controller.is_awaiting());
    assert!(!controller.is_running());
}

#[test]
fn import_flow_cancel_choice_while_running_requests_cancellation_without_leaving_running() {
    let mut controller = ImportController::new();
    let pane = PaneId(1);
    controller.begin(pane, plan(), Vec::new());
    let ImportFlowResult::StartApply { .. } =
        controller.on_choice(ConfirmChoice::Approve, CancelToken(1))
    else {
        panic!("expected StartApply");
    };
    assert!(matches!(
        controller.on_choice(ConfirmChoice::Cancel, CancelToken(2)),
        ImportFlowResult::CancelRequested
    ));
    assert!(controller.cancel_requested());
    assert!(controller.is_running());
}

#[test]
fn import_flow_invalidate_if_involves_only_clears_awaiting_matching_pane() {
    let mut controller = ImportController::new();
    let pane = PaneId(1);
    let other = PaneId(2);
    controller.begin(pane, plan(), Vec::new());
    assert!(!controller.invalidate_if_involves(other));
    assert!(controller.is_awaiting());
    assert!(controller.invalidate_if_involves(pane));
    assert!(!controller.is_awaiting());
}
