use fyler_app::drag_flow::{
    start_rejection, CleanupChoiceResult, DragOutController, DragOutFlowResult, DragOutcome,
};
use fyler_app::fs_path::FsPath;
use fyler_app::import_flow::DropEffect;
use fyler_app::pane::PaneId;
use fyler_app::save_flow::ConfirmChoice;
use fyler_app::transfer_flow::TransferPaneState;

fn pane_state() -> TransferPaneState {
    TransferPaneState { dirty: false, idle: true, crashed: false, offline: false }
}

#[test]
fn start_rejection_blocks_on_busy_dirty_offline_crashed_and_saving() {
    assert_eq!(
        start_rejection(pane_state(), true),
        Some("Another save, transfer, or drag is in progress")
    );
    assert!(start_rejection(pane_state(), false).is_none());
    assert!(start_rejection(TransferPaneState { offline: true, ..pane_state() }, false).is_some());
    assert!(start_rejection(TransferPaneState { crashed: true, ..pane_state() }, false).is_some());
    assert!(start_rejection(TransferPaneState { dirty: true, ..pane_state() }, false).is_some());
    assert!(start_rejection(TransferPaneState { idle: false, ..pane_state() }, false).is_some());
}

#[test]
fn cancelled_or_copy_outcome_finishes_without_cleanup() {
    let pane = PaneId(1);
    let mut controller = DragOutController::new();
    controller.begin(pane);
    assert!(matches!(
        controller.on_outcome(pane, DragOutcome::Cancelled, Vec::new()),
        DragOutFlowResult::Done
    ));
    assert!(!controller.is_busy());

    controller.begin(pane);
    let outcome = DragOutcome::Dropped { effect: DropEffect::Copy, move_reported: false };
    assert!(matches!(
        controller.on_outcome(pane, outcome, Vec::new()),
        DragOutFlowResult::Done
    ));
    assert!(!controller.is_busy());
}

#[test]
fn move_reported_with_vanished_source_finishes_without_cleanup() {
    let pane = PaneId(1);
    let mut controller = DragOutController::new();
    controller.begin(pane);
    let outcome = DragOutcome::Dropped { effect: DropEffect::Move, move_reported: true };
    assert!(matches!(
        controller.on_outcome(pane, outcome, Vec::new()),
        DragOutFlowResult::Done
    ));
    assert!(!controller.is_busy());
}

#[test]
fn move_reported_with_remaining_source_requires_confirm_then_cleanup() {
    let pane = PaneId(1);
    let remaining = vec![FsPath::from_text(r"C:\src\a.txt")];
    let mut controller = DragOutController::new();
    controller.begin(pane);
    let outcome = DragOutcome::Dropped { effect: DropEffect::Move, move_reported: true };
    match controller.on_outcome(pane, outcome, vec![FsPath::from_text(r"C:\src\a.txt")]) {
        DragOutFlowResult::NeedsCleanupConfirm { pane_id, remaining: got } => {
            assert_eq!(pane_id, pane);
            assert_eq!(got, remaining);
        }
        other => panic!("unexpected result: {other:?}"),
    }
    assert!(controller.is_busy());
    assert!(controller.is_confirming());

    match controller.on_choice(ConfirmChoice::Approve) {
        CleanupChoiceResult::Approved { pane_id, remaining: got } => {
            assert_eq!(pane_id, pane);
            assert_eq!(got, remaining);
        }
        other => panic!("unexpected result: {other:?}"),
    }
    assert!(controller.is_busy());
    assert!(!controller.is_confirming());

    controller.finish_cleanup(pane);
    assert!(!controller.is_busy());
}

#[test]
fn cancelling_cleanup_confirm_leaves_source_untouched_and_clears_busy() {
    let pane = PaneId(1);
    let remaining = vec![FsPath::from_text(r"C:\src\a.txt")];
    let mut controller = DragOutController::new();
    controller.begin(pane);
    let outcome = DragOutcome::Dropped { effect: DropEffect::Move, move_reported: true };
    controller.on_outcome(pane, outcome, remaining);

    match controller.on_choice(ConfirmChoice::Cancel) {
        CleanupChoiceResult::Cancelled { pane_id } => assert_eq!(pane_id, pane),
        other => panic!("unexpected result: {other:?}"),
    }
    assert!(!controller.is_busy());
}

#[test]
fn on_outcome_ignores_stale_event_from_a_different_pane() {
    let pane = PaneId(1);
    let other = PaneId(2);
    let mut controller = DragOutController::new();
    controller.begin(pane);
    assert!(matches!(
        controller.on_outcome(other, DragOutcome::Cancelled, Vec::new()),
        DragOutFlowResult::Ignored
    ));
    assert!(controller.is_busy());
}

#[test]
fn invalidate_if_involves_clears_pending_state_for_crashed_pane() {
    let pane = PaneId(1);
    let other = PaneId(2);
    let mut controller = DragOutController::new();
    controller.begin(pane);
    assert!(!controller.invalidate_if_involves(other));
    assert!(controller.is_busy());
    assert!(controller.invalidate_if_involves(pane));
    assert!(!controller.is_busy());
}

#[test]
fn drag_sources_are_removed_only_with_approval() {
    let pane = PaneId(7);
    let mut controller = DragOutController::new();
    assert!(matches!(
        controller.on_choice(ConfirmChoice::Approve),
        CleanupChoiceResult::Ignored
    ));
    controller.begin(pane);
    let copied = DragOutcome::Dropped { effect: DropEffect::Copy, move_reported: false };
    controller.on_outcome(pane, copied, vec![FsPath::from_text("a.txt")]);
    assert!(matches!(
        controller.on_choice(ConfirmChoice::Approve),
        CleanupChoiceResult::Ignored
    ));
}
