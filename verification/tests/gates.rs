use fyler_app::fs_path::{FsPath, JoinedPath};
use fyler_app::gates::{
    classify_loader_result, close_rejection, engines_stopped_message, feedback_start_rejection,
    incomplete_probe_paths, loader_completion_is_stale, loader_root_changed, loader_start_gate,
    open_file_picker_rejection, open_terminal_rejection, picker_reveal_start_rejection,
    root_changed_while_loading, should_defer_external_change, should_restore_session,
    takes_editor_event, tree_edit_rejection, undo_rejection, LoaderResult, LoaderStartGate,
};

#[test]
fn picker_start_gate_rejects_each_busy_or_crashed_condition() {
    for conditions in [
        (true, false, false, false, false, true),
        (false, true, false, false, false, true),
        (false, false, true, false, false, true),
        (false, false, false, true, false, true),
        (false, false, false, false, true, true),
        (false, false, false, false, false, false),
    ] {
        assert!(open_file_picker_rejection(
            conditions.0,
            conditions.1,
            conditions.2,
            conditions.3,
            conditions.4,
            conditions.5,
        )
        .is_some());
        assert!(open_terminal_rejection(
            conditions.0,
            conditions.1,
            conditions.2,
            conditions.3,
            conditions.4,
            conditions.5,
        )
        .is_some());
        assert!(tree_edit_rejection(
            conditions.0,
            conditions.1,
            conditions.2,
            conditions.3,
            conditions.4,
            conditions.5,
        )
        .is_some());
    }
    assert!(open_file_picker_rejection(false, false, false, false, false, true).is_none());
    assert!(open_terminal_rejection(false, false, false, false, false, true).is_none());
    assert!(tree_edit_rejection(false, false, false, false, false, true).is_none());
}

#[test]
fn close_rejects_last_dirty_busy_and_applying_panes() {
    assert_eq!(
        close_rejection(false, true, false, true, false),
        Some("The last pane cannot be closed")
    );
    assert_eq!(
        close_rejection(true, true, false, false, false),
        Some("A pane being edited cannot be closed")
    );
    assert_eq!(
        close_rejection(false, false, false, false, false),
        Some("A pane that is saving cannot be closed")
    );
    assert_eq!(
        close_rejection(false, true, true, false, false),
        Some("A pane cannot be closed during apply")
    );
    assert_eq!(close_rejection(false, true, false, false, false), None);
}

#[test]
fn crashed_pane_can_close_even_if_snapshot_is_dirty_or_save_is_busy() {
    assert_eq!(close_rejection(true, false, false, false, true), None);
}

#[test]
fn undo_rejects_busy_dirty_and_empty_slot() {
    assert_eq!(
        undo_rejection(false, false, false, true),
        Some("Another save is in progress")
    );
    assert_eq!(
        undo_rejection(true, false, false, false),
        Some("Cannot undo while editing. Save or discard changes.")
    );
    assert_eq!(
        undo_rejection(false, true, false, false),
        Some("No operations are available to undo")
    );
    assert_eq!(
        undo_rejection(false, false, true, false),
        Some("Cannot undo while the folder is offline or unreachable")
    );
    assert_eq!(undo_rejection(false, false, false, false), None);
}

#[test]
fn feedback_start_gate_only_rejects_an_existing_dialog() {
    assert_eq!(feedback_start_rejection(false), None);
    assert_eq!(
        feedback_start_rejection(true),
        Some("Close the other dialog before opening feedback")
    );
}

#[test]
fn incomplete_probe_pauses_while_dialog_is_open() {
    let blocked = || vec![JoinedPath::bare(FsPath::from_text("C:/root")).join("blocked")];
    assert_eq!(
        incomplete_probe_paths(Some(blocked()), false, false),
        Some(blocked())
    );
    assert!(incomplete_probe_paths(Some(blocked()), true, false).is_none());
    assert!(incomplete_probe_paths(Some(blocked()), false, true).is_none());
}

#[test]
fn root_change_loader_classifies_success_and_cancel_without_committing_cancelled_data() {
    assert!(matches!(
        classify_loader_result::<_, ()>(Ok(Some("new-root"))),
        LoaderResult::Ready("new-root")
    ));
    assert!(matches!(
        classify_loader_result::<(), ()>(Ok(None)),
        LoaderResult::Cancelled
    ));
    assert!(matches!(
        classify_loader_result::<(), u8>(Err(7)),
        LoaderResult::Failed(7)
    ));
}

#[test]
fn loader_completion_discards_missing_crashed_changed_dirty_and_busy_panes() {
    assert!(loader_completion_is_stale(true, false, false, false, true));
    assert!(loader_completion_is_stale(false, true, false, false, true));
    assert!(loader_completion_is_stale(false, false, true, false, true));
    assert!(loader_completion_is_stale(false, false, false, true, true));
    assert!(loader_completion_is_stale(false, false, false, false, false));
    assert!(!loader_completion_is_stale(false, false, false, false, true));
}

#[test]
fn root_load_completion_is_not_stale_despite_pending_root_swap() {
    let old_root = FsPath::from_text("C:/Users");
    let new_root = FsPath::from_text("C:/");
    assert!(!loader_root_changed(true, &old_root, &new_root));
    assert!(loader_root_changed(false, &old_root, &new_root));
    assert!(!loader_root_changed(false, &old_root, &old_root));
    assert!(root_changed_while_loading(false, false));
    assert!(!root_changed_while_loading(true, false));
}

#[test]
fn picker_reveal_start_rejects_dirty_and_busy_loader_owner() {
    assert_eq!(
        picker_reveal_start_rejection(true, false, false, true),
        Some("Cannot reveal a folded search candidate while editing. Save or discard changes.")
    );
    assert_eq!(
        picker_reveal_start_rejection(false, true, false, true),
        Some("Another operation is in progress")
    );
    assert_eq!(picker_reveal_start_rejection(false, false, false, true), None);
}

#[test]
fn root_change_start_gate_preserves_existing_dirty_and_busy_rules() {
    assert_eq!(
        loader_start_gate(true, false, true, false, false),
        LoaderStartGate::Reject(
            "You are editing. Save or discard changes before changing directories."
        )
    );
    assert_eq!(
        loader_start_gate(false, false, false, false, false),
        LoaderStartGate::RejectSilently
    );
    assert_eq!(
        loader_start_gate(false, false, true, false, true),
        LoaderStartGate::Reject("Another operation is in progress")
    );
    assert_eq!(
        loader_start_gate(false, false, true, false, false),
        LoaderStartGate::Allow
    );
}

#[test]
fn directory_loader_participates_in_external_change_deferral() {
    assert!(should_defer_external_change(false, false, true));
    assert!(should_defer_external_change(true, false, false));
    assert!(should_defer_external_change(false, true, false));
    assert!(!should_defer_external_change(false, false, false));
}

#[test]
fn explicit_root_and_disabled_setting_bypass_session_restore() {
    assert!(!should_restore_session(true, true));
    assert!(!should_restore_session(false, false));
    assert!(should_restore_session(false, true));
}

#[test]
fn stopped_editor_takes_few_wishes() {
    assert!(takes_editor_event(false, false, false));
    assert!(!takes_editor_event(true, false, false));
    assert!(takes_editor_event(true, true, false));
    assert!(takes_editor_event(true, false, true));
}

#[test]
fn program_ends_with_its_last_editor() {
    assert_eq!(engines_stopped_message(&vec![true, false]), None);
    assert_eq!(
        engines_stopped_message(&vec![true, true]),
        Some("All editor engines have stopped")
    );
}

#[test]
fn roots_are_compared_as_paths() {
    let root = FsPath::from_text("/work/a");
    assert!(!loader_root_changed(false, &root, &FsPath::from_text("/work//a/")));
    assert!(!loader_root_changed(false, &root, &FsPath::from_text("/work/./a")));
    assert!(loader_root_changed(false, &root, &FsPath::from_text("/work/b")));
    let odd = |byte| FsPath { text: "/\u{fffd}".to_owned(), raw: Some(vec![b'/', byte]) };
    assert!(!loader_root_changed(false, &odd(0xff), &odd(0xff)));
    assert!(loader_root_changed(false, &odd(0xff), &odd(0xfe)));
    assert!(loader_root_changed(false, &odd(0xff), &FsPath::from_text("/\u{fffd}")));
}
