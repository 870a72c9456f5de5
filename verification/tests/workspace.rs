use fyler_app::baseline::{BaselineEntry, BaselineTree};
use fyler_app::commands::OpenWithChoice;
use fyler_app::desk::{
    ActivePicker, ConfirmRoute, Desk, DeskEffect, FeedbackStep, LoaderKind, RetryAction,
    StartStep, UndoRequestStep,
};
use fyler_app::feedback::FeedbackOutcome;
use fyler_app::folding::FoldOp;
use fyler_app::fs_path::{FsPath, JoinedPath};
use fyler_app::grammar::EntryId;
use fyler_app::notices::{
    external_change_notices, send_save_result, Message, MessageKind, SaveNotice,
};
use fyler_app::pane::{PaneId, PaneLayout, SplitDirection};
use fyler_app::pane_book::{CreatedStep, PaneAction, PaneBook, PaneFacts, PaneStep};
use fyler_app::picker::RootKey;
use fyler_app::plan::{FsOperation, OperationPlan};
use fyler_app::report::CommitReport;
use fyler_app::save_flow::{ConfirmChoice, PipelineOutcome, PlannedChanges, SaveController};
use fyler_app::save_result::{CancelToken, SaveFlowResult};
use fyler_app::transfer_flow::{TransferFlowResult, TransferPlan};
use fyler_app::tree::{EntryKind, TreePath};
use fyler_app::tree_commands::PickerAction;
use fyler_app::undo::{UndoStepStatus, UndoTransaction};
use fyler_app::undo_slots::{
    begin_failure, discard_all_undo_slots, discard_undo_slot, record_apply,
};
use fyler_app::warnings::SourceFact;

const ONE: PaneId = PaneId(1);
const TWO: PaneId = PaneId(2);
const TOKEN: CancelToken = CancelToken(5);

fn root() -> FsPath {
    FsPath::from_text("/root")
}

fn controller() -> SaveController {
    let mut baseline = BaselineTree::new(root());
    baseline.insert(BaselineEntry {
        id: EntryId(1),
        path: TreePath::parse("a.txt"),
        kind: EntryKind::File,
    });
    SaveController::new(root(), baseline)
}

fn renamed() -> PipelineOutcome {
    PipelineOutcome::Parsed {
        errors: Vec::new(),
        planned: Ok(PlannedChanges {
            plan: OperationPlan {
                ops: vec![FsOperation::Move {
                    id: EntryId(1),
                    from: TreePath::parse("a.txt"),
                    to: TreePath::parse("b.txt"),
                }],
            },
            sources: vec![SourceFact { placeholder: false, size: None }],
            blocked: Vec::new(),
            overwrites: Vec::new(),
        }),
    }
}

fn transaction(id: &str) -> UndoTransaction {
    UndoTransaction { id: id.to_owned(), root: root(), steps: Vec::new(), backup_dir: None }
}

fn plan() -> TransferPlan {
    TransferPlan { from_root: root(), to_root: FsPath::from_text("/other"), ops: Vec::new() }
}

fn facts() -> PaneFacts {
    PaneFacts {
        workspace_applying: false,
        dirty: false,
        idle: true,
        crashed: false,
        owns_dialog: false,
        neighbor: None,
        sibling: None,
        closed: None,
    }
}

fn two_panes() -> PaneLayout {
    PaneLayout::Split {
        direction: SplitDirection::Vertical,
        ratio: 0.5f64.to_bits(),
        first: Box::new(PaneLayout::Leaf(ONE)),
        second: Box::new(PaneLayout::Leaf(TWO)),
    }
}

#[test]
fn pane_is_split_focused_and_closed() {
    let mut book = PaneBook::new(vec![ONE], PaneLayout::Leaf(ONE), ONE, 2);
    match book.handle_pane_action(PaneAction::SplitVertical, ONE, facts()) {
        PaneStep::Create { id, direction } => {
            assert_eq!(id, TWO);
            assert_eq!(direction, SplitDirection::Vertical);
        }
        other => panic!("unexpected step: {other:?}"),
    }
    assert!(matches!(
        book.on_pane_created(TWO, Ok(()), Some(two_panes())),
        CreatedStep::Added
    ));
    assert_eq!(book.panes(), &[ONE, TWO]);
    assert_eq!(book.active(), TWO);
    assert_eq!(book.last_active(), ONE);

    assert!(matches!(
        book.handle_pane_action(PaneAction::FocusNext, TWO, facts()),
        PaneStep::Focused
    ));
    assert_eq!(book.active(), ONE);

    let closing = PaneFacts {
        sibling: Some(TWO),
        closed: Some(PaneLayout::Leaf(TWO)),
        ..facts()
    };
    assert!(matches!(
        book.handle_pane_action(PaneAction::Close, ONE, closing),
        PaneStep::Closed { pane: ONE }
    ));
    assert_eq!(book.panes(), &[TWO]);
    assert_eq!(book.layout(), &PaneLayout::Leaf(TWO));
    assert_eq!(book.active(), TWO);
}

#[test]
fn pane_wishes_are_refused_with_a_reason() {
    let mut book = PaneBook::new(vec![ONE, TWO], two_panes(), ONE, 3);
    assert!(matches!(
        book.handle_pane_action(PaneAction::Close, TWO, facts()),
        PaneStep::Ignored
    ));
    let busy = PaneFacts { workspace_applying: true, ..facts() };
    match book.handle_pane_action(PaneAction::SplitHorizontal, ONE, busy) {
        PaneStep::Tell(told) => {
            assert_eq!(told.text, "Cannot split a pane during apply or transfer")
        }
        other => panic!("unexpected step: {other:?}"),
    }
    let asked = PaneFacts { owns_dialog: true, ..facts() };
    match book.handle_pane_action(PaneAction::Close, ONE, asked) {
        PaneStep::Tell(told) => {
            assert_eq!(told.text, "Close the confirmation dialog before closing the pane")
        }
        other => panic!("unexpected step: {other:?}"),
    }
    assert!(matches!(
        book.on_pane_created(PaneId(3), Err("no editor".to_owned()), None),
        CreatedStep::Tell(_)
    ));
    let full = vec![ONE, TWO, PaneId(3), PaneId(4)];
    let mut book = PaneBook::new(full, two_panes(), ONE, 5);
    match book.handle_pane_action(PaneAction::SplitHorizontal, ONE, facts()) {
        PaneStep::Tell(told) => assert_eq!(told.text, "A maximum of four panes is allowed"),
        other => panic!("unexpected step: {other:?}"),
    }
}

#[test]
fn second_save_waits_for_the_first() {
    let mut desk = Desk::new(Vec::new());
    let mut first = controller();
    let mut second = controller();
    assert!(matches!(
        desk.on_commit(ONE, &mut first, 1, renamed()),
        Ok(SaveFlowResult::ShowPlan { .. })
    ));
    assert_eq!(desk.dialog_owner(), Some(ONE));
    assert!(desk.is_busy());
    assert_eq!(
        desk.on_commit(TWO, &mut second, 1, renamed()).unwrap_err(),
        Message::new(MessageKind::Info, "Another save is in progress")
    );
    assert!(second.is_idle());

    assert!(matches!(
        desk.route_confirm(ConfirmChoice::Approve, TOKEN, true),
        ConfirmRoute::Save(ONE)
    ));
    let mut slot = None;
    let result = first.on_choice(ConfirmChoice::Approve, TOKEN);
    desk.note_choice(ONE, &mut slot, &result);
    assert_eq!(desk.dialog_owner(), None);
    assert_eq!(desk.apply_owner(), Some(ONE));
    assert!(desk.is_apply_owner(ONE));
    assert!(desk.is_working());
    assert!(matches!(
        desk.route_confirm(ConfirmChoice::Cancel, TOKEN, true),
        ConfirmRoute::Save(ONE)
    ));
    desk.finish_apply();
    assert!(!desk.is_busy());
}

#[test]
fn transactions_are_not_lost() {
    let mut desk = Desk::new(Vec::new());
    let mut save = controller();
    let mut slot = Some(transaction("tx"));
    match desk.on_undo_requested(ONE, true, false, &mut slot, &mut save, Vec::new()) {
        UndoRequestStep::Tell(told) => {
            assert_eq!(told.text, "Cannot undo while editing. Save or discard changes.")
        }
        other => panic!("unexpected step: {other:?}"),
    }
    assert!(slot.is_some());

    let ready = vec![UndoStepStatus::Ready];
    match desk.on_undo_requested(ONE, false, false, &mut slot, &mut save, ready) {
        UndoRequestStep::Asked { discard, .. } => assert_eq!(discard, None),
        other => panic!("unexpected step: {other:?}"),
    }
    assert!(slot.is_none());
    assert_eq!(desk.dialog_owner(), Some(ONE));
    let declined = save.on_choice(ConfirmChoice::Cancel, TOKEN);
    desk.note_choice(ONE, &mut slot, &declined);
    assert_eq!(slot, Some(transaction("tx")));
    assert_eq!(desk.dialog_owner(), None);

    let gone = vec![UndoStepStatus::Rejected { reason: "gone".to_owned() }];
    match desk.on_undo_requested(ONE, false, false, &mut slot, &mut save, gone) {
        UndoRequestStep::Asked { discard, .. } => assert_eq!(discard, Some("tx".to_owned())),
        other => panic!("unexpected step: {other:?}"),
    }
    assert!(slot.is_none());
}

#[test]
fn feedback_waits_for_other_dialogs() {
    let mut desk = Desk::new(Vec::new());
    match desk.on_feedback_requested(false) {
        StartStep::Tell(told) => assert_eq!(told.kind, MessageKind::Warn),
        other => panic!("unexpected step: {other:?}"),
    }
    assert_eq!(desk.on_feedback_submitted(true, true), FeedbackStep::Ignored);
    assert_eq!(desk.on_feedback_requested(true), StartStep::Started);
    assert!(desk.is_feedback_open());
    assert!(matches!(desk.on_feedback_requested(true), StartStep::Tell(_)));
    assert_eq!(
        desk.on_feedback_submitted(true, false),
        FeedbackStep::Refused(FeedbackOutcome::Invalid)
    );
    assert_eq!(desk.on_feedback_submitted(true, true), FeedbackStep::Post);
    desk.on_feedback_closed();
    assert!(!desk.is_feedback_open());
}

#[test]
fn loading_a_root_is_seen_and_can_be_stopped() {
    let mut desk = Desk::new(Vec::new());
    assert!(matches!(
        desk.request_root_change(ONE, root(), None, true, false, true),
        StartStep::Tell(_)
    ));
    assert_eq!(
        desk.request_root_change(ONE, root(), None, false, false, false),
        StartStep::Ignored
    );
    assert_eq!(
        desk.request_root_change(ONE, root(), Some("child".to_owned()), false, false, true),
        StartStep::Started
    );
    assert!(desk.is_loading());
    assert!(desk.shows_load_progress(ONE));
    assert!(!desk.shows_load_progress(TWO));
    assert!(!desk.defers_changes(ONE));
    assert_eq!(desk.on_loader_cancel(), Some(true));
    assert_eq!(desk.on_loader_cancel(), None);

    assert!(desk.take_loader(TWO, &root()).is_none());
    assert!(desk.take_loader(ONE, &FsPath::from_text("/other")).is_none());
    let owner = desk.take_loader(ONE, &root()).unwrap();
    assert!(owner.cancelled);
    assert!(!owner.loads_directory());
    assert_eq!(owner.target(), JoinedPath::bare(root()));
    assert!(desk.is_load_usable(&owner, false));
    assert!(!desk.is_load_usable(&owner, true));
    assert!(desk.close_loader_dialog(&owner));
    assert_eq!(desk.dialog_owner(), None);
    assert!(!desk.may_flush_after_load(false));
}

#[test]
fn loading_directories_goes_one_at_a_time() {
    let mut desk = Desk::new(Vec::new());
    assert!(desk.request_directory_load(ONE, root(), TreePath::parse("dir"), 3));
    assert!(!desk.request_directory_load(TWO, root(), TreePath::parse("dir"), 3));
    assert!(!desk.request_picker_reveal_load(
        TWO,
        root(),
        TreePath::parse("dir/a"),
        PickerAction::Jump,
        TreePath::parse("dir"),
    ));
    assert!(desk.defers_changes(ONE));
    assert!(!desk.defers_changes(TWO));
    assert_eq!(desk.on_loader_cancel(), Some(false));
    let owner = desk.take_loader(ONE, &root()).unwrap();
    assert!(matches!(owner.kind, LoaderKind::Directory { line: 3, .. }));
    assert_eq!(owner.target(), JoinedPath::bare(root()).join("dir"));
    assert!(!desk.close_loader_dialog(&owner));
    assert!(desk.may_flush_after_load(true));

    let dirs = vec![TreePath::parse("x"), TreePath::parse("y")];
    assert_eq!(
        desk.request_recursive_load(ONE, root(), dirs, 0, FoldOp::OpenAll),
        Some(JoinedPath::bare(root()).join("x"))
    );
    assert_eq!(desk.dialog_owner(), Some(ONE));
    assert_eq!(
        desk.request_recursive_load(ONE, root(), Vec::new(), 0, FoldOp::OpenAll),
        None
    );
}

#[test]
fn crashed_pane_leaves_no_question() {
    let mut desk = Desk::new(Vec::new());
    let mut save = controller();
    desk.on_commit(ONE, &mut save, 1, renamed()).unwrap();
    desk.request_directory_load(ONE, root(), TreePath::parse("dir"), 0);
    desk.open_picker(ActivePicker {
        pane_id: ONE,
        root: RootKey(1),
        query: String::new(),
        include_hidden: false,
    });
    assert_eq!(desk.on_engine_crashed(TWO), []);
    assert_eq!(
        desk.on_engine_crashed(ONE),
        [
            DeskEffect::StopLoader,
            DeskEffect::DropSearch,
            DeskEffect::DeclineSave,
            DeskEffect::CloseDialog,
        ]
    );
    assert_eq!(desk.dialog_owner(), None);
    assert!(desk.picker_for(RootKey(1)).is_none());
}

#[test]
fn search_follows_its_pane() {
    let mut desk = Desk::new(Vec::new());
    assert_eq!(desk.on_picker_query(ONE, "a"), None);
    desk.open_picker(ActivePicker {
        pane_id: ONE,
        root: RootKey(4),
        query: String::new(),
        include_hidden: true,
    });
    assert_eq!(desk.on_picker_query(TWO, "a"), None);
    assert_eq!(desk.on_picker_query(ONE, "abc"), Some(RootKey(4)));
    assert_eq!(desk.picker_for(RootKey(4)).unwrap().query, "abc");
    assert!(desk.picker_for(RootKey(5)).is_none());
    assert!(!desk.drop_picker(TWO));
    assert!(desk.drop_picker(ONE));
    assert!(!desk.drop_picker(ONE));
}

#[test]
fn one_word_answers_one_question() {
    let mut desk = Desk::new(vec!["old".to_owned()]);
    assert!(desk.can_choose_program(true));
    assert!(!desk.can_choose_program(false));
    desk.begin_open_with(2);
    assert!(!desk.can_choose_program(true));
    match desk.route_confirm(ConfirmChoice::OpenWithSelected(2), TOKEN, true) {
        ConfirmRoute::OpenWith(choice) => assert_eq!(choice, OpenWithChoice::SystemDialog),
        other => panic!("unexpected route: {other:?}"),
    }
    assert!(matches!(
        desk.route_confirm(ConfirmChoice::OpenWithSelected(0), TOKEN, true),
        ConfirmRoute::Ignored
    ));
    desk.begin_open_with(1);
    assert!(matches!(
        desk.route_confirm(ConfirmChoice::Cancel, TOKEN, true),
        ConfirmRoute::OpenWithClosed
    ));
    match desk.route_confirm(ConfirmChoice::Approve, TOKEN, true) {
        ConfirmRoute::Recovery { discard } => assert_eq!(discard, ["old"]),
        other => panic!("unexpected route: {other:?}"),
    }
    assert!(matches!(
        desk.route_confirm(ConfirmChoice::Approve, TOKEN, true),
        ConfirmRoute::Ignored
    ));
}

#[test]
fn recovery_is_discarded_only_with_approval() {
    for (choice, has_journal) in [(ConfirmChoice::Cancel, true), (ConfirmChoice::Approve, false)] {
        let mut desk = Desk::new(vec!["old".to_owned()]);
        match desk.route_confirm(choice, TOKEN, has_journal) {
            ConfirmRoute::Recovery { discard } => assert!(discard.is_empty()),
            other => panic!("unexpected route: {other:?}"),
        }
    }
}

#[test]
fn transfer_is_asked_about_before_saves() {
    let mut desk = Desk::new(Vec::new());
    desk.begin_transfer(ONE, TWO, plan(), Vec::new());
    assert!(desk.is_transfer_awaiting());
    assert!(desk.is_busy());
    match desk.route_confirm(ConfirmChoice::Approve, TOKEN, true) {
        ConfirmRoute::Transfer(TransferFlowResult::StartApply { cancel, .. }) => {
            assert_eq!(cancel, TOKEN)
        }
        other => panic!("unexpected route: {other:?}"),
    }
    assert!(desk.is_transfer_running());
    assert!(desk.defers_changes(PaneId(9)));
    assert_eq!(desk.retry_action(true, true, false), RetryAction::Nothing);
    assert!(matches!(
        desk.on_transfer_finished(CommitReport { results: Vec::new() }),
        TransferFlowResult::Finished { .. }
    ));
    assert!(!desk.is_busy());

    desk.begin_transfer(ONE, TWO, plan(), Vec::new());
    assert!(!desk.invalidate_transfer(PaneId(3)));
    assert!(desk.invalidate_transfer(TWO));
    assert!(!desk.is_transfer_awaiting());
}

#[test]
fn panes_are_seen_to_now_and_then() {
    let mut desk = Desk::new(Vec::new());
    assert_eq!(desk.retry_action(true, true, false), RetryAction::Reconnect);
    assert_eq!(desk.retry_action(false, true, false), RetryAction::Rewatch);
    assert_eq!(desk.retry_action(false, false, false), RetryAction::Probe);
    assert_eq!(desk.retry_action(false, false, true), RetryAction::Nothing);
    let mut save = controller();
    desk.on_commit(ONE, &mut save, 1, renamed()).unwrap();
    assert_eq!(desk.retry_action(false, false, false), RetryAction::Nothing);
    desk.note_external_change(TWO, true);
    assert_eq!(desk.dialog_owner(), Some(ONE));
    desk.note_external_change(ONE, true);
    assert_eq!(desk.dialog_owner(), None);
}

#[test]
fn only_the_last_save_can_be_undone() {
    let mut slot = Some(transaction("old"));
    let record = record_apply(&mut slot, false, Some(transaction("new")));
    assert_eq!(record.discard, ["new"]);
    assert!(!record.commit);
    assert_eq!(slot, Some(transaction("old")));

    let record = record_apply(&mut slot, true, Some(transaction("empty")));
    assert_eq!(record.discard, ["old", "empty"]);
    assert_eq!(
        record.warning.unwrap().text,
        "Undo record for this apply is empty. It cannot be undone."
    );
    assert_eq!(slot, None);

    let record = record_apply(&mut slot, true, None);
    assert_eq!(
        record.warning.unwrap().text,
        "This apply has no undo record and cannot be undone"
    );

    let mut full = transaction("full");
    full.steps.push(fyler_app::undo::UndoStep::RestoreDeleted {
        path: root(),
        backup: fyler_app::undo::BackupRef {
            payload_rel: "payload/0".to_owned(),
            kind: EntryKind::File,
        },
    });
    let record = record_apply(&mut slot, true, Some(full));
    assert!(record.commit);
    assert_eq!(record.warning, None);
    assert_eq!(discard_undo_slot(&mut slot), Some("full".to_owned()));
    assert_eq!(discard_undo_slot(&mut slot), None);
}

#[test]
fn transfer_forgets_what_could_be_undone() {
    let mut slots = vec![Some(transaction("a")), None, Some(transaction("b"))];
    assert_eq!(discard_all_undo_slots(&mut slots), ["a", "b"]);
    assert_eq!(slots, [None, None, None]);
}

#[test]
fn results_are_told_to_the_user() {
    assert_eq!(
        send_save_result(SaveFlowResult::NoChanges),
        [SaveNotice::Tell(Message::new(MessageKind::Info, "No changes"))]
    );
    assert_eq!(send_save_result(SaveFlowResult::Cancelled), [SaveNotice::CloseDialog]);
    assert_eq!(send_save_result(SaveFlowResult::Ignored), []);
    assert_eq!(
        send_save_result(SaveFlowResult::Reconnected("back".to_owned())),
        [SaveNotice::Tell(Message::new(MessageKind::Info, "back"))]
    );
    let notices = send_save_result(SaveFlowResult::WentOffline("gone".to_owned()));
    match &notices[..] {
        [SaveNotice::Tell(told)] => {
            assert_eq!(told.kind, MessageKind::Warn);
            assert!(told.text.ends_with("automatically. (gone)"));
        }
        other => panic!("unexpected notices: {other:?}"),
    }
    let notices = send_save_result(SaveFlowResult::ReconcileFailed {
        report: CommitReport { results: Vec::new() },
        error: "lost".to_owned(),
    });
    assert!(matches!(&notices[..], [SaveNotice::ShowReport(_), SaveNotice::Tell(_)]));
}

#[test]
fn stale_questions_are_closed_first() {
    let (outcome, notices) =
        external_change_notices(SaveFlowResult::PlanInvalidated("changed".to_owned()));
    assert!(outcome.invalidated_dialog);
    assert_eq!(
        notices,
        [
            SaveNotice::CloseDialog,
            SaveNotice::Tell(Message::new(MessageKind::Warn, "changed")),
        ]
    );
    let (outcome, _) = external_change_notices(SaveFlowResult::UndoInvalidated {
        transaction: transaction("tx"),
        message: "changed".to_owned(),
    });
    assert_eq!(outcome.undo_transaction, Some(transaction("tx")));
    let (outcome, notices) = external_change_notices(SaveFlowResult::NoChanges);
    assert!(!outcome.invalidated_dialog);
    assert!(notices.is_empty());
}

#[test]
fn unrecorded_save_is_told_of() {
    let told = begin_failure("disk full");
    assert_eq!(told.kind, MessageKind::Warn);
    assert_eq!(
        told.text,
        "Failed to start undo journal. This apply cannot be undone: disk full"
    );
}
