use fyler_app::baseline::{BaselineEntry, BaselineTree};
use fyler_app::fs_path::FsPath;
use fyler_app::grammar::{format_id_prefix, EditorLine, EntryId};
use fyler_app::notices::MessageKind;
use fyler_app::pane::PaneId;
use fyler_app::report::CommitReport;
use fyler_app::save_flow::{ConfirmChoice, ReconcileOutcome, SaveController};
use fyler_app::save_result::CancelToken;
use fyler_app::transfer_flow::{
    build_plan, dedupe_ancestors, destination_directory, resolve_selection, resolve_target,
    start_rejection, SelectionError, TransferController, TransferFlowResult, TransferKind,
    TransferPaneState, TransferPlan,
};
use fyler_app::transfer_request::{
    blocked_message, handle_transfer_request, transfer_target, transfer_trouble,
    TransferRequestStep, TransferSide,
};
use fyler_app::tree::{EntryKind, TreePath};

fn pane(dirty: bool, idle: bool, crashed: bool) -> TransferPaneState {
    TransferPaneState { dirty, idle, crashed, offline: false }
}

#[test]
fn start_rejects_offline_source_or_target() {
    let mut offline = pane(false, true, false);
    offline.offline = true;
    assert_eq!(
        start_rejection(offline, pane(false, true, false), false),
        Some("Cannot start a transfer with an offline or unreachable pane")
    );
    assert_eq!(
        start_rejection(pane(false, true, false), offline, false),
        Some("Cannot start a transfer with an offline or unreachable pane")
    );
}

#[test]
fn target_is_last_active_and_requires_two_distinct_panes() {
    let one = PaneId(1);
    let two = PaneId(2);
    assert_eq!(resolve_target(one, two, &vec![one, two]), Some(two));
    assert_eq!(resolve_target(one, one, &vec![one, two]), None);
    assert_eq!(resolve_target(one, one, &vec![one]), None);
}

#[test]
fn destination_uses_dir_file_parent_and_empty_root() {
    assert_eq!(destination_directory(true, None), Some(TreePath::root()));
    assert_eq!(
        destination_directory(false, Some((TreePath::parse("dest/sub"), EntryKind::Dir))),
        Some(TreePath::parse("dest/sub"))
    );
    assert_eq!(
        destination_directory(false, Some((TreePath::parse("dest/file.txt"), EntryKind::File))),
        Some(TreePath::parse("dest"))
    );
    assert_eq!(destination_directory(false, None), None);
}

#[test]
fn gate_rejects_every_busy_or_unsafe_condition() {
    let ready = pane(false, true, false);
    assert!(start_rejection(ready, ready, false).is_none());
    assert!(start_rejection(ready, ready, true).is_some());
    assert!(start_rejection(pane(true, true, false), ready, false).is_some());
    assert!(start_rejection(ready, pane(true, true, false), false).is_some());
    assert!(start_rejection(pane(false, false, false), ready, false).is_some());
    assert!(start_rejection(ready, pane(false, false, false), false).is_some());
    assert!(start_rejection(pane(false, true, true), ready, false).is_some());
    assert!(start_rejection(ready, pane(false, true, true), false).is_some());
}

fn tree(root: &str, entries: &[(u64, &str, EntryKind)]) -> SaveController {
    let mut baseline = BaselineTree::new(FsPath::from_text(root));
    for (id, path, kind) in entries {
        baseline.insert(BaselineEntry {
            id: EntryId(*id),
            path: TreePath::parse(path),
            kind: *kind,
        });
    }
    SaveController::new(FsPath::from_text(root), baseline)
}

fn picker_lines() -> Vec<EditorLine> {
    vec![
        EditorLine::new(format!("{}saved.txt", format_id_prefix(EntryId(1)))),
        EditorLine::new("new.txt".to_owned()),
        EditorLine::new("/999 missing.txt".to_owned()),
    ]
}

#[test]
fn selection_rejects_unsaved_and_unknown_id_lines() {
    let controller = tree("root", &[(1, "saved.txt", EntryKind::File)]);
    let lines = picker_lines();
    assert_eq!(
        resolve_selection(&controller, &lines, &vec![0, 1]),
        Err(SelectionError::UnsavedLine)
    );
    assert_eq!(
        resolve_selection(&controller, &lines, &vec![2]),
        Err(SelectionError::UnknownId)
    );
    assert_eq!(
        resolve_selection(&controller, &lines, &vec![7]),
        Err(SelectionError::MissingLine)
    );
    assert_eq!(
        resolve_selection(&controller, &lines, &Vec::new()),
        Err(SelectionError::Empty)
    );
}

#[test]
fn plan_drops_selected_descendants_and_preserves_names() {
    let plan = build_plan(
        TransferKind::Move,
        FsPath::from_text("source"),
        FsPath::from_text("target"),
        &TreePath::parse("inbox"),
        vec![
            (TreePath::parse("dir/child.txt"), EntryKind::File),
            (TreePath::parse("other.txt"), EntryKind::File),
            (TreePath::parse("dir"), EntryKind::Dir),
        ],
    );
    assert_eq!(plan.ops.len(), 2);
    assert_eq!(plan.ops[0].from, TreePath::parse("other.txt"));
    assert_eq!(plan.ops[0].to, TreePath::parse("inbox/other.txt"));
    assert_eq!(plan.ops[1].from, TreePath::parse("dir"));
    assert_eq!(plan.ops[1].to, TreePath::parse("inbox/dir"));
}

#[test]
fn nothing_is_transferred_twice() {
    let kept = dedupe_ancestors(&vec![
        (TreePath::parse("a"), EntryKind::Dir),
        (TreePath::parse("a/b"), EntryKind::Dir),
        (TreePath::parse("a/b/c.txt"), EntryKind::File),
        (TreePath::parse("ab"), EntryKind::File),
    ]);
    assert_eq!(
        kept,
        [
            (TreePath::parse("a"), EntryKind::Dir),
            (TreePath::parse("ab"), EntryKind::File)
        ]
    );
}

fn plan() -> TransferPlan {
    build_plan(
        TransferKind::Copy,
        FsPath::from_text("source"),
        FsPath::from_text("target"),
        &TreePath::root(),
        vec![(TreePath::parse("a.txt"), EntryKind::File)],
    )
}

#[test]
fn confirmation_approval_cancel_and_finish_are_app_local() {
    let source = PaneId(1);
    let target = PaneId(2);
    let mut flow = TransferController::new();
    flow.begin(source, target, plan(), Vec::new());
    assert!(flow.is_awaiting());
    let TransferFlowResult::StartApply { plan: started, cancel, .. } =
        flow.on_choice(ConfirmChoice::Approve, CancelToken(4))
    else {
        panic!("approval did not start transfer");
    };
    assert_eq!(started, plan());
    assert_eq!(cancel, CancelToken(4));
    assert!(flow.is_running());
    assert!(!flow.cancel_requested());
    assert!(matches!(
        flow.on_choice(ConfirmChoice::Cancel, CancelToken(5)),
        TransferFlowResult::CancelRequested
    ));
    assert!(flow.cancel_requested());
    assert!(matches!(
        flow.on_finished(CommitReport { results: Vec::new() }),
        TransferFlowResult::Finished { source: s, target: t, .. } if s == source && t == target
    ));
    assert!(!flow.is_running());
}

#[test]
fn external_change_invalidates_only_involved_confirmation() {
    let source = PaneId(1);
    let target = PaneId(2);
    let other = PaneId(3);
    let mut flow = TransferController::new();
    flow.begin(source, target, plan(), Vec::new());
    assert!(!flow.invalidate_if_involves(other));
    assert!(flow.is_awaiting());
    assert!(flow.invalidate_if_involves(target));
    assert!(!flow.is_awaiting());
    assert!(matches!(
        flow.on_choice(ConfirmChoice::Approve, CancelToken(1)),
        TransferFlowResult::Ignored
    ));
}

#[test]
fn approved_move_reports_and_reconciles_both_panes() {
    let mut source = tree("source", &[(1, "a.txt", EntryKind::File)]);
    let mut target = tree("target", &[]);
    let lines = source.visible_lines();
    let selected = vec![source.resolve_line(&lines, 0).expect("source line should resolve")];
    let plan = build_plan(
        TransferKind::Move,
        FsPath::from_text("source"),
        FsPath::from_text("target"),
        &TreePath::root(),
        selected,
    );
    let mut flow = TransferController::new();
    flow.begin(PaneId(1), PaneId(2), plan, Vec::new());
    assert!(matches!(
        flow.on_choice(ConfirmChoice::Approve, CancelToken(1)),
        TransferFlowResult::StartApply { .. }
    ));
    assert!(matches!(
        flow.on_finished(CommitReport { results: Vec::new() }),
        TransferFlowResult::Finished { .. }
    ));

    let emptied = source.prepare_reconcile(BaselineTree::new(FsPath::from_text("source")));
    source.reconcile_after_transfer(ReconcileOutcome::Done(emptied)).unwrap();
    let mut moved = BaselineTree::new(FsPath::from_text("target"));
    moved.insert(BaselineEntry {
        id: EntryId(2),
        path: TreePath::parse("a.txt"),
        kind: EntryKind::File,
    });
    let filled = target.prepare_reconcile(moved);
    target.reconcile_after_transfer(ReconcileOutcome::Done(filled)).unwrap();
    assert!(source.visible_lines().is_empty());
    assert_eq!(target.visible_lines().len(), 1);
    assert!(target.visible_lines()[0].text.ends_with("a.txt"));
    assert!(target.reconcile_after_transfer(ReconcileOutcome::ScanFailed).is_err());
}

#[test]
fn transfer_request_leads_to_a_plan() {
    let source = tree("source", &[(1, "a.txt", EntryKind::File)]);
    let target = tree(
        "target",
        &[(2, "inbox", EntryKind::Dir), (3, "inbox/b.txt", EntryKind::File)],
    );
    let source_root = FsPath::from_text("source");
    let target_root = FsPath::from_text("target");
    let source_lines = source.visible_lines();
    let target_lines = target.visible_lines();
    let from = TransferSide {
        controller: &source,
        lines: &source_lines,
        cursor_line: 0,
        dirty: false,
        crashed: false,
        offline: false,
        root: &source_root,
    };
    let to = TransferSide {
        controller: &target,
        lines: &target_lines,
        cursor_line: 1,
        dirty: false,
        crashed: false,
        offline: false,
        root: &target_root,
    };
    match handle_transfer_request(TransferKind::Copy, &from, &to, &vec![0], false) {
        TransferRequestStep::Preflight(plan) => {
            assert_eq!(plan.from_root, source_root);
            assert_eq!(plan.to_root, target_root);
            assert_eq!(plan.ops.len(), 1);
            assert_eq!(plan.ops[0].to, TreePath::parse("inbox/a.txt"));
        }
        other => panic!("unexpected step: {other:?}"),
    }
    match handle_transfer_request(TransferKind::Copy, &from, &to, &Vec::new(), false) {
        TransferRequestStep::Tell(message) => {
            assert_eq!(message.kind, MessageKind::Info);
            assert_eq!(message.text, "No transfer target is selected");
        }
        other => panic!("unexpected step: {other:?}"),
    }
    match handle_transfer_request(TransferKind::Copy, &from, &to, &vec![9], false) {
        TransferRequestStep::Tell(message) => {
            assert_eq!(message.kind, MessageKind::Error);
            assert_eq!(message.text, "Transfer target line was not found");
        }
        other => panic!("unexpected step: {other:?}"),
    }
    let lost = TransferSide { cursor_line: 8, ..to };
    match handle_transfer_request(TransferKind::Copy, &from, &lost, &vec![0], false) {
        TransferRequestStep::Tell(message) => assert_eq!(
            message.text,
            "Failed to resolve cursor position in destination pane"
        ),
        other => panic!("unexpected step: {other:?}"),
    }
    let edited = TransferSide { dirty: true, ..from };
    assert!(matches!(
        handle_transfer_request(TransferKind::Copy, &edited, &lost, &vec![0], false),
        TransferRequestStep::Tell(_)
    ));
}

#[test]
fn transfer_needs_another_pane() {
    assert_eq!(
        transfer_target(PaneId(1), PaneId(2), &vec![PaneId(1), PaneId(2)]),
        Ok(PaneId(2))
    );
    assert_eq!(
        transfer_target(PaneId(1), PaneId(1), &vec![PaneId(1)]).unwrap_err().text,
        "There is no destination pane for transfer. Split a pane first."
    );
}

#[test]
fn transfer_troubles_are_told() {
    assert_eq!(blocked_message(&Vec::new()), None);
    assert_eq!(
        blocked_message(&vec!["/a".to_owned(), "/b".to_owned()]).unwrap().text,
        "Some paths cannot be transferred: /a, /b"
    );
    assert_eq!(transfer_trouble(&Vec::new()), None);
    assert!(transfer_trouble(&vec!["pane 1: gone".to_owned()])
        .unwrap()
        .text
        .ends_with("automatically: pane 1: gone"));
}
