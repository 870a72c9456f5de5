use std::collections::HashSet;

use fyler_app::baseline::{BaselineEntry, BaselineTree};
use fyler_app::changes::{
    changes_by_root, coalesce_changes, on_watch_degraded, transfer_forgotten_message,
    ChangeGroups, Queued,
};
use fyler_app::desk::{LoaderKind, LoaderOwner};
use fyler_app::directory_commands::{
    after_hidden_scan, after_sort_scan, change_directory_to, handle_change_directory,
    handle_change_sort, handle_fold, handle_jump_bookmark, no_parent_message,
    toggle_hidden_rejection, BookmarkStep, FoldStep, GoStep, RescanStep, SortStep,
};
use fyler_app::folding::FoldOp;
use fyler_app::fs_path::{FsPath, JoinedPath};
use fyler_app::grammar::EntryId;
use fyler_app::loading::{
    choose_candidate, finish_directory_load, finish_picker_reveal_load,
    finish_session_root_change, unfinished_load_message, LoadStep, RecursiveLoad, RecursiveStep,
    RevealLoadStep,
};
use fyler_app::notices::MessageKind;
use fyler_app::options::{ScanOptions, SortKey, SortOrder};
use fyler_app::pane::{PaneId, PaneLayout, SplitDirection};
use fyler_app::picker::RootKey;
use fyler_app::save_flow::{SaveController, ScanOutcome};
use fyler_app::session::SessionPane;
use fyler_app::startup::{
    after_failure_at, after_first_failure, after_last_failure, capture_session, create_pane,
    editor_start_failure, initial_panes, next_to_restore, plan_again, plan_only_pane, plan_pane,
    restore_order, restore_warning, startup_messages, trouble_warning, CreateFailure, PaneCapture,
    StartTrouble,
};
use fyler_app::tree::{EntryKind, TreePath};
use fyler_app::tree_commands::{PickerAction, PickerStep};

fn root() -> FsPath {
    FsPath::from_text("/root")
}

fn tree(entries: &[(u64, &str, EntryKind)]) -> BaselineTree {
    let mut baseline = BaselineTree::new(root());
    for (id, path, kind) in entries {
        baseline.insert(BaselineEntry {
            id: EntryId(*id),
            path: TreePath::parse(path),
            kind: *kind,
        });
    }
    baseline
}

fn folded(entries: &[(u64, &str, EntryKind)]) -> SaveController {
    let mut controller = SaveController::new(root(), tree(entries));
    controller.collapse_all_dirs();
    controller
}

const SHALLOW: [(u64, &str, EntryKind); 1] = [(1, "dir", EntryKind::Dir)];
const DEEP: [(u64, &str, EntryKind); 2] =
    [(1, "dir", EntryKind::Dir), (2, "dir/a.txt", EntryKind::File)];

#[test]
fn loaded_directory_is_unfolded() {
    let mut controller = folded(&SHALLOW);
    let lines = controller.visible_lines();
    let loaded = controller.prepare_reconcile(tree(&DEEP));
    let kind = LoaderKind::Directory { dir: TreePath::parse("dir"), line: 0 };
    match finish_directory_load(&mut controller, &kind, Ok(loaded), &lines) {
        LoadStep::Show { lines, cursor_line } => {
            assert_eq!(lines.len(), 2);
            assert_eq!(cursor_line, Some(0));
        }
        other => panic!("unexpected step: {other:?}"),
    }
    assert!(controller.collapsed_dirs().is_empty());
}

#[test]
fn stale_loads_change_nothing() {
    let mut controller = folded(&SHALLOW);
    let lines = controller.visible_lines();
    let kind = LoaderKind::Directory { dir: TreePath::parse("dir"), line: 0 };
    match finish_directory_load(&mut controller, &kind, Err("busy".to_owned()), &lines) {
        LoadStep::Tell(told) => {
            assert_eq!(told.kind, MessageKind::Warn);
            assert_eq!(told.text, "Loaded directory result was stale: busy");
        }
        other => panic!("unexpected step: {other:?}"),
    }
    assert_eq!(controller.visible_lines(), lines);

    let gone = controller.prepare_reconcile(tree(&[]));
    match finish_directory_load(&mut controller, &kind, Ok(gone), &lines) {
        LoadStep::Tell(told) => {
            assert_eq!(told.text, "Loaded directory is no longer expandable: dir")
        }
        other => panic!("unexpected step: {other:?}"),
    }
    let kind = LoaderKind::Recursive {
        dirs: vec![TreePath::parse("dir"), TreePath::parse("other")],
        line: 0,
        op: FoldOp::OpenRecursive,
    };
    let gone = controller.prepare_reconcile(tree(&[]));
    match finish_directory_load(&mut controller, &kind, Ok(gone), &lines) {
        LoadStep::Tell(told) => {
            assert_eq!(told.text, "Loaded directories are no longer expandable: 2")
        }
        other => panic!("unexpected step: {other:?}"),
    }
}

#[test]
fn loaded_directories_are_unfolded() {
    let mut controller = folded(&SHALLOW);
    let lines = controller.visible_lines();
    let loaded = controller.prepare_reconcile(tree(&DEEP));
    let kind = LoaderKind::Recursive {
        dirs: vec![TreePath::parse("dir")],
        line: 0,
        op: FoldOp::OpenRecursive,
    };
    match finish_directory_load(&mut controller, &kind, Ok(loaded), &lines) {
        LoadStep::Show { lines, cursor_line } => {
            assert_eq!(lines.len(), 2);
            assert_eq!(cursor_line, Some(0));
        }
        other => panic!("unexpected step: {other:?}"),
    }
}

#[test]
fn new_root_is_shown_folded_with_the_cursor_on_its_child() {
    let mut controller = folded(&[(1, "old", EntryKind::File)]);
    let mut baseline = BaselineTree::new(FsPath::from_text("/"));
    for (id, path, kind) in [
        (5, "etc", EntryKind::Dir),
        (6, "etc/hosts", EntryKind::File),
        (7, "root", EntryKind::Dir),
    ] {
        baseline.insert(BaselineEntry { id: EntryId(id), path: TreePath::parse(path), kind });
    }
    match finish_session_root_change(
        &mut controller,
        FsPath::from_text("/"),
        "/",
        baseline,
        Some("root".to_owned()),
        None,
    ) {
        LoadStep::Show { lines, cursor_line } => {
            assert_eq!(lines.len(), 2);
            assert_eq!(cursor_line, Some(1));
        }
        other => panic!("unexpected step: {other:?}"),
    }
    assert_eq!(controller.root(), &FsPath::from_text("/"));
    assert_eq!(controller.collapsed_dirs(), &HashSet::from([5, 7]));
}

#[test]
fn unwatched_root_is_not_shown() {
    let mut controller = folded(&SHALLOW);
    match finish_session_root_change(
        &mut controller,
        FsPath::from_text("/new"),
        "/new",
        BaselineTree::new(FsPath::from_text("/new")),
        None,
        Some("denied".to_owned()),
    ) {
        LoadStep::Tell(told) => {
            assert_eq!(told.kind, MessageKind::Error);
            assert_eq!(told.text, "Failed to watch root (/new): denied");
        }
        other => panic!("unexpected step: {other:?}"),
    }
    assert_eq!(controller.root(), &root());
    match finish_session_root_change(
        &mut controller,
        FsPath::from_text("/new"),
        "/new",
        BaselineTree::new(FsPath::from_text("/other")),
        None,
        None,
    ) {
        LoadStep::Tell(told) => assert!(told.text.starts_with("Failed to change root: ")),
        other => panic!("unexpected step: {other:?}"),
    }
}

#[test]
fn candidates_are_loaded_step_by_step() {
    let target = TreePath::parse("first/second/target.txt");
    let mut controller = folded(&[(1, "first", EntryKind::Dir)]);
    let lines = controller.visible_lines();
    let unloaded = vec![TreePath::parse("first")];
    match choose_candidate(
        &mut controller,
        &target,
        PickerAction::Jump,
        &unloaded,
        &lines,
        false,
        &root(),
        false,
        false,
    ) {
        RevealLoadStep::Load(dir) => assert_eq!(dir, TreePath::parse("first")),
        other => panic!("unexpected step: {other:?}"),
    }
    let first = [(1, "first", EntryKind::Dir), (2, "first/second", EntryKind::Dir)];
    let loaded = controller.prepare_reconcile(tree(&first));
    match finish_picker_reveal_load(
        &mut controller,
        &target,
        PickerAction::Jump,
        Ok(loaded),
        &vec![TreePath::parse("first/second")],
        &lines,
        false,
        &root(),
    ) {
        RevealLoadStep::Load(dir) => assert_eq!(dir, TreePath::parse("first/second")),
        other => panic!("unexpected step: {other:?}"),
    }
    let all = [
        (1, "first", EntryKind::Dir),
        (2, "first/second", EntryKind::Dir),
        (3, "first/second/target.txt", EntryKind::File),
    ];
    let loaded = controller.prepare_reconcile(tree(&all));
    match finish_picker_reveal_load(
        &mut controller,
        &target,
        PickerAction::Jump,
        Ok(loaded),
        &Vec::new(),
        &lines,
        false,
        &root(),
    ) {
        RevealLoadStep::Done(PickerStep::Reveal { cursor_line, .. }) => assert_eq!(cursor_line, 2),
        other => panic!("unexpected step: {other:?}"),
    }
}

#[test]
fn picker_reveal_warns_when_target_disappears_during_chain_load() {
    let target = TreePath::parse("first/second/target.txt");
    let mut controller = folded(&[(1, "first", EntryKind::Dir)]);
    let lines = controller.visible_lines();
    let without =
        [(1, "first", EntryKind::Dir), (2, "first/second", EntryKind::Dir)];
    let loaded = controller.prepare_reconcile(tree(&without));
    match finish_picker_reveal_load(
        &mut controller,
        &target,
        PickerAction::Jump,
        Ok(loaded),
        &Vec::new(),
        &lines,
        false,
        &root(),
    ) {
        RevealLoadStep::Done(PickerStep::Tell(told)) => assert!(told.text.contains("externally")),
        other => panic!("unexpected step: {other:?}"),
    }
}

#[test]
fn candidates_are_not_loaded_while_busy() {
    let target = TreePath::parse("first/a.txt");
    let unloaded = vec![TreePath::parse("first")];
    for (dirty, busy, crashed) in [(true, false, false), (false, true, false), (false, false, true)] {
        let mut controller = folded(&[(1, "first", EntryKind::Dir)]);
        let lines = controller.visible_lines();
        match choose_candidate(
            &mut controller,
            &target,
            PickerAction::Jump,
            &unloaded,
            &lines,
            dirty,
            &root(),
            busy,
            crashed,
        ) {
            RevealLoadStep::Done(PickerStep::Tell(told)) => {
                assert_eq!(told.kind, MessageKind::Info)
            }
            other => panic!("unexpected step: {other:?}"),
        }
    }
}

fn owner(kind: LoaderKind) -> LoaderOwner {
    LoaderOwner { pane_id: PaneId(1), root: root(), kind, cancelled: false }
}

#[test]
fn loads_that_come_to_nothing_are_told() {
    let wanted_root = owner(LoaderKind::Root { cursor_target: None });
    let dir = owner(LoaderKind::Directory { dir: TreePath::parse("dir"), line: 0 });
    let reveal = owner(LoaderKind::PickerReveal {
        target: TreePath::parse("dir/a"),
        action: PickerAction::Jump,
        dir: TreePath::parse("dir"),
    });
    assert_eq!(
        unfinished_load_message(&wanted_root, None, "/root").unwrap().text,
        "Loading cancelled"
    );
    assert_eq!(unfinished_load_message(&dir, None, "/root/dir"), None);
    let told = unfinished_load_message(&wanted_root, Some("denied"), "/root").unwrap();
    assert_eq!(told.kind, MessageKind::Error);
    assert_eq!(told.text, "Failed to load /root: denied");
    let told = unfinished_load_message(&dir, Some("denied"), "/root/dir").unwrap();
    assert_eq!(told.kind, MessageKind::Warn);
    let told = unfinished_load_message(&reveal, Some("denied"), "/root/dir").unwrap();
    assert!(told.text.contains("externally"));
}

#[test]
fn folds_change_only_in_a_clean_buffer() {
    let mut controller = folded(&DEEP);
    let lines = controller.visible_lines();
    match handle_fold(&mut controller, &lines, true, 0, FoldOp::Open) {
        FoldStep::Tell(told) => assert!(told.text.contains("while editing")),
        other => panic!("unexpected step: {other:?}"),
    }
    match handle_fold(&mut controller, &lines, false, 0, FoldOp::Open) {
        FoldStep::Show { lines, .. } => assert_eq!(lines.len(), 2),
        other => panic!("unexpected step: {other:?}"),
    }
    match handle_fold(&mut controller, &lines, false, 9, FoldOp::Open) {
        FoldStep::Tell(told) => assert_eq!(told.text, "Failed to resolve the entry on this line"),
        other => panic!("unexpected step: {other:?}"),
    }
}

#[test]
fn order_is_told_and_changed() {
    let mut controller = folded(&DEEP);
    match handle_change_sort(&controller, None, false) {
        SortStep::Tell(told) => assert_eq!(told.text, "sort: name"),
        other => panic!("unexpected step: {other:?}"),
    }
    match handle_change_sort(&controller, Some("mtime"), false) {
        SortStep::Tell(told) => assert_eq!(told.kind, MessageKind::Error),
        other => panic!("unexpected step: {other:?}"),
    }
    match handle_change_sort(&controller, Some("size!"), true) {
        SortStep::Tell(told) => assert!(told.text.contains("while editing")),
        other => panic!("unexpected step: {other:?}"),
    }
    match handle_change_sort(&controller, Some("size!"), false) {
        SortStep::Rescan { key, reverse, options } => {
            assert_eq!((key, reverse), (SortKey::Size, true));
            assert_eq!((options.key, options.reverse), (SortKey::Size, true));
        }
        other => panic!("unexpected step: {other:?}"),
    }
    match after_sort_scan(&mut controller, SortKey::Size, true, ScanOutcome::Failed) {
        RescanStep::Tell(told) => assert!(told.text.starts_with("Failed to change sorting: ")),
        other => panic!("unexpected step: {other:?}"),
    }
    let scan = ScanOutcome::Scanned(tree(&DEEP));
    assert!(matches!(
        after_sort_scan(&mut controller, SortKey::Size, true, scan),
        RescanStep::Show(_)
    ));
    assert_eq!(controller.sort_state(), (SortKey::Size, true));
}

#[test]
fn hidden_files_are_toggled_in_a_clean_buffer() {
    let mut controller = folded(&DEEP);
    assert!(toggle_hidden_rejection(true).is_some());
    assert!(toggle_hidden_rejection(false).is_none());
    match after_hidden_scan(&mut controller, ScanOutcome::Failed) {
        RescanStep::Tell(told) => assert!(told.text.starts_with("Failed to toggle hidden files: ")),
        other => panic!("unexpected step: {other:?}"),
    }
    assert!(matches!(
        after_hidden_scan(&mut controller, ScanOutcome::Scanned(tree(&DEEP))),
        RescanStep::Show(_)
    ));
    assert!(controller.scan_options().show_hidden);
}

#[test]
fn going_elsewhere_needs_a_place() {
    let drives = vec!["C:\\".to_owned(), "D:\\".to_owned()];
    assert_eq!(
        no_parent_message(&drives).text,
        "No parent directory | Drives: C:\\ D:\\ (use :cd to navigate)"
    );
    assert_eq!(no_parent_message(&Vec::new()).text, "No parent directory");
    match change_directory_to(None, &root(), "/root", &drives, None, false) {
        GoStep::Tell(told) => assert_eq!(told.text, "Current: /root | Drives: C:\\ D:\\"),
        other => panic!("unexpected step: {other:?}"),
    }
    match change_directory_to(None, &root(), "/root", &Vec::new(), None, false) {
        GoStep::Tell(told) => assert_eq!(told.text, "Current: /root"),
        other => panic!("unexpected step: {other:?}"),
    }
    match handle_change_directory(Some("~"), &root(), "/root", &drives, None) {
        GoStep::Tell(told) => assert_eq!(told.text, "Failed to resolve path: ~"),
        other => panic!("unexpected step: {other:?}"),
    }
    match handle_change_directory(Some("sub"), &root(), "/root", &drives, None) {
        GoStep::Go(place) => assert_eq!(place, JoinedPath::bare(root()).join("sub")),
        other => panic!("unexpected step: {other:?}"),
    }
}

#[test]
fn bookmarks_are_gone_to_or_told() {
    let bookmarks = vec![
        ("docs".to_owned(), "/d".to_owned()),
        ("dots".to_owned(), "/o".to_owned()),
    ];
    match handle_jump_bookmark(Some("docs"), &bookmarks, &Vec::new()) {
        BookmarkStep::Go(path) => assert_eq!(path, "/d"),
        other => panic!("unexpected step: {other:?}"),
    }
    match handle_jump_bookmark(Some("do"), &bookmarks, &Vec::new()) {
        BookmarkStep::Tell(told) => {
            assert_eq!(told.text, "Bookmark name is ambiguous: do (docs, dots)")
        }
        other => panic!("unexpected step: {other:?}"),
    }
    match handle_jump_bookmark(Some("x"), &bookmarks, &Vec::new()) {
        BookmarkStep::Tell(told) => {
            assert_eq!(told.text, "Bookmark or recent root was not found: x")
        }
        other => panic!("unexpected step: {other:?}"),
    }
    assert!(matches!(
        handle_jump_bookmark(None, &bookmarks, &Vec::new()),
        BookmarkStep::Tell(_)
    ));
}

fn paths(texts: &[&str]) -> Vec<FsPath> {
    texts.iter().map(|text| FsPath::from_text(text)).collect()
}

#[test]
fn changes_are_gathered_by_pane_and_root() {
    let queued = vec![
        Queued::Other("first"),
        Queued::Changed { pane: PaneId(1), paths: paths(&["/a", "/b"]) },
        Queued::Changed { pane: PaneId(2), paths: paths(&["/c"]) },
        Queued::Other("second"),
        Queued::Changed { pane: PaneId(3), paths: paths(&["/d"]) },
    ];
    let (groups, rest) = coalesce_changes(PaneId(2), &paths(&["/c", "/e"]), queued);
    assert_eq!(rest, ["first", "second"]);
    let groups = groups.into_groups();
    assert_eq!(groups.iter().map(|group| group.key).collect::<Vec<_>>(), [1, 2, 3]);
    assert_eq!(groups[0].paths, paths(&["/a", "/b"]));
    assert_eq!(groups[1].paths, paths(&["/c", "/e"]));

    let roots = vec![(PaneId(1), RootKey(9)), (PaneId(2), RootKey(9))];
    let by_root = changes_by_root(&groups, &roots).into_groups();
    assert_eq!(by_root.len(), 1);
    assert_eq!(by_root[0].key, 9);
    assert_eq!(by_root[0].paths, paths(&["/a", "/b", "/c", "/e"]));
}

#[test]
fn unwatched_folder_is_told_once() {
    let mut degraded = false;
    assert_eq!(
        on_watch_degraded(&mut degraded, "lost").unwrap().text,
        "File watching stopped and will retry automatically: lost"
    );
    assert!(degraded);
    assert_eq!(on_watch_degraded(&mut degraded, "lost"), None);
    assert_eq!(transfer_forgotten_message().kind, MessageKind::Warn);
}

fn options(show_hidden: bool) -> ScanOptions {
    ScanOptions { show_hidden, sort: SortOrder::DirsFirst, key: SortKey::Name, reverse: false }
}

#[test]
fn panes_of_the_last_time_are_made_where_they_can() {
    let kept = plan_pane(PaneId(3), root(), "/root", &root(), Some(options(true)), options(false));
    assert!(kept.restores);
    assert_eq!(kept.scan_options, options(true));
    assert_eq!(kept.warning, None);
    let gone = FsPath::from_text("/root/gone");
    let moved = plan_pane(PaneId(3), root(), "/root", &gone, Some(options(true)), options(false));
    assert!(!moved.restores);
    assert_eq!(moved.warning, Some("Pane 3 root is unavailable; using /root".to_owned()));
    let fresh = plan_pane(PaneId(3), root(), "/root", &root(), None, options(false));
    assert!(!fresh.restores);
    assert_eq!(fresh.scan_options, options(false));

    let home = FsPath::from_text("/home");
    match after_first_failure(PaneId(2), &FsPath::from_text("/a"), &home, "denied", true) {
        CreateFailure::Retry { warning } => {
            assert_eq!(warning, "Pane 2 could not open /a (denied); using /home")
        }
        other => panic!("unexpected step: {other:?}"),
    }
    match after_first_failure(PaneId(2), &FsPath::from_text("/home/"), &home, "denied", true) {
        CreateFailure::Remove { warning } => {
            assert_eq!(warning, "Pane 2 could not be restored and was removed: denied")
        }
        other => panic!("unexpected step: {other:?}"),
    }
    assert!(matches!(
        after_last_failure(PaneId(2), "denied", false),
        CreateFailure::Fail
    ));
    match after_failure_at(PaneId(2), &FsPath::from_text("/a"), &home, "denied", false, false) {
        CreateFailure::Retry { warning } => {
            assert_eq!(warning, "Pane 2 could not open /a (denied); using /home")
        }
        other => panic!("unexpected step: {other:?}"),
    }
    assert!(matches!(
        after_failure_at(PaneId(2), &FsPath::from_text("/a"), &home, "denied", true, false),
        CreateFailure::Fail
    ));
    let again = plan_again(&kept, FsPath::from_text("/home"));
    assert_eq!(again.root, home);
    assert!(!again.restores);
    assert_eq!(again.scan_options, options(true));
    assert_eq!(again.warning, None);
}

#[test]
fn first_pane_opens_the_fallback_where_none_could_be_made() {
    let home = FsPath::from_text("/home");
    let (id, plan) = plan_only_pane(&Vec::new(), FsPath::from_text("/home"), options(true))
        .expect("there is a pane");
    assert_eq!(id, PaneId(1));
    assert_eq!(plan.root, home);
    assert!(!plan.restores);
    assert_eq!(plan.scan_options, options(true));
    assert_eq!(plan.warning, None);
    assert!(plan_only_pane(&vec![PaneId(4)], FsPath::from_text("/home"), options(true)).is_none());
}

#[test]
fn troubles_at_the_start_are_told() {
    assert_eq!(
        trouble_warning(StartTrouble::Session, "torn"),
        "Could not restore the previous session; starting with one pane: torn"
    );
    assert_eq!(
        trouble_warning(StartTrouble::Journal, "denied"),
        "Failed to open undo journal. The next apply cannot be undone: denied"
    );
    assert_eq!(
        trouble_warning(StartTrouble::Recovery, "denied"),
        "Failed to scan undo journal at startup: denied"
    );
}

fn split(first: PaneLayout, second: PaneLayout) -> PaneLayout {
    PaneLayout::Split {
        direction: SplitDirection::Horizontal,
        ratio: 0.5f64.to_bits(),
        first: Box::new(first),
        second: Box::new(second),
    }
}

#[test]
fn available_panes_come_back() {
    let requested = split(
        PaneLayout::Leaf(PaneId(1)),
        split(PaneLayout::Leaf(PaneId(4)), PaneLayout::Leaf(PaneId(2))),
    );
    let (layout, active, next) =
        initial_panes(&requested, PaneId(4), &vec![PaneId(2), PaneId(4)]);
    assert_eq!(layout.leaves(), [PaneId(4), PaneId(2)]);
    assert_eq!(active, PaneId(4));
    assert_eq!(next, 5);
    let (layout, active, _) = initial_panes(&requested, PaneId(4), &vec![PaneId(2)]);
    assert_eq!(layout, PaneLayout::Leaf(PaneId(2)));
    assert_eq!(active, PaneId(2));
    let (layout, active, next) = initial_panes(&requested, PaneId(4), &vec![PaneId(9)]);
    assert_eq!(layout, PaneLayout::Leaf(PaneId(9)));
    assert_eq!(active, PaneId(9));
    assert_eq!(next, 10);
    assert_eq!(initial_panes(&requested, PaneId(4), &vec![PaneId(u64::MAX)]).2, u64::MAX);
}

#[test]
fn parents_are_loaded_first() {
    let expanded = ["a/b/c", "x", "a/b", "a", "x/y"]
        .iter()
        .map(|path| TreePath::parse(path))
        .collect::<Vec<_>>();
    let order = restore_order(&expanded);
    assert_eq!(
        order.iter().map(TreePath::display).collect::<Vec<_>>(),
        ["x", "a", "a/b", "x/y", "a/b/c"]
    );
    assert_eq!(next_to_restore(&order, &vec![TreePath::parse("a")], 0), Some(1));
    assert_eq!(next_to_restore(&order, &vec![TreePath::parse("a")], 2), None);
    assert_eq!(
        restore_warning(&order[2], "denied"),
        "Could not restore expanded folder a/b: denied"
    );
}

#[test]
fn start_is_commented_in_order() {
    let messages = startup_messages(
        &vec!["bad key".to_owned(), "bad font".to_owned()],
        &vec!["gone".to_owned()],
        &Some("no journal".to_owned()),
        &None,
    );
    assert_eq!(
        messages.iter().map(|message| message.text.as_str()).collect::<Vec<_>>(),
        ["Configuration: bad key / bad font", "Session: gone", "no journal"]
    );
    assert!(startup_messages(&Vec::new(), &Vec::new(), &None, &None).is_empty());
    let failure = editor_start_failure(&vec!["one".to_owned(), "two".to_owned()]);
    assert!(failure.starts_with("Failed to start Neovim.\nSearch results:\none\ntwo\n\nReinstall"));
}

#[test]
fn cursor_stays_with_its_entry() {
    let controller = SaveController::new(root(), tree(&DEEP));
    let lines = controller.visible_lines();
    let capture = |cursor_line| PaneCapture {
        id: PaneId(1),
        root: root(),
        controller: &controller,
        lines: &lines,
        cursor_line,
        collapsed: vec![TreePath::parse("c")],
        expanded: vec![TreePath::parse("e")],
    };
    let state = capture_session(vec![capture(1)], PaneLayout::Leaf(PaneId(1)), PaneId(1), None);
    assert_eq!(state.panes.len(), 1);
    assert_eq!(state.panes[0].cursor, Some(TreePath::parse("dir/a.txt")));
    assert_eq!(state.panes[0].collapsed, [TreePath::parse("c")]);
    assert_eq!(state.panes[0].expanded, [TreePath::parse("e")]);
    let state = capture_session(vec![capture(9)], PaneLayout::Leaf(PaneId(1)), PaneId(1), None);
    assert_eq!(state.panes[0].cursor, None);
}

fn plain_options() -> ScanOptions {
    ScanOptions {
        show_hidden: true,
        sort: SortOrder::Mixed,
        key: SortKey::Size,
        reverse: true,
    }
}

fn kept(cursor: Option<&str>, collapsed: &[&str]) -> SessionPane {
    SessionPane {
        id: PaneId(1),
        root: root(),
        cursor: cursor.map(TreePath::parse),
        collapsed: collapsed.iter().map(|path| TreePath::parse(path)).collect(),
        expanded: Vec::new(),
        scan_options: plain_options(),
    }
}

const NESTED: [(u64, &str, EntryKind); 5] = [
    (1, "dir", EntryKind::Dir),
    (2, "dir/inner", EntryKind::Dir),
    (3, "dir/inner/a.txt", EntryKind::File),
    (4, "other", EntryKind::Dir),
    (5, "other/b.txt", EntryKind::File),
];

#[test]
fn new_pane_is_folded() {
    let pane = create_pane(root(), tree(&NESTED), plain_options(), None);
    let texts: Vec<&str> = pane.lines.iter().map(|line| line.text.as_str()).collect();
    assert_eq!(texts, ["/001 dir/", "/004 other/"]);
    assert_eq!(pane.cursor_line, None);
    assert_eq!(pane.controller.scan_options(), plain_options());
    assert!(pane.controller.is_idle());
}

#[test]
fn kept_pane_shows_what_it_showed() {
    let pane = create_pane(
        root(),
        tree(&NESTED),
        plain_options(),
        Some(&kept(Some("other/b.txt"), &["dir/inner", "gone", "dir/inner/a.txt"])),
    );
    let texts: Vec<&str> = pane.lines.iter().map(|line| line.text.as_str()).collect();
    assert_eq!(texts.len(), 4);
    assert!(texts[1].ends_with("inner/"));
    assert!(texts[3].ends_with("b.txt"));
    assert_eq!(pane.cursor_line, Some(3));
    assert_eq!(pane.controller.collapsed_dirs(), &HashSet::from([2]));
}

#[test]
fn cursor_on_a_hidden_place_is_not_kept() {
    let pane = create_pane(
        root(),
        tree(&NESTED),
        plain_options(),
        Some(&kept(Some("dir/inner/a.txt"), &["dir"])),
    );
    assert_eq!(pane.cursor_line, None);
    let pane = create_pane(
        root(),
        tree(&NESTED),
        plain_options(),
        Some(&kept(Some("gone.txt"), &[])),
    );
    assert_eq!(pane.cursor_line, None);
    assert_eq!(pane.lines.len(), 5);
}

#[test]
fn directories_are_loaded_one_after_the_other() {
    let mut load = RecursiveLoad::new(2);
    assert_eq!(load.next(false), RecursiveStep::Load(0));
    assert_eq!(load.on_progress(3), 3);
    assert_eq!(load.on_progress(5), 5);
    load.on_loaded();
    assert_eq!(load.next(true), RecursiveStep::Stopped);
    assert_eq!(load.next(false), RecursiveStep::Load(1));
    assert_eq!(load.on_progress(2), 7);
    load.on_loaded();
    assert_eq!(load.next(true), RecursiveStep::Finished);
}

#[test]
fn changes_that_waited_are_handed_out_once() {
    let mut waiting = ChangeGroups::new();
    waiting.extend(2, &vec![FsPath::from_text("/b")]);
    waiting.extend(3, &Vec::new());
    waiting.extend(1, &vec![FsPath::from_text("/a")]);
    waiting.extend(2, &vec![FsPath::from_text("/c"), FsPath::from_text("/b")]);
    let groups = waiting.take_waiting();
    let keys: Vec<u64> = groups.iter().map(|group| group.key).collect();
    assert_eq!(keys, [1, 2]);
    assert_eq!(groups[0].paths, [FsPath::from_text("/a")]);
    assert_eq!(groups[1].paths.len(), 2);
    assert!(waiting.take_waiting().is_empty());
}
