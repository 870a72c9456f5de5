use std::path::PathBuf;

use fyler_app::baseline::{BaselineEntry, BaselineTree};
use fyler_app::commands::{
    bookmark_list_message, cd_target, cycle_focus, existing_root_or_ancestor, format_drive_paths,
    help_lines, next_picker_reveal_directory, open_with_choice, open_with_choices,
    parse_sort_query, resolve_bookmark_query, resolve_cd_target, resolve_terminal_cwd,
    sort_key_name, sort_state_message, BookmarkResolution, KeyBinding, OpenWithChoice,
    OpenWithHandler, TerminalCwd,
};
use fyler_app::fs_path::{FsPath, JoinedPath};
use fyler_app::git_refresh::{is_status_current, GitRefresher};
use fyler_app::grammar::{format_id_prefix, EditorLine, EntryId};
use fyler_app::notices::MessageKind;
use fyler_app::options::SortKey;
use fyler_app::pane::{PaneId, PaneLayout, SplitDirection};
use fyler_app::save_flow::SaveController;
use fyler_app::tree::{EntryKind, TreePath};
use fyler_app::tree_commands::{
    clipboard_message, handle_activate_line, handle_begin_name_edit, handle_clipboard_copy_or_cut,
    handle_mark_for_deletion, handle_navigate_into, handle_open_file_picker, handle_open_terminal,
    handle_open_with, handle_picker_select, handle_yank_path, ActivateStep, ClipboardStep,
    EditStep, PathStep, PickerAction, PickerStep, TerminalStep,
};

fn place(path: &JoinedPath) -> PathBuf {
    let mut place = PathBuf::from(&path.base.text);
    for name in &path.names {
        place = place.join(name);
    }
    place
}

fn cwd(cwd: &TerminalCwd) -> PathBuf {
    let path = place(&cwd.path);
    if cwd.parent {
        path.parent().unwrap().to_path_buf()
    } else {
        path
    }
}

fn root() -> FsPath {
    FsPath::from_text("root")
}

fn picker_baseline() -> BaselineTree {
    let mut baseline = BaselineTree::new(root());
    for (id, path, kind) in [
        (1, "dir", EntryKind::Dir),
        (2, "dir/file.txt", EntryKind::File),
        (3, "link", EntryKind::Symlink),
        (4, "other", EntryKind::Dir),
    ] {
        baseline.insert(BaselineEntry { id: EntryId(id), path: TreePath::parse(path), kind });
    }
    baseline
}

fn picker_controller(collapsed: bool) -> SaveController {
    let mut controller = SaveController::new(root(), picker_baseline());
    if collapsed {
        controller.collapse_all_dirs();
    }
    controller
}

fn saved_line(id: EntryId, name: &str) -> EditorLine {
    EditorLine::new(format!("{}{name}", format_id_prefix(id)))
}

#[test]
fn terminal_cwd_uses_directory_itself() {
    let controller = picker_controller(false);
    let lines = vec![saved_line(EntryId(1), "dir/")];
    assert_eq!(
        cwd(&resolve_terminal_cwd(&controller, &lines, 0, &root())),
        PathBuf::from("root/dir")
    );
}

#[test]
fn terminal_cwd_uses_file_parent() {
    let controller = picker_controller(false);
    let lines = vec![saved_line(EntryId(2), "file.txt")];
    assert_eq!(
        cwd(&resolve_terminal_cwd(&controller, &lines, 0, &root())),
        PathBuf::from("root/dir")
    );
}

#[test]
fn terminal_cwd_uses_symlink_parent() {
    let controller = picker_controller(false);
    let lines = vec![saved_line(EntryId(3), "link")];
    assert_eq!(
        cwd(&resolve_terminal_cwd(&controller, &lines, 0, &root())),
        PathBuf::from("root")
    );
}

#[test]
fn terminal_cwd_falls_back_to_root_for_unsaved_line() {
    let controller = picker_controller(false);
    let lines = vec![EditorLine::new("new.txt".to_owned())];
    assert_eq!(
        cwd(&resolve_terminal_cwd(&controller, &lines, 0, &root())),
        PathBuf::from("root")
    );
}

#[test]
fn terminal_cwd_falls_back_to_root_for_stale_entry() {
    let controller = picker_controller(false);
    let lines = vec![saved_line(EntryId(999), "stale.txt")];
    assert_eq!(
        cwd(&resolve_terminal_cwd(&controller, &lines, 0, &root())),
        PathBuf::from("root")
    );
}

#[test]
fn resolve_cd_target_keeps_absolute_paths() {
    let absolute = if cfg_windows() { r"C:\work\absolute-target" } else { "/work/absolute-target" };
    assert_eq!(
        resolve_cd_target(absolute, &FsPath::from_text("ignored"), None).map(|path| place(&path)),
        Some(PathBuf::from(absolute))
    );
}

fn cfg_windows() -> bool {
    std::path::MAIN_SEPARATOR == '\\'
}

#[test]
fn resolve_cd_target_expands_home_paths() {
    let home = FsPath::from_text("home");
    assert_eq!(
        resolve_cd_target("~", &root(), Some(&home)).map(|path| place(&path)),
        Some(PathBuf::from("home"))
    );
    assert_eq!(
        resolve_cd_target("~/sub", &root(), Some(&home)).map(|path| place(&path)),
        Some(PathBuf::from("home").join("sub"))
    );
    assert_eq!(resolve_cd_target("~", &root(), None), None);
    assert_eq!(resolve_cd_target("~user", &root(), Some(&home)), None);
}

#[test]
fn resolve_cd_target_joins_relative_paths_to_root_without_normalizing() {
    let root = PathBuf::from("root").join("current");
    let shown = FsPath::from_text(root.to_str().unwrap());
    assert_eq!(
        resolve_cd_target("..", &shown, None).map(|path| place(&path)),
        Some(root.join(".."))
    );
    assert_eq!(
        resolve_cd_target("sub/dir", &shown, None).map(|path| place(&path)),
        Some(root.join("sub").join("dir"))
    );
}

#[test]
fn resolve_cd_target_recognizes_windows_absolute_paths() {
    assert_eq!(
        cd_target(r"C:\x", &FsPath::from_text(r"D:\root"), None, true),
        Some(JoinedPath::bare(FsPath::from_text(r"C:\x")))
    );
}

#[test]
fn parse_sort_query_accepts_keys_and_bang_reverse() {
    assert_eq!(parse_sort_query("name"), Ok((SortKey::Name, false)));
    assert_eq!(parse_sort_query("date!"), Ok((SortKey::Date, true)));
    assert_eq!(parse_sort_query("!date"), Ok((SortKey::Date, true)));
    assert_eq!(parse_sort_query("!date!"), Ok((SortKey::Date, true)));
    assert_eq!(parse_sort_query(" size! "), Ok((SortKey::Size, true)));
    assert_eq!(parse_sort_query("ext"), Ok((SortKey::Extension, false)));
}

#[test]
fn parse_sort_query_rejects_unknown_or_empty_key() {
    assert!(parse_sort_query("mtime").unwrap_err().contains("Unknown"));
    assert!(parse_sort_query("").unwrap_err().contains("Unknown"));
}

#[test]
fn sort_state_message_formats_reverse_suffix() {
    assert_eq!(sort_state_message(SortKey::Date, false), "sort: date");
    assert_eq!(sort_state_message(SortKey::Size, true), "sort: size (reverse)");
}

#[test]
fn sort_keys_are_named_as_they_are_written() {
    for key in [SortKey::Name, SortKey::Date, SortKey::Size, SortKey::Extension] {
        assert_eq!(parse_sort_query(sort_key_name(key)), Ok((key, false)));
    }
}

#[test]
fn open_with_choices_always_appends_system_dialog() {
    assert_eq!(
        open_with_choices(&Vec::new()),
        ["Open with... (Windows dialog)".to_owned()]
    );
    assert_eq!(
        open_with_choices(&vec![
            OpenWithHandler { display_name: "Editor".to_owned(), key: "editor.exe".to_owned() },
            OpenWithHandler { display_name: "Viewer".to_owned(), key: "viewer.exe".to_owned() },
        ]),
        [
            "Editor".to_owned(),
            "Viewer".to_owned(),
            "Open with... (Windows dialog)".to_owned(),
        ]
    );
}

#[test]
fn last_program_choice_is_the_system_dialog() {
    assert_eq!(open_with_choice(1, 2), OpenWithChoice::Handler(1));
    assert_eq!(open_with_choice(2, 2), OpenWithChoice::SystemDialog);
    assert_eq!(open_with_choice(3, 2), OpenWithChoice::OutOfRange);
}

#[test]
fn git_refresher_coalesces_inflight_requests_to_latest_root() {
    let mut git = GitRefresher::new();
    let first = || FsPath::from_text("first");
    let second = || FsPath::from_text("second");
    let latest = || FsPath::from_text("latest");
    let pane = PaneId(1);

    assert_eq!(git.prepare_request(pane, first()), Some(first()));
    assert!(git.is_inflight(pane));
    assert_eq!(git.prepare_request(pane, second()), None);
    assert_eq!(git.prepare_request(pane, latest()), None);
    assert_eq!(git.queued(pane), Some(latest()));

    assert_eq!(git.on_finished(pane), Some(latest()));
    assert!(!git.is_inflight(pane));
    assert_eq!(git.prepare_request(pane, latest()), Some(latest()));
    assert!(git.is_inflight(pane));
    assert_eq!(git.on_finished(pane), None);
    assert!(!git.is_inflight(pane));
}

#[test]
fn git_refresher_routes_slots_by_pane_id() {
    let mut git = GitRefresher::new();
    let first = PaneId(1);
    let second = PaneId(2);

    assert_eq!(
        git.prepare_request(first, FsPath::from_text("same")),
        Some(FsPath::from_text("same"))
    );
    assert_eq!(
        git.prepare_request(second, FsPath::from_text("same")),
        Some(FsPath::from_text("same"))
    );
    assert!(git.is_inflight(first));
    assert!(git.is_inflight(second));
    assert_eq!(git.on_finished(first), None);
    assert!(!git.is_inflight(first));
    assert!(git.is_inflight(second));
    git.remove(second);
    assert!(!git.is_inflight(second));
}

#[test]
fn bookmark_resolution_prefers_exact_then_unique_prefix_then_recent_index() {
    let bookmarks = vec![
        ("project".to_owned(), "/bookmark/project".to_owned()),
        ("profile".to_owned(), "/bookmark/profile".to_owned()),
        ("docs".to_owned(), "/bookmark/docs".to_owned()),
        ("1".to_owned(), "/bookmark/numeric".to_owned()),
    ];
    let recent = vec!["/recent/one".to_owned(), "/recent/two".to_owned()];

    assert_eq!(
        resolve_bookmark_query("1", &bookmarks, &recent),
        BookmarkResolution::Resolved("/bookmark/numeric".to_owned())
    );
    assert_eq!(
        resolve_bookmark_query("doc", &bookmarks, &recent),
        BookmarkResolution::Resolved("/bookmark/docs".to_owned())
    );
    assert_eq!(
        resolve_bookmark_query("2", &bookmarks, &recent),
        BookmarkResolution::Resolved("/recent/two".to_owned())
    );
    assert_eq!(
        resolve_bookmark_query("pro", &bookmarks, &recent),
        BookmarkResolution::Ambiguous(vec!["project".to_owned(), "profile".to_owned()])
    );
    assert_eq!(
        resolve_bookmark_query("missing", &bookmarks, &recent),
        BookmarkResolution::NotFound
    );
}

#[test]
fn bookmark_list_names_places_and_recent_roots() {
    let message = bookmark_list_message(
        &vec![("docs".to_owned(), "/d".to_owned())],
        &vec!["/r".to_owned()],
    );
    assert!(message.contains("docs"));
    assert!(message.contains("/r"));
}

#[test]
fn drives_are_named_in_a_row() {
    assert_eq!(format_drive_paths(&vec!["C:\\".to_owned(), "D:\\".to_owned()]), "C:\\ D:\\");
}

#[test]
fn dirty_buffer_can_open_picker() {
    let controller = picker_controller(false);
    assert_eq!(handle_open_file_picker(&controller, false, false, false, false, false), None);
    let told = handle_open_file_picker(&controller, true, false, false, false, false).unwrap();
    assert_eq!(told.kind, MessageKind::Info);
}

#[test]
fn stale_picker_path_warns_without_reveal_or_cursor_move() {
    let mut controller = picker_controller(true);
    let lines = controller.visible_lines();
    match handle_picker_select(
        &mut controller,
        &TreePath::parse("missing.txt"),
        PickerAction::Jump,
        &lines,
        false,
        &root(),
    ) {
        PickerStep::Tell(message) => assert!(message.text.contains("externally")),
        other => panic!("unexpected step: {other:?}"),
    }
    assert!(controller.collapsed_dirs().contains(&1));
}

#[test]
fn picker_jump_loads_two_unloaded_ancestors_then_reveals_target() {
    let target = TreePath::parse("first/second/target.txt");
    assert_eq!(
        next_picker_reveal_directory(&vec![TreePath::parse("first")], &target),
        Some(TreePath::parse("first"))
    );
    assert_eq!(
        next_picker_reveal_directory(&vec![TreePath::parse("first/second")], &target),
        Some(TreePath::parse("first/second"))
    );
    assert_eq!(next_picker_reveal_directory(&Vec::new(), &target), None);

    let mut baseline = BaselineTree::new(root());
    for (id, path, kind) in [
        (1, "first", EntryKind::Dir),
        (2, "first/second", EntryKind::Dir),
        (3, "first/second/target.txt", EntryKind::File),
    ] {
        baseline.insert(BaselineEntry { id: EntryId(id), path: TreePath::parse(path), kind });
    }
    let mut controller = SaveController::new(root(), baseline);
    controller.collapse_all_dirs();
    let lines = controller.visible_lines();
    match handle_picker_select(
        &mut controller,
        &target,
        PickerAction::Jump,
        &lines,
        false,
        &root(),
    ) {
        PickerStep::Reveal { lines, cursor_line } => {
            assert_eq!(lines.len(), 3);
            assert_eq!(cursor_line, 2);
        }
        other => panic!("unexpected step: {other:?}"),
    }
}

#[test]
fn picker_jump_to_visible_entry_sends_cursor_only() {
    let mut controller = picker_controller(false);
    let lines = controller.visible_lines();
    assert_eq!(
        handle_picker_select(
            &mut controller,
            &TreePath::parse("dir/file.txt"),
            PickerAction::Jump,
            &lines,
            false,
            &root(),
        ),
        PickerStep::SetCursor(1)
    );
}

#[test]
fn picker_jump_reveals_collapsed_ancestors_and_sends_view_state() {
    let mut controller = picker_controller(true);
    let lines = controller.visible_lines();
    match handle_picker_select(
        &mut controller,
        &TreePath::parse("dir/file.txt"),
        PickerAction::Jump,
        &lines,
        false,
        &root(),
    ) {
        PickerStep::Reveal { cursor_line, .. } => assert_eq!(cursor_line, 1),
        other => panic!("unexpected step: {other:?}"),
    }
    assert!(!controller.collapsed_dirs().contains(&1));
}

#[test]
fn picker_jump_rejects_dirty_collapsed_entry() {
    let mut controller = picker_controller(true);
    let lines = controller.visible_lines();
    match handle_picker_select(
        &mut controller,
        &TreePath::parse("dir/file.txt"),
        PickerAction::Jump,
        &lines,
        true,
        &root(),
    ) {
        PickerStep::Tell(message) => assert!(message.text.contains("editing")),
        other => panic!("unexpected step: {other:?}"),
    }
    assert!(controller.collapsed_dirs().contains(&1));
}

#[test]
fn picker_jump_rejects_dirty_visible_line_with_mismatched_id() {
    let mut controller = picker_controller(false);
    let mut lines = controller.visible_lines();
    lines[1] = EditorLine::new("edited without id".to_owned());
    match handle_picker_select(
        &mut controller,
        &TreePath::parse("dir/file.txt"),
        PickerAction::Jump,
        &lines,
        true,
        &root(),
    ) {
        PickerStep::Tell(message) => assert!(message.text.contains("does not match")),
        other => panic!("unexpected step: {other:?}"),
    }
}

#[test]
fn picker_open_uses_default_open_path_for_every_entry_kind() {
    let mut controller = picker_controller(true);
    let lines = controller.visible_lines();
    let mut opened = Vec::new();
    for path in ["dir/file.txt", "link", "dir"] {
        match handle_picker_select(
            &mut controller,
            &TreePath::parse(path),
            PickerAction::Open,
            &lines,
            true,
            &root(),
        ) {
            PickerStep::Open(path) => opened.push(place(&path)),
            other => panic!("unexpected step: {other:?}"),
        }
    }
    assert_eq!(
        opened,
        vec![
            PathBuf::from("root/dir/file.txt"),
            PathBuf::from("root/link"),
            PathBuf::from("root/dir"),
        ]
    );
}

#[test]
fn picker_open_uses_catalog_path_without_loading_baseline() {
    let mut controller = picker_controller(true);
    let lines = controller.visible_lines();
    match handle_picker_select(
        &mut controller,
        &TreePath::parse("unloaded/deep.txt"),
        PickerAction::Open,
        &lines,
        true,
        &root(),
    ) {
        PickerStep::Open(path) => assert_eq!(place(&path), PathBuf::from("root/unloaded/deep.txt")),
        other => panic!("unexpected step: {other:?}"),
    }
}

fn binding(sequence: &str, action: u32, description: &str) -> KeyBinding {
    KeyBinding {
        sequence: sequence.to_owned(),
        action,
        description: description.to_owned(),
    }
}

#[test]
fn help_reflects_default_custom_and_unmapped_bindings() {
    const ACTIVATE: u32 = 0;
    const TOGGLE_HIDDEN: u32 = 1;
    const FILE_PICKER: u32 = 2;
    let defaults = || {
        vec![
            binding("Enter", ACTIVATE, "Open or expand"),
            binding("g .", TOGGLE_HIDDEN, "Toggle hidden files"),
            binding("g /", FILE_PICKER, "Find file"),
        ]
    };
    let default_lines = help_lines(&defaults());
    assert!(default_lines
        .iter()
        .any(|line| line.starts_with("Enter  ") && line.contains("Open or expand")));

    let mut customized = defaults()
        .into_iter()
        .filter(|binding| binding.action != TOGGLE_HIDDEN)
        .collect::<Vec<_>>();
    customized.push(binding("x", FILE_PICKER, "Find file"));
    let custom_lines = help_lines(&customized);
    assert!(!custom_lines.iter().any(|line| line.contains("Toggle hidden files")));
    assert!(custom_lines
        .iter()
        .any(|line| line.starts_with("g /, x  ") && line.contains("Find file")));
    assert!(custom_lines.contains(&":w  Save changes".to_owned()));
}

#[test]
fn unavailable_root_falls_back_to_nearest_existing_ancestor() {
    let ancestors = vec![
        (FsPath::from_text("/tmp/root/missing/nested"), false),
        (FsPath::from_text("/tmp/root/missing"), false),
        (FsPath::from_text("/tmp/root"), true),
        (FsPath::from_text("/tmp"), true),
    ];
    let fallback = FsPath::from_text("/fallback");
    assert_eq!(
        existing_root_or_ancestor(&ancestors, &fallback),
        FsPath::from_text("/tmp/root")
    );
    assert_eq!(
        existing_root_or_ancestor(&vec![(FsPath::from_text("/gone"), false)], &fallback),
        fallback
    );
}

fn split(first: PaneLayout, second: PaneLayout) -> PaneLayout {
    PaneLayout::Split {
        direction: SplitDirection::Vertical,
        ratio: 0.5f64.to_bits(),
        first: Box::new(first),
        second: Box::new(second),
    }
}

#[test]
fn cycle_focus_wraps_in_both_directions() {
    let first = PaneId(1);
    let second = PaneId(2);
    let layout = split(PaneLayout::Leaf(first), PaneLayout::Leaf(second));
    assert_eq!(cycle_focus(&layout, second, true), Some(first));
    assert_eq!(cycle_focus(&layout, first, false), Some(second));
}

#[test]
fn going_forward_and_back_comes_home() {
    let layout = split(
        PaneLayout::Leaf(PaneId(1)),
        split(PaneLayout::Leaf(PaneId(2)), PaneLayout::Leaf(PaneId(3))),
    );
    for id in [PaneId(1), PaneId(2), PaneId(3)] {
        let next = cycle_focus(&layout, id, true).unwrap();
        assert_eq!(cycle_focus(&layout, next, false), Some(id));
    }
    assert_eq!(cycle_focus(&layout, PaneId(9), true), None);
}

#[test]
fn activating_a_line_opens_files_and_unfolds_directories() {
    let mut controller = picker_controller(false);
    let lines = controller.visible_lines();
    match handle_activate_line(&mut controller, &lines, false, &root(), 1) {
        ActivateStep::Open(path) => assert_eq!(place(&path), PathBuf::from("root/dir/file.txt")),
        other => panic!("unexpected step: {other:?}"),
    }
    match handle_activate_line(&mut controller, &lines, false, &root(), 0) {
        ActivateStep::Show { lines, cursor_line } => {
            assert_eq!(lines.len(), 3);
            assert_eq!(cursor_line, 0);
        }
        other => panic!("unexpected step: {other:?}"),
    }
}

#[test]
fn edited_buffer_keeps_its_folds() {
    let mut controller = picker_controller(true);
    let lines = controller.visible_lines();
    match handle_activate_line(&mut controller, &lines, true, &root(), 0) {
        ActivateStep::Tell(_) => {}
        other => panic!("unexpected step: {other:?}"),
    }
    assert!(controller.collapsed_dirs().contains(&1));
}

#[test]
fn lines_that_are_not_saved_are_told_apart() {
    let mut controller = picker_controller(false);
    let lines = vec![
        EditorLine::new("new.txt".to_owned()),
        saved_line(EntryId(77), "gone.txt"),
    ];
    for line in [0, 1, 5] {
        match handle_activate_line(&mut controller, &lines, false, &root(), line) {
            ActivateStep::Tell(_) => {}
            other => panic!("unexpected step: {other:?}"),
        }
        assert!(matches!(
            handle_open_with(&controller, &lines, &root(), line),
            PathStep::Tell(_)
        ));
        assert!(matches!(
            handle_yank_path(&controller, &lines, &root(), line),
            PathStep::Tell(_)
        ));
        assert!(matches!(
            handle_navigate_into(&controller, &lines, &root(), line),
            PathStep::Tell(_)
        ));
    }
}

#[test]
fn only_directories_are_gone_into() {
    let controller = picker_controller(false);
    let lines = controller.visible_lines();
    match handle_navigate_into(&controller, &lines, &root(), 0) {
        PathStep::Use(path) => assert_eq!(place(&path), PathBuf::from("root/dir")),
        other => panic!("unexpected step: {other:?}"),
    }
    match handle_navigate_into(&controller, &lines, &root(), 1) {
        PathStep::Tell(message) => {
            assert_eq!(message.kind, MessageKind::Info);
            assert_eq!(message.text, "This is not a directory line");
        }
        other => panic!("unexpected step: {other:?}"),
    }
    match handle_yank_path(&controller, &lines, &root(), 1) {
        PathStep::Use(path) => assert_eq!(place(&path), PathBuf::from("root/dir/file.txt")),
        other => panic!("unexpected step: {other:?}"),
    }
}

#[test]
fn clipboard_takes_the_selected_paths() {
    let controller = picker_controller(false);
    let lines = controller.visible_lines();
    match handle_clipboard_copy_or_cut(&controller, &lines, &root(), &vec![1, 2]) {
        ClipboardStep::Write(paths) => assert_eq!(
            paths.iter().map(place).collect::<Vec<_>>(),
            vec![PathBuf::from("root/dir/file.txt"), PathBuf::from("root/link")]
        ),
        other => panic!("unexpected step: {other:?}"),
    }
    assert!(matches!(
        handle_clipboard_copy_or_cut(&controller, &lines, &root(), &Vec::new()),
        ClipboardStep::Tell(_)
    ));
    assert!(clipboard_message(fyler_app::import_flow::DropEffect::Copy, 2).contains('2'));
}

#[test]
fn terminal_is_not_opened_while_busy() {
    let controller = picker_controller(false);
    let lines = controller.visible_lines();
    match handle_open_terminal(
        &controller,
        &lines,
        &root(),
        0,
        false,
        false,
        false,
        false,
        false,
    ) {
        TerminalStep::Open(found) => assert_eq!(cwd(&found), PathBuf::from("root/dir")),
        other => panic!("unexpected step: {other:?}"),
    }
    assert!(matches!(
        handle_open_terminal(
            &controller,
            &lines,
            &root(),
            0,
            false,
            true,
            false,
            false,
            false,
        ),
        TerminalStep::Tell(_)
    ));
}

#[test]
fn only_saved_lines_are_renamed_or_removed_by_command() {
    let controller = picker_controller(false);
    let lines = controller.visible_lines();
    assert_eq!(handle_begin_name_edit(&lines, 1, None), EditStep::Edit(1));
    assert_eq!(handle_mark_for_deletion(&lines, 1, None), EditStep::Edit(1));
    assert!(matches!(
        handle_begin_name_edit(&lines, 99, None),
        EditStep::Tell(_)
    ));
    match handle_mark_for_deletion(&lines, 1, Some("busy")) {
        EditStep::Tell(message) => assert_eq!(message.text, "busy"),
        other => panic!("unexpected step: {other:?}"),
    }
}

#[test]
fn status_of_another_root_is_not_shown() {
    let shown = FsPath::from_text("/work");
    assert!(is_status_current(&shown, &FsPath::from_text("/work/")));
    assert!(!is_status_current(&shown, &FsPath::from_text("/other")));
}
