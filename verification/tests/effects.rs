use fyler_app::commands::{after_open_with_choice, OpenWithChoice, OpenWithHandler};
use fyler_app::directory_commands::{
    after_fold_lines, after_hidden_lines, after_normalizing, after_recording, after_sort_lines,
};
use fyler_app::fs_path::{located, FsPath, JoinedPath};
use fyler_app::import_flow::DropEffect;
use fyler_app::loading::{after_directory_shown, after_root_shown};
use fyler_app::notices::{Message, MessageKind};
use fyler_app::options::SortKey;
use fyler_app::report::{failed_report, worker_failure, OpOutcome, Worker};
use fyler_app::tree::TreePath;
use fyler_app::tree_commands::{
    after_activate_step, after_clipboard_write, after_line_removal, after_name_edit,
    after_open_with, after_picker_step, after_terminal, ActivateStep, OpenWithStep, PickerStep,
};

fn place() -> JoinedPath {
    located(&FsPath::from_text("/root"), &TreePath::parse("a.txt"))
}

fn denied() -> Result<(), String> {
    Err("denied".to_owned())
}

fn error(text: &str) -> Option<Message> {
    Some(Message::new(MessageKind::Error, text))
}

#[test]
fn search_candidate_that_cannot_be_gone_to_is_told() {
    let open = PickerStep::Open(place());
    let cursor = PickerStep::SetCursor(3);
    let reveal = PickerStep::Reveal { lines: Vec::new(), cursor_line: 0 };
    let tell = PickerStep::Tell(Message::new(MessageKind::Info, "busy"));
    assert_eq!(after_picker_step(&open, denied()), error("Failed to open target: denied"));
    assert_eq!(
        after_picker_step(&cursor, denied()),
        error("Failed to navigate to search candidate: denied")
    );
    assert_eq!(
        after_picker_step(&reveal, denied()),
        error("Failed to reveal search candidate: denied")
    );
    assert_eq!(after_picker_step(&tell, denied()), None);
    for step in [open, cursor, reveal, tell] {
        assert_eq!(after_picker_step(&step, Ok(())), None);
    }
}

#[test]
fn line_that_cannot_be_activated_is_told() {
    let open = ActivateStep::Open(place());
    let show = ActivateStep::Show { lines: Vec::new(), cursor_line: 0 };
    assert_eq!(after_activate_step(&open, denied()), error("Failed to open file: denied"));
    assert_eq!(
        after_activate_step(&show, denied()),
        error("Failed to update folded view: denied")
    );
    assert_eq!(after_activate_step(&open, Ok(())), None);
    assert_eq!(after_activate_step(&ActivateStep::Done, denied()), None);
    assert_eq!(
        after_activate_step(&ActivateStep::Load(TreePath::parse("dir")), denied()),
        None
    );
}

#[test]
fn programs_are_offered_for_a_file() {
    let found = Ok(vec![OpenWithHandler {
        display_name: "Editor".to_owned(),
        key: "editor".to_owned(),
    }]);
    let choices = vec!["Editor".to_owned(), "Open with... (Windows dialog)".to_owned()];
    match after_open_with(&found, Some("a.txt"), "/root/a.txt") {
        OpenWithStep::Choose { file_name, choices: offered } => {
            assert_eq!(file_name, "a.txt");
            assert_eq!(offered, choices);
        }
        other => panic!("unexpected step: {other:?}"),
    }
    assert!(matches!(
        after_open_with(&found, None, "/"),
        OpenWithStep::Choose { ref file_name, .. } if file_name == "/"
    ));
    assert_eq!(
        after_open_with(&Err("denied".to_owned()), Some("a.txt"), "/root/a.txt"),
        OpenWithStep::Tell(Message::new(
            MessageKind::Error,
            "Failed to enumerate open-with candidates: denied"
        ))
    );
}

#[test]
fn chosen_program_that_cannot_open_a_file_is_told() {
    assert_eq!(after_open_with_choice(OpenWithChoice::Handler(0), 0, Ok(())), None);
    assert_eq!(
        after_open_with_choice(OpenWithChoice::SystemDialog, 1, denied()),
        error("Failed to open with selected application: denied")
    );
    assert_eq!(
        after_open_with_choice(OpenWithChoice::OutOfRange, 9, Ok(())),
        error(
            "Failed to open with selected application: Open-with selection is out of range: 9"
        )
    );
}

#[test]
fn clipboard_tells_what_it_holds_or_why_it_does_not() {
    assert_eq!(
        after_clipboard_write(DropEffect::Copy, 2, Ok(())),
        Message::new(MessageKind::Info, "Copied 2 items to clipboard")
    );
    assert_eq!(
        after_clipboard_write(DropEffect::Move, 1, denied()),
        Message::new(MessageKind::Error, "Failed to write to the clipboard: denied")
    );
}

#[test]
fn views_that_cannot_be_shown_are_told() {
    let after: Vec<(fn(Result<(), String>) -> Option<Message>, &str)> = vec![
        (after_terminal, "Failed to start terminal: denied"),
        (after_name_edit, "Failed to start rename: denied"),
        (after_line_removal, "Failed to remove line: denied"),
        (after_fold_lines, "Failed to update folded view: denied"),
        (after_hidden_lines, "Failed to update hidden-file view: denied"),
        (after_directory_shown, "Failed to display loaded directory: denied"),
        (after_root_shown, "Failed to display new directory: denied"),
    ];
    for (after, text) in after {
        assert_eq!(after(Ok(())), None);
        assert_eq!(after(denied()), error(text));
    }
}

#[test]
fn new_order_is_told_once_it_is_shown() {
    assert_eq!(
        after_sort_lines(SortKey::Size, true, Ok(())),
        Message::new(MessageKind::Info, "sort: size (reverse)")
    );
    assert_eq!(
        after_sort_lines(SortKey::Size, true, denied()),
        Message::new(MessageKind::Error, "Failed to update sorted view: denied")
    );
}

#[test]
fn root_that_is_not_recorded_is_a_warning() {
    assert_eq!(after_recording(Ok(())), None);
    assert_eq!(
        after_recording(denied()),
        Some(Message::new(MessageKind::Warn, "Failed to record recent root: denied"))
    );
}

#[test]
fn root_without_a_form_of_its_own_is_told() {
    assert_eq!(
        after_normalizing("./a", Ok(FsPath::from_text("/root/a"))),
        Ok(FsPath::from_text("/root/a"))
    );
    assert_eq!(
        after_normalizing("./a", Err("denied".to_owned())),
        Err(Message::new(MessageKind::Error, "Failed to normalize root (./a): denied"))
    );
}

#[test]
fn work_that_does_not_begin_fails_as_a_whole() {
    let texts = [
        (Worker::Apply, "Failed to start apply worker: denied"),
        (Worker::Undo, "Failed to start undo worker: denied"),
        (Worker::Transfer, "Failed to start transfer worker: denied"),
        (Worker::Loader, "Failed to start loader worker: denied"),
    ];
    for (worker, text) in texts {
        let reason = worker_failure(worker, "denied");
        assert_eq!(reason, text);
        let report = failed_report(vec![1, 2], &reason);
        assert!(report.results.iter().all(|result| matches!(
            &result.outcome,
            OpOutcome::Failed { error, progress: None } if error == text
        )));
    }
}
