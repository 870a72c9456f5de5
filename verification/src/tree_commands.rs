//! What a user's command on a line of the tree leads to.

use vstd::prelude::*;

use crate::baseline::EntryView;
use crate::commands::{
    open_choices, open_with_choices, resolve_terminal_cwd, terminal_place, OpenWithHandler,
    TerminalCwd,
};
use crate::folding::{entry_by_path, find_path};
use crate::fs_path::{joined, located, FsPath, FsPathView, JoinedPath, JoinedPathView};
use crate::gates::{
    obstacle, open_file_picker_rejection, open_terminal_rejection, search_refused,
    terminal_refused,
};
use crate::grammar::{
    line_texts, prefix_of, split_id_prefix, EditorLine, EntryId, PrefixParse, PrefixView,
};
use crate::import_flow::DropEffect;
use crate::listing::{entry_at, position_of, shown};
use crate::notices::{
    message, tell_of, told_of, told_view, tried, Message, MessageKind, MessageView,
};
use crate::save_flow::{
    reveal_step, toggle_step, RevealResult, RevealView, SaveController, SaveView,
    ToggleCollapseResult, ToggleView,
};
use crate::text::{decimal, decimal_text, optional_text, texts};
use crate::transfer_flow::{
    dedupe_ancestors, picks_view, resolve_selection, selection, uncovered, SelectionError,
};
use crate::tree::{EntryKind, TreePath};

verus! {

/// What a line of the buffer is.
#[derive(Debug, Clone, Copy, PartialEq, Eq, Structural)]
pub enum LineKind {
    Missing,
    /// It has no number: it has not been saved.
    Unsaved,
    /// Its number cannot be read.
    Broken,
    Saved,
}

/// What a line of the buffer is.
pub open spec fn line_kind(lines: Seq<Seq<char>>, line: int) -> LineKind {
    if !(0 <= line < lines.len()) {
        LineKind::Missing
    } else {
        match prefix_of(lines[line]) {
            PrefixView::NoId { .. } => LineKind::Unsaved,
            PrefixView::Broken => LineKind::Broken,
            PrefixView::WithId { .. } => LineKind::Saved,
        }
    }
}

/// What a line of the buffer is.
pub fn kind_of_line(lines: &Vec<EditorLine>, line: usize) -> (r: LineKind)
    ensures
        r == line_kind(line_texts(lines@), line as int),
{
    if line >= lines.len() {
        return LineKind::Missing;
    }
    assert(line_texts(lines@)[line as int] == lines@[line as int].text@);
    match split_id_prefix(lines[line].text.as_str()) {
        PrefixParse::NoId { .. } => LineKind::Unsaved,
        PrefixParse::Broken => LineKind::Broken,
        PrefixParse::WithId { .. } => LineKind::Saved,
    }
}

/// The entry that a command on a line means, or what a user is told where there is
/// none: `missing` where there is no such line, `broken` where its number cannot be
/// read.
pub open spec fn line_target(
    entries: Seq<EntryView>,
    lines: Seq<Seq<char>>,
    line: int,
    missing: Seq<char>,
    broken: Seq<char>,
) -> Result<EntryView, MessageView> {
    match line_kind(lines, line) {
        LineKind::Missing => Err(message(MessageKind::Error, missing)),
        LineKind::Unsaved => Err(message(MessageKind::Info, "This line has not been saved"@)),
        LineKind::Broken => Err(message(MessageKind::Error, broken)),
        LineKind::Saved => match entry_at(entries, lines, line) {
            Some(entry) => Ok(entry),
            None => Err(
                message(
                    MessageKind::Error,
                    "File for this line was not found in the current tree"@,
                ),
            ),
        },
    }
}

/// The entry that a command on a line means, or what a user is told.
fn target_of_line(
    controller: &SaveController,
    lines: &Vec<EditorLine>,
    line: usize,
    missing: &str,
    broken: &str,
) -> (r: Result<(TreePath, EntryKind), Message>)
    ensures
        match line_target(
            controller@.baseline.entries,
            line_texts(lines@),
            line as int,
            missing@,
            broken@,
        ) {
            Ok(entry) => r matches Ok(found) && found.0@ == entry.path && found.1 == entry.kind,
            Err(told) => r matches Err(message) && message@ == told,
        },
{
    match kind_of_line(lines, line) {
        LineKind::Missing => Err(Message::new(MessageKind::Error, missing)),
        LineKind::Unsaved => Err(Message::new(MessageKind::Info, "This line has not been saved")),
        LineKind::Broken => Err(Message::new(MessageKind::Error, broken)),
        LineKind::Saved => match controller.resolve_line(lines, line) {
            Some(found) => Ok(found),
            None => Err(
                Message::new(
                    MessageKind::Error,
                    "File for this line was not found in the current tree",
                ),
            ),
        },
    }
}

/// What opening a line leads to.
#[derive(Debug, PartialEq, Eq)]
pub enum ActivateStep {
    /// Nothing more.
    Done,
    Tell(Message),
    /// The file is opened.
    Open(JoinedPath),
    /// The lines are shown with the cursor on one of them.
    Show { lines: Vec<EditorLine>, cursor_line: usize },
    /// The directory is read first.
    Load(TreePath),
}

/// What opening a line leads to.
#[verifier::ext_equal]
pub enum ActivateView {
    Done,
    Tell(MessageView),
    Open(JoinedPathView),
    Show { lines: Seq<Seq<char>>, cursor_line: nat },
    Load(Seq<Seq<char>>),
}

impl ActivateStep {
    pub open spec fn view(&self) -> ActivateView {
        match self {
            ActivateStep::Done => ActivateView::Done,
            ActivateStep::Tell(message) => ActivateView::Tell(message@),
            ActivateStep::Open(path) => ActivateView::Open(path@),
            ActivateStep::Show { lines, cursor_line } => ActivateView::Show {
                lines: line_texts(lines@),
                cursor_line: *cursor_line as nat,
            },
            ActivateStep::Load(dir) => ActivateView::Load(dir@),
        }
    }
}

/// What folding or unfolding the directory on a line leads to.
pub open spec fn toggle_followed(result: ToggleView, line: nat) -> ActivateView {
    match result {
        ToggleView::Toggled(lines) => ActivateView::Show { lines, cursor_line: line },
        ToggleView::NotADirectory => ActivateView::Tell(
            message(MessageKind::Error, "Target line is not a directory"@),
        ),
        ToggleView::CannotExpandIncomplete => ActivateView::Tell(
            message(
                MessageKind::Info,
                "Cannot expand: directory could not be read (access denied or unavailable)"@,
            ),
        ),
        ToggleView::NeedsLoad { dir } => ActivateView::Load(dir),
        ToggleView::NotFound => ActivateView::Tell(
            message(
                MessageKind::Error,
                "Directory for this line was not found in the current tree"@,
            ),
        ),
        ToggleView::Busy => ActivateView::Done,
    }
}

/// What folding or unfolding the directory on a line leads to.
pub fn after_toggle(result: ToggleCollapseResult, line: usize) -> (r: ActivateStep)
    ensures
        r@ == toggle_followed(result@, line as nat),
{
    match result {
        ToggleCollapseResult::Toggled(lines) => ActivateStep::Show { lines, cursor_line: line },
        ToggleCollapseResult::NotADirectory => ActivateStep::Tell(
            Message::new(MessageKind::Error, "Target line is not a directory"),
        ),
        ToggleCollapseResult::CannotExpandIncomplete => ActivateStep::Tell(
            Message::new(
                MessageKind::Info,
                "Cannot expand: directory could not be read (access denied or unavailable)",
            ),
        ),
        ToggleCollapseResult::NeedsLoad { dir } => ActivateStep::Load(dir),
        ToggleCollapseResult::NotFound => ActivateStep::Tell(
            Message::new(
                MessageKind::Error,
                "Directory for this line was not found in the current tree",
            ),
        ),
        ToggleCollapseResult::Busy => ActivateStep::Done,
    }
}

/// What opening a line leads to: a file is opened, a directory folded or unfolded
/// unless the buffer was edited.
pub open spec fn activate_step(
    before: SaveView,
    lines: Seq<Seq<char>>,
    dirty: bool,
    root: FsPathView,
    line: nat,
) -> (SaveView, ActivateView) {
    match line_target(
        before.baseline.entries,
        lines,
        line as int,
        "Line to open was not found"@,
        "Cannot open a line with a broken ID prefix"@,
    ) {
        Err(told) => (before, ActivateView::Tell(told)),
        Ok(entry) => if entry.kind != EntryKind::Dir {
            (before, ActivateView::Open(joined(root, entry.path)))
        } else if dirty {
            (
                before,
                ActivateView::Tell(
                    message(
                        MessageKind::Info,
                        "Cannot change folds while editing. Save or discard changes."@,
                    ),
                ),
            )
        } else {
            let (after, result) = toggle_step(before, lines, line as int);
            (after, toggle_followed(result, line))
        },
    }
}

/// Opens a line: a file, or a directory by folding or unfolding it.
pub fn handle_activate_line(
    controller: &mut SaveController,
    lines: &Vec<EditorLine>,
    dirty: bool,
    root: &FsPath,
    line: usize,
) -> (r: ActivateStep)
    ensures
        (final(controller)@, r@) == activate_step(
            old(controller)@,
            line_texts(lines@),
            dirty,
            root@,
            line as nat,
        ),
{
    let (path, kind) = match target_of_line(
        controller,
        lines,
        line,
        "Line to open was not found",
        "Cannot open a line with a broken ID prefix",
    ) {
        Ok(found) => found,
        Err(message) => {
            return ActivateStep::Tell(message);
        },
    };
    if kind != EntryKind::Dir {
        return ActivateStep::Open(located(root, &path));
    }
    if dirty {
        return ActivateStep::Tell(
            Message::new(
                MessageKind::Info,
                "Cannot change folds while editing. Save or discard changes.",
            ),
        );
    }
    after_toggle(controller.toggle_collapse(lines, line), line)
}

/// What a user is told where what activating a line leads to could not be done.
pub open spec fn activate_failure(step: ActivateView, error: Seq<char>) -> Option<MessageView> {
    match step {
        ActivateView::Open(_) => Some(message(MessageKind::Error, "Failed to open file: "@ + error)),
        ActivateView::Show { .. } => Some(
            message(MessageKind::Error, "Failed to update folded view: "@ + error),
        ),
        _ => None,
    }
}

/// What a user is told once what activating a line leads to has been tried.
pub fn after_activate_step(step: &ActivateStep, done: Result<(), String>) -> (r: Option<Message>)
    ensures
        told_view(r) == (match done {
            Ok(_) => None,
            Err(error) => activate_failure(step@, error@),
        }),
{
    match step {
        ActivateStep::Open(_) => tell_of(MessageKind::Error, "Failed to open file: ", done),
        ActivateStep::Show { .. } => tell_of(
            MessageKind::Error,
            "Failed to update folded view: ",
            done,
        ),
        _ => None,
    }
}

/// What a wish to do something with the path on a line leads to.
#[derive(Debug, PartialEq, Eq)]
pub enum PathStep {
    Tell(Message),
    Use(JoinedPath),
}

/// What a wish to do something with the path on a line leads to.
#[verifier::ext_equal]
pub enum PathStepView {
    Tell(MessageView),
    Use(JoinedPathView),
}

impl PathStep {
    pub open spec fn view(&self) -> PathStepView {
        match self {
            PathStep::Tell(message) => PathStepView::Tell(message@),
            PathStep::Use(path) => PathStepView::Use(path@),
        }
    }
}

/// What a wish to choose a program for a line leads to; only files have one.
pub open spec fn open_with_step(
    view: SaveView,
    lines: Seq<Seq<char>>,
    root: FsPathView,
    line: int,
) -> PathStepView {
    match line_target(
        view.baseline.entries,
        lines,
        line,
        "Line for open-with was not found"@,
        "Cannot use open-with on a line with a broken ID prefix"@,
    ) {
        Err(told) => PathStepView::Tell(told),
        Ok(entry) => if entry.kind == EntryKind::Dir {
            PathStepView::Tell(message(MessageKind::Info, "Open-with is for files only"@))
        } else {
            PathStepView::Use(joined(root, entry.path))
        },
    }
}

/// The file that a user wants to choose a program for.
pub fn handle_open_with(
    controller: &SaveController,
    lines: &Vec<EditorLine>,
    root: &FsPath,
    line: usize,
) -> (r: PathStep)
    ensures
        r@ == open_with_step(controller@, line_texts(lines@), root@, line as int),
{
    match target_of_line(
        controller,
        lines,
        line,
        "Line for open-with was not found",
        "Cannot use open-with on a line with a broken ID prefix",
    ) {
        Err(message) => PathStep::Tell(message),
        Ok((path, kind)) => {
            if kind == EntryKind::Dir {
                PathStep::Tell(Message::new(MessageKind::Info, "Open-with is for files only"))
            } else {
                PathStep::Use(located(root, &path))
            }
        },
    }
}

/// What the programs that can open a file lead to.
#[derive(Debug, PartialEq, Eq)]
pub enum OpenWithStep {
    Tell(Message),
    /// A user chooses a program for a file.
    Choose { file_name: String, choices: Vec<String> },
}

/// What the programs that can open a file lead to.
#[verifier::ext_equal]
pub enum OpenWithView {
    Tell(MessageView),
    Choose { file_name: Seq<char>, choices: Seq<Seq<char>> },
}

impl OpenWithStep {
    pub open spec fn view(&self) -> OpenWithView {
        match self {
            OpenWithStep::Tell(message) => OpenWithView::Tell(message@),
            OpenWithStep::Choose { file_name, choices } => OpenWithView::Choose {
                file_name: file_name@,
                choices: texts(choices@),
            },
        }
    }
}

/// What the programs that can open a file lead to, once they have been looked for.
/// `file_name` is the name of the file where its path has one; `path_text` is the path.
pub fn after_open_with(
    found: &Result<Vec<OpenWithHandler>, String>,
    file_name: Option<&str>,
    path_text: &str,
) -> (r: OpenWithStep)
    ensures
        r@ == (match *found {
            Ok(handlers) => OpenWithView::Choose {
                file_name: match file_name {
                    Some(name) => name@,
                    None => path_text@,
                },
                choices: open_choices(handlers@),
            },
            Err(error) => OpenWithView::Tell(
                message(
                    MessageKind::Error,
                    "Failed to enumerate open-with candidates: "@ + error@,
                ),
            ),
        }),
{
    match found {
        Ok(handlers) => OpenWithStep::Choose {
            file_name: match file_name {
                Some(name) => name.to_owned(),
                None => path_text.to_owned(),
            },
            choices: open_with_choices(handlers),
        },
        Err(error) => {
            let text = "Failed to enumerate open-with candidates: ".to_owned().concat(
                error.as_str(),
            );
            OpenWithStep::Tell(Message::new(MessageKind::Error, text.as_str()))
        },
    }
}

/// What a wish to copy the path of a line leads to.
pub open spec fn yank_step(
    view: SaveView,
    lines: Seq<Seq<char>>,
    root: FsPathView,
    line: int,
) -> PathStepView {
    match line_target(
        view.baseline.entries,
        lines,
        line,
        "Line to copy was not found"@,
        "Cannot copy a line with a broken ID prefix"@,
    ) {
        Err(told) => PathStepView::Tell(told),
        Ok(entry) => PathStepView::Use(joined(root, entry.path)),
    }
}

/// The path that a user wants to copy.
pub fn handle_yank_path(
    controller: &SaveController,
    lines: &Vec<EditorLine>,
    root: &FsPath,
    line: usize,
) -> (r: PathStep)
    ensures
        r@ == yank_step(controller@, line_texts(lines@), root@, line as int),
{
    match target_of_line(
        controller,
        lines,
        line,
        "Line to copy was not found",
        "Cannot copy a line with a broken ID prefix",
    ) {
        Err(message) => PathStep::Tell(message),
        Ok((path, _)) => PathStep::Use(located(root, &path)),
    }
}

/// What a wish to go into the directory on a line leads to.
pub open spec fn navigate_step(
    view: SaveView,
    lines: Seq<Seq<char>>,
    root: FsPathView,
    line: int,
) -> PathStepView {
    match line_kind(lines, line) {
        LineKind::Missing => PathStepView::Tell(
            message(MessageKind::Error, "Line to navigate to was not found"@),
        ),
        LineKind::Saved => match entry_at(view.baseline.entries, lines, line) {
            Some(entry) => if entry.kind == EntryKind::Dir {
                PathStepView::Use(joined(root, entry.path))
            } else {
                PathStepView::Tell(message(MessageKind::Info, "This is not a directory line"@))
            },
            None => PathStepView::Tell(
                message(MessageKind::Info, "This is not a directory line"@),
            ),
        },
        _ => PathStepView::Tell(
            message(MessageKind::Info, "This is not a saved directory line"@),
        ),
    }
}

/// The directory that a user wants to go into.
pub fn handle_navigate_into(
    controller: &SaveController,
    lines: &Vec<EditorLine>,
    root: &FsPath,
    line: usize,
) -> (r: PathStep)
    ensures
        r@ == navigate_step(controller@, line_texts(lines@), root@, line as int),
{
    match kind_of_line(lines, line) {
        LineKind::Missing => PathStep::Tell(
            Message::new(MessageKind::Error, "Line to navigate to was not found"),
        ),
        LineKind::Saved => match controller.resolve_line(lines, line) {
            Some((path, EntryKind::Dir)) => PathStep::Use(located(root, &path)),
            _ => PathStep::Tell(Message::new(MessageKind::Info, "This is not a directory line")),
        },
        _ => PathStep::Tell(
            Message::new(MessageKind::Info, "This is not a saved directory line"),
        ),
    }
}

/// What a wish to put a selection on the clipboard leads to.
#[derive(Debug, PartialEq, Eq)]
pub enum ClipboardStep {
    Tell(Message),
    Write(Vec<JoinedPath>),
}

/// What a wish to put a selection on the clipboard leads to.
#[verifier::ext_equal]
pub enum ClipboardView {
    Tell(MessageView),
    Write(Seq<JoinedPathView>),
}

impl ClipboardStep {
    pub open spec fn view(&self) -> ClipboardView {
        match self {
            ClipboardStep::Tell(message) => ClipboardView::Tell(message@),
            ClipboardStep::Write(paths) => ClipboardView::Write(joined_paths(paths@)),
        }
    }
}

/// What paths are made of.
pub open spec fn joined_paths(paths: Seq<JoinedPath>) -> Seq<JoinedPathView> {
    paths.map_values(|path: JoinedPath| path@)
}

/// What a user is told about a selection that cannot be put on the clipboard.
pub open spec fn clipboard_refusal(error: SelectionError) -> MessageView {
    match error {
        SelectionError::UnsavedLine => message(
            MessageKind::Info,
            "Cannot copy because the selection contains an unsaved new line. Save first."@,
        ),
        SelectionError::Empty => message(MessageKind::Info, "No item is selected"@),
        SelectionError::MissingLine => message(MessageKind::Error, "Line to copy was not found"@),
        SelectionError::UnknownId => message(
            MessageKind::Error,
            "Failed to resolve the selection in the current file list"@,
        ),
    }
}

/// What a wish to put a selection on the clipboard leads to. Entries that stand
/// below another one of the selection go with that.
pub open spec fn clipboard_step(
    view: SaveView,
    lines: Seq<Seq<char>>,
    root: FsPathView,
    selected: Seq<usize>,
) -> ClipboardView {
    match selection(view.baseline.entries, lines, selected) {
        Err(error) => ClipboardView::Tell(clipboard_refusal(error)),
        Ok(picked) => ClipboardView::Write(
            uncovered(picked, picked.len() as int).map_values(
                |entry: (Seq<Seq<char>>, EntryKind)| joined(root, entry.0),
            ),
        ),
    }
}

/// The paths that a user wants on the clipboard.
pub fn handle_clipboard_copy_or_cut(
    controller: &SaveController,
    lines: &Vec<EditorLine>,
    root: &FsPath,
    selected_lines: &Vec<usize>,
) -> (r: ClipboardStep)
    ensures
        r@ == clipboard_step(controller@, line_texts(lines@), root@, selected_lines@),
{
    let selected = match resolve_selection(controller, lines, selected_lines) {
        Ok(selected) => selected,
        Err(SelectionError::UnsavedLine) => {
            return ClipboardStep::Tell(
                Message::new(
                    MessageKind::Info,
                    "Cannot copy because the selection contains an unsaved new line. Save first.",
                ),
            );
        },
        Err(SelectionError::Empty) => {
            return ClipboardStep::Tell(Message::new(MessageKind::Info, "No item is selected"));
        },
        Err(SelectionError::MissingLine) => {
            return ClipboardStep::Tell(
                Message::new(MessageKind::Error, "Line to copy was not found"),
            );
        },
        Err(SelectionError::UnknownId) => {
            return ClipboardStep::Tell(
                Message::new(
                    MessageKind::Error,
                    "Failed to resolve the selection in the current file list",
                ),
            );
        },
    };
    let kept = dedupe_ancestors(&selected);
    let ghost all = picks_view(kept@).map_values(
        |entry: (Seq<Seq<char>>, EntryKind)| joined(root@, entry.0),
    );
    let mut paths: Vec<JoinedPath> = Vec::new();
    let mut i: usize = 0;
    while i < kept.len()
        invariant
            i <= kept@.len(),
            all == picks_view(kept@).map_values(
                |entry: (Seq<Seq<char>>, EntryKind)| joined(root@, entry.0),
            ),
            paths@.len() == i,
            forall|j: int| 0 <= j < i ==> (#[trigger] paths@[j])@ == all[j],
        decreases kept@.len() - i,
    {
        paths.push(located(root, &kept[i].0));
        i = i + 1;
    }
    assert(joined_paths(paths@) =~= all);
    ClipboardStep::Write(paths)
}

/// What a user is told when a selection is on the clipboard.
pub open spec fn clipboard_text(effect: DropEffect, count: nat) -> Seq<char> {
    (match effect {
        DropEffect::Copy => "Copied "@,
        DropEffect::Move => "Cut "@,
    }) + decimal(count) + (if count == 1 {
        " item to clipboard"@
    } else {
        " items to clipboard"@
    })
}

/// What a user is told when a selection is on the clipboard.
pub fn clipboard_message(effect: DropEffect, count: usize) -> (r: String)
    ensures
        r@ == clipboard_text(effect, count as nat),
{
    let verb = match effect {
        DropEffect::Copy => "Copied ",
        DropEffect::Move => "Cut ",
    };
    let text = verb.to_owned().concat(decimal_text(count as u64).as_str());
    if count == 1 {
        text.concat(" item to clipboard")
    } else {
        text.concat(" items to clipboard")
    }
}

/// What a user is told once a selection has been put on the clipboard, or could not be.
pub fn after_clipboard_write(effect: DropEffect, count: usize, done: Result<(), String>) -> (r:
    Message)
    ensures
        r@ == (match done {
            Ok(_) => message(MessageKind::Info, clipboard_text(effect, count as nat)),
            Err(error) => message(
                MessageKind::Error,
                "Failed to write to the clipboard: "@ + error@,
            ),
        }),
{
    match done {
        Ok(_) => Message::new(MessageKind::Info, clipboard_message(effect, count).as_str()),
        Err(error) => {
            let text = "Failed to write to the clipboard: ".to_owned().concat(error.as_str());
            Message::new(MessageKind::Error, text.as_str())
        },
    }
}

/// What a wish for a terminal leads to.
#[derive(Debug, PartialEq, Eq)]
pub enum TerminalStep {
    Tell(Message),
    Open(TerminalCwd),
}

/// What a wish for a terminal leads to.
#[verifier::ext_equal]
pub enum TerminalView {
    Tell(MessageView),
    Open(JoinedPathView, bool),
}

impl TerminalStep {
    pub open spec fn view(&self) -> TerminalView {
        match self {
            TerminalStep::Tell(message) => TerminalView::Tell(message@),
            TerminalStep::Open(cwd) => TerminalView::Open(cwd.path@, cwd.parent),
        }
    }
}

/// Where a user wants a terminal, unless something else is going on.
pub fn handle_open_terminal(
    controller: &SaveController,
    lines: &Vec<EditorLine>,
    root: &FsPath,
    line: usize,
    crashed: bool,
    dialog_open: bool,
    apply_running: bool,
    transfer_awaiting: bool,
    transfer_running: bool,
) -> (r: TerminalStep)
    ensures
        r@ == (match terminal_refused(
            obstacle(
                dialog_open,
                apply_running,
                transfer_awaiting,
                transfer_running,
                crashed,
                controller@.state is Idle,
            ),
        ) {
            Some(text) => TerminalView::Tell(message(MessageKind::Info, text)),
            None => {
                let (path, parent) = terminal_place(
                    controller@,
                    line_texts(lines@),
                    line as int,
                    root@,
                );
                TerminalView::Open(path, parent)
            },
        }),
{
    if let Some(text) = open_terminal_rejection(
        dialog_open,
        apply_running,
        transfer_awaiting,
        transfer_running,
        crashed,
        controller.is_idle(),
    ) {
        return TerminalStep::Tell(Message::new(MessageKind::Info, text));
    }
    TerminalStep::Open(resolve_terminal_cwd(controller, lines, line, root))
}

/// What a user is told once a terminal has been started, or could not be.
pub fn after_terminal(done: Result<(), String>) -> (r: Option<Message>)
    ensures
        told_view(r) == told_of(MessageKind::Error, "Failed to start terminal: "@, tried(done)),
{
    tell_of(MessageKind::Error, "Failed to start terminal: ", done)
}

/// What a wish to edit a line from a menu leads to.
#[derive(Debug, PartialEq, Eq)]
pub enum EditStep {
    Tell(Message),
    /// The editor edits this line.
    Edit(usize),
}

/// What a wish to edit a line from a menu leads to.
#[verifier::ext_equal]
pub enum EditView {
    Tell(MessageView),
    Edit(usize),
}

impl EditStep {
    pub open spec fn view(&self) -> EditView {
        match self {
            EditStep::Tell(message) => EditView::Tell(message@),
            EditStep::Edit(line) => EditView::Edit(*line),
        }
    }
}

/// What a wish to rename leads to; only a line that was saved can be renamed.
pub open spec fn rename_step(
    lines: Seq<Seq<char>>,
    line: usize,
    rejection: Option<Seq<char>>,
) -> EditView {
    match rejection {
        Some(text) => EditView::Tell(message(MessageKind::Info, text)),
        None => match line_kind(lines, line as int) {
            LineKind::Missing => EditView::Tell(
                message(MessageKind::Error, "Line to rename was not found"@),
            ),
            LineKind::Unsaved => EditView::Tell(
                message(MessageKind::Info, "This line has not been saved"@),
            ),
            LineKind::Broken => EditView::Tell(
                message(MessageKind::Error, "Cannot rename a line with a broken ID prefix"@),
            ),
            LineKind::Saved => EditView::Edit(line),
        },
    }
}

/// The line whose name a user wants to edit.
pub fn handle_begin_name_edit(
    lines: &Vec<EditorLine>,
    line: usize,
    rejection: Option<&'static str>,
) -> (r: EditStep)
    ensures
        r@ == rename_step(line_texts(lines@), line, optional_text(rejection)),
{
    if let Some(text) = rejection {
        return EditStep::Tell(Message::new(MessageKind::Info, text));
    }
    match kind_of_line(lines, line) {
        LineKind::Missing => EditStep::Tell(
            Message::new(MessageKind::Error, "Line to rename was not found"),
        ),
        LineKind::Unsaved => EditStep::Tell(
            Message::new(MessageKind::Info, "This line has not been saved"),
        ),
        LineKind::Broken => EditStep::Tell(
            Message::new(MessageKind::Error, "Cannot rename a line with a broken ID prefix"),
        ),
        LineKind::Saved => EditStep::Edit(line),
    }
}

/// What a wish to take a line out of the buffer leads to; any line can be.
pub open spec fn remove_step(
    lines: Seq<Seq<char>>,
    line: usize,
    rejection: Option<Seq<char>>,
) -> EditView {
    match rejection {
        Some(text) => EditView::Tell(message(MessageKind::Info, text)),
        None => if line < lines.len() {
            EditView::Edit(line)
        } else {
            EditView::Tell(message(MessageKind::Error, "Line to remove was not found"@))
        },
    }
}

/// The line that a user wants to take out of the buffer.
pub fn handle_mark_for_deletion(
    lines: &Vec<EditorLine>,
    line: usize,
    rejection: Option<&'static str>,
) -> (r: EditStep)
    ensures
        r@ == remove_step(line_texts(lines@), line, optional_text(rejection)),
{
    if let Some(text) = rejection {
        return EditStep::Tell(Message::new(MessageKind::Info, text));
    }
    if line < lines.len() {
        EditStep::Edit(line)
    } else {
        EditStep::Tell(Message::new(MessageKind::Error, "Line to remove was not found"))
    }
}

/// What a user is told once the name of a line can be edited, or cannot be.
pub fn after_name_edit(done: Result<(), String>) -> (r: Option<Message>)
    ensures
        told_view(r) == told_of(MessageKind::Error, "Failed to start rename: "@, tried(done)),
{
    tell_of(MessageKind::Error, "Failed to start rename: ", done)
}

/// What a user is told once a line has been removed, or could not be.
pub fn after_line_removal(done: Result<(), String>) -> (r: Option<Message>)
    ensures
        told_view(r) == told_of(MessageKind::Error, "Failed to remove line: "@, tried(done)),
{
    tell_of(MessageKind::Error, "Failed to remove line: ", done)
}

/// What a user is told where a search cannot start.
pub fn handle_open_file_picker(
    controller: &SaveController,
    crashed: bool,
    dialog_open: bool,
    apply_running: bool,
    transfer_awaiting: bool,
    transfer_running: bool,
) -> (r: Option<Message>)
    ensures
        match search_refused(
            obstacle(
                dialog_open,
                apply_running,
                transfer_awaiting,
                transfer_running,
                crashed,
                controller@.state is Idle,
            ),
        ) {
            Some(text) => r matches Some(told) && told@ == message(MessageKind::Info, text),
            None => r is None,
        },
{
    match open_file_picker_rejection(
        dialog_open,
        apply_running,
        transfer_awaiting,
        transfer_running,
        crashed,
        controller.is_idle(),
    ) {
        Some(text) => Some(Message::new(MessageKind::Info, text)),
        None => None,
    }
}

/// What is done with a search candidate.
#[derive(Debug, Clone, Copy, PartialEq, Eq, Structural)]
pub enum PickerAction {
    Jump,
    Open,
}

/// What choosing a search candidate leads to.
#[derive(Debug, PartialEq, Eq)]
pub enum PickerStep {
    Tell(Message),
    /// The candidate is opened.
    Open(JoinedPath),
    /// The cursor goes to a line.
    SetCursor(usize),
    /// The lines are shown with the cursor on one of them.
    Reveal { lines: Vec<EditorLine>, cursor_line: usize },
}

/// What choosing a search candidate leads to.
#[verifier::ext_equal]
pub enum PickerView {
    Tell(MessageView),
    Open(JoinedPathView),
    SetCursor(nat),
    Reveal { lines: Seq<Seq<char>>, cursor_line: nat },
}

impl PickerStep {
    pub open spec fn view(&self) -> PickerView {
        match self {
            PickerStep::Tell(message) => PickerView::Tell(message@),
            PickerStep::Open(path) => PickerView::Open(path@),
            PickerStep::SetCursor(line) => PickerView::SetCursor(*line as nat),
            PickerStep::Reveal { lines, cursor_line } => PickerView::Reveal {
                lines: line_texts(lines@),
                cursor_line: *cursor_line as nat,
            },
        }
    }
}

/// Whether a line of the buffer still names an entry.
pub open spec fn line_names(lines: Seq<Seq<char>>, line: int, id: EntryId) -> bool {
    0 <= line < lines.len() && (prefix_of(lines[line]) matches PrefixView::WithId {
        id: named,
        ..
    } && named == id)
}

/// Whether a line of the buffer still names an entry.
pub fn snapshot_line_matches_entry(lines: &Vec<EditorLine>, line: usize, id: EntryId) -> (r: bool)
    ensures
        r == line_names(line_texts(lines@), line as int, id),
{
    if line >= lines.len() {
        return false;
    }
    assert(line_texts(lines@)[line as int] == lines@[line as int].text@);
    match split_id_prefix(lines[line].text.as_str()) {
        PrefixParse::WithId { id: named, .. } => named == id,
        _ => false,
    }
}

/// What unfolding a search candidate leads to.
pub open spec fn reveal_followed(result: RevealView) -> PickerView {
    match result {
        RevealView::AlreadyVisible { line } => PickerView::SetCursor(line),
        RevealView::Revealed { lines, line } => PickerView::Reveal { lines, cursor_line: line },
        RevealView::NotFound => PickerView::Tell(
            message(
                MessageKind::Warn,
                "Search candidate was not found. It may have changed externally."@,
            ),
        ),
        RevealView::Busy => PickerView::Tell(
            message(
                MessageKind::Info,
                "Cannot navigate to search candidate while saving"@,
            ),
        ),
    }
}

/// What choosing a search candidate leads to. One that is shown is gone to where
/// the buffer still has it there; one that is folded away is unfolded unless the
/// buffer was edited.
pub open spec fn picker_step(
    before: SaveView,
    path: Seq<Seq<char>>,
    action: PickerAction,
    lines: Seq<Seq<char>>,
    dirty: bool,
    root: FsPathView,
) -> (SaveView, PickerView) {
    let entries = before.baseline.entries;
    if action == PickerAction::Open {
        (before, PickerView::Open(joined(root, path)))
    } else {
        match find_path(entries, path) {
            None => (
                before,
                PickerView::Tell(
                    message(
                        MessageKind::Warn,
                        "Search candidate was not found. It may have changed externally."@,
                    ),
                ),
            ),
            Some(entry) => match position_of(shown(entries, before.collapsed), entry.id) {
                Some(line) => if line_names(lines, line as int, entry.id) {
                    (before, PickerView::SetCursor(line))
                } else {
                    (
                        before,
                        PickerView::Tell(
                            message(
                                MessageKind::Info,
                                "Cannot navigate because the edited line position does not match the search candidate"@,
                            ),
                        ),
                    )
                },
                None => if dirty {
                    (
                        before,
                        PickerView::Tell(
                            message(
                                MessageKind::Info,
                                "Cannot reveal a folded search candidate while editing. Save or discard changes."@,
                            ),
                        ),
                    )
                } else {
                    let (after, result) = reveal_step(before, entry.id);
                    (after, reveal_followed(result))
                },
            },
        }
    }
}

/// Opens a search candidate or goes to it.
pub fn handle_picker_select(
    controller: &mut SaveController,
    path: &TreePath,
    action: PickerAction,
    lines: &Vec<EditorLine>,
    dirty: bool,
    root: &FsPath,
) -> (r: PickerStep)
    ensures
        (final(controller)@, r@) == picker_step(
            old(controller)@,
            path@,
            action,
            line_texts(lines@),
            dirty,
            root@,
        ),
{
    if action == PickerAction::Open {
        return PickerStep::Open(located(root, path));
    }
    let id = match entry_by_path(controller.baseline(), path) {
        Some(entry) => entry.id,
        None => {
            return PickerStep::Tell(
                Message::new(
                    MessageKind::Warn,
                    "Search candidate was not found. It may have changed externally.",
                ),
            );
        },
    };
    if let Some(line) = controller.visible_line_for_entry(id) {
        if snapshot_line_matches_entry(lines, line, id) {
            return PickerStep::SetCursor(line);
        }
        return PickerStep::Tell(
            Message::new(
                MessageKind::Info,
                "Cannot navigate because the edited line position does not match the search candidate",
            ),
        );
    }
    if dirty {
        return PickerStep::Tell(
            Message::new(
                MessageKind::Info,
                "Cannot reveal a folded search candidate while editing. Save or discard changes.",
            ),
        );
    }
    match controller.reveal_entry(id) {
        RevealResult::AlreadyVisible { line } => PickerStep::SetCursor(line),
        RevealResult::Revealed { lines, line } => PickerStep::Reveal { lines, cursor_line: line },
        RevealResult::NotFound => PickerStep::Tell(
            Message::new(
                MessageKind::Warn,
                "Search candidate was not found. It may have changed externally.",
            ),
        ),
        RevealResult::Busy => PickerStep::Tell(
            Message::new(MessageKind::Info, "Cannot navigate to search candidate while saving"),
        ),
    }
}

/// What a user is told where what choosing a search candidate leads to could not be done.
pub open spec fn picker_failure(step: PickerView, error: Seq<char>) -> Option<MessageView> {
    match step {
        PickerView::Tell(_) => None,
        PickerView::Open(_) => Some(message(MessageKind::Error, "Failed to open target: "@ + error)),
        PickerView::SetCursor(_) => Some(
            message(MessageKind::Error, "Failed to navigate to search candidate: "@ + error),
        ),
        PickerView::Reveal { .. } => Some(
            message(MessageKind::Error, "Failed to reveal search candidate: "@ + error),
        ),
    }
}

/// What a user is told once what choosing a search candidate leads to has been tried.
pub fn after_picker_step(step: &PickerStep, done: Result<(), String>) -> (r: Option<Message>)
    ensures
        match done {
            Ok(_) => r is None,
            Err(error) => match (r, picker_failure(step@, error@)) {
                (Some(told), Some(expected)) => told@ == expected,
                (None, None) => true,
                _ => false,
            },
        },
{
    let words = match step {
        PickerStep::Tell(_) => {
            return None;
        },
        PickerStep::Open(_) => "Failed to open target: ",
        PickerStep::SetCursor(_) => "Failed to navigate to search candidate: ",
        PickerStep::Reveal { .. } => "Failed to reveal search candidate: ",
    };
    tell_of(MessageKind::Error, words, done)
}

/// No command changes the folds while the buffer was edited.
pub proof fn edited_buffer_keeps_its_folds(
    before: SaveView,
    lines: Seq<Seq<char>>,
    root: FsPathView,
    line: nat,
    path: Seq<Seq<char>>,
    action: PickerAction,
)
    ensures
        activate_step(before, lines, true, root, line).0 == before,
        picker_step(before, path, action, lines, true, root).0 == before,
{
}

} // verus!
