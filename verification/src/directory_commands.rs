//! What a user's wishes about what a pane shows lead to.

use vstd::prelude::*;

use crate::commands::{
    bookmark_list_message, bookmark_message, bookmark_query, cd_place, cd_target,
    format_drive_paths, home_view, parse_sort_query, resolve_bookmark_query, sort_message,
    sort_query, sort_state_message, BookmarkResolution, BookmarkView,
};
use crate::config::pairs;
use crate::folding::FoldOp;
use crate::fs_path::{
    begins_absolute, path_is_absolute, FsPath, FsPathView, JoinedPath, JoinedPathView,
};
use crate::grammar::{line_texts, EditorLine};
use crate::listing::position;
use crate::notices::{
    message, tell_of, told_of, told_view, tried, Message, MessageKind, MessageView,
};
use crate::options::{ScanOptions, SortKey};
use crate::save_flow::{
    change_sort_step, fold_step, hidden_toggled, rescan_step, sorted_by, FoldResult, FoldView,
    SaveController, SaveView, ScanOutcome, ScanView,
};
use crate::text::{join_texts, joined_texts, optional_text, texts};
use crate::tree::{paths_view, TreePath};

verus! {

/// What a wish to fold or unfold leads to.
#[derive(Debug)]
pub enum FoldStep {
    Tell(Message),
    Show { lines: Vec<EditorLine>, cursor_line: Option<usize> },
    /// A directory has to be loaded first.
    Load(TreePath),
    /// Directories have to be loaded first.
    LoadAll(Vec<TreePath>),
    Nothing,
}

/// What a wish to fold or unfold leads to.
#[verifier::ext_equal]
pub enum FoldStepView {
    Tell(MessageView),
    Show { lines: Seq<Seq<char>>, cursor_line: Option<nat> },
    Load(Seq<Seq<char>>),
    LoadAll(Seq<Seq<Seq<char>>>),
    Nothing,
}

impl FoldStep {
    pub open spec fn view(&self) -> FoldStepView {
        match self {
            FoldStep::Tell(message) => FoldStepView::Tell(message@),
            FoldStep::Show { lines, cursor_line } => FoldStepView::Show {
                lines: line_texts(lines@),
                cursor_line: position(*cursor_line),
            },
            FoldStep::Load(dir) => FoldStepView::Load(dir@),
            FoldStep::LoadAll(dirs) => FoldStepView::LoadAll(paths_view(dirs@)),
            FoldStep::Nothing => FoldStepView::Nothing,
        }
    }
}

/// What came of folding is followed by.
pub open spec fn fold_followed(result: FoldView) -> FoldStepView {
    match result {
        FoldView::Applied { lines, cursor_line } => FoldStepView::Show { lines, cursor_line },
        FoldView::NotFound => FoldStepView::Tell(
            message(MessageKind::Info, "Failed to resolve the entry on this line"@),
        ),
        FoldView::CannotExpandIncomplete => FoldStepView::Tell(
            message(
                MessageKind::Info,
                "Cannot expand: directory could not be read (access denied or unavailable)"@,
            ),
        ),
        FoldView::NeedsLoad { dir } => FoldStepView::Load(dir),
        FoldView::NeedsLoadRecursive { dirs } => FoldStepView::LoadAll(dirs),
        FoldView::NoOp => FoldStepView::Nothing,
        FoldView::Busy => FoldStepView::Nothing,
    }
}

/// What came of folding is followed by.
pub fn after_fold(result: FoldResult) -> (r: FoldStep)
    ensures
        r@ == fold_followed(result@),
{
    match result {
        FoldResult::Applied { lines, cursor_line } => FoldStep::Show { lines, cursor_line },
        FoldResult::NotFound => FoldStep::Tell(
            Message::new(MessageKind::Info, "Failed to resolve the entry on this line"),
        ),
        FoldResult::CannotExpandIncomplete => FoldStep::Tell(
            Message::new(
                MessageKind::Info,
                "Cannot expand: directory could not be read (access denied or unavailable)",
            ),
        ),
        FoldResult::NeedsLoad { dir } => FoldStep::Load(dir),
        FoldResult::NeedsLoadRecursive { dirs } => FoldStep::LoadAll(dirs),
        FoldResult::NoOp => FoldStep::Nothing,
        FoldResult::Busy => FoldStep::Nothing,
    }
}

/// What a wish to fold or unfold leads to. Folds stay while the buffer is edited.
pub open spec fn fold_request(
    before: SaveView,
    lines: Seq<Seq<char>>,
    dirty: bool,
    line: int,
    op: FoldOp,
) -> (SaveView, FoldStepView) {
    if dirty {
        (
            before,
            FoldStepView::Tell(
                message(
                    MessageKind::Info,
                    "Cannot change folds while editing. Save with :w or undo the changes."@,
                ),
            ),
        )
    } else {
        let (after, result) = fold_step(before, lines, line, op);
        (after, fold_followed(result))
    }
}

/// Takes a wish to fold or unfold.
pub fn handle_fold(
    controller: &mut SaveController,
    lines: &Vec<EditorLine>,
    dirty: bool,
    line: usize,
    op: FoldOp,
) -> (r: FoldStep)
    ensures
        (final(controller)@, r@) == fold_request(
            old(controller)@,
            line_texts(lines@),
            dirty,
            line as int,
            op,
        ),
{
    if dirty {
        return FoldStep::Tell(
            Message::new(
                MessageKind::Info,
                "Cannot change folds while editing. Save with :w or undo the changes.",
            ),
        );
    }
    after_fold(controller.fold(lines, line, op))
}

/// What a user is told once the lines that folding leads to are shown, or could not be.
pub fn after_fold_lines(done: Result<(), String>) -> (r: Option<Message>)
    ensures
        told_view(r) == told_of(MessageKind::Error, "Failed to update folded view: "@, tried(done)),
{
    tell_of(MessageKind::Error, "Failed to update folded view: ", done)
}

/// What a wish about the order of entries leads to.
#[derive(Debug)]
pub enum SortStep {
    Tell(Message),
    Nothing,
    /// The tree is read again in another order.
    Rescan { key: SortKey, reverse: bool, options: ScanOptions },
}

/// What a wish about the order of entries leads to.
#[verifier::ext_equal]
pub enum SortStepView {
    Tell(MessageView),
    Nothing,
    Rescan { key: SortKey, reverse: bool, options: ScanOptions },
}

impl SortStep {
    pub open spec fn view(&self) -> SortStepView {
        match self {
            SortStep::Tell(message) => SortStepView::Tell(message@),
            SortStep::Nothing => SortStepView::Nothing,
            SortStep::Rescan { key, reverse, options } => SortStepView::Rescan {
                key: *key,
                reverse: *reverse,
                options: *options,
            },
        }
    }
}

/// What a wish about the order of entries leads to.
pub open spec fn sort_request(view: SaveView, query: Option<Seq<char>>, dirty: bool) -> SortStepView {
    match query {
        None => SortStepView::Tell(
            message(
                MessageKind::Info,
                sort_message(view.scan_options.key, view.scan_options.reverse),
            ),
        ),
        Some(query) => match sort_query(query) {
            Err(error) => SortStepView::Tell(message(MessageKind::Error, error)),
            Ok(order) => if dirty {
                SortStepView::Tell(
                    message(
                        MessageKind::Info,
                        "Cannot change sorting while editing. Save or discard changes."@,
                    ),
                )
            } else if !(view.state is Idle) {
                SortStepView::Nothing
            } else {
                SortStepView::Rescan {
                    key: order.0,
                    reverse: order.1,
                    options: sorted_by(view.scan_options, order.0, order.1),
                }
            },
        },
    }
}

/// Takes a wish about the order of entries. Without a query a user is told the
/// order.
pub fn handle_change_sort(controller: &SaveController, query: Option<&str>, dirty: bool) -> (r:
    SortStep)
    ensures
        r@ == sort_request(controller@, optional_text(query), dirty),
{
    match query {
        None => {
            let (key, reverse) = controller.sort_state();
            let text = sort_state_message(key, reverse);
            SortStep::Tell(Message::new(MessageKind::Info, text.as_str()))
        },
        Some(query) => match parse_sort_query(query) {
            Err(error) => SortStep::Tell(Message::new(MessageKind::Error, error.as_str())),
            Ok((key, reverse)) => {
                if dirty {
                    return SortStep::Tell(
                        Message::new(
                            MessageKind::Info,
                            "Cannot change sorting while editing. Save or discard changes.",
                        ),
                    );
                }
                if !controller.is_idle() {
                    return SortStep::Nothing;
                }
                let options = controller.sorted_options(key, reverse);
                SortStep::Rescan { key, reverse, options }
            },
        },
    }
}

/// What is shown once the tree has been read again, or what a user is told.
#[derive(Debug)]
pub enum RescanStep {
    Tell(Message),
    Show(Vec<EditorLine>),
}

/// What is shown once the tree has been read again, or what a user is told.
#[verifier::ext_equal]
pub enum RescanView {
    Tell(MessageView),
    Show(Seq<Seq<char>>),
}

impl RescanStep {
    pub open spec fn view(&self) -> RescanView {
        match self {
            RescanStep::Tell(message) => RescanView::Tell(message@),
            RescanStep::Show(lines) => RescanView::Show(line_texts(lines@)),
        }
    }
}

/// What is shown once the tree has been read again, or what a user is told.
pub open spec fn rescanned(
    result: Result<Seq<Seq<char>>, Seq<char>>,
    failed: Seq<char>,
) -> RescanView {
    match result {
        Ok(lines) => RescanView::Show(lines),
        Err(error) => RescanView::Tell(message(MessageKind::Error, failed + error)),
    }
}

/// Takes the tree once it has been read again in another order.
pub fn after_sort_scan(
    controller: &mut SaveController,
    key: SortKey,
    reverse: bool,
    scan: ScanOutcome,
) -> (r: RescanStep)
    ensures
        final(controller)@ == change_sort_step(old(controller)@, key, reverse, scan@).0,
        r@ == rescanned(
            change_sort_step(old(controller)@, key, reverse, scan@).1,
            "Failed to change sorting: "@,
        ),
{
    match controller.change_sort(key, reverse, scan) {
        Ok(lines) => RescanStep::Show(lines),
        Err(error) => {
            let text = "Failed to change sorting: ".to_owned().concat(error.as_str());
            RescanStep::Tell(Message::new(MessageKind::Error, text.as_str()))
        },
    }
}

/// What a user is told once the lines in another order are shown, or could not be.
pub fn after_sort_lines(key: SortKey, reverse: bool, done: Result<(), String>) -> (r: Message)
    ensures
        r@ == (match done {
            Ok(_) => message(MessageKind::Info, sort_message(key, reverse)),
            Err(error) => message(MessageKind::Error, "Failed to update sorted view: "@ + error@),
        }),
{
    match done {
        Ok(_) => Message::new(MessageKind::Info, sort_state_message(key, reverse).as_str()),
        Err(error) => {
            let text = "Failed to update sorted view: ".to_owned().concat(error.as_str());
            Message::new(MessageKind::Error, text.as_str())
        },
    }
}

/// What a user is told who wants hidden files shown or not while editing.
pub fn toggle_hidden_rejection(dirty: bool) -> (r: Option<Message>)
    ensures
        match r {
            Some(told) => dirty && told@ == message(
                MessageKind::Info,
                "Cannot toggle hidden files while editing. Save or discard changes."@,
            ),
            None => !dirty,
        },
{
    if dirty {
        Some(
            Message::new(
                MessageKind::Info,
                "Cannot toggle hidden files while editing. Save or discard changes.",
            ),
        )
    } else {
        None
    }
}

/// What reading the tree again with or without hidden files leads to.
pub open spec fn hidden_step(before: SaveView, scan: ScanView) -> (
    SaveView,
    Result<Seq<Seq<char>>, Seq<char>>,
) {
    rescan_step(
        before,
        hidden_toggled(before.scan_options),
        scan,
        "保存処理中は隠しファイル表示を変更できません"@,
        "隠しファイル表示切り替え後の実FS再スキャンに失敗しました"@,
    )
}

/// Takes the tree once it has been read again with or without hidden files.
pub fn after_hidden_scan(controller: &mut SaveController, scan: ScanOutcome) -> (r: RescanStep)
    ensures
        final(controller)@ == hidden_step(old(controller)@, scan@).0,
        r@ == rescanned(
            hidden_step(old(controller)@, scan@).1,
            "Failed to toggle hidden files: "@,
        ),
{
    match controller.toggle_hidden(scan) {
        Ok(lines) => RescanStep::Show(lines),
        Err(error) => {
            let text = "Failed to toggle hidden files: ".to_owned().concat(error.as_str());
            RescanStep::Tell(Message::new(MessageKind::Error, text.as_str()))
        },
    }
}

/// What a user is told once the lines with or without hidden files are shown, or could not
/// be.
pub fn after_hidden_lines(done: Result<(), String>) -> (r: Option<Message>)
    ensures
        told_view(r) == told_of(MessageKind::Error, "Failed to update hidden-file view: "@, tried(done)),
{
    tell_of(MessageKind::Error, "Failed to update hidden-file view: ", done)
}

/// What a user is told once a root has been recorded among the recent ones, or could not
/// be.
pub fn after_recording(done: Result<(), String>) -> (r: Option<Message>)
    ensures
        told_view(r) == told_of(MessageKind::Warn, "Failed to record recent root: "@, tried(done)),
{
    tell_of(MessageKind::Warn, "Failed to record recent root: ", done)
}

/// The root that is loaded for the one that a user wants: the form that the system gives
/// it, or what the user is told where it gives none.
pub fn after_normalizing(wanted_text: &str, normalized: Result<FsPath, String>) -> (r: Result<
    FsPath,
    Message,
>)
    ensures
        match (r, normalized) {
            (Ok(root), Ok(given)) => root == given,
            (Err(told), Err(error)) => told@ == message(
                MessageKind::Error,
                "Failed to normalize root ("@ + wanted_text@ + "): "@ + error@,
            ),
            _ => false,
        },
{
    match normalized {
        Ok(root) => Ok(root),
        Err(error) => {
            let text = "Failed to normalize root (".to_owned().concat(wanted_text).concat(
                "): ",
            ).concat(error.as_str());
            Err(Message::new(MessageKind::Error, text.as_str()))
        },
    }
}

/// What a user is told who wants to go above the top. Drives are named where there
/// are several.
pub fn no_parent_message(drives: &Vec<String>) -> (r: Message)
    ensures
        r@ == message(
            MessageKind::Info,
            if drives@.len() >= 2 {
                "No parent directory | Drives: "@ + joined_texts(texts(drives@), " "@)
                    + " (use :cd to navigate)"@
            } else {
                "No parent directory"@
            },
        ),
{
    if drives.len() >= 2 {
        let text = "No parent directory | Drives: ".to_owned().concat(
            format_drive_paths(drives).as_str(),
        ).concat(" (use :cd to navigate)");
        Message::new(MessageKind::Info, text.as_str())
    } else {
        Message::new(MessageKind::Info, "No parent directory")
    }
}

/// What a user is told who asks for the current directory.
pub open spec fn current_text(root_text: Seq<char>, drives: Seq<Seq<char>>) -> Seq<char> {
    if drives.len() >= 2 {
        "Current: "@ + root_text + " | Drives: "@ + joined_texts(drives, " "@)
    } else {
        "Current: "@ + root_text
    }
}

/// What a wish to go elsewhere leads to.
#[derive(Debug)]
pub enum GoStep {
    Tell(Message),
    Go(JoinedPath),
}

/// What a wish to go elsewhere leads to.
#[verifier::ext_equal]
pub enum GoView {
    Tell(MessageView),
    Go(JoinedPathView),
}

impl GoStep {
    pub open spec fn view(&self) -> GoView {
        match self {
            GoStep::Tell(message) => GoView::Tell(message@),
            GoStep::Go(place) => GoView::Go(place@),
        }
    }
}

/// What a wish to go elsewhere leads to. `absolute` says whether the system takes
/// the query for an absolute path.
pub open spec fn go_step(
    query: Option<Seq<char>>,
    root: FsPathView,
    root_text: Seq<char>,
    drives: Seq<Seq<char>>,
    home: Option<FsPathView>,
    absolute: bool,
) -> GoView {
    match query {
        None => GoView::Tell(message(MessageKind::Info, current_text(root_text, drives))),
        Some(query) => match cd_place(query, root, home, absolute) {
            Some(place) => GoView::Go(place),
            None => GoView::Tell(
                message(MessageKind::Error, "Failed to resolve path: "@ + query),
            ),
        },
    }
}

/// What a wish to go elsewhere leads to, where it is known whether the system takes
/// the query for an absolute path.
pub fn change_directory_to(
    query: Option<&str>,
    root: &FsPath,
    root_text: &str,
    drives: &Vec<String>,
    home: Option<&FsPath>,
    absolute: bool,
) -> (r: GoStep)
    ensures
        r@ == go_step(
            optional_text(query),
            root@,
            root_text@,
            texts(drives@),
            home_view(home),
            absolute,
        ),
{
    match query {
        None => {
            let current = "Current: ".to_owned().concat(root_text);
            if drives.len() >= 2 {
                let text = current.concat(" | Drives: ").concat(format_drive_paths(drives).as_str());
                GoStep::Tell(Message::new(MessageKind::Info, text.as_str()))
            } else {
                GoStep::Tell(Message::new(MessageKind::Info, current.as_str()))
            }
        },
        Some(query) => match cd_target(query, root, home, absolute) {
            Some(place) => GoStep::Go(place),
            None => {
                let text = "Failed to resolve path: ".to_owned().concat(query);
                GoStep::Tell(Message::new(MessageKind::Error, text.as_str()))
            },
        },
    }
}

/// Takes a wish to go elsewhere. Without a query a user is told the current
/// directory.
pub fn handle_change_directory(
    query: Option<&str>,
    root: &FsPath,
    root_text: &str,
    drives: &Vec<String>,
    home: Option<&FsPath>,
) -> (r: GoStep)
    ensures
        exists|absolute: bool|
            r@ == #[trigger] go_step(
                optional_text(query),
                root@,
                root_text@,
                texts(drives@),
                home_view(home),
                absolute,
            ) && (absolute ==> (query matches Some(query) && begins_absolute(query@))),
{
    let absolute = match query {
        Some(query) => path_is_absolute(query),
        None => false,
    };
    change_directory_to(query, root, root_text, drives, home, absolute)
}

/// What a wish to go to a bookmark leads to.
#[derive(Debug)]
pub enum BookmarkStep {
    Tell(Message),
    Go(String),
}

/// What a wish to go to a bookmark leads to.
#[verifier::ext_equal]
pub enum BookmarkStepView {
    Tell(MessageView),
    Go(Seq<char>),
}

impl BookmarkStep {
    pub open spec fn view(&self) -> BookmarkStepView {
        match self {
            BookmarkStep::Tell(message) => BookmarkStepView::Tell(message@),
            BookmarkStep::Go(path) => BookmarkStepView::Go(path@),
        }
    }
}

/// What a wish to go to a bookmark leads to.
pub open spec fn bookmark_step(
    query: Option<Seq<char>>,
    bookmarks: Seq<(Seq<char>, Seq<char>)>,
    recent: Seq<Seq<char>>,
) -> BookmarkStepView {
    match query {
        None => BookmarkStepView::Tell(
            message(MessageKind::Info, bookmark_message(bookmarks, recent)),
        ),
        Some(query) => match bookmark_query(query, bookmarks, recent) {
            BookmarkView::Resolved(path) => BookmarkStepView::Go(path),
            BookmarkView::Ambiguous(names) => BookmarkStepView::Tell(
                message(
                    MessageKind::Error,
                    "Bookmark name is ambiguous: "@ + query + " ("@ + joined_texts(names, ", "@)
                        + ")"@,
                ),
            ),
            BookmarkView::NotFound => BookmarkStepView::Tell(
                message(
                    MessageKind::Error,
                    "Bookmark or recent root was not found: "@ + query,
                ),
            ),
        },
    }
}

/// Takes a wish to go to a bookmark or a recent root. Without a query a user is told
/// what there is.
pub fn handle_jump_bookmark(
    query: Option<&str>,
    bookmarks: &Vec<(String, String)>,
    recent: &Vec<String>,
) -> (r: BookmarkStep)
    ensures
        r@ == bookmark_step(optional_text(query), pairs(bookmarks@), texts(recent@)),
{
    match query {
        None => {
            let text = bookmark_list_message(bookmarks, recent);
            BookmarkStep::Tell(Message::new(MessageKind::Info, text.as_str()))
        },
        Some(query) => match resolve_bookmark_query(query, bookmarks, recent) {
            BookmarkResolution::Resolved(path) => BookmarkStep::Go(path),
            BookmarkResolution::Ambiguous(names) => {
                let text = "Bookmark name is ambiguous: ".to_owned().concat(query).concat(
                    " (",
                ).concat(join_texts(&names, ", ").as_str()).concat(")");
                BookmarkStep::Tell(Message::new(MessageKind::Error, text.as_str()))
            },
            BookmarkResolution::NotFound => {
                let text = "Bookmark or recent root was not found: ".to_owned().concat(query);
                BookmarkStep::Tell(Message::new(MessageKind::Error, text.as_str()))
            },
        },
    }
}

/// While the buffer is edited neither folds nor the order of entries change.
pub proof fn edited_buffer_keeps_its_order(
    before: SaveView,
    lines: Seq<Seq<char>>,
    line: int,
    op: FoldOp,
    query: Option<Seq<char>>,
)
    ensures
        fold_request(before, lines, true, line, op).0 == before,
        !(sort_request(before, query, true) is Rescan),
{
}

} // verus!
