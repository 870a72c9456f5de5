//! What happens once directories have been loaded.

use vstd::prelude::*;

use crate::baseline::{BaselineTree, BaselineView};
use crate::commands::{first_unloaded, next_picker_reveal_directory};
use crate::desk::{
    loads_directory, name_view, shows_dialog, LoaderKind, LoaderKindView, LoaderOwner, LoaderView,
};
use crate::folding::{dirs_within, entry_by_path, find_path};
use crate::fs_path::{compared, letters, FsPath, FsPathView};
use crate::gates::{picker_reveal_start_rejection, reveal_refused};
use crate::grammar::{line_texts, EditorLine};
use crate::listing::{position, shown_lines};
use crate::notices::{
    message, tell_of, told_of, told_view, tried, Message, MessageKind, MessageView,
};
use crate::save_flow::{
    change_root_step, fold_step, toggle_step, top_level_line, FoldResult, FoldView, Reconciled,
    ReconciledView, SaveController, SaveView, ToggleCollapseResult, ToggleView,
};
use crate::text::{decimal, decimal_text};
use crate::tree::{join_path, paths_view, TreePath};
use crate::tree_commands::{
    handle_picker_select, picker_step, PickerAction, PickerStep, PickerView,
};

verus! {

/// What is done once something has been loaded.
#[derive(Debug)]
pub enum LoadStep {
    Tell(Message),
    /// The lines are shown.
    Show { lines: Vec<EditorLine>, cursor_line: Option<usize> },
}

/// What is done once something has been loaded.
#[verifier::ext_equal]
pub enum LoadView {
    Tell(MessageView),
    Show { lines: Seq<Seq<char>>, cursor_line: Option<nat> },
}

impl LoadStep {
    pub open spec fn view(&self) -> LoadView {
        match self {
            LoadStep::Tell(message) => LoadView::Tell(message@),
            LoadStep::Show { lines, cursor_line } => LoadView::Show {
                lines: line_texts(lines@),
                cursor_line: position(*cursor_line),
            },
        }
    }
}

/// What was loaded, or why it is of no use.
pub open spec fn loaded_view(loaded: Result<Reconciled, String>) -> Result<
    ReconciledView,
    Seq<char>,
> {
    match loaded {
        Ok(reconciled) => Ok(reconciled@),
        Err(error) => Err(error@),
    }
}

/// What is done once a directory has been loaded: it is unfolded.
pub open spec fn unfold_one(
    before: SaveView,
    lines: Seq<Seq<char>>,
    dir: Seq<Seq<char>>,
    line: usize,
) -> (SaveView, LoadView) {
    let (after, result) = toggle_step(before, lines, line as int);
    match result {
        ToggleView::Toggled(shown) => (
            after,
            LoadView::Show { lines: shown, cursor_line: Some(line as nat) },
        ),
        _ => (
            after,
            LoadView::Tell(
                message(
                    MessageKind::Warn,
                    "Loaded directory is no longer expandable: "@ + join_path(dir),
                ),
            ),
        ),
    }
}

/// What is done once directories have been loaded: they are unfolded.
pub open spec fn unfold_many(
    before: SaveView,
    lines: Seq<Seq<char>>,
    dirs: nat,
    line: usize,
    op: crate::folding::FoldOp,
) -> (SaveView, LoadView) {
    let (after, result) = fold_step(before, lines, line as int, op);
    match result {
        FoldView::Applied { lines: shown, cursor_line } => (
            after,
            LoadView::Show { lines: shown, cursor_line },
        ),
        FoldView::NoOp => (
            after,
            LoadView::Show {
                lines: shown_lines(after.baseline.entries, after.collapsed),
                cursor_line: Some(line as nat),
            },
        ),
        _ => (
            after,
            LoadView::Tell(
                message(
                    MessageKind::Warn,
                    "Loaded directories are no longer expandable: "@ + decimal(dirs),
                ),
            ),
        ),
    }
}

/// What is done once directories of the tree that is shown have been loaded.
pub open spec fn directory_loaded(
    before: SaveView,
    kind: LoaderKindView,
    loaded: Result<ReconciledView, Seq<char>>,
    lines: Seq<Seq<char>>,
) -> (SaveView, LoadView)
    recommends
        kind is Directory || kind is Recursive,
{
    match loaded {
        Err(error) => (
            before,
            LoadView::Tell(
                message(MessageKind::Warn, "Loaded directory result was stale: "@ + error),
            ),
        ),
        Ok(reconciled) => {
            let fresh = before.showing(reconciled);
            match kind {
                LoaderKindView::Directory { dir, line } => unfold_one(fresh, lines, dir, line),
                LoaderKindView::Recursive { dirs, line, op } => unfold_many(
                    fresh,
                    lines,
                    dirs.len(),
                    line,
                    op,
                ),
                _ => arbitrary(),
            }
        },
    }
}

/// Takes directories of the tree that is shown once they have been loaded, and
/// unfolds them. `lines` are the lines of the buffer.
pub fn finish_directory_load(
    controller: &mut SaveController,
    kind: &LoaderKind,
    loaded: Result<Reconciled, String>,
    lines: &Vec<EditorLine>,
) -> (r: LoadStep)
    requires
        kind@ is Directory || kind@ is Recursive,
    ensures
        (final(controller)@, r@) == directory_loaded(
            old(controller)@,
            kind@,
            loaded_view(loaded),
            line_texts(lines@),
        ),
{
    if let Err(error) = controller.replace_baseline_after_load(loaded) {
        let text = "Loaded directory result was stale: ".to_owned().concat(error.as_str());
        return LoadStep::Tell(Message::new(MessageKind::Warn, text.as_str()));
    }
    match kind {
        LoaderKind::Directory { dir, line } => match controller.toggle_collapse(lines, *line) {
            ToggleCollapseResult::Toggled(shown) => LoadStep::Show {
                lines: shown,
                cursor_line: Some(*line),
            },
            _ => {
                let text = "Loaded directory is no longer expandable: ".to_owned().concat(
                    dir.display().as_str(),
                );
                LoadStep::Tell(Message::new(MessageKind::Warn, text.as_str()))
            },
        },
        LoaderKind::Recursive { dirs, line, op } => match controller.fold(lines, *line, *op) {
            FoldResult::Applied { lines: shown, cursor_line } => LoadStep::Show {
                lines: shown,
                cursor_line,
            },
            FoldResult::NoOp => LoadStep::Show {
                lines: controller.visible_lines(),
                cursor_line: Some(*line),
            },
            _ => {
                let text = "Loaded directories are no longer expandable: ".to_owned().concat(
                    decimal_text(dirs.len() as u64).as_str(),
                );
                LoadStep::Tell(Message::new(MessageKind::Warn, text.as_str()))
            },
        },
        _ => LoadStep::Show { lines: Vec::new(), cursor_line: None },
    }
}

/// What a user is told once directories that were loaded are shown, or could not be.
pub fn after_directory_shown(done: Result<(), String>) -> (r: Option<Message>)
    ensures
        told_view(r) == told_of(MessageKind::Error, "Failed to display loaded directory: "@, tried(done)),
{
    tell_of(MessageKind::Error, "Failed to display loaded directory: ", done)
}

/// What a user is told once another root is shown, or could not be.
pub fn after_root_shown(done: Result<(), String>) -> (r: Option<Message>)
    ensures
        told_view(r) == told_of(MessageKind::Error, "Failed to display new directory: "@, tried(done)),
{
    tell_of(MessageKind::Error, "Failed to display new directory: ", done)
}

/// The line with an entry of the top level, if its name is known.
pub open spec fn cursor_at(lines: Seq<Seq<char>>, name: Option<Seq<char>>) -> Option<nat> {
    match name {
        Some(name) => top_level_line(lines, name),
        None => None,
    }
}

/// What is done once another root has been loaded. Its folder has to be watched
/// first; then it is shown with every directory folded away, and the cursor on the
/// entry that is looked for.
pub open spec fn root_loaded(
    before: SaveView,
    root: FsPathView,
    root_text: Seq<char>,
    baseline: BaselineView,
    roots_match: bool,
    cursor_target: Option<Seq<char>>,
    unwatched: Option<Seq<char>>,
) -> (SaveView, LoadView) {
    match unwatched {
        Some(error) => (
            before,
            LoadView::Tell(
                message(
                    MessageKind::Error,
                    "Failed to watch root ("@ + root_text + "): "@ + error,
                ),
            ),
        ),
        None => {
            let (after, result) = change_root_step(before, root, baseline, roots_match);
            match result {
                Err(error) => (
                    after,
                    LoadView::Tell(
                        message(MessageKind::Error, "Failed to change root: "@ + error),
                    ),
                ),
                Ok(_) => {
                    let folded = SaveView {
                        collapsed: after.collapsed.union(
                            dirs_within(after.baseline.entries, None),
                        ),
                        ..after
                    };
                    let lines = shown_lines(folded.baseline.entries, folded.collapsed);
                    (
                        folded,
                        LoadView::Show { lines, cursor_line: cursor_at(lines, cursor_target) },
                    )
                },
            }
        },
    }
}

/// Takes another root once it has been loaded. `unwatched` says why its folder
/// cannot be watched. Whether `root` is the root of `baseline` is for the platform to say.
pub fn finish_session_root_change(
    controller: &mut SaveController,
    root: FsPath,
    root_text: &str,
    baseline: BaselineTree,
    cursor_target: Option<String>,
    unwatched: Option<String>,
) -> (r: LoadStep)
    ensures
        exists|roots_match: bool|
            compared(baseline@.root, root@, roots_match) && (final(controller)@, r@)
                == #[trigger] root_loaded(
                old(controller)@,
                root@,
                root_text@,
                baseline@,
                roots_match,
                name_view(cursor_target),
                name_view(unwatched),
            ),
        r is Show ==> letters(baseline@.root.text) == letters(root@.text),
{
    let roots_match = baseline.root().is_same_path(&root);
    finish_root_change(
        controller,
        root,
        root_text,
        baseline,
        roots_match,
        cursor_target,
        unwatched,
    )
}

/// Takes another root once it has been loaded. `roots_match` says whether `root` is the
/// root of `baseline`.
pub fn finish_root_change(
    controller: &mut SaveController,
    root: FsPath,
    root_text: &str,
    baseline: BaselineTree,
    roots_match: bool,
    cursor_target: Option<String>,
    unwatched: Option<String>,
) -> (r: LoadStep)
    ensures
        (final(controller)@, r@) == root_loaded(
            old(controller)@,
            root@,
            root_text@,
            baseline@,
            roots_match,
            name_view(cursor_target),
            name_view(unwatched),
        ),
{
    if let Some(error) = unwatched {
        let text = "Failed to watch root (".to_owned().concat(root_text).concat("): ").concat(
            error.as_str(),
        );
        return LoadStep::Tell(Message::new(MessageKind::Error, text.as_str()));
    }
    if let Err(error) = controller.change_root_to(root, baseline, roots_match) {
        let text = "Failed to change root: ".to_owned().concat(error.as_str());
        return LoadStep::Tell(Message::new(MessageKind::Error, text.as_str()));
    }
    controller.collapse_all_dirs();
    let cursor_line = match cursor_target {
        Some(name) => controller.find_top_level_line(name.as_str()),
        None => None,
    };
    LoadStep::Show { lines: controller.visible_lines(), cursor_line }
}

/// What is done once a directory above a search candidate has been loaded.
#[derive(Debug)]
pub enum RevealLoadStep {
    Done(PickerStep),
    /// The next directory above it has to be loaded.
    Load(TreePath),
}

/// What is done once a directory above a search candidate has been loaded.
#[verifier::ext_equal]
pub enum RevealLoadView {
    Done(PickerView),
    Load(Seq<Seq<char>>),
}

impl RevealLoadStep {
    pub open spec fn view(&self) -> RevealLoadView {
        match self {
            RevealLoadStep::Done(step) => RevealLoadView::Done(step@),
            RevealLoadStep::Load(dir) => RevealLoadView::Load(dir@),
        }
    }
}

/// What is done once a directory above a search candidate has been loaded: the
/// candidate is shown where it is known now, else the next directory above it is
/// loaded.
pub open spec fn reveal_loaded(
    before: SaveView,
    target: Seq<Seq<char>>,
    action: PickerAction,
    loaded: Result<ReconciledView, Seq<char>>,
    unloaded: Seq<Seq<Seq<char>>>,
    lines: Seq<Seq<char>>,
    dirty: bool,
    root: FsPathView,
) -> (SaveView, RevealLoadView) {
    match loaded {
        Err(error) => (
            before,
            RevealLoadView::Done(
                PickerView::Tell(
                    message(MessageKind::Warn, "Loaded search result was stale: "@ + error),
                ),
            ),
        ),
        Ok(reconciled) => {
            let fresh = before.showing(reconciled);
            if find_path(fresh.baseline.entries, target) is Some {
                let (after, step) = picker_step(fresh, target, action, lines, dirty, root);
                (after, RevealLoadView::Done(step))
            } else {
                match first_unloaded(target, unloaded, 1) {
                    Some(dir) => (fresh, RevealLoadView::Load(dir)),
                    None => (
                        fresh,
                        RevealLoadView::Done(
                            PickerView::Tell(
                                message(
                                    MessageKind::Warn,
                                    "Search candidate was not found. It may have changed externally."@,
                                ),
                            ),
                        ),
                    ),
                }
            }
        },
    }
}

/// Takes a directory above a search candidate once it has been loaded. `unloaded`
/// are the directories that are not loaded then.
pub fn finish_picker_reveal_load(
    controller: &mut SaveController,
    target: &TreePath,
    action: PickerAction,
    loaded: Result<Reconciled, String>,
    unloaded: &Vec<TreePath>,
    lines: &Vec<EditorLine>,
    dirty: bool,
    root: &FsPath,
) -> (r: RevealLoadStep)
    ensures
        (final(controller)@, r@) == reveal_loaded(
            old(controller)@,
            target@,
            action,
            loaded_view(loaded),
            paths_view(unloaded@),
            line_texts(lines@),
            dirty,
            root@,
        ),
{
    if let Err(error) = controller.replace_baseline_after_load(loaded) {
        let text = "Loaded search result was stale: ".to_owned().concat(error.as_str());
        return RevealLoadStep::Done(
            PickerStep::Tell(Message::new(MessageKind::Warn, text.as_str())),
        );
    }
    if entry_by_path(controller.baseline(), target).is_some() {
        return RevealLoadStep::Done(
            handle_picker_select(controller, target, action, lines, dirty, root),
        );
    }
    match next_picker_reveal_directory(unloaded, target) {
        Some(dir) => RevealLoadStep::Load(dir),
        None => RevealLoadStep::Done(
            PickerStep::Tell(
                Message::new(
                    MessageKind::Warn,
                    "Search candidate was not found. It may have changed externally.",
                ),
            ),
        ),
    }
}

/// What the choice of a search candidate leads to. A candidate to go to that is not
/// known yet, but below a directory that is not loaded, has that directory loaded
/// first.
pub open spec fn candidate_chosen(
    before: SaveView,
    path: Seq<Seq<char>>,
    action: PickerAction,
    unloaded: Seq<Seq<Seq<char>>>,
    lines: Seq<Seq<char>>,
    dirty: bool,
    root: FsPathView,
    busy: bool,
    crashed: bool,
) -> (SaveView, RevealLoadView) {
    let dir = first_unloaded(path, unloaded, 1);
    if action == PickerAction::Jump && find_path(before.baseline.entries, path) is None
        && dir is Some {
        match reveal_refused(dirty, busy, crashed, before.state is Idle) {
            Some(text) => (
                before,
                RevealLoadView::Done(PickerView::Tell(message(MessageKind::Info, text))),
            ),
            None => (before, RevealLoadView::Load(dir->Some_0)),
        }
    } else {
        let (after, step) = picker_step(before, path, action, lines, dirty, root);
        (after, RevealLoadView::Done(step))
    }
}

/// Takes the choice of a search candidate.
pub fn choose_candidate(
    controller: &mut SaveController,
    path: &TreePath,
    action: PickerAction,
    unloaded: &Vec<TreePath>,
    lines: &Vec<EditorLine>,
    dirty: bool,
    root: &FsPath,
    busy: bool,
    crashed: bool,
) -> (r: RevealLoadStep)
    ensures
        (final(controller)@, r@) == candidate_chosen(
            old(controller)@,
            path@,
            action,
            paths_view(unloaded@),
            line_texts(lines@),
            dirty,
            root@,
            busy,
            crashed,
        ),
{
    if action == PickerAction::Jump && entry_by_path(controller.baseline(), path).is_none() {
        if let Some(dir) = next_picker_reveal_directory(unloaded, path) {
            if let Some(text) = picker_reveal_start_rejection(
                dirty,
                busy,
                crashed,
                controller.is_idle(),
            ) {
                return RevealLoadStep::Done(
                    PickerStep::Tell(Message::new(MessageKind::Info, text)),
                );
            }
            return RevealLoadStep::Load(dir);
        }
    }
    RevealLoadStep::Done(handle_picker_select(controller, path, action, lines, dirty, root))
}

/// What a user is told where loading came to nothing.
pub open spec fn unloaded_message(
    owner: LoaderView,
    failed: Option<Seq<char>>,
    target_text: Seq<char>,
) -> Option<MessageView> {
    match failed {
        None => if shows_dialog(owner) {
            Some(message(MessageKind::Info, "Loading cancelled"@))
        } else {
            None
        },
        Some(error) => if owner.kind is PickerReveal {
            Some(
                message(
                    MessageKind::Warn,
                    "Search candidate was not found. It may have changed externally."@,
                ),
            )
        } else {
            Some(
                message(
                    if loads_directory(owner) {
                        MessageKind::Warn
                    } else {
                        MessageKind::Error
                    },
                    "Failed to load "@ + target_text + ": "@ + error,
                ),
            )
        },
    }
}

/// What a user is told where loading was stopped or failed. `target_text` is the
/// place that was being loaded.
pub fn unfinished_load_message(
    owner: &LoaderOwner,
    failed: Option<&str>,
    target_text: &str,
) -> (r: Option<Message>)
    ensures
        match (r, unloaded_message(owner@, crate::text::optional_text(failed), target_text@)) {
            (Some(told), Some(expected)) => told@ == expected,
            (None, None) => true,
            _ => false,
        },
{
    match failed {
        None => {
            if owner.shows_dialog() {
                Some(Message::new(MessageKind::Info, "Loading cancelled"))
            } else {
                None
            }
        },
        Some(error) => {
            let reveals = match &owner.kind {
                LoaderKind::PickerReveal { .. } => true,
                _ => false,
            };
            if reveals {
                return Some(
                    Message::new(
                        MessageKind::Warn,
                        "Search candidate was not found. It may have changed externally.",
                    ),
                );
            }
            let kind = if owner.loads_directory() {
                MessageKind::Warn
            } else {
                MessageKind::Error
            };
            let text = "Failed to load ".to_owned().concat(target_text).concat(": ").concat(error);
            Some(Message::new(kind, text.as_str()))
        },
    }
}

/// What is done next while directories are loaded one after the other.
#[derive(Debug, Clone, Copy, PartialEq, Eq, Structural)]
pub enum RecursiveStep {
    /// The directory at this place is loaded.
    Load(usize),
    /// Loading is over before its end.
    Stopped,
    /// Every directory is loaded.
    Finished,
}

/// How far loading directories one after the other is.
#[verifier::ext_equal]
pub struct RecursiveView {
    /// How many directories there are.
    pub dirs: nat,
    /// How many of them are loaded.
    pub loaded: nat,
    /// How many entries were found in them.
    pub completed: nat,
    /// How many entries were found so far in the one that is being loaded.
    pub current: nat,
}

/// Loading directories one after the other.
#[derive(Debug)]
pub struct RecursiveLoad {
    dirs: usize,
    loaded: usize,
    completed: usize,
    current: usize,
}

impl RecursiveLoad {
    /// How far loading is.
    pub closed spec fn view(&self) -> RecursiveView {
        RecursiveView {
            dirs: self.dirs as nat,
            loaded: self.loaded as nat,
            completed: self.completed as nat,
            current: self.current as nat,
        }
    }

    /// Nothing is loaded yet.
    pub fn new(dirs: usize) -> (r: RecursiveLoad)
        ensures
            r@ == (RecursiveView { dirs: dirs as nat, loaded: 0, completed: 0, current: 0 }),
    {
        RecursiveLoad { dirs, loaded: 0, completed: 0, current: 0 }
    }

    /// What is done next. `cancelled` says whether loading was asked to stop.
    pub fn next(&self, cancelled: bool) -> (r: RecursiveStep)
        ensures
            r == (if self@.loaded >= self@.dirs {
                RecursiveStep::Finished
            } else if cancelled {
                RecursiveStep::Stopped
            } else {
                RecursiveStep::Load(self@.loaded as usize)
            }),
    {
        if self.loaded >= self.dirs {
            RecursiveStep::Finished
        } else if cancelled {
            RecursiveStep::Stopped
        } else {
            RecursiveStep::Load(self.loaded)
        }
    }

    /// Takes how many entries were found so far in the directory that is being loaded,
    /// and gives how many were found in all.
    pub fn on_progress(&mut self, entries: usize) -> (r: usize)
        requires
            old(self)@.completed + entries <= usize::MAX,
        ensures
            final(self)@ == (RecursiveView { current: entries as nat, ..old(self)@ }),
            r == old(self)@.completed + entries,
    {
        self.current = entries;
        self.completed + entries
    }

    /// Takes the news that a directory is loaded.
    pub fn on_loaded(&mut self)
        requires
            old(self)@.loaded < old(self)@.dirs,
            old(self)@.completed + old(self)@.current <= usize::MAX,
        ensures
            final(self)@ == (RecursiveView {
                loaded: old(self)@.loaded + 1,
                completed: old(self)@.completed + old(self)@.current,
                current: 0,
                ..old(self)@
            }),
    {
        self.loaded = self.loaded + 1;
        self.completed = self.completed + self.current;
        self.current = 0;
    }
}

/// A root that cannot be watched is not shown: the tree stays as it is.
pub proof fn unwatched_root_is_not_shown(
    before: SaveView,
    root: FsPathView,
    root_text: Seq<char>,
    baseline: BaselineView,
    roots_match: bool,
    cursor_target: Option<Seq<char>>,
    error: Seq<char>,
)
    ensures
        root_loaded(
            before,
            root,
            root_text,
            baseline,
            roots_match,
            cursor_target,
            Some(error),
        ).0 == before,
{
}

/// Loading towards a search candidate always gets closer to it: what is loaded next
/// lies above the candidate and was not loaded before.
pub proof fn loading_comes_closer(
    before: SaveView,
    target: Seq<Seq<char>>,
    action: PickerAction,
    reconciled: ReconciledView,
    unloaded: Seq<Seq<Seq<char>>>,
    lines: Seq<Seq<char>>,
    dirty: bool,
    root: FsPathView,
)
    ensures
        reveal_loaded(
            before,
            target,
            action,
            Ok(reconciled),
            unloaded,
            lines,
            dirty,
            root,
        ).1 matches RevealLoadView::Load(dir) ==> unloaded.contains(dir) && dir.len()
            < target.len() && dir =~= target.take(dir.len() as int),
{
    lemma_first_unloaded(target, unloaded, 1);
}

/// The directory that is loaded next stands above the candidate.
proof fn lemma_first_unloaded(
    target: Seq<Seq<char>>,
    unloaded: Seq<Seq<Seq<char>>>,
    depth: nat,
)
    ensures
        first_unloaded(target, unloaded, depth) matches Some(dir) ==> unloaded.contains(dir)
            && dir.len() < target.len() && dir =~= target.take(dir.len() as int),
    decreases target.len() - depth,
{
    if depth < target.len() {
        lemma_first_unloaded(target, unloaded, depth + 1);
    }
}

} // verus!
