//! What may be started when, and what a user is told where it may not.

use vstd::prelude::*;

use crate::fs_path::{compared, letters, FsPath, JoinedPath};
use crate::text::optional_text;

verus! {

/// Why a pane cannot be closed.
pub open spec fn closing_refused(
    dirty: bool,
    idle: bool,
    applying: bool,
    last_pane: bool,
    crashed: bool,
) -> Option<Seq<char>> {
    if last_pane {
        Some("The last pane cannot be closed"@)
    } else if applying {
        Some("A pane cannot be closed during apply"@)
    } else if !crashed && dirty {
        Some("A pane being edited cannot be closed"@)
    } else if !crashed && !idle {
        Some("A pane that is saving cannot be closed"@)
    } else {
        None
    }
}

/// Why a pane cannot be closed.
pub fn close_rejection(dirty: bool, idle: bool, applying: bool, last_pane: bool, crashed: bool) -> (r:
    Option<&'static str>)
    ensures
        optional_text(r) == closing_refused(dirty, idle, applying, last_pane, crashed),
{
    if last_pane {
        Some("The last pane cannot be closed")
    } else if applying {
        Some("A pane cannot be closed during apply")
    } else if !crashed && dirty {
        Some("A pane being edited cannot be closed")
    } else if !crashed && !idle {
        Some("A pane that is saving cannot be closed")
    } else {
        None
    }
}

/// Why nothing can be undone.
pub open spec fn undoing_refused(dirty: bool, slot_empty: bool, offline: bool, busy: bool) -> Option<
    Seq<char>,
> {
    if busy {
        Some("Another save is in progress"@)
    } else if offline {
        Some("Cannot undo while the folder is offline or unreachable"@)
    } else if dirty {
        Some("Cannot undo while editing. Save or discard changes."@)
    } else if slot_empty {
        Some("No operations are available to undo"@)
    } else {
        None
    }
}

/// Why nothing can be undone.
pub fn undo_rejection(dirty: bool, slot_empty: bool, offline: bool, busy: bool) -> (r: Option<
    &'static str,
>)
    ensures
        optional_text(r) == undoing_refused(dirty, slot_empty, offline, busy),
{
    if busy {
        Some("Another save is in progress")
    } else if offline {
        Some("Cannot undo while the folder is offline or unreachable")
    } else if dirty {
        Some("Cannot undo while editing. Save or discard changes.")
    } else if slot_empty {
        Some("No operations are available to undo")
    } else {
        None
    }
}

/// Why feedback cannot be written.
pub open spec fn feedback_refused(dialog_open: bool) -> Option<Seq<char>> {
    if dialog_open {
        Some("Close the other dialog before opening feedback"@)
    } else {
        None
    }
}

/// Why feedback cannot be written.
pub fn feedback_start_rejection(dialog_open: bool) -> (r: Option<&'static str>)
    ensures
        optional_text(r) == feedback_refused(dialog_open),
{
    if dialog_open {
        Some("Close the other dialog before opening feedback")
    } else {
        None
    }
}

/// Whether another root may be loaded.
#[derive(Debug, Clone, Copy, PartialEq, Eq)]
pub enum LoaderStartGate {
    Allow,
    RejectSilently,
    Reject(&'static str),
}

/// Whether another root may be loaded.
#[verifier::ext_equal]
pub enum LoaderGateView {
    Allow,
    RejectSilently,
    Reject(Seq<char>),
}

impl LoaderStartGate {
    pub open spec fn view(&self) -> LoaderGateView {
        match self {
            LoaderStartGate::Allow => LoaderGateView::Allow,
            LoaderStartGate::RejectSilently => LoaderGateView::RejectSilently,
            LoaderStartGate::Reject(text) => LoaderGateView::Reject(text@),
        }
    }
}

/// Whether another root may be loaded. A folder that cannot be reached may be left
/// even where its buffer was edited.
pub open spec fn loader_gate(
    dirty: bool,
    offline: bool,
    idle: bool,
    globally_busy: bool,
    loader_active: bool,
) -> LoaderGateView {
    if dirty && !offline {
        LoaderGateView::Reject(
            "You are editing. Save or discard changes before changing directories."@,
        )
    } else if !idle {
        LoaderGateView::RejectSilently
    } else if globally_busy || loader_active {
        LoaderGateView::Reject("Another operation is in progress"@)
    } else {
        LoaderGateView::Allow
    }
}

/// Whether another root may be loaded.
pub fn loader_start_gate(
    dirty: bool,
    offline: bool,
    idle: bool,
    globally_busy: bool,
    loader_active: bool,
) -> (r: LoaderStartGate)
    ensures
        r@ == loader_gate(dirty, offline, idle, globally_busy, loader_active),
{
    if dirty && !offline {
        return LoaderStartGate::Reject(
            "You are editing. Save or discard changes before changing directories.",
        );
    }
    if !idle {
        return LoaderStartGate::RejectSilently;
    }
    if globally_busy || loader_active {
        return LoaderStartGate::Reject("Another operation is in progress");
    }
    LoaderStartGate::Allow
}

/// What came of loading.
#[derive(Debug)]
pub enum LoaderResult<T, E> {
    Ready(T),
    Cancelled,
    Failed(E),
}

/// What came of loading.
pub fn classify_loader_result<T, E>(result: Result<Option<T>, E>) -> (r: LoaderResult<T, E>)
    ensures
        r == (match result {
            Ok(Some(value)) => LoaderResult::Ready(value),
            Ok(None) => LoaderResult::Cancelled,
            Err(error) => LoaderResult::Failed(error),
        }),
{
    match result {
        Ok(Some(value)) => LoaderResult::Ready(value),
        Ok(None) => LoaderResult::Cancelled,
        Err(error) => LoaderResult::Failed(error),
    }
}

/// Whether what was loaded comes too late.
pub fn loader_completion_is_stale(
    pane_missing: bool,
    crashed: bool,
    root_changed: bool,
    dirty: bool,
    idle: bool,
) -> (r: bool)
    ensures
        r == (pane_missing || crashed || root_changed || dirty || !idle),
{
    pane_missing || crashed || root_changed || dirty || !idle
}

/// Whether a pane went to another root while something was loaded for it. A root
/// that is itself being loaded does not count: the pane goes there afterwards.
pub fn root_changed_while_loading(is_root_load: bool, same_root: bool) -> (r: bool)
    ensures
        r == (!is_root_load && !same_root),
{
    !is_root_load && !same_root
}

/// Whether a pane went to another root while something was loaded for it. Whether
/// two paths are the same is for the platform to say.
pub fn loader_root_changed(is_root_load: bool, session_root: &FsPath, loaded_root: &FsPath) -> (r:
    bool)
    ensures
        is_root_load ==> !r,
        !is_root_load ==> compared(session_root@, loaded_root@, !r),
        session_root@ == loaded_root@ ==> !r,
        !is_root_load && letters(session_root@.text) != letters(loaded_root@.text) ==> r,
{
    let same = session_root.is_same_path(loaded_root);
    root_changed_while_loading(is_root_load, same)
}

/// Why a search candidate cannot be unfolded.
pub open spec fn reveal_refused(dirty: bool, busy: bool, crashed: bool, idle: bool) -> Option<
    Seq<char>,
> {
    if dirty {
        Some(
            "Cannot reveal a folded search candidate while editing. Save or discard changes."@,
        )
    } else if busy || crashed || !idle {
        Some("Another operation is in progress"@)
    } else {
        None
    }
}

/// Why a search candidate cannot be unfolded.
pub fn picker_reveal_start_rejection(dirty: bool, busy: bool, crashed: bool, idle: bool) -> (r:
    Option<&'static str>)
    ensures
        optional_text(r) == reveal_refused(dirty, busy, crashed, idle),
{
    if dirty {
        Some("Cannot reveal a folded search candidate while editing. Save or discard changes.")
    } else if busy || crashed || !idle {
        Some("Another operation is in progress")
    } else {
        None
    }
}

/// Whether news of a change has to wait.
pub fn should_defer_external_change(applying: bool, transferring: bool, loading: bool) -> (r: bool)
    ensures
        r == (applying || transferring || loading),
{
    applying || transferring || loading
}

/// The directories that could not be read and are tried again: none while a user
/// sees a dialog or the editor has stopped.
pub fn incomplete_probe_paths(
    incomplete: Option<Vec<JoinedPath>>,
    dialog_open: bool,
    crashed: bool,
) -> (r: Option<Vec<JoinedPath>>)
    ensures
        r == (if dialog_open || crashed {
            None
        } else {
            incomplete
        }),
{
    if dialog_open || crashed {
        None
    } else {
        incomplete
    }
}

/// Whether the panes of the last time are opened again.
pub fn should_restore_session(explicit_root: bool, restore_session: bool) -> (r: bool)
    ensures
        r == (!explicit_root && restore_session),
{
    !explicit_root && restore_session
}

/// What keeps something from being started: another dialog or worker, an editor
/// that has stopped, or a save.
#[derive(Debug, Clone, Copy, PartialEq, Eq, Structural)]
pub enum Obstacle {
    Busy,
    Crashed,
    Saving,
}

/// What keeps something from being started.
pub open spec fn obstacle(
    dialog_open: bool,
    apply_running: bool,
    transfer_awaiting: bool,
    transfer_running: bool,
    crashed: bool,
    save_idle: bool,
) -> Option<Obstacle> {
    if dialog_open || apply_running || transfer_awaiting || transfer_running {
        Some(Obstacle::Busy)
    } else if crashed {
        Some(Obstacle::Crashed)
    } else if !save_idle {
        Some(Obstacle::Saving)
    } else {
        None
    }
}

/// What keeps something from being started.
fn find_obstacle(
    dialog_open: bool,
    apply_running: bool,
    transfer_awaiting: bool,
    transfer_running: bool,
    crashed: bool,
    save_idle: bool,
) -> (r: Option<Obstacle>)
    ensures
        r == obstacle(
            dialog_open,
            apply_running,
            transfer_awaiting,
            transfer_running,
            crashed,
            save_idle,
        ),
{
    if dialog_open || apply_running || transfer_awaiting || transfer_running {
        Some(Obstacle::Busy)
    } else if crashed {
        Some(Obstacle::Crashed)
    } else if !save_idle {
        Some(Obstacle::Saving)
    } else {
        None
    }
}

/// Why a search cannot start.
pub open spec fn search_refused(obstacle: Option<Obstacle>) -> Option<Seq<char>> {
    match obstacle {
        Some(Obstacle::Busy) => Some(
            "Cannot start search while another dialog or file operation is active"@,
        ),
        Some(Obstacle::Crashed) => Some(
            "Cannot start search because the editor engine has stopped"@,
        ),
        Some(Obstacle::Saving) => Some("Cannot start search while saving"@),
        None => None,
    }
}

/// Why a search cannot start.
pub fn open_file_picker_rejection(
    dialog_open: bool,
    apply_running: bool,
    transfer_awaiting: bool,
    transfer_running: bool,
    crashed: bool,
    save_idle: bool,
) -> (r: Option<&'static str>)
    ensures
        optional_text(r) == search_refused(
            obstacle(
                dialog_open,
                apply_running,
                transfer_awaiting,
                transfer_running,
                crashed,
                save_idle,
            ),
        ),
{
    match find_obstacle(
        dialog_open,
        apply_running,
        transfer_awaiting,
        transfer_running,
        crashed,
        save_idle,
    ) {
        Some(Obstacle::Busy) => Some(
            "Cannot start search while another dialog or file operation is active",
        ),
        Some(Obstacle::Crashed) => Some(
            "Cannot start search because the editor engine has stopped",
        ),
        Some(Obstacle::Saving) => Some("Cannot start search while saving"),
        None => None,
    }
}

/// Why no terminal can be opened.
pub open spec fn terminal_refused(obstacle: Option<Obstacle>) -> Option<Seq<char>> {
    match obstacle {
        Some(Obstacle::Busy) => Some(
            "Cannot open terminal while another dialog or file operation is active"@,
        ),
        Some(Obstacle::Crashed) => Some(
            "Cannot open terminal because the editor engine has stopped"@,
        ),
        Some(Obstacle::Saving) => Some("Cannot open terminal while saving"@),
        None => None,
    }
}

/// Why no terminal can be opened.
pub fn open_terminal_rejection(
    dialog_open: bool,
    apply_running: bool,
    transfer_awaiting: bool,
    transfer_running: bool,
    crashed: bool,
    save_idle: bool,
) -> (r: Option<&'static str>)
    ensures
        optional_text(r) == terminal_refused(
            obstacle(
                dialog_open,
                apply_running,
                transfer_awaiting,
                transfer_running,
                crashed,
                save_idle,
            ),
        ),
{
    match find_obstacle(
        dialog_open,
        apply_running,
        transfer_awaiting,
        transfer_running,
        crashed,
        save_idle,
    ) {
        Some(Obstacle::Busy) => Some(
            "Cannot open terminal while another dialog or file operation is active",
        ),
        Some(Obstacle::Crashed) => Some(
            "Cannot open terminal because the editor engine has stopped",
        ),
        Some(Obstacle::Saving) => Some("Cannot open terminal while saving"),
        None => None,
    }
}

/// Why the buffer cannot be edited from a menu.
pub open spec fn edit_refused(obstacle: Option<Obstacle>) -> Option<Seq<char>> {
    match obstacle {
        Some(Obstacle::Busy) => Some(
            "Cannot edit the tree while another dialog or file operation is active"@,
        ),
        Some(Obstacle::Crashed) => Some(
            "Cannot edit the tree because the editor engine has stopped"@,
        ),
        Some(Obstacle::Saving) => Some("Cannot edit the tree while saving"@),
        None => None,
    }
}

/// Why the buffer cannot be edited from a menu.
pub fn tree_edit_rejection(
    dialog_open: bool,
    apply_running: bool,
    transfer_awaiting: bool,
    transfer_running: bool,
    crashed: bool,
    save_idle: bool,
) -> (r: Option<&'static str>)
    ensures
        optional_text(r) == edit_refused(
            obstacle(
                dialog_open,
                apply_running,
                transfer_awaiting,
                transfer_running,
                crashed,
                save_idle,
            ),
        ),
{
    match find_obstacle(
        dialog_open,
        apply_running,
        transfer_awaiting,
        transfer_running,
        crashed,
        save_idle,
    ) {
        Some(Obstacle::Busy) => Some(
            "Cannot edit the tree while another dialog or file operation is active",
        ),
        Some(Obstacle::Crashed) => Some(
            "Cannot edit the tree because the editor engine has stopped",
        ),
        Some(Obstacle::Saving) => Some("Cannot edit the tree while saving"),
        None => None,
    }
}

/// Whether a pane takes what its editor asks for: one whose editor has stopped only
/// takes wishes to look for a file and to write feedback.
pub fn takes_editor_event(crashed: bool, opens_picker: bool, asks_for_feedback: bool) -> (r: bool)
    ensures
        r == (crashed ==> opens_picker || asks_for_feedback),
{
    !crashed || opens_picker || asks_for_feedback
}

/// What the program says when no editor is left; `crashed` says of each pane whether
/// its editor has stopped.
pub fn engines_stopped_message(crashed: &Vec<bool>) -> (r: Option<&'static str>)
    ensures
        optional_text(r) == (if forall|i: int| 0 <= i < crashed@.len() ==> crashed@[i] {
            Some("All editor engines have stopped"@)
        } else {
            None
        }),
{
    let mut i: usize = 0;
    while i < crashed.len()
        invariant
            i <= crashed@.len(),
            forall|j: int| 0 <= j < i ==> crashed@[j],
        decreases crashed@.len() - i,
    {
        if !crashed[i] {
            assert(!crashed@[i as int]);
            return None;
        }
        i = i + 1;
    }
    Some("All editor engines have stopped")
}

/// A pane whose editor has stopped can be closed whatever its buffer holds.
pub proof fn crashed_pane_can_be_closed(dirty: bool, idle: bool)
    ensures
        closing_refused(dirty, idle, false, false, true) is None,
{
}

} // verus!
