//! What a wish to copy or move entries to another pane leads to.

use vstd::prelude::*;

use crate::fs_path::FsPath;
use crate::grammar::{line_texts, EditorLine};
use crate::listing::{entry_at, shown_lines};
use crate::notices::{message, Message, MessageKind, MessageView};
use crate::pane::PaneId;
use crate::save_flow::{SaveController, SaveView};
use crate::text::{join_texts, joined_texts, texts};
use crate::transfer_flow::{
    build_plan, destination_directory, pointed_directory, resolve_selection, resolve_target,
    selection, start_rejection, transfer_plan, transfer_rejection, SelectionError, TransferKind,
    TransferPaneState, TransferPlan, TransferPlanView,
};
use crate::tree::EntryKind;

verus! {

/// One of the two panes of a transfer.
pub struct TransferSide<'a> {
    pub controller: &'a SaveController,
    /// The lines of the pane's buffer.
    pub lines: &'a Vec<EditorLine>,
    pub cursor_line: usize,
    pub dirty: bool,
    pub crashed: bool,
    pub offline: bool,
    pub root: &'a FsPath,
}

/// One of the two panes of a transfer.
pub struct TransferSideView {
    pub save: SaveView,
    pub lines: Seq<Seq<char>>,
    pub cursor_line: int,
    pub dirty: bool,
    pub crashed: bool,
    pub offline: bool,
    pub root: crate::fs_path::FsPathView,
}

impl<'a> TransferSide<'a> {
    pub open spec fn view(&self) -> TransferSideView {
        TransferSideView {
            save: self.controller@,
            lines: line_texts(self.lines@),
            cursor_line: self.cursor_line as int,
            dirty: self.dirty,
            crashed: self.crashed,
            offline: self.offline,
            root: self.root@,
        }
    }

    fn state(&self) -> (r: TransferPaneState)
        ensures
            r == side_state(self@),
    {
        TransferPaneState {
            dirty: self.dirty,
            idle: self.controller.is_idle(),
            crashed: self.crashed,
            offline: self.offline,
        }
    }
}

/// What a pane of a transfer is at.
pub open spec fn side_state(side: TransferSideView) -> TransferPaneState {
    TransferPaneState {
        dirty: side.dirty,
        idle: side.save.state is Idle,
        crashed: side.crashed,
        offline: side.offline,
    }
}

/// What a wish to copy or move entries leads to.
#[derive(Debug)]
pub enum TransferRequestStep {
    Tell(Message),
    /// The file system is asked what stands against the plan.
    Preflight(TransferPlan),
}

/// What a wish to copy or move entries leads to.
#[verifier::ext_equal]
pub enum TransferRequestView {
    Tell(MessageView),
    Preflight(TransferPlanView),
}

impl TransferRequestStep {
    pub open spec fn view(&self) -> TransferRequestView {
        match self {
            TransferRequestStep::Tell(message) => TransferRequestView::Tell(message@),
            TransferRequestStep::Preflight(plan) => TransferRequestView::Preflight(plan@),
        }
    }
}

/// The pane that entries go to: the one that was active before.
pub fn transfer_target(source: PaneId, last_active: PaneId, pane_ids: &Vec<PaneId>) -> (r: Result<
    PaneId,
    Message,
>)
    ensures
        match r {
            Ok(target) => {
                &&& target == last_active
                &&& pane_ids@.len() >= 2 && last_active != source && pane_ids@.contains(
                    last_active,
                )
            },
            Err(told) => {
                &&& !(pane_ids@.len() >= 2 && last_active != source && pane_ids@.contains(
                    last_active,
                ))
                &&& told@ == message(
                    MessageKind::Info,
                    "There is no destination pane for transfer. Split a pane first."@,
                )
            },
        },
{
    match resolve_target(source, last_active, pane_ids) {
        Some(target) => Ok(target),
        None => Err(
            Message::new(
                MessageKind::Info,
                "There is no destination pane for transfer. Split a pane first.",
            ),
        ),
    }
}

/// What a user is told where a selection cannot be transferred.
pub open spec fn selection_refusal(error: SelectionError) -> MessageView {
    match error {
        SelectionError::UnsavedLine => message(
            MessageKind::Info,
            "Cannot transfer because the selection contains an unsaved new line. Save first."@,
        ),
        SelectionError::Empty => message(MessageKind::Info, "No transfer target is selected"@),
        SelectionError::MissingLine => message(
            MessageKind::Error,
            "Transfer target line was not found"@,
        ),
        SelectionError::UnknownId => message(
            MessageKind::Error,
            "Failed to resolve transfer target in the current file list"@,
        ),
    }
}

/// What a user is told where a selection cannot be transferred.
fn selection_refused(error: SelectionError) -> (r: Message)
    ensures
        r@ == selection_refusal(error),
{
    match error {
        SelectionError::UnsavedLine => Message::new(
            MessageKind::Info,
            "Cannot transfer because the selection contains an unsaved new line. Save first.",
        ),
        SelectionError::Empty => Message::new(MessageKind::Info, "No transfer target is selected"),
        SelectionError::MissingLine => Message::new(
            MessageKind::Error,
            "Transfer target line was not found",
        ),
        SelectionError::UnknownId => Message::new(
            MessageKind::Error,
            "Failed to resolve transfer target in the current file list",
        ),
    }
}

/// The entry under a pane's cursor.
pub open spec fn under_cursor(side: TransferSideView) -> Option<(Seq<Seq<char>>, EntryKind)> {
    match entry_at(side.save.baseline.entries, side.lines, side.cursor_line) {
        Some(entry) => Some((entry.path, entry.kind)),
        None => None,
    }
}

/// The directory that a pane's cursor points into.
pub open spec fn cursor_directory(side: TransferSideView) -> Option<Seq<Seq<char>>> {
    pointed_directory(
        shown_lines(side.save.baseline.entries, side.save.collapsed).len() == 0,
        under_cursor(side),
    )
}

/// What a wish to copy or move the entries on some lines of one pane to the
/// directory under the cursor of another leads to.
pub open spec fn transfer_request_step(
    kind: TransferKind,
    source: TransferSideView,
    target: TransferSideView,
    selected_lines: Seq<usize>,
    globally_busy: bool,
) -> TransferRequestView {
    match transfer_rejection(side_state(source), side_state(target), globally_busy) {
        Some(text) => TransferRequestView::Tell(message(MessageKind::Info, text)),
        None => match selection(source.save.baseline.entries, source.lines, selected_lines) {
            Err(error) => TransferRequestView::Tell(selection_refusal(error)),
            Ok(selected) => match cursor_directory(target) {
                None => TransferRequestView::Tell(
                    message(
                        MessageKind::Error,
                        "Failed to resolve cursor position in destination pane"@,
                    ),
                ),
                Some(destination) => {
                    let plan = transfer_plan(
                        kind,
                        source.root,
                        target.root,
                        destination,
                        selected,
                    );
                    if plan.ops.len() == 0 {
                        TransferRequestView::Tell(
                            message(MessageKind::Info, "No transfer targets"@),
                        )
                    } else {
                        TransferRequestView::Preflight(plan)
                    }
                },
            },
        },
    }
}

/// Takes a wish to copy or move the entries on some lines of one pane to the
/// directory under the cursor of another.
pub fn handle_transfer_request(
    kind: TransferKind,
    source: &TransferSide,
    target: &TransferSide,
    selected_lines: &Vec<usize>,
    globally_busy: bool,
) -> (r: TransferRequestStep)
    ensures
        r@ == transfer_request_step(kind, source@, target@, selected_lines@, globally_busy),
{
    if let Some(text) = start_rejection(source.state(), target.state(), globally_busy) {
        return TransferRequestStep::Tell(Message::new(MessageKind::Info, text));
    }
    let selected = match resolve_selection(source.controller, source.lines, selected_lines) {
        Ok(selected) => selected,
        Err(error) => {
            return TransferRequestStep::Tell(selection_refused(error));
        },
    };
    let target_empty = target.controller.visible_lines().len() == 0;
    let resolved = target.controller.resolve_line(target.lines, target.cursor_line);
    let destination = match destination_directory(target_empty, resolved) {
        Some(destination) => destination,
        None => {
            return TransferRequestStep::Tell(
                Message::new(
                    MessageKind::Error,
                    "Failed to resolve cursor position in destination pane",
                ),
            );
        },
    };
    let plan = build_plan(
        kind,
        source.root.copy(),
        target.root.copy(),
        &destination,
        selected,
    );
    if plan.ops.len() == 0 {
        return TransferRequestStep::Tell(Message::new(MessageKind::Info, "No transfer targets"));
    }
    TransferRequestStep::Preflight(plan)
}

/// What a user is told where the file system does not let paths be transferred;
/// nothing where it does.
pub fn blocked_message(blocked: &Vec<String>) -> (r: Option<Message>)
    ensures
        match r {
            Some(told) => blocked@.len() > 0 && told@ == message(
                MessageKind::Error,
                "Some paths cannot be transferred: "@ + joined_texts(texts(blocked@), ", "@),
            ),
            None => blocked@.len() == 0,
        },
{
    if blocked.len() == 0 {
        return None;
    }
    let text = "Some paths cannot be transferred: ".to_owned().concat(
        join_texts(blocked, ", ").as_str(),
    );
    Some(Message::new(MessageKind::Error, text.as_str()))
}

/// What a user is told where trees could not be read again after a transfer;
/// nothing where they could. Each trouble names its pane.
pub fn transfer_trouble(troubles: &Vec<String>) -> (r: Option<Message>)
    ensures
        match r {
            Some(told) => troubles@.len() > 0 && told@ == message(
                MessageKind::Error,
                "A folder became offline or unreachable after transfer and will retry automatically: "@
                    + joined_texts(texts(troubles@), " / "@),
            ),
            None => troubles@.len() == 0,
        },
{
    if troubles.len() == 0 {
        return None;
    }
    let text =
        "A folder became offline or unreachable after transfer and will retry automatically: ".to_owned().concat(
        join_texts(troubles, " / ").as_str(),
    );
    Some(Message::new(MessageKind::Error, text.as_str()))
}

/// Only what is saved is transferred: while either pane is being edited, nothing is.
pub proof fn edited_panes_take_no_part(
    kind: TransferKind,
    source: TransferSideView,
    target: TransferSideView,
    selected_lines: Seq<usize>,
    globally_busy: bool,
)
    requires
        source.dirty || target.dirty,
    ensures
        transfer_request_step(kind, source, target, selected_lines, globally_busy) is Tell,
{
}

} // verus!
