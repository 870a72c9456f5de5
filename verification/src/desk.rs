//! What is going on across the panes: questions that wait for a user's word,
//! workers, what is being loaded, and searches.

use vstd::prelude::*;

use crate::commands::{open_with_choice, OpenWithChoice};
use crate::feedback::FeedbackOutcome;
use crate::folding::FoldOp;
use crate::fs_path::{compared, joined, located, FsPath, FsPathView, JoinedPath, JoinedPathView};
use crate::gates::{
    feedback_refused, feedback_start_rejection, loader_gate, loader_start_gate, undo_rejection,
    undoing_refused, LoaderGateView, LoaderStartGate,
};
use crate::notices::{message, Message, MessageKind, MessageView};
use crate::pane::PaneId;
use crate::picker::RootKey;
use crate::report::CommitReport;
use crate::save_flow::{
    commit_step, undo_step, ConfirmChoice, PipelineOutcome, SaveController, SaveView,
};
use crate::save_result::{CancelToken, SaveFlowResult, SaveFlowView};
use crate::text::texts;
use crate::transfer_flow::{
    awaits_with, fs_paths_view, transfer_choice, transfer_finished, TransferController,
    TransferFlowResult, TransferFlowView, TransferOp, TransferPlan, TransferStateView,
};
use crate::tree::{paths_view, TreePath};
use crate::tree_commands::PickerAction;
use crate::undo::{
    statuses_view, UndoStepStatus, UndoStepStatusView, UndoTransaction, UndoTransactionView,
};

verus! {

/// What is being loaded.
#[derive(Debug)]
pub enum LoaderKind {
    /// Another root; the cursor goes to the entry with this name.
    Root { cursor_target: Option<String> },
    /// A directory that is unfolded then.
    Directory { dir: TreePath, line: usize },
    /// Directories that are unfolded then.
    Recursive { dirs: Vec<TreePath>, line: usize, op: FoldOp },
    /// A directory above a search candidate.
    PickerReveal { target: TreePath, action: PickerAction, dir: TreePath },
}

/// What is being loaded.
#[verifier::ext_equal]
#[allow(inconsistent_fields)]
pub enum LoaderKindView {
    Root { cursor_target: Option<Seq<char>> },
    Directory { dir: Seq<Seq<char>>, line: usize },
    Recursive { dirs: Seq<Seq<Seq<char>>>, line: usize, op: FoldOp },
    PickerReveal { target: Seq<Seq<char>>, action: PickerAction, dir: Seq<Seq<char>> },
}

/// A name that may be missing.
pub open spec fn name_view(name: Option<String>) -> Option<Seq<char>> {
    match name {
        Some(name) => Some(name@),
        None => None,
    }
}

impl LoaderKind {
    pub open spec fn view(&self) -> LoaderKindView {
        match self {
            LoaderKind::Root { cursor_target } => LoaderKindView::Root {
                cursor_target: name_view(*cursor_target),
            },
            LoaderKind::Directory { dir, line } => LoaderKindView::Directory {
                dir: dir@,
                line: *line,
            },
            LoaderKind::Recursive { dirs, line, op } => LoaderKindView::Recursive {
                dirs: paths_view(dirs@),
                line: *line,
                op: *op,
            },
            LoaderKind::PickerReveal { target, action, dir } => LoaderKindView::PickerReveal {
                target: target@,
                action: *action,
                dir: dir@,
            },
        }
    }
}

/// What is being loaded, and for which pane. There is one at a time.
#[derive(Debug)]
pub struct LoaderOwner {
    pub pane_id: PaneId,
    pub root: FsPath,
    pub kind: LoaderKind,
    /// Whether it was asked to stop.
    pub cancelled: bool,
}

/// What is being loaded, and for which pane.
#[verifier::ext_equal]
pub struct LoaderView {
    pub pane_id: PaneId,
    pub root: FsPathView,
    pub kind: LoaderKindView,
    pub cancelled: bool,
}

impl LoaderOwner {
    pub open spec fn view(&self) -> LoaderView {
        LoaderView {
            pane_id: self.pane_id,
            root: self.root@,
            kind: self.kind@,
            cancelled: self.cancelled,
        }
    }

    /// Whether directories of the tree that is shown are being loaded.
    pub fn loads_directory(&self) -> (r: bool)
        ensures
            r == loads_directory(self@),
    {
        match &self.kind {
            LoaderKind::Root { .. } => false,
            _ => true,
        }
    }

    /// Whether a user sees a dialog meanwhile.
    pub fn shows_dialog(&self) -> (r: bool)
        ensures
            r == shows_dialog(self@),
    {
        match &self.kind {
            LoaderKind::Directory { .. } => false,
            LoaderKind::PickerReveal { .. } => false,
            _ => true,
        }
    }

    /// The place that is being loaded.
    pub fn target(&self) -> (r: JoinedPath)
        ensures
            r@ == load_target(self@),
    {
        match &self.kind {
            LoaderKind::Root { .. } => JoinedPath::bare(self.root.copy()),
            LoaderKind::Directory { dir, .. } => located(&self.root, dir),
            LoaderKind::Recursive { dirs, .. } => first_place(&self.root, dirs),
            LoaderKind::PickerReveal { dir, .. } => located(&self.root, dir),
        }
    }
}

/// Whether directories of the tree that is shown are being loaded.
pub open spec fn loads_directory(owner: LoaderView) -> bool {
    !(owner.kind is Root)
}

/// Whether a user sees a dialog meanwhile.
pub open spec fn shows_dialog(owner: LoaderView) -> bool {
    owner.kind is Root || owner.kind is Recursive
}

/// The place of the first of some directories, or the root.
pub open spec fn first_of(root: FsPathView, dirs: Seq<Seq<Seq<char>>>) -> JoinedPathView {
    if dirs.len() == 0 {
        joined(root, Seq::empty())
    } else {
        joined(root, dirs[0])
    }
}

/// The place of the first of some directories, or the root.
fn first_place(root: &FsPath, dirs: &Vec<TreePath>) -> (r: JoinedPath)
    ensures
        r@ == first_of(root@, paths_view(dirs@)),
{
    if dirs.len() == 0 {
        JoinedPath::bare(root.copy())
    } else {
        assert(paths_view(dirs@)[0] == dirs@[0]@);
        located(root, &dirs[0])
    }
}

/// The place that is being loaded.
pub open spec fn load_target(owner: LoaderView) -> JoinedPathView {
    match owner.kind {
        LoaderKindView::Root { .. } => joined(owner.root, Seq::empty()),
        LoaderKindView::Directory { dir, .. } => joined(owner.root, dir),
        LoaderKindView::Recursive { dirs, .. } => first_of(owner.root, dirs),
        LoaderKindView::PickerReveal { dir, .. } => joined(owner.root, dir),
    }
}

/// A search that a user sees.
#[derive(Debug)]
pub struct ActivePicker {
    pub pane_id: PaneId,
    pub root: RootKey,
    pub query: String,
    pub include_hidden: bool,
}

/// A search that a user sees.
#[verifier::ext_equal]
pub struct ActivePickerView {
    pub pane_id: PaneId,
    pub root: RootKey,
    pub query: Seq<char>,
    pub include_hidden: bool,
}

impl ActivePicker {
    pub open spec fn view(&self) -> ActivePickerView {
        ActivePickerView {
            pane_id: self.pane_id,
            root: self.root,
            query: self.query@,
            include_hidden: self.include_hidden,
        }
    }
}

/// What is being loaded, if anything.
pub open spec fn loader_view(loader: Option<LoaderOwner>) -> Option<LoaderView> {
    match loader {
        Some(owner) => Some(owner@),
        None => None,
    }
}

/// A search that a user sees, if any.
pub open spec fn picker_view(picker: Option<ActivePicker>) -> Option<ActivePickerView> {
    match picker {
        Some(picker) => Some(picker@),
        None => None,
    }
}

/// What is going on across the panes.
#[verifier::ext_equal]
pub struct DeskView {
    /// The pane that a dialog is about.
    pub dialog_owner: Option<PaneId>,
    /// The pane that a worker saves or undoes in.
    pub apply_owner: Option<PaneId>,
    /// Whether a user writes feedback.
    pub feedback_open: bool,
    pub loader: Option<LoaderView>,
    pub transfer: TransferStateView,
    /// The transactions that a start has found and that wait for a user's word.
    pub recovery: Seq<Seq<char>>,
    /// How many programs a user can choose from.
    pub open_with: Option<usize>,
    pub picker: Option<ActivePickerView>,
}

/// Whether a user's word is waited for or a worker is running.
pub open spec fn busy(desk: DeskView) -> bool {
    desk.apply_owner is Some || desk.dialog_owner is Some || !(desk.transfer is Idle)
}

/// Whether a worker is running, a transfer waits for a user's word, or something is
/// being loaded.
pub open spec fn working(desk: DeskView) -> bool {
    desk.apply_owner is Some || !(desk.transfer is Idle) || desk.loader is Some
}

/// What has to be done when an editor has stopped, in order.
#[derive(Debug, Clone, Copy, PartialEq, Eq, Structural)]
pub enum DeskEffect {
    /// What is being loaded is to stop.
    StopLoader,
    CloseDialog,
    /// No search counts any more.
    DropSearch,
    /// The question about the pane is answered with no.
    DeclineSave,
}

/// What the end of a pane's editor means for what is being loaded for it.
pub open spec fn loader_crash(desk: DeskView, pane: PaneId) -> (DeskView, Seq<DeskEffect>) {
    match desk.loader {
        Some(owner) => if owner.pane_id == pane {
            let stopped = DeskView {
                loader: Some(LoaderView { cancelled: true, ..owner }),
                ..desk
            };
            if shows_dialog(owner) && desk.dialog_owner == Some(pane) {
                (
                    DeskView { dialog_owner: None, ..stopped },
                    seq![DeskEffect::StopLoader, DeskEffect::CloseDialog],
                )
            } else {
                (stopped, seq![DeskEffect::StopLoader])
            }
        } else {
            (desk, Seq::empty())
        },
        None => (desk, Seq::empty()),
    }
}

/// What the end of a pane means for its search.
pub open spec fn picker_dropped(desk: DeskView, pane: PaneId) -> (DeskView, Seq<DeskEffect>) {
    if desk.picker matches Some(picker) && picker.pane_id == pane {
        (DeskView { picker: None, ..desk }, seq![DeskEffect::DropSearch])
    } else {
        (desk, Seq::empty())
    }
}

/// What the end of a pane's editor means for a question about it.
pub open spec fn dialog_crash(desk: DeskView, pane: PaneId) -> (DeskView, Seq<DeskEffect>) {
    if desk.dialog_owner == Some(pane) {
        (
            DeskView { dialog_owner: None, ..desk },
            seq![DeskEffect::DeclineSave, DeskEffect::CloseDialog],
        )
    } else {
        (desk, Seq::empty())
    }
}

/// What the end of a pane's editor means for a transfer that waits for a user's
/// word.
pub open spec fn transfer_crash(desk: DeskView, pane: PaneId) -> (DeskView, Seq<DeskEffect>) {
    if awaits_with(desk.transfer, pane) {
        (
            DeskView { transfer: TransferStateView::Idle, ..desk },
            seq![DeskEffect::CloseDialog],
        )
    } else {
        (desk, Seq::empty())
    }
}

/// What the end of a pane's editor means.
pub open spec fn crash_step(desk: DeskView, pane: PaneId) -> (DeskView, Seq<DeskEffect>) {
    let (first, stopped) = loader_crash(desk, pane);
    let (second, dropped) = picker_dropped(first, pane);
    let (third, declined) = dialog_crash(second, pane);
    let (fourth, forgotten) = transfer_crash(third, pane);
    (fourth, stopped + dropped + declined + forgotten)
}

/// What a user's wish to undo leads to.
#[derive(Debug)]
pub enum UndoRequestStep {
    Tell(Message),
    Ignored,
    /// What the request led to, and the transaction that is to be forgotten.
    Asked { result: SaveFlowResult, discard: Option<String> },
}

/// What a user's wish to undo leads to.
#[verifier::ext_equal]
pub enum UndoRequestView {
    Tell(MessageView),
    Ignored,
    Asked { result: SaveFlowView, discard: Option<Seq<char>> },
}

impl UndoRequestStep {
    pub open spec fn view(&self) -> UndoRequestView {
        match self {
            UndoRequestStep::Tell(message) => UndoRequestView::Tell(message@),
            UndoRequestStep::Ignored => UndoRequestView::Ignored,
            UndoRequestStep::Asked { result, discard } => UndoRequestView::Asked {
                result: result@,
                discard: name_view(*discard),
            },
        }
    }
}

/// What can be undone in a pane.
pub open spec fn slot_view(slot: Option<UndoTransaction>) -> Option<UndoTransactionView> {
    match slot {
        Some(transaction) => Some(transaction@),
        None => None,
    }
}

/// What a user's wish to undo leads to: for the desk, for the pane's save, and for
/// what can be undone in the pane. The transaction stays where it cannot be asked
/// about, and goes where nothing of it can be undone.
pub open spec fn undo_request_step(
    desk: DeskView,
    pane: PaneId,
    dirty: bool,
    offline: bool,
    slot: Option<UndoTransactionView>,
    save: SaveView,
    statuses: Seq<UndoStepStatusView>,
) -> (DeskView, Option<UndoTransactionView>, SaveView, UndoRequestView) {
    match undoing_refused(dirty, slot is None, offline, busy(desk)) {
        Some(text) => (
            desk,
            slot,
            save,
            UndoRequestView::Tell(message(MessageKind::Info, text)),
        ),
        None => {
            let transaction = slot->Some_0;
            let (after, result) = undo_step(save, transaction, statuses);
            match result {
                SaveFlowView::ShowUndoPlan { .. } => (
                    DeskView { dialog_owner: Some(pane), ..desk },
                    None,
                    after,
                    UndoRequestView::Asked { result, discard: None },
                ),
                SaveFlowView::UndoNothingLeft { .. } => (
                    desk,
                    None,
                    after,
                    UndoRequestView::Asked { result, discard: Some(transaction.id) },
                ),
                _ => (
                    desk,
                    slot,
                    after,
                    UndoRequestView::Asked { result, discard: None },
                ),
            }
        },
    }
}

/// What a wish that may be refused leads to.
#[derive(Debug, PartialEq, Eq)]
pub enum StartStep {
    Started,
    Ignored,
    Tell(Message),
}

/// What a wish that may be refused leads to.
#[verifier::ext_equal]
pub enum StartView {
    Started,
    Ignored,
    Tell(MessageView),
}

impl StartStep {
    pub open spec fn view(&self) -> StartView {
        match self {
            StartStep::Started => StartView::Started,
            StartStep::Ignored => StartView::Ignored,
            StartStep::Tell(message) => StartView::Tell(message@),
        }
    }
}

/// What a wish to write feedback leads to.
pub open spec fn feedback_step(desk: DeskView, endpoint_known: bool) -> (DeskView, StartView) {
    match feedback_refused(desk.dialog_owner is Some || desk.feedback_open) {
        Some(text) => (desk, StartView::Tell(message(MessageKind::Info, text))),
        None => if !endpoint_known {
            (
                desk,
                StartView::Tell(
                    message(
                        MessageKind::Warn,
                        "Feedback is currently unavailable. Details: https://github.com/sg004baa/fyler.windows/blob/main/docs/PRIVACY.md / GitHub Issues: https://github.com/sg004baa/fyler.windows/issues"@,
                    ),
                ),
            )
        } else {
            (DeskView { feedback_open: true, ..desk }, StartView::Started)
        },
    }
}

/// What a wish to go to another root leads to.
pub open spec fn root_change_step(
    desk: DeskView,
    pane: PaneId,
    root: FsPathView,
    cursor_target: Option<Seq<char>>,
    dirty: bool,
    offline: bool,
    idle: bool,
) -> (DeskView, StartView) {
    match loader_gate(
        dirty,
        offline,
        idle,
        desk.feedback_open || busy(desk),
        desk.loader is Some,
    ) {
        LoaderGateView::RejectSilently => (desk, StartView::Ignored),
        LoaderGateView::Reject(text) => (
            desk,
            StartView::Tell(message(MessageKind::Info, text)),
        ),
        LoaderGateView::Allow => (
            DeskView {
                dialog_owner: Some(pane),
                loader: Some(
                    LoaderView {
                        pane_id: pane,
                        root,
                        kind: LoaderKindView::Root { cursor_target },
                        cancelled: false,
                    },
                ),
                ..desk
            },
            StartView::Started,
        ),
    }
}

/// Whom a user's word is for.
#[derive(Debug)]
pub enum ConfirmRoute {
    Ignored,
    /// A program was chosen.
    OpenWith(OpenWithChoice),
    /// No program was chosen.
    OpenWithClosed,
    /// The transactions of the last time are kept, or those named are forgotten.
    Recovery { discard: Vec<String> },
    Transfer(TransferFlowResult),
    /// The word is for the save or undo in a pane.
    Save(PaneId),
}

/// Whom a user's word is for.
#[verifier::ext_equal]
pub enum ConfirmRouteView {
    Ignored,
    OpenWith(OpenWithChoice),
    OpenWithClosed,
    Recovery { discard: Seq<Seq<char>> },
    Transfer(TransferFlowView),
    Save(PaneId),
}

impl ConfirmRoute {
    pub open spec fn view(&self) -> ConfirmRouteView {
        match self {
            ConfirmRoute::Ignored => ConfirmRouteView::Ignored,
            ConfirmRoute::OpenWith(choice) => ConfirmRouteView::OpenWith(*choice),
            ConfirmRoute::OpenWithClosed => ConfirmRouteView::OpenWithClosed,
            ConfirmRoute::Recovery { discard } => ConfirmRouteView::Recovery {
                discard: texts(discard@),
            },
            ConfirmRoute::Transfer(result) => ConfirmRouteView::Transfer(result@),
            ConfirmRoute::Save(pane) => ConfirmRouteView::Save(*pane),
        }
    }
}

/// What the choice of a program leads to.
pub open spec fn chosen_program(index: usize, programs: usize) -> OpenWithChoice {
    if index < programs {
        OpenWithChoice::Handler(index)
    } else if index == programs {
        OpenWithChoice::SystemDialog
    } else {
        OpenWithChoice::OutOfRange
    }
}

/// Whom a user's word is for: the choice of a program first, then the transactions
/// of the last time, then a transfer, then the pane that a dialog is about or that
/// a worker works for. Transactions are forgotten only with approval, and where
/// there is a journal.
pub open spec fn confirm_route(
    desk: DeskView,
    choice: ConfirmChoice,
    token: CancelToken,
    has_journal: bool,
) -> (DeskView, ConfirmRouteView) {
    match choice {
        ConfirmChoice::OpenWithSelected(index) => match desk.open_with {
            Some(programs) => (
                DeskView { open_with: None, ..desk },
                ConfirmRouteView::OpenWith(chosen_program(index, programs)),
            ),
            None => (desk, ConfirmRouteView::Ignored),
        },
        _ => if desk.open_with is Some {
            (DeskView { open_with: None, ..desk }, ConfirmRouteView::OpenWithClosed)
        } else if desk.recovery.len() > 0 {
            (
                DeskView { recovery: Seq::empty(), ..desk },
                ConfirmRouteView::Recovery {
                    discard: if choice is Approve && has_journal {
                        desk.recovery
                    } else {
                        Seq::empty()
                    },
                },
            )
        } else if !(desk.transfer is Idle) {
            let (transfer, result) = transfer_choice(desk.transfer, choice, token);
            (DeskView { transfer, ..desk }, ConfirmRouteView::Transfer(result))
        } else {
            match (desk.dialog_owner, desk.apply_owner) {
                (Some(pane), _) => (desk, ConfirmRouteView::Save(pane)),
                (None, Some(pane)) => (desk, ConfirmRouteView::Save(pane)),
                (None, None) => (desk, ConfirmRouteView::Ignored),
            }
        },
    }
}

/// What a pane's answer to a user's word means for the desk.
pub open spec fn choice_noted(desk: DeskView, pane: PaneId, result: SaveFlowView) -> DeskView {
    match result {
        SaveFlowView::StartApply { .. } => DeskView {
            dialog_owner: None,
            apply_owner: Some(pane),
            ..desk
        },
        SaveFlowView::StartUndo { .. } => DeskView {
            dialog_owner: None,
            apply_owner: Some(pane),
            ..desk
        },
        SaveFlowView::ApplyCancelRequested => desk,
        SaveFlowView::Ignored => desk,
        _ => DeskView { dialog_owner: None, ..desk },
    }
}

/// What came of a save or undo means for what can be undone in the pane.
pub open spec fn slot_noted(
    slot: Option<UndoTransactionView>,
    result: SaveFlowView,
) -> Option<UndoTransactionView> {
    match result {
        SaveFlowView::UndoCancelled { transaction } => Some(transaction),
        SaveFlowView::UndoInvalidated { transaction, .. } => Some(transaction),
        _ => slot,
    }
}

/// Whether what was loaded can be used: its pane is still what it was, and nothing
/// else came between.
pub open spec fn load_usable(desk: DeskView, owner: LoaderView, stale: bool) -> bool {
    &&& !stale
    &&& desk.apply_owner is None
    &&& desk.transfer is Idle
    &&& if shows_dialog(owner) {
        desk.dialog_owner == Some(owner.pane_id)
    } else {
        desk.dialog_owner is None
    }
}

/// What is done about a pane now and then.
#[derive(Debug, Clone, Copy, PartialEq, Eq, Structural)]
pub enum RetryAction {
    Nothing,
    /// Its folder is tried to be reached again.
    Reconnect,
    /// Its folder is watched again.
    Rewatch,
    /// Directories that could not be read are tried again.
    Probe,
}

/// What is done with feedback that a user wrote.
#[derive(Debug, Clone, Copy, PartialEq, Eq, Structural)]
pub enum FeedbackStep {
    Ignored,
    /// A user is told what came of it.
    Refused(FeedbackOutcome),
    /// It is sent.
    Post,
}

/// What is going on across the panes.
#[derive(Debug)]
pub struct Desk {
    dialog_owner: Option<PaneId>,
    apply_owner: Option<PaneId>,
    feedback_open: bool,
    loader: Option<LoaderOwner>,
    transfer: TransferController,
    recovery: Vec<String>,
    open_with: Option<usize>,
    picker: Option<ActivePicker>,
}

/// Whether a pane is meant.
fn is_pane(owner: Option<PaneId>, pane: PaneId) -> (r: bool)
    ensures
        r == (owner == Some(pane)),
{
    match owner {
        Some(owner) => owner == pane,
        None => false,
    }
}

impl Desk {
    /// What is going on across the panes.
    pub closed spec fn view(&self) -> DeskView {
        DeskView {
            dialog_owner: self.dialog_owner,
            apply_owner: self.apply_owner,
            feedback_open: self.feedback_open,
            loader: loader_view(self.loader),
            transfer: self.transfer@,
            recovery: texts(self.recovery@),
            open_with: self.open_with,
            picker: picker_view(self.picker),
        }
    }

    /// Nothing is going on but that transactions of the last time wait for a user's
    /// word.
    pub fn new(recovery: Vec<String>) -> (r: Desk)
        ensures
            r@ == (DeskView {
                dialog_owner: None,
                apply_owner: None,
                feedback_open: false,
                loader: None,
                transfer: TransferStateView::Idle,
                recovery: texts(recovery@),
                open_with: None,
                picker: None,
            }),
    {
        Desk {
            dialog_owner: None,
            apply_owner: None,
            feedback_open: false,
            loader: None,
            transfer: TransferController::new(),
            recovery,
            open_with: None,
            picker: None,
        }
    }

    /// Whether a transfer waits for a user's word or is running.
    fn is_transferring(&self) -> (r: bool)
        ensures
            r == !(self@.transfer is Idle),
    {
        self.transfer.is_awaiting() || self.transfer.is_running()
    }

    /// Whether a user's word is waited for or a worker is running.
    pub fn is_busy(&self) -> (r: bool)
        ensures
            r == busy(self@),
    {
        self.apply_owner.is_some() || self.dialog_owner.is_some() || self.is_transferring()
    }

    /// Whether a worker is running, a transfer waits for a user's word, or something
    /// is being loaded.
    pub fn is_working(&self) -> (r: bool)
        ensures
            r == working(self@),
    {
        self.apply_owner.is_some() || self.is_transferring() || self.loader.is_some()
    }

    /// Takes the news that the editor of a pane has stopped, and gives what has to
    /// be done, in order.
    pub fn on_engine_crashed(&mut self, pane: PaneId) -> (r: Vec<DeskEffect>)
        ensures
            (final(self)@, r@) == crash_step(old(self)@, pane),
    {
        let ghost before = self@;
        let mut effects: Vec<DeskEffect> = Vec::new();
        let mut loader: Option<LoaderOwner> = None;
        std::mem::swap(&mut loader, &mut self.loader);
        match loader {
            Some(owner) => {
                if owner.pane_id == pane {
                    effects.push(DeskEffect::StopLoader);
                    if owner.shows_dialog() && is_pane(self.dialog_owner, pane) {
                        self.dialog_owner = None;
                        effects.push(DeskEffect::CloseDialog);
                    }
                    self.loader =
                    Some(
                        LoaderOwner {
                            pane_id: owner.pane_id,
                            root: owner.root,
                            kind: owner.kind,
                            cancelled: true,
                        },
                    );
                } else {
                    self.loader = Some(owner);
                }
            },
            None => {},
        }
        let ghost first = loader_crash(before, pane);
        assert(self@ == first.0);
        assert(effects@ =~= first.1);
        if self.drop_picker(pane) {
            effects.push(DeskEffect::DropSearch);
        }
        let ghost second = picker_dropped(first.0, pane);
        assert(self@ == second.0);
        assert(effects@ =~= first.1 + second.1);
        if is_pane(self.dialog_owner, pane) {
            effects.push(DeskEffect::DeclineSave);
            self.dialog_owner = None;
            effects.push(DeskEffect::CloseDialog);
        }
        let ghost third = dialog_crash(second.0, pane);
        assert(self@ == third.0);
        assert(effects@ =~= first.1 + second.1 + third.1);
        if self.transfer.invalidate_if_involves(pane) {
            effects.push(DeskEffect::CloseDialog);
        }
        assert(effects@ =~= crash_step(before, pane).1);
        effects
    }

    /// Ends the search of a pane, and says whether there was one.
    pub fn drop_picker(&mut self, pane: PaneId) -> (r: bool)
        ensures
            final(self)@ == picker_dropped(old(self)@, pane).0,
            r == (old(self)@.picker matches Some(picker) && picker.pane_id == pane),
    {
        let owned = match &self.picker {
            Some(picker) => picker.pane_id == pane,
            None => false,
        };
        if owned {
            self.picker = None;
        }
        owned
    }

    /// Starts a search that a user sees.
    pub fn open_picker(&mut self, picker: ActivePicker)
        ensures
            final(self)@ == (DeskView { picker: Some(picker@), ..old(self)@ }),
    {
        self.picker = Some(picker);
    }

    /// Takes what a user types into a search, and gives the root to search; nothing
    /// where the pane has no search.
    pub fn on_picker_query(&mut self, pane: PaneId, query: &str) -> (r: Option<RootKey>)
        ensures
            match old(self)@.picker {
                Some(picker) => if picker.pane_id == pane {
                    &&& r == Some(picker.root)
                    &&& final(self)@ == (DeskView {
                        picker: Some(ActivePickerView { query: query@, ..picker }),
                        ..old(self)@
                    })
                } else {
                    r is None && final(self)@ == old(self)@
                },
                None => r is None && final(self)@ == old(self)@,
            },
    {
        let mut picker: Option<ActivePicker> = None;
        std::mem::swap(&mut picker, &mut self.picker);
        match picker {
            Some(picker) => {
                if picker.pane_id == pane {
                    let root = picker.root;
                    self.picker =
                    Some(
                        ActivePicker {
                            pane_id: picker.pane_id,
                            root,
                            query: query.to_owned(),
                            include_hidden: picker.include_hidden,
                        },
                    );
                    Some(root)
                } else {
                    self.picker = Some(picker);
                    None
                }
            },
            None => None,
        }
    }

    /// The search that a user sees, where it looks through a root.
    pub fn picker_for(&self, root: RootKey) -> (r: Option<&ActivePicker>)
        ensures
            match r {
                Some(picker) => self@.picker == Some(picker@) && picker.root == root,
                None => !(self@.picker matches Some(picker) && picker.root == root),
            },
    {
        match &self.picker {
            Some(picker) => {
                if picker.root == root {
                    Some(picker)
                } else {
                    None
                }
            },
            None => None,
        }
    }

    /// Takes a request to save in a pane, or tells a user why not.
    pub fn on_commit(
        &mut self,
        pane: PaneId,
        controller: &mut SaveController,
        changedtick: u64,
        pipeline: PipelineOutcome,
    ) -> (r: Result<SaveFlowResult, Message>)
        ensures
            if busy(old(self)@) {
                &&& r matches Err(told) && told@ == message(
                    MessageKind::Info,
                    "Another save is in progress"@,
                )
                &&& final(self)@ == old(self)@
                &&& final(controller)@ == old(controller)@
            } else {
                let (after, result) = commit_step(old(controller)@, changedtick, pipeline@);
                &&& r matches Ok(shown) && shown@ == result
                &&& final(controller)@ == after
                &&& final(self)@ == (if result is ShowPlan {
                    DeskView { dialog_owner: Some(pane), ..old(self)@ }
                } else {
                    old(self)@
                })
            },
    {
        if self.is_busy() {
            return Err(Message::new(MessageKind::Info, "Another save is in progress"));
        }
        let result = controller.on_commit(changedtick, pipeline);
        match &result {
            SaveFlowResult::ShowPlan { .. } => {
                self.dialog_owner = Some(pane);
            },
            _ => {},
        }
        Ok(result)
    }

    /// Takes a user's wish to undo in a pane. `slot` is what can be undone there, and
    /// `statuses` says what stands against each of its steps.
    pub fn on_undo_requested(
        &mut self,
        pane: PaneId,
        dirty: bool,
        offline: bool,
        slot: &mut Option<UndoTransaction>,
        controller: &mut SaveController,
        statuses: Vec<UndoStepStatus>,
    ) -> (r: UndoRequestStep)
        ensures
            (final(self)@, slot_view(*final(slot)), final(controller)@, r@) == undo_request_step(
                old(self)@,
                pane,
                dirty,
                offline,
                slot_view(*old(slot)),
                old(controller)@,
                statuses_view(statuses@),
            ),
    {
        if let Some(text) = undo_rejection(dirty, slot.is_none(), offline, self.is_busy()) {
            return UndoRequestStep::Tell(Message::new(MessageKind::Info, text));
        }
        let mut taken: Option<UndoTransaction> = None;
        std::mem::swap(&mut taken, slot);
        match taken {
            None => UndoRequestStep::Ignored,
            Some(transaction) => {
                let restore = transaction.copy();
                let result = controller.request_undo(transaction, statuses);
                match &result {
                    SaveFlowResult::ShowUndoPlan { .. } => {
                        self.dialog_owner = Some(pane);
                        UndoRequestStep::Asked { result, discard: None }
                    },
                    SaveFlowResult::UndoNothingLeft { .. } => UndoRequestStep::Asked {
                        result,
                        discard: Some(restore.id),
                    },
                    _ => {
                        *slot = Some(restore);
                        UndoRequestStep::Asked { result, discard: None }
                    },
                }
            },
        }
    }

    /// Takes a wish to write feedback.
    pub fn on_feedback_requested(&mut self, endpoint_known: bool) -> (r: StartStep)
        ensures
            (final(self)@, r@) == feedback_step(old(self)@, endpoint_known),
    {
        if let Some(text) = feedback_start_rejection(
            self.dialog_owner.is_some() || self.feedback_open,
        ) {
            return StartStep::Tell(Message::new(MessageKind::Info, text));
        }
        if !endpoint_known {
            return StartStep::Tell(
                Message::new(
                    MessageKind::Warn,
                    "Feedback is currently unavailable. Details: https://github.com/sg004baa/fyler.windows/blob/main/docs/PRIVACY.md / GitHub Issues: https://github.com/sg004baa/fyler.windows/issues",
                ),
            );
        }
        self.feedback_open = true;
        StartStep::Started
    }

    /// Whether a user writes feedback.
    pub fn is_feedback_open(&self) -> (r: bool)
        ensures
            r == self@.feedback_open,
    {
        self.feedback_open
    }

    /// What is done with feedback that a user wrote. `valid` says whether it can be
    /// sent.
    pub fn on_feedback_submitted(&self, endpoint_known: bool, valid: bool) -> (r: FeedbackStep)
        ensures
            r == (if !endpoint_known || !self@.feedback_open {
                FeedbackStep::Ignored
            } else if !valid {
                FeedbackStep::Refused(FeedbackOutcome::Invalid)
            } else {
                FeedbackStep::Post
            }),
    {
        if !endpoint_known || !self.feedback_open {
            FeedbackStep::Ignored
        } else if !valid {
            FeedbackStep::Refused(FeedbackOutcome::Invalid)
        } else {
            FeedbackStep::Post
        }
    }

    /// Takes the news that a user no longer writes feedback.
    pub fn on_feedback_closed(&mut self)
        ensures
            final(self)@ == (DeskView { feedback_open: false, ..old(self)@ }),
    {
        self.feedback_open = false;
    }

    /// Takes a wish to show another root in a pane.
    pub fn request_root_change(
        &mut self,
        pane: PaneId,
        root: FsPath,
        cursor_target: Option<String>,
        dirty: bool,
        offline: bool,
        idle: bool,
    ) -> (r: StartStep)
        ensures
            (final(self)@, r@) == root_change_step(
                old(self)@,
                pane,
                root@,
                name_view(cursor_target),
                dirty,
                offline,
                idle,
            ),
    {
        match loader_start_gate(
            dirty,
            offline,
            idle,
            self.feedback_open || self.is_busy(),
            self.loader.is_some(),
        ) {
            LoaderStartGate::RejectSilently => StartStep::Ignored,
            LoaderStartGate::Reject(text) => StartStep::Tell(
                Message::new(MessageKind::Info, text),
            ),
            LoaderStartGate::Allow => {
                self.dialog_owner = Some(pane);
                self.loader =
                Some(
                    LoaderOwner {
                        pane_id: pane,
                        root,
                        kind: LoaderKind::Root { cursor_target },
                        cancelled: false,
                    },
                );
                StartStep::Started
            },
        }
    }

    /// Takes a wish to load a directory, and says whether loading starts.
    pub fn request_directory_load(
        &mut self,
        pane: PaneId,
        root: FsPath,
        dir: TreePath,
        line: usize,
    ) -> (r: bool)
        ensures
            r == (old(self)@.loader is None),
            final(self)@ == (if r {
                DeskView {
                    loader: Some(
                        LoaderView {
                            pane_id: pane,
                            root: root@,
                            kind: LoaderKindView::Directory { dir: dir@, line },
                            cancelled: false,
                        },
                    ),
                    ..old(self)@
                }
            } else {
                old(self)@
            }),
    {
        if self.loader.is_some() {
            return false;
        }
        self.loader =
        Some(
            LoaderOwner {
                pane_id: pane,
                root,
                kind: LoaderKind::Directory { dir, line },
                cancelled: false,
            },
        );
        true
    }

    /// Takes a wish to load a directory above a search candidate, and says whether
    /// loading starts.
    pub fn request_picker_reveal_load(
        &mut self,
        pane: PaneId,
        root: FsPath,
        target: TreePath,
        action: PickerAction,
        dir: TreePath,
    ) -> (r: bool)
        ensures
            r == (old(self)@.loader is None),
            final(self)@ == (if r {
                DeskView {
                    loader: Some(
                        LoaderView {
                            pane_id: pane,
                            root: root@,
                            kind: LoaderKindView::PickerReveal {
                                target: target@,
                                action,
                                dir: dir@,
                            },
                            cancelled: false,
                        },
                    ),
                    ..old(self)@
                }
            } else {
                old(self)@
            }),
    {
        if self.loader.is_some() {
            return false;
        }
        self.loader =
        Some(
            LoaderOwner {
                pane_id: pane,
                root,
                kind: LoaderKind::PickerReveal { target, action, dir },
                cancelled: false,
            },
        );
        true
    }

    /// Takes a wish to load directories, and gives the place that a user is shown
    /// where loading starts.
    pub fn request_recursive_load(
        &mut self,
        pane: PaneId,
        root: FsPath,
        dirs: Vec<TreePath>,
        line: usize,
        op: FoldOp,
    ) -> (r: Option<JoinedPath>)
        ensures
            if old(self)@.loader is Some || old(self)@.dialog_owner is Some {
                r is None && final(self)@ == old(self)@
            } else {
                &&& r matches Some(place) && place@ == first_of(root@, paths_view(dirs@))
                &&& final(self)@ == (DeskView {
                    dialog_owner: Some(pane),
                    loader: Some(
                        LoaderView {
                            pane_id: pane,
                            root: root@,
                            kind: LoaderKindView::Recursive { dirs: paths_view(dirs@), line, op },
                            cancelled: false,
                        },
                    ),
                    ..old(self)@
                })
            },
    {
        if self.loader.is_some() || self.dialog_owner.is_some() {
            return None;
        }
        let place = first_place(&root, &dirs);
        self.dialog_owner = Some(pane);
        self.loader =
        Some(
            LoaderOwner {
                pane_id: pane,
                root,
                kind: LoaderKind::Recursive { dirs, line, op },
                cancelled: false,
            },
        );
        Some(place)
    }

    /// Takes a user's wish to stop loading. Gives nothing where there is nothing to
    /// stop or it was asked to stop before, else whether a user sees a dialog
    /// meanwhile.
    pub fn on_loader_cancel(&mut self) -> (r: Option<bool>)
        ensures
            match old(self)@.loader {
                Some(owner) => {
                    &&& final(self)@ == (DeskView {
                        loader: Some(LoaderView { cancelled: true, ..owner }),
                        ..old(self)@
                    })
                    &&& r == (if owner.cancelled {
                        None
                    } else {
                        Some(shows_dialog(owner))
                    })
                },
                None => r is None && final(self)@ == old(self)@,
            },
    {
        let mut loader: Option<LoaderOwner> = None;
        std::mem::swap(&mut loader, &mut self.loader);
        match loader {
            Some(owner) => {
                let answer = if owner.cancelled {
                    None
                } else {
                    Some(owner.shows_dialog())
                };
                self.loader =
                Some(
                    LoaderOwner {
                        pane_id: owner.pane_id,
                        root: owner.root,
                        kind: owner.kind,
                        cancelled: true,
                    },
                );
                answer
            },
            None => None,
        }
    }

    /// Whether a user sees how far loading for a pane is.
    pub fn shows_load_progress(&self, pane: PaneId) -> (r: bool)
        ensures
            r == (self@.loader matches Some(owner) && owner.pane_id == pane && shows_dialog(
                owner,
            )),
    {
        match &self.loader {
            Some(owner) => owner.pane_id == pane && owner.shows_dialog(),
            None => false,
        }
    }

    /// Takes what was being loaded for a pane when loading is done; nothing where
    /// something else is being loaded, or from another root than `root`. Whether two roots
    /// are the same is for the platform to say.
    pub fn take_loader(&mut self, pane: PaneId, root: &FsPath) -> (r: Option<LoaderOwner>)
        ensures
            match old(self)@.loader {
                Some(owner) => if owner.pane_id == pane {
                    &&& compared(owner.root, root@, r is Some)
                    &&& r matches Some(taken) ==> taken@ == owner
                    &&& final(self)@ == (if r is Some {
                        DeskView { loader: None, ..old(self)@ }
                    } else {
                        old(self)@
                    })
                } else {
                    r is None && final(self)@ == old(self)@
                },
                None => r is None && final(self)@ == old(self)@,
            },
    {
        let same_root = match &self.loader {
            Some(owner) => owner.root.is_same_path(root),
            None => false,
        };
        self.take_loader_if(pane, same_root)
    }

    /// Takes what was being loaded for a pane, where it was loaded from the right root.
    fn take_loader_if(&mut self, pane: PaneId, same_root: bool) -> (r: Option<LoaderOwner>)
        ensures
            match old(self)@.loader {
                Some(owner) => if owner.pane_id == pane && same_root {
                    &&& r matches Some(taken) && taken@ == owner
                    &&& final(self)@ == (DeskView { loader: None, ..old(self)@ })
                } else {
                    r is None && final(self)@ == old(self)@
                },
                None => r is None && final(self)@ == old(self)@,
            },
    {
        let mut loader: Option<LoaderOwner> = None;
        std::mem::swap(&mut loader, &mut self.loader);
        match loader {
            Some(owner) => {
                if owner.pane_id == pane && same_root {
                    Some(owner)
                } else {
                    self.loader = Some(owner);
                    None
                }
            },
            None => None,
        }
    }

    /// Whether what was loaded can be used. `stale` says whether its pane is no
    /// longer what it was.
    pub fn is_load_usable(&self, owner: &LoaderOwner, stale: bool) -> (r: bool)
        ensures
            r == load_usable(self@, owner@, stale),
    {
        if stale || self.apply_owner.is_some() || self.is_transferring() {
            return false;
        }
        if owner.shows_dialog() {
            is_pane(self.dialog_owner, owner.pane_id)
        } else {
            self.dialog_owner.is_none()
        }
    }

    /// Ends the dialog that a user saw while something was loaded, and says whether
    /// there was one.
    pub fn close_loader_dialog(&mut self, owner: &LoaderOwner) -> (r: bool)
        ensures
            r == (shows_dialog(owner@) && old(self)@.dialog_owner == Some(owner@.pane_id)),
            final(self)@ == (if r {
                DeskView { dialog_owner: None, ..old(self)@ }
            } else {
                old(self)@
            }),
    {
        if owner.shows_dialog() && is_pane(self.dialog_owner, owner.pane_id) {
            self.dialog_owner = None;
            return true;
        }
        false
    }

    /// Whether changes that waited for loading are seen to now.
    pub fn may_flush_after_load(&self, loads_directory: bool) -> (r: bool)
        ensures
            r == (loads_directory && self@.loader is None && self@.apply_owner is None && !(
            self@.transfer is Running)),
    {
        loads_directory && self.loader.is_none() && self.apply_owner.is_none()
            && !self.transfer.is_running()
    }

    /// Whether a user can choose a program now.
    pub fn can_choose_program(&self, idle: bool) -> (r: bool)
        ensures
            r == (idle && self@.open_with is None && !busy(self@)),
    {
        idle && self.open_with.is_none() && !self.is_busy()
    }

    /// Lets a user choose from a number of programs.
    pub fn begin_open_with(&mut self, programs: usize)
        ensures
            final(self)@ == (DeskView { open_with: Some(programs), ..old(self)@ }),
    {
        self.open_with = Some(programs);
    }

    /// Takes a user's word and says whom it is for; a worker that it starts is stopped
    /// by `token`.
    pub fn route_confirm(&mut self, choice: ConfirmChoice, token: CancelToken, has_journal: bool) -> (r:
        ConfirmRoute)
        ensures
            (final(self)@, r@) == confirm_route(old(self)@, choice, token, has_journal),
    {
        match choice {
            ConfirmChoice::OpenWithSelected(index) => {
                return match self.open_with {
                    Some(programs) => {
                        self.open_with = None;
                        ConfirmRoute::OpenWith(open_with_choice(index, programs))
                    },
                    None => ConfirmRoute::Ignored,
                };
            },
            _ => {},
        }
        if self.open_with.is_some() {
            self.open_with = None;
            return ConfirmRoute::OpenWithClosed;
        }
        if self.recovery.len() > 0 {
            let mut recovery: Vec<String> = Vec::new();
            std::mem::swap(&mut recovery, &mut self.recovery);
            assert(texts(self.recovery@) =~= Seq::empty());
            if choice == ConfirmChoice::Approve && has_journal {
                return ConfirmRoute::Recovery { discard: recovery };
            }
            let none: Vec<String> = Vec::new();
            assert(texts(none@) =~= Seq::empty());
            return ConfirmRoute::Recovery { discard: none };
        }
        if self.is_transferring() {
            return ConfirmRoute::Transfer(self.transfer.on_choice(choice, token));
        }
        match self.dialog_owner {
            Some(pane) => ConfirmRoute::Save(pane),
            None => match self.apply_owner {
                Some(pane) => ConfirmRoute::Save(pane),
                None => ConfirmRoute::Ignored,
            },
        }
    }

    /// Takes a pane's answer to a user's word. `slot` is what can be undone there.
    pub fn note_choice(
        &mut self,
        pane: PaneId,
        slot: &mut Option<UndoTransaction>,
        result: &SaveFlowResult,
    )
        ensures
            final(self)@ == choice_noted(old(self)@, pane, result@),
            slot_view(*final(slot)) == slot_noted(slot_view(*old(slot)), result@),
    {
        match result {
            SaveFlowResult::StartApply { .. } => {
                self.dialog_owner = None;
                self.apply_owner = Some(pane);
            },
            SaveFlowResult::StartUndo { .. } => {
                self.dialog_owner = None;
                self.apply_owner = Some(pane);
            },
            SaveFlowResult::ApplyCancelRequested => {},
            SaveFlowResult::Ignored => {},
            SaveFlowResult::UndoCancelled { transaction } => {
                *slot = Some(transaction.copy());
                self.dialog_owner = None;
            },
            SaveFlowResult::UndoInvalidated { transaction, .. } => {
                *slot = Some(transaction.copy());
                self.dialog_owner = None;
            },
            _ => {
                self.dialog_owner = None;
            },
        }
    }

    /// Waits for a user's word on a transfer.
    pub fn begin_transfer(
        &mut self,
        source: PaneId,
        target: PaneId,
        plan: TransferPlan,
        overwrites: Vec<FsPath>,
    )
        ensures
            final(self)@ == (DeskView {
                transfer: TransferStateView::Awaiting {
                    source,
                    target,
                    plan: plan@,
                    overwrites: fs_paths_view(overwrites@),
                },
                ..old(self)@
            }),
    {
        self.transfer.begin(source, target, plan, overwrites);
    }

    /// Takes what came of a transfer.
    pub fn on_transfer_finished(&mut self, report: CommitReport<TransferOp>) -> (r:
        TransferFlowResult)
        ensures
            ({
                let (transfer, result) = transfer_finished(old(self)@.transfer, report.results@);
                &&& final(self)@ == (DeskView { transfer, ..old(self)@ })
                &&& r@ == result
            }),
    {
        self.transfer.on_finished(report)
    }

    /// Whether a worker saves or undoes in a pane.
    pub fn is_apply_owner(&self, pane: PaneId) -> (r: bool)
        ensures
            r == (self@.apply_owner == Some(pane)),
    {
        is_pane(self.apply_owner, pane)
    }

    /// Takes the news that the worker of a save or undo is done.
    pub fn finish_apply(&mut self)
        ensures
            final(self)@ == (DeskView { apply_owner: None, ..old(self)@ }),
    {
        self.apply_owner = None;
    }

    /// Whether news of a change in a pane has to wait.
    pub fn defers_changes(&self, pane: PaneId) -> (r: bool)
        ensures
            r == changes_wait(self@, pane),
    {
        let loading = match &self.loader {
            Some(owner) => owner.pane_id == pane && owner.loads_directory(),
            None => false,
        };
        self.apply_owner.is_some() || self.transfer.is_running() || loading
    }

    /// Forgets a transfer that waits for a user's word and has to do with a pane, and
    /// says whether there was one.
    pub fn invalidate_transfer(&mut self, pane: PaneId) -> (r: bool)
        ensures
            r == awaits_with(old(self)@.transfer, pane),
            final(self)@ == transfer_crash(old(self)@, pane).0,
    {
        self.transfer.invalidate_if_involves(pane)
    }

    /// Takes the news whether a change in a pane made the question about it stale.
    pub fn note_external_change(&mut self, pane: PaneId, invalidated: bool)
        ensures
            final(self)@ == (if invalidated && old(self)@.dialog_owner == Some(pane) {
                DeskView { dialog_owner: None, ..old(self)@ }
            } else {
                old(self)@
            }),
    {
        if invalidated && is_pane(self.dialog_owner, pane) {
            self.dialog_owner = None;
        }
    }

    /// What is done about a pane now and then. Nothing while a worker is running.
    pub fn retry_action(&self, offline: bool, watch_degraded: bool, crashed: bool) -> (r:
        RetryAction)
        ensures
            r == (if self@.apply_owner is Some || self@.transfer is Running {
                RetryAction::Nothing
            } else if offline {
                RetryAction::Reconnect
            } else if watch_degraded {
                RetryAction::Rewatch
            } else if self@.dialog_owner is Some || crashed {
                RetryAction::Nothing
            } else {
                RetryAction::Probe
            }),
    {
        if self.apply_owner.is_some() || self.transfer.is_running() {
            RetryAction::Nothing
        } else if offline {
            RetryAction::Reconnect
        } else if watch_degraded {
            RetryAction::Rewatch
        } else if self.dialog_owner.is_some() || crashed {
            RetryAction::Nothing
        } else {
            RetryAction::Probe
        }
    }

    /// The pane that a dialog is about.
    pub fn dialog_owner(&self) -> (r: Option<PaneId>)
        ensures
            r == self@.dialog_owner,
    {
        self.dialog_owner
    }

    /// The pane that a worker saves or undoes in.
    pub fn apply_owner(&self) -> (r: Option<PaneId>)
        ensures
            r == self@.apply_owner,
    {
        self.apply_owner
    }

    /// Whether something is being loaded.
    pub fn is_loading(&self) -> (r: bool)
        ensures
            r == (self@.loader is Some),
    {
        self.loader.is_some()
    }

    /// Whether a transfer waits for a user's word.
    pub fn is_transfer_awaiting(&self) -> (r: bool)
        ensures
            r == (self@.transfer is Awaiting),
    {
        self.transfer.is_awaiting()
    }

    /// Whether a transfer is running.
    pub fn is_transfer_running(&self) -> (r: bool)
        ensures
            r == (self@.transfer is Running),
    {
        self.transfer.is_running()
    }
}

/// Whether news of a change in a pane has to wait: while a worker is running, or
/// while directories of the pane are being loaded.
pub open spec fn changes_wait(desk: DeskView, pane: PaneId) -> bool {
    desk.apply_owner is Some || desk.transfer is Running || (desk.loader matches Some(owner)
        && owner.pane_id == pane && loads_directory(owner))
}

/// Once the editor of a pane has stopped, nothing waits for a user's word about the
/// pane, and what is loaded for it is asked to stop.
pub proof fn crashed_pane_leaves_no_question(desk: DeskView, pane: PaneId)
    ensures
        crash_step(desk, pane).0.dialog_owner != Some(pane),
        !awaits_with(crash_step(desk, pane).0.transfer, pane),
        !(crash_step(desk, pane).0.picker matches Some(picker) && picker.pane_id == pane),
        crash_step(desk, pane).0.loader matches Some(owner) ==> owner.pane_id == pane
            ==> owner.cancelled,
        crash_step(desk, pane).0.apply_owner == desk.apply_owner,
{
}

/// The end of one pane's editor leaves what is about other panes alone.
pub proof fn crash_spares_other_panes(desk: DeskView, pane: PaneId, other: PaneId)
    requires
        pane != other,
    ensures
        desk.dialog_owner == Some(other) ==> crash_step(desk, pane).0.dialog_owner == Some(other),
        desk.picker matches Some(picker) && picker.pane_id == other ==> crash_step(
            desk,
            pane,
        ).0.picker == desk.picker,
        desk.loader matches Some(owner) && owner.pane_id == other ==> crash_step(
            desk,
            pane,
        ).0.loader == desk.loader,
{
}

/// A user's word reaches one thing only: what it is not for stays as it is.
pub proof fn one_word_answers_one_question(
    desk: DeskView,
    choice: ConfirmChoice,
    token: CancelToken,
    has_journal: bool,
)
    ensures
        confirm_route(desk, choice, token, has_journal).1 is Save ==> confirm_route(
            desk,
            choice,
            token,
            has_journal,
        ).0 == desk,
        confirm_route(desk, choice, token, has_journal).0.dialog_owner == desk.dialog_owner,
        confirm_route(desk, choice, token, has_journal).0.apply_owner == desk.apply_owner,
        confirm_route(desk, choice, token, has_journal).0.loader == desk.loader,
        confirm_route(desk, choice, token, has_journal).0.transfer != desk.transfer
            ==> confirm_route(desk, choice, token, has_journal).1 is Transfer,
{
}

/// Transactions of the last time are forgotten only with a user's approval.
pub proof fn recovery_is_discarded_only_with_approval(
    desk: DeskView,
    choice: ConfirmChoice,
    token: CancelToken,
    has_journal: bool,
)
    ensures
        confirm_route(desk, choice, token, has_journal).1 matches ConfirmRouteView::Recovery {
            discard,
        } ==> discard.len() > 0 ==> choice is Approve && discard == desk.recovery,
{
}

/// There is one save, undo or question at a time: a second one is refused.
pub proof fn one_save_at_a_time(
    desk: DeskView,
    pane: PaneId,
    dirty: bool,
    offline: bool,
    slot: Option<UndoTransactionView>,
    save: SaveView,
    statuses: Seq<UndoStepStatusView>,
)
    requires
        busy(desk),
    ensures
        undo_request_step(desk, pane, dirty, offline, slot, save, statuses).0 == desk,
        undo_request_step(desk, pane, dirty, offline, slot, save, statuses).1 == slot,
        undo_request_step(desk, pane, dirty, offline, slot, save, statuses).2 == save,
        undo_request_step(desk, pane, dirty, offline, slot, save, statuses).3 is Tell,
{
}

/// A transaction is not lost: while it is asked about the save has it, and
/// otherwise the pane keeps it unless nothing of it can be undone.
pub proof fn transactions_are_not_lost(
    desk: DeskView,
    pane: PaneId,
    dirty: bool,
    offline: bool,
    transaction: UndoTransactionView,
    save: SaveView,
    statuses: Seq<UndoStepStatusView>,
)
    ensures
        ({
            let (_, slot, after, step) = undo_request_step(
                desk,
                pane,
                dirty,
                offline,
                Some(transaction),
                save,
                statuses,
            );
            ||| slot == Some(transaction)
            ||| after.state == (crate::save_state::SaveStateView::AwaitingUndoConfirmation {
                transaction,
            })
            ||| step matches UndoRequestView::Asked { discard, .. } && discard == Some(
                transaction.id,
            )
        }),
{
}

} // verus!
