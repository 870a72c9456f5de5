//! Who a word is for, what may begin, and what the end of an editor means.

use vstd::prelude::*;

use crate::commands::{next_focus, OpenWithChoice};
use crate::commit_laws::undo_is_asked_about_where_a_step_is_ready;
use crate::desk::{
    busy, changes_wait, choice_noted, chosen_program, confirm_route, crash_step, feedback_step,
    load_target, load_usable, loads_directory, root_change_step, shows_dialog, slot_noted,
    undo_request_step, working, ConfirmRouteView, DeskEffect, DeskView, LoaderKindView, LoaderView,
    UndoRequestView,
};
use crate::fs_path::FsPathView;
use crate::gates::{
    closing_refused, edit_refused, feedback_refused, loader_gate, obstacle, reveal_refused,
    search_refused, terminal_refused, undoing_refused, Obstacle,
};
use crate::pane::{leaves_of, retained, PaneId, PaneLayout};
use crate::pane_book::{
    created_step, pane_step, panes_without, BookView, PaneAction, PaneFacts, PaneStepView,
    MAX_PANES,
};
use crate::save_flow::{ConfirmChoice, SaveView};
use crate::save_result::{CancelToken, SaveFlowView};
use crate::transfer_flow::{transfer_choice, TransferStateView};
use crate::undo::{UndoStepStatusView, UndoTransactionView};

verus! {

/// What may begin: closing a pane, undoing, feedback, loading, a search, a terminal and an
/// edit of the tree each begin just where nothing stands against them.
pub proof fn what_may_begin(
    dirty: bool,
    idle: bool,
    offline: bool,
    crashed: bool,
    busy: bool,
    loading: bool,
    last_pane: bool,
    slot_empty: bool,
    dialog_open: bool,
    awaiting: bool,
    running: bool,
)
    ensures
        closing_refused(dirty, idle, busy, last_pane, crashed) is None <==> !last_pane && !busy && (
        crashed || (!dirty && idle)),
        undoing_refused(dirty, slot_empty, offline, busy) is None <==> !busy && !offline && !dirty
            && !slot_empty,
        feedback_refused(dialog_open) is None <==> !dialog_open,
        loader_gate(dirty, offline, idle, busy, loading) is Allow <==> (dirty ==> offline) && idle
            && !busy && !loading,
        loader_gate(dirty, offline, idle, busy, loading) is RejectSilently <==> (dirty ==> offline)
            && !idle,
        reveal_refused(dirty, busy, crashed, idle) is None <==> !dirty && !busy && !crashed && idle,
        obstacle(dialog_open, busy, awaiting, running, crashed, idle) is None <==> !dialog_open
            && !busy && !awaiting && !running && !crashed && idle,
        obstacle(dialog_open, busy, awaiting, running, crashed, idle) == Some(Obstacle::Crashed)
            ==> crashed,
        obstacle(dialog_open, busy, awaiting, running, crashed, idle) == Some(Obstacle::Saving)
            ==> !idle,
        obstacle(dialog_open, busy, awaiting, running, crashed, idle) == Some(Obstacle::Busy)
            <==> dialog_open || busy || awaiting || running,
{
}

/// A search, a terminal and an edit of the tree are refused just where something stands in
/// their way.
pub proof fn obstacles_refuse(found: Option<Obstacle>)
    ensures
        search_refused(found) is None <==> found is None,
        terminal_refused(found) is None <==> found is None,
        edit_refused(found) is None <==> found is None,
{
}

/// The desk is busy just while a worker saves or undoes, a question about a pane waits, or
/// a transfer is asked about or runs; it is working while a worker runs, a transfer is asked
/// about or runs, or something is loaded.
pub proof fn busy_and_working(desk: DeskView)
    ensures
        !busy(desk) <==> desk.apply_owner is None && desk.dialog_owner is None && desk.transfer
            is Idle,
        !working(desk) <==> desk.apply_owner is None && desk.transfer is Idle && desk.loader
            is None,
{
}

/// An undo that is refused changes nothing. One that is asked about takes the transaction
/// and the dialog; one of which nothing is left forgets the transaction and says so; the
/// rest of the desk stays.
pub proof fn undo_takes_the_transaction(
    desk: DeskView,
    pane: PaneId,
    dirty: bool,
    offline: bool,
    slot: Option<UndoTransactionView>,
    save: SaveView,
    statuses: Seq<UndoStepStatusView>,
)
    ensures
        ({
            let (after, left, saved, step) = undo_request_step(
                desk,
                pane,
                dirty,
                offline,
                slot,
                save,
                statuses,
            );
            let refused = desk.apply_owner is Some || desk.dialog_owner is Some || !(desk.transfer
                is Idle) || offline || dirty || slot is None;
            let ready = exists|i: int| 0 <= i < statuses.len() && #[trigger] statuses[i] is Ready;
            &&& step is Tell <==> refused
            &&& refused ==> after == desk && left == slot && saved == save
            &&& !refused && save.state is Idle && ready ==> {
                &&& after == (DeskView { dialog_owner: Some(pane), ..desk })
                &&& left is None
                &&& step == (UndoRequestView::Asked {
                    result: SaveFlowView::ShowUndoPlan { transaction: slot->Some_0, statuses },
                    discard: None,
                })
            }
            &&& !refused && save.state is Idle && !ready ==> {
                &&& after == desk && left is None && saved == save
                &&& step matches UndoRequestView::Asked { result, discard }
                &&& result is UndoNothingLeft && discard == Some(slot->Some_0.id)
            }
            &&& !refused && !(save.state is Idle) ==> after == desk && left == slot && saved
                == save && step == (UndoRequestView::Asked {
                result: SaveFlowView::Ignored,
                discard: None,
            })
        }),
{
    if slot is Some {
        if save.state is Idle {
            undo_is_asked_about_where_a_step_is_ready(
                save,
                slot->Some_0,
                statuses,
            );
        }
    }
}

/// Feedback begins just where no dialog is open and it is known where it goes.
pub proof fn feedback_begins_where_it_can_go(desk: DeskView, endpoint_known: bool)
    ensures
        ({
            let (after, step) = feedback_step(desk, endpoint_known);
            let free = desk.dialog_owner is None && !desk.feedback_open;
            &&& step is Started <==> free && endpoint_known
            &&& step is Started ==> after == (DeskView { feedback_open: true, ..desk })
            &&& !(step is Started) ==> after == desk && step is Tell
        }),
{
}

/// Another root begins to load just where the pane is at rest, or edited but out of reach,
/// and nothing else is going on; then it is loaded for this pane, and the dialog is its.
pub proof fn other_root_begins_to_load(
    desk: DeskView,
    pane: PaneId,
    root: FsPathView,
    cursor_target: Option<Seq<char>>,
    dirty: bool,
    offline: bool,
    idle: bool,
)
    ensures
        ({
            let (after, step) = root_change_step(
                desk,
                pane,
                root,
                cursor_target,
                dirty,
                offline,
                idle,
            );
            &&& step is Started <==> (dirty ==> offline) && idle && !desk.feedback_open
                && desk.apply_owner is None && desk.dialog_owner is None && desk.transfer is Idle
                && desk.loader is None
            &&& !(step is Started) ==> after == desk
            &&& step is Started ==> {
                &&& after.dialog_owner == Some(pane)
                &&& after.loader matches Some(owner)
                &&& owner.pane_id == pane && owner.root == root && !owner.cancelled
                &&& owner.kind == (LoaderKindView::Root { cursor_target })
                &&& after == (DeskView {
                    dialog_owner: after.dialog_owner,
                    loader: after.loader,
                    ..desk
                })
            }
        }),
{
}

/// A word is for the first thing that waits: a choice of programs, then the transactions of
/// the last time, then a transfer, then the save or undo that has the dialog, then the one
/// that is running.
pub proof fn word_is_for_the_first_that_waits(
    desk: DeskView,
    choice: ConfirmChoice,
    token: CancelToken,
    has_journal: bool,
)
    requires
        choice is Approve || choice is Cancel,
    ensures
        ({
            let (after, route) = confirm_route(desk, choice, token, has_journal);
            &&& desk.open_with is Some ==> route is OpenWithClosed && after == (DeskView {
                open_with: None,
                ..desk
            })
            &&& desk.open_with is None && desk.recovery.len() > 0 ==> {
                &&& after == (DeskView { recovery: Seq::empty(), ..desk })
                &&& route == (ConfirmRouteView::Recovery {
                    discard: if choice is Approve && has_journal {
                        desk.recovery
                    } else {
                        Seq::empty()
                    },
                })
            }
            &&& desk.open_with is None && desk.recovery.len() == 0 && !(desk.transfer is Idle)
                ==> {
                let (transfer, result) = transfer_choice(desk.transfer, choice, token);
                route == ConfirmRouteView::Transfer(result) && after == (DeskView {
                    transfer,
                    ..desk
                })
            }
            &&& desk.open_with is None && desk.recovery.len() == 0 && desk.transfer is Idle ==> {
                &&& after == desk
                &&& desk.dialog_owner matches Some(pane) ==> route == ConfirmRouteView::Save(pane)
                &&& desk.dialog_owner is None ==> (desk.apply_owner matches Some(pane) ==> route
                    == ConfirmRouteView::Save(pane))
                &&& desk.dialog_owner is None && desk.apply_owner is None ==> route is Ignored
            }
        }),
{
}

/// A choice of a program is for the question about programs alone: it is one of them, the
/// system's own question behind them, or none, and the question is over.
pub proof fn choice_of_a_program(
    desk: DeskView,
    index: usize,
    token: CancelToken,
    has_journal: bool,
)
    ensures
        ({
            let (after, route) = confirm_route(
                desk,
                ConfirmChoice::OpenWithSelected(index),
                token,
                has_journal,
            );
            match desk.open_with {
                None => after == desk && route is Ignored,
                Some(programs) => {
                    &&& after == (DeskView { open_with: None, ..desk })
                    &&& route matches ConfirmRouteView::OpenWith(choice)
                    &&& choice == OpenWithChoice::Handler(index) <==> index < programs
                    &&& choice is SystemDialog <==> index == programs
                    &&& choice is OutOfRange <==> index > programs
                },
            }
        }),
        chosen_program(index, 0) is SystemDialog <==> index == 0,
{
}

/// Once a worker begins, its pane has it and no dialog is left; a worker that was asked to
/// stop and a word that did not count leave everything; anything else ends the dialog. A
/// transaction whose undo was declined or came too late can be undone again.
pub proof fn answers_are_noted(
    desk: DeskView,
    pane: PaneId,
    slot: Option<UndoTransactionView>,
    result: SaveFlowView,
)
    ensures
        ({
            let after = choice_noted(desk, pane, result);
            &&& result is StartApply || result is StartUndo ==> after == (DeskView {
                dialog_owner: None,
                apply_owner: Some(pane),
                ..desk
            })
            &&& result is ApplyCancelRequested || result is Ignored ==> after == desk
            &&& !(result is StartApply) && !(result is StartUndo) && !(result
                is ApplyCancelRequested) && !(result is Ignored) ==> after == (DeskView {
                dialog_owner: None,
                ..desk
            })
        }),
        result matches SaveFlowView::UndoCancelled { transaction } ==> slot_noted(slot, result)
            == Some(transaction),
        result matches SaveFlowView::UndoInvalidated { transaction, .. } ==> slot_noted(
            slot,
            result,
        ) == Some(transaction),
        !(result is UndoCancelled) && !(result is UndoInvalidated) ==> slot_noted(slot, result)
            == slot,
{
}

/// What was loaded is used just where it is not out of date and nothing came in between: no
/// worker, no transfer, and no dialog but the one that loading opened.
pub proof fn loaded_is_used_where_nothing_came_between(
    desk: DeskView,
    owner: LoaderView,
    stale: bool,
)
    ensures
        load_usable(desk, owner, stale) <==> !stale && desk.apply_owner is None && desk.transfer
            is Idle && desk.dialog_owner == (if owner.kind is Root || owner.kind is Recursive {
            Some(owner.pane_id)
        } else {
            None
        }),
        shows_dialog(owner) <==> owner.kind is Root || owner.kind is Recursive,
        loads_directory(owner) <==> !(owner.kind is Root),
{
}

/// What is being loaded is the root itself, the directory, or the first of the directories.
pub proof fn load_target_is_what_is_loaded(owner: LoaderView)
    ensures
        load_target(owner).base == owner.root,
        owner.kind is Root ==> load_target(owner).names.len() == 0,
        owner.kind matches LoaderKindView::Directory { dir, .. } ==> load_target(owner).names
            == dir,
        owner.kind matches LoaderKindView::PickerReveal { dir, .. } ==> load_target(owner).names
            == dir,
        owner.kind matches LoaderKindView::Recursive { dirs, .. } ==> (dirs.len() > 0
            ==> load_target(owner).names == dirs[0]) && (dirs.len() == 0 ==> load_target(
            owner,
        ).names.len() == 0),
{
}

/// News of changes waits while a worker or a transfer runs, and for a pane while
/// directories are loaded for it; at no other time.
pub proof fn news_waits_while_work_runs(desk: DeskView, pane: PaneId)
    ensures
        changes_wait(desk, pane) <==> desk.apply_owner is Some || desk.transfer is Running || (
        desk.loader matches Some(owner) && owner.pane_id == pane && !(owner.kind is Root)),
{
}

/// When the editor of a pane stops, just what is about the pane ends, and each end is told:
/// what is loaded for it is asked to stop, its search is dropped, its question is answered
/// with no, and a transfer that waits with it is forgotten.
pub proof fn stopped_editor_ends_what_is_about_it(desk: DeskView, pane: PaneId)
    ensures
        ({
            let (after, effects) = crash_step(desk, pane);
            let loads = desk.loader matches Some(owner) && owner.pane_id == pane;
            let searches = desk.picker matches Some(picker) && picker.pane_id == pane;
            let gives = desk.transfer matches TransferStateView::Awaiting { source, target, .. }
                && (source == pane || target == pane);
            let by_loader = loads && desk.dialog_owner == Some(pane) && (desk.loader->Some_0.kind
                is Root || desk.loader->Some_0.kind is Recursive);
            &&& after.apply_owner == desk.apply_owner && after.feedback_open == desk.feedback_open
            &&& after.recovery == desk.recovery && after.open_with == desk.open_with
            &&& after.loader == (if loads {
                Some(LoaderView { cancelled: true, ..desk.loader->Some_0 })
            } else {
                desk.loader
            })
            &&& after.picker == (if searches {
                None
            } else {
                desk.picker
            })
            &&& after.transfer == (if gives {
                TransferStateView::Idle
            } else {
                desk.transfer
            })
            &&& after.dialog_owner == (if desk.dialog_owner == Some(pane) {
                None
            } else {
                desk.dialog_owner
            })
            &&& effects == (if loads {
                seq![DeskEffect::StopLoader]
            } else {
                Seq::empty()
            }) + (if by_loader {
                seq![DeskEffect::CloseDialog]
            } else {
                Seq::empty()
            }) + (if searches {
                seq![DeskEffect::DropSearch]
            } else {
                Seq::empty()
            }) + (if desk.dialog_owner == Some(pane) && !by_loader {
                seq![DeskEffect::DeclineSave, DeskEffect::CloseDialog]
            } else {
                Seq::empty()
            }) + (if gives {
                seq![DeskEffect::CloseDialog]
            } else {
                Seq::empty()
            })
        }),
{
    let (after, effects) = crash_step(desk, pane);
    let loads = desk.loader matches Some(owner) && owner.pane_id == pane;
    let searches = desk.picker matches Some(picker) && picker.pane_id == pane;
    let gives = desk.transfer matches TransferStateView::Awaiting { source, target, .. } && (source
        == pane || target == pane);
    let by_loader = loads && desk.dialog_owner == Some(pane) && (desk.loader->Some_0.kind is Root
        || desk.loader->Some_0.kind is Recursive);
    assert(effects =~= (if loads {
        seq![DeskEffect::StopLoader]
    } else {
        Seq::<DeskEffect>::empty()
    }) + (if by_loader {
        seq![DeskEffect::CloseDialog]
    } else {
        Seq::<DeskEffect>::empty()
    }) + (if searches {
        seq![DeskEffect::DropSearch]
    } else {
        Seq::<DeskEffect>::empty()
    }) + (if desk.dialog_owner == Some(pane) && !by_loader {
        seq![DeskEffect::DeclineSave, DeskEffect::CloseDialog]
    } else {
        Seq::<DeskEffect>::empty()
    }) + (if gives {
        seq![DeskEffect::CloseDialog]
    } else {
        Seq::<DeskEffect>::empty()
    }));
}

/// A pane that is gone is the only one that is gone.
pub proof fn one_pane_goes(panes: Seq<PaneId>, pane: PaneId, other: PaneId)
    ensures
        panes_without(panes, pane).contains(other) <==> panes.contains(other) && other != pane,
    decreases panes.len(),
{
    if panes.len() > 0 {
        let shorter = panes.drop_last();
        one_pane_goes(shorter, pane, other);
        let before = panes_without(shorter, pane);
        let all = panes_without(panes, pane);
        if before.contains(other) {
            let k = choose|k: int| 0 <= k < before.len() && before[k] == other;
            assert(all[k] == other);
        }
        if shorter.contains(other) {
            let k = choose|k: int| 0 <= k < shorter.len() && shorter[k] == other;
            assert(panes[k] == other);
        }
        if panes.contains(other) && panes.last() != other {
            let k = choose|k: int| 0 <= k < panes.len() && panes[k] == other;
            assert(shorter[k] == other);
        }
        if panes.last() == other && other != pane {
            assert(all[all.len() - 1] == other);
            assert(panes[panes.len() - 1] == other);
        }
        if all.contains(other) {
            let k = choose|k: int| 0 <= k < all.len() && all[k] == other;
            if k < before.len() {
                assert(before[k] == other);
            } else {
                assert(panes[panes.len() - 1] == other);
            }
        }
    }
}

/// Only the active pane's wishes count. It is split in the direction that was asked for,
/// with the next number, while there are fewer than four panes and nothing runs; it is
/// closed where it may be, and the others stay; and the focus goes to the pane that is
/// next, previous or beside it.
pub proof fn wishes_about_panes(
    book: BookView,
    action: PaneAction,
    source: PaneId,
    facts: PaneFacts,
    other: PaneId,
)
    ensures
        ({
            let (after, step) = pane_step(book, action, source, facts);
            let splits = action == PaneAction::SplitHorizontal || action
                == PaneAction::SplitVertical;
            let closes = action == PaneAction::Close;
            let there = source == book.active && book.panes.contains(source);
            let free = !facts.workspace_applying && (facts.crashed || (!facts.dirty && facts.idle))
                && book.panes.len() != 1 && !facts.owns_dialog;
            &&& source != book.active ==> after == book && step is Ignored
            &&& step is Create <==> splits && there && !facts.workspace_applying
                && book.panes.len() < 4
            &&& step matches PaneStepView::Create { id, direction } ==> id.0 == book.next_id && (
            direction is Horizontal <==> action == PaneAction::SplitHorizontal)
            &&& splits ==> after == book
            &&& step is Closed <==> closes && there && free && facts.sibling is Some
                && facts.closed is Some
            &&& step matches PaneStepView::Closed { pane } ==> {
                &&& pane == source
                &&& Some(after.active) == facts.sibling
                &&& after.last_active == after.active
                &&& Some(after.layout) == facts.closed
                &&& after.next_id == book.next_id
                &&& after.panes.contains(other) <==> book.panes.contains(other) && other != source
            }
            &&& closes && !(step is Closed) ==> after == book
            &&& !splits && !closes && source == book.active ==> {
                let target = match action {
                    PaneAction::FocusNext => next_focus(leaves_of(book.layout), book.active, true),
                    PaneAction::FocusPrevious => next_focus(
                        leaves_of(book.layout),
                        book.active,
                        false,
                    ),
                    _ => facts.neighbor,
                };
                &&& step is Focused <==> target is Some
                &&& target matches Some(pane) ==> after == (BookView {
                    active: pane,
                    last_active: book.active,
                    ..book
                })
                &&& target is None ==> after == book
            }
        }),
        MAX_PANES == 4,
{
    one_pane_goes(book.panes, source, other);
}

/// The next pane is the one behind in the order of the window, the previous one the one
/// before, round and round; a single pane has neither.
pub proof fn focus_goes_round(leaves: Seq<PaneId>, i: int)
    requires
        leaves.no_duplicates(),
        0 <= i < leaves.len(),
    ensures
        leaves.len() < 2 ==> next_focus(leaves, leaves[i], true) is None && next_focus(
            leaves,
            leaves[i],
            false,
        ) is None,
        leaves.len() >= 2 ==> next_focus(leaves, leaves[i], true) == Some(
            leaves[(i + 1) % (leaves.len() as int)],
        ),
        leaves.len() >= 2 ==> next_focus(leaves, leaves[(i + 1) % (leaves.len() as int)], false)
            == Some(leaves[i]),
{
    let n = leaves.len() as int;
    lemma_first_index(leaves, i);
    let next = (i + 1) % n;
    if i + 1 == n {
        assert(next == 0) by (nonlinear_arith)
            requires
                next == (i + 1) % n,
                i + 1 == n,
                n > 0,
        ;
    } else {
        assert(next == i + 1) by (nonlinear_arith)
            requires
                next == (i + 1) % n,
                0 <= i + 1 < n,
        ;
    }
    lemma_first_index(leaves, next);
}

proof fn lemma_first_index(leaves: Seq<PaneId>, i: int)
    requires
        leaves.no_duplicates(),
        0 <= i < leaves.len(),
    ensures
        leaves.index_of_first(leaves[i]) == Some(i),
{
    leaves.index_of_first_ensures(leaves[i]);
    if let Some(k) = leaves.index_of_first(leaves[i]) {
        assert(leaves[k] == leaves[i]);
    }
}

/// A pane that was made stands beside the others and is active; one that could not be made,
/// or has no place, changes nothing.
pub proof fn made_pane_is_active(
    book: BookView,
    id: PaneId,
    made: Result<(), Seq<char>>,
    split: Option<PaneLayout>,
    other: PaneId,
)
    ensures
        ({
            let (after, step) = created_step(book, id, made, split);
            &&& step is Added <==> made is Ok && split is Some
            &&& step is Dropped <==> made is Ok && split is None
            &&& step is Tell <==> made is Err
            &&& !(step is Added) ==> after == book
            &&& step is Added ==> {
                &&& after.active == id && after.last_active == book.active
                &&& Some(after.layout) == split
                &&& book.next_id < u64::MAX ==> after.next_id == book.next_id + 1
                &&& after.panes.contains(other) <==> book.panes.contains(other) || other == id
            }
        }),
{
    let all = book.panes.push(id);
    assert(all[book.panes.len() as int] == id);
    if book.panes.contains(other) {
        let k = choose|k: int| 0 <= k < book.panes.len() && book.panes[k] == other;
        assert(all[k] == other);
    }
    if all.contains(other) {
        let k = choose|k: int| 0 <= k < all.len() && all[k] == other;
        if k < book.panes.len() {
            assert(book.panes[k] == other);
        }
    }
}

/// A window that is cut down to the panes that there are keeps just these, in their order,
/// and is gone where there are none of them; how what is left was split stays.
pub proof fn window_keeps_the_panes_there_are(
    layout: PaneLayout,
    available: Seq<PaneId>,
    pane: PaneId,
)
    ensures
        retained(layout, available) is Some <==> exists|i: int|
            0 <= i < leaves_of(layout).len() && available.contains(
                #[trigger] leaves_of(layout)[i],
            ),
        retained(layout, available) matches Some(left) ==> (leaves_of(left).contains(pane)
            <==> leaves_of(layout).contains(pane) && available.contains(pane)),
    decreases layout,
{
    match layout {
        PaneLayout::Leaf(id) => {
            assert(leaves_of(layout)[0] == id);
            assert(leaves_of(layout).contains(pane) <==> pane == id);
        },
        PaneLayout::Split { direction, ratio, first, second } => {
            window_keeps_the_panes_there_are(*first, available, pane);
            window_keeps_the_panes_there_are(*second, available, pane);
            let a = leaves_of(*first);
            let b = leaves_of(*second);
            let all = leaves_of(layout);
            assert(all == a + b);
            lemma_in_both(a, b, pane);
            if exists|i: int| 0 <= i < a.len() && available.contains(#[trigger] a[i]) {
                let i = choose|i: int| 0 <= i < a.len() && available.contains(#[trigger] a[i]);
                assert(all[i] == a[i]);
            }
            if exists|i: int| 0 <= i < b.len() && available.contains(#[trigger] b[i]) {
                let i = choose|i: int| 0 <= i < b.len() && available.contains(#[trigger] b[i]);
                assert(all[a.len() + i] == b[i]);
            }
            if exists|i: int| 0 <= i < all.len() && available.contains(#[trigger] all[i]) {
                let i = choose|i: int| 0 <= i < all.len() && available.contains(#[trigger] all[i]);
                if i < a.len() {
                    assert(a[i] == all[i]);
                } else {
                    assert(b[i - a.len()] == all[i]);
                }
            }
            if a.contains(pane) {
                let i = choose|i: int| 0 <= i < a.len() && a[i] == pane;
                assert(available.contains(pane) ==> available.contains(a[i]));
            }
            if b.contains(pane) {
                let i = choose|i: int| 0 <= i < b.len() && b[i] == pane;
                assert(available.contains(pane) ==> available.contains(b[i]));
            }
            if let (Some(x), Some(y)) = (retained(*first, available), retained(*second, available)) {
                lemma_in_both(leaves_of(x), leaves_of(y), pane);
                assert(leaves_of(retained(layout, available)->Some_0) == leaves_of(x) + leaves_of(
                    y,
                ));
            }
        },
    }
}

proof fn lemma_in_both(a: Seq<PaneId>, b: Seq<PaneId>, pane: PaneId)
    ensures
        (a + b).contains(pane) <==> a.contains(pane) || b.contains(pane),
{
    let all = a + b;
    if a.contains(pane) {
        let k = choose|k: int| 0 <= k < a.len() && a[k] == pane;
        assert(all[k] == pane);
    }
    if b.contains(pane) {
        let k = choose|k: int| 0 <= k < b.len() && b[k] == pane;
        assert(all[a.len() + k] == pane);
    }
    if all.contains(pane) {
        let k = choose|k: int| 0 <= k < all.len() && all[k] == pane;
        if k < a.len() {
            assert(a[k] == pane);
        } else {
            assert(b[k - a.len()] == pane);
        }
    }
}

} // verus!
