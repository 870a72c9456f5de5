//! What holds of saving and undoing over several steps.

use vstd::prelude::*;

use crate::baseline::{
    find_entry, ids_differ, lemma_found_entry, walked, BaselineView, EntryView,
};
use crate::folding::{
    dirs_above, toggled_entry_stays_on_its_line, toggling_twice_changes_nothing,
    unfolding_above_shows, FoldOp,
};
use crate::fs_path::FsPathView;
use crate::grammar::EntryId;
use crate::listing::{
    entry_at, position_of, shown, shown_lines, shown_lines_name_their_entries,
};
use crate::options::ScanOptions;
use crate::plan::FsOperation;
use crate::report::{some_succeeded, OpResult};
use crate::save_flow::{
    apply_finished_step, change_root_step, choice_step, commit_step, external_step, fold_step,
    hidden_toggled, rescan_step, reveal_step, toggle_step, undo_finished_step, undo_step,
    ConfirmChoice, ExternalView, PipelineView, ReconcileView, RevealView, SaveView, ScanView,
    ToggleView,
};
use crate::save_result::{CancelToken, SaveFlowView};
use crate::save_state::{applying, SaveStateView};
use crate::undo::{UndoStep, UndoStepStatusView, UndoTransactionView};

verus! {

/// Whether the buffer can be edited once the editor was told everything, where
/// `start` says whether it could be before.
pub open spec fn editable(view: SaveView, start: bool) -> bool {
    if view.commands.len() == 0 {
        start
    } else {
        view.commands.last()
    }
}

/// Whether the buffer can be edited just where nothing is going on.
pub open spec fn locked_while_busy(view: SaveView, start: bool) -> bool {
    editable(view, start) == (view.state is Idle)
}

/// Whatever comes next, the buffer can be edited just where nothing is going on.
pub proof fn buffer_is_locked_while_busy(
    before: SaveView,
    start: bool,
    changedtick: u64,
    pipeline: PipelineView,
    transaction: UndoTransactionView,
    statuses: Seq<UndoStepStatusView>,
    choice: ConfirmChoice,
    token: CancelToken,
    results: Seq<OpResult<FsOperation>>,
    undo_results: Seq<OpResult<UndoStep>>,
    outcome: ReconcileView,
    scan: ScanView,
    same_root: bool,
    dirty: bool,
)
    requires
        locked_while_busy(before, start),
    ensures
        locked_while_busy(commit_step(before, changedtick, pipeline).0, start),
        locked_while_busy(undo_step(before, transaction, statuses).0, start),
        locked_while_busy(choice_step(before, choice, token).0, start),
        locked_while_busy(apply_finished_step(before, results, outcome).0, start),
        locked_while_busy(undo_finished_step(before, undo_results, outcome).0, start),
        locked_while_busy(external_step(before, scan, same_root, dirty).0, start),
{
}

/// While something is going on, no other wish is granted and nothing changes.
pub proof fn nothing_else_while_busy(
    before: SaveView,
    changedtick: u64,
    pipeline: PipelineView,
    transaction: UndoTransactionView,
    statuses: Seq<UndoStepStatusView>,
    lines: Seq<Seq<char>>,
    line: int,
    op: FoldOp,
    id: EntryId,
    options: ScanOptions,
    scan: ScanView,
    busy: Seq<char>,
    failed: Seq<char>,
    root: FsPathView,
    baseline: BaselineView,
    roots_match: bool,
)
    requires
        !(before.state is Idle),
    ensures
        commit_step(before, changedtick, pipeline) == (before, SaveFlowView::Ignored),
        undo_step(before, transaction, statuses) == (before, SaveFlowView::Ignored),
        toggle_step(before, lines, line).0 == before,
        !(toggle_step(before, lines, line).1 is Toggled),
        fold_step(before, lines, line, op).0 == before,
        !(fold_step(before, lines, line, op).1 is Applied),
        reveal_step(before, id) == (before, RevealView::Busy),
        rescan_step(before, options, scan, busy, failed).0 == before,
        rescan_step(before, options, scan, busy, failed).1 == Err::<Seq<Seq<char>>, Seq<char>>(
            busy,
        ),
        change_root_step(before, root, baseline, roots_match).0 == before,
        change_root_step(before, root, baseline, roots_match).1 is Err,
{
}

/// A worker is started by a user's approval alone.
pub proof fn only_approval_starts_a_worker(
    before: SaveView,
    changedtick: u64,
    pipeline: PipelineView,
    transaction: UndoTransactionView,
    statuses: Seq<UndoStepStatusView>,
    choice: ConfirmChoice,
    token: CancelToken,
    results: Seq<OpResult<FsOperation>>,
    undo_results: Seq<OpResult<UndoStep>>,
    outcome: ReconcileView,
    scan: ScanView,
    same_root: bool,
    dirty: bool,
)
    requires
        !applying(before.state),
    ensures
        !applying(commit_step(before, changedtick, pipeline).0.state),
        !applying(undo_step(before, transaction, statuses).0.state),
        applying(choice_step(before, choice, token).0.state) ==> choice is Approve && (
        before.state is AwaitingConfirmation || before.state is AwaitingUndoConfirmation),
        !applying(apply_finished_step(before, results, outcome).0.state),
        !applying(undo_finished_step(before, undo_results, outcome).0.state),
        !applying(external_step(before, scan, same_root, dirty).0.state),
{
}

/// The plan that is done is the plan that was shown, with leave to overwrite just
/// what was shown.
pub proof fn approved_plan_is_the_one_shown(
    before: SaveView,
    changedtick: u64,
    pipeline: PipelineView,
    token: CancelToken,
)
    requires
        commit_step(before, changedtick, pipeline).1 is ShowPlan,
    ensures
        choice_step(
            commit_step(before, changedtick, pipeline).0,
            ConfirmChoice::Approve,
            token,
        ).1 == (SaveFlowView::StartApply {
            plan: commit_step(before, changedtick, pipeline).1->ShowPlan_plan,
            overwrites: commit_step(
                before,
                changedtick,
                pipeline,
            ).1->ShowPlan_overwrites.to_set(),
            cancel: token,
        }),
{
}

/// A save that is declined leaves everything as it was, and the buffer can be
/// edited again.
pub proof fn declined_save_changes_nothing(
    before: SaveView,
    changedtick: u64,
    pipeline: PipelineView,
    token: CancelToken,
)
    requires
        commit_step(before, changedtick, pipeline).1 is ShowPlan,
    ensures
        choice_step(commit_step(before, changedtick, pipeline).0, ConfirmChoice::Cancel, token)
            == (before.telling(false).telling(true), SaveFlowView::Cancelled),
{
}

/// A save that is not shown to a user leaves everything as it was, and the buffer
/// can be edited again.
pub proof fn rejected_save_changes_nothing(
    before: SaveView,
    changedtick: u64,
    pipeline: PipelineView,
)
    requires
        before.state is Idle,
        !(commit_step(before, changedtick, pipeline).1 is ShowPlan),
    ensures
        commit_step(before, changedtick, pipeline).0 == before.telling(false).telling(true),
{
}

/// An undo that is declined gives the transaction back and leaves everything as
/// it was.
pub proof fn declined_undo_gives_the_transaction_back(
    before: SaveView,
    transaction: UndoTransactionView,
    statuses: Seq<UndoStepStatusView>,
    token: CancelToken,
)
    requires
        undo_step(before, transaction, statuses).1 is ShowUndoPlan,
    ensures
        choice_step(undo_step(before, transaction, statuses).0, ConfirmChoice::Cancel, token) == (
            before.telling(false).telling(true),
            SaveFlowView::UndoCancelled { transaction },
        ),
{
}

/// An undo that is approved undoes the transaction that was asked for.
pub proof fn approved_undo_is_the_one_asked_for(
    before: SaveView,
    transaction: UndoTransactionView,
    statuses: Seq<UndoStepStatusView>,
    token: CancelToken,
)
    requires
        undo_step(before, transaction, statuses).1 is ShowUndoPlan,
    ensures
        choice_step(
            undo_step(before, transaction, statuses).0,
            ConfirmChoice::Approve,
            token,
        ).1 == (SaveFlowView::StartUndo { transaction, cancel: token }),
{
}

/// When the tree changed while a plan or an undo waited for a user's word, that
/// word comes too late.
pub proof fn stale_plan_cannot_be_approved(
    before: SaveView,
    baseline: BaselineView,
    same_root: bool,
    dirty: bool,
    choice: ConfirmChoice,
    token: CancelToken,
)
    requires
        before.state is AwaitingConfirmation || before.state is AwaitingUndoConfirmation,
        !same_root || baseline.entries != before.baseline.entries,
    ensures
        choice_step(
            external_step(before, ScanView::Scanned(baseline), same_root, dirty).0,
            choice,
            token,
        ).1 == SaveFlowView::Ignored,
        before.state is AwaitingUndoConfirmation ==> (external_step(
            before,
            ScanView::Scanned(baseline),
            same_root,
            dirty,
        ).1 matches ExternalView::Done(SaveFlowView::UndoInvalidated { transaction, .. })
            && transaction == before.state->AwaitingUndoConfirmation_transaction),
{
}

/// News of a change that left the entries as they were does not disturb what is
/// going on.
pub proof fn same_entries_disturb_nothing(before: SaveView, baseline: BaselineView, dirty: bool)
    requires
        baseline.entries == before.baseline.entries,
    ensures
        external_step(before, ScanView::Scanned(baseline), true, dirty) == (
            SaveView { baseline, ..before },
            ExternalView::Done(SaveFlowView::NoChanges),
        ),
{
}

/// An edited buffer is not replaced when the tree changes from outside.
pub proof fn edited_buffer_is_kept(
    before: SaveView,
    scan: ScanView,
    same_root: bool,
)
    ensures
        !(external_step(before, scan, same_root, true).1 is Send),
        external_step(before, scan, same_root, true).0.collapsed == before.collapsed,
        external_step(before, scan, same_root, true).0.baseline.entries
            == before.baseline.entries,
{
}

/// Where no operation succeeded, the tree that is shown stays as it was.
pub proof fn failed_save_keeps_the_tree(
    before: SaveView,
    results: Seq<OpResult<FsOperation>>,
    outcome: ReconcileView,
)
    requires
        before.state is Applying,
        !some_succeeded(results),
    ensures
        apply_finished_step(before, results, outcome).0 == before.at(SaveStateView::Idle).telling(
            true,
        ),
        apply_finished_step(before, results, outcome).1 is ShowReport,
{
}

/// Folding and unfolding a directory gives the same lines again.
pub proof fn toggling_twice_shows_the_same(
    before: SaveView,
    lines: Seq<Seq<char>>,
    line: int,
    again: Seq<Seq<char>>,
    line_again: int,
)
    requires
        toggle_step(before, lines, line).1 is Toggled,
        entry_at(before.baseline.entries, lines, line) == entry_at(
            before.baseline.entries,
            again,
            line_again,
        ),
    ensures
        toggle_step(toggle_step(before, lines, line).0, again, line_again) == (
            before,
            ToggleView::Toggled(shown_lines(before.baseline.entries, before.collapsed)),
        ),
{
    let entry = entry_at(before.baseline.entries, lines, line)->Some_0;
    toggling_twice_changes_nothing(before.collapsed, entry.id);
}

/// A directory that is folded or unfolded in a buffer that was not edited stays on its
/// line, the lines above it stay as they are, and folding or unfolding the same line again
/// gives all the lines back.
pub proof fn toggled_directory_stays_on_its_line(before: SaveView, line: int)
    requires
        ids_differ(before.baseline.entries),
        toggle_step(
            before,
            shown_lines(before.baseline.entries, before.collapsed),
            line,
        ).1 is Toggled,
    ensures
        ({
            let entries = before.baseline.entries;
            let lines = shown_lines(entries, before.collapsed);
            let after = toggle_step(before, lines, line).0;
            let again = shown_lines(entries, after.collapsed);
            &&& entry_at(entries, again, line) == entry_at(entries, lines, line)
            &&& line < again.len()
            &&& forall|k: int| 0 <= k < line ==> #[trigger] again[k] == lines[k]
            &&& toggle_step(after, again, line) == (before, ToggleView::Toggled(lines))
        }),
{
    let entries = before.baseline.entries;
    let lines = shown_lines(entries, before.collapsed);
    let after = toggle_step(before, lines, line).0;
    let again = shown_lines(entries, after.collapsed);
    shown_lines_name_their_entries(entries, before.collapsed, line);
    toggled_entry_stays_on_its_line(entries, before.collapsed, line);
    assert(shown(entries, after.collapsed)[line] == shown(entries, before.collapsed)[line]);
    shown_lines_name_their_entries(entries, after.collapsed, line);
    assert forall|k: int| 0 <= k < line implies #[trigger] again[k] == lines[k] by {
        assert(shown(entries, after.collapsed)[k] == shown(entries, before.collapsed)[k]);
    }
    toggling_twice_shows_the_same(before, lines, line, again, line);
}

/// In a tree that was walked, every entry can be shown.
pub proof fn every_entry_can_be_shown(before: SaveView, id: EntryId)
    requires
        before.state is Idle,
        walked(before.baseline.entries),
        ids_differ(before.baseline.entries),
        find_entry(before.baseline.entries, id) is Some,
    ensures
        position_of(
            shown(before.baseline.entries, reveal_step(before, id).0.collapsed),
            id,
        ) is Some,
        !(reveal_step(before, id).1 is NotFound),
{
    let entries = before.baseline.entries;
    lemma_found_entry(entries, id);
    let entry = find_entry(entries, id)->Some_0;
    let i = choose|i: int| 0 <= i < entries.len() && entries[i] == entry;
    unfolding_above_shows(entries, before.collapsed, i);
    let collapsed = before.collapsed.difference(dirs_above(entries, entry.path));
    lemma_position(shown(entries, collapsed), entry);
}

/// An entry in a list has a position.
proof fn lemma_position(entries: Seq<EntryView>, entry: EntryView)
    requires
        entries.contains(entry),
    ensures
        position_of(entries, entry.id) is Some,
    decreases entries.len(),
{
    let k = choose|k: int| 0 <= k < entries.len() && entries[k] == entry;
    if position_of(entries, entry.id) is None {
        if k > 0 {
            assert(entries.drop_first()[k - 1] == entry);
            lemma_position(entries.drop_first(), entry);
        }
    }
}

/// Hidden files are shown again as they were after two wishes that are granted.
pub proof fn hiding_twice_restores_the_option(options: ScanOptions)
    ensures
        hidden_toggled(hidden_toggled(options)) == options,
{
}

} // verus!
