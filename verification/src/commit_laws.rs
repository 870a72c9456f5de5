//! What a request to save or undo is answered, and what the end of a worker brings.

use vstd::prelude::*;

use crate::baseline::{find_entry, lemma_find_nothing, lemma_found_entry, BaselineView, EntryView};
use crate::fs_path::FsPathView;
use crate::grammar::EntryId;
use crate::listing::shown_lines;
use crate::options::{ScanOptions, SortKey};
use crate::plan::{FsOperation, ValidateErrorView};
use crate::report::OpResult;
use crate::save_flow::{
    apply_finished_step, change_root_step, change_sort_step, choice_step, commit_step,
    external_step, hidden_toggled, reconciled, rejections, rescan_step, some_ready, sorted_by,
    undo_finished_step, undo_step, ConfirmChoice, ExternalView, PipelineView, PlannedView,
    ReconcileView, SaveView, ScanView,
};
use crate::save_result::{CancelToken, SaveFlowView};
use crate::save_state::{applying, SaveStateView};
use crate::tree::EntryKind;
use crate::undo::{UndoStep, UndoStepStatusView, UndoTransactionView};

verus! {

/// Whether the tree, its folds and the way it is read are the same.
pub open spec fn same_tree(a: SaveView, b: SaveView) -> bool {
    a.root == b.root && a.baseline == b.baseline && a.collapsed == b.collapsed && a.scan_options
        == b.scan_options
}

/// A buffer with errors is answered with just these errors, in their order, whatever
/// operations could be planned for it: lines that describe no tree, a tree that is not
/// allowed, a tree that no operations lead to.
pub proof fn errors_are_shown_and_nothing_is_planned(
    before: SaveView,
    changedtick: u64,
    errors: Seq<ValidateErrorView>,
    planned: Result<PlannedView, Seq<ValidateErrorView>>,
    unplanned: Seq<ValidateErrorView>,
)
    requires
        before.state is Idle,
    ensures
        errors.len() > 0 ==> commit_step(
            before,
            changedtick,
            PipelineView::Parsed { errors, planned },
        ).1 == SaveFlowView::ShowValidationErrors(errors),
        errors.len() > 0 ==> commit_step(
            before,
            changedtick,
            PipelineView::Parsed { errors, planned },
        ).0.state is Idle,
        commit_step(before, changedtick, PipelineView::Unparsed(errors)).1
            == SaveFlowView::ShowValidationErrors(errors),
        commit_step(before, changedtick, PipelineView::Unparsed(errors)).0.state is Idle,
        errors.len() == 0 ==> commit_step(
            before,
            changedtick,
            PipelineView::Parsed { errors, planned: Err(unplanned) },
        ).1 == SaveFlowView::ShowValidationErrors(unplanned),
        errors.len() == 0 ==> commit_step(
            before,
            changedtick,
            PipelineView::Parsed { errors, planned: Err(unplanned) },
        ).0.state is Idle,
{
}

/// Where directories stand in the way of a plan, each of them is told, in order, and
/// the plan is not shown.
pub proof fn directories_in_the_way_are_told(
    before: SaveView,
    changedtick: u64,
    errors: Seq<ValidateErrorView>,
    planned: PlannedView,
)
    requires
        before.state is Idle,
        errors.len() == 0,
        planned.blocked.len() > 0,
    ensures
        commit_step(before, changedtick, PipelineView::Parsed { errors, planned: Ok(planned) }).1
            matches SaveFlowView::ShowValidationErrors(told) && told.len()
            == planned.blocked.len() && (forall|i: int|
            0 <= i < told.len() ==> #[trigger] told[i]
                == (ValidateErrorView::TargetOccupiedByDirectory { path: planned.blocked[i] })),
        commit_step(
            before,
            changedtick,
            PipelineView::Parsed { errors, planned: Ok(planned) },
        ).0.state is Idle,
{
}

/// Where nothing stands against it a plan is shown as it is, with the place of each thing
/// that it overwrites, and waits for a user's word; a plan without operations is not.
pub proof fn free_plan_is_shown(
    before: SaveView,
    changedtick: u64,
    errors: Seq<ValidateErrorView>,
    planned: PlannedView,
)
    requires
        before.state is Idle,
        errors.len() == 0,
        planned.blocked.len() == 0,
    ensures
        ({
            let (after, answer) = commit_step(
                before,
                changedtick,
                PipelineView::Parsed { errors, planned: Ok(planned) },
            );
            if planned.plan.len() == 0 {
                answer == SaveFlowView::NoChanges && after.state is Idle
            } else {
                &&& answer matches SaveFlowView::ShowPlan { plan, overwrites, .. }
                &&& plan == planned.plan
                &&& overwrites.len() == planned.overwrites.len()
                &&& forall|i: int|
                    0 <= i < overwrites.len() ==> #[trigger] overwrites[i]
                        == planned.overwrites[i].path
                &&& after.state == (SaveStateView::AwaitingConfirmation {
                    changedtick,
                    plan: planned.plan,
                    overwrites,
                })
            }
        }),
{
}

/// Until a user has approved it, a request to save or undo leaves the tree as it is; the
/// editor is told that the buffer is locked, and where no answer is waited for, that it
/// can be edited again.
pub proof fn requests_touch_nothing(
    before: SaveView,
    changedtick: u64,
    pipeline: PipelineView,
    transaction: UndoTransactionView,
    statuses: Seq<UndoStepStatusView>,
    choice: ConfirmChoice,
    token: CancelToken,
)
    ensures
        same_tree(commit_step(before, changedtick, pipeline).0, before),
        same_tree(undo_step(before, transaction, statuses).0, before),
        same_tree(choice_step(before, choice, token).0, before),
        before.state is Idle ==> commit_step(before, changedtick, pipeline).0.commands
            == before.commands + (if commit_step(before, changedtick, pipeline).1 is ShowPlan {
            seq![false]
        } else {
            seq![false, true]
        }),
        before.state is Idle ==> undo_step(before, transaction, statuses).0.commands
            == before.commands + (if undo_step(before, transaction, statuses).1 is ShowUndoPlan {
            seq![false]
        } else {
            Seq::empty()
        }),
        choice_step(before, choice, token).0.commands == before.commands + (if choice_step(
            before,
            choice,
            token,
        ).1 is Cancelled || choice_step(before, choice, token).1 is UndoCancelled {
            seq![true]
        } else {
            Seq::empty()
        }),
{
    let told = before.commands.push(false);
    assert(told.push(true) =~= before.commands + seq![false, true]);
    assert(told =~= before.commands + seq![false]);
    assert(before.commands + Seq::<bool>::empty() =~= before.commands);
    assert(before.commands.push(true) =~= before.commands + seq![true]);
}

/// An undo is asked about as soon as one step can be undone, with what stands against
/// each step; where none can, nothing waits and the reason of every step is told.
pub proof fn undo_is_asked_about_where_a_step_is_ready(
    before: SaveView,
    transaction: UndoTransactionView,
    statuses: Seq<UndoStepStatusView>,
)
    requires
        before.state is Idle,
    ensures
        (exists|i: int| 0 <= i < statuses.len() && #[trigger] statuses[i] is Ready) <==> undo_step(
            before,
            transaction,
            statuses,
        ).1 is ShowUndoPlan,
        (exists|i: int| 0 <= i < statuses.len() && #[trigger] statuses[i] is Ready) ==> undo_step(
            before,
            transaction,
            statuses,
        ).1 == (SaveFlowView::ShowUndoPlan { transaction, statuses }) && undo_step(
            before,
            transaction,
            statuses,
        ).0.state == (SaveStateView::AwaitingUndoConfirmation { transaction }),
        (forall|i: int| 0 <= i < statuses.len() ==> #[trigger] statuses[i] is Rejected) ==> {
            &&& undo_step(before, transaction, statuses).0 == before
            &&& undo_step(
                before,
                transaction,
                statuses,
            ).1 matches SaveFlowView::UndoNothingLeft { reasons }
            &&& statuses.len() > 0 ==> reasons.len() == statuses.len()
            &&& statuses.len() == 0 ==> reasons.len() == 1
            &&& forall|i: int|
                0 <= i < statuses.len() ==> #[trigger] reasons[i]
                    == statuses[i]->Rejected_reason
        },
{
    if forall|i: int| 0 <= i < statuses.len() ==> #[trigger] statuses[i] is Rejected {
        lemma_all_rejected(statuses);
    }
    if exists|i: int| 0 <= i < statuses.len() && #[trigger] statuses[i] is Ready {
        assert(some_ready(statuses));
    } else {
        assert(!some_ready(statuses));
    }
}

/// Where every step is rejected, there are as many reasons as steps.
proof fn lemma_all_rejected(statuses: Seq<UndoStepStatusView>)
    requires
        forall|i: int| 0 <= i < statuses.len() ==> #[trigger] statuses[i] is Rejected,
    ensures
        rejections(statuses).len() == statuses.len(),
        forall|i: int|
            0 <= i < statuses.len() ==> #[trigger] rejections(statuses)[i]
                == statuses[i]->Rejected_reason,
    decreases statuses.len(),
{
    if statuses.len() > 0 {
        lemma_all_rejected(statuses.drop_last());
        assert(statuses.last() is Rejected);
    }
}

/// A user's word counts just where it is waited for, or stops a worker: an approved worker
/// gets what was asked about and the new token, one that is stopped keeps its work and its
/// token, and any other word changes nothing.
pub proof fn words_count_where_they_are_waited_for(
    before: SaveView,
    choice: ConfirmChoice,
    token: CancelToken,
)
    ensures
        ({
            let (after, answer) = choice_step(before, choice, token);
            match (before.state, choice) {
                (
                    SaveStateView::AwaitingConfirmation { plan, overwrites, .. },
                    ConfirmChoice::Approve,
                ) => {
                    &&& after.state == (SaveStateView::Applying {
                        plan,
                        cancel: token,
                        cancelled: false,
                    })
                    &&& answer matches SaveFlowView::StartApply {
                        plan: given,
                        overwrites: allowed,
                        cancel,
                    }
                    &&& given == plan && cancel == token
                    &&& forall|path: Seq<Seq<char>>|
                        #[trigger] allowed.contains(path) <==> overwrites.contains(path)
                },
                (
                    SaveStateView::AwaitingUndoConfirmation { transaction },
                    ConfirmChoice::Approve,
                ) => {
                    &&& after.state == (SaveStateView::ApplyingUndo {
                        transaction,
                        cancel: token,
                        cancelled: false,
                    })
                    &&& answer == (SaveFlowView::StartUndo { transaction, cancel: token })
                },
                (SaveStateView::AwaitingConfirmation { .. }, ConfirmChoice::Cancel) => after.state
                    is Idle && answer == SaveFlowView::Cancelled,
                (
                    SaveStateView::AwaitingUndoConfirmation { transaction },
                    ConfirmChoice::Cancel,
                ) => after.state is Idle && answer == (SaveFlowView::UndoCancelled {
                    transaction,
                }),
                (SaveStateView::Applying { plan, cancel, .. }, ConfirmChoice::Cancel) => {
                    &&& after.state == (SaveStateView::Applying { plan, cancel, cancelled: true })
                    &&& answer == SaveFlowView::ApplyCancelRequested
                },
                (
                    SaveStateView::ApplyingUndo { transaction, cancel, .. },
                    ConfirmChoice::Cancel,
                ) => {
                    &&& after.state == (SaveStateView::ApplyingUndo {
                        transaction,
                        cancel,
                        cancelled: true,
                    })
                    &&& answer == SaveFlowView::ApplyCancelRequested
                },
                _ => after == before && answer == SaveFlowView::Ignored,
            }
        }),
{
    if let SaveStateView::AwaitingConfirmation { overwrites, .. } = before.state {
        assert forall|path: Seq<Seq<char>>| #[trigger]
            overwrites.to_set().contains(path) <==> overwrites.contains(path) by {}
    }
}

/// Once a plan is done, its report names every operation with what came of it, in order.
/// Where one of them succeeded, the tree that was read again is shown; where it could not
/// be had, that is told and nothing else begins; where none succeeded, the tree stays.
pub proof fn finished_plan_is_reported(
    before: SaveView,
    results: Seq<OpResult<FsOperation>>,
    outcome: ReconcileView,
)
    requires
        before.state is Applying,
    ensures
        ({
            let (after, answer) = apply_finished_step(before, results, outcome);
            let succeeded = exists|i: int|
                0 <= i < results.len() && (#[trigger] results[i]).outcome is Success;
            let report = match answer {
                SaveFlowView::ShowReport(report) => report,
                SaveFlowView::ReconcileFailed { report, .. } => report,
                _ => Seq::empty(),
            };
            &&& report.len() == results.len()
            &&& forall|i: int|
                0 <= i < report.len() ==> #[trigger] report[i] == (
                    results[i].op@,
                    results[i].outcome@,
                )
            &&& answer is ReconcileFailed <==> succeeded && !(outcome is Done)
            &&& answer is ShowReport <==> !succeeded || outcome is Done
            &&& after.root == before.root && after.scan_options == before.scan_options
            &&& succeeded && outcome is Done ==> after.state is Idle && after.baseline
                == outcome->Done_0.baseline && after.collapsed == outcome->Done_0.collapsed
            &&& !succeeded ==> after.state is Idle && same_tree(after, before)
            &&& succeeded && !(outcome is Done) ==> after.state is Reconciling && same_tree(
                after,
                before,
            )
            &&& after.commands == before.commands + (if after.state is Idle {
                seq![true]
            } else {
                Seq::empty()
            })
        }),
{
    assert(before.commands.push(true) =~= before.commands + seq![true]);
    assert(before.commands + Seq::<bool>::empty() =~= before.commands);
}

/// Once an undo is done, its report names every step with what came of it, in order, and
/// the tree is shown as after a plan.
pub proof fn finished_undo_is_reported(
    before: SaveView,
    results: Seq<OpResult<UndoStep>>,
    outcome: ReconcileView,
)
    requires
        before.state is ApplyingUndo,
    ensures
        ({
            let (after, answer) = undo_finished_step(before, results, outcome);
            let succeeded = exists|i: int|
                0 <= i < results.len() && (#[trigger] results[i]).outcome is Success;
            &&& answer matches SaveFlowView::ShowUndoReport(report)
            &&& report.len() == results.len()
            &&& forall|i: int|
                0 <= i < report.len() ==> #[trigger] report[i] == (
                    results[i].op@,
                    results[i].outcome@,
                )
            &&& succeeded && outcome is Done ==> after.state is Idle && after.baseline
                == outcome->Done_0.baseline && after.collapsed == outcome->Done_0.collapsed
            &&& !succeeded ==> after.state is Idle && same_tree(after, before)
            &&& succeeded && !(outcome is Done) ==> after.state is Reconciling && same_tree(
                after,
                before,
            )
        }),
{
}

/// The end of a worker that nobody waits for changes nothing.
pub proof fn unknown_workers_are_ignored(
    before: SaveView,
    results: Seq<OpResult<FsOperation>>,
    undo_results: Seq<OpResult<UndoStep>>,
    outcome: ReconcileView,
)
    ensures
        !(before.state is Applying) ==> apply_finished_step(before, results, outcome) == (
            before,
            SaveFlowView::Ignored,
        ),
        !(before.state is ApplyingUndo) ==> undo_finished_step(before, undo_results, outcome) == (
            before,
            SaveFlowView::Ignored,
        ),
{
}

/// A tree that changed from outside is shown where nothing waits for a user's word and the
/// buffer was not edited: its entries and its lines replace those of before. A tree that
/// could not be read changes nothing.
pub proof fn outside_changes_are_shown(
    before: SaveView,
    scan: ScanView,
    same_root: bool,
    dirty: bool,
)
    ensures
        ({
            let (after, answer) = external_step(before, scan, same_root, dirty);
            match scan {
                ScanView::Scanned(baseline) => {
                    let differs = !same_root || baseline.entries != before.baseline.entries;
                    let waits = before.state is AwaitingConfirmation || before.state
                        is AwaitingUndoConfirmation;
                    &&& answer is Send <==> differs && !waits && !dirty
                    &&& answer matches ExternalView::Send(fresh) ==> after == before
                        && fresh.baseline == baseline
                    &&& differs && !waits && dirty ==> after == before && (answer
                        matches ExternalView::Done(SaveFlowView::ExternalChangeNotified(_)))
                    &&& differs && before.state is AwaitingConfirmation ==> after.state is Idle
                        && same_tree(after, before) && after.commands == before.commands.push(true)
                        && (answer matches ExternalView::Done(SaveFlowView::PlanInvalidated(_)))
                    &&& differs && before.state is AwaitingUndoConfirmation ==> after.state is Idle
                        && same_tree(after, before) && after.commands == before.commands.push(true)
                    &&& !differs ==> after.baseline == baseline && after.state == before.state
                        && after.collapsed == before.collapsed && answer == ExternalView::Done(
                        SaveFlowView::NoChanges,
                    )
                },
                _ => after == before && (answer matches ExternalView::Done(
                    SaveFlowView::ExternalChangeFailed(_),
                )),
            }
        }),
{
}

/// A tree that was read again is shown with a directory folded just where it was folded
/// before or where it is new, and the lines are those of the tree with these folds.
pub proof fn read_tree_keeps_its_folds(before: SaveView, baseline: BaselineView, id: u64)
    ensures
        reconciled(before, baseline).baseline == baseline,
        reconciled(before, baseline).lines == shown_lines(
            baseline.entries,
            reconciled(before, baseline).collapsed,
        ),
        reconciled(before, baseline).collapsed.contains(id) <==> exists|i: int|
            0 <= i < baseline.entries.len() && (#[trigger] baseline.entries[i]).id.0 == id
                && baseline.entries[i].kind == EntryKind::Dir && (
            before.collapsed.contains(id) || forall|k: int|
                0 <= k < before.baseline.entries.len() ==> (
                #[trigger] before.baseline.entries[k]).id.0 != id),
{
    let old = before.baseline.entries;
    let key = EntryId(id);
    lemma_found_entry(old, key);
    if forall|k: int| 0 <= k < old.len() ==> (#[trigger] old[k]).id.0 != id {
        lemma_find_nothing(old, key);
    } else {
        let k = choose|k: int| 0 <= k < old.len() && (#[trigger] old[k]).id.0 == id;
        assert(old[k].id == key);
        lemma_something_is_found(old, k);
    }
    let folds = reconciled(before, baseline).collapsed;
    if folds.contains(id) {
        let i = choose|i: int|
            0 <= i < baseline.entries.len() && (#[trigger] baseline.entries[i]).id.0 == id
                && baseline.entries[i].kind == EntryKind::Dir && (
            before.collapsed.contains(id) || find_entry(
                old,
                baseline.entries[i].id,
            ) is None);
        assert(baseline.entries[i].id == key);
    }
    if exists|i: int|
        0 <= i < baseline.entries.len() && (#[trigger] baseline.entries[i]).id.0 == id
            && baseline.entries[i].kind == EntryKind::Dir && (
        before.collapsed.contains(id) || forall|k: int|
            0 <= k < old.len() ==> (#[trigger] old[k]).id.0 != id) {
        let i = choose|i: int|
            0 <= i < baseline.entries.len() && (#[trigger] baseline.entries[i]).id.0 == id
                && baseline.entries[i].kind == EntryKind::Dir && (
            before.collapsed.contains(id) || forall|k: int|
                0 <= k < old.len() ==> (#[trigger] old[k]).id.0 != id);
        assert(baseline.entries[i].id == key);
        assert(folds.contains(id));
    }
}

/// Under a number that an entry has something is found.
proof fn lemma_something_is_found(entries: Seq<EntryView>, k: int)
    requires
        0 <= k < entries.len(),
    ensures
        find_entry(entries, entries[k].id) is Some,
    decreases entries.len(),
{
    if k > 0 {
        assert(entries.drop_first()[k - 1] == entries[k]);
        lemma_something_is_found(entries.drop_first(), k - 1);
    }
}

/// A wish for another view of the tree that is granted brings the tree as it was read in
/// that way; one that is not changes nothing.
pub proof fn other_view_is_the_one_wished_for(
    before: SaveView,
    options: ScanOptions,
    scan: ScanView,
    busy: Seq<char>,
    failed: Seq<char>,
)
    ensures
        ({
            let (after, answer) = rescan_step(before, options, scan, busy, failed);
            &&& answer is Ok <==> before.state is Idle && scan is Scanned
            &&& answer is Err ==> after == before
            &&& answer matches Ok(lines) ==> {
                &&& after.scan_options == options
                &&& after.baseline == scan->Scanned_0
                &&& after.state is Idle && after.root == before.root && after.commands
                    == before.commands
                &&& lines == shown_lines(after.baseline.entries, after.collapsed)
            }
        }),
{
}

/// Showing hidden files or not changes nothing else about how the tree is read, and
/// neither does another order; in the order that the tree has it is not read again.
pub proof fn other_orders_and_hidden_files(
    before: SaveView,
    key: SortKey,
    reverse: bool,
    scan: ScanView,
)
    ensures
        hidden_toggled(before.scan_options).show_hidden == !before.scan_options.show_hidden,
        hidden_toggled(before.scan_options).sort == before.scan_options.sort,
        hidden_toggled(before.scan_options).key == before.scan_options.key,
        hidden_toggled(before.scan_options).reverse == before.scan_options.reverse,
        sorted_by(before.scan_options, key, reverse).key == key,
        sorted_by(before.scan_options, key, reverse).reverse == reverse,
        sorted_by(before.scan_options, key, reverse).sort == before.scan_options.sort,
        sorted_by(before.scan_options, key, reverse).show_hidden
            == before.scan_options.show_hidden,
        ({
            let (after, answer) = change_sort_step(before, key, reverse, scan);
            let as_it_is = before.scan_options.key == key && before.scan_options.reverse == reverse;
            &&& before.state is Idle && as_it_is ==> after == before && answer == Ok::<
                Seq<Seq<char>>,
                Seq<char>,
            >(shown_lines(before.baseline.entries, before.collapsed))
            &&& before.state is Idle && !as_it_is ==> (answer is Ok <==> scan is Scanned)
            &&& answer is Ok ==> after.scan_options.key == key && after.scan_options.reverse
                == reverse && before.state is Idle
            &&& answer is Err ==> after == before
            &&& answer matches Ok(lines) ==> lines == shown_lines(
                after.baseline.entries,
                after.collapsed,
            )
            &&& answer is Ok && !as_it_is ==> after.baseline == scan->Scanned_0
        }),
{
}

/// Another root is taken just where nothing is going on and it is the root of the tree;
/// then it is shown with nothing folded away, and else nothing changes.
pub proof fn other_root_is_shown_unfolded(
    before: SaveView,
    root: FsPathView,
    baseline: BaselineView,
    roots_match: bool,
)
    ensures
        ({
            let (after, answer) = change_root_step(before, root, baseline, roots_match);
            &&& answer is Ok <==> before.state is Idle && roots_match
            &&& answer is Err ==> after == before
            &&& answer is Ok ==> after.root == root && after.baseline == baseline
                && after.scan_options == before.scan_options && after.state is Idle
                && after.commands == before.commands && forall|id: u64|
                !#[trigger] after.collapsed.contains(id)
        }),
{
}

/// A pane is at work from a user's approval until the worker is done.
pub proof fn approval_begins_the_work(before: SaveView, choice: ConfirmChoice, token: CancelToken)
    ensures
        choice_step(before, choice, token).1 is StartApply || choice_step(
            before,
            choice,
            token,
        ).1 is StartUndo ==> applying(choice_step(before, choice, token).0.state),
        before.state is Idle || before.state is AwaitingConfirmation || before.state
            is AwaitingUndoConfirmation ==> !applying(before.state),
{
}

} // verus!
