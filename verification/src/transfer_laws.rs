//! What goes where when entries are moved, copied, taken in, extracted or dragged out.

use vstd::prelude::*;

use crate::baseline::EntryView;
use crate::drag_flow::{
    cleanup_choice, drag_outcome, drag_pane, drag_rejection, CleanupChoiceView, DragOutFlowView,
    DragOutStateView, DragOutcome,
};
use crate::extract_flow::{
    extract_choice, extract_finished, extract_rejection, ExtractFlowView, ExtractOp,
    ExtractStateView,
};
use crate::fs_path::FsPathView;
use crate::grammar::prefix_of;
use crate::import_flow::{
    import_choice, import_finished, import_rejection, ImportFlowView, ImportOp, ImportStateView,
};
use crate::listing::{entry_at, shown};
use crate::pane::PaneId;
use crate::report::OpResult;
use crate::save_flow::ConfirmChoice;
use crate::save_result::CancelToken;
use crate::transfer_flow::{
    awaits_with, covered, pointed_directory, selected_entries, selection, transfer_choice,
    transfer_finished, transfer_ops, transfer_plan, transfer_rejection, uncovered, SelectionError,
    TransferFlowView, TransferKind, TransferOp, TransferOpView, TransferPaneState,
    TransferStateView,
};
use crate::transfer_request::{
    cursor_directory, transfer_request_step, TransferRequestView, TransferSideView,
};
use crate::tree::{is_above, EntryKind};

verus! {

/// Whether an operation of a transfer is the one for an entry of a selection.
pub open spec fn op_for(
    op: TransferOpView,
    kind: TransferKind,
    destination: Seq<Seq<char>>,
    entry: (Seq<Seq<char>>, EntryKind),
) -> bool {
    &&& op.kind == kind
    &&& op.from == entry.0
    &&& op.entry_kind == entry.1
    &&& entry.0.len() > 0
    &&& op.to.len() == destination.len() + 1
    &&& op.to.drop_last() == destination
    &&& op.to.last() == entry.0.last()
}

/// Every operation of a transfer is of the kind that was asked for; it takes a selected
/// entry that stands below no other one to its own name in the directory that was pointed
/// at, from the root of the one pane to that of the other.
pub proof fn transfer_does_what_was_asked(
    kind: TransferKind,
    from_root: FsPathView,
    to_root: FsPathView,
    destination: Seq<Seq<char>>,
    selected: Seq<(Seq<Seq<char>>, EntryKind)>,
    i: int,
)
    requires
        0 <= i < transfer_plan(kind, from_root, to_root, destination, selected).ops.len(),
    ensures
        transfer_plan(kind, from_root, to_root, destination, selected).from_root == from_root,
        transfer_plan(kind, from_root, to_root, destination, selected).to_root == to_root,
        transfer_plan(kind, from_root, to_root, destination, selected).ops[i].kind == kind,
        exists|m: int|
            0 <= m < selected.len() && op_for(
                transfer_plan(kind, from_root, to_root, destination, selected).ops[i],
                kind,
                destination,
                #[trigger] selected[m],
            ) && forall|n: int|
                0 <= n < selected.len() && n != m ==> !is_above(
                    (#[trigger] selected[n]).0,
                    selected[m].0,
                ),
{
    let kept = uncovered(selected, selected.len() as int);
    let op = transfer_ops(kind, destination, kept)[i];
    lemma_op_for_an_entry(kind, destination, kept, i);
    let k = choose|k: int| 0 <= k < kept.len() && op_for(op, kind, destination, #[trigger] kept[k]);
    lemma_kept_is_selected(selected, selected.len() as int, k);
    let m = choose|m: int|
        0 <= m < selected.len() && #[trigger] selected[m] == kept[k] && !covered(selected, m);
    assert forall|n: int| 0 <= n < selected.len() && n != m implies !is_above(
        (#[trigger] selected[n]).0,
        selected[m].0,
    ) by {
        if is_above(selected[n].0, selected[m].0) {
            assert(covered(selected, m));
        }
    }
}

proof fn lemma_op_for_an_entry(
    kind: TransferKind,
    destination: Seq<Seq<char>>,
    entries: Seq<(Seq<Seq<char>>, EntryKind)>,
    i: int,
)
    requires
        0 <= i < transfer_ops(kind, destination, entries).len(),
    ensures
        exists|k: int|
            0 <= k < entries.len() && op_for(
                transfer_ops(kind, destination, entries)[i],
                kind,
                destination,
                #[trigger] entries[k],
            ),
    decreases entries.len(),
{
    let ops = transfer_ops(kind, destination, entries);
    let shorter = entries.drop_last();
    let before = transfer_ops(kind, destination, shorter);
    if i < before.len() {
        lemma_op_for_an_entry(kind, destination, shorter, i);
        let k = choose|k: int|
            0 <= k < shorter.len() && op_for(before[i], kind, destination, #[trigger] shorter[k]);
        assert(entries[k] == shorter[k]);
        assert(ops[i] == before[i]);
    } else {
        let k = entries.len() - 1;
        assert(destination.push(entries[k].0.last()).drop_last() =~= destination);
        assert(op_for(ops[i], kind, destination, entries[k]));
    }
}

proof fn lemma_kept_is_selected(selected: Seq<(Seq<Seq<char>>, EntryKind)>, n: int, k: int)
    requires
        0 <= n <= selected.len(),
        0 <= k < uncovered(selected, n).len(),
    ensures
        exists|m: int|
            0 <= m < selected.len() && #[trigger] selected[m] == uncovered(selected, n)[k]
                && !covered(selected, m),
    decreases n,
{
    let before = uncovered(selected, n - 1);
    if k < before.len() {
        lemma_kept_is_selected(selected, n - 1, k);
    } else {
        assert(selected[n - 1] == uncovered(selected, n)[k]);
    }
}

/// Every selected entry that has a name and stands below no other selected one is
/// transferred.
pub proof fn nothing_selected_is_left_behind(
    kind: TransferKind,
    from_root: FsPathView,
    to_root: FsPathView,
    destination: Seq<Seq<char>>,
    selected: Seq<(Seq<Seq<char>>, EntryKind)>,
    m: int,
)
    requires
        0 <= m < selected.len(),
        selected[m].0.len() > 0,
        forall|n: int|
            0 <= n < selected.len() && n != m ==> !is_above(
                (#[trigger] selected[n]).0,
                selected[m].0,
            ),
    ensures
        exists|i: int|
            0 <= i < transfer_plan(kind, from_root, to_root, destination, selected).ops.len()
                && op_for(
                #[trigger] transfer_plan(kind, from_root, to_root, destination, selected).ops[i],
                kind,
                destination,
                selected[m],
            ),
{
    assert(!covered(selected, m));
    lemma_kept(selected, selected.len() as int, m);
    let kept = uncovered(selected, selected.len() as int);
    let k = choose|k: int| 0 <= k < kept.len() && kept[k] == selected[m];
    lemma_op_of_an_entry(kind, destination, kept, k);
    let ops = transfer_ops(kind, destination, kept);
    let i = choose|i: int|
        0 <= i < ops.len() && op_for(#[trigger] ops[i], kind, destination, kept[k]);
    assert(op_for(
        transfer_plan(kind, from_root, to_root, destination, selected).ops[i],
        kind,
        destination,
        selected[m],
    ));
}

proof fn lemma_kept(selected: Seq<(Seq<Seq<char>>, EntryKind)>, n: int, m: int)
    requires
        0 <= m < n <= selected.len(),
        !covered(selected, m),
    ensures
        uncovered(selected, n).contains(selected[m]),
    decreases n,
{
    let all = uncovered(selected, n);
    if m == n - 1 {
        assert(all[all.len() - 1] == selected[m]);
    } else {
        lemma_kept(selected, n - 1, m);
        let before = uncovered(selected, n - 1);
        let k = choose|k: int| 0 <= k < before.len() && before[k] == selected[m];
        assert(all[k] == selected[m]);
    }
}

proof fn lemma_op_of_an_entry(
    kind: TransferKind,
    destination: Seq<Seq<char>>,
    entries: Seq<(Seq<Seq<char>>, EntryKind)>,
    k: int,
)
    requires
        0 <= k < entries.len(),
        entries[k].0.len() > 0,
    ensures
        exists|i: int|
            0 <= i < transfer_ops(kind, destination, entries).len() && op_for(
                #[trigger] transfer_ops(kind, destination, entries)[i],
                kind,
                destination,
                entries[k],
            ),
    decreases entries.len(),
{
    let ops = transfer_ops(kind, destination, entries);
    let shorter = entries.drop_last();
    let before = transfer_ops(kind, destination, shorter);
    if k < shorter.len() {
        lemma_op_of_an_entry(kind, destination, shorter, k);
        let i = choose|i: int|
            0 <= i < before.len() && op_for(#[trigger] before[i], kind, destination, shorter[k]);
        assert(ops[i] == before[i]);
    } else {
        assert(destination.push(entries[k].0.last()).drop_last() =~= destination);
        assert(op_for(ops[ops.len() - 1], kind, destination, entries[k]));
    }
}

/// A selection is taken just where there is one and every line of it names an entry; each
/// line brings its own entry, and nothing else comes along. Without repeated lines the
/// entries come in the order of the lines.
pub proof fn selection_is_what_the_lines_name(
    entries: Seq<EntryView>,
    lines: Seq<Seq<char>>,
    selected: Seq<usize>,
)
    ensures
        selection(entries, lines, selected) is Ok <==> selected.len() > 0 && forall|s: int|
            0 <= s < selected.len() ==> entry_at(
                entries,
                lines,
                #[trigger] selected[s] as int,
            ) is Some,
        selection(entries, lines, selected) matches Ok(found) ==> {
            &&& forall|s: int|
                0 <= s < selected.len() ==> exists|i: int|
                    0 <= i < found.len() && is_entry_of(
                        #[trigger] found[i],
                        entry_at(entries, lines, #[trigger] selected[s] as int),
                    )
            &&& forall|i: int|
                0 <= i < found.len() ==> exists|s: int|
                    0 <= s < selected.len() && is_entry_of(
                        #[trigger] found[i],
                        entry_at(entries, lines, #[trigger] selected[s] as int),
                    )
            &&& selected.no_duplicates() ==> found.len() == selected.len() && forall|s: int|
                0 <= s < selected.len() ==> is_entry_of(
                    found[s],
                    entry_at(entries, lines, #[trigger] selected[s] as int),
                )
        },
{
    lemma_selection_is_taken(entries, lines, selected);
    if let Ok(found) = selection(entries, lines, selected) {
        assert forall|s: int| 0 <= s < selected.len() implies exists|i: int|
            0 <= i < found.len() && is_entry_of(
                #[trigger] found[i],
                entry_at(entries, lines, #[trigger] selected[s] as int),
            ) by {
            lemma_line_brings_its_entry(entries, lines, selected, s);
        }
        assert forall|i: int| 0 <= i < found.len() implies exists|s: int|
            0 <= s < selected.len() && is_entry_of(
                #[trigger] found[i],
                entry_at(entries, lines, #[trigger] selected[s] as int),
            ) by {
            lemma_entry_comes_from_a_line(entries, lines, selected, i);
        }
        if selected.no_duplicates() {
            lemma_entries_in_order(entries, lines, selected);
        }
    }
}

/// Whether a place and a kind are those of an entry that was found.
pub open spec fn is_entry_of(
    picked: (Seq<Seq<char>>, EntryKind),
    entry: Option<EntryView>,
) -> bool {
    entry matches Some(entry) && picked.0 == entry.path && picked.1 == entry.kind
}

proof fn lemma_selection_is_taken(
    entries: Seq<EntryView>,
    lines: Seq<Seq<char>>,
    selected: Seq<usize>,
)
    ensures
        selected_entries(entries, lines, selected) is Ok <==> forall|s: int|
            0 <= s < selected.len() ==> entry_at(
                entries,
                lines,
                #[trigger] selected[s] as int,
            ) is Some,
        selected_entries(entries, lines, selected) matches Ok(found) ==> (found.len() == 0
            <==> selected.len() == 0),
    decreases selected.len(),
{
    if selected.len() > 0 {
        let shorter = selected.drop_last();
        let n = selected.len() - 1;
        lemma_selection_is_taken(entries, lines, shorter);
        assert forall|s: int| 0 <= s < n implies #[trigger] shorter[s] == selected[s] by {}
        if selected_entries(entries, lines, selected) is Ok {
            assert forall|s: int| 0 <= s < selected.len() implies entry_at(
                entries,
                lines,
                #[trigger] selected[s] as int,
            ) is Some by {
                if s < n {
                    assert(shorter[s] == selected[s]);
                } else if shorter.contains(selected[n]) {
                    let t = choose|t: int| 0 <= t < shorter.len() && shorter[t] == selected[n];
                    assert(entry_at(entries, lines, shorter[t] as int) is Some);
                }
            }
        } else if forall|s: int|
            0 <= s < selected.len() ==> entry_at(
                entries,
                lines,
                #[trigger] selected[s] as int,
            ) is Some {
            assert forall|s: int| 0 <= s < shorter.len() implies entry_at(
                entries,
                lines,
                #[trigger] shorter[s] as int,
            ) is Some by {
                assert(shorter[s] == selected[s]);
            }
            assert(entry_at(entries, lines, selected[n] as int) is Some);
        }
    }
}

proof fn lemma_line_brings_its_entry(
    entries: Seq<EntryView>,
    lines: Seq<Seq<char>>,
    selected: Seq<usize>,
    s: int,
)
    requires
        0 <= s < selected.len(),
        selected_entries(entries, lines, selected) is Ok,
    ensures
        exists|i: int|
            0 <= i < selected_entries(entries, lines, selected)->Ok_0.len() && is_entry_of(
                #[trigger] selected_entries(entries, lines, selected)->Ok_0[i],
                entry_at(entries, lines, selected[s] as int),
            ),
    decreases selected.len(),
{
    let shorter = selected.drop_last();
    let n = selected.len() - 1;
    let found = selected_entries(entries, lines, selected)->Ok_0;
    let before = selected_entries(entries, lines, shorter)->Ok_0;
    if s == n && !shorter.contains(selected[n]) {
        assert(is_entry_of(found[before.len() as int], entry_at(entries, lines, selected[s] as int)));
    } else {
        let t = if s < n {
            s
        } else {
            choose|t: int| 0 <= t < shorter.len() && shorter[t] == selected[n]
        };
        assert(shorter[t] == selected[s]);
        lemma_line_brings_its_entry(entries, lines, shorter, t);
        let i = choose|i: int|
            0 <= i < before.len() && is_entry_of(
                #[trigger] before[i],
                entry_at(entries, lines, shorter[t] as int),
            );
        assert(found[i] == before[i]);
    }
}

proof fn lemma_entry_comes_from_a_line(
    entries: Seq<EntryView>,
    lines: Seq<Seq<char>>,
    selected: Seq<usize>,
    i: int,
)
    requires
        selected_entries(entries, lines, selected) is Ok,
        0 <= i < selected_entries(entries, lines, selected)->Ok_0.len(),
    ensures
        exists|s: int|
            0 <= s < selected.len() && is_entry_of(
                selected_entries(entries, lines, selected)->Ok_0[i],
                entry_at(entries, lines, #[trigger] selected[s] as int),
            ),
    decreases selected.len(),
{
    let shorter = selected.drop_last();
    let n = selected.len() - 1;
    let found = selected_entries(entries, lines, selected)->Ok_0;
    let before = selected_entries(entries, lines, shorter)->Ok_0;
    if i < before.len() {
        lemma_entry_comes_from_a_line(entries, lines, shorter, i);
        let s = choose|s: int|
            0 <= s < shorter.len() && is_entry_of(
                before[i],
                entry_at(entries, lines, #[trigger] shorter[s] as int),
            );
        assert(selected[s] == shorter[s]);
        assert(found[i] == before[i]);
    } else {
        assert(is_entry_of(found[i], entry_at(entries, lines, selected[n] as int)));
    }
}

proof fn lemma_entries_in_order(
    entries: Seq<EntryView>,
    lines: Seq<Seq<char>>,
    selected: Seq<usize>,
)
    requires
        selected_entries(entries, lines, selected) is Ok,
        selected.no_duplicates(),
    ensures
        selected_entries(entries, lines, selected)->Ok_0.len() == selected.len(),
        forall|s: int|
            0 <= s < selected.len() ==> is_entry_of(
                selected_entries(entries, lines, selected)->Ok_0[s],
                entry_at(entries, lines, #[trigger] selected[s] as int),
            ),
    decreases selected.len(),
{
    if selected.len() > 0 {
        let shorter = selected.drop_last();
        let n = selected.len() - 1;
        let found = selected_entries(entries, lines, selected)->Ok_0;
        let before = selected_entries(entries, lines, shorter)->Ok_0;
        assert(shorter.no_duplicates()) by {
            assert forall|a: int, b: int|
                0 <= a < shorter.len() && 0 <= b < shorter.len() && a != b implies shorter[a]
                != shorter[b] by {
                assert(selected[a] != selected[b]);
            }
        }
        lemma_entries_in_order(entries, lines, shorter);
        if shorter.contains(selected[n]) {
            let t = choose|t: int| 0 <= t < shorter.len() && shorter[t] == selected[n];
            assert(selected[t] != selected[n]);
        }
        assert forall|s: int| 0 <= s < selected.len() implies is_entry_of(
            found[s],
            entry_at(entries, lines, #[trigger] selected[s] as int),
        ) by {
            if s < n {
                assert(shorter[s] == selected[s]);
                assert(found[s] == before[s]);
            }
        }
    }
}

/// One line is refused for what it lacks: it is not there, it has no number, or no entry
/// has its number.
pub proof fn line_is_refused_for_what_it_lacks(
    entries: Seq<EntryView>,
    lines: Seq<Seq<char>>,
    line: usize,
)
    ensures
        ({
            let answer = selection(entries, lines, seq![line]);
            &&& answer == Err::<Seq<(Seq<Seq<char>>, EntryKind)>, SelectionError>(
                SelectionError::MissingLine,
            ) <==> line >= lines.len()
            &&& answer == Err::<Seq<(Seq<Seq<char>>, EntryKind)>, SelectionError>(
                SelectionError::UnsavedLine,
            ) <==> line < lines.len() && !(prefix_of(lines[line as int]) is WithId)
            &&& answer == Err::<Seq<(Seq<Seq<char>>, EntryKind)>, SelectionError>(
                SelectionError::UnknownId,
            ) <==> line < lines.len() && prefix_of(lines[line as int]) is WithId && entry_at(
                entries,
                lines,
                line as int,
            ) is None
        }),
        selection(entries, lines, Seq::empty()) == Err::<
            Seq<(Seq<Seq<char>>, EntryKind)>,
            SelectionError,
        >(SelectionError::Empty),
{
    let one = seq![line];
    assert(one.drop_last() =~= Seq::empty());
    assert(selected_entries(entries, lines, one.drop_last()) == Ok::<
        Seq<(Seq<Seq<char>>, EntryKind)>,
        SelectionError,
    >(Seq::empty()));
    assert(!one.drop_last().contains(line));
}

/// A directory is pointed at by itself, anything else by the directory that holds it, and
/// an empty pane points at its root.
pub proof fn pointing_means_a_directory(
    empty: bool,
    path: Seq<Seq<char>>,
    kind: EntryKind,
)
    ensures
        pointed_directory(true, Some((path, kind))) == Some(Seq::<Seq<char>>::empty()),
        pointed_directory(true, None) == Some(Seq::<Seq<char>>::empty()),
        pointed_directory(false, None) is None,
        kind == EntryKind::Dir ==> pointed_directory(false, Some((path, kind))) == Some(path),
        kind != EntryKind::Dir && path.len() > 0 ==> (pointed_directory(
            false,
            Some((path, kind)),
        ) matches Some(dir) && dir.push(path.last()) == path),
{
    if path.len() > 0 {
        assert(path.drop_last().push(path.last()) =~= path);
    }
}

/// A transfer is looked into just where both panes are at rest, every selected line names
/// an entry, and the other pane points at a directory; its plan goes from the one root to
/// the other and is of the kind that was asked for.
pub proof fn transfer_is_looked_into_where_it_can_be(
    kind: TransferKind,
    source: TransferSideView,
    target: TransferSideView,
    selected: Seq<usize>,
    globally_busy: bool,
)
    ensures
        transfer_request_step(kind, source, target, selected, globally_busy)
            matches TransferRequestView::Preflight(plan) ==> {
            &&& !globally_busy
            &&& !source.dirty && !source.crashed && !source.offline && source.save.state is Idle
            &&& !target.dirty && !target.crashed && !target.offline && target.save.state is Idle
            &&& plan.from_root == source.root && plan.to_root == target.root
            &&& plan.ops.len() > 0
            &&& forall|i: int| 0 <= i < plan.ops.len() ==> (#[trigger] plan.ops[i]).kind == kind
            &&& forall|i: int|
                0 <= i < plan.ops.len() ==> {
                    let to = (#[trigger] plan.ops[i]).to.drop_last();
                    if shown(target.save.baseline.entries, target.save.collapsed).len() == 0 {
                        to.len() == 0
                    } else {
                        &&& entry_at(
                            target.save.baseline.entries,
                            target.lines,
                            target.cursor_line,
                        ) matches Some(entry)
                        &&& entry.kind == EntryKind::Dir ==> to == entry.path
                        &&& entry.kind != EntryKind::Dir && entry.path.len() > 0 ==> to
                            == entry.path.drop_last()
                    }
                }
            &&& selection(source.save.baseline.entries, source.lines, selected) is Ok
        },
        !globally_busy && !source.dirty && !source.crashed && !source.offline && source.save.state
            is Idle && !target.dirty && !target.crashed && !target.offline && target.save.state
            is Idle && (selection(source.save.baseline.entries, source.lines, selected)
            matches Ok(found) && exists|m: int| #[trigger] stands_alone(found, m)) && (shown(
            target.save.baseline.entries,
            target.save.collapsed,
        ).len() == 0 || entry_at(
            target.save.baseline.entries,
            target.lines,
            target.cursor_line,
        ) is Some) ==> transfer_request_step(kind, source, target, selected, globally_busy)
            is Preflight,
{
    let answer = transfer_request_step(kind, source, target, selected, globally_busy);
    let chosen = selection(source.save.baseline.entries, source.lines, selected);
    if let TransferRequestView::Preflight(plan) = answer {
        let found = chosen->Ok_0;
        let destination = cursor_directory(target)->Some_0;
        assert forall|i: int| 0 <= i < plan.ops.len() implies (#[trigger] plan.ops[i]).kind == kind
            && plan.ops[i].to.drop_last() == destination by {
            transfer_does_what_was_asked(kind, source.root, target.root, destination, found, i);
        }
    }
    if let Ok(found) = chosen {
        if exists|m: int| #[trigger] stands_alone(found, m) {
            let m = choose|m: int| #[trigger] stands_alone(found, m);
            if let Some(destination) = cursor_directory(target) {
                nothing_selected_is_left_behind(
                    kind,
                    source.root,
                    target.root,
                    destination,
                    found,
                    m,
                );
            }
        }
    }
}

/// Whether a selected entry has a name and stands below no other selected one.
pub open spec fn stands_alone(selected: Seq<(Seq<Seq<char>>, EntryKind)>, m: int) -> bool {
    &&& 0 <= m < selected.len()
    &&& selected[m].0.len() > 0
    &&& forall|n: int|
        0 <= n < selected.len() && n != m ==> !is_above((#[trigger] selected[n]).0, selected[m].0)
}

/// Whether a pane is at rest: it can be reached, its editor runs, its buffer was not edited
/// and nothing is being saved in it.
pub open spec fn at_rest(pane: TransferPaneState) -> bool {
    !pane.offline && !pane.crashed && !pane.dirty && pane.idle
}

/// Files are transferred, taken in, extracted and dragged out just where nothing else is
/// going on and every pane that takes part is at rest.
pub proof fn only_panes_at_rest_take_part(
    source: TransferPaneState,
    target: TransferPaneState,
    globally_busy: bool,
)
    ensures
        transfer_rejection(source, target, globally_busy) is None <==> !globally_busy && at_rest(
            source,
        ) && at_rest(target),
        import_rejection(source, globally_busy) is None <==> !globally_busy && at_rest(source),
        extract_rejection(source, globally_busy) is None <==> !globally_busy && at_rest(source),
        drag_rejection(source, globally_busy) is None <==> !globally_busy && at_rest(source),
{
}

/// A user's word on a transfer: approval starts just what was asked about, a refusal
/// forgets it, stopping leaves a running worker its token, and nothing else counts.
pub proof fn words_on_a_transfer(
    state: TransferStateView,
    choice: ConfirmChoice,
    token: CancelToken,
    results: Seq<OpResult<TransferOp>>,
)
    requires
        choice is Approve || choice is Cancel,
    ensures
        ({
            let (after, answer) = transfer_choice(state, choice, token);
            match state {
                TransferStateView::Idle => after == state && answer == TransferFlowView::Ignored,
                TransferStateView::Awaiting { source, target, plan, overwrites } => if choice
                    is Approve {
                    &&& answer == (TransferFlowView::StartApply {
                        source,
                        target,
                        plan,
                        overwrites,
                        cancel: token,
                    })
                    &&& after == (TransferStateView::Running {
                        source,
                        target,
                        cancel: token,
                        cancelled: false,
                    })
                } else {
                    after is Idle && answer == TransferFlowView::Cancelled
                },
                TransferStateView::Running { source, target, cancel, .. } => if choice is Cancel {
                    &&& answer == TransferFlowView::CancelRequested
                    &&& after == (TransferStateView::Running {
                        source,
                        target,
                        cancel,
                        cancelled: true,
                    })
                } else {
                    after == state && answer == TransferFlowView::Ignored
                },
            }
        }),
        ({
            let (after, answer) = transfer_finished(state, results);
            &&& after is Idle
            &&& match state {
                TransferStateView::Running { source, target, .. } => {
                    &&& answer matches TransferFlowView::Finished {
                        source: from,
                        target: to,
                        report,
                    }
                    &&& from == source && to == target && report.len() == results.len()
                    &&& forall|i: int|
                        0 <= i < report.len() ==> #[trigger] report[i] == (
                            results[i].op@,
                            results[i].outcome@,
                        )
                },
                _ => answer == TransferFlowView::Ignored,
            }
        }),
{
}

/// A transfer waits with a pane just where a user is asked about it and the pane gives or
/// takes.
pub proof fn transfer_waits_with_both_panes(state: TransferStateView, pane: PaneId)
    ensures
        awaits_with(state, pane) <==> (state matches TransferStateView::Awaiting {
            source,
            target,
            ..
        } && (pane == source || pane == target)),
{
}

/// A user's word on taking files in, and the end of it.
pub proof fn words_on_an_import(
    state: ImportStateView,
    choice: ConfirmChoice,
    token: CancelToken,
    results: Seq<OpResult<ImportOp>>,
)
    requires
        choice is Approve || choice is Cancel,
    ensures
        ({
            let (after, answer) = import_choice(state, choice, token);
            match state {
                ImportStateView::Idle => after == state && answer == ImportFlowView::Ignored,
                ImportStateView::Awaiting { pane, plan, overwrites } => if choice is Approve {
                    &&& answer == (ImportFlowView::StartApply {
                        pane,
                        plan,
                        overwrites,
                        cancel: token,
                    })
                    &&& after == (ImportStateView::Running {
                        pane,
                        effect: plan.effect,
                        cancel: token,
                        cancelled: false,
                    })
                } else {
                    after is Idle && answer == ImportFlowView::Cancelled
                },
                ImportStateView::Running { pane, effect, cancel, .. } => if choice is Cancel {
                    &&& answer == ImportFlowView::CancelRequested
                    &&& after == (ImportStateView::Running {
                        pane,
                        effect,
                        cancel,
                        cancelled: true,
                    })
                } else {
                    after == state && answer == ImportFlowView::Ignored
                },
            }
        }),
        ({
            let (after, answer) = import_finished(state, results);
            &&& after is Idle
            &&& match state {
                ImportStateView::Running { pane, effect, .. } => {
                    &&& answer matches ImportFlowView::Finished { pane: into, effect: by, report }
                    &&& into == pane && by == effect && report.len() == results.len()
                    &&& forall|i: int|
                        0 <= i < report.len() ==> #[trigger] report[i] == (
                            results[i].op.source@,
                            results[i].outcome@,
                        )
                },
                _ => answer == ImportFlowView::Ignored,
            }
        }),
{
}

/// A user's word on an extraction, and the end of it.
pub proof fn words_on_an_extraction(
    state: ExtractStateView,
    choice: ConfirmChoice,
    token: CancelToken,
    results: Seq<OpResult<ExtractOp>>,
)
    requires
        choice is Approve || choice is Cancel,
    ensures
        ({
            let (after, answer) = extract_choice(state, choice, token);
            match state {
                ExtractStateView::Idle => after == state && answer == ExtractFlowView::Ignored,
                ExtractStateView::Awaiting { pane, plan } => if choice is Approve {
                    &&& answer == (ExtractFlowView::StartApply { pane, plan, cancel: token })
                    &&& after == (ExtractStateView::Running {
                        pane,
                        cancel: token,
                        cancelled: false,
                    })
                } else {
                    after is Idle && answer == ExtractFlowView::Cancelled
                },
                ExtractStateView::Running { pane, cancel, .. } => if choice is Cancel {
                    &&& answer == ExtractFlowView::CancelRequested
                    &&& after == (ExtractStateView::Running { pane, cancel, cancelled: true })
                } else {
                    after == state && answer == ExtractFlowView::Ignored
                },
            }
        }),
        ({
            let (after, answer) = extract_finished(state, results);
            &&& after is Idle
            &&& match state {
                ExtractStateView::Running { pane, .. } => {
                    &&& answer matches ExtractFlowView::Finished { pane: into, report }
                    &&& into == pane && report.len() == results.len()
                    &&& forall|i: int|
                        0 <= i < report.len() ==> #[trigger] report[i] == (
                            results[i].op@,
                            results[i].outcome@,
                        )
                },
                _ => answer == ExtractFlowView::Ignored,
            }
        }),
{
}

/// After a drag a user is asked about removing sources just where the target took them as
/// moved and some are still there, and then about these; only approval removes them.
pub proof fn dragged_sources_are_asked_about(
    state: DragOutStateView,
    pane: PaneId,
    outcome: DragOutcome,
    existing: Seq<FsPathView>,
    choice: ConfirmChoice,
)
    requires
        choice is Approve || choice is Cancel,
    ensures
        ({
            let (after, answer) = drag_outcome(state, pane, outcome, existing);
            let running = state == (DragOutStateView::Running { pane_id: pane });
            let moved = outcome matches DragOutcome::Dropped { move_reported, .. }
                && move_reported;
            &&& !running ==> after == state && answer == DragOutFlowView::Ignored
            &&& running && moved && existing.len() > 0 ==> answer == (
            DragOutFlowView::NeedsCleanupConfirm { pane_id: pane, remaining: existing }) && after
                == (DragOutStateView::ConfirmingCleanup { pane_id: pane, remaining: existing })
            &&& running && (!moved || existing.len() == 0) ==> after is Idle && answer
                == DragOutFlowView::Done
        }),
        ({
            let (after, answer) = cleanup_choice(state, choice);
            match state {
                DragOutStateView::ConfirmingCleanup { pane_id, remaining } => if choice
                    is Approve {
                    &&& answer == (CleanupChoiceView::Approved { pane_id, remaining })
                    &&& after == (DragOutStateView::CleaningUp { pane_id })
                } else {
                    after is Idle && answer == (CleanupChoiceView::Cancelled { pane_id })
                },
                _ => answer == CleanupChoiceView::Ignored,
            }
        }),
        drag_pane(state) is None <==> state is Idle,
        drag_pane(DragOutStateView::Running { pane_id: pane }) == Some(pane),
        drag_pane(DragOutStateView::ConfirmingCleanup { pane_id: pane, remaining: existing })
            == Some(pane),
        drag_pane(DragOutStateView::CleaningUp { pane_id: pane }) == Some(pane),
{
}

} // verus!
