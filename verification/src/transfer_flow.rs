//! Moving and copying entries from one pane to another.

use std::collections::HashSet;

use vstd::prelude::*;

use crate::baseline::EntryView;
use crate::fs_path::{FsPath, FsPathView};
use crate::grammar::{line_texts, prefix_of, split_id_prefix, EditorLine, PrefixParse};
use crate::listing::entry_at;
use crate::pane::{contains_pane, PaneId};
use crate::report::{CommitReport, OpOutcomeView, OpResult};
use crate::save_flow::{ConfirmChoice, SaveController};
use crate::save_result::CancelToken;
use crate::text::optional_text;
use crate::tree::{is_above, tree_path_view, EntryKind, TreePath};

verus! {

broadcast use vstd::std_specs::hash::group_hash_axioms;

/// Whether entries are copied or moved.
#[derive(Debug, Clone, Copy, PartialEq, Eq, Structural)]
pub enum TransferKind {
    Copy,
    Move,
}

/// One entry that goes from one root to another.
#[derive(Debug, PartialEq, Eq)]
pub struct TransferOp {
    pub kind: TransferKind,
    /// Where it stands below the root it comes from.
    pub from: TreePath,
    /// Where it will stand below the root it goes to.
    pub to: TreePath,
    pub entry_kind: EntryKind,
}

/// What goes from one root to another.
#[derive(Debug, PartialEq, Eq)]
pub struct TransferPlan {
    pub from_root: FsPath,
    pub to_root: FsPath,
    pub ops: Vec<TransferOp>,
}

/// One entry that goes from one root to another.
#[verifier::ext_equal]
pub struct TransferOpView {
    pub kind: TransferKind,
    pub from: Seq<Seq<char>>,
    pub to: Seq<Seq<char>>,
    pub entry_kind: EntryKind,
}

/// What goes from one root to another.
#[verifier::ext_equal]
pub struct TransferPlanView {
    pub from_root: FsPathView,
    pub to_root: FsPathView,
    pub ops: Seq<TransferOpView>,
}

impl TransferOp {
    pub open spec fn view(&self) -> TransferOpView {
        TransferOpView {
            kind: self.kind,
            from: self.from@,
            to: self.to@,
            entry_kind: self.entry_kind,
        }
    }

    /// The same once more.
    pub fn copy(&self) -> (r: TransferOp)
        ensures
            r@ == self@,
    {
        TransferOp {
            kind: self.kind,
            from: self.from.copy(),
            to: self.to.copy(),
            entry_kind: self.entry_kind,
        }
    }
}

/// What the entries that go are.
pub open spec fn transfer_ops_view(ops: Seq<TransferOp>) -> Seq<TransferOpView> {
    ops.map_values(|op: TransferOp| op@)
}

impl TransferPlan {
    pub open spec fn view(&self) -> TransferPlanView {
        TransferPlanView {
            from_root: self.from_root@,
            to_root: self.to_root@,
            ops: transfer_ops_view(self.ops@),
        }
    }

    /// The same once more.
    pub fn copy(&self) -> (r: TransferPlan)
        ensures
            r@ == self@,
    {
        let mut ops: Vec<TransferOp> = Vec::new();
        let mut i: usize = 0;
        while i < self.ops.len()
            invariant
                i <= self.ops@.len(),
                ops@.len() == i,
                forall|j: int| 0 <= j < i ==> (#[trigger] ops@[j])@ == self.ops@[j]@,
            decreases self.ops@.len() - i,
        {
            ops.push(self.ops[i].copy());
            i = i + 1;
        }
        assert(transfer_ops_view(ops@) =~= transfer_ops_view(self.ops@));
        TransferPlan { from_root: self.from_root.copy(), to_root: self.to_root.copy(), ops }
    }
}

/// What a report says of the entries that went.
pub open spec fn transfer_report_view(results: Seq<OpResult<TransferOp>>) -> Seq<
    (TransferOpView, OpOutcomeView),
> {
    results.map_values(|result: OpResult<TransferOp>| (result.op@, result.outcome@))
}

/// What decides whether something may be started in a pane.
#[derive(Debug, Clone, Copy, PartialEq, Eq, Structural)]
pub struct TransferPaneState {
    /// Whether its buffer was edited.
    pub dirty: bool,
    /// Whether neither a save nor an undo is going on in it.
    pub idle: bool,
    /// Whether its editor has stopped.
    pub crashed: bool,
    /// Whether its folder cannot be reached.
    pub offline: bool,
}

/// The pane that entries go to: the one that was active before, where it is
/// another one that is still there.
pub fn resolve_target(source: PaneId, last_active: PaneId, pane_ids: &Vec<PaneId>) -> (r: Option<
    PaneId,
>)
    ensures
        r == (if pane_ids@.len() >= 2 && last_active != source && pane_ids@.contains(
            last_active,
        ) {
            Some(last_active)
        } else {
            None
        }),
{
    if pane_ids.len() >= 2 && last_active != source && contains_pane(pane_ids, last_active) {
        Some(last_active)
    } else {
        None
    }
}

/// Why nothing can go from one pane to another now.
pub open spec fn transfer_rejection(
    source: TransferPaneState,
    target: TransferPaneState,
    globally_busy: bool,
) -> Option<Seq<char>> {
    if globally_busy {
        Some("Another save or transfer is in progress"@)
    } else if source.offline || target.offline {
        Some("Cannot start a transfer with an offline or unreachable pane"@)
    } else if source.crashed || target.crashed {
        Some("Cannot start a transfer with a stopped pane"@)
    } else if source.dirty || target.dirty {
        Some("Cannot start a transfer with a pane being edited. Save or discard changes first."@)
    } else if !source.idle || !target.idle {
        Some("Cannot start a transfer with a pane that is saving"@)
    } else {
        None
    }
}

/// Why nothing can go from one pane to another now.
pub fn start_rejection(
    source: TransferPaneState,
    target: TransferPaneState,
    globally_busy: bool,
) -> (r: Option<&'static str>)
    ensures
        optional_text(r) == transfer_rejection(source, target, globally_busy),
{
    if globally_busy {
        Some("Another save or transfer is in progress")
    } else if source.offline || target.offline {
        Some("Cannot start a transfer with an offline or unreachable pane")
    } else if source.crashed || target.crashed {
        Some("Cannot start a transfer with a stopped pane")
    } else if source.dirty || target.dirty {
        Some("Cannot start a transfer with a pane being edited. Save or discard changes first.")
    } else if !source.idle || !target.idle {
        Some("Cannot start a transfer with a pane that is saving")
    } else {
        None
    }
}

/// The directory that a cursor points to: the root of an empty tree, the
/// directory under the cursor, or the one that holds the entry under it.
pub open spec fn pointed_directory(
    target_is_empty: bool,
    resolved: Option<(Seq<Seq<char>>, EntryKind)>,
) -> Option<Seq<Seq<char>>> {
    if target_is_empty {
        Some(Seq::empty())
    } else {
        match resolved {
            None => None,
            Some((path, kind)) => if kind == EntryKind::Dir || path.len() == 0 {
                Some(path)
            } else {
                Some(path.drop_last())
            },
        }
    }
}

/// What an entry is.
pub open spec fn picked_view(entry: (TreePath, EntryKind)) -> (Seq<Seq<char>>, EntryKind) {
    (entry.0@, entry.1)
}

/// What an entry is, where there is one.
pub open spec fn resolved_view(entry: Option<(TreePath, EntryKind)>) -> Option<
    (Seq<Seq<char>>, EntryKind),
> {
    match entry {
        Some(entry) => Some(picked_view(entry)),
        None => None,
    }
}

/// What entries are.
pub open spec fn picks_view(entries: Seq<(TreePath, EntryKind)>) -> Seq<
    (Seq<Seq<char>>, EntryKind),
> {
    entries.map_values(|entry: (TreePath, EntryKind)| picked_view(entry))
}

/// The directory that a cursor points to.
pub fn destination_directory(
    target_is_empty: bool,
    resolved: Option<(TreePath, EntryKind)>,
) -> (r: Option<TreePath>)
    ensures
        tree_path_view(r) == pointed_directory(target_is_empty, resolved_view(resolved)),
{
    if target_is_empty {
        return Some(TreePath::root());
    }
    match resolved {
        None => None,
        Some((path, kind)) => {
            if kind == EntryKind::Dir || path.depth() == 0 {
                return Some(path);
            }
            let parent = path.prefix(path.depth() - 1);
            assert(parent@ =~= path@.drop_last());
            Some(parent)
        },
    }
}

/// Why a selection cannot be used.
#[derive(Debug, Clone, Copy, PartialEq, Eq, Structural)]
pub enum SelectionError {
    MissingLine,
    UnsavedLine,
    UnknownId,
    Empty,
}

/// The entry that a selected line names, or why it names none.
pub open spec fn selected_entry(entries: Seq<EntryView>, lines: Seq<Seq<char>>, line: int) -> Result<
    (Seq<Seq<char>>, EntryKind),
    SelectionError,
> {
    if !(0 <= line < lines.len()) {
        Err(SelectionError::MissingLine)
    } else if !(prefix_of(lines[line]) is WithId) {
        Err(SelectionError::UnsavedLine)
    } else {
        match entry_at(entries, lines, line) {
            Some(entry) => Ok((entry.path, entry.kind)),
            None => Err(SelectionError::UnknownId),
        }
    }
}

/// The entries that selected lines name, each line once, in the order of the
/// selection; or what is wrong with the first line that names none.
pub open spec fn selected_entries(
    entries: Seq<EntryView>,
    lines: Seq<Seq<char>>,
    selected: Seq<usize>,
) -> Result<Seq<(Seq<Seq<char>>, EntryKind)>, SelectionError>
    decreases selected.len(),
{
    if selected.len() == 0 {
        Ok(Seq::empty())
    } else {
        match selected_entries(entries, lines, selected.drop_last()) {
            Err(error) => Err(error),
            Ok(before) => if selected.drop_last().contains(selected.last()) {
                Ok(before)
            } else {
                match selected_entry(entries, lines, selected.last() as int) {
                    Ok(entry) => Ok(before.push(entry)),
                    Err(error) => Err(error),
                }
            },
        }
    }
}

/// The entries that a selection names; it has to name one.
pub open spec fn selection(
    entries: Seq<EntryView>,
    lines: Seq<Seq<char>>,
    selected: Seq<usize>,
) -> Result<Seq<(Seq<Seq<char>>, EntryKind)>, SelectionError> {
    match selected_entries(entries, lines, selected) {
        Ok(found) => if found.len() == 0 {
            Err(SelectionError::Empty)
        } else {
            Ok(found)
        },
        Err(error) => Err(error),
    }
}

/// What came of a selection.
pub open spec fn selection_view(
    r: Result<Vec<(TreePath, EntryKind)>, SelectionError>,
) -> Result<Seq<(Seq<Seq<char>>, EntryKind)>, SelectionError> {
    match r {
        Ok(entries) => Ok(picks_view(entries@)),
        Err(error) => Err(error),
    }
}

/// A line with an error spoils every longer selection.
proof fn lemma_selection_error(
    entries: Seq<EntryView>,
    lines: Seq<Seq<char>>,
    selected: Seq<usize>,
    n: int,
)
    requires
        0 <= n <= selected.len(),
        selected_entries(entries, lines, selected.take(n)) is Err,
    ensures
        selected_entries(entries, lines, selected) == selected_entries(
            entries,
            lines,
            selected.take(n),
        ),
    decreases selected.len() - n,
{
    if n == selected.len() {
        assert(selected.take(n) =~= selected);
    } else {
        assert(selected.take(n + 1).drop_last() =~= selected.take(n));
        lemma_selection_error(entries, lines, selected, n + 1);
    }
}

/// The entries that a selection names.
pub fn resolve_selection(
    controller: &SaveController,
    lines: &Vec<EditorLine>,
    selected_lines: &Vec<usize>,
) -> (r: Result<Vec<(TreePath, EntryKind)>, SelectionError>)
    ensures
        selection_view(r) == selection(
            controller@.baseline.entries,
            line_texts(lines@),
            selected_lines@,
        ),
{
    let ghost entries = controller@.baseline.entries;
    let ghost texts = line_texts(lines@);
    let ghost all = selected_lines@;
    let mut selected: Vec<(TreePath, EntryKind)> = Vec::new();
    let mut seen: HashSet<usize> = HashSet::new();
    let mut i: usize = 0;
    assert(all.take(0) =~= Seq::empty());
    assert(picks_view(selected@) =~= Seq::empty());
    while i < selected_lines.len()
        invariant
            i <= selected_lines@.len(),
            all == selected_lines@,
            entries == controller@.baseline.entries,
            texts == line_texts(lines@),
            forall|line: usize| #[trigger] seen@.contains(line) == all.take(i as int).contains(line),
            selected_entries(entries, texts, all.take(i as int)) == Ok::<
                Seq<(Seq<Seq<char>>, EntryKind)>,
                SelectionError,
            >(picks_view(selected@)),
        decreases selected_lines@.len() - i,
    {
        let line = selected_lines[i];
        let ghost before = picks_view(selected@);
        proof {
            let longer = all.take(i + 1);
            assert(longer.drop_last() =~= all.take(i as int));
            assert(longer.last() == line);
            assert forall|other: usize| longer.contains(other) == (all.take(i as int).contains(
                other,
            ) || other == line) by {
                if all.take(i as int).contains(other) {
                    let k = choose|k: int| 0 <= k < i && all.take(i as int)[k] == other;
                    assert(longer[k] == other);
                }
                if other == line {
                    assert(longer[i as int] == other);
                }
                if longer.contains(other) {
                    let k = choose|k: int| 0 <= k < i + 1 && longer[k] == other;
                    if k < i {
                        assert(all.take(i as int)[k] == other);
                    }
                }
            }
        }
        if seen.insert(line) {
            if line >= lines.len() {
                proof {
                    lemma_selection_error(entries, texts, all, i + 1);
                }
                return Err(SelectionError::MissingLine);
            }
            assert(texts[line as int] == lines@[line as int].text@);
            match split_id_prefix(lines[line].text.as_str()) {
                PrefixParse::WithId { .. } => {},
                _ => {
                    proof {
                        lemma_selection_error(entries, texts, all, i + 1);
                    }
                    return Err(SelectionError::UnsavedLine);
                },
            }
            match controller.resolve_line(lines, line) {
                Some(entry) => {
                    selected.push(entry);
                    assert(picks_view(selected@) =~= before.push(picked_view(entry)));
                },
                None => {
                    proof {
                        lemma_selection_error(entries, texts, all, i + 1);
                    }
                    return Err(SelectionError::UnknownId);
                },
            }
        }
        i = i + 1;
    }
    assert(all.take(i as int) =~= all);
    if selected.len() == 0 {
        Err(SelectionError::Empty)
    } else {
        Ok(selected)
    }
}

/// Whether an entry stands below another one of the selection.
pub open spec fn covered(selected: Seq<(Seq<Seq<char>>, EntryKind)>, i: int) -> bool {
    exists|j: int|
        0 <= j < selected.len() && j != i && is_above((#[trigger] selected[j]).0, selected[i].0)
}

/// The first `n` entries of a selection without those that stand below another
/// one of it.
pub open spec fn uncovered(selected: Seq<(Seq<Seq<char>>, EntryKind)>, n: int) -> Seq<
    (Seq<Seq<char>>, EntryKind),
>
    decreases n,
{
    if n <= 0 {
        Seq::empty()
    } else if covered(selected, n - 1) {
        uncovered(selected, n - 1)
    } else {
        uncovered(selected, n - 1).push(selected[n - 1])
    }
}

/// A selection without the entries that stand below another one of it.
pub fn dedupe_ancestors(selected: &Vec<(TreePath, EntryKind)>) -> (r: Vec<(TreePath, EntryKind)>)
    ensures
        picks_view(r@) == uncovered(picks_view(selected@), selected@.len() as int),
{
    let ghost all = picks_view(selected@);
    let mut kept: Vec<(TreePath, EntryKind)> = Vec::new();
    let mut i: usize = 0;
    assert(picks_view(kept@) =~= uncovered(all, 0));
    while i < selected.len()
        invariant
            i <= selected@.len(),
            all == picks_view(selected@),
            picks_view(kept@) == uncovered(all, i as int),
        decreases selected@.len() - i,
    {
        let ghost before = picks_view(kept@);
        assert(all[i as int] == picked_view(selected@[i as int]));
        if !stands_below_another(selected, i) {
            let entry = (selected[i].0.copy(), selected[i].1);
            kept.push(entry);
            assert(picks_view(kept@) =~= before.push(picked_view(entry)));
        }
        i = i + 1;
    }
    kept
}

/// Whether an entry stands below another one of the selection.
fn stands_below_another(selected: &Vec<(TreePath, EntryKind)>, i: usize) -> (r: bool)
    requires
        i < selected@.len(),
    ensures
        r == covered(picks_view(selected@), i as int),
{
    let ghost all = picks_view(selected@);
    let mut j: usize = 0;
    while j < selected.len()
        invariant
            i < selected@.len(),
            j <= selected@.len(),
            all == picks_view(selected@),
            forall|k: int| 0 <= k < j && k != i ==> !is_above((#[trigger] all[k]).0, all[i as int].0),
        decreases selected@.len() - j,
    {
        assert(all[j as int] == picked_view(selected@[j as int]));
        assert(all[i as int] == picked_view(selected@[i as int]));
        if j != i && selected[j].0.is_strict_ancestor_of(&selected[i].0) {
            assert(is_above(all[j as int].0, all[i as int].0));
            return true;
        }
        j = j + 1;
    }
    false
}

/// The operations that bring entries into a directory under their own names. The
/// root has no name and stays.
pub open spec fn transfer_ops(
    kind: TransferKind,
    destination: Seq<Seq<char>>,
    entries: Seq<(Seq<Seq<char>>, EntryKind)>,
) -> Seq<TransferOpView>
    decreases entries.len(),
{
    if entries.len() == 0 {
        Seq::empty()
    } else {
        let before = transfer_ops(kind, destination, entries.drop_last());
        let (from, entry_kind) = entries.last();
        if from.len() == 0 {
            before
        } else {
            before.push(
                TransferOpView { kind, from, to: destination.push(from.last()), entry_kind },
            )
        }
    }
}

/// What brings a selection into a directory of another root.
pub open spec fn transfer_plan(
    kind: TransferKind,
    from_root: FsPathView,
    to_root: FsPathView,
    destination: Seq<Seq<char>>,
    selected: Seq<(Seq<Seq<char>>, EntryKind)>,
) -> TransferPlanView {
    TransferPlanView {
        from_root,
        to_root,
        ops: transfer_ops(kind, destination, uncovered(selected, selected.len() as int)),
    }
}

/// What brings a selection into a directory of another root. Entries that stand
/// below another one of the selection go with that.
pub fn build_plan(
    kind: TransferKind,
    from_root: FsPath,
    to_root: FsPath,
    destination: &TreePath,
    selected: Vec<(TreePath, EntryKind)>,
) -> (r: TransferPlan)
    ensures
        r@ == transfer_plan(kind, from_root@, to_root@, destination@, picks_view(selected@)),
{
    let kept = dedupe_ancestors(&selected);
    let ghost all = picks_view(kept@);
    let mut ops: Vec<TransferOp> = Vec::new();
    let mut i: usize = 0;
    assert(all.take(0) =~= Seq::empty());
    assert(transfer_ops_view(ops@) =~= transfer_ops(kind, destination@, all.take(0)));
    while i < kept.len()
        invariant
            i <= kept@.len(),
            all == picks_view(kept@),
            transfer_ops_view(ops@) == transfer_ops(kind, destination@, all.take(i as int)),
        decreases kept@.len() - i,
    {
        let ghost before = transfer_ops_view(ops@);
        proof {
            assert(all.take(i + 1).drop_last() =~= all.take(i as int));
            assert(all.take(i + 1).last() == picked_view(kept@[i as int]));
        }
        if let Some(name) = kept[i].0.name() {
            let op = TransferOp {
                kind,
                from: kept[i].0.copy(),
                to: destination.child(name.as_str()),
                entry_kind: kept[i].1,
            };
            ops.push(op);
            assert(transfer_ops_view(ops@) =~= before.push(op@));
        }
        i = i + 1;
    }
    assert(all.take(i as int) =~= all);
    TransferPlan { from_root, to_root, ops }
}

/// Where a transfer stands.
#[derive(Debug)]
pub enum TransferState {
    Idle,
    Awaiting { source: PaneId, target: PaneId, plan: TransferPlan, overwrites: Vec<FsPath> },
    Running { source: PaneId, target: PaneId, cancel: CancelToken, cancelled: bool },
}

/// Where a transfer stands.
#[verifier::ext_equal]
pub enum TransferStateView {
    Idle,
    Awaiting {
        source: PaneId,
        target: PaneId,
        plan: TransferPlanView,
        overwrites: Seq<FsPathView>,
    },
    Running { source: PaneId, target: PaneId, cancel: CancelToken, cancelled: bool },
}

/// What paths are.
pub open spec fn fs_paths_view(paths: Seq<FsPath>) -> Seq<FsPathView> {
    paths.map_values(|path: FsPath| path@)
}

impl TransferState {
    pub open spec fn view(&self) -> TransferStateView {
        match self {
            TransferState::Idle => TransferStateView::Idle,
            TransferState::Awaiting { source, target, plan, overwrites } =>
                TransferStateView::Awaiting {
                source: *source,
                target: *target,
                plan: plan@,
                overwrites: fs_paths_view(overwrites@),
            },
            TransferState::Running { source, target, cancel, cancelled } =>
                TransferStateView::Running {
                source: *source,
                target: *target,
                cancel: *cancel,
                cancelled: *cancelled,
            },
        }
    }
}

/// What a step of a transfer asks of its surroundings.
#[derive(Debug)]
pub enum TransferFlowResult {
    StartApply {
        source: PaneId,
        target: PaneId,
        plan: TransferPlan,
        overwrites: Vec<FsPath>,
        cancel: CancelToken,
    },
    Cancelled,
    CancelRequested,
    Finished { source: PaneId, target: PaneId, report: CommitReport<TransferOp> },
    Ignored,
}

/// What a step of a transfer asks of its surroundings.
#[verifier::ext_equal]
pub enum TransferFlowView {
    StartApply {
        source: PaneId,
        target: PaneId,
        plan: TransferPlanView,
        overwrites: Seq<FsPathView>,
        cancel: CancelToken,
    },
    Cancelled,
    CancelRequested,
    Finished { source: PaneId, target: PaneId, report: Seq<(TransferOpView, OpOutcomeView)> },
    Ignored,
}

impl TransferFlowResult {
    pub open spec fn view(&self) -> TransferFlowView {
        match self {
            TransferFlowResult::StartApply { source, target, plan, overwrites, cancel } =>
                TransferFlowView::StartApply {
                source: *source,
                target: *target,
                plan: plan@,
                overwrites: fs_paths_view(overwrites@),
                cancel: *cancel,
            },
            TransferFlowResult::Cancelled => TransferFlowView::Cancelled,
            TransferFlowResult::CancelRequested => TransferFlowView::CancelRequested,
            TransferFlowResult::Finished { source, target, report } => TransferFlowView::Finished {
                source: *source,
                target: *target,
                report: transfer_report_view(report.results@),
            },
            TransferFlowResult::Ignored => TransferFlowView::Ignored,
        }
    }
}

/// What a user's word on a transfer leads to; a worker that it starts is stopped
/// by `token`.
pub open spec fn transfer_choice(
    state: TransferStateView,
    choice: ConfirmChoice,
    token: CancelToken,
) -> (TransferStateView, TransferFlowView) {
    match state {
        TransferStateView::Running { source, target, cancel, .. } => if choice is Cancel {
            (
                TransferStateView::Running { source, target, cancel, cancelled: true },
                TransferFlowView::CancelRequested,
            )
        } else {
            (state, TransferFlowView::Ignored)
        },
        TransferStateView::Awaiting { source, target, plan, overwrites } => if choice is Cancel {
            (TransferStateView::Idle, TransferFlowView::Cancelled)
        } else {
            (
                TransferStateView::Running { source, target, cancel: token, cancelled: false },
                TransferFlowView::StartApply { source, target, plan, overwrites, cancel: token },
            )
        },
        TransferStateView::Idle => (state, TransferFlowView::Ignored),
    }
}

/// What the end of the worker leads to.
pub open spec fn transfer_finished(
    state: TransferStateView,
    results: Seq<OpResult<TransferOp>>,
) -> (TransferStateView, TransferFlowView) {
    (
        TransferStateView::Idle,
        match state {
            TransferStateView::Running { source, target, .. } => TransferFlowView::Finished {
                source,
                target,
                report: transfer_report_view(results),
            },
            _ => TransferFlowView::Ignored,
        },
    )
}

/// Whether a transfer waits for a user's word and a pane has part in it.
pub open spec fn awaits_with(state: TransferStateView, pane: PaneId) -> bool {
    match state {
        TransferStateView::Awaiting { source, target, .. } => source == pane || target == pane,
        _ => false,
    }
}

/// One transfer at a time, from the question to the report.
#[derive(Debug)]
pub struct TransferController {
    state: TransferState,
}

impl TransferController {
    /// Where the transfer stands.
    pub closed spec fn view(&self) -> TransferStateView {
        self.state@
    }

    /// No transfer.
    pub fn new() -> (r: TransferController)
        ensures
            r@ == TransferStateView::Idle,
    {
        TransferController { state: TransferState::Idle }
    }

    /// Waits for a user's word on a transfer.
    pub fn begin(
        &mut self,
        source: PaneId,
        target: PaneId,
        plan: TransferPlan,
        overwrites: Vec<FsPath>,
    )
        ensures
            final(self)@ == (TransferStateView::Awaiting {
                source,
                target,
                plan: plan@,
                overwrites: fs_paths_view(overwrites@),
            }),
    {
        self.state = TransferState::Awaiting { source, target, plan, overwrites };
    }

    /// Takes a user's word; a worker that it starts is stopped by `token`.
    pub fn on_choice(&mut self, choice: ConfirmChoice, token: CancelToken) -> (r:
        TransferFlowResult)
        ensures
            (final(self)@, r@) == transfer_choice(old(self)@, choice, token),
    {
        let cancelling = choice == ConfirmChoice::Cancel;
        let mut state = TransferState::Idle;
        std::mem::swap(&mut state, &mut self.state);
        match state {
            TransferState::Running { source, target, cancel, cancelled } => {
                self.state =
                TransferState::Running {
                    source,
                    target,
                    cancel,
                    cancelled: cancelled || cancelling,
                };
                if cancelling {
                    TransferFlowResult::CancelRequested
                } else {
                    TransferFlowResult::Ignored
                }
            },
            TransferState::Awaiting { source, target, plan, overwrites } => {
                if cancelling {
                    return TransferFlowResult::Cancelled;
                }
                self.state =
                TransferState::Running { source, target, cancel: token, cancelled: false };
                TransferFlowResult::StartApply { source, target, plan, overwrites, cancel: token }
            },
            TransferState::Idle => TransferFlowResult::Ignored,
        }
    }

    /// Takes what came of the worker.
    pub fn on_finished(&mut self, report: CommitReport<TransferOp>) -> (r: TransferFlowResult)
        ensures
            (final(self)@, r@) == transfer_finished(old(self)@, report.results@),
    {
        let mut state = TransferState::Idle;
        std::mem::swap(&mut state, &mut self.state);
        match state {
            TransferState::Running { source, target, .. } => TransferFlowResult::Finished {
                source,
                target,
                report,
            },
            _ => TransferFlowResult::Ignored,
        }
    }

    /// Forgets a transfer that waits for a user's word and has to do with a pane,
    /// and says whether there was one.
    pub fn invalidate_if_involves(&mut self, pane: PaneId) -> (r: bool)
        ensures
            r == awaits_with(old(self)@, pane),
            final(self)@ == (if r {
                TransferStateView::Idle
            } else {
                old(self)@
            }),
    {
        let involved = match &self.state {
            TransferState::Awaiting { source, target, .. } => *source == pane || *target == pane,
            _ => false,
        };
        if involved {
            self.state = TransferState::Idle;
        }
        involved
    }

    /// Whether a transfer waits for a user's word.
    pub fn is_awaiting(&self) -> (r: bool)
        ensures
            r == (self@ is Awaiting),
    {
        match &self.state {
            TransferState::Awaiting { .. } => true,
            _ => false,
        }
    }

    /// Whether a worker is running.
    pub fn is_running(&self) -> (r: bool)
        ensures
            r == (self@ is Running),
    {
        match &self.state {
            TransferState::Running { .. } => true,
            _ => false,
        }
    }

    /// Whether the running worker was asked to stop.
    pub fn cancel_requested(&self) -> (r: bool)
        ensures
            r == (self@ matches TransferStateView::Running { cancelled, .. } && cancelled),
    {
        match &self.state {
            TransferState::Running { cancelled, .. } => *cancelled,
            _ => false,
        }
    }
}

/// No entry of a plan stands below another one of it: nothing goes twice.
pub proof fn nothing_is_transferred_twice(
    kind: TransferKind,
    from_root: FsPathView,
    to_root: FsPathView,
    destination: Seq<Seq<char>>,
    selected: Seq<(Seq<Seq<char>>, EntryKind)>,
    i: int,
    j: int,
)
    requires
        0 <= i < transfer_plan(kind, from_root, to_root, destination, selected).ops.len(),
        0 <= j < transfer_plan(kind, from_root, to_root, destination, selected).ops.len(),
    ensures
        !is_above(
            transfer_plan(kind, from_root, to_root, destination, selected).ops[i].from,
            transfer_plan(kind, from_root, to_root, destination, selected).ops[j].from,
        ),
{
    let kept = uncovered(selected, selected.len() as int);
    let ops = transfer_ops(kind, destination, kept);
    lemma_ops_come_from(kind, destination, kept, i);
    lemma_ops_come_from(kind, destination, kept, j);
    let k = choose|k: int| 0 <= k < kept.len() && kept[k].0 == ops[i].from;
    let l = choose|l: int| 0 <= l < kept.len() && kept[l].0 == ops[j].from;
    lemma_kept_come_from(selected, selected.len() as int, k);
    lemma_kept_come_from(selected, selected.len() as int, l);
    let m = choose|m: int|
        0 <= m < selected.len() && #[trigger] selected[m] == kept[k] && !covered(selected, m);
    let n = choose|n: int|
        0 <= n < selected.len() && #[trigger] selected[n] == kept[l] && !covered(selected, n);
    if is_above(ops[i].from, ops[j].from) {
        if m != n {
            assert(is_above(selected[m].0, selected[n].0));
            assert(covered(selected, n));
        }
    }
}

/// Every operation comes from an entry.
proof fn lemma_ops_come_from(
    kind: TransferKind,
    destination: Seq<Seq<char>>,
    entries: Seq<(Seq<Seq<char>>, EntryKind)>,
    i: int,
)
    requires
        0 <= i < transfer_ops(kind, destination, entries).len(),
    ensures
        exists|k: int|
            0 <= k < entries.len() && (#[trigger] entries[k]).0 == transfer_ops(
                kind,
                destination,
                entries,
            )[i].from,
    decreases entries.len(),
{
    let ops = transfer_ops(kind, destination, entries);
    let shorter = entries.drop_last();
    let before = transfer_ops(kind, destination, shorter);
    if i < before.len() {
        lemma_ops_come_from(kind, destination, shorter, i);
        let k = choose|k: int| 0 <= k < shorter.len() && (#[trigger] shorter[k]).0 == before[i].from;
        assert(entries[k].0 == ops[i].from);
    } else {
        assert(entries[entries.len() - 1].0 == ops[i].from);
    }
}

/// Every entry that is kept stands in the selection and not below another one.
proof fn lemma_kept_come_from(selected: Seq<(Seq<Seq<char>>, EntryKind)>, n: int, k: int)
    requires
        0 <= n <= selected.len(),
        0 <= k < uncovered(selected, n).len(),
    ensures
        exists|m: int|
            0 <= m < selected.len() && #[trigger] selected[m] == uncovered(selected, n)[k]
                && !covered(selected, m),
    decreases n,
{
    let before = uncovered(selected, n - 1);
    if k < before.len() {
        lemma_kept_come_from(selected, n - 1, k);
    } else {
        assert(selected[n - 1] == uncovered(selected, n)[k]);
    }
}

/// The plan that is done is the plan that a user was asked about.
pub proof fn approved_transfer_is_the_one_asked_about(
    source: PaneId,
    target: PaneId,
    plan: TransferPlanView,
    overwrites: Seq<FsPathView>,
    token: CancelToken,
)
    ensures
        transfer_choice(
            TransferStateView::Awaiting { source, target, plan, overwrites },
            ConfirmChoice::Approve,
            token,
        ).1 == (TransferFlowView::StartApply { source, target, plan, overwrites, cancel: token }),
{
}

/// A worker that was asked to stop is still waited for.
pub proof fn stopping_a_transfer_waits_for_its_worker(
    state: TransferStateView,
    token: CancelToken,
    results: Seq<OpResult<TransferOp>>,
)
    requires
        state is Running,
    ensures
        transfer_choice(state, ConfirmChoice::Cancel, token).0 is Running,
        transfer_finished(transfer_choice(state, ConfirmChoice::Cancel, token).0, results).1
            is Finished,
{
}

} // verus!
