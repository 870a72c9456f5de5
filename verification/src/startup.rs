//! Which panes there are when the program starts, and what is kept when it ends.

use vstd::prelude::*;

use crate::baseline::{BaselineTree, EntryView};
use crate::folding::{dirs_at, dirs_within};
use crate::fs_path::{compared, FsPath, FsPathView};
use crate::grammar::{line_texts, EditorLine};
use crate::listing::{entry_at, position, shown_lines};
use crate::notices::{message, Message, MessageKind, MessageView};
use crate::options::ScanOptions;
use crate::pane::{
    contains_pane, leaves_of, only, retain_available_layout, retained,
    retaining_keeps_available_panes, PaneId, PaneLayout,
};
use crate::save_flow::{line_of_place, SaveController, SaveView};
use crate::save_state::SaveStateView;
use crate::session::{
    panes_view, SessionPane, SessionPaneView, SessionState, SessionStateView, WindowGeometry,
};
use crate::text::{decimal, decimal_text, join_texts, joined_texts, texts};
use crate::tree::{contains_path, join_path, paths_view, tree_path_view, TreePath};

verus! {

/// How a pane is made when the program starts.
#[derive(Debug)]
pub struct PanePlan {
    pub root: FsPath,
    /// Whether what was kept of the pane still applies.
    pub restores: bool,
    pub scan_options: ScanOptions,
    pub warning: Option<String>,
}

/// How a pane is made when the program starts.
#[verifier::ext_equal]
pub struct PanePlanView {
    pub root: FsPathView,
    pub restores: bool,
    pub scan_options: ScanOptions,
    pub warning: Option<Seq<char>>,
}

impl PanePlan {
    pub open spec fn view(&self) -> PanePlanView {
        PanePlanView {
            root: self.root@,
            restores: self.restores,
            scan_options: self.scan_options,
            warning: warning_view(self.warning),
        }
    }
}

/// How a pane is made, where it is known whether its folder is the one that was asked for.
pub open spec fn pane_plan(
    id: PaneId,
    candidate: FsPathView,
    candidate_text: Seq<char>,
    same_root: bool,
    kept: Option<ScanOptions>,
    scan_options: ScanOptions,
) -> PanePlanView {
    PanePlanView {
        root: candidate,
        restores: kept is Some && same_root,
        scan_options: match kept {
            Some(options) => options,
            None => scan_options,
        },
        warning: if same_root {
            None
        } else {
            Some(pane_words(id, " root is unavailable; using "@ + candidate_text))
        },
    }
}

/// A text that may be missing.
pub open spec fn warning_view(warning: Option<String>) -> Option<Seq<char>> {
    match warning {
        Some(text) => Some(text@),
        None => None,
    }
}

/// A pane's number in a sentence.
pub open spec fn pane_words(id: PaneId, words: Seq<char>) -> Seq<char> {
    "Pane "@ + decimal(id.0 as nat) + words
}

fn pane_sentence(id: PaneId, words: &str) -> (r: String)
    ensures
        r@ == pane_words(id, words@),
{
    "Pane ".to_owned().concat(decimal_text(id.0).as_str()).concat(words)
}

/// How a pane is made. `candidate` is the folder that is there, `requested` the one that
/// was asked for; `kept` is how its tree was scanned last time. Whether the two are the
/// same is for the platform to say.
pub fn plan_pane(
    id: PaneId,
    candidate: FsPath,
    candidate_text: &str,
    requested: &FsPath,
    kept: Option<ScanOptions>,
    scan_options: ScanOptions,
) -> (r: PanePlan)
    ensures
        exists|same_root: bool| #[trigger]
            compared(candidate@, requested@, same_root) && r@ == pane_plan(
                id,
                candidate@,
                candidate_text@,
                same_root,
                kept,
                scan_options,
            ),
{
    let same_root = candidate.is_same_path(requested);
    plan_pane_at(id, candidate, candidate_text, same_root, kept, scan_options)
}

/// How a pane is made. `candidate` is the folder that is there, and `same_root` says
/// whether it is the one that was asked for; `kept` is how its tree was scanned last
/// time.
pub fn plan_pane_at(
    id: PaneId,
    candidate: FsPath,
    candidate_text: &str,
    same_root: bool,
    kept: Option<ScanOptions>,
    scan_options: ScanOptions,
) -> (r: PanePlan)
    ensures
        r@ == pane_plan(id, candidate@, candidate_text@, same_root, kept, scan_options),
{
    let warning = if same_root {
        None
    } else {
        let words = " root is unavailable; using ".to_owned().concat(candidate_text);
        Some(pane_sentence(id, words.as_str()))
    };
    PanePlan {
        root: candidate,
        restores: kept.is_some() && same_root,
        scan_options: match kept {
            Some(options) => options,
            None => scan_options,
        },
        warning,
    }
}

/// A pane that has been made: the first lines of its buffer, and where the cursor is.
pub struct PaneStart {
    pub controller: SaveController,
    pub lines: Vec<EditorLine>,
    pub cursor_line: Option<usize>,
}

/// The folds of a pane that has just been made: those that were kept, else every
/// directory is folded away.
pub open spec fn first_folds(entries: Seq<EntryView>, kept: Option<SessionPaneView>) -> Set<u64> {
    match kept {
        Some(pane) => dirs_at(entries, pane.collapsed),
        None => dirs_within(entries, None),
    }
}

/// The line of the cursor in a pane that has just been made, where it has one.
pub open spec fn first_line(entries: Seq<EntryView>, kept: Option<SessionPaneView>) -> Option<
    nat,
> {
    match kept {
        Some(pane) => match pane.cursor {
            Some(cursor) => line_of_place(entries, first_folds(entries, kept), cursor),
            None => None,
        },
        None => None,
    }
}

/// What was kept of a pane, if anything was.
pub open spec fn kept_view(kept: Option<&SessionPane>) -> Option<SessionPaneView> {
    match kept {
        Some(pane) => Some(pane@),
        None => None,
    }
}

/// Makes a pane. `baseline` is its tree as it was read, with the directories loaded
/// that were expanded the last time.
pub fn create_pane(
    root: FsPath,
    baseline: BaselineTree,
    scan_options: ScanOptions,
    kept: Option<&SessionPane>,
) -> (r: PaneStart)
    ensures
        r.controller@ == (SaveView {
            state: SaveStateView::Idle,
            root: root@,
            baseline: baseline@,
            collapsed: first_folds(baseline@.entries, kept_view(kept)),
            scan_options,
            commands: Seq::empty(),
        }),
        line_texts(r.lines@) == shown_lines(
            baseline@.entries,
            first_folds(baseline@.entries, kept_view(kept)),
        ),
        position(r.cursor_line) == first_line(baseline@.entries, kept_view(kept)),
{
    let mut controller = SaveController::new_with_scan_options(root, baseline, scan_options);
    match kept {
        Some(pane) => controller.restore_collapsed_paths(&pane.collapsed),
        None => controller.collapse_all_dirs(),
    }
    assert(controller@.collapsed =~= first_folds(baseline@.entries, kept_view(kept)));
    let lines = controller.visible_lines();
    let cursor_line = match kept {
        Some(pane) => match &pane.cursor {
            Some(cursor) => controller.visible_line_for_path(cursor),
            None => None,
        },
        None => None,
    };
    PaneStart { controller, lines, cursor_line }
}

/// What is done where a pane could not be made.
#[derive(Debug)]
pub enum CreateFailure {
    /// It is tried with the folder that is always there.
    Retry { warning: String },
    /// The program starts without it.
    Remove { warning: String },
    /// The program does not start.
    Fail,
}

/// What is done where a pane could not be made.
#[verifier::ext_equal]
#[allow(inconsistent_fields)]
pub enum CreateFailureView {
    Retry { warning: Seq<char> },
    Remove { warning: Seq<char> },
    Fail,
}

impl CreateFailure {
    pub open spec fn view(&self) -> CreateFailureView {
        match self {
            CreateFailure::Retry { warning } => CreateFailureView::Retry { warning: warning@ },
            CreateFailure::Remove { warning } => CreateFailureView::Remove { warning: warning@ },
            CreateFailure::Fail => CreateFailureView::Fail,
        }
    }
}

/// What is done where a pane could not be made at last: a pane of the last time is
/// left out, and without any the program does not start.
pub open spec fn given_up(id: PaneId, error: Seq<char>, has_session: bool) -> CreateFailureView {
    if has_session {
        CreateFailureView::Remove {
            warning: pane_words(id, " could not be restored and was removed: "@ + error),
        }
    } else {
        CreateFailureView::Fail
    }
}

/// What is done where a pane could not be made at last.
pub fn after_last_failure(id: PaneId, error: &str, has_session: bool) -> (r: CreateFailure)
    ensures
        r@ == given_up(id, error@, has_session),
{
    if has_session {
        let words = " could not be restored and was removed: ".to_owned().concat(error);
        CreateFailure::Remove { warning: pane_sentence(id, words.as_str()) }
    } else {
        CreateFailure::Fail
    }
}

/// What is done where a pane could not be made. `at_fallback` says whether it was
/// already tried with the folder that is always there.
pub open spec fn failed_first(
    id: PaneId,
    candidate: FsPathView,
    fallback: FsPathView,
    error: Seq<char>,
    at_fallback: bool,
    has_session: bool,
) -> CreateFailureView {
    if at_fallback {
        given_up(id, error, has_session)
    } else {
        CreateFailureView::Retry {
            warning: pane_words(
                id,
                " could not open "@ + candidate.text + " ("@ + error + "); using "@
                    + fallback.text,
            ),
        }
    }
}

/// What is done where a pane could not be made with the folder `candidate`; `fallback` is
/// the one that is always there. Whether the two are the same is for the platform to say.
pub fn after_first_failure(
    id: PaneId,
    candidate: &FsPath,
    fallback: &FsPath,
    error: &str,
    has_session: bool,
) -> (r: CreateFailure)
    ensures
        exists|at_fallback: bool| #[trigger]
            compared(candidate@, fallback@, at_fallback) && r@ == failed_first(
                id,
                candidate@,
                fallback@,
                error@,
                at_fallback,
                has_session,
            ),
{
    let at_fallback = candidate.is_same_path(fallback);
    after_failure_at(id, candidate, fallback, error, at_fallback, has_session)
}

/// What is done where a pane could not be made with the folder `candidate`. `at_fallback`
/// says whether that is the one that is always there.
pub fn after_failure_at(
    id: PaneId,
    candidate: &FsPath,
    fallback: &FsPath,
    error: &str,
    at_fallback: bool,
    has_session: bool,
) -> (r: CreateFailure)
    ensures
        r@ == failed_first(id, candidate@, fallback@, error@, at_fallback, has_session),
{
    if at_fallback {
        return after_last_failure(id, error, has_session);
    }
    let words = " could not open ".to_owned().concat(candidate.text.as_str()).concat(" (").concat(
        error,
    ).concat("); using ").concat(fallback.text.as_str());
    CreateFailure::Retry { warning: pane_sentence(id, words.as_str()) }
}

/// How a pane is made again with the folder that is always there: as it was to be made, but
/// nothing that was kept of it applies.
pub fn plan_again(plan: &PanePlan, fallback: FsPath) -> (r: PanePlan)
    ensures
        r@ == (PanePlanView {
            root: fallback@,
            restores: false,
            scan_options: plan@.scan_options,
            warning: None,
        }),
{
    PanePlan { root: fallback, restores: false, scan_options: plan.scan_options, warning: None }
}

/// The pane that is made where none could be: the first one, with the folder that is always
/// there and the options that the program starts with.
pub fn plan_only_pane(available: &Vec<PaneId>, fallback: FsPath, scan_options: ScanOptions) -> (r:
    Option<(PaneId, PanePlan)>)
    ensures
        match r {
            Some((id, plan)) => available@.len() == 0 && id == PaneId(1) && plan@ == (
            PanePlanView { root: fallback@, restores: false, scan_options, warning: None }),
            None => available@.len() > 0,
        },
{
    if available.len() > 0 {
        return None;
    }
    let plan = PanePlan { root: fallback, restores: false, scan_options, warning: None };
    Some((PaneId(1), plan))
}

/// The smallest number among panes.
pub open spec fn first_id(panes: Seq<PaneId>) -> PaneId
    recommends
        panes.len() > 0,
    decreases panes.len(),
{
    if panes.len() <= 1 {
        panes[0]
    } else if panes.last().0 < first_id(panes.drop_last()).0 {
        panes.last()
    } else {
        first_id(panes.drop_last())
    }
}

/// The largest number among panes.
pub open spec fn largest_id(panes: Seq<PaneId>) -> u64
    decreases panes.len(),
{
    if panes.len() == 0 {
        0
    } else if panes.last().0 > largest_id(panes.drop_last()) {
        panes.last().0
    } else {
        largest_id(panes.drop_last())
    }
}

/// How the panes that could be made share the window.
pub open spec fn starting_layout(requested: PaneLayout, available: Seq<PaneId>) -> PaneLayout {
    match retained(requested, available) {
        Some(layout) => layout,
        None => PaneLayout::Leaf(first_id(available)),
    }
}

/// The pane that is active first.
pub open spec fn starting_active(
    requested: PaneLayout,
    requested_active: PaneId,
    available: Seq<PaneId>,
) -> PaneId {
    if available.contains(requested_active) {
        requested_active
    } else {
        leaves_of(starting_layout(requested, available))[0]
    }
}

/// The number of the next pane.
pub open spec fn next_id_after(available: Seq<PaneId>) -> u64 {
    if largest_id(available) < u64::MAX {
        (largest_id(available) + 1) as u64
    } else {
        u64::MAX
    }
}

/// How the panes that could be made share the window, which one is active first, and
/// the number of the next one.
pub fn initial_panes(requested: &PaneLayout, requested_active: PaneId, available: &Vec<PaneId>) -> (r:
    (PaneLayout, PaneId, u64))
    requires
        available@.len() > 0,
    ensures
        r.0 == starting_layout(*requested, available@),
        r.1 == starting_active(*requested, requested_active, available@),
        r.2 == next_id_after(available@),
{
    let mut smallest: PaneId = available[0];
    let mut largest: u64 = available[0].0;
    let mut i: usize = 1;
    assert(available@.take(1).drop_last() =~= Seq::empty());
    assert(available@.take(1).last() == available@[0]);
    assert(largest_id(available@.take(1).drop_last()) == 0);
    while i < available.len()
        invariant
            1 <= i <= available.len(),
            smallest == first_id(available@.take(i as int)),
            largest == largest_id(available@.take(i as int)),
        decreases available.len() - i,
    {
        assert(available@.take(i + 1).drop_last() =~= available@.take(i as int));
        assert(available@.take(i + 1).last() == available@[i as int]);
        if available[i].0 < smallest.0 {
            smallest = available[i];
        }
        if available[i].0 > largest {
            largest = available[i].0;
        }
        i = i + 1;
    }
    assert(available@.take(available@.len() as int) =~= available@);
    let layout = match retain_available_layout(requested, available) {
        Some(layout) => layout,
        None => PaneLayout::Leaf(smallest),
    };
    let active = if contains_pane(available, requested_active) {
        requested_active
    } else {
        proof {
            crate::pane::layout_has_a_pane(layout);
        }
        layout.leaves()[0]
    };
    (layout, active, largest.saturating_add(1))
}

/// Each pane that is available and was shown is shown again, and the pane that is
/// active first is shown.
pub proof fn available_panes_come_back(
    requested: PaneLayout,
    requested_active: PaneId,
    available: Seq<PaneId>,
)
    requires
        available.len() > 0,
        leaves_of(requested).contains(requested_active),
        forall|i: int|
            0 <= i < available.len() ==> leaves_of(requested).contains(#[trigger] available[i]),
    ensures
        leaves_of(starting_layout(requested, available)) == only(leaves_of(requested), available),
        leaves_of(starting_layout(requested, available)).contains(
            starting_active(requested, requested_active, available),
        ),
        forall|i: int|
            0 <= i < available.len() ==> leaves_of(
                starting_layout(requested, available),
            ).contains(#[trigger] available[i]),
{
    retaining_keeps_available_panes(requested, available);
    let kept = only(leaves_of(requested), available);
    assert forall|i: int| 0 <= i < available.len() implies kept.contains(#[trigger] available[i]) by {
        lemma_only_keeps(leaves_of(requested), available, available[i]);
    }
    assert(kept.contains(available[0]));
    let layout = starting_layout(requested, available);
    crate::pane::layout_has_a_pane(layout);
    if available.contains(requested_active) {
        lemma_only_keeps(leaves_of(requested), available, requested_active);
    } else {
        assert(leaves_of(layout).contains(leaves_of(layout)[0]));
    }
}

/// What is asked for and there is kept.
proof fn lemma_only_keeps(panes: Seq<PaneId>, available: Seq<PaneId>, id: PaneId)
    requires
        panes.contains(id),
        available.contains(id),
    ensures
        only(panes, available).contains(id),
{
    broadcast use vstd::seq_lib::group_filter_ensures;

}

/// The directories at one depth, in order.
pub open spec fn at_depth(paths: Seq<Seq<Seq<char>>>, depth: nat) -> Seq<Seq<Seq<char>>>
    decreases paths.len(),
{
    if paths.len() == 0 {
        Seq::empty()
    } else if paths.last().len() == depth {
        at_depth(paths.drop_last(), depth).push(paths.last())
    } else {
        at_depth(paths.drop_last(), depth)
    }
}

/// The directories above a depth, those further up first.
pub open spec fn above_depth(paths: Seq<Seq<Seq<char>>>, depth: nat) -> Seq<Seq<Seq<char>>>
    decreases depth,
{
    if depth == 0 {
        Seq::empty()
    } else {
        above_depth(paths, (depth - 1) as nat) + at_depth(paths, (depth - 1) as nat)
    }
}

/// The depth of the deepest directory.
pub open spec fn deepest(paths: Seq<Seq<Seq<char>>>) -> nat
    decreases paths.len(),
{
    if paths.len() == 0 {
        0
    } else if paths.last().len() > deepest(paths.drop_last()) {
        paths.last().len()
    } else {
        deepest(paths.drop_last())
    }
}

/// The order in which directories are loaded again: each after those above it.
pub open spec fn loading_order(paths: Seq<Seq<Seq<char>>>) -> Seq<Seq<Seq<char>>> {
    above_depth(paths, deepest(paths)) + at_depth(paths, deepest(paths))
}

/// The directories at one depth, in order.
fn paths_at_depth(paths: &Vec<TreePath>, depth: usize) -> (r: Vec<TreePath>)
    ensures
        paths_view(r@) == at_depth(paths_view(paths@), depth as nat),
{
    let ghost all = paths_view(paths@);
    let mut out: Vec<TreePath> = Vec::new();
    let mut i: usize = 0;
    assert(all.take(0) =~= Seq::empty());
    assert(paths_view(out@) =~= Seq::empty());
    while i < paths.len()
        invariant
            i <= paths.len(),
            all == paths_view(paths@),
            paths_view(out@) == at_depth(all.take(i as int), depth as nat),
        decreases paths.len() - i,
    {
        assert(all.take(i + 1).drop_last() =~= all.take(i as int));
        assert(all.take(i + 1).last() == paths@[i as int]@);
        let ghost before = out@;
        if paths[i].depth() == depth {
            out.push(paths[i].copy());
            assert(paths_view(out@) =~= paths_view(before).push(paths@[i as int]@));
        }
        i = i + 1;
    }
    assert(all.take(all.len() as int) =~= all);
    out
}

/// The order in which directories are loaded again: each after those above it.
pub fn restore_order(expanded: &Vec<TreePath>) -> (r: Vec<TreePath>)
    ensures
        paths_view(r@) == loading_order(paths_view(expanded@)),
{
    let ghost all = paths_view(expanded@);
    let mut depth: usize = 0;
    let mut i: usize = 0;
    assert(all.take(0) =~= Seq::empty());
    while i < expanded.len()
        invariant
            i <= expanded.len(),
            all == paths_view(expanded@),
            depth == deepest(all.take(i as int)),
        decreases expanded.len() - i,
    {
        assert(all.take(i + 1).drop_last() =~= all.take(i as int));
        assert(all.take(i + 1).last() == expanded@[i as int]@);
        if expanded[i].depth() > depth {
            depth = expanded[i].depth();
        }
        i = i + 1;
    }
    assert(all.take(all.len() as int) =~= all);
    let mut out: Vec<TreePath> = Vec::new();
    let mut d: usize = 0;
    assert(paths_view(out@) =~= Seq::empty());
    while d < depth
        invariant
            d <= depth,
            all == paths_view(expanded@),
            paths_view(out@) == above_depth(all, d as nat),
        decreases depth - d,
    {
        let mut level = paths_at_depth(expanded, d);
        let ghost before = out@;
        let ghost added = level@;
        out.append(&mut level);
        assert(paths_view(out@) =~= paths_view(before) + paths_view(added));
        d = d + 1;
    }
    let mut level = paths_at_depth(expanded, depth);
    let ghost before = out@;
    let ghost added = level@;
    out.append(&mut level);
    assert(paths_view(out@) =~= paths_view(before) + paths_view(added));
    out
}

/// What stands at one depth stands there.
proof fn lemma_at_depth(paths: Seq<Seq<Seq<char>>>, depth: nat, i: int)
    requires
        0 <= i < at_depth(paths, depth).len(),
    ensures
        at_depth(paths, depth)[i].len() == depth,
    decreases paths.len(),
{
    let rest = paths.drop_last();
    if i < at_depth(rest, depth).len() {
        lemma_at_depth(rest, depth, i);
    }
}

/// What stands above a depth is in order.
proof fn lemma_above_depth(paths: Seq<Seq<Seq<char>>>, depth: nat, i: int, j: int)
    requires
        0 <= i <= j < above_depth(paths, depth).len(),
    ensures
        above_depth(paths, depth)[i].len() <= above_depth(paths, depth)[j].len() < depth,
    decreases depth,
{
    let above = above_depth(paths, (depth - 1) as nat);
    if j < above.len() {
        lemma_above_depth(paths, (depth - 1) as nat, i, j);
    } else {
        lemma_at_depth(paths, (depth - 1) as nat, j - above.len());
        if i < above.len() {
            lemma_above_depth(paths, (depth - 1) as nat, i, i);
        } else {
            lemma_at_depth(paths, (depth - 1) as nat, i - above.len());
        }
    }
}

/// A directory is loaded again after every directory further up.
pub proof fn parents_are_loaded_first(paths: Seq<Seq<Seq<char>>>, i: int, j: int)
    requires
        0 <= i < j < loading_order(paths).len(),
    ensures
        loading_order(paths)[i].len() <= loading_order(paths)[j].len(),
{
    assert(above_depth(paths, deepest(paths) + 1) == loading_order(paths));
    lemma_above_depth(paths, deepest(paths) + 1, i, j);
}

/// A directory is found at its depth.
proof fn lemma_found_at_depth(paths: Seq<Seq<Seq<char>>>, i: int)
    requires
        0 <= i < paths.len(),
    ensures
        at_depth(paths, paths[i].len()).contains(paths[i]),
        paths[i].len() <= deepest(paths),
    decreases paths.len(),
{
    let rest = paths.drop_last();
    let depth = paths[i].len();
    let found = at_depth(paths, depth);
    if i == paths.len() - 1 {
        assert(found[found.len() - 1] == paths[i]);
    } else {
        assert(rest[i] == paths[i]);
        lemma_found_at_depth(rest, i);
        let k = choose|k: int|
            0 <= k < at_depth(rest, depth).len() && at_depth(rest, depth)[k] == paths[i];
        assert(found[k] == paths[i]);
    }
}

/// What stands at a depth stands above a greater one.
proof fn lemma_found_above(paths: Seq<Seq<Seq<char>>>, path: Seq<Seq<char>>, depth: nat)
    requires
        at_depth(paths, path.len()).contains(path),
        path.len() < depth,
    ensures
        above_depth(paths, depth).contains(path),
    decreases depth,
{
    let above = above_depth(paths, (depth - 1) as nat);
    let level = at_depth(paths, (depth - 1) as nat);
    if path.len() < depth - 1 {
        lemma_found_above(paths, path, (depth - 1) as nat);
        let k = choose|k: int| 0 <= k < above.len() && above[k] == path;
        assert((above + level)[k] == path);
    } else {
        let k = choose|k: int| 0 <= k < level.len() && level[k] == path;
        assert((above + level)[above.len() + k] == path);
    }
}

/// Every directory that was expanded is loaded again.
pub proof fn every_directory_is_loaded_again(paths: Seq<Seq<Seq<char>>>, i: int)
    requires
        0 <= i < paths.len(),
    ensures
        loading_order(paths).contains(paths[i]),
{
    assert(above_depth(paths, deepest(paths) + 1) == loading_order(paths));
    lemma_found_at_depth(paths, i);
    lemma_found_above(paths, paths[i], deepest(paths) + 1);
}

/// The next directory to load again: the first that is not loaded yet, with those
/// behind it.
pub open spec fn next_restored(
    order: Seq<Seq<Seq<char>>>,
    unloaded: Seq<Seq<Seq<char>>>,
    from: nat,
) -> Option<nat>
    decreases order.len() - from,
{
    if from >= order.len() {
        None
    } else if unloaded.contains(order[from as int]) {
        Some(from)
    } else {
        next_restored(order, unloaded, from + 1)
    }
}

/// The place of the next directory to load again, from a place on. `unloaded` are
/// the directories that are not loaded.
pub fn next_to_restore(order: &Vec<TreePath>, unloaded: &Vec<TreePath>, from: usize) -> (r: Option<
    usize,
>)
    ensures
        match (r, next_restored(paths_view(order@), paths_view(unloaded@), from as nat)) {
            (Some(found), Some(expected)) => found == expected && found < order@.len(),
            (None, None) => true,
            _ => false,
        },
{
    let mut i = from;
    while i < order.len()
        invariant
            from <= i,
            next_restored(paths_view(order@), paths_view(unloaded@), from as nat) == next_restored(
                paths_view(order@),
                paths_view(unloaded@),
                i as nat,
            ),
        decreases order.len() - i,
    {
        assert(paths_view(order@)[i as int] == order@[i as int]@);
        if contains_path(unloaded, &order[i]) {
            return Some(i);
        }
        i = i + 1;
    }
    None
}

/// What a user is told where a directory could not be loaded again.
pub fn restore_warning(dir: &TreePath, error: &str) -> (r: String)
    ensures
        r@ == "Could not restore expanded folder "@ + join_path(dir@) + ": "@ + error@,
{
    "Could not restore expanded folder ".to_owned().concat(dir.display().as_str()).concat(
        ": ",
    ).concat(error)
}

/// What the program says where no editor could be started. `diagnostics` say where it
/// was looked for.
pub fn editor_start_failure(diagnostics: &Vec<String>) -> (r: String)
    ensures
        r@ == "Failed to start Neovim.\nSearch results:\n"@ + joined_texts(
            texts(diagnostics@),
            "\n"@,
        )
            + "\n\nReinstall fyler, install Neovim and add it to PATH, or specify the executable with FYLER_NVIM_EXE."@,
{
    "Failed to start Neovim.\nSearch results:\n".to_owned().concat(
        join_texts(diagnostics, "\n").as_str(),
    ).concat(
        "\n\nReinstall fyler, install Neovim and add it to PATH, or specify the executable with FYLER_NVIM_EXE.",
    )
}

/// Messages as they are shown.
pub open spec fn messages_view(messages: Seq<Message>) -> Seq<MessageView> {
    messages.map_values(|message: Message| message@)
}

/// A heading with warnings, if there are any.
pub open spec fn warnings_under(heading: Seq<char>, warnings: Seq<Seq<char>>) -> Seq<MessageView> {
    if warnings.len() == 0 {
        Seq::empty()
    } else {
        seq![message(MessageKind::Warn, heading + joined_texts(warnings, " / "@))]
    }
}

/// A warning, if there is one.
pub open spec fn lone_warning(warning: Option<Seq<char>>) -> Seq<MessageView> {
    match warning {
        Some(text) => seq![message(MessageKind::Warn, text)],
        None => Seq::empty(),
    }
}

/// What a user is told when the program starts, in order.
pub open spec fn first_messages(
    config_warnings: Seq<Seq<char>>,
    session_warnings: Seq<Seq<char>>,
    journal_warning: Option<Seq<char>>,
    recovery_warning: Option<Seq<char>>,
) -> Seq<MessageView> {
    warnings_under("Configuration: "@, config_warnings) + warnings_under(
        "Session: "@,
        session_warnings,
    ) + lone_warning(journal_warning) + lone_warning(recovery_warning)
}

/// Puts a heading with warnings behind messages, if there are any.
fn push_warnings(messages: &mut Vec<Message>, heading: &str, warnings: &Vec<String>)
    ensures
        messages_view(final(messages)@) == messages_view(old(messages)@) + warnings_under(
            heading@,
            texts(warnings@),
        ),
{
    let ghost before = messages@;
    if warnings.len() > 0 {
        let text = heading.to_owned().concat(join_texts(warnings, " / ").as_str());
        messages.push(Message::new(MessageKind::Warn, text.as_str()));
    }
    assert(messages_view(messages@) =~= messages_view(before) + warnings_under(
        heading@,
        texts(warnings@),
    ));
}

/// Puts a warning behind messages, if there is one.
fn push_warning(messages: &mut Vec<Message>, warning: &Option<String>)
    ensures
        messages_view(final(messages)@) == messages_view(old(messages)@) + lone_warning(
            warning_view(*warning),
        ),
{
    let ghost before = messages@;
    if let Some(text) = warning {
        messages.push(Message::new(MessageKind::Warn, text.as_str()));
    }
    assert(messages_view(messages@) =~= messages_view(before) + lone_warning(
        warning_view(*warning),
    ));
}

/// What can go wrong when the program starts, without stopping it.
#[derive(Debug, Clone, Copy, PartialEq, Eq, Structural)]
pub enum StartTrouble {
    /// What was kept of the last time could not be read.
    Session,
    /// There is nothing that a save could be recorded in.
    Journal,
    /// What was recorded could not be looked through.
    Recovery,
}

/// What a user is told of something that went wrong when the program started.
pub open spec fn trouble_text(trouble: StartTrouble, error: Seq<char>) -> Seq<char> {
    (match trouble {
        StartTrouble::Session => "Could not restore the previous session; starting with one pane: "@,
        StartTrouble::Journal => "Failed to open undo journal. The next apply cannot be undone: "@,
        StartTrouble::Recovery => "Failed to scan undo journal at startup: "@,
    }) + error
}

/// What a user is told of something that went wrong when the program started.
pub fn trouble_warning(trouble: StartTrouble, error: &str) -> (r: String)
    ensures
        r@ == trouble_text(trouble, error@),
{
    let words = match trouble {
        StartTrouble::Session => "Could not restore the previous session; starting with one pane: ",
        StartTrouble::Journal => "Failed to open undo journal. The next apply cannot be undone: ",
        StartTrouble::Recovery => "Failed to scan undo journal at startup: ",
    };
    words.to_owned().concat(error)
}

/// What a user is told when the program starts, in order.
pub fn startup_messages(
    config_warnings: &Vec<String>,
    session_warnings: &Vec<String>,
    journal_warning: &Option<String>,
    recovery_warning: &Option<String>,
) -> (r: Vec<Message>)
    ensures
        messages_view(r@) == first_messages(
            texts(config_warnings@),
            texts(session_warnings@),
            warning_view(*journal_warning),
            warning_view(*recovery_warning),
        ),
{
    let mut messages: Vec<Message> = Vec::new();
    assert(messages_view(messages@) =~= Seq::empty());
    push_warnings(&mut messages, "Configuration: ", config_warnings);
    push_warnings(&mut messages, "Session: ", session_warnings);
    push_warning(&mut messages, journal_warning);
    push_warning(&mut messages, recovery_warning);
    assert(messages_view(messages@) =~= first_messages(
        texts(config_warnings@),
        texts(session_warnings@),
        warning_view(*journal_warning),
        warning_view(*recovery_warning),
    ));
    messages
}

/// A pane whose state is kept.
pub struct PaneCapture<'a> {
    pub id: PaneId,
    pub root: FsPath,
    pub controller: &'a SaveController,
    /// The lines of the pane's buffer.
    pub lines: &'a Vec<EditorLine>,
    pub cursor_line: usize,
    pub collapsed: Vec<TreePath>,
    /// The directories that were loaded and expanded.
    pub expanded: Vec<TreePath>,
}

/// A pane whose state is kept.
pub struct PaneCaptureView {
    pub id: PaneId,
    pub root: FsPathView,
    pub save: SaveView,
    pub lines: Seq<Seq<char>>,
    pub cursor_line: int,
    pub collapsed: Seq<Seq<Seq<char>>>,
    pub expanded: Seq<Seq<Seq<char>>>,
}

impl<'a> PaneCapture<'a> {
    pub open spec fn view(&self) -> PaneCaptureView {
        PaneCaptureView {
            id: self.id,
            root: self.root@,
            save: self.controller@,
            lines: line_texts(self.lines@),
            cursor_line: self.cursor_line as int,
            collapsed: paths_view(self.collapsed@),
            expanded: paths_view(self.expanded@),
        }
    }
}

/// What is kept of a pane: the cursor stays with the entry it is on.
pub open spec fn kept_pane(pane: PaneCaptureView) -> SessionPaneView {
    SessionPaneView {
        id: pane.id,
        root: pane.root,
        cursor: match entry_at(pane.save.baseline.entries, pane.lines, pane.cursor_line) {
            Some(entry) => Some(entry.path),
            None => None,
        },
        collapsed: pane.collapsed,
        expanded: pane.expanded,
        scan_options: pane.save.scan_options,
    }
}

/// What is kept when the program ends.
pub fn capture_session(
    panes: Vec<PaneCapture>,
    layout: PaneLayout,
    active: PaneId,
    window: Option<WindowGeometry>,
) -> (r: SessionState)
    ensures
        r@ == (SessionStateView {
            layout,
            active,
            panes: panes@.map_values(|pane: PaneCapture| kept_pane(pane@)),
            window,
        }),
{
    let ghost all = panes@;
    let ghost wanted = all.map_values(|pane: PaneCapture| kept_pane(pane@));
    let mut kept: Vec<SessionPane> = Vec::new();
    assert(panes_view(kept@) =~= wanted.take(0));
    for pane in it: panes
        invariant
            it.seq() == all,
            wanted == all.map_values(|pane: PaneCapture| kept_pane(pane@)),
            panes_view(kept@) == wanted.take(it.index() as int),
    {
        let ghost n = it.index() as int;
        let ghost before = kept@;
        let cursor = match pane.controller.resolve_line(pane.lines, pane.cursor_line) {
            Some((path, _)) => Some(path),
            None => None,
        };
        assert(tree_path_view(cursor) == kept_pane(pane@).cursor);
        let fresh = SessionPane {
            id: pane.id,
            root: pane.root,
            cursor,
            collapsed: pane.collapsed,
            expanded: pane.expanded,
            scan_options: pane.controller.scan_options(),
        };
        assert(fresh@ == kept_pane(all[n]@));
        kept.push(fresh);
        assert(panes_view(kept@) =~= panes_view(before).push(fresh@));
        assert(wanted.take(n + 1) =~= wanted.take(n).push(kept_pane(all[n]@)));
    }
    assert(wanted.take(wanted.len() as int) =~= wanted);
    SessionState { layout, active, panes: kept, window }
}

} // verus!
