//! How the program starts, and what it makes of news from outside.

use vstd::prelude::*;

use crate::baseline::EntryView;
use crate::changes::{
    by_root, changed_for, gathered, others, root_shown, seen_to, with_changes, ChangeGroup, Queued,
};
use crate::feedback::{endpoint, outcome_of, FeedbackReply};
use crate::fold_laws::{folds_at_places, place_leads_to_its_entry, position_is_the_first};
use crate::folding::find_path;
use crate::fs_path::FsPathView;
use crate::git_refresh::{answered, requested, slot_of, SlotView};
use crate::listing::{entry_at, shown};
use crate::nvim_locate::{bundled_place, editor_choice, search_lines, EditorChoiceView};
use crate::options::ScanOptions;
use crate::pane::{leaves_of, retained, PaneId, PaneLayout};
use crate::picker::RootKey;
use crate::session::SessionPaneView;
use crate::startup::{
    above_depth, at_depth, deepest, every_directory_is_loaded_again, failed_first, first_folds,
    first_id, first_line, first_messages, given_up, kept_pane, largest_id, loading_order,
    next_id_after, next_restored, pane_plan, starting_active, starting_layout, PaneCaptureView,
};
use crate::text_laws::{all_white, trimming_takes_blanks_alone};
use crate::transfer_flow::fs_paths_view;
use crate::tree::EntryKind;

verus! {

/// A pane is made with its folder and, where it was there the last time, with what was set
/// for it then; what was kept of it applies just where it was there and its folder is the
/// one that was asked for, and a user is warned where it is not.
pub proof fn pane_is_made_as_it_was(
    id: PaneId,
    candidate: FsPathView,
    candidate_text: Seq<char>,
    same_root: bool,
    kept: Option<ScanOptions>,
    scan_options: ScanOptions,
)
    ensures
        ({
            let plan = pane_plan(id, candidate, candidate_text, same_root, kept, scan_options);
            &&& plan.root == candidate
            &&& plan.restores <==> kept is Some && same_root
            &&& kept matches Some(options) ==> plan.scan_options == options
            &&& kept is None ==> plan.scan_options == scan_options
            &&& plan.warning is Some <==> !same_root
        }),
{
}

/// A pane that could not be made is tried again just where its folder is not the one that
/// is always there; after that a pane of the last time is left out, and without such panes
/// the program does not start.
pub proof fn panes_that_cannot_be_made(
    id: PaneId,
    candidate: FsPathView,
    fallback: FsPathView,
    error: Seq<char>,
    at_fallback: bool,
    has_session: bool,
)
    ensures
        failed_first(id, candidate, fallback, error, at_fallback, has_session) is Retry
            <==> !at_fallback,
        at_fallback ==> failed_first(id, candidate, fallback, error, at_fallback, has_session)
            == given_up(id, error, has_session),
        given_up(id, error, has_session) is Remove <==> has_session,
        given_up(id, error, has_session) is Fail <==> !has_session,
{
}

/// A pane starts with just the directories folded that were folded the last time, or with
/// every directory folded where nothing was kept of it; its cursor stands where it did,
/// where that place is shown.
pub proof fn pane_starts_as_it_was_left(
    entries: Seq<EntryView>,
    kept: SessionPaneView,
    id: u64,
)
    ensures
        first_folds(entries, Some(kept)).contains(id) <==> exists|k: int|
            0 <= k < entries.len() && (#[trigger] entries[k]).id.0 == id && entries[k].kind
                == EntryKind::Dir && kept.collapsed.contains(entries[k].path),
        first_folds(entries, None).contains(id) <==> exists|k: int|
            0 <= k < entries.len() && (#[trigger] entries[k]).id.0 == id && entries[k].kind
                == EntryKind::Dir,
        first_line(entries, None) is None,
        kept.cursor is None ==> first_line(entries, Some(kept)) is None,
        first_line(entries, Some(kept)) matches Some(at) ==> {
            let now = shown(entries, first_folds(entries, Some(kept)));
            &&& at < now.len()
            &&& exists|k: int|
                0 <= k < entries.len() && Some((#[trigger] entries[k]).path) == kept.cursor
                    && entries[k].id == now[at as int].id
        },
{
    folds_at_places(entries, kept.collapsed, Seq::empty(), id);
    if let Some(cursor) = kept.cursor {
        place_leads_to_its_entry(entries, cursor);
        if let Some(entry) = find_path(entries, cursor) {
            position_is_the_first(shown(entries, first_folds(entries, Some(kept))), entry.id);
        }
    }
}

/// The first pane has the smallest number and the next pane a larger one than all, as long
/// as there is one.
pub proof fn panes_are_numbered(panes: Seq<PaneId>, i: int)
    requires
        0 <= i < panes.len(),
    ensures
        panes.contains(first_id(panes)),
        first_id(panes).0 <= panes[i].0,
        panes[i].0 <= largest_id(panes),
        panes.contains(PaneId(largest_id(panes))),
        largest_id(panes) < u64::MAX ==> next_id_after(panes) == largest_id(panes) + 1,
        largest_id(panes) < u64::MAX ==> panes[i].0 < next_id_after(panes),
        largest_id(panes) == u64::MAX ==> next_id_after(panes) == u64::MAX,
    decreases panes.len(),
{
    let shorter = panes.drop_last();
    let n = panes.len() - 1;
    assert(panes[n] == panes.last());
    if shorter.len() == 0 {
        assert(largest_id(shorter) == 0);
        assert(panes[0] == panes.last());
        assert(PaneId(largest_id(panes)) == panes[0]);
    } else {
        let k = if i < n {
            i
        } else {
            0
        };
        panes_are_numbered(shorter, k);
        let a = choose|a: int| 0 <= a < shorter.len() && shorter[a] == first_id(shorter);
        assert(panes[a] == first_id(shorter));
        let b = choose|b: int|
            0 <= b < shorter.len() && shorter[b] == PaneId(largest_id(shorter));
        assert(panes[b] == PaneId(largest_id(shorter)));
        if largest_id(panes) != largest_id(shorter) {
            assert(panes[n] == PaneId(largest_id(panes)));
        }
    }
}

/// The window of the last time is cut down to the panes that could be made, and is the
/// first of them where it shows none; the pane that was active stays so where it is there,
/// and else the first that is shown is.
pub proof fn window_starts_as_it_was_left(
    requested: PaneLayout,
    active: PaneId,
    available: Seq<PaneId>,
)
    requires
        available.len() > 0,
    ensures
        retained(requested, available) matches Some(layout) ==> starting_layout(
            requested,
            available,
        ) == layout,
        retained(requested, available) is None ==> (starting_layout(
            requested,
            available,
        ) matches PaneLayout::Leaf(pane) && available.contains(pane)),
        available.contains(active) ==> starting_active(requested, active, available) == active,
        !available.contains(active) ==> starting_active(requested, active, available) == leaves_of(
            starting_layout(requested, available),
        )[0],
{
    panes_are_numbered(available, 0);
}

/// Directories are loaded again just as often as they were expanded, nothing else is
/// loaded, and those of one depth come in their order.
pub proof fn just_the_expanded_are_loaded(paths: Seq<Seq<Seq<char>>>, path: Seq<Seq<char>>)
    ensures
        loading_order(paths).contains(path) <==> paths.contains(path),
        loading_order(paths).len() == paths.len(),
{
    assert(above_depth(paths, deepest(paths) + 1) == loading_order(paths));
    lemma_above_holds(paths, path, deepest(paths) + 1);
    lemma_deepest(paths);
    lemma_above_count(paths, deepest(paths) + 1);
    if paths.contains(path) {
        let i = choose|i: int| 0 <= i < paths.len() && paths[i] == path;
        every_directory_is_loaded_again(paths, i);
    }
}

proof fn lemma_at_holds(paths: Seq<Seq<Seq<char>>>, path: Seq<Seq<char>>, depth: nat)
    ensures
        at_depth(paths, depth).contains(path) ==> paths.contains(path),
    decreases paths.len(),
{
    if paths.len() > 0 {
        let shorter = paths.drop_last();
        lemma_at_holds(shorter, path, depth);
        let all = at_depth(paths, depth);
        let before = at_depth(shorter, depth);
        if all.contains(path) {
            let k = choose|k: int| 0 <= k < all.len() && all[k] == path;
            if k < before.len() {
                assert(before[k] == path);
                let i = choose|i: int| 0 <= i < shorter.len() && shorter[i] == path;
                assert(paths[i] == path);
            } else {
                assert(paths[paths.len() - 1] == path);
            }
        }
    }
}

proof fn lemma_above_holds(paths: Seq<Seq<Seq<char>>>, path: Seq<Seq<char>>, depth: nat)
    ensures
        above_depth(paths, depth).contains(path) ==> paths.contains(path),
    decreases depth,
{
    if depth > 0 {
        let less = (depth - 1) as nat;
        lemma_above_holds(paths, path, less);
        lemma_at_holds(paths, path, less);
        let all = above_depth(paths, depth);
        let above = above_depth(paths, less);
        let level = at_depth(paths, less);
        if all.contains(path) {
            let k = choose|k: int| 0 <= k < all.len() && all[k] == path;
            if k < above.len() {
                assert(above[k] == path);
            } else {
                assert(level[k - above.len()] == path);
            }
        }
    }
}

proof fn lemma_deepest(paths: Seq<Seq<Seq<char>>>)
    ensures
        forall|i: int| 0 <= i < paths.len() ==> (#[trigger] paths[i]).len() <= deepest(paths),
    decreases paths.len(),
{
    if paths.len() > 0 {
        let shorter = paths.drop_last();
        lemma_deepest(shorter);
        assert forall|i: int| 0 <= i < paths.len() implies (#[trigger] paths[i]).len() <= deepest(
            paths,
        ) by {
            if i < shorter.len() {
                assert(shorter[i] == paths[i]);
            }
        }
    }
}

/// How many directories stand above a depth.
spec fn count_above(paths: Seq<Seq<Seq<char>>>, depth: nat) -> nat
    decreases paths.len(),
{
    if paths.len() == 0 {
        0
    } else {
        count_above(paths.drop_last(), depth) + (if paths.last().len() < depth {
            1nat
        } else {
            0nat
        })
    }
}

proof fn lemma_count_step(paths: Seq<Seq<Seq<char>>>, depth: nat)
    requires
        depth > 0,
    ensures
        count_above(paths, depth) == count_above(paths, (depth - 1) as nat) + at_depth(
            paths,
            (depth - 1) as nat,
        ).len(),
        count_above(paths, 0) == 0,
    decreases paths.len(),
{
    if paths.len() > 0 {
        lemma_count_step(paths.drop_last(), depth);
    }
}

proof fn lemma_count_all(paths: Seq<Seq<Seq<char>>>, depth: nat)
    requires
        forall|i: int| 0 <= i < paths.len() ==> (#[trigger] paths[i]).len() < depth,
    ensures
        count_above(paths, depth) == paths.len(),
    decreases paths.len(),
{
    if paths.len() > 0 {
        let shorter = paths.drop_last();
        assert(paths[paths.len() - 1].len() < depth);
        assert forall|i: int| 0 <= i < shorter.len() implies (#[trigger] shorter[i]).len()
            < depth by {
            assert(paths[i].len() < depth);
        }
        lemma_count_all(shorter, depth);
    }
}

proof fn lemma_above_len(paths: Seq<Seq<Seq<char>>>, depth: nat)
    ensures
        above_depth(paths, depth).len() == count_above(paths, depth),
    decreases depth,
{
    if depth > 0 {
        lemma_above_len(paths, (depth - 1) as nat);
        lemma_count_step(paths, depth);
    } else {
        lemma_count_step(paths, 1);
    }
}

proof fn lemma_above_count(paths: Seq<Seq<Seq<char>>>, depth: nat)
    requires
        forall|i: int| 0 <= i < paths.len() ==> (#[trigger] paths[i]).len() < depth,
    ensures
        above_depth(paths, depth).len() == paths.len(),
{
    lemma_above_len(paths, depth);
    lemma_count_all(paths, depth);
}

/// The next directory that is loaded again is the first, from a place on, that is not
/// loaded.
pub proof fn next_unloaded_is_loaded(
    order: Seq<Seq<Seq<char>>>,
    unloaded: Seq<Seq<Seq<char>>>,
    from: nat,
)
    ensures
        match next_restored(order, unloaded, from) {
            Some(at) => from <= at < order.len() && unloaded.contains(order[at as int]) && forall|
                k: int,
            | from <= k < at ==> !unloaded.contains(#[trigger] order[k]),
            None => forall|k: int|
                from <= k < order.len() ==> !unloaded.contains(#[trigger] order[k]),
        },
    decreases order.len() - from,
{
    if from < order.len() && !unloaded.contains(order[from as int]) {
        next_unloaded_is_loaded(order, unloaded, from + 1);
    }
}

/// What is kept of a pane is where it stands, what is folded and loaded in it, how it is
/// read, and the place of the entry under its cursor.
pub proof fn pane_is_kept_as_it_is(pane: PaneCaptureView)
    ensures
        kept_pane(pane).id == pane.id,
        kept_pane(pane).root == pane.root,
        kept_pane(pane).collapsed == pane.collapsed,
        kept_pane(pane).expanded == pane.expanded,
        kept_pane(pane).scan_options == pane.save.scan_options,
        entry_at(pane.save.baseline.entries, pane.lines, pane.cursor_line) matches Some(entry)
            ==> kept_pane(pane).cursor == Some(entry.path),
        entry_at(pane.save.baseline.entries, pane.lines, pane.cursor_line) is None ==> kept_pane(
            pane,
        ).cursor is None,
{
}

/// When the program starts a user is warned once of each kind of trouble that there is, and
/// of nothing where there is none.
pub proof fn troubles_are_told_once(
    config: Seq<Seq<char>>,
    session: Seq<Seq<char>>,
    journal: Option<Seq<char>>,
    recovery: Option<Seq<char>>,
    i: int,
)
    ensures
        first_messages(config, session, journal, recovery).len() == (if config.len() > 0 {
            1int
        } else {
            0
        }) + (if session.len() > 0 {
            1int
        } else {
            0
        }) + (if journal is Some {
            1int
        } else {
            0
        }) + (if recovery is Some {
            1int
        } else {
            0
        }),
        0 <= i < first_messages(config, session, journal, recovery).len() ==> first_messages(
            config,
            session,
            journal,
            recovery,
        )[i].kind is Warn,
{
}

/// What changed in a pane is just what was told of it: before, or by a change in the queue
/// that is about it.
pub proof fn changes_are_gathered_by_pane<E>(
    start: Map<u64, Set<FsPathView>>,
    queued: Seq<Queued<E>>,
    key: u64,
    path: FsPathView,
)
    ensures
        changed_for(gathered(start, queued), key).contains(path) <==> changed_for(
            start,
            key,
        ).contains(path) || exists|i: int| #[trigger] tells_of(queued, i, key, path),
    decreases queued.len(),
{
    if queued.len() > 0 {
        let shorter = queued.drop_last();
        let n = queued.len() - 1;
        changes_are_gathered_by_pane(start, shorter, key, path);
        if exists|i: int| #[trigger] tells_of(shorter, i, key, path) {
            let i = choose|i: int| #[trigger] tells_of(shorter, i, key, path);
            assert(tells_of(queued, i, key, path));
        }
        if exists|i: int| #[trigger] tells_of(queued, i, key, path) {
            let i = choose|i: int| #[trigger] tells_of(queued, i, key, path);
            if i < n {
                assert(tells_of(shorter, i, key, path));
            }
        }
        if let Queued::Changed { pane, paths } = queued[n] {
            if pane.0 == key && fs_paths_view(paths@).contains(path) {
                assert(tells_of(queued, n, key, path));
            }
        }
    }
}

/// Whether something in the queue tells that a path changed in a pane.
pub open spec fn tells_of<E>(
    queued: Seq<Queued<E>>,
    i: int,
    key: u64,
    path: FsPathView,
) -> bool {
    0 <= i < queued.len() && (queued[i] matches Queued::Changed { pane, paths } && pane.0 == key
        && fs_paths_view(paths@).contains(path))
}

/// What is no change stays in the queue, in its order.
pub proof fn other_news_stays_in_order<E>(
    queued: Seq<Queued<E>>,
    more: Seq<Queued<E>>,
    event: E,
)
    ensures
        others(queued + more) == others(queued) + others(more),
        others(seq![Queued::Other(event)]) == seq![event],
    decreases more.len(),
{
    let one = seq![Queued::Other(event)];
    assert(one.drop_last() =~= Seq::empty());
    assert(others(one.drop_last()) =~= Seq::empty());
    assert(others(one) =~= seq![event]);
    if more.len() == 0 {
        assert(queued + more =~= queued);
        assert(others(queued) + others(more) =~= others(queued));
    } else {
        other_news_stays_in_order(queued, more.drop_last(), event);
        assert((queued + more).drop_last() =~= queued + more.drop_last());
        assert((queued + more).last() == more.last());
        assert(others(queued + more) =~= others(queued) + others(more));
    }
}

/// News for a key is added to what was there, and other keys keep theirs; what is handed
/// out is just what there is, without the keys for which there is nothing.
pub proof fn changes_are_kept_by_key(
    changes: Map<u64, Set<FsPathView>>,
    key: u64,
    paths: Set<FsPathView>,
    other: u64,
    path: FsPathView,
)
    ensures
        changed_for(with_changes(changes, key, paths), other).contains(path) <==> changed_for(
            changes,
            other,
        ).contains(path) || (other == key && paths.contains(path)),
        changed_for(seen_to(changes), other) == changed_for(changes, other),
        seen_to(changes).dom().contains(other) <==> exists|at: FsPathView| #[trigger]
            changed_for(changes, other).contains(at),
{
    if changes.dom().contains(other) {
        if exists|at: FsPathView| #[trigger] changed_for(changes, other).contains(at) {
            let at = choose|at: FsPathView| #[trigger] changed_for(changes, other).contains(at);
            assert(changes[other].contains(at));
        } else {
            assert(changes[other] =~= Set::empty());
        }
    }
}

/// A pane shows the root that is told of it first, and none where nothing is.
pub proof fn root_of_a_pane(roots: Seq<(PaneId, RootKey)>, pane: u64, i: int)
    ensures
        0 <= i < roots.len() && roots[i].0.0 == pane && (forall|j: int|
            0 <= j < i ==> (#[trigger] roots[j]).0.0 != pane) ==> root_shown(roots, pane) == Some(
            roots[i].1,
        ),
        (forall|j: int| 0 <= j < roots.len() ==> (#[trigger] roots[j]).0.0 != pane) ==> root_shown(
            roots,
            pane,
        ) is None,
    decreases roots.len(),
{
    if roots.len() > 0 {
        let rest = roots.drop_first();
        root_of_a_pane(rest, pane, i - 1);
        if 0 <= i < roots.len() && roots[i].0.0 == pane && (forall|j: int|
            0 <= j < i ==> (#[trigger] roots[j]).0.0 != pane) && i > 0 {
            assert(roots[0].0.0 != pane);
            assert(rest[i - 1] == roots[i]);
            assert forall|j: int| 0 <= j < i - 1 implies (#[trigger] rest[j]).0.0 != pane by {
                assert(roots[j + 1].0.0 != pane);
            }
        }
        if forall|j: int| 0 <= j < roots.len() ==> (#[trigger] roots[j]).0.0 != pane {
            assert(roots[0].0.0 != pane);
            assert forall|j: int| 0 <= j < rest.len() implies (#[trigger] rest[j]).0.0 != pane by {
                assert(roots[j + 1].0.0 != pane);
            }
        }
    }
}

/// What changed below a root is just what changed in the panes that show it.
pub proof fn changes_are_gathered_by_root(
    groups: Seq<ChangeGroup>,
    roots: Seq<(PaneId, RootKey)>,
    root: u64,
    path: FsPathView,
)
    ensures
        changed_for(by_root(groups, roots), root).contains(path) <==> exists|i: int|
            0 <= i < groups.len() && (#[trigger] groups[i])@.contains(path) && root_shown(
                roots,
                groups[i].key,
            ) == Some(RootKey(root)),
    decreases groups.len(),
{
    if groups.len() > 0 {
        let shorter = groups.drop_last();
        let n = groups.len() - 1;
        changes_are_gathered_by_root(shorter, roots, root, path);
        if exists|i: int|
            0 <= i < shorter.len() && (#[trigger] shorter[i])@.contains(path) && root_shown(
                roots,
                shorter[i].key,
            ) == Some(RootKey(root)) {
            let i = choose|i: int|
                0 <= i < shorter.len() && (#[trigger] shorter[i])@.contains(path) && root_shown(
                    roots,
                    shorter[i].key,
                ) == Some(RootKey(root));
            assert(groups[i]@.contains(path));
        }
        if exists|i: int|
            0 <= i < groups.len() && (#[trigger] groups[i])@.contains(path) && root_shown(
                roots,
                groups[i].key,
            ) == Some(RootKey(root)) {
            let i = choose|i: int|
                0 <= i < groups.len() && (#[trigger] groups[i])@.contains(path) && root_shown(
                    roots,
                    groups[i].key,
                ) == Some(RootKey(root));
            if i < n {
                assert(shorter[i]@.contains(path));
            }
        }
        if groups[n]@.contains(path) && root_shown(roots, groups[n].key) == Some(RootKey(root)) {
            assert(groups[n]@.contains(path));
        }
    }
}

/// A pane is asked about at once where no question is open, and else later, about the root
/// that was wished for last; an answer closes the question and hands out what waits.
pub proof fn one_question_at_a_time(
    slots: Map<u64, SlotView>,
    pane: PaneId,
    root: FsPathView,
)
    ensures
        ({
            let (after, ask) = requested(slots, pane, root);
            let open = slots.contains_key(pane.0) && slots[pane.0].inflight;
            &&& ask is Some <==> !open
            &&& ask matches Some(about) ==> about == root
            &&& slot_of(after, pane).inflight
            &&& open ==> slot_of(after, pane).queued == Some(root)
            &&& !open ==> slot_of(after, pane).queued == slot_of(slots, pane).queued
        }),
        ({
            let (after, ask) = answered(slots, pane);
            &&& slots.contains_key(pane.0) ==> ask == slots[pane.0].queued
            &&& !slots.contains_key(pane.0) ==> ask is None
            &&& !slot_of(after, pane).inflight && slot_of(after, pane).queued is None
        }),
{
}

/// Feedback was taken just where it was delivered; too many, too bad, a fault of the server
/// and a timeout are told apart.
pub proof fn replies_are_told_apart(status: u16)
    ensures
        outcome_of(FeedbackReply::Delivered) is Accepted,
        outcome_of(FeedbackReply::TimedOut) is Timeout,
        outcome_of(FeedbackReply::Failed) is Network,
        outcome_of(FeedbackReply::Status(status)) is RateLimited <==> status == 429,
        outcome_of(FeedbackReply::Status(status)) is Invalid <==> 400 <= status < 500 && status
            != 429,
        outcome_of(FeedbackReply::Status(status)) is ServerError <==> 500 <= status < 600,
        outcome_of(FeedbackReply::Status(status)) is Network <==> status < 400 || status >= 600,
{
}

/// Feedback goes where it was set to go, or else where the program was built to send it;
/// a setting of blanks sends it nowhere.
pub proof fn feedback_goes_where_it_was_set(
    configured: Option<Seq<char>>,
    built_in: Option<Seq<char>>,
)
    ensures
        configured matches Some(value) ==> endpoint(configured, built_in) == (if all_white(value) {
            None
        } else {
            Some(value)
        }),
        configured is None ==> (built_in matches Some(value) ==> endpoint(configured, built_in)
            == (if all_white(value) {
            None
        } else {
            Some(value)
        })),
        configured is None && built_in is None ==> endpoint(configured, built_in) is None,
{
    if let Some(value) = configured {
        trimming_takes_blanks_alone(value);
    }
    if let Some(value) = built_in {
        trimming_takes_blanks_alone(value);
    }
}

/// The editor is the one that was asked for; else the one that is shipped along, where its
/// file is there; else the one that the system finds. Each place is told, in this order.
pub proof fn editor_is_looked_for_in_order(
    asked_for: Option<FsPathView>,
    bundled: Option<(Seq<char>, bool)>,
    exe_dir: FsPathView,
    windows: bool,
)
    ensures
        asked_for matches Some(path) ==> editor_choice(asked_for, bundled)
            == EditorChoiceView::Override(path),
        asked_for is None ==> (editor_choice(asked_for, bundled) is Bundled <==> (bundled
            matches Some(found) && found.1)),
        asked_for is None ==> (editor_choice(asked_for, bundled) is OnPath <==> !(bundled
            matches Some(found) && found.1)),
        search_lines(asked_for, bundled).len() == 3,
        bundled_place(exe_dir, windows).base == exe_dir,
        bundled_place(exe_dir, windows).names.len() == 3,
{
}

} // verus!
