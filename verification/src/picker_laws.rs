//! What a search finds in a catalog that follows changes, and which catalogs there are.

use vstd::prelude::*;

use crate::pane::PaneId;
use crate::picker::{
    candidate_view, catalogs_are_kept_while_shown, change_seen, changed, changes_seen, dirs_of,
    emptied_below, hit_of, indexed, is_below, is_shown, next_generation, overlay_index, pane_shows,
    present, put, roots_where, searchable, tidied, untouched, untouched_ones, without_pane,
    without_root, CandidateView, CatalogChange, CatalogView, IndexOutcome, IndexStepView,
    OverlayView, RootKey, ServiceView,
};
use crate::text::{joined_texts, texts};
use crate::tree::EntryKind;

verus! {

/// Whether a place stands below a directory, as both are displayed.
pub open spec fn lies_below(display: Seq<char>, dir: Seq<char>) -> bool {
    display.len() > dir.len() && display.take(dir.len() as int) == dir && display[dir.len() as int]
        == '/'
}

/// Whether something became of a place since the catalog was made.
pub open spec fn is_changed(overlay: Seq<OverlayView>, display: Seq<char>) -> bool {
    exists|k: int| 0 <= k < overlay.len() && (#[trigger] overlay[k]).display == display
}

/// Whether a candidate of the index still stands: nothing became of its place, and no
/// directory above it is gone.
pub open spec fn still_stands(catalog: CatalogView, candidate: CandidateView) -> bool {
    &&& catalog.candidates.contains(candidate)
    &&& !is_changed(catalog.overlay, candidate.display)
    &&& forall|dir: Seq<char>| #[trigger]
        catalog.removed.contains(dir) ==> !lies_below(candidate.display, dir)
}

/// Whether a candidate came to a place since.
pub open spec fn came_since(catalog: CatalogView, candidate: CandidateView) -> bool {
    exists|k: int|
        0 <= k < catalog.overlay.len() && (#[trigger] catalog.overlay[k]).candidate == Some(
            candidate,
        )
}

/// What became of places is noted under the places where it stands, each place once.
pub open spec fn noted_by_place(overlay: Seq<OverlayView>) -> bool {
    &&& forall|k: int, l: int|
        0 <= k < l < overlay.len() ==> (#[trigger] overlay[k]).display != (
        #[trigger] overlay[l]).display
    &&& forall|k: int|
        0 <= k < overlay.len() ==> ((#[trigger] overlay[k]).candidate matches Some(found)
            ==> found.display == overlay[k].display)
}

/// A search goes over just what still stands of the index, whatever its kind and whether
/// it is hidden, and what came since.
pub proof fn search_goes_over_all_that_stands(catalog: CatalogView, candidate: CandidateView)
    ensures
        searchable(catalog).contains(candidate) <==> still_stands(catalog, candidate)
            || came_since(catalog, candidate),
{
    let base = untouched_ones(catalog, catalog.candidates);
    let since = present(catalog.overlay);
    let all = searchable(catalog);
    lemma_untouched_ones(catalog, catalog.candidates, candidate);
    lemma_present_ones(catalog.overlay, candidate);
    lemma_untouched_is_unchanged(catalog, candidate.display);
    if base.contains(candidate) {
        let k = choose|k: int| 0 <= k < base.len() && base[k] == candidate;
        assert(all[k] == candidate);
    }
    if since.contains(candidate) {
        let k = choose|k: int| 0 <= k < since.len() && since[k] == candidate;
        assert(all[base.len() + k] == candidate);
    }
    if all.contains(candidate) {
        let k = choose|k: int| 0 <= k < all.len() && all[k] == candidate;
        if k < base.len() {
            assert(base[k] == candidate);
        } else {
            assert(since[k - base.len()] == candidate);
        }
    }
}

/// While nothing changed, a search goes over the index as it was made, in its order.
pub proof fn unchanged_index_is_searched_whole(catalog: CatalogView)
    requires
        catalog.overlay.len() == 0,
        forall|dir: Seq<char>| !#[trigger] catalog.removed.contains(dir),
    ensures
        searchable(catalog) == catalog.candidates,
{
    lemma_all_untouched(catalog, catalog.candidates);
    assert(searchable(catalog) =~= catalog.candidates);
}

proof fn lemma_all_untouched(catalog: CatalogView, candidates: Seq<CandidateView>)
    requires
        catalog.overlay.len() == 0,
        forall|dir: Seq<char>| !#[trigger] catalog.removed.contains(dir),
    ensures
        untouched_ones(catalog, candidates) == candidates,
    decreases candidates.len(),
{
    if candidates.len() > 0 {
        lemma_all_untouched(catalog, candidates.drop_last());
        assert(untouched(catalog, candidates.last().display));
        assert(candidates.drop_last().push(candidates.last()) =~= candidates);
    } else {
        assert(candidates =~= Seq::empty());
    }
}

proof fn lemma_below(display: Seq<char>, dir: Seq<char>)
    ensures
        is_below(display, dir) == lies_below(display, dir),
{
    reveal_strlit("/");
    let whole = dir + "/"@;
    if is_below(display, dir) {
        assert(display.take(whole.len() as int) == whole);
        assert(display.take(dir.len() as int) =~= dir) by {
            assert(forall|i: int|
                0 <= i < dir.len() ==> display[i] == display.take(whole.len() as int)[i]);
        }
        assert(display[dir.len() as int] == display.take(whole.len() as int)[dir.len() as int]);
    }
    if lies_below(display, dir) {
        assert(display.take(whole.len() as int) =~= whole) by {
            assert(forall|i: int|
                0 <= i < dir.len() ==> display[i] == display.take(dir.len() as int)[i]);
        }
    }
}

proof fn lemma_index(overlay: Seq<OverlayView>, display: Seq<char>)
    ensures
        match overlay_index(overlay, display) {
            Some(i) => i < overlay.len() && overlay[i as int].display == display,
            None => !is_changed(overlay, display),
        },
    decreases overlay.len(),
{
    if overlay.len() > 0 {
        lemma_index(overlay.drop_last(), display);
        if overlay_index(overlay, display) is None && is_changed(overlay, display) {
            let k = choose|k: int| 0 <= k < overlay.len() && (#[trigger] overlay[k]).display
                == display;
            assert(overlay.drop_last()[k].display == display);
        }
    }
}

proof fn lemma_untouched_is_unchanged(catalog: CatalogView, display: Seq<char>)
    ensures
        untouched(catalog, display) <==> !is_changed(catalog.overlay, display) && forall|
            dir: Seq<char>,
        | #[trigger] catalog.removed.contains(dir) ==> !lies_below(display, dir),
{
    lemma_index(catalog.overlay, display);
    if let Some(i) = overlay_index(catalog.overlay, display) {
        assert(catalog.overlay[i as int].display == display);
    }
    assert forall|dir: Seq<char>| is_below(display, dir) == #[trigger] lies_below(
        display,
        dir,
    ) by {
        lemma_below(display, dir);
    }
    if untouched(catalog, display) {
        assert forall|dir: Seq<char>| #[trigger] catalog.removed.contains(dir) implies !lies_below(
            display,
            dir,
        ) by {
            lemma_below(display, dir);
        }
    }
    if forall|dir: Seq<char>| #[trigger]
        catalog.removed.contains(dir) ==> !lies_below(display, dir) {
        assert forall|dir: Seq<char>| #[trigger] catalog.removed.contains(dir) implies !is_below(
            display,
            dir,
        ) by {
            lemma_below(display, dir);
        }
    }
}

proof fn lemma_untouched_ones(
    catalog: CatalogView,
    candidates: Seq<CandidateView>,
    candidate: CandidateView,
)
    ensures
        untouched_ones(catalog, candidates).contains(candidate) <==> candidates.contains(candidate)
            && untouched(catalog, candidate.display),
    decreases candidates.len(),
{
    if candidates.len() > 0 {
        let shorter = candidates.drop_last();
        lemma_untouched_ones(catalog, shorter, candidate);
        let before = untouched_ones(catalog, shorter);
        let all = untouched_ones(catalog, candidates);
        if before.contains(candidate) {
            let k = choose|k: int| 0 <= k < before.len() && before[k] == candidate;
            assert(all[k] == candidate);
        }
        if shorter.contains(candidate) {
            let k = choose|k: int| 0 <= k < shorter.len() && shorter[k] == candidate;
            assert(candidates[k] == candidate);
        }
        if candidates.contains(candidate) && candidates.last() != candidate {
            let k = choose|k: int| 0 <= k < candidates.len() && candidates[k] == candidate;
            assert(shorter[k] == candidate);
        }
        if candidates.last() == candidate {
            assert(candidates[candidates.len() - 1] == candidate);
            if untouched(catalog, candidate.display) {
                assert(all[all.len() - 1] == candidate);
            }
        }
        if all.contains(candidate) {
            let k = choose|k: int| 0 <= k < all.len() && all[k] == candidate;
            if k < before.len() {
                assert(before[k] == candidate);
            } else {
                assert(candidates[candidates.len() - 1] == candidate);
            }
        }
    }
}

proof fn lemma_present_ones(overlay: Seq<OverlayView>, candidate: CandidateView)
    ensures
        present(overlay).contains(candidate) <==> exists|k: int|
            0 <= k < overlay.len() && (#[trigger] overlay[k]).candidate == Some(candidate),
    decreases overlay.len(),
{
    if overlay.len() > 0 {
        let shorter = overlay.drop_last();
        lemma_present_ones(shorter, candidate);
        let before = present(shorter);
        let all = present(overlay);
        if before.contains(candidate) {
            let k = choose|k: int| 0 <= k < before.len() && before[k] == candidate;
            assert(all[k] == candidate);
            let l = choose|l: int|
                0 <= l < shorter.len() && (#[trigger] shorter[l]).candidate == Some(candidate);
            assert(overlay[l].candidate == Some(candidate));
        }
        if overlay.last().candidate == Some(candidate) {
            assert(all[all.len() - 1] == candidate);
            assert(overlay[overlay.len() - 1].candidate == Some(candidate));
        }
        if exists|k: int|
            0 <= k < overlay.len() && (#[trigger] overlay[k]).candidate == Some(candidate) {
            let k = choose|k: int|
                0 <= k < overlay.len() && (#[trigger] overlay[k]).candidate == Some(candidate);
            if k < shorter.len() {
                assert(shorter[k].candidate == Some(candidate));
            }
        }
        if all.contains(candidate) {
            let k = choose|k: int| 0 <= k < all.len() && all[k] == candidate;
            if k < before.len() {
                assert(before[k] == candidate);
            }
        }
    }
}

/// What became of a place after a change: there it is what was seen; elsewhere it is what
/// it was, but where a directory is gone nothing is left below it.
proof fn lemma_overlay_after(
    catalog: CatalogView,
    display: Seq<char>,
    candidate: Option<CandidateView>,
)
    requires
        noted_by_place(catalog.overlay),
        candidate matches Some(found) ==> found.display == display,
    ensures
        ({
            let after = changed(catalog, display, candidate).overlay;
            let gone = candidate is None && catalog.dirs.contains(display);
            &&& noted_by_place(after)
            &&& exists|k: int|
                0 <= k < after.len() && (#[trigger] after[k]).display == display
                    && after[k].candidate == candidate
            &&& forall|k: int|
                0 <= k < catalog.overlay.len() && (#[trigger] catalog.overlay[k]).display
                    != display ==> after[k].display == catalog.overlay[k].display
                    && after[k].candidate == (if gone && lies_below(
                    catalog.overlay[k].display,
                    display,
                ) {
                    None
                } else {
                    catalog.overlay[k].candidate
                })
            &&& after.len() >= catalog.overlay.len()
            &&& forall|k: int|
                catalog.overlay.len() <= k < after.len() ==> (#[trigger] after[k]).display
                    == display
        }),
{
    let gone = candidate is None && catalog.dirs.contains(display);
    let old = catalog.overlay;
    let cleared = if gone {
        emptied_below(old, display)
    } else {
        old
    };
    let after = put(cleared, display, candidate);
    lemma_index(cleared, display);
    assert forall|k: int| 0 <= k < old.len() implies (#[trigger] cleared[k]).display
        == old[k].display && cleared[k].candidate == (if gone && lies_below(
        old[k].display,
        display,
    ) {
        None
    } else {
        old[k].candidate
    }) by {
        lemma_below(old[k].display, display);
    }
    match overlay_index(cleared, display) {
        Some(i) => {
            assert(after[i as int].display == display);
            assert(old[i as int].display == cleared[i as int].display);
            assert forall|k: int| 0 <= k < after.len() implies (#[trigger] after[k]).display
                == old[k].display by {
                assert(cleared[k].display == old[k].display);
            }
            assert forall|k: int| 0 <= k < old.len() && (#[trigger] old[k]).display
                != display implies after[k] == cleared[k] by {
                assert(k != i);
            }
        },
        None => {
            assert(after[cleared.len() as int].display == display);
            assert forall|k: int| 0 <= k < old.len() implies (#[trigger] after[k]).display
                == old[k].display && after[k] == cleared[k] by {
                assert(cleared[k].display == old[k].display);
            }
            assert forall|k: int| 0 <= k < old.len() implies (#[trigger] old[k]).display
                != display by {
                assert(cleared[k].display != display);
            }
        },
    }
    assert forall|k: int, l: int| 0 <= k < l < after.len() implies (#[trigger] after[k]).display
        != (#[trigger] after[l]).display by {
        if l < old.len() {
            assert(old[k].display != old[l].display);
        }
    }
    assert forall|k: int| 0 <= k < after.len() implies ((#[trigger] after[k]).candidate matches Some(
        found,
    ) ==> found.display == after[k].display) by {
        if k < old.len() && old[k].display != display {
            assert(old[k].display == after[k].display);
        }
    }
}

/// After a change at a place a search finds there just what was seen, or nothing where
/// nothing was; where a directory is gone it finds nothing below it; and anywhere else it
/// finds what it found before.
pub proof fn search_follows_a_change(
    catalog: CatalogView,
    display: Seq<char>,
    candidate: Option<CandidateView>,
    found: CandidateView,
)
    requires
        noted_by_place(catalog.overlay),
        candidate matches Some(seen) ==> seen.display == display,
    ensures
        ({
            let after = changed(catalog, display, candidate);
            &&& noted_by_place(after.overlay)
            &&& found.display == display ==> (searchable(after).contains(found) <==> candidate
                == Some(found))
            &&& candidate is None && catalog.dirs.contains(display) && lies_below(
                found.display,
                display,
            ) ==> !searchable(after).contains(found)
            &&& found.display != display && !lies_below(found.display, display) ==> (searchable(
                after,
            ).contains(found) <==> searchable(catalog).contains(found))
            &&& found.display != display && !catalog.removed.contains(display) && !(candidate
                is None && catalog.dirs.contains(display)) ==> (searchable(after).contains(found)
                <==> searchable(catalog).contains(found))
        }),
{
    let after = changed(catalog, display, candidate);
    lemma_overlay_after(catalog, display, candidate);
    search_goes_over_all_that_stands(after, found);
    search_goes_over_all_that_stands(catalog, found);
    let old = catalog.overlay;
    let new = after.overlay;
    let gone = candidate is None && catalog.dirs.contains(display);
    let at = choose|k: int|
        0 <= k < new.len() && (#[trigger] new[k]).display == display && new[k].candidate
            == candidate;
    if found.display == display {
        assert(is_changed(new, display));
        if came_since(after, found) {
            let k = choose|k: int| 0 <= k < new.len() && (#[trigger] new[k]).candidate == Some(
                found,
            );
            assert(new[k].display == display);
            if k < at {
                assert(new[k].display != new[at].display);
            } else if at < k {
                assert(new[at].display != new[k].display);
            }
        }
    } else {
        if is_changed(old, found.display) {
            let k = choose|k: int| 0 <= k < old.len() && (#[trigger] old[k]).display
                == found.display;
            assert(new[k].display == found.display);
        }
        if is_changed(new, found.display) {
            let k = choose|k: int| 0 <= k < new.len() && (#[trigger] new[k]).display
                == found.display;
            if k < old.len() {
                if old[k].display == display {
                    assert(noted_by_place(new));
                    lemma_place_of(catalog, display, candidate, k);
                }
                assert(old[k].display == found.display);
            }
        }
        if came_since(catalog, found) {
            let k = choose|k: int| 0 <= k < old.len() && (#[trigger] old[k]).candidate == Some(
                found,
            );
            assert(old[k].display == found.display);
            assert(new[k].candidate == (if gone && lies_below(found.display, display) {
                None
            } else {
                Some(found)
            }));
        }
        if came_since(after, found) {
            let k = choose|k: int| 0 <= k < new.len() && (#[trigger] new[k]).candidate == Some(
                found,
            );
            assert(new[k].display == found.display);
            assert(k < old.len());
            if old[k].display == display {
                lemma_place_of(catalog, display, candidate, k);
            }
            assert(old[k].candidate == Some(found));
        }
        if gone {
            assert(after.removed.contains(display));
        }
        if !lies_below(found.display, display) || (!catalog.removed.contains(display) && !gone) {
            if forall|dir: Seq<char>| #[trigger]
                catalog.removed.contains(dir) ==> !lies_below(found.display, dir) {
                assert forall|dir: Seq<char>| #[trigger]
                    after.removed.contains(dir) implies !lies_below(found.display, dir) by {
                    if dir != display {
                        assert(catalog.removed.contains(dir));
                    }
                }
            }
            if forall|dir: Seq<char>| #[trigger]
                after.removed.contains(dir) ==> !lies_below(found.display, dir) {
                assert forall|dir: Seq<char>| #[trigger]
                    catalog.removed.contains(dir) implies !lies_below(found.display, dir) by {
                    if dir != display {
                        assert(after.removed.contains(dir));
                    }
                }
            }
            assert(still_stands(after, found) == still_stands(catalog, found));
            assert(came_since(after, found) == came_since(catalog, found));
        }
        if gone && lies_below(found.display, display) {
            assert(!still_stands(after, found));
            assert(!came_since(after, found));
        }
    }
}

/// The places that are noted stay at their positions.
proof fn lemma_place_of(
    catalog: CatalogView,
    display: Seq<char>,
    candidate: Option<CandidateView>,
    k: int,
)
    requires
        0 <= k < catalog.overlay.len(),
        catalog.overlay[k].display == display,
    ensures
        changed(catalog, display, candidate).overlay[k].display == display,
{
    let gone = candidate is None && catalog.dirs.contains(display);
    let cleared = if gone {
        emptied_below(catalog.overlay, display)
    } else {
        catalog.overlay
    };
    assert(cleared[k].display == display);
    lemma_index(cleared, display);
    if overlay_index(cleared, display) is None {
        assert(is_changed(cleared, display));
    }
}

/// A change at a place says whether a directory stands there, and whether one that stood
/// there is gone; it says nothing of other places, nor of the index itself.
pub proof fn change_touches_one_place(
    catalog: CatalogView,
    display: Seq<char>,
    candidate: Option<CandidateView>,
    other: Seq<char>,
)
    ensures
        ({
            let after = changed(catalog, display, candidate);
            &&& after.candidates == catalog.candidates
            &&& after.complete == catalog.complete
            &&& after.cancelled == catalog.cancelled
            &&& other != display ==> after.dirs.contains(other) == catalog.dirs.contains(other)
            &&& other != display ==> after.removed.contains(other) == catalog.removed.contains(
                other,
            )
            &&& candidate matches Some(found) ==> after.dirs.contains(display) == (found.kind
                == EntryKind::Dir) && !after.removed.contains(display)
            &&& candidate is None ==> after.dirs.contains(display) == catalog.dirs.contains(
                display,
            ) && after.removed.contains(display) == (catalog.removed.contains(display)
                || catalog.dirs.contains(display))
        }),
{
}

/// The directories among candidates are the places of those that are directories.
pub proof fn directories_of_an_index(candidates: Seq<CandidateView>, display: Seq<char>)
    ensures
        dirs_of(candidates).contains(display) <==> exists|k: int|
            0 <= k < candidates.len() && (#[trigger] candidates[k]).kind == EntryKind::Dir
                && candidates[k].display == display,
    decreases candidates.len(),
{
    if candidates.len() > 0 {
        let shorter = candidates.drop_last();
        directories_of_an_index(shorter, display);
        if dirs_of(shorter).contains(display) {
            let k = choose|k: int|
                0 <= k < shorter.len() && (#[trigger] shorter[k]).kind == EntryKind::Dir
                    && shorter[k].display == display;
            assert(candidates[k].display == display);
        }
        if dirs_of(candidates).contains(display) && !dirs_of(shorter).contains(display) {
            assert(candidates[candidates.len() - 1].display == display);
        }
        if exists|k: int|
            0 <= k < candidates.len() && (#[trigger] candidates[k]).kind == EntryKind::Dir
                && candidates[k].display == display {
            let k = choose|k: int|
                0 <= k < candidates.len() && (#[trigger] candidates[k]).kind == EntryKind::Dir
                    && candidates[k].display == display;
            if k < shorter.len() {
                assert(shorter[k].display == display);
            }
        }
    }
}

/// A change counts just where it is known where it happened, below the root, and what
/// stands there now.
pub proof fn unclear_changes_do_not_count(catalog: CatalogView, change: CatalogChange)
    ensures
        change.names is None ==> change_seen(catalog, change) == catalog,
        change.candidate is Err ==> change_seen(catalog, change) == catalog,
        change.names matches Some(names) && (change.candidate matches Ok(candidate) && (
        joined_texts(texts(names@), "/"@).len() > 0 ==> change_seen(catalog, change) == changed(
            catalog,
            joined_texts(texts(names@), "/"@),
            candidate_view(candidate),
        )) && (joined_texts(texts(names@), "/"@).len() == 0 ==> change_seen(catalog, change)
            == catalog)) || change.names is None || change.candidate is Err,
{
}

/// Changes count one after the other, each of them.
pub proof fn changes_count_in_turn(
    catalog: CatalogView,
    earlier: Seq<CatalogChange>,
    later: Seq<CatalogChange>,
    change: CatalogChange,
)
    ensures
        changes_seen(catalog, Seq::empty()) == catalog,
        changes_seen(catalog, seq![change]) == change_seen(catalog, change),
        changes_seen(catalog, earlier + later) == changes_seen(
            changes_seen(catalog, earlier),
            later,
        ),
    decreases later.len(),
{
    assert(seq![change].drop_last() =~= Seq::empty());
    assert(changes_seen(catalog, seq![change].drop_last()) == catalog);
    if later.len() == 0 {
        assert(earlier + later =~= earlier);
    } else {
        changes_count_in_turn(catalog, earlier, later.drop_last(), change);
        assert((earlier + later).drop_last() =~= earlier + later.drop_last());
    }
}

/// An index is made once it was gone through or failed, and not where it was called off;
/// what was found stays either way, and a failure is told.
pub proof fn made_index_is_searched_again(catalog: CatalogView, outcome: IndexOutcome)
    ensures
        ({
            let (after, step) = indexed(catalog, outcome);
            &&& after == (CatalogView { complete: after.complete, ..catalog })
            &&& after.complete == (catalog.complete || !(outcome is Stopped))
            &&& step is Nothing <==> outcome is Stopped
            &&& step matches IndexStepView::Changed { error } ==> (error is None <==> outcome
                is Finished)
        }),
{
}

/// A pane that shows a root shows no other, and the other panes show what they did.
pub proof fn pane_shows_one_root(
    service: ServiceView,
    pane: PaneId,
    root: RootKey,
    other: PaneId,
    other_root: RootKey,
)
    ensures
        pane_shows(service, pane, root).panes.contains((pane, other_root)) <==> other_root == root,
        other != pane ==> (pane_shows(service, pane, root).panes.contains((other, other_root))
            <==> service.panes.contains((other, other_root))),
        pane_shows(service, pane, root).catalogs == service.catalogs,
{
    lemma_without_pane(service.panes, pane, (pane, other_root));
    lemma_without_pane(service.panes, pane, (other, other_root));
    let before = without_pane(service.panes, pane);
    let after = before.push((pane, root));
    assert(after[before.len() as int] == (pane, root));
    if after.contains((pane, other_root)) {
        let k = choose|k: int| 0 <= k < after.len() && after[k] == (pane, other_root);
        if k < before.len() {
            assert(before[k] == (pane, other_root));
        }
    }
    if after.contains((other, other_root)) {
        let k = choose|k: int| 0 <= k < after.len() && after[k] == (other, other_root);
        if k < before.len() {
            assert(before[k] == (other, other_root));
        }
    }
    if before.contains((other, other_root)) {
        let k = choose|k: int| 0 <= k < before.len() && before[k] == (other, other_root);
        assert(after[k] == (other, other_root));
    }
}

/// A pane that is gone shows nothing, and the others show what they did.
pub proof fn gone_pane_shows_nothing(
    panes: Seq<(PaneId, RootKey)>,
    pane: PaneId,
    item: (PaneId, RootKey),
)
    ensures
        without_pane(panes, pane).contains(item) <==> panes.contains(item) && item.0 != pane,
{
    lemma_without_pane(panes, pane, item);
}

proof fn lemma_without_pane(
    panes: Seq<(PaneId, RootKey)>,
    pane: PaneId,
    item: (PaneId, RootKey),
)
    ensures
        without_pane(panes, pane).contains(item) <==> panes.contains(item) && item.0 != pane,
    decreases panes.len(),
{
    if panes.len() > 0 {
        let shorter = panes.drop_last();
        lemma_without_pane(shorter, pane, item);
        let before = without_pane(shorter, pane);
        let all = without_pane(panes, pane);
        if before.contains(item) {
            let k = choose|k: int| 0 <= k < before.len() && before[k] == item;
            assert(all[k] == item);
        }
        if shorter.contains(item) {
            let k = choose|k: int| 0 <= k < shorter.len() && shorter[k] == item;
            assert(panes[k] == item);
        }
        if panes.contains(item) && panes.last() != item {
            let k = choose|k: int| 0 <= k < panes.len() && panes[k] == item;
            assert(shorter[k] == item);
        }
        if panes.last() == item && item.0 != pane {
            assert(all[all.len() - 1] == item);
            assert(panes[panes.len() - 1] == item);
        }
        if all.contains(item) {
            let k = choose|k: int| 0 <= k < all.len() && all[k] == item;
            if k < before.len() {
                assert(before[k] == item);
            } else {
                assert(panes[panes.len() - 1] == item);
            }
        }
    }
}

/// A root is shown just where some pane shows it; the catalogs of roots that are shown are
/// kept, and just the others are given up.
pub proof fn catalogs_follow_the_panes(service: ServiceView, root: RootKey)
    ensures
        tidied(service).catalogs.contains(root) <==> service.catalogs.contains(root) && exists|
            k: int,
        | 0 <= k < service.panes.len() && (#[trigger] service.panes[k]).1 == root,
        roots_where(service.catalogs, service.panes, false).contains(root)
            <==> service.catalogs.contains(root) && forall|k: int|
            0 <= k < service.panes.len() ==> (#[trigger] service.panes[k]).1 != root,
        tidied(service).panes == service.panes,
{
    catalogs_are_kept_while_shown(service, root);
    assert(is_shown(service.panes, root) <==> exists|k: int|
        0 <= k < service.panes.len() && (#[trigger] service.panes[k]).1 == root);
}

/// A catalog that is given up leaves the others.
pub proof fn one_catalog_is_given_up(roots: Seq<RootKey>, root: RootKey, other: RootKey)
    ensures
        without_root(roots, root).contains(other) <==> roots.contains(other) && other != root,
    decreases roots.len(),
{
    if roots.len() > 0 {
        let shorter = roots.drop_last();
        one_catalog_is_given_up(shorter, root, other);
        let before = without_root(shorter, root);
        let all = without_root(roots, root);
        if before.contains(other) {
            let k = choose|k: int| 0 <= k < before.len() && before[k] == other;
            assert(all[k] == other);
        }
        if shorter.contains(other) {
            let k = choose|k: int| 0 <= k < shorter.len() && shorter[k] == other;
            assert(roots[k] == other);
        }
        if roots.contains(other) && roots.last() != other {
            let k = choose|k: int| 0 <= k < roots.len() && roots[k] == other;
            assert(shorter[k] == other);
        }
        if roots.last() == other && other != root {
            assert(all[all.len() - 1] == other);
            assert(roots[roots.len() - 1] == other);
        }
        if all.contains(other) {
            let k = choose|k: int| 0 <= k < all.len() && all[k] == other;
            if k < before.len() {
                assert(before[k] == other);
            } else {
                assert(roots[roots.len() - 1] == other);
            }
        }
    }
}

/// What is shown of a candidate is what it is displayed as and its kind.
pub proof fn hit_shows_its_candidate(candidate: CandidateView)
    ensures
        hit_of(candidate).display == candidate.display,
        hit_of(candidate).kind == candidate.kind,
{
}

/// Each search has a number of its own; after the largest the first comes again.
pub proof fn searches_are_numbered(current: u64)
    ensures
        current < u64::MAX ==> next_generation(current) == current + 1,
        current == u64::MAX ==> next_generation(current) == 0,
{
}

} // verus!
