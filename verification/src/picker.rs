//! The catalog that a search looks through, who uses it, and which search counts.

use vstd::prelude::*;

use crate::pane::PaneId;
use crate::text::{
    begins_with, contains_text, has_prefix, join_texts, joined_texts, same_text, texts,
};
use crate::tree::{split_path, EntryKind, TreePath};

verus! {

/// The most that a search finds.
pub const PICKER_RESULT_LIMIT: usize = 100;

/// Something that a search can find.
#[derive(Debug, PartialEq, Eq)]
pub struct SearchCandidate {
    /// Where it stands, as it is displayed.
    pub display: String,
    pub kind: EntryKind,
    pub hidden: bool,
}

/// Something that a search can find.
#[verifier::ext_equal]
pub struct CandidateView {
    pub display: Seq<char>,
    pub kind: EntryKind,
    pub hidden: bool,
}

impl SearchCandidate {
    pub open spec fn view(&self) -> CandidateView {
        CandidateView { display: self.display@, kind: self.kind, hidden: self.hidden }
    }

    /// Something that a search can find.
    pub fn new(display: String, kind: EntryKind, hidden: bool) -> (r: SearchCandidate)
        ensures
            r@ == (CandidateView { display: display@, kind, hidden }),
    {
        SearchCandidate { display, kind, hidden }
    }

    /// The same once more.
    pub fn copy(&self) -> (r: SearchCandidate)
        ensures
            r@ == self@,
    {
        SearchCandidate { display: self.display.clone(), kind: self.kind, hidden: self.hidden }
    }
}

/// What candidates are.
pub open spec fn candidates_view(candidates: Seq<SearchCandidate>) -> Seq<CandidateView> {
    candidates.map_values(|candidate: SearchCandidate| candidate@)
}

/// A candidate that may be missing.
pub open spec fn candidate_view(candidate: Option<SearchCandidate>) -> Option<CandidateView> {
    match candidate {
        Some(candidate) => Some(candidate@),
        None => None,
    }
}

/// What became of a place since the catalog was made.
#[derive(Debug)]
pub struct OverlayEntry {
    pub display: String,
    /// What stands there now, if anything.
    pub candidate: Option<SearchCandidate>,
}

/// What became of a place since the catalog was made.
#[verifier::ext_equal]
pub struct OverlayView {
    pub display: Seq<char>,
    pub candidate: Option<CandidateView>,
}

impl OverlayEntry {
    pub open spec fn view(&self) -> OverlayView {
        OverlayView { display: self.display@, candidate: candidate_view(self.candidate) }
    }
}

/// What became of places.
pub open spec fn overlays_view(overlay: Seq<OverlayEntry>) -> Seq<OverlayView> {
    overlay.map_values(|entry: OverlayEntry| entry@)
}

/// What a search looks through.
#[verifier::ext_equal]
pub struct CatalogView {
    /// What was found when the catalog was made.
    pub candidates: Seq<CandidateView>,
    /// The places where a directory was seen.
    pub dirs: Set<Seq<char>>,
    /// What became of places since.
    pub overlay: Seq<OverlayView>,
    /// The directories that are gone.
    pub removed: Set<Seq<char>>,
    /// Whether the catalog is made.
    pub complete: bool,
    /// Whether making the catalog is to stop.
    pub cancelled: bool,
}

/// Whether a place stands below a directory.
pub open spec fn is_below(display: Seq<char>, dir: Seq<char>) -> bool {
    begins_with(display, dir + "/"@)
}

/// Where a place stands among others.
pub open spec fn overlay_index(overlay: Seq<OverlayView>, display: Seq<char>) -> Option<nat>
    decreases overlay.len(),
{
    if overlay.len() == 0 {
        None
    } else {
        match overlay_index(overlay.drop_last(), display) {
            Some(i) => Some(i),
            None => if overlay.last().display == display {
                Some((overlay.len() - 1) as nat)
            } else {
                None
            },
        }
    }
}

/// Places with nothing left below a directory.
pub open spec fn emptied_below(overlay: Seq<OverlayView>, dir: Seq<char>) -> Seq<OverlayView> {
    overlay.map_values(
        |entry: OverlayView|
            if is_below(entry.display, dir) {
                OverlayView { candidate: None, ..entry }
            } else {
                entry
            },
    )
}

/// Places with what stands at one of them now; a new place comes last.
pub open spec fn put(
    overlay: Seq<OverlayView>,
    display: Seq<char>,
    candidate: Option<CandidateView>,
) -> Seq<OverlayView> {
    match overlay_index(overlay, display) {
        Some(i) => overlay.update(i as int, OverlayView { display, candidate }),
        None => overlay.push(OverlayView { display, candidate }),
    }
}

/// What the catalog is when something changed at a place. With a directory goes
/// everything below it.
pub open spec fn changed(
    catalog: CatalogView,
    display: Seq<char>,
    candidate: Option<CandidateView>,
) -> CatalogView {
    let gone = candidate is None && catalog.dirs.contains(display);
    CatalogView {
        dirs: match candidate {
            Some(found) => if found.kind == EntryKind::Dir {
                catalog.dirs.insert(display)
            } else {
                catalog.dirs.remove(display)
            },
            None => catalog.dirs,
        },
        overlay: put(
            if gone {
                emptied_below(catalog.overlay, display)
            } else {
                catalog.overlay
            },
            display,
            candidate,
        ),
        removed: if gone {
            catalog.removed.insert(display)
        } else if candidate is Some {
            catalog.removed.remove(display)
        } else {
            catalog.removed
        },
        ..catalog
    }
}

/// The directories among candidates.
pub open spec fn dirs_of(candidates: Seq<CandidateView>) -> Set<Seq<char>>
    decreases candidates.len(),
{
    if candidates.len() == 0 {
        Set::empty()
    } else {
        let before = dirs_of(candidates.drop_last());
        if candidates.last().kind == EntryKind::Dir {
            before.insert(candidates.last().display)
        } else {
            before
        }
    }
}

/// Whether a place is as it was when the catalog was made, as far as is known.
pub open spec fn untouched(catalog: CatalogView, display: Seq<char>) -> bool {
    &&& overlay_index(catalog.overlay, display) is None
    &&& forall|dir: Seq<char>| #[trigger]
        catalog.removed.contains(dir) ==> !is_below(display, dir)
}

/// The candidates that are as they were when the catalog was made.
pub open spec fn untouched_ones(catalog: CatalogView, candidates: Seq<CandidateView>) -> Seq<
    CandidateView,
>
    decreases candidates.len(),
{
    if candidates.len() == 0 {
        Seq::empty()
    } else {
        let before = untouched_ones(catalog, candidates.drop_last());
        if untouched(catalog, candidates.last().display) {
            before.push(candidates.last())
        } else {
            before
        }
    }
}

/// What stands at places now.
pub open spec fn present(overlay: Seq<OverlayView>) -> Seq<CandidateView>
    decreases overlay.len(),
{
    if overlay.len() == 0 {
        Seq::empty()
    } else {
        let before = present(overlay.drop_last());
        match overlay.last().candidate {
            Some(candidate) => before.push(candidate),
            None => before,
        }
    }
}

/// What a search looks through: first what is as it was, then what changed.
pub open spec fn searchable(catalog: CatalogView) -> Seq<CandidateView> {
    untouched_ones(catalog, catalog.candidates) + present(catalog.overlay)
}

/// What was seen of a place that changed.
#[derive(Debug)]
pub struct CatalogChange {
    /// The names that lead to it from the root; missing where it does not stand
    /// below the root or a name is no Unicode text.
    pub names: Option<Vec<String>>,
    /// What stands there now; an error where that could not be seen.
    pub candidate: Result<Option<SearchCandidate>, String>,
}

/// What the catalog is when a place changed that was seen. The root itself, and
/// what could not be seen, change nothing.
pub open spec fn change_seen(catalog: CatalogView, change: CatalogChange) -> CatalogView {
    match (change.names, change.candidate) {
        (Some(names), Ok(candidate)) => {
            let display = joined_texts(texts(names@), "/"@);
            if display.len() == 0 {
                catalog
            } else {
                changed(catalog, display, candidate_view(candidate))
            }
        },
        _ => catalog,
    }
}

/// What the catalog is when places changed, one after the other.
pub open spec fn changes_seen(catalog: CatalogView, changes: Seq<CatalogChange>) -> CatalogView
    decreases changes.len(),
{
    if changes.len() == 0 {
        catalog
    } else {
        change_seen(changes_seen(catalog, changes.drop_last()), changes.last())
    }
}

/// Texts without regard to their order and number.
pub open spec fn text_set(list: Seq<String>) -> Set<Seq<char>> {
    texts(list).to_set()
}

/// What came of making a catalog.
#[derive(Debug)]
pub enum IndexOutcome {
    Finished,
    /// It was called off.
    Stopped,
    Failed(String),
    /// It could not be begun.
    NotStarted,
}

/// What is done once a catalog is made.
#[derive(Debug, PartialEq, Eq)]
pub enum IndexStep {
    Nothing,
    /// Searches are to be done again, and a user is told of an error.
    Changed { error: Option<String> },
}

/// What is done once a catalog is made.
#[verifier::ext_equal]
pub enum IndexStepView {
    Nothing,
    Changed { error: Option<Seq<char>> },
}

impl IndexStep {
    pub open spec fn view(&self) -> IndexStepView {
        match self {
            IndexStep::Nothing => IndexStepView::Nothing,
            IndexStep::Changed { error } => IndexStepView::Changed {
                error: match error {
                    Some(text) => Some(text@),
                    None => None,
                },
            },
        }
    }
}

/// What making a catalog leads to. One that could not be made counts as made, so
/// that nobody waits for it.
pub open spec fn indexed(catalog: CatalogView, outcome: IndexOutcome) -> (
    CatalogView,
    IndexStepView,
) {
    let complete = CatalogView { complete: true, ..catalog };
    match outcome {
        IndexOutcome::Finished => (complete, IndexStepView::Changed { error: None }),
        IndexOutcome::Stopped => (catalog, IndexStepView::Nothing),
        IndexOutcome::Failed(error) => (
            complete,
            IndexStepView::Changed { error: Some("Failed to index files: "@ + error@) },
        ),
        IndexOutcome::NotStarted => (
            complete,
            IndexStepView::Changed { error: Some("Failed to start file indexing worker"@) },
        ),
    }
}

/// What a search looks through.
#[derive(Debug)]
pub struct SearchCatalog {
    candidates: Vec<SearchCandidate>,
    dirs: Vec<String>,
    overlay: Vec<OverlayEntry>,
    removed: Vec<String>,
    complete: bool,
    cancelled: bool,
}

/// Adds a text to texts that differ.
fn add_text(list: &mut Vec<String>, text: &str)
    ensures
        text_set(final(list)@) == text_set(old(list)@).insert(text@),
{
    let ghost before = texts(list@);
    if contains_text(list, text) {
        assert(text_set(list@) =~= text_set(old(list)@).insert(text@));
        return;
    }
    list.push(text.to_owned());
    proof {
        assert(texts(list@) =~= before.push(text@));
        assert forall|other: Seq<char>| #[trigger]
            text_set(list@).contains(other) == text_set(old(list)@).insert(text@).contains(
                other,
            ) by {
            let after = texts(list@);
            if before.contains(other) {
                let k = choose|k: int| 0 <= k < before.len() && before[k] == other;
                assert(after[k] == other);
            }
            if other == text@ {
                assert(after[before.len() as int] == other);
            }
            if after.contains(other) {
                let k = choose|k: int| 0 <= k < after.len() && after[k] == other;
                if k < before.len() {
                    assert(before[k] == other);
                }
            }
        }
        assert(text_set(list@) =~= text_set(old(list)@).insert(text@));
    }
}

/// Takes a text out of texts.
fn remove_text(list: &mut Vec<String>, text: &str)
    ensures
        text_set(final(list)@) == text_set(old(list)@).remove(text@),
{
    let ghost before = texts(list@);
    let mut kept: Vec<String> = Vec::new();
    let mut i: usize = 0;
    while i < list.len()
        invariant
            i <= list@.len(),
            before == texts(list@),
            list@ == old(list)@,
            forall|other: Seq<char>| #[trigger]
                texts(kept@).contains(other) == (before.take(i as int).contains(other) && other
                    != text@),
        decreases list@.len() - i,
    {
        let ghost earlier = texts(kept@);
        let ghost now = before.take(i as int);
        let ghost next = before.take(i + 1);
        assert(next =~= now.push(list@[i as int]@));
        let same = same_text(list[i].as_str(), text);
        if !same {
            kept.push(list[i].clone());
            assert(texts(kept@) =~= earlier.push(list@[i as int]@));
        }
        proof {
            assert forall|other: Seq<char>| #[trigger]
                texts(kept@).contains(other) == (next.contains(other) && other != text@) by {
                lemma_push_contains(now, list@[i as int]@, other);
                if !same {
                    lemma_push_contains(earlier, list@[i as int]@, other);
                }
                assert(earlier.contains(other) == (now.contains(other) && other != text@));
            }
        }
        i = i + 1;
    }
    assert(before.take(i as int) =~= before);
    assert(text_set(kept@) =~= text_set(old(list)@).remove(text@));
    *list = kept;
}

/// What a list with one more text holds.
proof fn lemma_push_contains(list: Seq<Seq<char>>, text: Seq<char>, other: Seq<char>)
    ensures
        list.push(text).contains(other) == (list.contains(other) || other == text),
{
    let longer = list.push(text);
    if list.contains(other) {
        let k = choose|k: int| 0 <= k < list.len() && list[k] == other;
        assert(longer[k] == other);
    }
    if other == text {
        assert(longer[list.len() as int] == other);
    }
    if longer.contains(other) {
        let k = choose|k: int| 0 <= k < longer.len() && longer[k] == other;
        if k < list.len() {
            assert(list[k] == other);
        }
    }
}

/// A place that is found among the first ones is found among all.
proof fn lemma_overlay_index(overlay: Seq<OverlayView>, n: int, display: Seq<char>)
    requires
        0 <= n <= overlay.len(),
        overlay_index(overlay.take(n), display) is Some,
    ensures
        overlay_index(overlay, display) == overlay_index(overlay.take(n), display),
    decreases overlay.len() - n,
{
    if n == overlay.len() {
        assert(overlay.take(n) =~= overlay);
    } else {
        assert(overlay.take(n + 1).drop_last() =~= overlay.take(n));
        lemma_overlay_index(overlay, n + 1, display);
    }
}

/// Where a place stands among others.
fn find_overlay(overlay: &Vec<OverlayEntry>, display: &str) -> (r: Option<usize>)
    ensures
        match r {
            Some(i) => i < overlay@.len() && overlay_index(overlays_view(overlay@), display@)
                == Some(i as nat),
            None => overlay_index(overlays_view(overlay@), display@) is None,
        },
{
    let ghost all = overlays_view(overlay@);
    let mut i: usize = 0;
    assert(all.take(0) =~= Seq::empty());
    while i < overlay.len()
        invariant
            i <= overlay@.len(),
            all == overlays_view(overlay@),
            overlay_index(all.take(i as int), display@) is None,
        decreases overlay@.len() - i,
    {
        proof {
            assert(all.take(i + 1).drop_last() =~= all.take(i as int));
            assert(all.take(i + 1).last() == overlay@[i as int]@);
        }
        if same_text(overlay[i].display.as_str(), display) {
            proof {
                lemma_overlay_index(all, i + 1, display@);
            }
            return Some(i);
        }
        i = i + 1;
    }
    assert(all.take(i as int) =~= all);
    None
}

/// Places with nothing left below a directory.
fn empty_below(overlay: Vec<OverlayEntry>, dir: &str) -> (r: Vec<OverlayEntry>)
    ensures
        overlays_view(r@) == emptied_below(overlays_view(overlay@), dir@),
{
    let prefix = dir.to_owned().concat("/");
    let ghost all = overlays_view(overlay@);
    let ghost expected = emptied_below(all, dir@);
    let ghost entries = overlay@;
    let mut after: Vec<OverlayEntry> = Vec::new();
    for entry in it: overlay
        invariant
            it.seq() == entries,
            all == overlays_view(entries),
            expected == emptied_below(all, dir@),
            prefix@ == dir@ + "/"@,
            after@.len() == it.index(),
            forall|j: int| 0 <= j < it.index() ==> (#[trigger] after@[j])@ == expected[j],
    {
        let ghost k = it.index();
        assert(all[k] == entry@);
        assert(expected[k] == (if is_below(all[k].display, dir@) {
            OverlayView { candidate: None, ..all[k] }
        } else {
            all[k]
        }));
        if has_prefix(entry.display.as_str(), prefix.as_str()) {
            after.push(OverlayEntry { display: entry.display, candidate: None });
        } else {
            after.push(entry);
        }
    }
    assert(overlays_view(after@) =~= expected);
    after
}

impl SearchCatalog {
    /// What a search looks through.
    pub closed spec fn view(&self) -> CatalogView {
        CatalogView {
            candidates: candidates_view(self.candidates@),
            dirs: text_set(self.dirs@),
            overlay: overlays_view(self.overlay@),
            removed: text_set(self.removed@),
            complete: self.complete,
            cancelled: self.cancelled,
        }
    }

    /// A catalog that has yet to be made.
    pub fn new() -> (r: SearchCatalog)
        ensures
            r@ == (CatalogView {
                candidates: Seq::empty(),
                dirs: Set::empty(),
                overlay: Seq::empty(),
                removed: Set::empty(),
                complete: false,
                cancelled: false,
            }),
    {
        let catalog = SearchCatalog {
            candidates: Vec::new(),
            dirs: Vec::new(),
            overlay: Vec::new(),
            removed: Vec::new(),
            complete: false,
            cancelled: false,
        };
        assert(catalog@.candidates =~= Seq::empty());
        assert(catalog@.overlay =~= Seq::empty());
        assert(texts(catalog.dirs@) =~= Seq::empty());
        assert(texts(catalog.removed@) =~= Seq::empty());
        assert(catalog@.dirs =~= Set::empty());
        assert(catalog@.removed =~= Set::empty());
        catalog
    }

    /// Adds what was found when the catalog was made.
    pub fn append_build_batch(&mut self, batch: Vec<SearchCandidate>)
        ensures
            final(self)@ == (CatalogView {
                candidates: old(self)@.candidates + candidates_view(batch@),
                dirs: old(self)@.dirs.union(dirs_of(candidates_view(batch@))),
                ..old(self)@
            }),
    {
        let ghost before = self@;
        let ghost all = candidates_view(batch@);
        let ghost found = batch@;
        assert(all.take(0) =~= Seq::empty());
        assert(before.candidates + all.take(0) =~= before.candidates);
        assert(before.dirs.union(dirs_of(all.take(0))) =~= before.dirs);
        for candidate in it: batch
            invariant
                it.seq() == found,
                all == candidates_view(found),
                self@ == (CatalogView {
                    candidates: before.candidates + all.take(it.index()),
                    dirs: before.dirs.union(dirs_of(all.take(it.index()))),
                    ..before
                }),
        {
            let ghost k = it.index();
            let ghost now = self@;
            proof {
                assert(all.take(k + 1).drop_last() =~= all.take(k));
                assert(all.take(k + 1).last() == candidate@);
            }
            if candidate.kind == EntryKind::Dir {
                add_text(&mut self.dirs, candidate.display.as_str());
                assert(self@.dirs =~= before.dirs.union(dirs_of(all.take(k + 1))));
            }
            let ghost kept = candidates_view(self.candidates@);
            self.candidates.push(candidate);
            assert(candidates_view(self.candidates@) =~= kept.push(candidate@));
            assert(all.take(k + 1) =~= all.take(k).push(candidate@));
            assert(self@.candidates =~= before.candidates + all.take(k + 1));
        }
        assert(all.take(found.len() as int) =~= all);
    }

    /// Takes what became of one place.
    pub fn update_place(&mut self, display: &str, candidate: Option<SearchCandidate>)
        ensures
            final(self)@ == changed(old(self)@, display@, candidate_view(candidate)),
    {
        let ghost before = self@;
        let ghost found = candidate_view(candidate);
        let gone = candidate.is_none() && contains_text(&self.dirs, display);
        assert(gone == (found is None && before.dirs.contains(display@)));
        match &candidate {
            Some(candidate) => {
                if candidate.kind == EntryKind::Dir {
                    add_text(&mut self.dirs, display);
                } else {
                    remove_text(&mut self.dirs, display);
                }
            },
            None => {},
        }
        if gone {
            add_text(&mut self.removed, display);
            let mut overlay: Vec<OverlayEntry> = Vec::new();
            std::mem::swap(&mut overlay, &mut self.overlay);
            self.overlay = empty_below(overlay, display);
        } else if candidate.is_some() {
            remove_text(&mut self.removed, display);
        }
        let ghost overlay = overlays_view(self.overlay@);
        let entry = OverlayEntry { display: display.to_owned(), candidate };
        match find_overlay(&self.overlay, display) {
            Some(i) => {
                self.overlay.set(i, entry);
                assert(overlays_view(self.overlay@) =~= overlay.update(i as int, entry@));
            },
            None => {
                self.overlay.push(entry);
                assert(overlays_view(self.overlay@) =~= overlay.push(entry@));
            },
        }
        assert(self@ =~= changed(before, display@, found));
    }

    /// Takes what became of places, one after the other.
    pub fn update_overlay(&mut self, changes: Vec<CatalogChange>)
        ensures
            final(self)@ == changes_seen(old(self)@, changes@),
    {
        let ghost before = self@;
        let ghost all = changes@;
        assert(all.take(0) =~= Seq::empty());
        for change in it: changes
            invariant
                it.seq() == all,
                self@ == changes_seen(before, all.take(it.index())),
        {
            let ghost k = it.index();
            proof {
                assert(all.take(k + 1).drop_last() =~= all.take(k));
                assert(all.take(k + 1).last() == change);
            }
            if let Some(names) = change.names {
                if let Ok(candidate) = change.candidate {
                    let display = join_texts(&names, "/");
                    if display.as_str().unicode_len() > 0 {
                        self.update_place(display.as_str(), candidate);
                    }
                }
            }
        }
        assert(all.take(all.len() as int) =~= all);
    }

    /// Whether a place is as it was when the catalog was made, as far as is known.
    fn is_untouched(&self, display: &str) -> (r: bool)
        ensures
            r == untouched(self@, display@),
    {
        if find_overlay(&self.overlay, display).is_some() {
            return false;
        }
        let ghost removed = texts(self.removed@);
        let mut i: usize = 0;
        while i < self.removed.len()
            invariant
                i <= self.removed@.len(),
                removed == texts(self.removed@),
                forall|j: int| 0 <= j < i ==> !is_below(display@, #[trigger] removed[j]),
            decreases self.removed@.len() - i,
        {
            let prefix = self.removed[i].clone().concat("/");
            assert(prefix@ == removed[i as int] + "/"@);
            if has_prefix(display, prefix.as_str()) {
                assert(self@.removed.contains(removed[i as int]));
                return false;
            }
            i = i + 1;
        }
        proof {
            assert forall|dir: Seq<char>| #[trigger]
                self@.removed.contains(dir) implies !is_below(display@, dir) by {
                let k = choose|k: int| 0 <= k < removed.len() && removed[k] == dir;
                assert(!is_below(display@, removed[k]));
            }
        }
        true
    }

    /// What a search looks through.
    pub fn searchable(&self) -> (r: Vec<SearchCandidate>)
        ensures
            candidates_view(r@) == searchable(self@),
    {
        let ghost catalog = self@;
        let ghost all = catalog.candidates;
        let mut found: Vec<SearchCandidate> = Vec::new();
        let mut i: usize = 0;
        assert(all.take(0) =~= Seq::empty());
        assert(candidates_view(found@) =~= untouched_ones(catalog, all.take(0)));
        while i < self.candidates.len()
            invariant
                i <= self.candidates@.len(),
                catalog == self@,
                all == candidates_view(self.candidates@),
                candidates_view(found@) == untouched_ones(catalog, all.take(i as int)),
            decreases self.candidates@.len() - i,
        {
            let ghost before = candidates_view(found@);
            let candidate = &self.candidates[i];
            proof {
                assert(all.take(i + 1).drop_last() =~= all.take(i as int));
                assert(all.take(i + 1).last() == candidate@);
            }
            if self.is_untouched(candidate.display.as_str()) {
                found.push(candidate.copy());
                assert(candidates_view(found@) =~= before.push(candidate@));
            }
            i = i + 1;
        }
        assert(all.take(i as int) =~= all);
        let ghost base = candidates_view(found@);
        let ghost places = overlays_view(self.overlay@);
        let mut k: usize = 0;
        assert(places.take(0) =~= Seq::empty());
        assert(candidates_view(found@) =~= base + present(places.take(0)));
        while k < self.overlay.len()
            invariant
                k <= self.overlay@.len(),
                places == overlays_view(self.overlay@),
                candidates_view(found@) == base + present(places.take(k as int)),
            decreases self.overlay@.len() - k,
        {
            let ghost before = candidates_view(found@);
            proof {
                assert(places.take(k + 1).drop_last() =~= places.take(k as int));
                assert(places.take(k + 1).last() == self.overlay@[k as int]@);
            }
            if let Some(candidate) = &self.overlay[k].candidate {
                found.push(candidate.copy());
                assert(candidates_view(found@) =~= before.push(candidate@));
            }
            k = k + 1;
            assert(candidates_view(found@) =~= base + present(places.take(k as int)));
        }
        assert(places.take(k as int) =~= places);
        found
    }

    /// Notes that the catalog is made.
    pub fn finish(&mut self)
        ensures
            final(self)@ == (CatalogView { complete: true, ..old(self)@ }),
    {
        self.complete = true;
    }

    /// Takes what came of making the catalog, and says whether searches are to be done
    /// again, and what a user is told then.
    pub fn on_indexed(&mut self, outcome: IndexOutcome) -> (r: IndexStep)
        ensures
            (final(self)@, r@) == indexed(old(self)@, outcome),
    {
        match outcome {
            IndexOutcome::Finished => {
                self.finish();
                IndexStep::Changed { error: None }
            },
            IndexOutcome::Stopped => IndexStep::Nothing,
            IndexOutcome::Failed(error) => {
                self.finish();
                let text = "Failed to index files: ".to_owned().concat(error.as_str());
                IndexStep::Changed { error: Some(text) }
            },
            IndexOutcome::NotStarted => {
                self.finish();
                IndexStep::Changed {
                    error: Some("Failed to start file indexing worker".to_owned()),
                }
            },
        }
    }

    /// Asks for making the catalog to stop.
    pub fn stop(&mut self)
        ensures
            final(self)@ == (CatalogView { cancelled: true, ..old(self)@ }),
    {
        self.cancelled = true;
    }

    /// How much was found when the catalog was made.
    pub fn indexed_count(&self) -> (r: usize)
        ensures
            r == self@.candidates.len(),
    {
        self.candidates.len()
    }

    /// Whether the catalog is still being made.
    pub fn is_indexing(&self) -> (r: bool)
        ensures
            r == !self@.complete,
    {
        !self.complete
    }

    /// Whether making the catalog is to stop.
    pub fn is_cancelled(&self) -> (r: bool)
        ensures
            r == self@.cancelled,
    {
        self.cancelled
    }

    /// Whether a directory is known to be gone.
    pub fn is_removed(&self, dir: &str) -> (r: bool)
        ensures
            r == self@.removed.contains(dir@),
    {
        contains_text(&self.removed, dir)
    }
}

/// Something that a search found.
#[derive(Debug, PartialEq, Eq)]
pub struct PickerHit {
    pub path: TreePath,
    pub display: String,
    pub kind: EntryKind,
}

/// What is shown of something that a search found.
pub fn picker_hit(candidate: &SearchCandidate) -> (r: PickerHit)
    ensures
        r@ == hit_of(candidate@),
{
    PickerHit {
        path: TreePath::parse(candidate.display.as_str()),
        display: candidate.display.clone(),
        kind: candidate.kind,
    }
}

/// Whether no place stands twice.
pub open spec fn places_differ(overlay: Seq<OverlayView>) -> bool {
    forall|k: int, l: int|
        0 <= k < l < overlay.len() ==> (#[trigger] overlay[k]).display != (
        #[trigger] overlay[l]).display
}

/// No change makes a place stand twice.
pub proof fn changes_keep_places_apart(
    catalog: CatalogView,
    display: Seq<char>,
    candidate: Option<CandidateView>,
)
    requires
        places_differ(catalog.overlay),
    ensures
        places_differ(changed(catalog, display, candidate).overlay),
{
    let gone = candidate is None && catalog.dirs.contains(display);
    let cleared = if gone {
        emptied_below(catalog.overlay, display)
    } else {
        catalog.overlay
    };
    let after = put(cleared, display, candidate);
    lemma_index_found(cleared, display);
    assert forall|k: int, l: int| 0 <= k < l < after.len() implies (#[trigger] after[k]).display
        != (#[trigger] after[l]).display by {
        assert(k < cleared.len() ==> cleared[k].display == catalog.overlay[k].display);
        assert(l < cleared.len() ==> cleared[l].display == catalog.overlay[l].display);
        if l < cleared.len() {
            assert(catalog.overlay[k].display != catalog.overlay[l].display);
        } else {
            lemma_index_none(cleared, display, k);
        }
    }
}

/// A directory that went takes everything below it out of the search.
pub proof fn removed_directory_hides_what_is_below(
    catalog: CatalogView,
    dir: Seq<char>,
    i: int,
)
    requires
        catalog.dirs.contains(dir),
        0 <= i < searchable(changed(catalog, dir, None)).len(),
        forall|k: int|
            0 <= k < catalog.overlay.len() ==> ((#[trigger] catalog.overlay[k]).candidate matches Some(
                found,
            ) ==> found.display == catalog.overlay[k].display),
        places_differ(catalog.overlay),
    ensures
        !is_below(searchable(changed(catalog, dir, None))[i].display, dir),
        searchable(changed(catalog, dir, None))[i].display != dir,
{
    let after = changed(catalog, dir, None);
    let base = untouched_ones(after, after.candidates);
    if i < base.len() {
        lemma_untouched(after, after.candidates, i);
        assert(after.removed.contains(dir));
        let cleared = emptied_below(catalog.overlay, dir);
        lemma_put_found(cleared, dir, None);
    } else {
        let k = i - base.len();
        lemma_present(after.overlay, k);
        let m = choose|m: int|
            0 <= m < after.overlay.len() && #[trigger] after.overlay[m].candidate == Some(
                present(after.overlay)[k],
            );
        let cleared = emptied_below(catalog.overlay, dir);
        assert(cleared.len() == catalog.overlay.len());
        match overlay_index(cleared, dir) {
            Some(n) => {
                lemma_index_found(cleared, dir);
                assert(m != n);
                assert(cleared[m].candidate == Some(present(after.overlay)[k]));
                assert(catalog.overlay[m].candidate == cleared[m].candidate);
                assert(!is_below(catalog.overlay[m].display, dir));
                assert(catalog.overlay[n as int].display == dir);
                if m < n {
                    assert(catalog.overlay[m].display != catalog.overlay[n as int].display);
                } else {
                    assert(catalog.overlay[n as int].display != catalog.overlay[m].display);
                }
            },
            None => {
                assert(m < cleared.len());
                assert(cleared[m].candidate == Some(present(after.overlay)[k]));
                assert(catalog.overlay[m].candidate == cleared[m].candidate);
                assert(!is_below(catalog.overlay[m].display, dir));
                lemma_index_none(cleared, dir, m);
                assert(cleared[m].display == catalog.overlay[m].display);
            },
        }
    }
}

/// What is untouched is untouched.
proof fn lemma_untouched(catalog: CatalogView, candidates: Seq<CandidateView>, i: int)
    requires
        0 <= i < untouched_ones(catalog, candidates).len(),
    ensures
        untouched(catalog, untouched_ones(catalog, candidates)[i].display),
    decreases candidates.len(),
{
    let before = untouched_ones(catalog, candidates.drop_last());
    if i < before.len() {
        lemma_untouched(catalog, candidates.drop_last(), i);
    }
}

/// What is present stands at a place.
proof fn lemma_present(overlay: Seq<OverlayView>, k: int)
    requires
        0 <= k < present(overlay).len(),
    ensures
        exists|m: int|
            0 <= m < overlay.len() && #[trigger] overlay[m].candidate == Some(
                present(overlay)[k],
            ),
    decreases overlay.len(),
{
    let shorter = overlay.drop_last();
    let before = present(shorter);
    if k < before.len() {
        lemma_present(shorter, k);
        let m = choose|m: int|
            0 <= m < shorter.len() && #[trigger] shorter[m].candidate == Some(before[k]);
        assert(overlay[m].candidate == Some(present(overlay)[k]));
    } else {
        assert(overlay[overlay.len() - 1].candidate == Some(present(overlay)[k]));
    }
}

/// A place that is found has that name.
proof fn lemma_index_found(overlay: Seq<OverlayView>, display: Seq<char>)
    ensures
        overlay_index(overlay, display) matches Some(n) ==> n < overlay.len()
            && overlay[n as int].display == display,
    decreases overlay.len(),
{
    if overlay.len() > 0 {
        lemma_index_found(overlay.drop_last(), display);
    }
}

/// No place has a name that is not found.
proof fn lemma_index_none(overlay: Seq<OverlayView>, display: Seq<char>, m: int)
    requires
        overlay_index(overlay, display) is None,
        0 <= m < overlay.len(),
    ensures
        overlay[m].display != display,
    decreases overlay.len(),
{
    if m < overlay.len() - 1 {
        lemma_index_none(overlay.drop_last(), display, m);
        assert(overlay.drop_last()[m] == overlay[m]);
    }
}

/// What was put at a place is found there.
proof fn lemma_put_found(
    overlay: Seq<OverlayView>,
    display: Seq<char>,
    candidate: Option<CandidateView>,
)
    ensures
        overlay_index(put(overlay, display, candidate), display) is Some,
{
    let after = put(overlay, display, candidate);
    lemma_index_found(overlay, display);
    let m = match overlay_index(overlay, display) {
        Some(n) => n as int,
        None => overlay.len() as int,
    };
    assert(after[m].display == display);
    if overlay_index(after, display) is None {
        lemma_index_none(after, display, m);
    }
}

/// The number of a root.
#[derive(Debug, Clone, Copy, PartialEq, Eq, Structural)]
pub struct RootKey(pub u64);

/// Which roots have a catalog, and which root each pane shows.
#[verifier::ext_equal]
pub struct ServiceView {
    pub catalogs: Seq<RootKey>,
    pub panes: Seq<(PaneId, RootKey)>,
}

/// Whether some pane shows a root.
pub open spec fn is_shown(panes: Seq<(PaneId, RootKey)>, root: RootKey) -> bool {
    exists|i: int| 0 <= i < panes.len() && (#[trigger] panes[i]).1 == root
}

/// The panes without one of them.
pub open spec fn without_pane(panes: Seq<(PaneId, RootKey)>, pane: PaneId) -> Seq<
    (PaneId, RootKey),
>
    decreases panes.len(),
{
    if panes.len() == 0 {
        Seq::empty()
    } else {
        let before = without_pane(panes.drop_last(), pane);
        if panes.last().0 == pane {
            before
        } else {
            before.push(panes.last())
        }
    }
}

/// The roots that are shown, or those that are not.
pub open spec fn roots_where(
    catalogs: Seq<RootKey>,
    panes: Seq<(PaneId, RootKey)>,
    shown: bool,
) -> Seq<RootKey>
    decreases catalogs.len(),
{
    if catalogs.len() == 0 {
        Seq::empty()
    } else {
        let before = roots_where(catalogs.drop_last(), panes, shown);
        if is_shown(panes, catalogs.last()) == shown {
            before.push(catalogs.last())
        } else {
            before
        }
    }
}

/// The service when a pane shows a root.
pub open spec fn pane_shows(service: ServiceView, pane: PaneId, root: RootKey) -> ServiceView {
    ServiceView { panes: without_pane(service.panes, pane).push((pane, root)), ..service }
}

/// The service without the catalogs of roots that no pane shows.
pub open spec fn tidied(service: ServiceView) -> ServiceView {
    ServiceView { catalogs: roots_where(service.catalogs, service.panes, true), ..service }
}

/// Which roots have a catalog, and which root each pane shows.
#[derive(Debug)]
pub struct CatalogService {
    catalogs: Vec<RootKey>,
    panes: Vec<(PaneId, RootKey)>,
}

/// Whether a root is among others.
fn contains_root(roots: &Vec<RootKey>, root: RootKey) -> (r: bool)
    ensures
        r == roots@.contains(root),
{
    let mut i: usize = 0;
    while i < roots.len()
        invariant
            i <= roots@.len(),
            forall|j: int| 0 <= j < i ==> roots@[j] != root,
        decreases roots@.len() - i,
    {
        if roots[i] == root {
            return true;
        }
        i = i + 1;
    }
    false
}

impl CatalogService {
    /// Which roots have a catalog, and which root each pane shows.
    pub closed spec fn view(&self) -> ServiceView {
        ServiceView { catalogs: self.catalogs@, panes: self.panes@ }
    }

    /// No pane and no catalog.
    pub fn new() -> (r: CatalogService)
        ensures
            r@ == (ServiceView { catalogs: Seq::empty(), panes: Seq::empty() }),
    {
        CatalogService { catalogs: Vec::new(), panes: Vec::new() }
    }

    /// Forgets which root a pane shows.
    fn forget_pane(&mut self, pane_id: PaneId)
        ensures
            final(self)@ == (ServiceView {
                panes: without_pane(old(self)@.panes, pane_id),
                ..old(self)@
            }),
    {
        let ghost all = self.panes@;
        let mut kept: Vec<(PaneId, RootKey)> = Vec::new();
        let mut i: usize = 0;
        assert(all.take(0) =~= Seq::empty());
        while i < self.panes.len()
            invariant
                i <= self.panes@.len(),
                all == self.panes@,
                self@ == old(self)@,
                kept@ == without_pane(all.take(i as int), pane_id),
            decreases self.panes@.len() - i,
        {
            proof {
                assert(all.take(i + 1).drop_last() =~= all.take(i as int));
                assert(all.take(i + 1).last() == self.panes@[i as int]);
            }
            let entry = self.panes[i];
            if entry.0 != pane_id {
                kept.push(entry);
            }
            i = i + 1;
        }
        assert(all.take(i as int) =~= all);
        self.panes = kept;
    }

    /// Notes that a pane shows a root.
    pub fn register_pane(&mut self, pane_id: PaneId, root: RootKey)
        ensures
            final(self)@ == pane_shows(old(self)@, pane_id, root),
    {
        self.forget_pane(pane_id);
        self.panes.push((pane_id, root));
    }

    /// Whether some pane shows a root.
    fn shows(&self, root: RootKey) -> (r: bool)
        ensures
            r == is_shown(self@.panes, root),
    {
        let mut i: usize = 0;
        while i < self.panes.len()
            invariant
                i <= self.panes@.len(),
                forall|j: int| 0 <= j < i ==> (#[trigger] self.panes@[j]).1 != root,
            decreases self.panes@.len() - i,
        {
            if self.panes[i].1 == root {
                assert(self.panes@[i as int].1 == root);
                return true;
            }
            i = i + 1;
        }
        false
    }

    /// Forgets the catalogs of roots that no pane shows, and gives those roots.
    fn drop_unreferenced(&mut self) -> (r: Vec<RootKey>)
        ensures
            final(self)@ == tidied(old(self)@),
            r@ == roots_where(old(self)@.catalogs, old(self)@.panes, false),
    {
        let ghost all = self.catalogs@;
        let ghost panes = self.panes@;
        let mut kept: Vec<RootKey> = Vec::new();
        let mut dropped: Vec<RootKey> = Vec::new();
        let mut i: usize = 0;
        assert(all.take(0) =~= Seq::empty());
        while i < self.catalogs.len()
            invariant
                i <= self.catalogs@.len(),
                all == self.catalogs@,
                panes == self.panes@,
                self@ == old(self)@,
                kept@ == roots_where(all.take(i as int), panes, true),
                dropped@ == roots_where(all.take(i as int), panes, false),
            decreases self.catalogs@.len() - i,
        {
            proof {
                assert(all.take(i + 1).drop_last() =~= all.take(i as int));
                assert(all.take(i + 1).last() == self.catalogs@[i as int]);
            }
            let root = self.catalogs[i];
            if self.shows(root) {
                kept.push(root);
            } else {
                dropped.push(root);
            }
            i = i + 1;
        }
        assert(all.take(i as int) =~= all);
        self.catalogs = kept;
        dropped
    }

    /// Notes that a pane went to another root, and gives the roots whose catalogs
    /// are no longer needed.
    pub fn change_root(&mut self, pane_id: PaneId, root: RootKey) -> (r: Vec<RootKey>)
        ensures
            final(self)@ == tidied(pane_shows(old(self)@, pane_id, root)),
            r@ == roots_where(
                old(self)@.catalogs,
                pane_shows(old(self)@, pane_id, root).panes,
                false,
            ),
    {
        self.register_pane(pane_id, root);
        self.drop_unreferenced()
    }

    /// Forgets a pane, and gives the roots whose catalogs are no longer needed.
    pub fn remove_pane(&mut self, pane_id: PaneId) -> (r: Vec<RootKey>)
        ensures
            final(self)@ == tidied(
                ServiceView { panes: without_pane(old(self)@.panes, pane_id), ..old(self)@ },
            ),
            r@ == roots_where(
                old(self)@.catalogs,
                without_pane(old(self)@.panes, pane_id),
                false,
            ),
    {
        self.forget_pane(pane_id);
        self.drop_unreferenced()
    }

    /// Sees to it that a root has a catalog, and says whether one has to be made.
    pub fn ensure(&mut self, root: RootKey) -> (r: bool)
        ensures
            r == !old(self)@.catalogs.contains(root),
            final(self)@ == (if r {
                ServiceView { catalogs: old(self)@.catalogs.push(root), ..old(self)@ }
            } else {
                old(self)@
            }),
    {
        if contains_root(&self.catalogs, root) {
            return false;
        }
        self.catalogs.push(root);
        true
    }

    /// Whether a root has a catalog.
    pub fn has(&self, root: RootKey) -> (r: bool)
        ensures
            r == self@.catalogs.contains(root),
    {
        contains_root(&self.catalogs, root)
    }

    /// Forgets the catalog of a root, and says whether there was one.
    pub fn invalidate(&mut self, root: RootKey) -> (r: bool)
        ensures
            r == old(self)@.catalogs.contains(root),
            final(self)@ == (ServiceView {
                catalogs: without_root(old(self)@.catalogs, root),
                ..old(self)@
            }),
    {
        let known = contains_root(&self.catalogs, root);
        let ghost all = self.catalogs@;
        let mut kept: Vec<RootKey> = Vec::new();
        let mut i: usize = 0;
        assert(all.take(0) =~= Seq::empty());
        while i < self.catalogs.len()
            invariant
                i <= self.catalogs@.len(),
                all == self.catalogs@,
                self@ == old(self)@,
                kept@ == without_root(all.take(i as int), root),
            decreases self.catalogs@.len() - i,
        {
            proof {
                assert(all.take(i + 1).drop_last() =~= all.take(i as int));
                assert(all.take(i + 1).last() == self.catalogs@[i as int]);
            }
            if self.catalogs[i] != root {
                kept.push(self.catalogs[i]);
            }
            i = i + 1;
        }
        assert(all.take(i as int) =~= all);
        self.catalogs = kept;
        known
    }
}

/// Roots without one of them.
pub open spec fn without_root(roots: Seq<RootKey>, root: RootKey) -> Seq<RootKey>
    decreases roots.len(),
{
    if roots.len() == 0 {
        Seq::empty()
    } else {
        let before = without_root(roots.drop_last(), root);
        if roots.last() == root {
            before
        } else {
            before.push(roots.last())
        }
    }
}

/// A catalog is kept just as long as some pane shows its root.
pub proof fn catalogs_are_kept_while_shown(service: ServiceView, root: RootKey)
    ensures
        tidied(service).catalogs.contains(root) == (service.catalogs.contains(root) && is_shown(
            service.panes,
            root,
        )),
        roots_where(service.catalogs, service.panes, false).contains(root) == (
        service.catalogs.contains(root) && !is_shown(service.panes, root)),
{
    lemma_roots_where(service.catalogs, service.panes, true, root);
    lemma_roots_where(service.catalogs, service.panes, false, root);
}

/// What is among the roots that are shown, or those that are not.
proof fn lemma_roots_where(
    catalogs: Seq<RootKey>,
    panes: Seq<(PaneId, RootKey)>,
    shown: bool,
    root: RootKey,
)
    ensures
        roots_where(catalogs, panes, shown).contains(root) == (catalogs.contains(root) && is_shown(
            panes,
            root,
        ) == shown),
    decreases catalogs.len(),
{
    if catalogs.len() > 0 {
        let shorter = catalogs.drop_last();
        let before = roots_where(shorter, panes, shown);
        lemma_roots_where(shorter, panes, shown, root);
        let last = catalogs.last();
        assert(catalogs.contains(root) == (shorter.contains(root) || root == last)) by {
            if shorter.contains(root) {
                let k = choose|k: int| 0 <= k < shorter.len() && shorter[k] == root;
                assert(catalogs[k] == root);
            }
            if root == last {
                assert(catalogs[catalogs.len() - 1] == root);
            }
            if catalogs.contains(root) {
                let k = choose|k: int| 0 <= k < catalogs.len() && catalogs[k] == root;
                if k < shorter.len() {
                    assert(shorter[k] == root);
                }
            }
        }
        let longer = before.push(last);
        assert(longer.contains(root) == (before.contains(root) || root == last)) by {
            if before.contains(root) {
                let k = choose|k: int| 0 <= k < before.len() && before[k] == root;
                assert(longer[k] == root);
            }
            if root == last {
                assert(longer[before.len() as int] == root);
            }
            if longer.contains(root) {
                let k = choose|k: int| 0 <= k < longer.len() && longer[k] == root;
                if k < before.len() {
                    assert(before[k] == root);
                }
            }
        }
    }
}

/// Which search counts: the latest that was asked for.
#[derive(Debug)]
pub struct SearchGeneration {
    current: u64,
}

/// The number after a number.
pub open spec fn next_generation(current: u64) -> u64 {
    if current == u64::MAX {
        0
    } else {
        (current + 1) as u64
    }
}

/// What a user is shown of a candidate.
#[verifier::ext_equal]
pub struct HitView {
    pub path: Seq<Seq<char>>,
    pub display: Seq<char>,
    pub kind: EntryKind,
}

impl PickerHit {
    pub open spec fn view(&self) -> HitView {
        HitView { path: self.path@, display: self.display@, kind: self.kind }
    }
}

/// What a user is shown of candidates.
pub open spec fn hits_view(hits: Seq<PickerHit>) -> Seq<HitView> {
    hits.map_values(|hit: PickerHit| hit@)
}

/// What a user is shown of a candidate.
pub open spec fn hit_of(candidate: CandidateView) -> HitView {
    HitView {
        path: split_path(candidate.display),
        display: candidate.display,
        kind: candidate.kind,
    }
}

/// What a user is shown of candidates.
pub open spec fn hits_of(candidates: Seq<CandidateView>) -> Seq<HitView> {
    candidates.map_values(|candidate: CandidateView| hit_of(candidate))
}

impl SearchGeneration {
    /// The number of the search that counts.
    pub closed spec fn view(&self) -> u64 {
        self.current
    }

    /// No search yet.
    pub fn new() -> (r: SearchGeneration)
        ensures
            r@ == 0,
    {
        SearchGeneration { current: 0 }
    }

    /// Asks for a search, and gives its number.
    pub fn request(&mut self) -> (r: u64)
        ensures
            final(self)@ == next_generation(old(self)@),
            r == final(self)@,
    {
        if self.current == u64::MAX {
            self.current = 0;
        } else {
            self.current = self.current + 1;
        }
        self.current
    }

    /// Lets no search count that was asked for.
    pub fn invalidate_pending(&mut self)
        ensures
            final(self)@ == next_generation(old(self)@),
    {
        let _ = self.request();
    }

    /// Whether a search counts.
    pub fn accepts(&self, generation: u64) -> (r: bool)
        ensures
            r == (generation == self@),
    {
        self.current == generation
    }

    /// What a user is shown of what a search found; nothing where the search does not
    /// count any more.
    pub fn results(&self, generation: u64, found: &Vec<SearchCandidate>) -> (r: Option<
        Vec<PickerHit>,
    >)
        ensures
            match r {
                Some(hits) => generation == self@ && hits_view(hits@) == hits_of(
                    candidates_view(found@),
                ),
                None => generation != self@,
            },
    {
        if !self.accepts(generation) {
            return None;
        }
        let mut hits: Vec<PickerHit> = Vec::new();
        let mut i: usize = 0;
        while i < found.len()
            invariant
                i <= found.len(),
                hits@.len() == i,
                forall|k: int|
                    0 <= k < i ==> (#[trigger] hits@[k])@ == hit_of(found@[k]@),
            decreases found.len() - i,
        {
            hits.push(picker_hit(&found[i]));
            i = i + 1;
        }
        assert(hits_view(hits@) =~= hits_of(candidates_view(found@)));
        Some(hits)
    }
}

/// The search that is done when several wait: the one asked for last.
pub fn latest_request<R>(first: R, waiting: Vec<R>) -> (r: R)
    ensures
        r == (if waiting@.len() == 0 {
            first
        } else {
            waiting@.last()
        }),
{
    let mut waiting = waiting;
    match waiting.pop() {
        Some(latest) => latest,
        None => first,
    }
}

/// A search that was followed by another one, or called off, does not count.
pub proof fn older_searches_do_not_count(current: u64)
    ensures
        next_generation(current) != current,
{
}

} // verus!
