//! Asking for the state of a repository: for each pane one question at a time, and
//! after it the latest that came meanwhile.

use std::collections::HashMap;

use vstd::prelude::*;

use crate::fs_path::{compared, FsPath, FsPathView};
use crate::pane::PaneId;
use crate::undo::{copy_path, path_view};

verus! {

broadcast use vstd::std_specs::hash::group_hash_axioms;

/// What is going on for one pane.
#[derive(Debug)]
pub struct GitRefreshSlot {
    pub inflight: bool,
    pub queued: Option<FsPath>,
}

/// What is going on for one pane.
#[verifier::ext_equal]
pub struct SlotView {
    pub inflight: bool,
    pub queued: Option<FsPathView>,
}

impl GitRefreshSlot {
    pub open spec fn view(&self) -> SlotView {
        SlotView { inflight: self.inflight, queued: path_view(self.queued) }
    }
}

/// What is going on for each pane.
#[derive(Debug)]
pub struct GitRefresher {
    slots: HashMap<u64, GitRefreshSlot>,
}

/// What is going on for a pane; nothing where nothing is known of it.
pub open spec fn slot_of(slots: Map<u64, SlotView>, pane: PaneId) -> SlotView {
    if slots.contains_key(pane.0) {
        slots[pane.0]
    } else {
        SlotView { inflight: false, queued: None }
    }
}

/// What a wish leads to, and the root to ask about now. While a question is open,
/// the latest wish waits.
pub open spec fn requested(slots: Map<u64, SlotView>, pane: PaneId, root: FsPathView) -> (
    Map<u64, SlotView>,
    Option<FsPathView>,
) {
    let slot = slot_of(slots, pane);
    if slot.inflight {
        (slots.insert(pane.0, SlotView { inflight: true, queued: Some(root) }), None)
    } else {
        (slots.insert(pane.0, SlotView { inflight: true, ..slot }), Some(root))
    }
}

/// What an answer leads to, and the root that waits to be asked about.
pub open spec fn answered(slots: Map<u64, SlotView>, pane: PaneId) -> (
    Map<u64, SlotView>,
    Option<FsPathView>,
) {
    if slots.contains_key(pane.0) {
        (
            slots.insert(pane.0, SlotView { inflight: false, queued: None }),
            slots[pane.0].queued,
        )
    } else {
        (slots, None)
    }
}

impl GitRefresher {
    /// What is going on for each pane.
    pub closed spec fn view(&self) -> Map<u64, SlotView> {
        self.slots@.map_values(|slot: GitRefreshSlot| slot@)
    }

    /// Nothing is going on.
    pub fn new() -> (r: GitRefresher)
        ensures
            r@ == Map::<u64, SlotView>::empty(),
    {
        let git = GitRefresher { slots: HashMap::new() };
        assert(git@ =~= Map::empty());
        git
    }

    /// Takes the wish for the state of a root, and gives the root to ask about now.
    pub fn prepare_request(&mut self, pane_id: PaneId, root: FsPath) -> (r: Option<FsPath>)
        ensures
            (final(self)@, path_view(r)) == requested(old(self)@, pane_id, root@),
    {
        let ghost before = self@;
        let slot = match self.slots.remove(&pane_id.0) {
            Some(slot) => slot,
            None => GitRefreshSlot { inflight: false, queued: None },
        };
        assert(slot@ == slot_of(before, pane_id));
        if slot.inflight {
            let waiting = GitRefreshSlot { inflight: true, queued: Some(root) };
            self.slots.insert(pane_id.0, waiting);
            assert(self@ =~= requested(before, pane_id, root@).0);
            return None;
        }
        let asking = GitRefreshSlot { inflight: true, queued: slot.queued };
        self.slots.insert(pane_id.0, asking);
        assert(self@ =~= requested(before, pane_id, root@).0);
        Some(root)
    }

    /// Takes the news of an answer, and gives the root that waits to be asked
    /// about.
    pub fn on_finished(&mut self, pane_id: PaneId) -> (r: Option<FsPath>)
        ensures
            (final(self)@, path_view(r)) == answered(old(self)@, pane_id),
    {
        let ghost before = self@;
        match self.slots.remove(&pane_id.0) {
            Some(slot) => {
                self.slots.insert(pane_id.0, GitRefreshSlot { inflight: false, queued: None });
                assert(self@ =~= answered(before, pane_id).0);
                slot.queued
            },
            None => {
                assert(self@ =~= before);
                None
            },
        }
    }

    /// Forgets a pane.
    pub fn remove(&mut self, pane_id: PaneId)
        ensures
            final(self)@ == old(self)@.remove(pane_id.0),
    {
        let ghost before = self@;
        self.slots.remove(&pane_id.0);
        assert(self@ =~= before.remove(pane_id.0));
    }

    /// Whether a question is open for a pane.
    pub fn is_inflight(&self, pane_id: PaneId) -> (r: bool)
        ensures
            r == slot_of(self@, pane_id).inflight,
    {
        match self.slots.get(&pane_id.0) {
            Some(slot) => slot.inflight,
            None => false,
        }
    }

    /// The root that waits to be asked about.
    pub fn queued(&self, pane_id: PaneId) -> (r: Option<FsPath>)
        ensures
            path_view(r) == slot_of(self@, pane_id).queued,
    {
        match self.slots.get(&pane_id.0) {
            Some(slot) => copy_path(&slot.queued),
            None => None,
        }
    }
}

/// Wishes that come while a question is open lead to one more question, about the
/// latest root.
pub proof fn latest_wish_wins(
    slots: Map<u64, SlotView>,
    pane: PaneId,
    first: FsPathView,
    latest: FsPathView,
)
    requires
        slot_of(slots, pane).inflight,
    ensures
        ({
            let (once, now) = requested(slots, pane, first);
            let (twice, later) = requested(once, pane, latest);
            &&& now is None
            &&& later is None
            &&& answered(twice, pane).1 == Some(latest)
        }),
{
}

/// Whether what was found out about `root` is shown in a pane: where the pane still shows
/// that root. Whether two roots are the same is for the platform to say.
pub fn is_status_current(session_root: &FsPath, root: &FsPath) -> (r: bool)
    ensures
        compared(session_root@, root@, r),
{
    session_root.is_same_path(root)
}

/// A wish for one pane does not touch another one.
pub proof fn panes_are_asked_apart(
    slots: Map<u64, SlotView>,
    pane: PaneId,
    other: PaneId,
    root: FsPathView,
)
    requires
        pane != other,
    ensures
        slot_of(requested(slots, pane, root).0, other) == slot_of(slots, other),
        slot_of(answered(slots, pane).0, other) == slot_of(slots, other),
{
}

} // verus!
