//! Which panes there are, how they share the window, and which one is active.

use vstd::prelude::*;

use crate::commands::{cycle_focus, next_focus};
use crate::gates::{close_rejection, closing_refused};
use crate::notices::{message, Message, MessageKind, MessageView};
use crate::pane::{contains_pane, leaves_of, PaneId, PaneLayout, SplitDirection};

verus! {

/// The most panes that share the window.
pub const MAX_PANES: usize = 4;

/// What a user wants of the panes.
#[derive(Debug, Clone, Copy, PartialEq, Eq, Structural)]
pub enum PaneAction {
    SplitHorizontal,
    SplitVertical,
    Close,
    FocusLeft,
    FocusRight,
    FocusUp,
    FocusDown,
    FocusNext,
    FocusPrevious,
}

/// What is known when a user wants something of the panes.
#[derive(Debug)]
pub struct PaneFacts {
    /// Whether a worker is running, a transfer waits for a user's word, or something
    /// is being loaded.
    pub workspace_applying: bool,
    /// Whether the buffer of the active pane was edited.
    pub dirty: bool,
    /// Whether neither a save nor an undo is going on in the active pane.
    pub idle: bool,
    /// Whether the editor of the active pane has stopped.
    pub crashed: bool,
    /// Whether a question about the active pane waits for a user's word.
    pub owns_dialog: bool,
    /// The pane that stands in the direction of the wish.
    pub neighbor: Option<PaneId>,
    /// The pane that becomes active when the active one is closed.
    pub sibling: Option<PaneId>,
    /// How the others share the window when the active one is closed.
    pub closed: Option<PaneLayout>,
}

/// What a wish of a user leads to.
#[derive(Debug, PartialEq, Eq)]
pub enum PaneStep {
    /// Nothing.
    Ignored,
    Tell(Message),
    /// A pane is to be made beside the active one.
    Create { id: PaneId, direction: SplitDirection },
    /// A pane is gone, and another one is active.
    Closed { pane: PaneId },
    /// Another pane is active.
    Focused,
}

/// What a wish of a user leads to.
#[verifier::ext_equal]
pub enum PaneStepView {
    Ignored,
    Tell(MessageView),
    Create { id: PaneId, direction: SplitDirection },
    Closed { pane: PaneId },
    Focused,
}

impl PaneStep {
    pub open spec fn view(&self) -> PaneStepView {
        match self {
            PaneStep::Ignored => PaneStepView::Ignored,
            PaneStep::Tell(message) => PaneStepView::Tell(message@),
            PaneStep::Create { id, direction } => PaneStepView::Create {
                id: *id,
                direction: *direction,
            },
            PaneStep::Closed { pane } => PaneStepView::Closed { pane: *pane },
            PaneStep::Focused => PaneStepView::Focused,
        }
    }
}

/// What a pane that was made, or was not, leads to.
#[derive(Debug, PartialEq, Eq)]
pub enum CreatedStep {
    Tell(Message),
    /// The pane is given up.
    Dropped,
    /// The pane is there and active.
    Added,
}

/// What a pane that was made, or was not, leads to.
#[verifier::ext_equal]
pub enum CreatedView {
    Tell(MessageView),
    Dropped,
    Added,
}

impl CreatedStep {
    pub open spec fn view(&self) -> CreatedView {
        match self {
            CreatedStep::Tell(message) => CreatedView::Tell(message@),
            CreatedStep::Dropped => CreatedView::Dropped,
            CreatedStep::Added => CreatedView::Added,
        }
    }
}

/// Which panes there are, how they share the window, and which one is active.
#[verifier::ext_equal]
pub struct BookView {
    pub panes: Seq<PaneId>,
    pub layout: PaneLayout,
    pub active: PaneId,
    /// The pane that was active before.
    pub last_active: PaneId,
    /// The number of the next pane.
    pub next_id: u64,
}

/// The panes without one of them.
pub open spec fn panes_without(panes: Seq<PaneId>, pane: PaneId) -> Seq<PaneId>
    decreases panes.len(),
{
    if panes.len() == 0 {
        Seq::empty()
    } else {
        let before = panes_without(panes.drop_last(), pane);
        if panes.last() == pane {
            before
        } else {
            before.push(panes.last())
        }
    }
}

/// How a wish to split splits.
pub open spec fn split_direction(action: PaneAction) -> Option<SplitDirection> {
    match action {
        PaneAction::SplitHorizontal => Some(SplitDirection::Horizontal),
        PaneAction::SplitVertical => Some(SplitDirection::Vertical),
        _ => None,
    }
}

/// The pane that a wish for the focus means.
pub open spec fn focus_target(
    book: BookView,
    action: PaneAction,
    neighbor: Option<PaneId>,
) -> Option<PaneId> {
    match action {
        PaneAction::FocusNext => next_focus(leaves_of(book.layout), book.active, true),
        PaneAction::FocusPrevious => next_focus(leaves_of(book.layout), book.active, false),
        _ => neighbor,
    }
}

/// What a wish of a user leads to. Only the active pane has wishes.
pub open spec fn pane_step(
    book: BookView,
    action: PaneAction,
    source: PaneId,
    facts: PaneFacts,
) -> (BookView, PaneStepView) {
    if source != book.active {
        (book, PaneStepView::Ignored)
    } else if split_direction(action) is Some {
        if facts.workspace_applying {
            (
                book,
                PaneStepView::Tell(
                    message(
                        MessageKind::Info,
                        "Cannot split a pane during apply or transfer"@,
                    ),
                ),
            )
        } else if book.panes.len() >= MAX_PANES {
            (
                book,
                PaneStepView::Tell(
                    message(MessageKind::Info, "A maximum of four panes is allowed"@),
                ),
            )
        } else if !book.panes.contains(source) {
            (book, PaneStepView::Ignored)
        } else {
            (
                book,
                PaneStepView::Create {
                    id: PaneId(book.next_id),
                    direction: split_direction(action)->Some_0,
                },
            )
        }
    } else if action == PaneAction::Close {
        let refusal = closing_refused(
            facts.dirty,
            facts.idle,
            facts.workspace_applying,
            book.panes.len() == 1,
            facts.crashed,
        );
        if !book.panes.contains(source) {
            (book, PaneStepView::Ignored)
        } else {
            match refusal {
                Some(text) => (book, PaneStepView::Tell(message(MessageKind::Info, text))),
                None => if facts.owns_dialog {
                    (
                        book,
                        PaneStepView::Tell(
                            message(
                                MessageKind::Info,
                                "Close the confirmation dialog before closing the pane"@,
                            ),
                        ),
                    )
                } else {
                    match (facts.sibling, facts.closed) {
                        (Some(target), Some(layout)) => (
                            BookView {
                                panes: panes_without(book.panes, source),
                                layout,
                                active: target,
                                last_active: target,
                                ..book
                            },
                            PaneStepView::Closed { pane: source },
                        ),
                        _ => (book, PaneStepView::Ignored),
                    }
                },
            }
        }
    } else {
        match focus_target(book, action, facts.neighbor) {
            Some(target) => (
                BookView { active: target, last_active: book.active, ..book },
                PaneStepView::Focused,
            ),
            None => (book, PaneStepView::Ignored),
        }
    }
}

/// What a pane that was made, or was not, leads to. `split` says how all share the
/// window then, where the window can be split.
pub open spec fn created_step(
    book: BookView,
    id: PaneId,
    made: Result<(), Seq<char>>,
    split: Option<PaneLayout>,
) -> (BookView, CreatedView) {
    match (made, split) {
        (Err(error), _) => (
            book,
            CreatedView::Tell(
                message(MessageKind::Error, "Failed to add pane: "@ + error),
            ),
        ),
        (Ok(_), None) => (book, CreatedView::Dropped),
        (Ok(_), Some(layout)) => (
            BookView {
                panes: book.panes.push(id),
                layout,
                active: id,
                last_active: book.active,
                next_id: (book.next_id + 1) as u64,
            },
            CreatedView::Added,
        ),
    }
}

/// Which panes there are, how they share the window, and which one is active.
#[derive(Debug)]
pub struct PaneBook {
    panes: Vec<PaneId>,
    layout: PaneLayout,
    active: PaneId,
    last_active: PaneId,
    next_id: u64,
}

/// What came of making a pane.
pub open spec fn made_view(made: Result<(), String>) -> Result<(), Seq<char>> {
    match made {
        Ok(done) => Ok(done),
        Err(error) => Err(error@),
    }
}

impl PaneBook {
    /// Which panes there are, how they share the window, and which one is active.
    pub closed spec fn view(&self) -> BookView {
        BookView {
            panes: self.panes@,
            layout: self.layout,
            active: self.active,
            last_active: self.last_active,
            next_id: self.next_id,
        }
    }

    /// Panes that share the window.
    pub fn new(panes: Vec<PaneId>, layout: PaneLayout, active: PaneId, next_id: u64) -> (r: PaneBook)
        ensures
            r@ == (BookView { panes: panes@, layout, active, last_active: active, next_id }),
    {
        PaneBook { panes, layout, active, last_active: active, next_id }
    }

    /// Takes a wish of a user.
    pub fn handle_pane_action(&mut self, action: PaneAction, source: PaneId, facts: PaneFacts) -> (r:
        PaneStep)
        ensures
            (final(self)@, r@) == pane_step(old(self)@, action, source, facts),
    {
        if source != self.active {
            return PaneStep::Ignored;
        }
        match action {
            PaneAction::SplitHorizontal | PaneAction::SplitVertical => {
                if facts.workspace_applying {
                    return PaneStep::Tell(
                        Message::new(
                            MessageKind::Info,
                            "Cannot split a pane during apply or transfer",
                        ),
                    );
                }
                if self.panes.len() >= MAX_PANES {
                    return PaneStep::Tell(
                        Message::new(MessageKind::Info, "A maximum of four panes is allowed"),
                    );
                }
                if !contains_pane(&self.panes, source) {
                    return PaneStep::Ignored;
                }
                let direction = if action == PaneAction::SplitHorizontal {
                    SplitDirection::Horizontal
                } else {
                    SplitDirection::Vertical
                };
                PaneStep::Create { id: PaneId(self.next_id), direction }
            },
            PaneAction::Close => {
                if !contains_pane(&self.panes, source) {
                    return PaneStep::Ignored;
                }
                if let Some(text) = close_rejection(
                    facts.dirty,
                    facts.idle,
                    facts.workspace_applying,
                    self.panes.len() == 1,
                    facts.crashed,
                ) {
                    return PaneStep::Tell(Message::new(MessageKind::Info, text));
                }
                if facts.owns_dialog {
                    return PaneStep::Tell(
                        Message::new(
                            MessageKind::Info,
                            "Close the confirmation dialog before closing the pane",
                        ),
                    );
                }
                let target = match facts.sibling {
                    Some(target) => target,
                    None => {
                        return PaneStep::Ignored;
                    },
                };
                let layout = match facts.closed {
                    Some(layout) => layout,
                    None => {
                        return PaneStep::Ignored;
                    },
                };
                self.remove(source);
                self.layout = layout;
                self.last_active = target;
                self.active = target;
                PaneStep::Closed { pane: source }
            },
            _ => {
                let target = match action {
                    PaneAction::FocusNext => cycle_focus(&self.layout, source, true),
                    PaneAction::FocusPrevious => cycle_focus(&self.layout, source, false),
                    _ => facts.neighbor,
                };
                match target {
                    Some(target) => {
                        self.last_active = self.active;
                        self.active = target;
                        PaneStep::Focused
                    },
                    None => PaneStep::Ignored,
                }
            },
        }
    }

    /// Forgets a pane.
    fn remove(&mut self, pane: PaneId)
        ensures
            final(self)@ == (BookView {
                panes: panes_without(old(self)@.panes, pane),
                ..old(self)@
            }),
    {
        let ghost all = self.panes@;
        let mut kept: Vec<PaneId> = Vec::new();
        let mut i: usize = 0;
        assert(all.take(0) =~= Seq::empty());
        while i < self.panes.len()
            invariant
                i <= self.panes@.len(),
                all == self.panes@,
                self@ == old(self)@,
                kept@ == panes_without(all.take(i as int), pane),
            decreases self.panes@.len() - i,
        {
            proof {
                assert(all.take(i + 1).drop_last() =~= all.take(i as int));
                assert(all.take(i + 1).last() == self.panes@[i as int]);
            }
            if self.panes[i] != pane {
                kept.push(self.panes[i]);
            }
            i = i + 1;
        }
        assert(all.take(i as int) =~= all);
        self.panes = kept;
    }

    /// Takes a pane that was made, or why it was not. `split` says how all share the
    /// window then, where the window can be split.
    pub fn on_pane_created(
        &mut self,
        id: PaneId,
        made: Result<(), String>,
        split: Option<PaneLayout>,
    ) -> (r: CreatedStep)
        requires
            old(self)@.next_id < u64::MAX,
        ensures
            (final(self)@, r@) == created_step(old(self)@, id, made_view(made), split),
    {
        if let Err(error) = made {
            return CreatedStep::Tell(
                Message {
                    kind: MessageKind::Error,
                    text: "Failed to add pane: ".to_owned().concat(error.as_str()),
                },
            );
        }
        match split {
            None => CreatedStep::Dropped,
            Some(layout) => {
                self.panes.push(id);
                self.layout = layout;
                self.last_active = self.active;
                self.active = id;
                self.next_id = self.next_id + 1;
                CreatedStep::Added
            },
        }
    }

    /// The panes, in the order in which they were made.
    pub fn panes(&self) -> (r: &Vec<PaneId>)
        ensures
            r@ == self@.panes,
    {
        &self.panes
    }

    /// How the panes share the window.
    pub fn layout(&self) -> (r: &PaneLayout)
        ensures
            *r == self@.layout,
    {
        &self.layout
    }

    /// The active pane.
    pub fn active(&self) -> (r: PaneId)
        ensures
            r == self@.active,
    {
        self.active
    }

    /// The pane that was active before.
    pub fn last_active(&self) -> (r: PaneId)
        ensures
            r == self@.last_active,
    {
        self.last_active
    }
}

/// Whether the book is in order: the window shows just the panes there are, at most
/// four and each once, the active one among them, and every number is smaller than
/// the next.
pub open spec fn in_order(book: BookView) -> bool {
    &&& 1 <= book.panes.len() <= MAX_PANES
    &&& book.panes.no_duplicates()
    &&& book.panes.contains(book.active)
    &&& leaves_of(book.layout).to_set() == book.panes.to_set()
    &&& forall|i: int| 0 <= i < book.panes.len() ==> (#[trigger] book.panes[i]).0 < book.next_id
}

/// A wish leaves the book in order, where the pane that the wish leads to and the
/// layout without the closed pane are what they should be.
pub proof fn wishes_keep_the_book_in_order(
    book: BookView,
    action: PaneAction,
    source: PaneId,
    facts: PaneFacts,
)
    requires
        in_order(book),
        facts.neighbor matches Some(pane) ==> book.panes.contains(pane),
        facts.sibling matches Some(pane) ==> book.panes.contains(pane) && pane != source,
        facts.closed matches Some(layout) ==> leaves_of(layout).to_set()
            == book.panes.to_set().remove(source),
    ensures
        in_order(pane_step(book, action, source, facts).0),
{
    let (after, step) = pane_step(book, action, source, facts);
    if step is Closed {
        lemma_panes_without(book.panes, source);
        assert(after.panes.to_set() =~= book.panes.to_set().remove(source)) by {
            assert forall|pane: PaneId|
                after.panes.to_set().contains(pane) == book.panes.to_set().remove(source).contains(
                    pane,
                ) by {
                assert(after.panes.contains(pane) == (book.panes.contains(pane) && pane
                    != source));
            }
        }
        assert(after.panes.contains(after.active));
        assert(after.panes.len() >= 1);
        assert forall|i: int| 0 <= i < after.panes.len() implies (#[trigger] after.panes[i]).0
            < after.next_id by {
            assert(after.panes.contains(after.panes[i]));
            assert(book.panes.contains(after.panes[i]));
            let k = choose|k: int| 0 <= k < book.panes.len() && book.panes[k] == after.panes[i];
            assert(book.panes[k].0 < book.next_id);
        }
    }
    if step is Focused {
        let leaves = leaves_of(book.layout);
        leaves.index_of_first_ensures(book.active);
        if action == PaneAction::FocusNext || action == PaneAction::FocusPrevious {
            let target = after.active;
            assert(leaves.contains(target));
            assert(leaves.to_set().contains(target));
            assert(book.panes.to_set().contains(target));
        }
    }
}

/// What is left without one pane.
proof fn lemma_panes_without(panes: Seq<PaneId>, pane: PaneId)
    ensures
        panes_without(panes, pane).len() <= panes.len(),
        forall|other: PaneId| #[trigger]
            panes_without(panes, pane).contains(other) == (panes.contains(other) && other != pane),
        panes.no_duplicates() ==> panes_without(panes, pane).no_duplicates(),
    decreases panes.len(),
{
    if panes.len() > 0 {
        let shorter = panes.drop_last();
        let last = panes.last();
        let before = panes_without(shorter, pane);
        let after = panes_without(panes, pane);
        lemma_panes_without(shorter, pane);
        assert forall|other: PaneId| #[trigger]
            after.contains(other) == (panes.contains(other) && other != pane) by {
            assert(before.contains(other) == (shorter.contains(other) && other != pane));
            if panes.contains(other) {
                let k = choose|k: int| 0 <= k < panes.len() && panes[k] == other;
                if k < shorter.len() {
                    assert(shorter[k] == other);
                }
            }
            if shorter.contains(other) {
                let k = choose|k: int| 0 <= k < shorter.len() && shorter[k] == other;
                assert(panes[k] == other);
            }
            if last != pane {
                if before.contains(other) {
                    let k = choose|k: int| 0 <= k < before.len() && before[k] == other;
                    assert(after[k] == other);
                }
                if other == last {
                    assert(after[before.len() as int] == other);
                }
                if after.contains(other) {
                    let k = choose|k: int| 0 <= k < after.len() && after[k] == other;
                    if k < before.len() {
                        assert(before[k] == other);
                    }
                }
            }
            if other == last {
                assert(panes[panes.len() - 1] == other);
            }
        }
        if panes.no_duplicates() {
            assert(shorter.no_duplicates());
            if last != pane {
                assert(!shorter.contains(last)) by {
                    if shorter.contains(last) {
                        let k = choose|k: int| 0 <= k < shorter.len() && shorter[k] == last;
                        assert(panes[k] == panes[panes.len() - 1]);
                    }
                }
                assert(!before.contains(last));
                assert forall|i: int, j: int|
                    0 <= i < after.len() && 0 <= j < after.len() && i != j implies after[i]
                    != after[j] by {
                    if i < before.len() && j < before.len() {
                        assert(before[i] != before[j]);
                    } else if i < before.len() {
                        assert(before.contains(before[i]));
                    } else {
                        assert(before.contains(before[j]));
                    }
                }
            }
        }
    }
}

/// A pane that is added leaves the book in order, where there is room for it and
/// the new layout is what it should be.
pub proof fn added_pane_keeps_the_book_in_order(
    book: BookView,
    made: Result<(), Seq<char>>,
    split: Option<PaneLayout>,
)
    requires
        in_order(book),
        book.panes.len() < MAX_PANES,
        book.next_id < u64::MAX,
        split matches Some(layout) ==> leaves_of(layout).to_set() == book.panes.to_set().insert(
            PaneId(book.next_id),
        ),
    ensures
        in_order(created_step(book, PaneId(book.next_id), made, split).0),
{
    let id = PaneId(book.next_id);
    let (after, step) = created_step(book, id, made, split);
    if step is Added {
        assert(after.panes == book.panes.push(id));
        assert(after.panes[book.panes.len() as int] == id);
        assert(after.panes.to_set() =~= book.panes.to_set().insert(id)) by {
            assert forall|pane: PaneId|
                after.panes.to_set().contains(pane) == book.panes.to_set().insert(id).contains(
                    pane,
                ) by {
                if book.panes.contains(pane) {
                    let k = choose|k: int| 0 <= k < book.panes.len() && book.panes[k] == pane;
                    assert(after.panes[k] == pane);
                }
                if after.panes.contains(pane) {
                    let k = choose|k: int| 0 <= k < after.panes.len() && after.panes[k] == pane;
                    if k < book.panes.len() {
                        assert(book.panes[k] == pane);
                    }
                }
            }
        }
        assert forall|i: int| 0 <= i < after.panes.len() implies (#[trigger] after.panes[i]).0
            < after.next_id by {
            if i < book.panes.len() {
                assert(book.panes[i].0 < book.next_id);
            }
        }
        assert(after.panes.no_duplicates()) by {
            assert forall|i: int, j: int|
                0 <= i < after.panes.len() && 0 <= j < after.panes.len() && i != j implies after.panes[i]
                != after.panes[j] by {
                if i < book.panes.len() {
                    assert(book.panes[i].0 < book.next_id);
                }
                if j < book.panes.len() {
                    assert(book.panes[j].0 < book.next_id);
                }
            }
        }
        assert(after.panes.contains(id));
    }
}

} // verus!
