//! Panes and how they share the window.

use vstd::prelude::*;

verus! {

/// The number of a pane.
#[derive(Debug, Clone, Copy, PartialEq, Eq, Structural)]
pub struct PaneId(pub u64);

/// How a part of the window is split.
#[derive(Debug, Clone, Copy, PartialEq, Eq, Structural)]
pub enum SplitDirection {
    Horizontal,
    Vertical,
}

/// How panes share the window: a pane, or a part that is split in two. The
/// share of the first half is held by the bits of its double precision value.
#[derive(Debug, PartialEq, Eq)]
pub enum PaneLayout {
    Leaf(PaneId),
    Split { direction: SplitDirection, ratio: u64, first: Box<PaneLayout>, second: Box<PaneLayout> },
}

/// The panes of a layout, from the first to the last.
pub open spec fn leaves_of(layout: PaneLayout) -> Seq<PaneId>
    decreases layout,
{
    match layout {
        PaneLayout::Leaf(id) => seq![id],
        PaneLayout::Split { first, second, .. } => leaves_of(*first) + leaves_of(*second),
    }
}

/// A layout without the panes that are not among `available`; none where no
/// pane is left. A split of which one half is gone becomes the other half.
pub open spec fn retained(layout: PaneLayout, available: Seq<PaneId>) -> Option<PaneLayout>
    decreases layout,
{
    match layout {
        PaneLayout::Leaf(id) => if available.contains(id) {
            Some(layout)
        } else {
            None
        },
        PaneLayout::Split { direction, ratio, first, second } => match (
            retained(*first, available),
            retained(*second, available),
        ) {
            (Some(first), Some(second)) => Some(
                PaneLayout::Split {
                    direction,
                    ratio,
                    first: Box::new(first),
                    second: Box::new(second),
                },
            ),
            (Some(child), None) => Some(child),
            (None, Some(child)) => Some(child),
            (None, None) => None,
        },
    }
}

/// Whether a pane is among a list of panes.
pub fn contains_pane(panes: &Vec<PaneId>, id: PaneId) -> (r: bool)
    ensures
        r == panes@.contains(id),
{
    let mut i: usize = 0;
    while i < panes.len()
        invariant
            i <= panes@.len(),
            forall|j: int| 0 <= j < i ==> panes@[j] != id,
        decreases panes@.len() - i,
    {
        if panes[i] == id {
            return true;
        }
        i = i + 1;
    }
    false
}

impl PaneLayout {
    /// The same layout once more.
    pub fn copy(&self) -> (r: PaneLayout)
        ensures
            r == *self,
        decreases self,
    {
        match self {
            PaneLayout::Leaf(id) => PaneLayout::Leaf(*id),
            PaneLayout::Split { direction, ratio, first, second } => PaneLayout::Split {
                direction: *direction,
                ratio: *ratio,
                first: Box::new((&**first).copy()),
                second: Box::new((&**second).copy()),
            },
        }
    }

    /// The panes, from the first to the last.
    pub fn leaves(&self) -> (r: Vec<PaneId>)
        ensures
            r@ == leaves_of(*self),
        decreases self,
    {
        match self {
            PaneLayout::Leaf(id) => {
                let mut leaves: Vec<PaneId> = Vec::new();
                leaves.push(*id);
                assert(leaves@ =~= leaves_of(*self));
                leaves
            },
            PaneLayout::Split { first, second, .. } => {
                let mut leaves = first.leaves();
                let mut others = second.leaves();
                leaves.append(&mut others);
                leaves
            },
        }
    }
}

/// There is always a pane in a layout.
pub proof fn layout_has_a_pane(layout: PaneLayout)
    ensures
        leaves_of(layout).len() >= 1,
    decreases layout,
{
    if let PaneLayout::Split { first, second, .. } = layout {
        layout_has_a_pane(*first);
    }
}

/// A layout without the panes that are not among `available`.
pub fn retain_available_layout(layout: &PaneLayout, available: &Vec<PaneId>) -> (r: Option<
    PaneLayout,
>)
    ensures
        r == retained(*layout, available@),
    decreases layout,
{
    match layout {
        PaneLayout::Leaf(id) => if contains_pane(available, *id) {
            Some(PaneLayout::Leaf(*id))
        } else {
            None
        },
        PaneLayout::Split { direction, ratio, first, second } => {
            let kept_first = retain_available_layout(first, available);
            let kept_second = retain_available_layout(second, available);
            match (kept_first, kept_second) {
                (Some(first), Some(second)) => Some(
                    PaneLayout::Split {
                        direction: *direction,
                        ratio: *ratio,
                        first: Box::new(first),
                        second: Box::new(second),
                    },
                ),
                (Some(child), None) => Some(child),
                (None, Some(child)) => Some(child),
                (None, None) => None,
            }
        },
    }
}

/// The available panes of a list, in order.
pub open spec fn only(panes: Seq<PaneId>, available: Seq<PaneId>) -> Seq<PaneId> {
    panes.filter(|id: PaneId| available.contains(id))
}

/// Retaining panes keeps just the available ones, in their order; nothing is
/// left only where none is available.
pub proof fn retaining_keeps_available_panes(layout: PaneLayout, available: Seq<PaneId>)
    ensures
        match retained(layout, available) {
            Some(kept) => leaves_of(kept) == only(leaves_of(layout), available),
            None => only(leaves_of(layout), available).len() == 0,
        },
    decreases layout,
{
    let keep = |id: PaneId| available.contains(id);
    match layout {
        PaneLayout::Leaf(id) => {
            let leaves = leaves_of(layout);
            reveal_with_fuel(Seq::filter, 2);
            assert(leaves.drop_last() =~= Seq::<PaneId>::empty());
            assert(leaves.last() == id);
            assert(Seq::<PaneId>::empty().push(id) =~= seq![id]);
        },
        PaneLayout::Split { direction, ratio, first, second } => {
            retaining_keeps_available_panes(*first, available);
            retaining_keeps_available_panes(*second, available);
            Seq::filter_distributes_over_add(leaves_of(*first), leaves_of(*second), keep);
            let a = only(leaves_of(*first), available);
            let b = only(leaves_of(*second), available);
            assert(only(leaves_of(layout), available) == a + b);
            if a.len() == 0 {
                assert(a + b =~= b);
            }
            if b.len() == 0 {
                assert(a + b =~= a);
            }
        },
    }
}

/// Retaining all panes of a layout changes nothing.
pub proof fn retaining_all_changes_nothing(layout: PaneLayout, available: Seq<PaneId>)
    requires
        forall|i: int|
            0 <= i < leaves_of(layout).len() ==> available.contains(
                #[trigger] leaves_of(layout)[i],
            ),
    ensures
        retained(layout, available) == Some(layout),
    decreases layout,
{
    match layout {
        PaneLayout::Leaf(id) => {
            assert(leaves_of(layout)[0] == id);
        },
        PaneLayout::Split { first, second, .. } => {
            let a = leaves_of(*first);
            let b = leaves_of(*second);
            assert forall|i: int| 0 <= i < a.len() implies available.contains(#[trigger] a[i]) by {
                assert(leaves_of(layout)[i] == a[i]);
            }
            assert forall|i: int| 0 <= i < b.len() implies available.contains(#[trigger] b[i]) by {
                assert(leaves_of(layout)[a.len() + i] == b[i]);
            }
            retaining_all_changes_nothing(*first, available);
            retaining_all_changes_nothing(*second, available);
        },
    }
}

} // verus!
