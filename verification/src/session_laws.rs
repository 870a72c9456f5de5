//! What a session's document means, and which sessions can be written.

use vstd::prelude::*;

use crate::fs_path::unicode_path;
use crate::options::{SortKey, SortOrder};
use crate::pane::{leaves_of, PaneId, PaneLayout, SplitDirection};
use crate::session::{
    first_panes, has_pane, layout_of, layout_toml, optional_tree_path, pane_record, pane_toml,
    pane_values, panes_ascend, panes_of, recorded_panes, required_pane_id, same_panes,
    state_entries, state_error, state_of, tree_path_of, tree_paths_of, with_pane, SessionPaneView,
    SessionStateView,
};
use crate::single::{narrowed, ONE};
use crate::toml_doc::{lookup, Toml};
use crate::undo_journal::Entries;

verus! {

/// A session is in order just where it has one to four panes, each of them once in the
/// layout, records of just these, one of them active, and a window that has a place if it
/// has any.
pub proof fn session_in_order(state: SessionStateView)
    ensures
        state_error(state) is None <==> {
            let leaves = leaves_of(state.layout);
            &&& 1 <= leaves.len() <= 4
            &&& forall|i: int, j: int|
                0 <= i < j < leaves.len() ==> #[trigger] leaves[i] != #[trigger] leaves[j]
            &&& forall|id: PaneId| #[trigger]
                leaves.contains(id) <==> exists|i: int|
                    0 <= i < state.panes.len() && (#[trigger] state.panes[i]).id == id
            &&& leaves.contains(state.active)
            &&& state.window matches Some(window) ==> window.valid
        },
{
    let leaves = leaves_of(state.layout);
    let distinct = forall|i: int, j: int|
        0 <= i < j < leaves.len() ==> #[trigger] leaves[i] != #[trigger] leaves[j];
    assert(leaves.no_duplicates() <==> distinct) by {
        if distinct {
            assert forall|i: int, j: int|
                0 <= i < leaves.len() && 0 <= j < leaves.len() && i != j implies leaves[i]
                != leaves[j] by {
                if i < j {
                    assert(leaves[i] != leaves[j]);
                } else {
                    assert(leaves[j] != leaves[i]);
                }
            }
        }
    }
    let matched = forall|id: PaneId| #[trigger]
        leaves.contains(id) <==> exists|i: int|
            0 <= i < state.panes.len() && (#[trigger] state.panes[i]).id == id;
    if same_panes(leaves, state.panes) {
        assert forall|id: PaneId| #[trigger] leaves.contains(id) <==> exists|i: int|
            0 <= i < state.panes.len() && (#[trigger] state.panes[i]).id == id by {
            if leaves.contains(id) {
                let k = choose|k: int| 0 <= k < leaves.len() && leaves[k] == id;
                assert(has_pane(state.panes, leaves[k]));
            }
        }
    }
    if matched {
        assert forall|i: int| 0 <= i < leaves.len() implies has_pane(
            state.panes,
            #[trigger] leaves[i],
        ) by {
            assert(leaves.contains(leaves[i]));
        }
        assert forall|i: int| 0 <= i < state.panes.len() implies leaves.contains(
            (#[trigger] state.panes[i]).id,
        ) by {}
    }
}

/// A document that is read is of the first version; its session's panes are those of its
/// layout with the recorded options; and the active pane is the recorded one where that is
/// kept, else the first.
pub proof fn session_is_what_the_document_says(
    table: Entries,
    absolute: Seq<Seq<char>>,
    window_valid: bool,
)
    ensures
        state_of(table, absolute, window_valid) matches Ok(state) ==> {
            let leaves = leaves_of(state.layout);
            &&& lookup(table, "version"@) == Some(Toml::Integer(1))
            &&& recorded_panes(table, leaves, absolute) == Ok::<Seq<SessionPaneView>, Seq<char>>(
                state.panes,
            )
            &&& required_pane_id(table, "active"@) matches Ok(active) && state.active == (
            if leaves.contains(active) {
                active
            } else {
                state.panes[0].id
            })
            &&& lookup(table, "window"@) is None ==> state.window is None
            &&& lookup(table, "window"@) is Some ==> state.window is Some && window_valid
        },
{
}

/// Of the panes of a layout the first four are kept, in their order.
pub proof fn four_panes_are_kept(layout: PaneLayout, i: int)
    ensures
        first_panes(layout).len() == (if leaves_of(layout).len() < 4 {
            leaves_of(layout).len()
        } else {
            4
        }),
        0 <= i < first_panes(layout).len() ==> first_panes(layout)[i] == leaves_of(layout)[i],
{
}

/// A pane has the root that is recorded, which is absolute; a record without a cursor,
/// folds or options has the defaults: no cursor, nothing folded or unfolded, hidden files
/// not shown, directories first, by name and not in reverse.
pub proof fn records_have_defaults(id: PaneId, table: Entries, absolute: Seq<Seq<char>>)
    ensures
        pane_record(id, table, absolute) matches Ok(pane) ==> {
            &&& pane.id == id
            &&& lookup(table, "root"@) matches Some(Toml::Str(root)) && absolute.contains(root)
                && pane.root == unicode_path(root)
            &&& lookup(table, "cursor"@) is None ==> pane.cursor is None
            &&& lookup(table, "cursor"@) is Some ==> pane.cursor is Some
            &&& optional_tree_path(lookup(table, "cursor"@)) matches Ok(cursor) && pane.cursor
                == cursor
            &&& lookup(table, "collapsed"@) is None ==> pane.collapsed.len() == 0
            &&& tree_paths_of(lookup(table, "collapsed"@)) matches Ok(paths) && pane.collapsed
                == paths
            &&& lookup(table, "expanded"@) is None ==> pane.expanded.len() == 0
            &&& tree_paths_of(lookup(table, "expanded"@)) matches Ok(paths) && pane.expanded
                == paths
            &&& pane.scan_options.show_hidden <==> lookup(table, "show_hidden"@) == Some(
                Toml::Boolean(true),
            )
            &&& pane.scan_options.reverse <==> lookup(table, "sort_reverse"@) == Some(
                Toml::Boolean(true),
            )
            &&& pane.scan_options.sort == SortOrder::Mixed <==> lookup(table, "sort"@) == Some(
                Toml::Str("mixed"@),
            )
            &&& pane.scan_options.key == SortKey::Date <==> lookup(table, "sort_key"@) == Some(
                Toml::Str("date"@),
            )
            &&& pane.scan_options.key == SortKey::Size <==> lookup(table, "sort_key"@) == Some(
                Toml::Str("size"@),
            )
            &&& pane.scan_options.key == SortKey::Extension <==> lookup(table, "sort_key"@) == Some(
                Toml::Str("ext"@),
            )
        },
{
    reveal_strlit("dirs_first");
    reveal_strlit("mixed");
    reveal_strlit("name");
    reveal_strlit("date");
    reveal_strlit("size");
    reveal_strlit("ext");
    assert("name"@[0] == 'n' && "date"@[0] == 'd' && "size"@[0] == 's');
    assert("dirs_first"@.len() == 10 && "mixed"@.len() == 5);
    assert("name"@.len() == 4 && "ext"@.len() == 3);
}

/// A place in the tree is read just where each of its names is a text that can be a name:
/// not empty, and without separators.
pub proof fn places_have_names(values: Seq<Toml>)
    ensures
        tree_path_of(Toml::Array(values)) is Ok <==> forall|i: int|
            0 <= i < values.len() ==> (#[trigger] values[i] matches Toml::Str(name) && name.len()
                > 0 && !name.contains('/') && !name.contains('\\')),
        tree_path_of(Toml::Array(values)) matches Ok(path) ==> path.len() == values.len()
            && forall|i: int|
            0 <= i < path.len() ==> #[trigger] values[i] == Toml::Str(path[i]),
    decreases values.len(),
{
    if values.len() > 0 {
        let shorter = values.drop_last();
        let n = values.len() - 1;
        places_have_names(shorter);
        assert(forall|i: int| 0 <= i < n ==> #[trigger] shorter[i] == values[i]);
        if let Ok(path) = tree_path_of(Toml::Array(values)) {
            let before = tree_path_of(Toml::Array(shorter))->Ok_0;
            assert forall|i: int| 0 <= i < path.len() implies #[trigger] values[i] == Toml::Str(
                path[i],
            ) by {
                if i < n {
                    assert(shorter[i] == Toml::Str(before[i]));
                }
            }
            assert forall|i: int| 0 <= i < values.len() implies (
            #[trigger] values[i] matches Toml::Str(name) && name.len() > 0 && !name.contains('/')
                && !name.contains('\\')) by {
                if i < n {
                    assert(shorter[i] is Str);
                }
            }
        }
        if forall|i: int|
            0 <= i < values.len() ==> (#[trigger] values[i] matches Toml::Str(name) && name.len()
                > 0 && !name.contains('/') && !name.contains('\\')) {
            assert(values[n] is Str);
            assert forall|i: int| 0 <= i < shorter.len() implies (
            #[trigger] shorter[i] matches Toml::Str(name) && name.len() > 0 && !name.contains('/')
                && !name.contains('\\')) by {
                assert(values[i] is Str);
            }
        }
    }
}

/// A list of places is read just where each of them is.
pub proof fn lists_have_places(values: Seq<Toml>)
    ensures
        tree_paths_of(Some(Toml::Array(values))) is Ok <==> forall|i: int|
            0 <= i < values.len() ==> tree_path_of(#[trigger] values[i]) is Ok,
        tree_paths_of(Some(Toml::Array(values))) matches Ok(paths) ==> paths.len() == values.len()
            && forall|i: int|
            0 <= i < paths.len() ==> tree_path_of(#[trigger] values[i]) == Ok::<
                Seq<Seq<char>>,
                Seq<char>,
            >(paths[i]),
    decreases values.len(),
{
    if values.len() > 0 {
        let shorter = values.drop_last();
        let n = values.len() - 1;
        lists_have_places(shorter);
        assert(forall|i: int| 0 <= i < n ==> #[trigger] shorter[i] == values[i]);
        if let Ok(paths) = tree_paths_of(Some(Toml::Array(values))) {
            let before = tree_paths_of(Some(Toml::Array(shorter)))->Ok_0;
            assert forall|i: int| 0 <= i < paths.len() implies tree_path_of(#[trigger] values[i])
                == Ok::<Seq<Seq<char>>, Seq<char>>(paths[i]) by {
                if i < n {
                    assert(tree_path_of(shorter[i]) == Ok::<Seq<Seq<char>>, Seq<char>>(before[i]));
                }
            }
            assert forall|i: int| 0 <= i < values.len() implies tree_path_of(
                #[trigger] values[i],
            ) is Ok by {
                if i < n {
                    assert(tree_path_of(shorter[i]) is Ok);
                }
            }
        }
        if forall|i: int| 0 <= i < values.len() ==> tree_path_of(#[trigger] values[i]) is Ok {
            assert(tree_path_of(values[n]) is Ok);
            assert forall|i: int| 0 <= i < shorter.len() implies tree_path_of(
                #[trigger] shorter[i],
            ) is Ok by {
                assert(tree_path_of(values[i]) is Ok);
            }
        }
    }
}

/// A record with a value of the wrong kind is not read.
pub proof fn wrong_values_are_refused(id: PaneId, table: Entries, absolute: Seq<Seq<char>>)
    ensures
        pane_record(id, table, absolute) is Ok ==> {
            &&& lookup(table, "show_hidden"@) is None || lookup(table, "show_hidden"@)->Some_0
                is Boolean
            &&& lookup(table, "sort_reverse"@) is None || lookup(table, "sort_reverse"@)->Some_0
                is Boolean
            &&& lookup(table, "sort"@) is None || lookup(table, "sort"@) == Some(
                Toml::Str("dirs_first"@),
            ) || lookup(table, "sort"@) == Some(Toml::Str("mixed"@))
            &&& lookup(table, "sort_key"@) is None || lookup(table, "sort_key"@) == Some(
                Toml::Str("name"@),
            ) || lookup(table, "sort_key"@) == Some(Toml::Str("date"@)) || lookup(
                table,
                "sort_key"@,
            ) == Some(Toml::Str("size"@)) || lookup(table, "sort_key"@) == Some(Toml::Str("ext"@))
            &&& lookup(table, "collapsed"@) is None || lookup(table, "collapsed"@)->Some_0 is Array
            &&& lookup(table, "expanded"@) is None || lookup(table, "expanded"@)->Some_0 is Array
            &&& lookup(table, "cursor"@) is None || lookup(table, "cursor"@)->Some_0 is Array
        },
{
}

/// A number of a pane is a positive integer.
pub proof fn pane_numbers_are_positive(table: Entries, key: Seq<char>, id: PaneId)
    ensures
        required_pane_id(table, key) == Ok::<PaneId, Seq<char>>(id) <==> (lookup(
            table,
            key,
        ) matches Some(Toml::Integer(number)) && number > 0 && number as u64 == id.0),
{
}

/// A layout is a pane by its number, or two layouts that share their place in a direction,
/// neither of them all of it.
pub proof fn layouts_are_panes_or_splits(table: Entries)
    ensures
        layout_of(Toml::Table(table)) matches Ok(PaneLayout::Leaf(id)) ==> lookup(table, "kind"@)
            == Some(Toml::Str("leaf"@)) && required_pane_id(table, "pane"@) == Ok::<
            PaneId,
            Seq<char>,
        >(id),
        layout_of(Toml::Table(table)) matches Ok(
            PaneLayout::Split { direction, ratio, first, second },
        ) ==> {
            &&& lookup(table, "kind"@) == Some(Toml::Str("split"@))
            &&& direction == SplitDirection::Horizontal <==> lookup(table, "direction"@) == Some(
                Toml::Str("horizontal"@),
            )
            &&& direction == SplitDirection::Vertical <==> lookup(table, "direction"@) == Some(
                Toml::Str("vertical"@),
            )
            &&& lookup(table, "ratio"@) matches Some(Toml::Float(bits)) && ratio == narrowed(bits)
            &&& 0 < ratio < ONE
            &&& lookup(table, "first"@) matches Some(value) && layout_of(value) == Ok::<
                PaneLayout,
                Seq<char>,
            >(*first)
            &&& lookup(table, "second"@) matches Some(value) && layout_of(value) == Ok::<
                PaneLayout,
                Seq<char>,
            >(*second)
        },
        lookup(table, "kind"@) is None ==> layout_of(Toml::Table(table)) is Err,
{
    reveal_strlit("horizontal");
    reveal_strlit("vertical");
    assert("horizontal"@.len() == 10 && "vertical"@.len() == 8);
}

/// A pane comes into its place by number just where its number is not taken, and no pane is
/// lost.
pub proof fn panes_stand_by_their_numbers(
    panes: Seq<SessionPaneView>,
    pane: SessionPaneView,
    one: SessionPaneView,
)
    requires
        panes_ascend(panes),
    ensures
        with_pane(panes, pane) is None <==> exists|i: int|
            0 <= i < panes.len() && (#[trigger] panes[i]).id == pane.id,
        with_pane(panes, pane) matches Some(all) ==> {
            &&& panes_ascend(all)
            &&& all.len() == panes.len() + 1
            &&& all.contains(one) <==> panes.contains(one) || one == pane
        },
    decreases panes.len(),
{
    if panes.len() == 0 || panes.last().id.0 < pane.id.0 {
        let all = panes.push(pane);
        assert forall|i: int| 0 <= i < panes.len() implies (#[trigger] panes[i]).id.0
            < pane.id.0 by {
            if i < panes.len() - 1 {
                assert(panes[i].id.0 < panes[panes.len() - 1].id.0);
            }
        }
        assert(all[panes.len() as int] == pane);
        if panes.contains(one) {
            let k = choose|k: int| 0 <= k < panes.len() && panes[k] == one;
            assert(all[k] == one);
        }
        if all.contains(one) {
            let k = choose|k: int| 0 <= k < all.len() && all[k] == one;
            if k < panes.len() {
                assert(panes[k] == one);
            }
        }
    } else if panes.last().id == pane.id {
        assert(panes[panes.len() - 1].id == pane.id);
    } else {
        let shorter = panes.drop_last();
        let n = panes.len() - 1;
        assert(panes_ascend(shorter)) by {
            assert forall|i: int, j: int| 0 <= i < j < shorter.len() implies (
            #[trigger] shorter[i]).id.0 < (#[trigger] shorter[j]).id.0 by {
                assert(panes[i].id.0 < panes[j].id.0);
            }
        }
        panes_stand_by_their_numbers(shorter, pane, one);
        if with_pane(shorter, pane) is None {
            let k = choose|k: int| 0 <= k < shorter.len() && (#[trigger] shorter[k]).id == pane.id;
            assert(panes[k].id == pane.id);
        }
        if exists|i: int| 0 <= i < panes.len() && (#[trigger] panes[i]).id == pane.id {
            let k = choose|k: int| 0 <= k < panes.len() && (#[trigger] panes[k]).id == pane.id;
            assert(k < n);
            assert(shorter[k].id == pane.id);
        }
        if let Some(before) = with_pane(shorter, pane) {
            let all = before.push(panes.last());
            assert forall|i: int| 0 <= i < before.len() implies (#[trigger] before[i]).id.0
                < panes[n].id.0 by {
                panes_stand_by_their_numbers(shorter, pane, before[i]);
                assert(before.contains(before[i]));
                if before[i] != pane {
                    let k = choose|k: int| 0 <= k < shorter.len() && shorter[k] == before[i];
                    assert(panes[k].id.0 < panes[n].id.0);
                }
            }
            assert(all[before.len() as int] == panes[n]);
            if before.contains(one) {
                let k = choose|k: int| 0 <= k < before.len() && before[k] == one;
                assert(all[k] == one);
            }
            if panes.contains(one) {
                let k = choose|k: int| 0 <= k < panes.len() && panes[k] == one;
                if k < n {
                    assert(shorter[k] == one);
                }
            }
            if shorter.contains(one) {
                let k = choose|k: int| 0 <= k < shorter.len() && shorter[k] == one;
                assert(panes[k] == one);
            }
            if all.contains(one) {
                let k = choose|k: int| 0 <= k < all.len() && all[k] == one;
                if k < before.len() {
                    assert(before[k] == one);
                } else {
                    assert(panes[n] == one);
                }
            }
        }
    }
}

/// One more record adds its pane where that is one of the layout, and nothing where it is
/// not.
pub proof fn records_of_the_layout_count(
    values: Seq<Toml>,
    table: Entries,
    wanted: Seq<PaneId>,
    absolute: Seq<Seq<char>>,
)
    ensures
        panes_of(Seq::empty(), wanted, absolute) == Ok::<Seq<SessionPaneView>, Seq<char>>(
            Seq::empty(),
        ),
        panes_of(values, wanted, absolute) is Ok && required_pane_id(table, "id"@) is Ok ==> {
            let before = panes_of(values, wanted, absolute)->Ok_0;
            let id = required_pane_id(table, "id"@)->Ok_0;
            let after = panes_of(values.push(Toml::Table(table)), wanted, absolute);
            &&& !wanted.contains(id) ==> after == Ok::<Seq<SessionPaneView>, Seq<char>>(before)
            &&& wanted.contains(id) ==> (after is Ok <==> pane_record(id, table, absolute) is Ok
                && with_pane(before, pane_record(id, table, absolute)->Ok_0) is Some)
            &&& wanted.contains(id) && after is Ok ==> Some(after->Ok_0) == with_pane(
                before,
                pane_record(id, table, absolute)->Ok_0,
            )
        },
{
    assert(values.push(Toml::Table(table)).drop_last() =~= values);
}

/// A session can be written just where the numbers of its panes are integers of TOML and
/// the roots of its panes are Unicode text.
pub proof fn session_is_written_where_it_can_be(state: SessionStateView)
    ensures
        state_entries(state) is Ok <==> {
            &&& state.active.0 <= i64::MAX
            &&& forall|i: int|
                0 <= i < leaves_of(state.layout).len() ==> (#[trigger] leaves_of(
                    state.layout,
                )[i]).0 <= i64::MAX
            &&& forall|i: int|
                0 <= i < state.panes.len() ==> (#[trigger] state.panes[i]).id.0 <= i64::MAX
                    && state.panes[i].root.raw is None
        },
{
    lemma_layout(state.layout);
    lemma_panes(state.panes);
}

proof fn lemma_layout(layout: PaneLayout)
    ensures
        layout_toml(layout) is Ok <==> forall|i: int|
            0 <= i < leaves_of(layout).len() ==> (#[trigger] leaves_of(layout)[i]).0 <= i64::MAX,
    decreases layout,
{
    let leaves = leaves_of(layout);
    match layout {
        PaneLayout::Leaf(id) => {
            assert(leaves[0] == id);
        },
        PaneLayout::Split { first, second, .. } => {
            lemma_layout(*first);
            lemma_layout(*second);
            let a = leaves_of(*first);
            let b = leaves_of(*second);
            assert(leaves =~= a + b);
            if layout_toml(layout) is Ok {
                assert forall|i: int| 0 <= i < leaves.len() implies (#[trigger] leaves[i]).0
                    <= i64::MAX by {
                    if i < a.len() {
                        assert(leaves[i] == a[i]);
                    } else {
                        assert(leaves[i] == b[i - a.len()]);
                    }
                }
            }
            if forall|i: int| 0 <= i < leaves.len() ==> (#[trigger] leaves[i]).0 <= i64::MAX {
                assert forall|i: int| 0 <= i < a.len() implies (#[trigger] a[i]).0 <= i64::MAX by {
                    assert(leaves[i] == a[i]);
                }
                assert forall|i: int| 0 <= i < b.len() implies (#[trigger] b[i]).0 <= i64::MAX by {
                    assert(leaves[a.len() + i] == b[i]);
                }
            }
        },
    }
}

proof fn lemma_panes(panes: Seq<SessionPaneView>)
    ensures
        pane_values(panes) is Ok <==> forall|i: int|
            0 <= i < panes.len() ==> (#[trigger] panes[i]).id.0 <= i64::MAX && panes[i].root.raw
                is None,
    decreases panes.len(),
{
    if panes.len() > 0 {
        let shorter = panes.drop_last();
        let n = panes.len() - 1;
        lemma_panes(shorter);
        assert(pane_toml(panes[n]) is Ok <==> panes[n].id.0 <= i64::MAX && panes[n].root.raw
            is None);
        if pane_values(panes) is Ok {
            assert forall|i: int| 0 <= i < panes.len() implies (#[trigger] panes[i]).id.0
                <= i64::MAX && panes[i].root.raw is None by {
                if i < n {
                    assert(shorter[i] == panes[i]);
                }
            }
        }
        if forall|i: int|
            0 <= i < panes.len() ==> (#[trigger] panes[i]).id.0 <= i64::MAX && panes[i].root.raw
                is None {
            assert forall|i: int| 0 <= i < shorter.len() implies (#[trigger] shorter[i]).id.0
                <= i64::MAX && shorter[i].root.raw is None by {
                assert(shorter[i] == panes[i]);
            }
            assert(panes[n].id.0 <= i64::MAX);
        }
    }
}

} // verus!
