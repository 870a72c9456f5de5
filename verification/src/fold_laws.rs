//! What folding and unfolding do to a tree, and which lines show it.

use vstd::prelude::*;

use crate::baseline::{find_entry, ids_differ, lemma_found_entry, walked, EntryView};
use crate::folding::{
    close_target, dirs_above, dirs_at, dirs_within, find_path, folded, is_open, nearest_open,
    toggled, FoldOp,
};
use crate::grammar::{
    after_indent, id_prefix_is_read_back, indent_levels, indentation, prefix_of, without_suffix,
    EntryId, PrefixView,
};
use crate::listing::{
    entry_at, is_folded, is_hidden, line_rest, line_text, not_hidden, position_of, shown,
    shown_are_entries, shown_are_the_entries_not_hidden, shown_from, shown_lines,
};
use crate::save_flow::{
    fold_step, line_of_place, reveal_step, toggle_step, FoldView, RevealView, SaveView, ToggleView,
};
use crate::tree::{is_above, EntryKind};

verus! {

/// One place stands above another just where the names of the other begin with its names
/// and go on.
pub proof fn above_is_a_beginning(a: Seq<Seq<char>>, b: Seq<Seq<char>>)
    ensures
        is_above(a, b) <==> exists|more: Seq<Seq<char>>|
            more.len() > 0 && b == #[trigger] (a + more),
{
    if is_above(a, b) {
        let more = b.skip(a.len() as int);
        assert(b =~= a + more);
    }
    if exists|more: Seq<Seq<char>>| more.len() > 0 && b == #[trigger] (a + more) {
        let more = choose|more: Seq<Seq<char>>| more.len() > 0 && b == #[trigger] (a + more);
        assert(b.take(a.len() as int) =~= a);
    }
}

/// An entry of a tree that was walked is shown just where no folded directory stands above
/// it, and nothing else is shown.
pub proof fn shown_where_nothing_above_is_folded(
    entries: Seq<EntryView>,
    collapsed: Set<u64>,
    i: int,
)
    requires
        walked(entries),
        ids_differ(entries),
        0 <= i < entries.len(),
    ensures
        shown(entries, collapsed).contains(entries[i]) <==> forall|k: int|
            0 <= k < entries.len() && (#[trigger] entries[k]).kind == EntryKind::Dir
                && collapsed.contains(entries[k].id.0) ==> !(entries[k].path.len()
                < entries[i].path.len() && entries[i].path.take(entries[k].path.len() as int)
                == entries[k].path),
        forall|k: int|
            0 <= k < shown(entries, collapsed).len() ==> entries.contains(
                #[trigger] shown(entries, collapsed)[k],
            ),
{
    shown_are_entries(entries, collapsed, None);
    shown_are_the_entries_not_hidden(entries, collapsed);
    let keep = |entry: EntryView| !is_hidden(entries, collapsed, entry.path);
    let path = entries[i].path;
    if is_hidden(entries, collapsed, path) {
        let k = choose|k: int|
            0 <= k < entries.len() && is_folded(#[trigger] entries[k], collapsed) && is_above(
                entries[k].path,
                path,
            );
        assert(entries[k].kind == EntryKind::Dir && collapsed.contains(entries[k].id.0));
        if not_hidden(entries, collapsed).contains(entries[i]) {
            let at = choose|at: int|
                0 <= at < not_hidden(entries, collapsed).len() && not_hidden(
                    entries,
                    collapsed,
                )[at] == entries[i];
            entries.lemma_filter_pred(keep, at);
            assert(keep(entries[i]));
        }
    } else {
        assert(keep(entries[i]));
        entries.lemma_filter_contains(keep, i);
        assert forall|k: int|
            0 <= k < entries.len() && (#[trigger] entries[k]).kind == EntryKind::Dir
                && collapsed.contains(entries[k].id.0) implies !(entries[k].path.len()
            < path.len() && path.take(entries[k].path.len() as int) == entries[k].path) by {
            assert(is_folded(entries[k], collapsed));
        }
    }
}

/// Entries are shown in the order of the tree, each of them once.
pub proof fn shown_in_order(entries: Seq<EntryView>, collapsed: Set<u64>, i: int, j: int)
    requires
        ids_differ(entries),
        0 <= i < j < shown(entries, collapsed).len(),
    ensures
        exists|k: int, l: int|
            0 <= k < l < entries.len() && #[trigger] entries[k] == shown(entries, collapsed)[i]
                && #[trigger] entries[l] == shown(entries, collapsed)[j],
        shown(entries, collapsed)[i] != shown(entries, collapsed)[j],
{
    lemma_shown_in_order(entries, collapsed, None, i, j);
    let (k, l) = choose|k: int, l: int|
        0 <= k < l < entries.len() && #[trigger] entries[k] == shown(entries, collapsed)[i]
            && #[trigger] entries[l] == shown(entries, collapsed)[j];
    assert(entries[k].id != entries[l].id);
}

proof fn lemma_shown_in_order(
    entries: Seq<EntryView>,
    collapsed: Set<u64>,
    skip: Option<Seq<Seq<char>>>,
    i: int,
    j: int,
)
    requires
        0 <= i < j < shown_from(entries, collapsed, skip).len(),
    ensures
        exists|k: int, l: int|
            0 <= k < l < entries.len() && #[trigger] entries[k] == shown_from(
                entries,
                collapsed,
                skip,
            )[i] && #[trigger] entries[l] == shown_from(entries, collapsed, skip)[j],
    decreases entries.len(),
{
    let entry = entries[0];
    let rest = entries.drop_first();
    let all = shown_from(entries, collapsed, skip);
    if skip matches Some(path) && is_above(path, entry.path) {
        lemma_shown_in_order(rest, collapsed, skip, i, j);
        let (k, l) = choose|k: int, l: int|
            0 <= k < l < rest.len() && #[trigger] rest[k] == all[i] && #[trigger] rest[l] == all[j];
        assert(entries[k + 1] == all[i] && entries[l + 1] == all[j]);
    } else {
        let next = if is_folded(entry, collapsed) {
            Some(entry.path)
        } else {
            None
        };
        let below = shown_from(rest, collapsed, next);
        assert(all == seq![entry] + below);
        assert(all[j] == below[j - 1]);
        if i == 0 {
            shown_are_entries(rest, collapsed, next);
            assert(rest.contains(below[j - 1]));
            let l = choose|l: int| 0 <= l < rest.len() && rest[l] == below[j - 1];
            assert(entries[0] == all[0] && entries[l + 1] == all[j]);
        } else {
            assert(all[i] == below[i - 1]);
            lemma_shown_in_order(rest, collapsed, next, i - 1, j - 1);
            let (k, l) = choose|k: int, l: int|
                0 <= k < l < rest.len() && #[trigger] rest[k] == below[i - 1]
                    && #[trigger] rest[l] == below[j - 1];
            assert(entries[k + 1] == all[i] && entries[l + 1] == all[j]);
        }
    }
}

/// The line of an entry is read back as its number, how deep it stands, its name and
/// whether it is a directory, where the name itself does not look like an indentation or a
/// directory.
pub proof fn line_is_read_back(entry: EntryView)
    requires
        entry.path.len() > 0,
        entry.path.last().len() > 0,
        entry.path.last()[0] != ' ',
        entry.path.last().last() != '/',
    ensures
        prefix_of(line_text(entry)) matches PrefixView::WithId { id, rest } && id == entry.id
            && indent_levels(rest) == entry.path.len() - 1 && without_suffix(after_indent(rest))
            == (entry.path.last(), entry.kind == EntryKind::Dir),
{
    reveal_strlit("/");
    let name = entry.path.last();
    let levels = (entry.path.len() - 1) as nat;
    let tail = name + (if entry.kind == EntryKind::Dir {
        "/"@
    } else {
        Seq::empty()
    });
    id_prefix_is_read_back(entry.id, line_rest(entry));
    assert(line_rest(entry) =~= indentation(levels) + tail);
    lemma_indented(levels, tail);
    if entry.kind == EntryKind::Dir {
        assert(tail.last() == '/');
        assert(tail.drop_last() =~= name);
    } else {
        assert(tail =~= name);
    }
}

/// An indentation is read back where no blank follows it.
proof fn lemma_indented(levels: nat, tail: Seq<char>)
    requires
        tail.len() > 0,
        tail[0] != ' ',
    ensures
        indent_levels(indentation(levels) + tail) == levels,
        after_indent(indentation(levels) + tail) == tail,
    decreases levels,
{
    let all = indentation(levels) + tail;
    if levels == 0 {
        assert(all =~= tail);
    } else {
        lemma_indented((levels - 1) as nat, tail);
        assert(all[0] == ' ' && all[1] == ' ');
        assert(all.skip(2) =~= indentation((levels - 1) as nat) + tail);
    }
}

/// A number leads to the place of the first entry that has it, and to none where no entry
/// has it.
pub proof fn position_is_the_first(entries: Seq<EntryView>, id: EntryId)
    ensures
        match position_of(entries, id) {
            Some(at) => at < entries.len() && entries[at as int].id == id && forall|k: int|
                0 <= k < at ==> (#[trigger] entries[k]).id != id,
            None => forall|k: int| 0 <= k < entries.len() ==> (#[trigger] entries[k]).id != id,
        },
    decreases entries.len(),
{
    if entries.len() > 0 {
        let rest = entries.drop_first();
        position_is_the_first(rest, id);
        if entries[0].id != id {
            match position_of(rest, id) {
                Some(at) => {
                    assert(entries[at as int + 1] == rest[at as int]);
                    assert forall|k: int| 0 <= k < at + 1 implies (#[trigger] entries[k]).id
                        != id by {
                        if k > 0 {
                            assert(rest[k - 1].id != id);
                        }
                    }
                },
                None => {
                    assert forall|k: int| 0 <= k < entries.len() implies (#[trigger] entries[k]).id
                        != id by {
                        if k > 0 {
                            assert(rest[k - 1].id != id);
                        }
                    }
                },
            }
        }
    }
}

/// A place leads to the first entry that stands there, and to none where none does.
pub proof fn place_leads_to_its_entry(entries: Seq<EntryView>, path: Seq<Seq<char>>)
    ensures
        match find_path(entries, path) {
            Some(entry) => exists|at: int|
                0 <= at < entries.len() && #[trigger] entries[at] == entry && entry.path == path
                    && forall|k: int| 0 <= k < at ==> (#[trigger] entries[k]).path != path,
            None => forall|k: int| 0 <= k < entries.len() ==> (#[trigger] entries[k]).path != path,
        },
    decreases entries.len(),
{
    if entries.len() > 0 {
        let rest = entries.drop_first();
        place_leads_to_its_entry(rest, path);
        if entries[0].path == path {
            assert(entries[0] == find_path(entries, path)->Some_0);
        } else {
            match find_path(rest, path) {
                Some(entry) => {
                    let at = choose|at: int|
                        0 <= at < rest.len() && #[trigger] rest[at] == entry && entry.path == path
                            && forall|k: int| 0 <= k < at ==> (#[trigger] rest[k]).path != path;
                    assert(entries[at + 1] == entry);
                    assert forall|k: int| 0 <= k < at + 1 implies (#[trigger] entries[k]).path
                        != path by {
                        if k > 0 {
                            assert(rest[k - 1].path != path);
                        }
                    }
                },
                None => {
                    assert forall|k: int| 0 <= k < entries.len() implies (
                    #[trigger] entries[k]).path != path by {
                        if k > 0 {
                            assert(rest[k - 1].path != path);
                        }
                    }
                },
            }
        }
    }
}

/// A toggle at a directory turns its own fold over and no other; unfolding a directory
/// takes its own fold away and no other; neither moves the cursor.
pub proof fn toggle_and_open_touch_one_fold(
    entries: Seq<EntryView>,
    collapsed: Set<u64>,
    entry: EntryView,
    id: u64,
)
    requires
        entry.kind == EntryKind::Dir,
    ensures
        folded(entries, collapsed, entry, FoldOp::Toggle) matches Some((folds, cursor)) && cursor
            == entry.id && folds.contains(entry.id.0) == !collapsed.contains(entry.id.0) && (id
            != entry.id.0 ==> folds.contains(id) == collapsed.contains(id)),
        folded(entries, collapsed, entry, FoldOp::Open) matches Some((folds, cursor)) && cursor
            == entry.id && !folds.contains(entry.id.0) && (id != entry.id.0 ==> folds.contains(id)
            == collapsed.contains(id)),
        toggled(collapsed, entry.id).contains(entry.id.0) == !collapsed.contains(entry.id.0),
        id != entry.id.0 ==> toggled(collapsed, entry.id).contains(id) == collapsed.contains(id),
{
}

/// What is no directory cannot be unfolded, and a toggle there folds as closing does.
pub proof fn files_fold_what_holds_them(
    entries: Seq<EntryView>,
    collapsed: Set<u64>,
    entry: EntryView,
)
    requires
        entry.kind != EntryKind::Dir,
    ensures
        folded(entries, collapsed, entry, FoldOp::Open) is None,
        folded(entries, collapsed, entry, FoldOp::OpenRecursive) is None,
        folded(entries, collapsed, entry, FoldOp::Toggle) == folded(
            entries,
            collapsed,
            entry,
            FoldOp::Close,
        ),
{
}

/// Whether an entry is an open directory that is another entry or stands above it.
pub open spec fn holds_open(entries: Seq<EntryView>, collapsed: Set<u64>, k: int, i: int) -> bool {
    &&& 0 <= k < entries.len()
    &&& entries[k].kind == EntryKind::Dir
    &&& !collapsed.contains(entries[k].id.0)
    &&& k == i || is_above(entries[k].path, entries[i].path)
}

/// Closing folds the open directory itself, or else the nearest open directory above: one
/// that is folded then, as the only one, and on which the cursor stands. Nothing is closed
/// just where no open directory is found.
pub proof fn closing_folds_the_nearest_open_directory(
    entries: Seq<EntryView>,
    collapsed: Set<u64>,
    i: int,
)
    requires
        0 <= i < entries.len(),
        forall|k: int, l: int|
            0 <= k < l < entries.len() ==> (#[trigger] entries[k]).path != (
            #[trigger] entries[l]).path,
    ensures
        match folded(entries, collapsed, entries[i], FoldOp::Close) {
            Some((folds, cursor)) => exists|j: int|
                {
                    &&& #[trigger] holds_open(entries, collapsed, j, i)
                    &&& entries[j].id == cursor
                    &&& folds == collapsed.insert(cursor.0)
                    &&& forall|k: int| #[trigger]
                        holds_open(entries, collapsed, k, i) ==> entries[k].path.len()
                            <= entries[j].path.len()
                },
            None => forall|k: int| !#[trigger] holds_open(entries, collapsed, k, i),
        },
{
    if is_open(entries[i], collapsed) {
        assert(holds_open(entries, collapsed, i, i));
    } else {
        lemma_nearest_open(entries, collapsed, entries[i].path);
        match nearest_open(entries, collapsed, entries[i].path) {
            Some(found) => {
                let j = choose|j: int| 0 <= j < entries.len() && entries[j] == found;
                assert(holds_open(entries, collapsed, j, i));
                assert forall|k: int| #[trigger]
                    holds_open(entries, collapsed, k, i) implies entries[k].path.len()
                    <= entries[j].path.len() by {
                    assert(k != i);
                }
            },
            None => {
                assert forall|k: int| !#[trigger] holds_open(entries, collapsed, k, i) by {
                    if holds_open(entries, collapsed, k, i) {
                        assert(entries[k].kind == EntryKind::Dir);
                    }
                }
            },
        }
    }
}

/// What stands above a place is the place that holds it, or stands above that.
proof fn lemma_above_parent(above: Seq<Seq<char>>, path: Seq<Seq<char>>)
    requires
        path.len() > 0,
    ensures
        is_above(above, path) <==> above == path.drop_last() || is_above(above, path.drop_last()),
{
    let parent = path.drop_last();
    assert(path.take(parent.len() as int) =~= parent);
    if above.len() < parent.len() {
        assert(parent.take(above.len() as int) =~= path.take(above.len() as int));
    }
}

/// Where places differ, the entry that is found at a place is the only one there.
proof fn lemma_only_entry_at(entries: Seq<EntryView>, path: Seq<Seq<char>>, k: int)
    requires
        forall|k: int, l: int|
            0 <= k < l < entries.len() ==> (#[trigger] entries[k]).path != (
            #[trigger] entries[l]).path,
        0 <= k < entries.len(),
        entries[k].path == path,
    ensures
        find_path(entries, path) == Some(entries[k]),
{
    place_leads_to_its_entry(entries, path);
    if find_path(entries, path) is None {
        assert(entries[k].path != path);
    }
    let entry = find_path(entries, path)->Some_0;
    let at = choose|at: int|
        0 <= at < entries.len() && #[trigger] entries[at] == entry && entry.path == path && forall|
            k: int,
        | 0 <= k < at ==> (#[trigger] entries[k]).path != path;
    if k < at {
        assert(entries[k].path != entries[at].path);
    } else if at < k {
        assert(entries[at].path != entries[k].path);
    }
}

/// The nearest open directory above a place is open and stands above it, and none that is
/// open stands nearer.
proof fn lemma_nearest_open(entries: Seq<EntryView>, collapsed: Set<u64>, path: Seq<Seq<char>>)
    requires
        forall|k: int, l: int|
            0 <= k < l < entries.len() ==> (#[trigger] entries[k]).path != (
            #[trigger] entries[l]).path,
    ensures
        nearest_open(entries, collapsed, path) matches Some(found) ==> entries.contains(found)
            && found.kind == EntryKind::Dir && !collapsed.contains(found.id.0) && is_above(
            found.path,
            path,
        ),
        forall|k: int|
            0 <= k < entries.len() && (#[trigger] entries[k]).kind == EntryKind::Dir
                && !collapsed.contains(entries[k].id.0) && is_above(entries[k].path, path) ==> (
            nearest_open(entries, collapsed, path) matches Some(found) && entries[k].path.len()
                <= found.path.len()),
    decreases path.len(),
{
    if path.len() > 0 {
        let parent = path.drop_last();
        place_leads_to_its_entry(entries, parent);
        lemma_nearest_open(entries, collapsed, parent);
        if let Some(found) = nearest_open(entries, collapsed, path) {
            lemma_above_parent(found.path, path);
            if find_path(entries, parent) == Some(found) {
                assert(entries.contains(found));
            }
        }
        assert forall|k: int|
            0 <= k < entries.len() && (#[trigger] entries[k]).kind == EntryKind::Dir
                && !collapsed.contains(entries[k].id.0) && is_above(entries[k].path, path) implies (
        nearest_open(entries, collapsed, path) matches Some(found) && entries[k].path.len()
            <= found.path.len()) by {
            lemma_above_parent(entries[k].path, path);
            if entries[k].path == parent {
                lemma_only_entry_at(entries, parent, k);
            }
        }
    }
}

/// Closing with all below folds what closing alone folds, and every directory below it;
/// nothing is unfolded, and nothing elsewhere is folded.
pub proof fn closing_with_all_below(
    entries: Seq<EntryView>,
    collapsed: Set<u64>,
    entry: EntryView,
    id: u64,
)
    ensures
        folded(entries, collapsed, entry, FoldOp::CloseRecursive) is Some <==> folded(
            entries,
            collapsed,
            entry,
            FoldOp::Close,
        ) is Some,
        folded(entries, collapsed, entry, FoldOp::CloseRecursive) matches Some((folds, cursor))
            ==> {
            let target = close_target(entries, collapsed, entry)->Some_0;
            &&& cursor == folded(entries, collapsed, entry, FoldOp::Close)->Some_0.1
            &&& target.id == cursor
            &&& folds.contains(id) <==> collapsed.contains(id) || exists|k: int|
                0 <= k < entries.len() && (#[trigger] entries[k]).id.0 == id && entries[k].kind
                    == EntryKind::Dir && (entries[k].path == target.path || is_above(
                    target.path,
                    entries[k].path,
                ))
        },
{
}

/// Unfolding with all below unfolds the directory and every directory below it, and
/// nothing elsewhere.
pub proof fn opening_with_all_below(
    entries: Seq<EntryView>,
    collapsed: Set<u64>,
    entry: EntryView,
    id: u64,
)
    requires
        entry.kind == EntryKind::Dir,
    ensures
        folded(entries, collapsed, entry, FoldOp::OpenRecursive) matches Some((folds, cursor))
            && cursor == entry.id && (folds.contains(id) <==> collapsed.contains(id) && !exists|
            k: int,
        |
            0 <= k < entries.len() && (#[trigger] entries[k]).id.0 == id && entries[k].kind
                == EntryKind::Dir && (entries[k].path == entry.path || is_above(
                entry.path,
                entries[k].path,
            ))),
{
}

/// Folding everything folds every directory, and the cursor goes to the entry at the top
/// that holds the one under it; unfolding everything leaves no fold.
pub proof fn folding_and_unfolding_everything(
    entries: Seq<EntryView>,
    collapsed: Set<u64>,
    entry: EntryView,
    id: u64,
)
    ensures
        folded(entries, collapsed, entry, FoldOp::CloseAll) matches Some((folds, cursor)) && (
        folds.contains(id) <==> collapsed.contains(id) || exists|k: int|
            0 <= k < entries.len() && (#[trigger] entries[k]).id.0 == id && entries[k].kind
                == EntryKind::Dir) && (if entry.path.len() > 0 && exists|k: int|
            0 <= k < entries.len() && (#[trigger] entries[k]).path == seq![entry.path[0]] {
            exists|k: int|
                0 <= k < entries.len() && (#[trigger] entries[k]).path == seq![entry.path[0]]
                    && entries[k].id == cursor
        } else {
            cursor == entry.id
        }),
        folded(entries, collapsed, entry, FoldOp::OpenAll) matches Some((folds, cursor)) && cursor
            == entry.id && !folds.contains(id),
{
    let (folds, cursor) = folded(entries, collapsed, entry, FoldOp::CloseAll)->Some_0;
    if exists|k: int|
        0 <= k < entries.len() && (#[trigger] entries[k]).id.0 == id && entries[k].kind
            == EntryKind::Dir {
        let k = choose|k: int|
            0 <= k < entries.len() && (#[trigger] entries[k]).id.0 == id && entries[k].kind
                == EntryKind::Dir;
        assert(dirs_within(entries, None).contains(id));
    }
    if entry.path.len() > 0 {
        let top = entry.path.take(1);
        assert(top =~= seq![entry.path[0]]);
        place_leads_to_its_entry(entries, top);
    }
}

/// The directories that are folded at places are just those that stand there.
pub proof fn folds_at_places(
    entries: Seq<EntryView>,
    paths: Seq<Seq<Seq<char>>>,
    path: Seq<Seq<char>>,
    id: u64,
)
    ensures
        dirs_at(entries, paths).contains(id) <==> exists|k: int|
            0 <= k < entries.len() && (#[trigger] entries[k]).id.0 == id && entries[k].kind
                == EntryKind::Dir && paths.contains(entries[k].path),
        dirs_above(entries, path).contains(id) <==> exists|k: int|
            0 <= k < entries.len() && (#[trigger] entries[k]).id.0 == id && entries[k].kind
                == EntryKind::Dir && is_above(entries[k].path, path),
        dirs_within(entries, None).contains(id) <==> exists|k: int|
            0 <= k < entries.len() && (#[trigger] entries[k]).id.0 == id && entries[k].kind
                == EntryKind::Dir,
        dirs_within(entries, Some(path)).contains(id) <==> exists|k: int|
            0 <= k < entries.len() && (#[trigger] entries[k]).id.0 == id && entries[k].kind
                == EntryKind::Dir && (entries[k].path == path || is_above(path, entries[k].path)),
{
    if exists|k: int|
        0 <= k < entries.len() && (#[trigger] entries[k]).id.0 == id && entries[k].kind
            == EntryKind::Dir {
        let k = choose|k: int|
            0 <= k < entries.len() && (#[trigger] entries[k]).id.0 == id && entries[k].kind
                == EntryKind::Dir;
        assert(dirs_within(entries, None).contains(id));
    }
}

/// A wish to fold or unfold at a line is about the entry that the line names; the lines
/// that are shown then are those of the tree with the new folds, the cursor goes to the
/// line of its entry, and the tree and its root stay. Where the folds would stay the same
/// nothing is shown anew.
pub proof fn folding_shows_the_new_folds(
    before: SaveView,
    lines: Seq<Seq<char>>,
    line: int,
    op: FoldOp,
)
    ensures
        ({
            let entries = before.baseline.entries;
            let (after, answer) = fold_step(before, lines, line, op);
            let entry = entry_at(entries, lines, line);
            &&& after == (SaveView { collapsed: after.collapsed, ..before })
            &&& answer is NotFound <==> entry is None
            &&& answer is Busy <==> entry is Some && !(before.state is Idle)
            &&& answer is Applied <==> after.collapsed != before.collapsed
            &&& before.state is Idle && entry is Some ==> (answer is Applied <==> {
                &&& folded(entries, before.collapsed, entry->Some_0, op) matches Some((folds, _))
                &&& folds != before.collapsed
            })
            &&& answer matches FoldView::Applied { lines: shown_now, cursor_line } ==> {
                let (folds, cursor) = folded(entries, before.collapsed, entry->Some_0, op)->Some_0;
                &&& after.collapsed == folds
                &&& shown_now == shown_lines(entries, folds)
                &&& cursor_line matches Some(at) ==> at < shown(entries, folds).len() && shown(
                    entries,
                    folds,
                )[at as int].id == cursor
                &&& cursor_line is None ==> forall|k: int|
                    0 <= k < shown(entries, folds).len() ==> (#[trigger] shown(
                        entries,
                        folds,
                    )[k]).id != cursor
            }
        }),
{
    let entries = before.baseline.entries;
    if let Some(entry) = entry_at(entries, lines, line) {
        if let Some((folds, cursor)) = folded(entries, before.collapsed, entry, op) {
            position_is_the_first(shown(entries, folds), cursor);
        }
    }
}

/// Folding or unfolding the directory on a line turns its fold over and leaves all other
/// folds; what is no directory is not folded.
pub proof fn toggling_a_line_turns_its_directory(
    before: SaveView,
    lines: Seq<Seq<char>>,
    line: int,
    id: u64,
)
    ensures
        ({
            let (after, answer) = toggle_step(before, lines, line);
            let entry = entry_at(before.baseline.entries, lines, line);
            &&& answer is Toggled <==> before.state is Idle && (entry matches Some(found)
                && found.kind == EntryKind::Dir)
            &&& answer is NotFound <==> entry is None
            &&& answer is NotADirectory <==> (entry matches Some(found) && found.kind
                != EntryKind::Dir)
            &&& !(answer is Toggled) ==> after == before
            &&& after == (SaveView { collapsed: after.collapsed, ..before })
            &&& answer matches ToggleView::Toggled(shown_now) ==> {
                &&& shown_now == shown_lines(before.baseline.entries, after.collapsed)
                &&& after.collapsed.contains(entry->Some_0.id.0) == !before.collapsed.contains(
                    entry->Some_0.id.0,
                )
                &&& id != entry->Some_0.id.0 ==> after.collapsed.contains(id)
                    == before.collapsed.contains(id)
            }
        }),
{
}

/// A line names an entry by the number at its beginning, and no entry where it has none or
/// no entry has that number.
pub proof fn line_names_an_entry_by_its_number(
    entries: Seq<EntryView>,
    lines: Seq<Seq<char>>,
    line: int,
)
    ensures
        match entry_at(entries, lines, line) {
            Some(entry) => 0 <= line < lines.len() && entries.contains(entry) && (prefix_of(
                lines[line],
            ) matches PrefixView::WithId { id, .. } && id == entry.id),
            None => 0 <= line < lines.len() && prefix_of(lines[line]) is WithId ==> forall|k: int|
                0 <= k < entries.len() ==> (#[trigger] entries[k]).id != prefix_of(
                    lines[line],
                )->WithId_id,
        },
{
    if 0 <= line < lines.len() {
        if let PrefixView::WithId { id, .. } = prefix_of(lines[line]) {
            lemma_found_entry(entries, id);
            if find_entry(entries, id) is None {
                assert forall|k: int| 0 <= k < entries.len() implies (#[trigger] entries[k]).id
                    != id by {
                    if entries[k].id == id {
                        lemma_entry_is_found(entries, k);
                    }
                }
            }
        }
    }
}

/// Under the number of an entry something is found.
proof fn lemma_entry_is_found(entries: Seq<EntryView>, k: int)
    requires
        0 <= k < entries.len(),
    ensures
        find_entry(entries, entries[k].id) is Some,
    decreases entries.len(),
{
    if k > 0 {
        assert(entries.drop_first()[k - 1] == entries[k]);
        lemma_entry_is_found(entries.drop_first(), k - 1);
    }
}

/// To show an entry, just the directories above it are unfolded, and the line that is given
/// is the one that shows it; an entry that is shown already unfolds nothing.
pub proof fn revealing_unfolds_what_is_above(before: SaveView, id: EntryId, other: u64)
    requires
        before.state is Idle,
    ensures
        ({
            let entries = before.baseline.entries;
            let (after, answer) = reveal_step(before, id);
            let now = shown(entries, after.collapsed);
            &&& after == (SaveView { collapsed: after.collapsed, ..before })
            &&& answer matches RevealView::AlreadyVisible { line } ==> after == before && line
                < now.len() && now[line as int].id == id
            &&& answer matches RevealView::Revealed { lines, line } ==> {
                &&& lines == shown_lines(entries, after.collapsed)
                &&& line < now.len() && now[line as int].id == id
                &&& find_entry(entries, id) matches Some(entry)
                &&& after.collapsed.contains(other) <==> before.collapsed.contains(other)
                    && !exists|k: int|
                    0 <= k < entries.len() && (#[trigger] entries[k]).id.0 == other
                        && entries[k].kind == EntryKind::Dir && is_above(
                        entries[k].path,
                        entry.path,
                    )
                &&& forall|k: int|
                    0 <= k < shown(entries, before.collapsed).len() ==> (#[trigger] shown(
                        entries,
                        before.collapsed,
                    )[k]).id != id
            }
        }),
{
    let entries = before.baseline.entries;
    let (after, answer) = reveal_step(before, id);
    position_is_the_first(shown(entries, before.collapsed), id);
    position_is_the_first(shown(entries, after.collapsed), id);
}

/// The line of a place shows the entry that stands there, and there is none where the entry
/// is not shown.
pub proof fn line_of_a_place_shows_its_entry(
    entries: Seq<EntryView>,
    collapsed: Set<u64>,
    path: Seq<Seq<char>>,
)
    ensures
        find_path(entries, path) is None ==> line_of_place(entries, collapsed, path) is None,
        find_path(entries, path) matches Some(entry) ==> match line_of_place(
            entries,
            collapsed,
            path,
        ) {
            Some(at) => at < shown(entries, collapsed).len() && shown(entries, collapsed)[at as int].id
                == entry.id,
            None => forall|k: int|
                0 <= k < shown(entries, collapsed).len() ==> (#[trigger] shown(
                    entries,
                    collapsed,
                )[k]).id != entry.id,
        },
{
    if let Some(entry) = find_path(entries, path) {
        position_is_the_first(shown(entries, collapsed), entry.id);
    }
}

} // verus!
