//! Which entries of the tree are shown, and as which lines.

use std::collections::HashSet;

use vstd::prelude::*;

use crate::baseline::{
    entries_view, find_entry, ids_differ, lemma_find_entry, walked, BaselineEntry, BaselineTree,
    EntryView,
};
use crate::grammar::{
    format_id_prefix, id_prefix, id_prefix_is_read_back, indent, indentation, line_texts,
    prefix_of, split_id_prefix, EditorLine, EntryId, PrefixParse, PrefixView,
};
use crate::tree::{is_above, lemma_above_transitive, EntryKind};

verus! {

broadcast use vstd::std_specs::hash::group_hash_axioms;

/// Whether an entry is a directory whose contents are folded away.
pub open spec fn is_folded(entry: EntryView, collapsed: Set<u64>) -> bool {
    entry.kind == EntryKind::Dir && collapsed.contains(entry.id.0)
}

/// The entries that are shown, while what stands below `skip` is left out: an
/// entry that is folded away leaves out what follows it and stands below it.
pub open spec fn shown_from(
    entries: Seq<EntryView>,
    collapsed: Set<u64>,
    skip: Option<Seq<Seq<char>>>,
) -> Seq<EntryView>
    decreases entries.len(),
{
    if entries.len() == 0 {
        Seq::empty()
    } else {
        let entry = entries[0];
        let rest = entries.drop_first();
        if skip matches Some(path) && is_above(path, entry.path) {
            shown_from(rest, collapsed, skip)
        } else {
            let next = if is_folded(entry, collapsed) {
                Some(entry.path)
            } else {
                None
            };
            seq![entry] + shown_from(rest, collapsed, next)
        }
    }
}

/// The entries that are shown.
pub open spec fn shown(entries: Seq<EntryView>, collapsed: Set<u64>) -> Seq<EntryView> {
    shown_from(entries, collapsed, None)
}

/// Whether some folded directory stands above an entry.
pub open spec fn is_hidden(
    entries: Seq<EntryView>,
    collapsed: Set<u64>,
    path: Seq<Seq<char>>,
) -> bool {
    exists|k: int|
        0 <= k < entries.len() && is_folded(#[trigger] entries[k], collapsed) && is_above(
            entries[k].path,
            path,
        )
}

/// The entries above which no folded directory stands.
pub open spec fn not_hidden(entries: Seq<EntryView>, collapsed: Set<u64>) -> Seq<EntryView> {
    entries.filter(|entry: EntryView| !is_hidden(entries, collapsed, entry.path))
}

/// The line of an entry.
pub open spec fn line_text(entry: EntryView) -> Seq<char> {
    id_prefix(entry.id) + line_rest(entry)
}

/// What follows the number in the line of an entry.
pub open spec fn line_rest(entry: EntryView) -> Seq<char> {
    let levels = if entry.path.len() > 0 {
        (entry.path.len() - 1) as nat
    } else {
        0
    };
    let name = if entry.path.len() > 0 {
        entry.path.last()
    } else {
        Seq::empty()
    };
    let suffix = if entry.kind == EntryKind::Dir {
        "/"@
    } else {
        Seq::empty()
    };
    indentation(levels) + name + suffix
}

/// The lines of entries.
pub open spec fn lines_for(entries: Seq<EntryView>) -> Seq<Seq<char>> {
    entries.map_values(|entry: EntryView| line_text(entry))
}

/// The lines that are shown.
pub open spec fn shown_lines(entries: Seq<EntryView>, collapsed: Set<u64>) -> Seq<Seq<char>> {
    lines_for(shown(entries, collapsed))
}

/// What references to entries stand for.
pub open spec fn refs_view(entries: Seq<&BaselineEntry>) -> Seq<EntryView> {
    entries.map_values(|entry: &BaselineEntry| entry@)
}

/// The entries that are shown, found in one pass.
pub fn visible_entries<'a>(baseline: &'a BaselineTree, collapsed: &HashSet<u64>) -> (r: Vec<
    &'a BaselineEntry,
>)
    ensures
        refs_view(r@) == shown(baseline@.entries, collapsed@),
{
    let entries = baseline.entries();
    let ghost all = baseline@.entries;
    let mut visible: Vec<&'a BaselineEntry> = Vec::new();
    let mut skip: Option<usize> = None;
    let mut i: usize = 0;
    assert(all.skip(0) =~= all);
    assert(refs_view(visible@) =~= Seq::empty());
    assert(refs_view(visible@) + shown_from(all.skip(0), collapsed@, None) =~= shown(
        all,
        collapsed@,
    ));
    while i < entries.len()
        invariant
            i <= entries@.len(),
            all == entries_view(entries@),
            skip matches Some(k) ==> k < entries@.len(),
            refs_view(visible@) + shown_from(all.skip(i as int), collapsed@, skip_path(all, skip))
                == shown(all, collapsed@),
        decreases entries@.len() - i,
    {
        let entry = &entries[i];
        let ghost rest = all.skip(i as int);
        let ghost before = refs_view(visible@);
        let ghost covering = skip_path(all, skip);
        proof {
            assert(rest[0] == entry@);
            assert(rest.drop_first() =~= all.skip(i + 1));
        }
        let covered = match skip {
            Some(k) => {
                assert(all[k as int] == entries@[k as int]@);
                entries[k].path.is_strict_ancestor_of(&entry.path)
            },
            None => false,
        };
        if !covered {
            if entry.kind == EntryKind::Dir && collapsed.contains(&entry.id.0) {
                skip = Some(i);
            } else {
                skip = None;
            }
            visible.push(entry);
            assert(refs_view(visible@) =~= before.push(entry@));
            assert(before + (seq![entry@] + shown_from(
                all.skip(i + 1),
                collapsed@,
                skip_path(all, skip),
            )) =~= refs_view(visible@) + shown_from(
                all.skip(i + 1),
                collapsed@,
                skip_path(all, skip),
            ));
        }
        i = i + 1;
    }
    assert(shown_from(all.skip(i as int), collapsed@, skip_path(all, skip)) =~= Seq::empty());
    assert(refs_view(visible@) =~= shown(all, collapsed@));
    visible
}

/// The path of the entry at a position.
spec fn skip_path(entries: Seq<EntryView>, skip: Option<usize>) -> Option<Seq<Seq<char>>> {
    match skip {
        Some(k) => Some(entries[k as int].path),
        None => None,
    }
}

/// The line of an entry.
fn format_line(entry: &BaselineEntry) -> (r: EditorLine)
    ensures
        r.text@ == line_text(entry@),
{
    let depth = entry.path.depth();
    let levels: usize = if depth > 0 {
        depth - 1
    } else {
        0
    };
    let mut text = format_id_prefix(entry.id);
    text.append(indent(levels).as_str());
    if let Some(name) = entry.path.name() {
        text.append(name.as_str());
    }
    if entry.kind == EntryKind::Dir {
        text.append("/");
    }
    assert(text@ =~= line_text(entry@));
    EditorLine::new(text)
}

/// The lines that are shown.
pub fn baseline_to_lines(baseline: &BaselineTree, collapsed: &HashSet<u64>) -> (r: Vec<EditorLine>)
    ensures
        line_texts(r@) == shown_lines(baseline@.entries, collapsed@),
{
    let visible = visible_entries(baseline, collapsed);
    let ghost all = shown(baseline@.entries, collapsed@);
    let mut lines: Vec<EditorLine> = Vec::new();
    let mut i: usize = 0;
    while i < visible.len()
        invariant
            i <= visible@.len(),
            refs_view(visible@) == all,
            lines@.len() == i,
            forall|j: int| 0 <= j < i ==> (#[trigger] lines@[j]).text@ == line_text(all[j]),
        decreases visible@.len() - i,
    {
        assert(all[i as int] == visible@[i as int]@);
        lines.push(format_line(visible[i]));
        i = i + 1;
    }
    assert(line_texts(lines@) =~= lines_for(all));
    lines
}

/// Where an entry with a number stands first.
pub open spec fn position_of(entries: Seq<EntryView>, id: EntryId) -> Option<nat>
    decreases entries.len(),
{
    if entries.len() == 0 {
        None
    } else if entries[0].id == id {
        Some(0)
    } else {
        match position_of(entries.drop_first(), id) {
            Some(i) => Some(i + 1),
            None => None,
        }
    }
}

/// A position as a number.
pub open spec fn position(r: Option<usize>) -> Option<nat> {
    match r {
        Some(i) => Some(i as nat),
        None => None,
    }
}

/// Where a shown entry stands.
pub fn visible_position_by_id(
    baseline: &BaselineTree,
    collapsed: &HashSet<u64>,
    id: EntryId,
) -> (r: Option<usize>)
    ensures
        position(r) == position_of(shown(baseline@.entries, collapsed@), id),
{
    let visible = visible_entries(baseline, collapsed);
    let ghost all = shown(baseline@.entries, collapsed@);
    let mut i: usize = 0;
    assert(all.skip(0) =~= all);
    while i < visible.len()
        invariant
            i <= visible@.len(),
            refs_view(visible@) == all,
            all == shown(baseline@.entries, collapsed@),
            position_of(all, id) == (match position_of(all.skip(i as int), id) {
                Some(k) => Some(k + i as nat),
                None => None,
            }),
        decreases visible@.len() - i,
    {
        assert(all.skip(i as int)[0] == visible@[i as int]@);
        assert(all.skip(i as int).drop_first() =~= all.skip(i + 1));
        if visible[i].id == id {
            return Some(i);
        }
        i = i + 1;
    }
    None
}

/// Whether a folded directory among the first `n` entries stands above an entry.
spec fn hidden_by_first(
    entries: Seq<EntryView>,
    collapsed: Set<u64>,
    n: int,
    path: Seq<Seq<char>>,
) -> bool {
    exists|k: int|
        0 <= k < n && is_folded(#[trigger] entries[k], collapsed) && is_above(
            entries[k].path,
            path,
        )
}

/// From position `i` on, just the entries are shown above which no folded
/// directory stands, as long as `skip` covers what the entries before `i` hide.
proof fn lemma_shown_from(
    entries: Seq<EntryView>,
    collapsed: Set<u64>,
    i: int,
    skip: Option<Seq<Seq<char>>>,
)
    requires
        walked(entries),
        0 <= i <= entries.len(),
        forall|j: int|
            i <= j < entries.len() ==> hidden_by_first(
                entries,
                collapsed,
                i,
                (#[trigger] entries[j]).path,
            ) == (skip matches Some(path) && is_above(path, entries[j].path)),
        skip matches Some(path) ==> exists|k: int|
            0 <= k < i && (#[trigger] entries[k]).path == path,
    ensures
        shown_from(entries.skip(i), collapsed, skip) == entries.skip(i).filter(
            |entry: EntryView| !is_hidden(entries, collapsed, entry.path),
        ),
    decreases entries.len() - i,
{
    let keep = |entry: EntryView| !is_hidden(entries, collapsed, entry.path);
    let rest = entries.skip(i);
    if i == entries.len() {
        assert(rest =~= Seq::empty());
        reveal(Seq::filter);
    } else {
        let entry = entries[i];
        let after = entries.skip(i + 1);
        assert(rest[0] == entry);
        assert(rest.drop_first() =~= after);
        assert(rest =~= seq![entry] + after);
        assert(seq![entry].filter(keep) =~= (if keep(entry) {
            seq![entry]
        } else {
            Seq::empty()
        })) by {
            reveal_with_fuel(Seq::filter, 2);
            assert(seq![entry].drop_last() =~= Seq::empty());
            assert(seq![entry].last() == entry);
        }
        Seq::filter_distributes_over_add(seq![entry], after, keep);
        if skip matches Some(path) && is_above(path, entry.path) {
            let path = skip->Some_0;
            assert(hidden_by_first(entries, collapsed, i, entry.path));
            assert(is_hidden(entries, collapsed, entry.path));
            assert forall|j: int| i + 1 <= j < entries.len() implies hidden_by_first(
                entries,
                collapsed,
                i + 1,
                (#[trigger] entries[j]).path,
            ) == is_above(path, entries[j].path) by {
                assert(hidden_by_first(entries, collapsed, i, entries[j].path) == is_above(
                    path,
                    entries[j].path,
                ));
                if hidden_by_first(entries, collapsed, i, entries[j].path) {
                    let k = choose|k: int|
                        0 <= k < i && is_folded(#[trigger] entries[k], collapsed) && is_above(
                            entries[k].path,
                            entries[j].path,
                        );
                    assert(is_folded(entries[k], collapsed));
                } else if is_folded(entry, collapsed) && is_above(entry.path, entries[j].path) {
                    lemma_above_transitive(path, entry.path, entries[j].path);
                }
            }
            lemma_shown_from(entries, collapsed, i + 1, skip);
            assert(Seq::<EntryView>::empty() + after.filter(keep) =~= after.filter(keep));
        } else {
            assert(!hidden_by_first(entries, collapsed, i, entry.path));
            assert(!is_hidden(entries, collapsed, entry.path)) by {
                if is_hidden(entries, collapsed, entry.path) {
                    let k = choose|k: int|
                        0 <= k < entries.len() && is_folded(#[trigger] entries[k], collapsed)
                            && is_above(entries[k].path, entry.path);
                    if k < i {
                        assert(hidden_by_first(entries, collapsed, i, entry.path));
                    } else if k > i {
                        assert(!is_above(entries[k].path, entries[i].path));
                    }
                }
            }
            let next = if is_folded(entry, collapsed) {
                Some(entry.path)
            } else {
                None
            };
            assert forall|j: int| i + 1 <= j < entries.len() implies hidden_by_first(
                entries,
                collapsed,
                i + 1,
                (#[trigger] entries[j]).path,
            ) == (next matches Some(path) && is_above(path, entries[j].path)) by {
                if hidden_by_first(entries, collapsed, i + 1, entries[j].path) {
                    let k = choose|k: int|
                        0 <= k < i + 1 && is_folded(#[trigger] entries[k], collapsed) && is_above(
                            entries[k].path,
                            entries[j].path,
                        );
                    if k < i {
                        assert(hidden_by_first(entries, collapsed, i, entries[j].path));
                        let path = skip->Some_0;
                        let c = choose|c: int|
                            0 <= c < i && (#[trigger] entries[c]).path == path;
                        assert(is_above(entries[c].path, entries[j].path));
                        assert(is_above(entries[c].path, entries[i].path));
                    }
                } else if is_folded(entry, collapsed) && is_above(entry.path, entries[j].path) {
                    assert(is_folded(entries[i], collapsed));
                }
            }
            if is_folded(entry, collapsed) {
                assert(entries[i].path == entry.path);
            }
            lemma_shown_from(entries, collapsed, i + 1, next);
        }
    }
}

/// One pass over a walked tree shows just the entries above which no folded
/// directory stands.
pub proof fn shown_are_the_entries_not_hidden(entries: Seq<EntryView>, collapsed: Set<u64>)
    requires
        walked(entries),
    ensures
        shown(entries, collapsed) == not_hidden(entries, collapsed),
{
    assert(entries.skip(0) =~= entries);
    lemma_shown_from(entries, collapsed, 0, None);
}

/// Every shown entry is an entry of the tree.
pub proof fn shown_are_entries(
    entries: Seq<EntryView>,
    collapsed: Set<u64>,
    skip: Option<Seq<Seq<char>>>,
)
    ensures
        forall|i: int|
            0 <= i < shown_from(entries, collapsed, skip).len() ==> entries.contains(
                #[trigger] shown_from(entries, collapsed, skip)[i],
            ),
    decreases entries.len(),
{
    if entries.len() > 0 {
        let entry = entries[0];
        let rest = entries.drop_first();
        let visible = shown_from(entries, collapsed, skip);
        if skip matches Some(path) && is_above(path, entry.path) {
            shown_are_entries(rest, collapsed, skip);
            let tail = shown_from(rest, collapsed, skip);
            assert(visible == tail);
            assert forall|i: int| 0 <= i < visible.len() implies entries.contains(
                #[trigger] visible[i],
            ) by {
                assert(rest.contains(tail[i]));
                let k = choose|k: int| 0 <= k < rest.len() && rest[k] == visible[i];
                assert(entries[k + 1] == visible[i]);
            }
        } else {
            let next = if is_folded(entry, collapsed) {
                Some(entry.path)
            } else {
                None
            };
            shown_are_entries(rest, collapsed, next);
            let tail = shown_from(rest, collapsed, next);
            assert forall|i: int| 0 <= i < visible.len() implies entries.contains(
                #[trigger] visible[i],
            ) by {
                if i == 0 {
                    assert(visible[0] == entries[0]);
                } else {
                    assert(visible[i] == tail[i - 1]);
                    assert(rest.contains(tail[i - 1]));
                    let k = choose|k: int| 0 <= k < rest.len() && rest[k] == tail[i - 1];
                    assert(entries[k + 1] == visible[i]);
                }
            }
        }
    }
}

/// The entry that a line names by its number.
pub open spec fn entry_at(entries: Seq<EntryView>, lines: Seq<Seq<char>>, line: int) -> Option<
    EntryView,
> {
    if 0 <= line < lines.len() {
        match prefix_of(lines[line]) {
            PrefixView::WithId { id, .. } => find_entry(entries, id),
            _ => None,
        }
    } else {
        None
    }
}

/// The entry that a line names by its number.
pub fn resolve_line_entry<'a>(baseline: &'a BaselineTree, lines: &Vec<EditorLine>, line: usize) -> (r:
    Option<&'a BaselineEntry>)
    ensures
        match r {
            Some(entry) => entry_at(baseline@.entries, line_texts(lines@), line as int) == Some(
                entry@,
            ),
            None => entry_at(baseline@.entries, line_texts(lines@), line as int) is None,
        },
{
    if line >= lines.len() {
        return None;
    }
    assert(line_texts(lines@)[line as int] == lines@[line as int].text@);
    match split_id_prefix(lines[line].text.as_str()) {
        PrefixParse::WithId { id, .. } => baseline.get(id),
        _ => None,
    }
}

/// Every line that is shown names the entry that it was made from.
pub proof fn shown_lines_name_their_entries(
    entries: Seq<EntryView>,
    collapsed: Set<u64>,
    line: int,
)
    requires
        ids_differ(entries),
        0 <= line < shown(entries, collapsed).len(),
    ensures
        entry_at(entries, shown_lines(entries, collapsed), line) == Some(
            shown(entries, collapsed)[line],
        ),
{
    let visible = shown(entries, collapsed);
    let entry = visible[line];
    shown_are_entries(entries, collapsed, None);
    assert(entries.contains(entry));
    let k = choose|k: int| 0 <= k < entries.len() && entries[k] == entry;
    lemma_find_entry(entries, k);
    assert(shown_lines(entries, collapsed)[line] == line_text(entry));
    id_prefix_is_read_back(entry.id, line_rest(entry));
}

} // verus!
