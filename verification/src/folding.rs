//! Folding directories away and unfolding them.

use std::collections::HashSet;

use vstd::prelude::*;

use crate::baseline::{
    entries_view, find_entry, ids_differ, lemma_find_entry, walked, BaselineEntry, BaselineTree,
    EntryView,
};
use crate::grammar::EntryId;
use crate::listing::{
    is_folded, is_hidden, shown, shown_are_entries, shown_are_the_entries_not_hidden, shown_from,
};
use crate::tree::{contains_path, is_above, paths_view, EntryKind, TreePath};

verus! {

broadcast use vstd::std_specs::hash::group_hash_axioms;

/// What a user asks of the folds.
#[derive(Debug, Clone, Copy, PartialEq, Eq, Structural)]
pub enum FoldOp {
    Close,
    Open,
    Toggle,
    CloseRecursive,
    OpenRecursive,
    CloseAll,
    OpenAll,
}

/// Whether a place is `top` or stands below it; every place is within none.
pub open spec fn is_within(path: Seq<Seq<char>>, top: Option<Seq<Seq<char>>>) -> bool {
    match top {
        Some(top) => path == top || is_above(top, path),
        None => true,
    }
}

/// The numbers of the directories among the first `n` entries within a place.
pub open spec fn dirs_among(
    entries: Seq<EntryView>,
    n: int,
    top: Option<Seq<Seq<char>>>,
) -> Set<u64> {
    Set::new(
        |id: u64|
            exists|i: int|
                0 <= i < n && (#[trigger] entries[i]).id.0 == id && entries[i].kind
                    == EntryKind::Dir && is_within(entries[i].path, top),
    )
}

/// The numbers of the directories within a place.
pub open spec fn dirs_within(entries: Seq<EntryView>, top: Option<Seq<Seq<char>>>) -> Set<u64> {
    dirs_among(entries, entries.len() as int, top)
}

/// The numbers of the directories among the first `n` entries that stand above
/// a place.
pub open spec fn dirs_over(entries: Seq<EntryView>, n: int, path: Seq<Seq<char>>) -> Set<u64> {
    Set::new(
        |id: u64|
            exists|i: int|
                0 <= i < n && (#[trigger] entries[i]).id.0 == id && entries[i].kind
                    == EntryKind::Dir && is_above(entries[i].path, path),
    )
}

/// The numbers of the directories that stand above a place.
pub open spec fn dirs_above(entries: Seq<EntryView>, path: Seq<Seq<char>>) -> Set<u64> {
    dirs_over(entries, entries.len() as int, path)
}

/// The numbers of the directories among the first `n` entries at some places.
pub open spec fn dirs_found(
    entries: Seq<EntryView>,
    n: int,
    paths: Seq<Seq<Seq<char>>>,
) -> Set<u64> {
    Set::new(
        |id: u64|
            exists|i: int|
                0 <= i < n && (#[trigger] entries[i]).id.0 == id && entries[i].kind
                    == EntryKind::Dir && paths.contains(entries[i].path),
    )
}

/// The numbers of the directories at some places.
pub open spec fn dirs_at(entries: Seq<EntryView>, paths: Seq<Seq<Seq<char>>>) -> Set<u64> {
    dirs_found(entries, entries.len() as int, paths)
}

/// What is folded among the first `n` entries of a new tree: the directories
/// that were folded, and those that were not there.
pub open spec fn carried_among(
    collapsed: Set<u64>,
    before: Seq<EntryView>,
    after: Seq<EntryView>,
    n: int,
) -> Set<u64> {
    Set::new(
        |id: u64|
            exists|i: int|
                0 <= i < n && (#[trigger] after[i]).id.0 == id && after[i].kind == EntryKind::Dir
                    && (collapsed.contains(id) || find_entry(before, after[i].id) is None),
    )
}

/// What is folded in a new tree: the directories that were folded, and those
/// that were not there.
pub open spec fn carried(
    collapsed: Set<u64>,
    before: Seq<EntryView>,
    after: Seq<EntryView>,
) -> Set<u64> {
    carried_among(collapsed, before, after, after.len() as int)
}

/// The first entry at a place.
pub open spec fn find_path(entries: Seq<EntryView>, path: Seq<Seq<char>>) -> Option<EntryView>
    decreases entries.len(),
{
    if entries.len() == 0 {
        None
    } else if entries[0].path == path {
        Some(entries[0])
    } else {
        find_path(entries.drop_first(), path)
    }
}

/// The first entry at a place.
pub fn entry_by_path<'a>(baseline: &'a BaselineTree, path: &TreePath) -> (r: Option<
    &'a BaselineEntry,
>)
    ensures
        match r {
            Some(entry) => find_path(baseline@.entries, path@) == Some(entry@),
            None => find_path(baseline@.entries, path@) is None,
        },
{
    let entries = baseline.entries();
    let ghost all = baseline@.entries;
    let mut i: usize = 0;
    assert(all.skip(0) =~= all);
    while i < entries.len()
        invariant
            i <= entries@.len(),
            all == baseline@.entries,
            all == entries_view(entries@),
            find_path(all, path@) == find_path(all.skip(i as int), path@),
        decreases entries@.len() - i,
    {
        assert(all.skip(i as int)[0] == entries@[i as int]@);
        assert(all.skip(i as int).drop_first() =~= all.skip(i + 1));
        if entries[i].path.same(path) {
            return Some(&entries[i]);
        }
        i = i + 1;
    }
    None
}

/// The entry at the top of the tree under which an entry stands.
pub open spec fn top_level_of(entries: Seq<EntryView>, path: Seq<Seq<char>>) -> Option<EntryView> {
    if path.len() == 0 {
        None
    } else {
        find_path(entries, path.take(1))
    }
}

/// The entry at the top of the tree under which an entry stands.
pub fn top_level_ancestor_entry<'a>(baseline: &'a BaselineTree, path: &TreePath) -> (r: Option<
    &'a BaselineEntry,
>)
    ensures
        match r {
            Some(entry) => top_level_of(baseline@.entries, path@) == Some(entry@),
            None => top_level_of(baseline@.entries, path@) is None,
        },
{
    if path.depth() == 0 {
        None
    } else {
        entry_by_path(baseline, &path.prefix(1))
    }
}

/// Whether an entry is a directory that is not folded.
pub open spec fn is_open(entry: EntryView, collapsed: Set<u64>) -> bool {
    entry.kind == EntryKind::Dir && !collapsed.contains(entry.id.0)
}

/// The nearest directory above a place that is not folded.
pub open spec fn nearest_open(
    entries: Seq<EntryView>,
    collapsed: Set<u64>,
    path: Seq<Seq<char>>,
) -> Option<EntryView>
    decreases path.len(),
{
    if path.len() == 0 {
        None
    } else {
        let parent = path.drop_last();
        match find_path(entries, parent) {
            Some(candidate) => if is_open(candidate, collapsed) {
                Some(candidate)
            } else {
                nearest_open(entries, collapsed, parent)
            },
            None => nearest_open(entries, collapsed, parent),
        }
    }
}

/// The directory that closing folds away: the entry itself where it is one that
/// is not folded, else the nearest such directory above it.
pub open spec fn close_target(
    entries: Seq<EntryView>,
    collapsed: Set<u64>,
    entry: EntryView,
) -> Option<EntryView> {
    if is_open(entry, collapsed) {
        Some(entry)
    } else {
        nearest_open(entries, collapsed, entry.path)
    }
}

/// The directory that closing folds away.
pub fn close_target_for_entry<'a>(
    baseline: &'a BaselineTree,
    collapsed: &HashSet<u64>,
    entry: &'a BaselineEntry,
) -> (r: Option<&'a BaselineEntry>)
    ensures
        match r {
            Some(target) => close_target(baseline@.entries, collapsed@, entry@) == Some(target@),
            None => close_target(baseline@.entries, collapsed@, entry@) is None,
        },
{
    if entry.kind == EntryKind::Dir && !collapsed.contains(&entry.id.0) {
        return Some(entry);
    }
    let ghost all = baseline@.entries;
    let mut path = entry.path.copy();
    while path.depth() > 0
        invariant
            all == baseline@.entries,
            nearest_open(all, collapsed@, entry@.path) == nearest_open(all, collapsed@, path@),
            !is_open(entry@, collapsed@),
        decreases path@.len(),
    {
        let parent = path.prefix(path.depth() - 1);
        assert(parent@ =~= path@.drop_last());
        if let Some(candidate) = entry_by_path(baseline, &parent) {
            if candidate.kind == EntryKind::Dir && !collapsed.contains(&candidate.id.0) {
                return Some(candidate);
            }
        }
        path = parent;
    }
    None
}

/// Folds all directories within a place, and says whether that changed a fold.
pub fn collapse_dirs(
    baseline: &BaselineTree,
    collapsed: &mut HashSet<u64>,
    top: Option<&TreePath>,
) -> (r: bool)
    ensures
        final(collapsed)@ == old(collapsed)@.union(
            dirs_within(baseline@.entries, top_view(top)),
        ),
        r == (final(collapsed)@ != old(collapsed)@),
{
    let entries = baseline.entries();
    let ghost all = baseline@.entries;
    let mut changed = false;
    let mut i: usize = 0;
    assert(collapsed@ =~= old(collapsed)@.union(dirs_among(all, 0, top_view(top))));
    while i < entries.len()
        invariant
            i <= entries@.len(),
            all == baseline@.entries,
            all == entries_view(entries@),
            collapsed@ == old(collapsed)@.union(dirs_among(all, i as int, top_view(top))),
            !changed ==> collapsed@ == old(collapsed)@,
            changed ==> exists|id: u64|
                #[trigger] collapsed@.contains(id) && !old(collapsed)@.contains(id),
        decreases entries@.len() - i,
    {
        let entry = &entries[i];
        assert(all[i as int] == entry@);
        let ghost before = dirs_among(all, i as int, top_view(top));
        let ghost after = dirs_among(all, i + 1, top_view(top));
        if entry.kind == EntryKind::Dir && path_is_within(&entry.path, top) {
            let ghost now = collapsed@;
            if collapsed.insert(entry.id.0) {
                changed = true;
                assert(!now.contains(entry.id.0));
                assert(!old(collapsed)@.contains(entry.id.0));
                assert(collapsed@.contains(entry.id.0));
            } else {
                assert(collapsed@ =~= now);
            }
            assert(after =~= before.insert(entry.id.0)) by {
                lemma_dirs_step(all, i as int, top_view(top));
            }
        } else {
            assert(after =~= before) by {
                lemma_dirs_step(all, i as int, top_view(top));
            }
        }
        i = i + 1;
        assert(collapsed@ =~= old(collapsed)@.union(after));
    }
    changed
}

/// Unfolds all directories within a place, and says whether that changed a fold.
pub fn expand_dirs(
    baseline: &BaselineTree,
    collapsed: &mut HashSet<u64>,
    top: Option<&TreePath>,
) -> (r: bool)
    ensures
        final(collapsed)@ == old(collapsed)@.difference(
            dirs_within(baseline@.entries, top_view(top)),
        ),
        r == (final(collapsed)@ != old(collapsed)@),
{
    let entries = baseline.entries();
    let ghost all = baseline@.entries;
    let mut changed = false;
    let mut i: usize = 0;
    assert(collapsed@ =~= old(collapsed)@.difference(dirs_among(all, 0, top_view(top))));
    while i < entries.len()
        invariant
            i <= entries@.len(),
            all == baseline@.entries,
            all == entries_view(entries@),
            collapsed@ == old(collapsed)@.difference(dirs_among(all, i as int, top_view(top))),
            !changed ==> collapsed@ == old(collapsed)@,
            changed ==> exists|id: u64|
                #[trigger] old(collapsed)@.contains(id) && !collapsed@.contains(id),
        decreases entries@.len() - i,
    {
        let entry = &entries[i];
        assert(all[i as int] == entry@);
        let ghost before = dirs_among(all, i as int, top_view(top));
        let ghost after = dirs_among(all, i + 1, top_view(top));
        if entry.kind == EntryKind::Dir && path_is_within(&entry.path, top) {
            let ghost now = collapsed@;
            if collapsed.remove(&entry.id.0) {
                changed = true;
                assert(now.contains(entry.id.0));
                assert(old(collapsed)@.contains(entry.id.0));
                assert(!collapsed@.contains(entry.id.0));
            } else {
                assert(collapsed@ =~= now);
            }
            assert(after =~= before.insert(entry.id.0)) by {
                lemma_dirs_step(all, i as int, top_view(top));
            }
        } else {
            assert(after =~= before) by {
                lemma_dirs_step(all, i as int, top_view(top));
            }
        }
        i = i + 1;
        assert(collapsed@ =~= old(collapsed)@.difference(after));
    }
    changed
}

/// An optional place.
pub open spec fn top_view(top: Option<&TreePath>) -> Option<Seq<Seq<char>>> {
    match top {
        Some(path) => Some(path@),
        None => None,
    }
}

/// Whether a place is `top` or stands below it.
fn path_is_within(path: &TreePath, top: Option<&TreePath>) -> (r: bool)
    ensures
        r == is_within(path@, top_view(top)),
{
    match top {
        Some(top) => path.same(top) || top.is_strict_ancestor_of(path),
        None => true,
    }
}

/// One more entry adds its number where it is a directory within the place.
proof fn lemma_dirs_step(entries: Seq<EntryView>, n: int, top: Option<Seq<Seq<char>>>)
    requires
        0 <= n < entries.len(),
    ensures
        dirs_among(entries, n + 1, top) == (if entries[n].kind == EntryKind::Dir && is_within(
            entries[n].path,
            top,
        ) {
            dirs_among(entries, n, top).insert(entries[n].id.0)
        } else {
            dirs_among(entries, n, top)
        }),
{
    let before = dirs_among(entries, n, top);
    let after = dirs_among(entries, n + 1, top);
    assert forall|id: u64| after.contains(id) implies before.contains(id) || (id
        == entries[n].id.0 && entries[n].kind == EntryKind::Dir && is_within(
        entries[n].path,
        top,
    )) by {
        let i = choose|i: int|
            0 <= i < n + 1 && (#[trigger] entries[i]).id.0 == id && entries[i].kind
                == EntryKind::Dir && is_within(entries[i].path, top);
        if i < n {
            assert(before.contains(id));
        }
    }
    assert forall|id: u64| before.contains(id) implies after.contains(id) by {
        let i = choose|i: int|
            0 <= i < n && (#[trigger] entries[i]).id.0 == id && entries[i].kind == EntryKind::Dir
                && is_within(entries[i].path, top);
        assert(entries[i].id.0 == id);
    }
    if entries[n].kind == EntryKind::Dir && is_within(entries[n].path, top) {
        assert(after.contains(entries[n].id.0));
        assert(after =~= before.insert(entries[n].id.0));
    } else {
        assert(after =~= before);
    }
}

/// The folds of the directories at some places.
pub fn folds_at(baseline: &BaselineTree, paths: &Vec<TreePath>) -> (r: HashSet<u64>)
    ensures
        r@ == dirs_at(baseline@.entries, paths_view(paths@)),
{
    let entries = baseline.entries();
    let ghost all = baseline@.entries;
    let ghost places = paths_view(paths@);
    let mut folds: HashSet<u64> = HashSet::new();
    let mut i: usize = 0;
    assert(folds@ =~= dirs_found(all, 0, places));
    while i < entries.len()
        invariant
            i <= entries@.len(),
            all == baseline@.entries,
            all == entries_view(entries@),
            places == paths_view(paths@),
            folds@ == dirs_found(all, i as int, places),
        decreases entries@.len() - i,
    {
        let entry = &entries[i];
        assert(all[i as int] == entry@);
        let ghost before = dirs_found(all, i as int, places);
        let ghost after = dirs_found(all, i + 1, places);
        proof {
            assert forall|id: u64| #[trigger] before.contains(id) implies after.contains(id) by {
                let k = choose|k: int|
                    0 <= k < i && (#[trigger] all[k]).id.0 == id && all[k].kind == EntryKind::Dir
                        && places.contains(all[k].path);
                assert(all[k].id.0 == id);
            }
            assert forall|id: u64| #[trigger] after.contains(id) implies before.contains(id) || id
                == all[i as int].id.0 && all[i as int].kind == EntryKind::Dir && places.contains(
                all[i as int].path,
            ) by {
                let k = choose|k: int|
                    0 <= k < i + 1 && (#[trigger] all[k]).id.0 == id && all[k].kind
                        == EntryKind::Dir && places.contains(all[k].path);
                if k < i {
                    assert(before.contains(id));
                }
            }
        }
        if entry.kind == EntryKind::Dir && contains_path(paths, &entry.path) {
            folds.insert(entry.id.0);
            assert(after.contains(all[i as int].id.0));
            assert(after =~= before.insert(entry.id.0));
        } else {
            assert(after =~= before);
        }
        i = i + 1;
    }
    folds
}

/// Unfolds all directories that stand above a place.
pub fn unfold_above(baseline: &BaselineTree, collapsed: &mut HashSet<u64>, path: &TreePath)
    ensures
        final(collapsed)@ == old(collapsed)@.difference(dirs_above(baseline@.entries, path@)),
{
    let entries = baseline.entries();
    let ghost all = baseline@.entries;
    let mut i: usize = 0;
    assert(collapsed@ =~= old(collapsed)@.difference(dirs_over(all, 0, path@)));
    while i < entries.len()
        invariant
            i <= entries@.len(),
            all == baseline@.entries,
            all == entries_view(entries@),
            collapsed@ == old(collapsed)@.difference(dirs_over(all, i as int, path@)),
        decreases entries@.len() - i,
    {
        let entry = &entries[i];
        assert(all[i as int] == entry@);
        let ghost before = dirs_over(all, i as int, path@);
        let ghost after = dirs_over(all, i + 1, path@);
        proof {
            assert forall|id: u64| before.contains(id) implies after.contains(id) by {
                let k = choose|k: int|
                    0 <= k < i && (#[trigger] all[k]).id.0 == id && all[k].kind == EntryKind::Dir
                        && is_above(all[k].path, path@);
                assert(all[k].id.0 == id);
            }
        }
        if entry.kind == EntryKind::Dir && entry.path.is_strict_ancestor_of(path) {
            collapsed.remove(&entry.id.0);
            assert(after.contains(entry.id.0)) by {
                assert(all[i as int].id.0 == entry.id.0);
            }
            assert(after =~= before.insert(entry.id.0));
        } else {
            assert(after =~= before);
        }
        i = i + 1;
        assert(collapsed@ =~= old(collapsed)@.difference(after));
    }
}

/// What is folded in a new tree.
pub fn carry_collapsed_dirs(
    collapsed: &HashSet<u64>,
    before: &BaselineTree,
    after: &BaselineTree,
) -> (r: HashSet<u64>)
    ensures
        r@ == carried(collapsed@, before@.entries, after@.entries),
{
    let entries = after.entries();
    let ghost all = after@.entries;
    let mut kept: HashSet<u64> = HashSet::new();
    let mut i: usize = 0;
    assert(kept@ =~= carried_among(collapsed@, before@.entries, all, 0));
    while i < entries.len()
        invariant
            i <= entries@.len(),
            all == after@.entries,
            all == entries_view(entries@),
            kept@ == carried_among(collapsed@, before@.entries, all, i as int),
        decreases entries@.len() - i,
    {
        let entry = &entries[i];
        assert(all[i as int] == entry@);
        let ghost now = carried_among(collapsed@, before@.entries, all, i as int);
        let ghost next = carried_among(collapsed@, before@.entries, all, i + 1);
        proof {
            assert forall|id: u64| now.contains(id) implies next.contains(id) by {
                let k = choose|k: int|
                    0 <= k < i && (#[trigger] all[k]).id.0 == id && all[k].kind == EntryKind::Dir
                        && (collapsed@.contains(id) || find_entry(
                        before@.entries,
                        all[k].id,
                    ) is None);
                assert(all[k].id.0 == id);
            }
        }
        if entry.kind == EntryKind::Dir && (collapsed.contains(&entry.id.0) || before.get(
            entry.id,
        ).is_none()) {
            kept.insert(entry.id.0);
            assert(next.contains(entry.id.0)) by {
                assert(all[i as int].id.0 == entry.id.0);
            }
            assert(next =~= now.insert(entry.id.0));
        } else {
            assert(next =~= now);
        }
        i = i + 1;
    }
    kept
}

/// What a fold leads to: the new folds and the entry under the cursor, or
/// nothing where there is nothing to fold.
pub open spec fn folded(
    entries: Seq<EntryView>,
    collapsed: Set<u64>,
    entry: EntryView,
    op: FoldOp,
) -> Option<(Set<u64>, EntryId)> {
    let close = match close_target(entries, collapsed, entry) {
        Some(target) => Some((collapsed.insert(target.id.0), target.id)),
        None => None,
    };
    match op {
        FoldOp::Close => close,
        FoldOp::Open => if entry.kind == EntryKind::Dir {
            Some((collapsed.remove(entry.id.0), entry.id))
        } else {
            None
        },
        FoldOp::Toggle => if entry.kind == EntryKind::Dir {
            Some((toggled(collapsed, entry.id), entry.id))
        } else {
            close
        },
        FoldOp::CloseRecursive => match close_target(entries, collapsed, entry) {
            Some(target) => Some(
                (collapsed.union(dirs_within(entries, Some(target.path))), target.id),
            ),
            None => None,
        },
        FoldOp::OpenRecursive => if entry.kind == EntryKind::Dir {
            Some((collapsed.difference(dirs_within(entries, Some(entry.path))), entry.id))
        } else {
            None
        },
        FoldOp::CloseAll => Some(
            (
                collapsed.union(dirs_within(entries, None)),
                match top_level_of(entries, entry.path) {
                    Some(top) => top.id,
                    None => entry.id,
                },
            ),
        ),
        FoldOp::OpenAll => Some((Set::empty(), entry.id)),
    }
}

/// The folds with one directory folded where it was not and unfolded where it
/// was.
pub open spec fn toggled(collapsed: Set<u64>, id: EntryId) -> Set<u64> {
    if collapsed.contains(id.0) {
        collapsed.remove(id.0)
    } else {
        collapsed.insert(id.0)
    }
}

/// Folds or unfolds as a user asks at an entry. Gives the entry under the cursor
/// and whether a fold changed, or nothing where there is nothing to fold.
pub fn fold_at(
    baseline: &BaselineTree,
    collapsed: &mut HashSet<u64>,
    entry: &BaselineEntry,
    op: FoldOp,
) -> (r: Option<(EntryId, bool)>)
    ensures
        match folded(baseline@.entries, old(collapsed)@, entry@, op) {
            None => r is None && final(collapsed)@ == old(collapsed)@,
            Some((folds, cursor)) => final(collapsed)@ == folds && r == Some(
                (cursor, folds != old(collapsed)@),
            ),
        },
{
    let ghost before = collapsed@;
    let is_dir = entry.kind == EntryKind::Dir;
    match op {
        FoldOp::Close => {
            close_at(baseline, collapsed, entry)
        },
        FoldOp::Open => {
            if !is_dir {
                return None;
            }
            let changed = collapsed.remove(&entry.id.0);
            assert(collapsed@ =~= before.remove(entry.id.0));
            assert(changed == before.contains(entry.id.0));
            proof {
                if changed {
                    assert(!collapsed@.contains(entry.id.0));
                } else {
                    assert(collapsed@ =~= before);
                }
            }
            Some((entry.id, changed))
        },
        FoldOp::Toggle => {
            if !is_dir {
                return close_at(baseline, collapsed, entry);
            }
            toggle_at(collapsed, entry.id);
            assert(before.contains(entry.id.0) != collapsed@.contains(entry.id.0));
            Some((entry.id, true))
        },
        FoldOp::CloseRecursive => {
            let (id, changed) = match close_target_for_entry(baseline, collapsed, entry) {
                None => {
                    return None;
                },
                Some(target) => (
                    target.id,
                    collapse_dirs(baseline, collapsed, Some(&target.path)),
                ),
            };
            Some((id, changed))
        },
        FoldOp::OpenRecursive => {
            if !is_dir {
                return None;
            }
            let changed = expand_dirs(baseline, collapsed, Some(&entry.path));
            Some((entry.id, changed))
        },
        FoldOp::CloseAll => {
            let changed = collapse_dirs(baseline, collapsed, None);
            let cursor = match top_level_ancestor_entry(baseline, &entry.path) {
                Some(top) => top.id,
                None => entry.id,
            };
            Some((cursor, changed))
        },
        FoldOp::OpenAll => {
            let changed = !collapsed.is_empty();
            collapsed.clear();
            assert(collapsed@ =~= Set::empty());
            assert(changed == (collapsed@ != before));
            Some((entry.id, changed))
        },
    }
}

/// Folds away the directory that closing folds away.
fn close_at(
    baseline: &BaselineTree,
    collapsed: &mut HashSet<u64>,
    entry: &BaselineEntry,
) -> (r: Option<(EntryId, bool)>)
    ensures
        match close_target(baseline@.entries, old(collapsed)@, entry@) {
            None => r is None && final(collapsed)@ == old(collapsed)@,
            Some(target) => final(collapsed)@ == old(collapsed)@.insert(target.id.0) && r == Some(
                (target.id, final(collapsed)@ != old(collapsed)@),
            ),
        },
{
    let ghost before = collapsed@;
    let id = match close_target_for_entry(baseline, collapsed, entry) {
        None => {
            return None;
        },
        Some(target) => target.id,
    };
    let changed = collapsed.insert(id.0);
    assert(collapsed@ =~= before.insert(id.0));
    proof {
        if changed {
            assert(collapsed@.contains(id.0) && !before.contains(id.0));
        } else {
            assert(collapsed@ =~= before);
        }
    }
    Some((id, changed))
}

/// Folds one directory where it was not folded and unfolds it where it was.
pub fn toggle_at(collapsed: &mut HashSet<u64>, id: EntryId)
    ensures
        final(collapsed)@ == toggled(old(collapsed)@, id),
{
    if !collapsed.remove(&id.0) {
        collapsed.insert(id.0);
    }
    assert(collapsed@ =~= toggled(old(collapsed)@, id));
}

/// Folding and unfolding a directory gives the folds back.
pub proof fn toggling_twice_changes_nothing(collapsed: Set<u64>, id: EntryId)
    ensures
        toggled(toggled(collapsed, id), id) == collapsed,
{
    assert(toggled(toggled(collapsed, id), id) =~= collapsed);
}

/// Where two sets of folds differ in one entry alone, the same is shown as far as that
/// entry.
proof fn lemma_shown_as_far(
    entries: Seq<EntryView>,
    collapsed: Set<u64>,
    other: Set<u64>,
    skip: Option<Seq<Seq<char>>>,
    line: int,
)
    requires
        ids_differ(entries),
        0 <= line < shown_from(entries, collapsed, skip).len(),
        forall|id: u64|
            id != shown_from(entries, collapsed, skip)[line].id.0 ==> #[trigger] collapsed.contains(
                id,
            ) == other.contains(id),
    ensures
        line < shown_from(entries, other, skip).len(),
        forall|k: int|
            0 <= k <= line ==> #[trigger] shown_from(entries, other, skip)[k] == shown_from(
                entries,
                collapsed,
                skip,
            )[k],
    decreases entries.len(),
{
    let entry = entries[0];
    let rest = entries.drop_first();
    let visible = shown_from(entries, collapsed, skip);
    assert(ids_differ(rest)) by {
        assert forall|j: int, k: int| 0 <= j < k < rest.len() implies (#[trigger] rest[j]).id != (
        #[trigger] rest[k]).id by {
            assert(entries[j + 1].id != entries[k + 1].id);
        }
    }
    if skip matches Some(path) && is_above(path, entry.path) {
        lemma_shown_as_far(rest, collapsed, other, skip, line);
    } else {
        let next = if is_folded(entry, collapsed) {
            Some(entry.path)
        } else {
            None
        };
        assert(visible == seq![entry] + shown_from(rest, collapsed, next));
        if line > 0 {
            let below = shown_from(rest, collapsed, next);
            assert(visible[line] == below[line - 1]);
            shown_are_entries(rest, collapsed, next);
            assert(rest.contains(below[line - 1]));
            let k = choose|k: int| 0 <= k < rest.len() && rest[k] == below[line - 1];
            assert(entries[0].id != entries[k + 1].id);
            assert(collapsed.contains(entry.id.0) == other.contains(entry.id.0));
            lemma_shown_as_far(rest, collapsed, other, next, line - 1);
            let there = shown_from(rest, other, next);
            assert(shown_from(entries, other, skip) == seq![entry] + there);
            assert forall|k: int| 0 <= k <= line implies #[trigger] shown_from(
                entries,
                other,
                skip,
            )[k] == visible[k] by {
                if k > 0 {
                    assert(there[k - 1] == below[k - 1]);
                }
            }
        }
    }
}

/// An entry that is folded or unfolded stays on its line, and all that stands above it
/// stays on its own.
pub proof fn toggled_entry_stays_on_its_line(
    entries: Seq<EntryView>,
    collapsed: Set<u64>,
    line: int,
)
    requires
        ids_differ(entries),
        0 <= line < shown(entries, collapsed).len(),
    ensures
        ({
            let id = shown(entries, collapsed)[line].id;
            let after = shown(entries, toggled(collapsed, id));
            &&& line < after.len()
            &&& forall|k: int|
                0 <= k <= line ==> #[trigger] after[k] == shown(entries, collapsed)[k]
        }),
{
    let id = shown(entries, collapsed)[line].id;
    lemma_shown_as_far(entries, collapsed, toggled(collapsed, id), None, line);
}

/// After all directories have been folded every entry at the top of the tree is
/// shown and nothing below a directory of the tree is.
pub proof fn folding_all_hides_what_is_below(entries: Seq<EntryView>, collapsed: Set<u64>, i: int)
    requires
        0 <= i < entries.len(),
    ensures
        ({
            let all = collapsed.union(dirs_within(entries, None));
            &&& is_hidden(entries, all, entries[i].path) == exists|k: int|
                0 <= k < entries.len() && (#[trigger] entries[k]).kind == EntryKind::Dir
                    && is_above(entries[k].path, entries[i].path)
        }),
{
    let all = collapsed.union(dirs_within(entries, None));
    let path = entries[i].path;
    assert forall|k: int| 0 <= k < entries.len() && (#[trigger] entries[k]).kind
        == EntryKind::Dir implies is_folded(entries[k], all) by {
        assert(dirs_within(entries, None).contains(entries[k].id.0));
    }
    if exists|k: int|
        0 <= k < entries.len() && (#[trigger] entries[k]).kind == EntryKind::Dir && is_above(
            entries[k].path,
            path,
        ) {
        let k = choose|k: int|
            0 <= k < entries.len() && (#[trigger] entries[k]).kind == EntryKind::Dir && is_above(
                entries[k].path,
                path,
            );
        assert(is_folded(entries[k], all));
        assert(is_hidden(entries, all, path));
    }
}

/// Unfolding what stands above an entry shows it.
pub proof fn unfolding_above_shows(entries: Seq<EntryView>, collapsed: Set<u64>, i: int)
    requires
        walked(entries),
        ids_differ(entries),
        0 <= i < entries.len(),
    ensures
        shown(entries, collapsed.difference(dirs_above(entries, entries[i].path))).contains(
            entries[i],
        ),
{
    let path = entries[i].path;
    let left = collapsed.difference(dirs_above(entries, path));
    shown_are_the_entries_not_hidden(entries, left);
    assert(!is_hidden(entries, left, path)) by {
        if is_hidden(entries, left, path) {
            let k = choose|k: int|
                0 <= k < entries.len() && is_folded(#[trigger] entries[k], left) && is_above(
                    entries[k].path,
                    path,
                );
            assert(dirs_above(entries, path).contains(entries[k].id.0));
        }
    }
    let keep = |entry: EntryView| !is_hidden(entries, left, entry.path);
    assert(keep(entries[i]));
    entries.lemma_filter_contains(keep, i);
}

/// A directory that is in both trees stays folded or unfolded; a new one is
/// folded; nothing else is.
pub proof fn carrying_keeps_folds(
    collapsed: Set<u64>,
    before: Seq<EntryView>,
    after: Seq<EntryView>,
    i: int,
)
    requires
        ids_differ(after),
        0 <= i < after.len(),
    ensures
        carried(collapsed, before, after).contains(after[i].id.0) == (after[i].kind
            == EntryKind::Dir && (collapsed.contains(after[i].id.0) || find_entry(
            before,
            after[i].id,
        ) is None)),
        forall|id: u64| #[trigger]
            carried(collapsed, before, after).contains(id) ==> find_entry(
                after,
                EntryId(id),
            ) is Some,
{
    let new = carried(collapsed, before, after);
    if new.contains(after[i].id.0) {
        let k = choose|k: int|
            0 <= k < after.len() && (#[trigger] after[k]).id.0 == after[i].id.0 && after[k].kind
                == EntryKind::Dir && (collapsed.contains(after[i].id.0) || find_entry(
                before,
                after[k].id,
            ) is None);
        if k < i {
            assert(after[k].id != after[i].id);
        } else if i < k {
            assert(after[i].id != after[k].id);
        }
    } else if after[i].kind == EntryKind::Dir && (collapsed.contains(after[i].id.0) || find_entry(
        before,
        after[i].id,
    ) is None) {
        assert(after[i].id.0 == after[i].id.0);
    }
    assert forall|id: u64| #[trigger] new.contains(id) implies find_entry(
        after,
        EntryId(id),
    ) is Some by {
        let k = choose|k: int|
            0 <= k < after.len() && (#[trigger] after[k]).id.0 == id && after[k].kind
                == EntryKind::Dir && (collapsed.contains(id) || find_entry(
                before,
                after[k].id,
            ) is None);
        lemma_find_entry(after, k);
        assert(after[k].id == EntryId(id));
    }
}

/// Folds that are kept as the places of what is folded come back with those places:
/// the same directories are folded again, even where the numbers of the entries are new.
pub proof fn kept_folds_come_back(
    before: Seq<EntryView>,
    collapsed: Set<u64>,
    after: Seq<EntryView>,
    paths: Seq<Seq<Seq<char>>>,
    i: int,
    j: int,
)
    requires
        ids_differ(after),
        forall|path: Seq<Seq<char>>|
            paths.contains(path) <==> exists|k: int|
                0 <= k < before.len() && is_folded(#[trigger] before[k], collapsed)
                    && before[k].path == path,
        forall|k: int, l: int|
            0 <= k < l < before.len() ==> #[trigger] before[k].path != #[trigger] before[l].path,
        0 <= i < before.len(),
        0 <= j < after.len(),
        before[i].path == after[j].path,
        before[i].kind == after[j].kind,
    ensures
        is_folded(before[i], collapsed) == is_folded(after[j], dirs_at(after, paths)),
{
    let folds = dirs_at(after, paths);
    if is_folded(before[i], collapsed) {
        assert(paths.contains(before[i].path));
        assert(after[j].id.0 == after[j].id.0);
        assert(folds.contains(after[j].id.0));
    }
    if is_folded(after[j], folds) {
        let k = choose|k: int|
            0 <= k < after.len() && (#[trigger] after[k]).id.0 == after[j].id.0 && after[k].kind
                == EntryKind::Dir && paths.contains(after[k].path);
        assert(k == j);
        let l = choose|l: int|
            0 <= l < before.len() && is_folded(#[trigger] before[l], collapsed) && before[l].path
                == after[j].path;
        assert(l == i);
    }
}

} // verus!
