//! What becomes of a user's wishes about lines, places, orders and bookmarks.

use vstd::prelude::*;

use crate::baseline::BaselineView;
use crate::commands::{
    beginning_with, bookmark_entries, bookmark_query, cd_place, first_existing, first_unloaded,
    keys_for, named_path, open_choices, sort_key, sort_query, sort_wish, sort_word, terminal_place,
    BookmarkView, KeyBinding, OpenWithHandler,
};
use crate::desk::LoaderKindView;
use crate::directory_commands::{
    bookmark_step, fold_request, go_step, hidden_step, rescanned, sort_request, BookmarkStepView,
    FoldStepView, GoView, RescanView, SortStepView,
};
use crate::fold_laws::{folds_at_places, place_leads_to_its_entry, position_is_the_first};
use crate::folding::{find_path, FoldOp};
use crate::fs_path::FsPathView;
use crate::grammar::{after_indent, prefix_of, PrefixView};
use crate::listing::{entry_at, position_of, shown, shown_lines};
use crate::loading::{
    candidate_chosen, directory_loaded, reveal_loaded, root_loaded, LoadView, RevealLoadView,
};
use crate::notices::{save_notices, SaveNoticeView};
use crate::options::SortKey;
use crate::plan::{errors_view, report_view};
use crate::save_flow::{
    fold_step, reveal_step, toggle_step, top_level_line, top_level_name, FoldView, ReconciledView,
    SaveView, ScanView,
};
use crate::save_result::SaveFlowResult;
use crate::text::{begins_with, decimal, is_white, parse_number};
use crate::text_laws::{all_white, trimming_gives_the_core};
use crate::transfer_flow::{covered, selection, uncovered};
use crate::tree::{is_above, paths_view, EntryKind};
use crate::tree_commands::{
    activate_step, clipboard_step, line_kind, navigate_step, open_with_step, picker_step,
    remove_step, rename_step, yank_step, ActivateView, ClipboardView, EditView, PathStepView,
    PickerAction, PickerView,
};
use crate::warnings::warnings_view;

verus! {

/// A line is missing, new, broken or saved by what stands in front of it.
pub proof fn lines_are_told_apart(lines: Seq<Seq<char>>, line: int)
    ensures
        line_kind(lines, line) is Missing <==> !(0 <= line < lines.len()),
        0 <= line < lines.len() ==> (line_kind(lines, line) is Unsaved <==> prefix_of(lines[line])
            is NoId),
        0 <= line < lines.len() ==> (line_kind(lines, line) is Broken <==> prefix_of(lines[line])
            is Broken),
        0 <= line < lines.len() ==> (line_kind(lines, line) is Saved <==> prefix_of(lines[line])
            is WithId),
{
}

/// Activating a line opens what is no directory, at its own place below the root, and folds
/// or unfolds a directory unless the buffer was edited, with the cursor where it was.
pub proof fn activating_opens_or_folds(
    before: SaveView,
    lines: Seq<Seq<char>>,
    dirty: bool,
    root: FsPathView,
    line: nat,
)
    ensures
        ({
            let (after, step) = activate_step(before, lines, dirty, root, line);
            let entry = entry_at(before.baseline.entries, lines, line as int);
            &&& step is Open <==> (entry matches Some(found) && found.kind != EntryKind::Dir)
            &&& step matches ActivateView::Open(place) ==> place.base == root && place.names
                == entry->Some_0.path
            &&& step is Show <==> !dirty && before.state is Idle && (entry matches Some(found)
                && found.kind == EntryKind::Dir)
            &&& step matches ActivateView::Show { lines: now, cursor_line } ==> {
                &&& cursor_line == line
                &&& now == shown_lines(before.baseline.entries, after.collapsed)
                &&& after.collapsed.contains(entry->Some_0.id.0) == !before.collapsed.contains(
                    entry->Some_0.id.0,
                )
            }
            &&& !(step is Show) ==> after == before
            &&& entry is None ==> step is Tell
        }),
{
}

/// The place of a line is below the root where its entry stands: it can be copied for any
/// entry, opened with a program for what is no directory, and gone to for a directory.
pub proof fn places_of_lines(
    view: SaveView,
    lines: Seq<Seq<char>>,
    root: FsPathView,
    line: int,
)
    ensures
        ({
            let entry = entry_at(view.baseline.entries, lines, line);
            let is_dir = entry matches Some(found) && found.kind == EntryKind::Dir;
            &&& yank_step(view, lines, root, line) is Use <==> entry is Some
            &&& open_with_step(view, lines, root, line) is Use <==> entry is Some && !is_dir
            &&& navigate_step(view, lines, root, line) is Use <==> is_dir
            &&& yank_step(view, lines, root, line) matches PathStepView::Use(place) ==> place.base
                == root && place.names == entry->Some_0.path
            &&& open_with_step(view, lines, root, line) matches PathStepView::Use(place)
                ==> place.base == root && place.names == entry->Some_0.path
            &&& navigate_step(view, lines, root, line) matches PathStepView::Use(place)
                ==> place.base == root && place.names == entry->Some_0.path
        }),
{
}

/// A terminal opens in the directory of the line, in the directory that holds what is none,
/// or in the root where the line names nothing.
pub proof fn terminal_opens_at_the_line(
    view: SaveView,
    lines: Seq<Seq<char>>,
    line: int,
    root: FsPathView,
)
    ensures
        terminal_place(view, lines, line, root).0.base == root,
        entry_at(view.baseline.entries, lines, line) matches Some(entry) ==> terminal_place(
            view,
            lines,
            line,
            root,
        ).0.names == entry.path && terminal_place(view, lines, line, root).1 == (entry.kind
            != EntryKind::Dir),
        entry_at(view.baseline.entries, lines, line) is None ==> terminal_place(
            view,
            lines,
            line,
            root,
        ).0.names.len() == 0 && !terminal_place(view, lines, line, root).1,
{
}

/// What is put on the clipboard is just what was selected and stands below no other
/// selected entry, at its place below the root; a selection that cannot be taken is told.
pub proof fn clipboard_takes_the_selection(
    view: SaveView,
    lines: Seq<Seq<char>>,
    root: FsPathView,
    selected: Seq<usize>,
    path: Seq<Seq<char>>,
)
    ensures
        ({
            let picked = selection(view.baseline.entries, lines, selected);
            let step = clipboard_step(view, lines, root, selected);
            &&& step is Write <==> picked is Ok
            &&& step matches ClipboardView::Write(places) ==> {
                &&& forall|i: int|
                    0 <= i < places.len() ==> (#[trigger] places[i]).base == root
                &&& (exists|i: int|
                    0 <= i < places.len() && (#[trigger] places[i]).names == path) <==> (exists|
                    m: int,
                |
                    0 <= m < picked->Ok_0.len() && (#[trigger] picked->Ok_0[m]).0 == path
                        && forall|n: int|
                        0 <= n < picked->Ok_0.len() && n != m ==> !is_above(
                            (#[trigger] picked->Ok_0[n]).0,
                            picked->Ok_0[m].0,
                        ))
            }
        }),
{
    let picked = selection(view.baseline.entries, lines, selected);
    if let Ok(found) = picked {
        let kept = uncovered(found, found.len() as int);
        let places = clipboard_step(view, lines, root, selected)->Write_0;
        assert(places.len() == kept.len());
        assert(forall|i: int| 0 <= i < kept.len() ==> (#[trigger] places[i]).names == kept[i].0);
        if exists|i: int| 0 <= i < places.len() && (#[trigger] places[i]).names == path {
            let i = choose|i: int| 0 <= i < places.len() && (#[trigger] places[i]).names == path;
            lemma_kept_is_free(found, found.len() as int, i);
            let m = choose|m: int|
                0 <= m < found.len() && #[trigger] found[m] == kept[i] && !covered(found, m);
            assert(found[m].0 == path);
            assert forall|n: int| 0 <= n < found.len() && n != m implies !is_above(
                (#[trigger] found[n]).0,
                found[m].0,
            ) by {
                if is_above(found[n].0, found[m].0) {
                    assert(covered(found, m));
                }
            }
        }
        if exists|m: int|
            0 <= m < found.len() && (#[trigger] found[m]).0 == path && forall|n: int|
                0 <= n < found.len() && n != m ==> !is_above(
                    (#[trigger] found[n]).0,
                    found[m].0,
                ) {
            let m = choose|m: int|
                0 <= m < found.len() && (#[trigger] found[m]).0 == path && forall|n: int|
                    0 <= n < found.len() && n != m ==> !is_above(
                        (#[trigger] found[n]).0,
                        found[m].0,
                    );
            assert(!covered(found, m));
            lemma_free_is_kept(found, found.len() as int, m);
            let i = choose|i: int| 0 <= i < kept.len() && kept[i] == found[m];
            assert(places[i].names == path);
        }
    }
}

proof fn lemma_kept_is_free(selected: Seq<(Seq<Seq<char>>, EntryKind)>, n: int, k: int)
    requires
        0 <= n <= selected.len(),
        0 <= k < uncovered(selected, n).len(),
    ensures
        exists|m: int|
            0 <= m < selected.len() && #[trigger] selected[m] == uncovered(selected, n)[k]
                && !covered(selected, m),
    decreases n,
{
    let before = uncovered(selected, n - 1);
    if k < before.len() {
        lemma_kept_is_free(selected, n - 1, k);
    } else {
        assert(selected[n - 1] == uncovered(selected, n)[k]);
    }
}

proof fn lemma_free_is_kept(selected: Seq<(Seq<Seq<char>>, EntryKind)>, n: int, m: int)
    requires
        0 <= m < n <= selected.len(),
        !covered(selected, m),
    ensures
        uncovered(selected, n).contains(selected[m]),
    decreases n,
{
    let all = uncovered(selected, n);
    if m == n - 1 {
        assert(all[all.len() - 1] == selected[m]);
    } else {
        lemma_free_is_kept(selected, n - 1, m);
        let before = uncovered(selected, n - 1);
        let k = choose|k: int| 0 <= k < before.len() && before[k] == selected[m];
        assert(all[k] == selected[m]);
    }
}

/// A name is edited, or a line removed, just where nothing stands against it and the line
/// is there; a name only where the line is saved. It is that line.
pub proof fn lines_are_edited_where_they_are(
    lines: Seq<Seq<char>>,
    line: usize,
    rejection: Option<Seq<char>>,
)
    ensures
        rename_step(lines, line, rejection) == EditView::Edit(line) <==> rejection is None && line
            < lines.len() && prefix_of(lines[line as int]) is WithId,
        rename_step(lines, line, rejection) is Edit ==> rename_step(lines, line, rejection)
            == EditView::Edit(line),
        remove_step(lines, line, rejection) == EditView::Edit(line) <==> rejection is None && line
            < lines.len(),
        remove_step(lines, line, rejection) is Edit ==> remove_step(lines, line, rejection)
            == EditView::Edit(line),
{
}

/// A search candidate is opened at its place. To go to it, the cursor goes to the line that
/// shows it where the buffer still has it there; one that is folded away is unfolded unless
/// the buffer was edited; and nothing else changes.
pub proof fn candidate_is_opened_or_gone_to(
    before: SaveView,
    path: Seq<Seq<char>>,
    action: PickerAction,
    lines: Seq<Seq<char>>,
    dirty: bool,
    root: FsPathView,
)
    ensures
        ({
            let entries = before.baseline.entries;
            let (after, step) = picker_step(before, path, action, lines, dirty, root);
            &&& step is Open <==> action == PickerAction::Open
            &&& step matches PickerView::Open(place) ==> after == before && place.base == root
                && place.names == path
            &&& after == (SaveView { collapsed: after.collapsed, ..before })
            &&& after.collapsed != before.collapsed ==> !dirty && before.state is Idle
            &&& step matches PickerView::SetCursor(line) ==> after == before && line < shown(
                entries,
                before.collapsed,
            ).len() && shown(entries, before.collapsed)[line as int].id == find_path(
                entries,
                path,
            )->Some_0.id && line < lines.len() && (prefix_of(lines[line as int])
                matches PrefixView::WithId { id, .. } && id == find_path(
                entries,
                path,
            )->Some_0.id)
            &&& step matches PickerView::Reveal { lines: now, cursor_line } ==> !dirty && now
                == shown_lines(entries, after.collapsed) && cursor_line < shown(
                entries,
                after.collapsed,
            ).len() && shown(entries, after.collapsed)[cursor_line as int].id == find_path(
                entries,
                path,
            )->Some_0.id
            &&& action == PickerAction::Jump && find_path(entries, path) is None ==> step is Tell
                && after == before
            &&& action == PickerAction::Jump && find_path(entries, path) is Some && before.state
                is Idle && !dirty && position_of(
                shown(entries, before.collapsed),
                find_path(entries, path)->Some_0.id,
            ) is None ==> after == reveal_step(before, find_path(entries, path)->Some_0.id).0
        }),
{
    let entries = before.baseline.entries;
    let after = picker_step(before, path, action, lines, dirty, root).0;
    if let Some(entry) = find_path(entries, path) {
        position_is_the_first(shown(entries, before.collapsed), entry.id);
        position_is_the_first(shown(entries, after.collapsed), entry.id);
    }
}

/// Folds stay while the buffer is edited, and are told so; else a wish leads to what
/// folding leads to: lines are shown just where folds changed.
pub proof fn folds_wait_for_edits(
    before: SaveView,
    lines: Seq<Seq<char>>,
    dirty: bool,
    line: int,
    op: FoldOp,
)
    ensures
        ({
            let (after, step) = fold_request(before, lines, dirty, line, op);
            let (folded, result) = fold_step(before, lines, line, op);
            &&& dirty ==> after == before && step is Tell
            &&& !dirty ==> after == folded
            &&& step is Show <==> !dirty && result is Applied
            &&& step matches FoldStepView::Show { lines: now, cursor_line } ==> result == (
            FoldView::Applied { lines: now, cursor_line })
        }),
{
}

/// An order that is asked for without a word is told; a word that is none is told, too. The
/// tree is read again in the order that was asked for, and in no other way anew, where the
/// buffer was not edited and nothing is going on.
pub proof fn orders_are_asked_for(view: SaveView, query: Seq<char>, dirty: bool)
    ensures
        sort_request(view, None, dirty) is Tell,
        sort_request(view, Some(query), dirty) is Rescan <==> sort_query(query) is Ok && !dirty
            && view.state is Idle,
        sort_query(query) is Err ==> sort_request(view, Some(query), dirty) is Tell,
        dirty ==> sort_request(view, Some(query), dirty) is Tell,
        sort_request(view, Some(query), dirty) matches SortStepView::Rescan {
            key,
            reverse,
            options,
        } ==> sort_query(query) == Ok::<(SortKey, bool), Seq<char>>((key, reverse)) && options.key
            == key && options.reverse == reverse && options.sort == view.scan_options.sort
            && options.show_hidden == view.scan_options.show_hidden,
{
}

/// Whether a word stands for itself in an order: it is not empty, and neither a blank nor
/// an exclamation mark stands at its ends.
pub open spec fn is_plain_word(word: Seq<char>) -> bool {
    word.len() > 0 && !is_white(word[0]) && !is_white(word.last()) && word[0] != '!'
        && word.last() != '!'
}

/// A word asks for its order, with an exclamation mark in front or behind for the reverse
/// of it; blanks around do not count.
pub proof fn exclamation_marks_reverse(
    before: Seq<char>,
    word: Seq<char>,
    after: Seq<char>,
)
    requires
        all_white(before),
        all_white(after),
        is_plain_word(word),
    ensures
        sort_wish(before + word + after) == (word, false),
        sort_wish(before + (seq!['!'] + word) + after) == (word, true),
        sort_wish(before + (word + seq!['!']) + after) == (word, true),
        sort_wish(before + (seq!['!'] + word + seq!['!']) + after) == (word, true),
{
    let none: Seq<char> = Seq::empty();
    assert(none + word + none =~= word);
    trimming_gives_the_core(before, word, after);
    trimming_gives_the_core(none, word, none);
    let front = seq!['!'] + word;
    assert(front[0] == '!' && front.last() == word.last());
    assert(!is_white('!'));
    trimming_gives_the_core(before, front, after);
    assert(front.drop_first() =~= word);
    let back = word + seq!['!'];
    assert(back[0] == word[0] && back.last() == '!');
    trimming_gives_the_core(before, back, after);
    assert(back.drop_last() =~= word);
    let both = seq!['!'] + word + seq!['!'];
    assert(both[0] == '!' && both.last() == '!');
    trimming_gives_the_core(before, both, after);
    assert(both.drop_first() =~= back);
    assert(none + back + none =~= back);
    trimming_gives_the_core(none, back, none);
}

/// Every order has one word, and that word asks for it and for no other order.
pub proof fn orders_have_words(key: SortKey, other: SortKey, query: Seq<char>)
    ensures
        sort_key(sort_word(key)) == Some(key),
        key != other ==> sort_word(key) != sort_word(other),
        sort_key(query) matches Some(found) ==> query == sort_word(found),
        sort_query(query) is Ok <==> sort_key(sort_wish(query).0) is Some,
        sort_query(query) matches Ok((found, reverse)) ==> sort_wish(query) == (
            sort_word(found),
            reverse,
        ),
{
    reveal_strlit("name");
    reveal_strlit("date");
    reveal_strlit("size");
    reveal_strlit("ext");
    assert("name"@.len() == 4 && "date"@.len() == 4 && "size"@.len() == 4 && "ext"@.len() == 3);
    assert("name"@[0] == 'n' && "date"@[0] == 'd' && "size"@[0] == 's');
}

/// A path that was typed leads home for a tilde alone, below home for a tilde and a slash,
/// nowhere for another tilde or without a home, to itself where it is absolute, and below
/// the root else.
pub proof fn typed_paths_lead_somewhere(
    query: Seq<char>,
    root: FsPathView,
    home: Option<FsPathView>,
    absolute: bool,
)
    ensures
        ({
            let place = cd_place(query, root, home, absolute);
            let tilde = query.len() > 0 && query[0] == '~';
            &&& tilde && home is None ==> place is None
            &&& tilde && query.len() == 1 ==> (home matches Some(dir) ==> (place matches Some(to)
                && to.base == dir && to.names.len() == 0))
            &&& tilde && query.len() > 1 && query[1] == '/' ==> (home matches Some(dir) ==> (place
                matches Some(to) && to.base == dir && to.names == seq![query.skip(2)]))
            &&& tilde && query.len() > 1 && query[1] != '/' ==> place is None
            &&& !tilde && absolute ==> (place matches Some(to) && to.base.text == query
                && to.base.raw is None && to.names.len() == 0)
            &&& !tilde && !absolute ==> (place matches Some(to) && to.base == root && to.names
                == seq![query])
        }),
{
    reveal_strlit("~");
    reveal_strlit("~/");
    let tilde = query.len() > 0 && query[0] == '~';
    if tilde {
        assert(query.take(1) =~= "~"@);
        if query.len() == 1 {
            assert(query =~= "~"@);
        } else {
            assert(query.len() != "~"@.len());
            if query[1] == '/' {
                assert(query.take(2) =~= "~/"@);
            } else if begins_with(query, "~/"@) {
                assert(query.take(2)[1] == query[1]);
            }
        }
    } else {
        if begins_with(query, "~"@) {
            assert(query.take(1)[0] == query[0]);
        }
        if begins_with(query, "~/"@) {
            assert(query.take(2)[0] == query[0]);
        }
        if query == "~"@ {
            assert(query[0] == '~');
        }
    }
}

/// A wish to go elsewhere goes just where the typed path leads, and without one a user is
/// told where they are.
pub proof fn going_follows_the_typed_path(
    query: Seq<char>,
    root: FsPathView,
    root_text: Seq<char>,
    drives: Seq<Seq<char>>,
    home: Option<FsPathView>,
    absolute: bool,
)
    ensures
        go_step(None, root, root_text, drives, home, absolute) is Tell,
        go_step(Some(query), root, root_text, drives, home, absolute) is Tell <==> cd_place(
            query,
            root,
            home,
            absolute,
        ) is None,
        go_step(Some(query), root, root_text, drives, home, absolute) matches GoView::Go(place)
            ==> cd_place(query, root, home, absolute) == Some(place),
{
}

/// Whether a bookmark is the only one whose name begins with a query.
pub open spec fn only_match(
    bookmarks: Seq<(Seq<char>, Seq<char>)>,
    query: Seq<char>,
    i: int,
) -> bool {
    &&& 0 <= i < bookmarks.len()
    &&& begins_with(bookmarks[i].0, query)
    &&& forall|j: int|
        0 <= j < bookmarks.len() && j != i ==> !begins_with((#[trigger] bookmarks[j]).0, query)
}

/// A bookmark is meant by its name, or by a beginning that no other bookmark shares; else a
/// number means one of the recent roots, counted from one; else bookmarks that share the
/// beginning are told, all of them and in order; and a query that means nothing finds
/// nothing.
pub proof fn bookmarks_are_meant_by_name(
    query: Seq<char>,
    bookmarks: Seq<(Seq<char>, Seq<char>)>,
    recent: Seq<Seq<char>>,
)
    ensures
        ({
            let answer = bookmark_query(query, bookmarks, recent);
            let named = exists|i: int| 0 <= i < bookmarks.len() && (#[trigger] bookmarks[i]).0
                == query;
            let alone = exists|i: int| #[trigger] only_match(bookmarks, query, i);
            let matched = exists|i: int|
                0 <= i < bookmarks.len() && begins_with((#[trigger] bookmarks[i]).0, query);
            let counted = parse_number(query) matches Some(n) && 1 <= n <= recent.len();
            &&& named ==> (answer matches BookmarkView::Resolved(path) && exists|i: int|
                0 <= i < bookmarks.len() && (#[trigger] bookmarks[i]).0 == query && bookmarks[i].1
                    == path && forall|j: int|
                    0 <= j < i ==> (#[trigger] bookmarks[j]).0 != query)
            &&& !named && alone ==> (answer matches BookmarkView::Resolved(path) && exists|i: int|
                #[trigger] only_match(bookmarks, query, i) && bookmarks[i].1 == path)
            &&& !named && !alone && counted ==> answer == BookmarkView::Resolved(
                recent[parse_number(query)->Some_0 - 1],
            )
            &&& !named && !alone && !counted && matched ==> {
                &&& answer matches BookmarkView::Ambiguous(names)
                &&& names.len() == beginning_with(bookmarks, query).len()
                &&& forall|i: int|
                    0 <= i < names.len() ==> #[trigger] names[i] == beginning_with(
                        bookmarks,
                        query,
                    )[i].0
            }
            &&& !named && !matched && !counted ==> answer is NotFound
        }),
{
    lemma_named_path(bookmarks, query);
    lemma_beginning_with(bookmarks, query);
    let found = beginning_with(bookmarks, query);
    if exists|i: int| #[trigger] only_match(bookmarks, query, i) {
        let i = choose|i: int| #[trigger] only_match(bookmarks, query, i);
        lemma_only_match(bookmarks, query, i);
    } else if found.len() == 1 {
        lemma_one_match(bookmarks, query);
    }
}

proof fn lemma_named_path(bookmarks: Seq<(Seq<char>, Seq<char>)>, name: Seq<char>)
    ensures
        match named_path(bookmarks, name) {
            Some(path) => exists|i: int|
                0 <= i < bookmarks.len() && (#[trigger] bookmarks[i]).0 == name && bookmarks[i].1
                    == path && forall|j: int| 0 <= j < i ==> (#[trigger] bookmarks[j]).0 != name,
            None => forall|j: int| 0 <= j < bookmarks.len() ==> (#[trigger] bookmarks[j]).0 != name,
        },
    decreases bookmarks.len(),
{
    if bookmarks.len() > 0 {
        let shorter = bookmarks.drop_last();
        lemma_named_path(shorter, name);
        match named_path(shorter, name) {
            Some(path) => {
                let i = choose|i: int|
                    0 <= i < shorter.len() && (#[trigger] shorter[i]).0 == name && shorter[i].1
                        == path && forall|j: int| 0 <= j < i ==> (#[trigger] shorter[j]).0 != name;
                assert(bookmarks[i] == shorter[i]);
                assert forall|j: int| 0 <= j < i implies (#[trigger] bookmarks[j]).0 != name by {
                    assert(shorter[j].0 != name);
                }
            },
            None => {
                let n = bookmarks.len() - 1;
                assert forall|j: int| 0 <= j < n implies (#[trigger] bookmarks[j]).0 != name by {
                    assert(shorter[j].0 != name);
                }
                if bookmarks.last().0 == name {
                    assert(bookmarks[n].0 == name);
                }
            },
        }
    }
}

proof fn lemma_beginning_with(bookmarks: Seq<(Seq<char>, Seq<char>)>, query: Seq<char>)
    ensures
        beginning_with(bookmarks, query).len() > 0 <==> exists|i: int|
            0 <= i < bookmarks.len() && begins_with((#[trigger] bookmarks[i]).0, query),
    decreases bookmarks.len(),
{
    if bookmarks.len() > 0 {
        let shorter = bookmarks.drop_last();
        lemma_beginning_with(shorter, query);
        if exists|i: int| 0 <= i < shorter.len() && begins_with((#[trigger] shorter[i]).0, query) {
            let i = choose|i: int|
                0 <= i < shorter.len() && begins_with((#[trigger] shorter[i]).0, query);
            assert(begins_with(bookmarks[i].0, query));
        }
        if exists|i: int|
            0 <= i < bookmarks.len() && begins_with((#[trigger] bookmarks[i]).0, query) {
            let i = choose|i: int|
                0 <= i < bookmarks.len() && begins_with((#[trigger] bookmarks[i]).0, query);
            if i < shorter.len() {
                assert(begins_with(shorter[i].0, query));
            }
        }
        if begins_with(bookmarks.last().0, query) {
            assert(begins_with(bookmarks[bookmarks.len() - 1].0, query));
        }
    }
}

proof fn lemma_only_match(bookmarks: Seq<(Seq<char>, Seq<char>)>, query: Seq<char>, i: int)
    requires
        only_match(bookmarks, query, i),
    ensures
        beginning_with(bookmarks, query) == seq![bookmarks[i]],
    decreases bookmarks.len(),
{
    let shorter = bookmarks.drop_last();
    let n = bookmarks.len() - 1;
    if i < n {
        assert(!begins_with(bookmarks[n].0, query));
        assert(only_match(shorter, query, i)) by {
            assert forall|j: int| 0 <= j < shorter.len() && j != i implies !begins_with(
                (#[trigger] shorter[j]).0,
                query,
            ) by {
                assert(!begins_with(bookmarks[j].0, query));
            }
        }
        lemma_only_match(shorter, query, i);
    } else {
        lemma_beginning_with(shorter, query);
        if beginning_with(shorter, query).len() > 0 {
            let j = choose|j: int|
                0 <= j < shorter.len() && begins_with((#[trigger] shorter[j]).0, query);
            assert(begins_with(bookmarks[j].0, query));
        }
        assert(beginning_with(bookmarks, query) =~= seq![bookmarks[i]]);
    }
}

proof fn lemma_one_match(bookmarks: Seq<(Seq<char>, Seq<char>)>, query: Seq<char>)
    requires
        beginning_with(bookmarks, query).len() == 1,
    ensures
        exists|i: int| #[trigger] only_match(bookmarks, query, i),
    decreases bookmarks.len(),
{
    let shorter = bookmarks.drop_last();
    let n = bookmarks.len() - 1;
    if begins_with(bookmarks[n].0, query) {
        lemma_beginning_with(shorter, query);
        assert forall|j: int| 0 <= j < bookmarks.len() && j != n implies !begins_with(
            (#[trigger] bookmarks[j]).0,
            query,
        ) by {
            assert(shorter[j] == bookmarks[j]);
        }
        assert(only_match(bookmarks, query, n));
    } else {
        lemma_one_match(shorter, query);
        let i = choose|i: int| #[trigger] only_match(shorter, query, i);
        assert forall|j: int| 0 <= j < bookmarks.len() && j != i implies !begins_with(
            (#[trigger] bookmarks[j]).0,
            query,
        ) by {
            if j < n {
                assert(shorter[j] == bookmarks[j]);
            }
        }
        assert(only_match(bookmarks, query, i));
    }
}

/// The bookmarks whose names begin with a query come in their order, each of them.
pub proof fn matching_bookmarks_come_in_order(
    bookmarks: Seq<(Seq<char>, Seq<char>)>,
    more: Seq<(Seq<char>, Seq<char>)>,
    bookmark: (Seq<char>, Seq<char>),
    query: Seq<char>,
)
    ensures
        beginning_with(bookmarks + more, query) == beginning_with(bookmarks, query)
            + beginning_with(more, query),
        beginning_with(seq![bookmark], query) == (if begins_with(bookmark.0, query) {
            seq![bookmark]
        } else {
            Seq::empty()
        }),
    decreases more.len(),
{
    assert(seq![bookmark].drop_last() =~= Seq::empty());
    assert(beginning_with(seq![bookmark].drop_last(), query) =~= Seq::empty());
    assert(beginning_with(seq![bookmark], query) =~= (if begins_with(bookmark.0, query) {
        seq![bookmark]
    } else {
        Seq::empty()
    }));
    if more.len() == 0 {
        assert(bookmarks + more =~= bookmarks);
        assert(beginning_with(bookmarks, query) + beginning_with(more, query) =~= beginning_with(
            bookmarks,
            query,
        ));
    } else {
        matching_bookmarks_come_in_order(bookmarks, more.drop_last(), bookmark, query);
        assert((bookmarks + more).drop_last() =~= bookmarks + more.drop_last());
        assert((bookmarks + more).last() == more.last());
        assert(beginning_with(bookmarks + more, query) =~= beginning_with(bookmarks, query)
            + beginning_with(more, query));
    }
}

/// A wish for a bookmark goes just to the place that is meant.
pub proof fn going_follows_the_bookmark(
    query: Seq<char>,
    bookmarks: Seq<(Seq<char>, Seq<char>)>,
    recent: Seq<Seq<char>>,
)
    ensures
        bookmark_step(None, bookmarks, recent) is Tell,
        bookmark_step(Some(query), bookmarks, recent) is Go <==> bookmark_query(
            query,
            bookmarks,
            recent,
        ) is Resolved,
        bookmark_step(Some(query), bookmarks, recent) matches BookmarkStepView::Go(path)
            ==> bookmark_query(query, bookmarks, recent) == BookmarkView::Resolved(path),
{
}

/// Bookmarks are listed with their names and places, then recent roots with their numbers
/// from one on.
pub proof fn bookmarks_are_listed(
    bookmarks: Seq<(Seq<char>, Seq<char>)>,
    recent: Seq<Seq<char>>,
    i: int,
)
    ensures
        bookmark_entries(bookmarks, recent).len() == bookmarks.len() + recent.len(),
        0 <= i < bookmarks.len() ==> exists|front: Seq<char>, middle: Seq<char>|
            bookmark_entries(bookmarks, recent)[i] == #[trigger] (front + bookmarks[i].0 + middle
                + bookmarks[i].1),
        0 <= i < recent.len() ==> exists|middle: Seq<char>|
            bookmark_entries(bookmarks, recent)[bookmarks.len() + i] == #[trigger] (decimal(
                (i + 1) as nat,
            ) + middle + recent[i]),
{
    let all = bookmark_entries(bookmarks, recent);
    if 0 <= i < bookmarks.len() {
        assert(all[i] == "b:"@ + bookmarks[i].0 + "="@ + bookmarks[i].1);
    }
    if 0 <= i < recent.len() {
        assert(all[bookmarks.len() + i] == decimal((i + 1) as nat) + ":"@ + recent[i]);
    }
}

/// The folder that is opened is the first that is there, and the one that always is where
/// none is.
pub proof fn first_folder_that_is_there(
    candidates: Seq<(FsPathView, bool)>,
    fallback: FsPathView,
    i: int,
)
    ensures
        0 <= i < candidates.len() && candidates[i].1 && (forall|j: int|
            0 <= j < i ==> !(#[trigger] candidates[j]).1) ==> first_existing(candidates, fallback)
            == candidates[i].0,
        (forall|j: int| 0 <= j < candidates.len() ==> !(#[trigger] candidates[j]).1)
            ==> first_existing(candidates, fallback) == fallback,
    decreases candidates.len(),
{
    if candidates.len() > 0 {
        let rest = candidates.drop_first();
        assert forall|j: int| 0 <= j < rest.len() implies #[trigger] rest[j] == candidates[j
            + 1] by {}
        first_folder_that_is_there(rest, fallback, i - 1);
        if 0 <= i < candidates.len() && candidates[i].1 && (forall|j: int|
            0 <= j < i ==> !(#[trigger] candidates[j]).1) && i > 0 {
            assert(!candidates[0].1);
            assert(rest[i - 1] == candidates[i]);
            assert forall|j: int| 0 <= j < i - 1 implies !(#[trigger] rest[j]).1 by {
                assert(!candidates[j + 1].1);
            }
        }
        if forall|j: int| 0 <= j < candidates.len() ==> !(#[trigger] candidates[j]).1 {
            assert(!candidates[0].1);
            assert forall|j: int| 0 <= j < rest.len() implies !(#[trigger] rest[j]).1 by {
                assert(!candidates[j + 1].1);
            }
        }
    }
}

/// Before a candidate can be shown, the directory nearest to the top that stands above it
/// and is not loaded is loaded; where all are, none is.
pub proof fn top_directory_is_loaded_first(
    target: Seq<Seq<char>>,
    unloaded: Seq<Seq<Seq<char>>>,
)
    ensures
        match first_unloaded(target, unloaded, 1) {
            Some(dir) => {
                &&& 1 <= dir.len() < target.len()
                &&& dir == target.take(dir.len() as int)
                &&& unloaded.contains(dir)
                &&& forall|n: int|
                    1 <= n < dir.len() ==> !unloaded.contains(#[trigger] target.take(n))
            },
            None => forall|n: int|
                1 <= n < target.len() ==> !unloaded.contains(#[trigger] target.take(n)),
        },
{
    lemma_first_unloaded(target, unloaded, 1);
}

proof fn lemma_first_unloaded(
    target: Seq<Seq<char>>,
    unloaded: Seq<Seq<Seq<char>>>,
    depth: nat,
)
    ensures
        match first_unloaded(target, unloaded, depth) {
            Some(dir) => {
                &&& depth <= dir.len() < target.len()
                &&& dir == target.take(dir.len() as int)
                &&& unloaded.contains(dir)
                &&& forall|n: int|
                    depth <= n < dir.len() ==> !unloaded.contains(#[trigger] target.take(n))
            },
            None => forall|n: int|
                depth <= n < target.len() ==> !unloaded.contains(#[trigger] target.take(n)),
        },
    decreases target.len() - depth,
{
    if depth < target.len() && !unloaded.contains(target.take(depth as int)) {
        lemma_first_unloaded(target, unloaded, depth + 1);
        match first_unloaded(target, unloaded, depth + 1) {
            Some(dir) => {
                assert forall|n: int| depth <= n < dir.len() implies !unloaded.contains(
                    #[trigger] target.take(n),
                ) by {
                    if n == depth {
                    }
                }
            },
            None => {
                assert forall|n: int| depth <= n < target.len() implies !unloaded.contains(
                    #[trigger] target.take(n),
                ) by {
                    if n == depth {
                    }
                }
            },
        }
    } else if depth < target.len() {
        assert(target.take(depth as int).len() == depth);
    }
}

/// A user can choose from every program, by its name and in order, and from the system's
/// own question behind them.
pub proof fn programs_are_offered_in_order(handlers: Seq<OpenWithHandler>, i: int)
    ensures
        open_choices(handlers).len() == handlers.len() + 1,
        0 <= i < handlers.len() ==> open_choices(handlers)[i] == handlers[i].display_name@,
{
}

/// The keys for an action are all that are bound to it, in order.
pub proof fn keys_come_in_order(
    bindings: Seq<KeyBinding>,
    more: Seq<KeyBinding>,
    binding: KeyBinding,
    action: u32,
)
    ensures
        keys_for(bindings + more, action) == keys_for(bindings, action) + keys_for(more, action),
        keys_for(seq![binding], action) == (if binding.action == action {
            seq![binding.sequence@]
        } else {
            Seq::empty()
        }),
    decreases more.len(),
{
    assert(seq![binding].drop_last() =~= Seq::empty());
    assert(keys_for(seq![binding].drop_last(), action) =~= Seq::empty());
    assert(keys_for(seq![binding], action) =~= (if binding.action == action {
        seq![binding.sequence@]
    } else {
        Seq::<Seq<char>>::empty()
    }));
    if more.len() == 0 {
        assert(bindings + more =~= bindings);
        assert(keys_for(bindings, action) + keys_for(more, action) =~= keys_for(bindings, action));
    } else {
        keys_come_in_order(bindings, more.drop_last(), binding, action);
        assert((bindings + more).drop_last() =~= bindings + more.drop_last());
        assert((bindings + more).last() == more.last());
        assert(keys_for(bindings + more, action) =~= keys_for(bindings, action) + keys_for(
            more,
            action,
        ));
    }
}

/// Hidden files are shown where they were not and not where they were, once the tree was
/// read so; else nothing changes. The lines are shown, or the reason is told.
pub proof fn hidden_files_are_turned(before: SaveView, scan: ScanView, failed: Seq<char>)
    ensures
        ({
            let (after, result) = hidden_step(before, scan);
            &&& result is Ok <==> before.state is Idle && scan is Scanned
            &&& result is Ok ==> after.scan_options.show_hidden
                == !before.scan_options.show_hidden && after.baseline == scan->Scanned_0
            &&& result is Err ==> after == before
            &&& rescanned(result, failed) is Show <==> result is Ok
            &&& result matches Ok(lines) ==> rescanned(result, failed) == RescanView::Show(lines)
        }),
{
}

/// A name leads to the first line without indentation that shows it.
pub proof fn name_leads_to_its_line(lines: Seq<Seq<char>>, name: Seq<char>)
    ensures
        match top_level_line(lines, name) {
            Some(at) => at < lines.len() && top_level_name(lines[at as int]) == Some(name)
                && forall|k: int|
                0 <= k < at ==> top_level_name(#[trigger] lines[k]) != Some(name),
            None => forall|k: int|
                0 <= k < lines.len() ==> top_level_name(#[trigger] lines[k]) != Some(name),
        },
    decreases lines.len(),
{
    if lines.len() > 0 {
        let shorter = lines.drop_last();
        name_leads_to_its_line(shorter, name);
        match top_level_line(shorter, name) {
            Some(at) => {
                assert(lines[at as int] == shorter[at as int]);
                assert forall|k: int| 0 <= k < at implies top_level_name(#[trigger] lines[k])
                    != Some(name) by {
                    assert(shorter[k] == lines[k]);
                }
            },
            None => {
                assert forall|k: int| 0 <= k < shorter.len() implies top_level_name(
                    #[trigger] lines[k],
                ) != Some(name) by {
                    assert(shorter[k] == lines[k]);
                }
            },
        }
    }
}

/// A line shows a name at the top just where it has a number, no indentation, and that name
/// with or without the slash of a directory.
pub proof fn names_at_the_top(line: Seq<char>, name: Seq<char>)
    ensures
        top_level_name(line) == Some(name) <==> (prefix_of(line) matches PrefixView::WithId {
            rest,
            ..
        } && !(rest.len() >= 2 && rest[0] == ' ' && rest[1] == ' ') && (rest == name.push('/') || (
        rest == name && !(name.len() > 0 && name.last() == '/')))),
{
    if let PrefixView::WithId { rest, .. } = prefix_of(line) {
        if !(rest.len() >= 2 && rest[0] == ' ' && rest[1] == ' ') {
            assert(after_indent(rest) == rest);
            if rest.len() > 0 && rest.last() == '/' {
                assert(rest.drop_last().push('/') =~= rest);
            }
            if rest == name.push('/') {
                assert(rest.drop_last() =~= name);
            }
        }
    }
}

/// Directories that were loaded are taken with the tree that was read; then the line is
/// unfolded as a toggle or as the wish of before does. A result that came too late changes
/// nothing.
pub proof fn loaded_directories_are_unfolded(
    before: SaveView,
    kind: LoaderKindView,
    fresh: ReconciledView,
    error: Seq<char>,
    lines: Seq<Seq<char>>,
)
    requires
        kind is Directory || kind is Recursive,
    ensures
        directory_loaded(before, kind, Err(error), lines).0 == before,
        directory_loaded(before, kind, Err(error), lines).1 is Tell,
        ({
            let now = SaveView { baseline: fresh.baseline, collapsed: fresh.collapsed, ..before };
            let (after, step) = directory_loaded(before, kind, Ok(fresh), lines);
            match kind {
                LoaderKindView::Directory { line, .. } => {
                    &&& after == toggle_step(now, lines, line as int).0
                    &&& step is Show <==> toggle_step(now, lines, line as int).1 is Toggled
                    &&& step matches LoadView::Show { lines: shown_now, cursor_line }
                        ==> cursor_line == Some(line as nat) && shown_now == shown_lines(
                        after.baseline.entries,
                        after.collapsed,
                    )
                },
                LoaderKindView::Recursive { line, op, .. } => {
                    &&& after == fold_step(now, lines, line as int, op).0
                    &&& step is Show <==> fold_step(now, lines, line as int, op).1 is Applied
                        || fold_step(now, lines, line as int, op).1 is NoOp
                    &&& step matches LoadView::Show { lines: shown_now, .. } ==> shown_now
                        == shown_lines(after.baseline.entries, after.collapsed)
                },
                _ => true,
            }
        }),
{
}

/// Another root that was loaded and can be watched is shown with every directory folded
/// away and the cursor on the entry that is looked for; else the tree stays.
pub proof fn loaded_root_is_shown_folded(
    before: SaveView,
    root: FsPathView,
    root_text: Seq<char>,
    baseline: BaselineView,
    roots_match: bool,
    cursor_target: Option<Seq<char>>,
    unwatched: Option<Seq<char>>,
    id: u64,
)
    ensures
        ({
            let (after, step) = root_loaded(
                before,
                root,
                root_text,
                baseline,
                roots_match,
                cursor_target,
                unwatched,
            );
            &&& step is Show <==> unwatched is None && before.state is Idle && roots_match
            &&& step is Tell ==> after == before
            &&& step matches LoadView::Show { lines, cursor_line } ==> {
                &&& after.root == root && after.baseline == baseline
                &&& after.collapsed.contains(id) <==> exists|k: int|
                    0 <= k < baseline.entries.len() && (#[trigger] baseline.entries[k]).id.0 == id
                        && baseline.entries[k].kind == EntryKind::Dir
                &&& lines == shown_lines(baseline.entries, after.collapsed)
                &&& cursor_target is None ==> cursor_line is None
                &&& cursor_target matches Some(name) ==> cursor_line == top_level_line(lines, name)
            }
        }),
{
    folds_at_places(baseline.entries, Seq::empty(), Seq::empty(), id);
}

/// Once a directory above a candidate was loaded, the candidate is gone to where it is
/// there now, the next directory above it is loaded where it is not, and it is told where
/// nothing is left to load.
pub proof fn candidate_is_come_closer_to(
    before: SaveView,
    target: Seq<Seq<char>>,
    action: PickerAction,
    fresh: ReconciledView,
    error: Seq<char>,
    unloaded: Seq<Seq<Seq<char>>>,
    lines: Seq<Seq<char>>,
    dirty: bool,
    root: FsPathView,
    busy: bool,
    crashed: bool,
)
    ensures
        ({
            let (after, step) = reveal_loaded(
                before,
                target,
                action,
                Err(error),
                unloaded,
                lines,
                dirty,
                root,
            );
            after == before && (step matches RevealLoadView::Done(PickerView::Tell(_)))
        }),
        ({
            let now = SaveView { baseline: fresh.baseline, collapsed: fresh.collapsed, ..before };
            let there = exists|k: int|
                0 <= k < fresh.baseline.entries.len() && (
                #[trigger] fresh.baseline.entries[k]).path == target;
            let (after, step) = reveal_loaded(
                before,
                target,
                action,
                Ok(fresh),
                unloaded,
                lines,
                dirty,
                root,
            );
            let next = first_unloaded(target, unloaded, 1);
            &&& there ==> after == picker_step(now, target, action, lines, dirty, root).0 && step
                == RevealLoadView::Done(picker_step(now, target, action, lines, dirty, root).1)
            &&& !there ==> after == now
            &&& !there && next is Some ==> step == RevealLoadView::Load(next->Some_0)
            &&& !there && next is None ==> (step matches RevealLoadView::Done(PickerView::Tell(_)))
        }),
        ({
            let there = exists|k: int|
                0 <= k < before.baseline.entries.len() && (
                #[trigger] before.baseline.entries[k]).path == target;
            let (after, step) = candidate_chosen(
                before,
                target,
                action,
                unloaded,
                lines,
                dirty,
                root,
                busy,
                crashed,
            );
            let next = first_unloaded(target, unloaded, 1);
            let loads = action == PickerAction::Jump && !there && next is Some;
            &&& step is Load <==> loads && !dirty && !busy && !crashed && before.state is Idle
            &&& step matches RevealLoadView::Load(dir) ==> next == Some(dir)
            &&& loads ==> after == before
            &&& !loads ==> after == picker_step(before, target, action, lines, dirty, root).0
                && step == RevealLoadView::Done(
                picker_step(before, target, action, lines, dirty, root).1,
            )
        }),
{
    place_leads_to_its_entry(fresh.baseline.entries, target);
    place_leads_to_its_entry(before.baseline.entries, target);
}

/// What a save or an undo is answered is shown whole: a plan, its errors and its report as
/// they are, a dialog is closed where its question is over, and a worker that begins or a
/// word that does not count is not told.
pub proof fn answers_are_shown(result: SaveFlowResult)
    ensures
        result matches SaveFlowResult::ShowPlan { plan, warnings, overwrites } ==> save_notices(
            result,
        ).len() == 1 && (save_notices(result)[0] matches SaveNoticeView::ShowPlan {
            plan: p,
            warnings: w,
            overwrites: o,
        } && p == plan@ && w == warnings_view(warnings@) && o
            == paths_view(overwrites@)),
        result matches SaveFlowResult::ShowValidationErrors(errors) ==> save_notices(result) == seq![
            SaveNoticeView::ShowValidationErrors(errors_view(errors@)),
        ],
        result matches SaveFlowResult::ShowReport(report) ==> save_notices(result) == seq![
            SaveNoticeView::ShowReport(report_view(report.results@)),
        ],
        result matches SaveFlowResult::ReconcileFailed { report, .. } ==> save_notices(result).len()
            == 2 && save_notices(result)[0] == SaveNoticeView::ShowReport(
            report_view(report.results@),
        ) && save_notices(result)[1] is Tell,
        result is Cancelled || result is UndoCancelled ==> save_notices(result) == seq![
            SaveNoticeView::CloseDialog,
        ],
        result is PlanInvalidated || result is UndoInvalidated ==> save_notices(result).len() == 2
            && save_notices(result)[0] is CloseDialog && save_notices(result)[1] is Tell,
        result is StartApply || result is StartUndo || result is ApplyCancelRequested || result
            is Ignored || result is ExternalChanged ==> save_notices(result).len() == 0,
        result is NoChanges || result is UndoNothingLeft || result is ExternalChangeNotified
            || result is ExternalChangeFailed || result is WentOffline || result is Reconnected
            || result is OfflineRejected ==> save_notices(result).len() == 1 && save_notices(
            result,
        )[0] is Tell,
        result is ShowUndoPlan ==> save_notices(result).len() == 1 && save_notices(result)[0]
            is ShowUndoPlan,
        result matches SaveFlowResult::ShowUndoReport(report) ==> save_notices(result).len() == 1
            && (save_notices(result)[0] matches SaveNoticeView::ShowUndoReport { any_failed, .. }
            && any_failed == exists|i: int|
            0 <= i < report.results@.len() && (#[trigger] report.results@[i]).outcome is Failed),
{
}

} // verus!
