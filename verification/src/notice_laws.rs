//! What is shown beside entries, and what a user is told.

use vstd::prelude::*;

use crate::baseline::{EntryMeta, EntryView};
use crate::changes::{groups_map, keys_ascend, ChangeGroup};
use crate::commands::{action_lines, keys_for, open_with_error, KeyBinding, OpenWithChoice};
use crate::config::{
    bookmark_keys, config_of, default_config, defined_before, defined_names, named_within, with_new,
    ConfigFactsView,
};
use crate::desk::{LoaderKindView, LoaderView};
use crate::extract_flow::{confirm_line, extract_lines, ExtractOp, ExtractPlanView};
use crate::fs_path::{compared, FsPathView};
use crate::import_flow::DropEffect;
use crate::loading::unloaded_message;
use crate::manifest_reader::string_field;
use crate::notices::{told_of, MessageKind, MessageView};
use crate::report::{outcome_line, start_failure, OpResult, Worker};
use crate::save_flow::{badge_at, badges, infos};
use crate::startup::{trouble_text, StartTrouble};
use crate::text::{decimal, joined_texts};
use crate::toml_doc::{
    calm, list_items, lookup, nested_list, parsed, shown, value_text, with_entry, writable, Toml,
    MAX_LEVELS,
};
use crate::tree::{join_path, TreePath};
use crate::tree_commands::clipboard_text;
use crate::undo_format::recovery_line;
use crate::undo_journal::{
    manifest_text_state, state_text, state_update_keeps_the_rest, transaction_path, Entries,
    JournalEntry, JournalState, ManifestWrite, UndoJournal,
};
use crate::warnings::{warning_text, BackupReason, PlanWarningView};

verus! {

/// A place has the mark of the first status about it, and none where no status is about it.
pub proof fn first_status_marks_a_place<B>(
    statuses: Seq<(TreePath, B)>,
    path: Seq<Seq<char>>,
    i: int,
)
    ensures
        0 <= i < statuses.len() && statuses[i].0@ == path && (forall|j: int|
            0 <= j < i ==> (#[trigger] statuses[j]).0@ != path) ==> badge_at(statuses, path)
            == Some(statuses[i].1),
        (forall|j: int| 0 <= j < statuses.len() ==> (#[trigger] statuses[j]).0@ != path)
            ==> badge_at(statuses, path) is None,
    decreases statuses.len(),
{
    if statuses.len() > 0 {
        let rest = statuses.drop_first();
        first_status_marks_a_place(rest, path, i - 1);
        if 0 <= i < statuses.len() && statuses[i].0@ == path && (forall|j: int|
            0 <= j < i ==> (#[trigger] statuses[j]).0@ != path) && i > 0 {
            assert(statuses[0].0@ != path);
            assert(rest[i - 1] == statuses[i]);
            assert forall|j: int| 0 <= j < i - 1 implies (#[trigger] rest[j]).0@ != path by {
                assert(statuses[j + 1].0@ != path);
            }
        }
        if forall|j: int| 0 <= j < statuses.len() ==> (#[trigger] statuses[j]).0@ != path {
            assert(statuses[0].0@ != path);
            assert forall|j: int| 0 <= j < rest.len() implies (#[trigger] rest[j]).0@ != path by {
                assert(statuses[j + 1].0@ != path);
            }
        }
    }
}

/// Each entry has the mark of its place, and nothing else has one.
pub proof fn entries_are_marked<B>(
    entries: Seq<EntryView>,
    statuses: Seq<(TreePath, B)>,
    i: int,
    number: u64,
)
    requires
        forall|a: int, b: int|
            0 <= a < b < entries.len() ==> (#[trigger] entries[a]).id != (#[trigger] entries[b]).id,
    ensures
        0 <= i < entries.len() ==> (match badge_at(statuses, entries[i].path) {
            Some(badge) => badges(entries, statuses).contains_key(entries[i].id.0) && badges(
                entries,
                statuses,
            )[entries[i].id.0] == badge,
            None => !badges(entries, statuses).contains_key(entries[i].id.0),
        }),
        badges(entries, statuses).contains_key(number) ==> exists|k: int|
            0 <= k < entries.len() && (#[trigger] entries[k]).id.0 == number,
    decreases entries.len(),
{
    if entries.len() > 0 {
        let shorter = entries.drop_last();
        let n = entries.len() - 1;
        assert forall|a: int, b: int| 0 <= a < b < shorter.len() implies (#[trigger] shorter[a]).id
            != (#[trigger] shorter[b]).id by {
            assert(entries[a].id != entries[b].id);
        }
        entries_are_marked(shorter, statuses, i, number);
        entries_are_marked(shorter, statuses, i, entries[n].id.0);
        if badges(shorter, statuses).contains_key(entries[n].id.0) {
            let k = choose|k: int|
                0 <= k < shorter.len() && (#[trigger] shorter[k]).id.0 == entries[n].id.0;
            assert(entries[k].id != entries[n].id);
        }
        if badges(shorter, statuses).contains_key(number) {
            let k = choose|k: int| 0 <= k < shorter.len() && (#[trigger] shorter[k]).id.0 == number;
            assert(entries[k].id.0 == number);
        }
        if 0 <= i < n {
            assert(shorter[i] == entries[i]);
            assert(entries[i].id != entries[n].id);
        }
        assert(entries[n] == entries.last());
    }
}

/// What is known of an entry is shown beside it, and nothing else is.
pub proof fn entries_show_what_is_known(
    entries: Seq<EntryView>,
    metas: Map<u64, EntryMeta>,
    number: u64,
)
    ensures
        infos(entries, metas).contains_key(number) <==> metas.contains_key(number) && exists|k: int|
            0 <= k < entries.len() && (#[trigger] entries[k]).id.0 == number,
        infos(entries, metas).contains_key(number) ==> infos(entries, metas)[number]
            == metas[number],
    decreases entries.len(),
{
    if entries.len() > 0 {
        let shorter = entries.drop_last();
        let n = entries.len() - 1;
        entries_show_what_is_known(shorter, metas, number);
        if exists|k: int| 0 <= k < shorter.len() && (#[trigger] shorter[k]).id.0 == number {
            let k = choose|k: int| 0 <= k < shorter.len() && (#[trigger] shorter[k]).id.0 == number;
            assert(entries[k].id.0 == number);
        }
        if exists|k: int| 0 <= k < entries.len() && (#[trigger] entries[k]).id.0 == number {
            let k = choose|k: int| 0 <= k < entries.len() && (#[trigger] entries[k]).id.0 == number;
            if k < n {
                assert(shorter[k].id.0 == number);
            }
        }
        assert(entries[n] == entries.last());
    }
}

/// Groups of changes are found by their keys.
pub proof fn groups_are_found_by_key(groups: Seq<ChangeGroup>, i: int, key: u64)
    requires
        keys_ascend(groups),
    ensures
        0 <= i < groups.len() ==> groups_map(groups).contains_key(groups[i].key) && groups_map(
            groups,
        )[groups[i].key] == groups[i]@,
        groups_map(groups).contains_key(key) ==> exists|k: int|
            0 <= k < groups.len() && (#[trigger] groups[k]).key == key,
    decreases groups.len(),
{
    if groups.len() > 0 {
        let shorter = groups.drop_last();
        let n = groups.len() - 1;
        assert(keys_ascend(shorter)) by {
            assert forall|a: int, b: int| 0 <= a < b < shorter.len() implies (
            #[trigger] shorter[a]).key < (#[trigger] shorter[b]).key by {
                assert(groups[a].key < groups[b].key);
            }
        }
        groups_are_found_by_key(shorter, i, key);
        if 0 <= i < n {
            assert(shorter[i] == groups[i]);
            assert(groups[i].key < groups[n].key);
        }
        assert(groups[n] == groups.last());
        if groups_map(shorter).contains_key(key) {
            let k = choose|k: int| 0 <= k < shorter.len() && (#[trigger] shorter[k]).key == key;
            assert(groups[k].key == key);
        }
    }
}

/// An action stands in the help once, where it is bound first, with all its keys and its
/// description.
pub proof fn actions_are_explained_once(bindings: Seq<KeyBinding>, n: int)
    requires
        0 < n <= bindings.len(),
    ensures
        action_lines(bindings, 0).len() == 0,
        (exists|j: int|
            0 <= j < n - 1 && (#[trigger] bindings[j]).action == bindings[n - 1].action)
            ==> action_lines(bindings, n) == action_lines(bindings, n - 1),
        (forall|j: int|
            0 <= j < n - 1 ==> (#[trigger] bindings[j]).action != bindings[n - 1].action)
            ==> action_lines(bindings, n) == action_lines(bindings, n - 1).push(
            joined_texts(keys_for(bindings, bindings[n - 1].action), ", "@) + "  "@
                + bindings[n - 1].description@,
        ),
{
}

/// A failed load is told of with its reason: for a directory it is a warning, for a root an
/// error, and a search candidate that could not be come to may have changed. One that was
/// cancelled is told of just where a user saw a dialog meanwhile.
pub proof fn failed_loads_are_told(owner: LoaderView, error: Seq<char>, target: Seq<char>)
    ensures
        ({
            let told = unloaded_message(owner, Some(error), target);
            &&& told is Some
            &&& told->Some_0.kind == MessageKind::Error <==> owner.kind is Root
            &&& told->Some_0.kind == MessageKind::Warn <==> !(owner.kind is Root)
            &&& !(owner.kind is PickerReveal) ==> told->Some_0.text == "Failed to load "@ + target
                + ": "@ + error
        }),
        unloaded_message(owner, None, target) matches Some(told) ==> told.kind
            == MessageKind::Info,
        unloaded_message(owner, None, target) is Some <==> match owner.kind {
            LoaderKindView::Root { .. } => true,
            LoaderKindView::Directory { .. } => false,
            LoaderKindView::Recursive { .. } => true,
            LoaderKindView::PickerReveal { .. } => false,
        },
{
}

/// What went well is not told of; what did not is, with its reason.
pub proof fn only_failures_are_told(kind: MessageKind, words: Seq<char>, error: Seq<char>)
    ensures
        told_of(kind, words, Ok(())) is None,
        told_of(kind, words, Err(error)) == Some(MessageView { kind, text: words + error }),
{
}

/// A worker or a part of the start that failed is told of with the reason at the end.
pub proof fn failures_end_with_their_reason(
    worker: Worker,
    trouble: StartTrouble,
    error: Seq<char>,
)
    ensures
        start_failure(worker, error) == start_failure(worker, Seq::empty()) + error,
        trouble_text(trouble, error) == trouble_text(trouble, Seq::empty()) + error,
        start_failure(worker, Seq::empty()).len() > 0,
        trouble_text(trouble, Seq::empty()).len() > 0,
{
    reveal_strlit("Failed to start apply worker: ");
    reveal_strlit("Failed to start undo worker: ");
    reveal_strlit("Failed to start transfer worker: ");
    reveal_strlit("Failed to start loader worker: ");
    reveal_strlit("Could not restore the previous session; starting with one pane: ");
    reveal_strlit("Failed to open undo journal. The next apply cannot be undone: ");
    reveal_strlit("Failed to scan undo journal at startup: ");
    assert(start_failure(worker, error) =~= start_failure(worker, Seq::empty()) + error);
    assert(trouble_text(trouble, error) =~= trouble_text(trouble, Seq::empty()) + error);
}

/// A choice out of range is refused; what came of any other choice is what is told.
pub proof fn choices_out_of_range_are_refused(
    choice: OpenWithChoice,
    index: nat,
    done: Result<(), Seq<char>>,
)
    ensures
        choice is OutOfRange ==> open_with_error(choice, index, done) is Err,
        !(choice is OutOfRange) ==> open_with_error(choice, index, done) == done,
{
}

/// A path is the same as itself, and one that is no Unicode text is the same as no other.
pub proof fn path_is_the_same_as_itself(a: FsPathView, b: FsPathView, same: bool)
    ensures
        compared(a, a, same) ==> same,
        (a.raw is Some || b.raw is Some) && compared(a, b, same) ==> (same <==> a == b),
{
}

/// Each entry of an archive has a line, with its name and what came of it.
pub proof fn extracted_entries_have_lines(results: Seq<OpResult<ExtractOp>>, i: int)
    ensures
        extract_lines(results).len() == results.len(),
        0 <= i < results.len() ==> extract_lines(results)[i] == outcome_line(
            "EXTRACT "@ + results[i].op.name@,
            results[i].outcome,
        ),
{
}

/// A list within a table is found by two keys, and what is no list has no items.
pub proof fn nested_lists_are_found(
    table: Entries,
    outer: Seq<char>,
    inner: Seq<char>,
    items: Seq<Toml>,
)
    ensures
        (lookup(table, outer) matches Some(Toml::Table(nested)) && lookup(nested, inner) == Some(
            Toml::Array(items),
        )) ==> nested_list(table, outer, inner) == items,
        !(lookup(table, outer) matches Some(Toml::Table(_))) ==> nested_list(
            table,
            outer,
            inner,
        ).len() == 0,
        list_items(Some(Toml::Array(items))) == items,
        list_items(None).len() == 0,
{
}

/// A value is shown as it is written where every value in it can be, and not at all where
/// one cannot.
pub proof fn calm_values_are_shown(items: Seq<Toml>, table: Entries, i: int, value: Toml)
    ensures
        0 <= i < items.len() && !calm(items[i]) ==> !calm(Toml::Array(items)),
        0 <= i < table.len() && !calm(table[i].1) ==> !calm(Toml::Table(table)),
        items.len() == 0 ==> calm(Toml::Array(items)),
        table.len() == 0 ==> calm(Toml::Table(table)),
        calm(value) ==> calm(Toml::Array(seq![value])),
        calm(value) ==> shown(value) == value_text(value),
        !calm(value) ==> shown(value).len() == 0,
{
    reveal_with_fuel(calm, 2);
    let one = seq![value];
    assert(one[0] == value);
    let list = Toml::Array(items);
    assert(list->Array_0 == items);
    if calm(list) && 0 <= i < items.len() {
        assert(calm(list->Array_0[i]));
    }
    let whole = Toml::Table(table);
    assert(whole->Table_0 == table);
    if calm(whole) && 0 <= i < table.len() {
        assert(calm(whole->Table_0[i].1));
    }
}

/// Where nothing is set, the settings are the defaults.
pub proof fn nothing_set_means_defaults(table: Entries, order: Seq<Seq<char>>, facts: ConfigFactsView)
    requires
        table.len() == 0,
    ensures
        config_of(table, order, facts) == default_config(),
{
    assert(table =~= Seq::empty());
    assert(forall|key: Seq<char>| #[trigger] lookup(table, key) is None);
}

/// Names come behind those that were there, each once, and none is lost.
pub proof fn new_names_come_behind(names: Seq<Seq<char>>, found: Seq<Seq<char>>, name: Seq<char>)
    ensures
        with_new(names, found).contains(name) <==> names.contains(name) || found.contains(name),
        names.len() <= with_new(names, found).len(),
        with_new(names, found).take(names.len() as int) == names,
        names.no_duplicates() ==> with_new(names, found).no_duplicates(),
    decreases found.len(),
{
    if found.len() == 0 {
        assert(names.take(names.len() as int) =~= names);
    } else {
        let shorter = found.drop_last();
        let last = found.last();
        new_names_come_behind(names, shorter, name);
        new_names_come_behind(names, shorter, last);
        let before = with_new(names, shorter);
        let all = with_new(names, found);
        assert(found[found.len() - 1] == last);
        if shorter.contains(name) {
            let k = choose|k: int| 0 <= k < shorter.len() && shorter[k] == name;
            assert(found[k] == name);
        }
        if found.contains(name) && name != last {
            let k = choose|k: int| 0 <= k < found.len() && found[k] == name;
            assert(shorter[k] == name);
        }
        if !before.contains(last) {
            assert(all == before.push(last));
            assert(all[before.len() as int] == last);
            assert(all.take(names.len() as int) =~= before.take(names.len() as int));
            if before.contains(name) {
                let k = choose|k: int| 0 <= k < before.len() && before[k] == name;
                assert(all[k] == name);
            }
            if all.contains(name) {
                let k = choose|k: int| 0 <= k < all.len() && all[k] == name;
                if k < before.len() {
                    assert(before[k] == name);
                }
            }
            if names.no_duplicates() {
                assert forall|a: int, b: int|
                    0 <= a < all.len() && 0 <= b < all.len() && a != b implies all[a] != all[b] by {
                    if a < before.len() && b < before.len() {
                        assert(before[a] != before[b]);
                    } else if a < before.len() {
                        assert(before.contains(before[a]));
                    } else {
                        assert(before.contains(before[b]));
                    }
                }
            }
        }
    }
}

/// Every bookmark that a text defines is named.
pub proof fn defined_bookmarks_are_named(source: Seq<char>, name: Seq<char>)
    requires
        source.len() > 0,
        bookmark_keys(source) matches Some(found) && found.contains(name),
    ensures
        defined_names(source).contains(name),
{
    let n = source.len() as int;
    let (names, from) = defined_before(source, n - 1);
    let found = bookmark_keys(source)->Some_0;
    assert(source.take(n) =~= source);
    new_names_come_behind(names, found, name);
    new_names_come_behind(named_within(source, from, n, names), found, name);
}

/// The bookmarks that a text defines are named in the order of their lines: each line adds
/// those that it defines behind those of the lines before it, and none is lost.
pub proof fn bookmarks_are_named_in_order(source: Seq<char>, n: int, name: Seq<char>)
    requires
        0 < n <= source.len(),
    ensures
        ({
            let before = defined_before(source, n - 1).0;
            let after = defined_before(source, n).0;
            let ends = n == source.len() || source[n - 1] == '\n';
            &&& before.len() <= after.len()
            &&& after.take(before.len() as int) == before
            &&& !ends ==> after == before
            &&& ends && (bookmark_keys(source.take(n)) matches Some(found) && found.contains(name))
                ==> after.contains(name)
        }),
{
    let (before, from) = defined_before(source, n - 1);
    assert(before.take(before.len() as int) =~= before);
    if let Some(found) = bookmark_keys(source.take(n)) {
        new_names_come_behind(before, found, name);
        lemma_named_within(source, from, n, before);
        let within = named_within(source, from, n, before);
        new_names_come_behind(within, found, name);
        let all = with_new(within, found);
        assert(all.take(before.len() as int) =~= all.take(within.len() as int).take(
            before.len() as int,
        ));
    }
}

proof fn lemma_named_within(source: Seq<char>, from: int, to: int, names: Seq<Seq<char>>)
    ensures
        names.len() <= named_within(source, from, to, names).len(),
        named_within(source, from, to, names).take(names.len() as int) == names,
    decreases to - from,
{
    if to <= from {
        assert(names.take(names.len() as int) =~= names);
    } else {
        lemma_named_within(source, from, to - 1, names);
        let before = named_within(source, from, to - 1, names);
        if let Some(found) = bookmark_keys(source.take(to - 1).push('}')) {
            new_names_come_behind(before, found, Seq::empty());
            let all = with_new(before, found);
            assert(all.take(names.len() as int) =~= all.take(before.len() as int).take(
                names.len() as int,
            ));
        }
    }
}

/// The bookmarks of a text are the keys of its table of bookmarks; a document without one
/// has none.
pub proof fn bookmarks_are_the_keys_of_their_table(
    source: Seq<char>,
    table: Entries,
    bookmarks: Entries,
)
    requires
        parsed(source) == Ok::<Toml, Seq<char>>(Toml::Table(table)),
    ensures
        lookup(table, "bookmarks"@) == Some(Toml::Table(bookmarks)) ==> (
        bookmark_keys(source) matches Some(found) && found.len() == bookmarks.len() && forall|i: int|
            0 <= i < found.len() ==> #[trigger] found[i] == bookmarks[i].0),
        lookup(table, "bookmarks"@) is None ==> (bookmark_keys(source) matches Some(found)
            && found.len() == 0),
{
}

/// A question about an archive names the archive, where it goes, how much of it there is and
/// how large that is; a single entry is counted as one.
pub proof fn archives_are_asked_about(plan: ExtractPlanView, size: Seq<char>)
    ensures
        plan.ops.len() == 1 ==> confirm_line(plan, size) == "EXTRACT "@ + plan.archive.text
            + " → "@ + plan.dest_dir.text + "/ ("@ + decimal(1) + " entry, ~"@ + size + " MB)"@,
        plan.ops.len() != 1 ==> confirm_line(plan, size) == "EXTRACT "@ + plan.archive.text
            + " → "@ + plan.dest_dir.text + "/ ("@ + decimal(plan.ops.len()) + " entries, ~"@
            + size + " MB)"@,
{
}

/// What went to the clipboard is counted, and a single item as one; what is to be moved is
/// cut.
pub proof fn clipboard_items_are_counted(count: nat)
    ensures
        clipboard_text(DropEffect::Copy, 1) == "Copied "@ + decimal(1) + " item to clipboard"@,
        clipboard_text(DropEffect::Move, 1) == "Cut "@ + decimal(1) + " item to clipboard"@,
        count != 1 ==> clipboard_text(DropEffect::Copy, count) == "Copied "@ + decimal(count)
            + " items to clipboard"@,
        count != 1 ==> clipboard_text(DropEffect::Move, count) == "Cut "@ + decimal(count)
            + " items to clipboard"@,
{
}

/// A transaction that needs a decision is told of by its identifier, its state and its
/// place.
pub proof fn recoveries_are_told(entry: JournalEntry)
    ensures
        recovery_line(entry) == entry.id@ + ": "@ + (match entry.state {
            JournalState::Preparing => "Preparing"@,
            JournalState::Committed => "Committed"@,
            JournalState::Undoing => "Undoing"@,
            JournalState::Undone => "Undone"@,
        }) + " ("@ + entry.dir@.text + ")"@,
{
}

/// A warning names its place and its size where that is known; a deletion and an overwriting
/// are told apart, and so is a size that is not known whole.
pub proof fn warnings_tell_what_is_known(
    path: Seq<Seq<char>>,
    size: u64,
    text: Seq<char>,
    reason: BackupReason,
    total: u64,
)
    ensures
        ({
            let open = PlanWarningView::Hydration { path, size: None };
            let known = PlanWarningView::Hydration { path, size: Some(size) };
            &&& warning_text(open, text) == "クラウドから取得します: "@ + join_path(path)
            &&& warning_text(known, text) == warning_text(open, text) + ("("@ + text + ")"@)
        }),
        ({
            let whole = PlanWarningView::Backup { reason, total, unknown: false };
            let part = PlanWarningView::Backup { reason, total, unknown: true };
            &&& reason == BackupReason::Delete ==> warning_text(whole, text)
                == "削除前にbackupを作成します"@ + ": 約"@ + text
            &&& reason == BackupReason::Overwrite ==> warning_text(whole, text)
                == "上書き前にbackupを作成します"@ + ": 約"@ + text
            &&& warning_text(part, text) == warning_text(whole, text) + " (一部サイズ不明)"@
        }),
{
    let open = PlanWarningView::Hydration { path, size: None };
    let known = PlanWarningView::Hydration { path, size: Some(size) };
    assert(warning_text(open, text) =~= "クラウドから取得します: "@ + join_path(path));
    assert(warning_text(known, text) =~= warning_text(open, text) + ("("@ + text + ")"@));
    let whole = PlanWarningView::Backup { reason, total, unknown: false };
    let part = PlanWarningView::Backup { reason, total, unknown: true };
    let words = match reason {
        BackupReason::Delete => "削除前にbackupを作成します"@,
        BackupReason::Overwrite => "上書き前にbackupを作成します"@,
    };
    assert(warning_text(whole, text) =~= words + ": 約"@ + text);
    assert(warning_text(part, text) =~= warning_text(whole, text) + " (一部サイズ不明)"@);
}

/// A manifest that was given another state tells of that state, under the identifier that
/// it had, in the directory of the transaction.
pub proof fn marked_manifest_tells_its_state(
    journal: UndoJournal,
    id: Seq<char>,
    source: Seq<char>,
    state: JournalState,
    write: ManifestWrite,
    table: Entries,
    own: Seq<char>,
)
    requires
        journal.state_updated(id, source, state, Ok(write)),
        parsed(source) == Ok::<Toml, Seq<char>>(Toml::Table(table)),
        string_field(table, "id"@) == Ok::<Seq<char>, Seq<char>>(own),
        writable(
            Toml::Table(with_entry(table, "state"@, Toml::Str(state_text(state)))),
            MAX_LEVELS as nat,
        ),
    ensures
        manifest_text_state(write.text@) == Some((own, state)),
        write.dir@ == transaction_path(journal, id),
{
    state_update_keeps_the_rest(table, state, "id"@);
}

} // verus!
