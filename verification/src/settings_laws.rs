//! What each setting means, when a user is warned of one, and where settings are kept.

use vstd::prelude::*;

use crate::config::{
    at_most_ten, bookmark_names, bookmark_warnings, bookmarks_of, config_of, config_warnings,
    distinct_roots, first_seen, flag_warnings, font_warnings, keymap_entry_warnings, keymap_of,
    keymap_pairs, keymap_warnings, keys_of, known_keys, known_names, leader_warnings,
    lemma_first_seen_contains, listed_before, marked, named_bookmark_warnings, named_bookmarks,
    others, prefixed, record_outcome, root_texts, settings_dir, side_warnings, statusline_warnings,
    unknown_item_warnings, unknown_key_warnings, with_recent, ConfigEnvironment, ConfigFactsView,
    ListedRoot,
};
use crate::options::{ConfirmDetail, SortKey, SortOrder, TerminalKind};
use crate::toml_doc::{lookup, Toml};
use crate::undo::path_view;
use crate::undo_journal::Entries;

verus! {

/// A key leads to what stands first under it, and to nothing where nothing does.
pub proof fn key_leads_to_its_value(table: Entries, key: Seq<char>, i: int)
    ensures
        0 <= i < table.len() && table[i].0 == key && (forall|j: int|
            0 <= j < i ==> (#[trigger] table[j]).0 != key) ==> lookup(table, key) == Some(
            table[i].1,
        ),
        (forall|j: int| 0 <= j < table.len() ==> (#[trigger] table[j]).0 != key) ==> lookup(
            table,
            key,
        ) is None,
        lookup(table, key) matches Some(value) ==> exists|j: int|
            0 <= j < table.len() && #[trigger] table[j] == (key, value),
    decreases table.len(),
{
    if table.len() > 0 {
        let rest = table.drop_first();
        key_leads_to_its_value(rest, key, i - 1);
        if 0 <= i < table.len() && table[i].0 == key && (forall|j: int|
            0 <= j < i ==> (#[trigger] table[j]).0 != key) && i > 0 {
            assert(table[0].0 != key);
            assert(rest[i - 1] == table[i]);
            assert forall|j: int| 0 <= j < i - 1 implies (#[trigger] rest[j]).0 != key by {
                assert(table[j + 1].0 != key);
            }
        }
        if forall|j: int| 0 <= j < table.len() ==> (#[trigger] table[j]).0 != key {
            assert(table[0].0 != key);
            assert forall|j: int| 0 <= j < rest.len() implies (#[trigger] rest[j]).0 != key by {
                assert(table[j + 1].0 != key);
            }
        }
        if let Some(value) = lookup(table, key) {
            if table[0].0 == key {
                assert(table[0] == (key, value));
            } else {
                let j = choose|j: int| 0 <= j < rest.len() && #[trigger] rest[j] == (key, value);
                assert(table[j + 1] == (key, value));
            }
        }
    }
}

/// The words of settings differ.
proof fn lemma_words()
    ensures
        "dirs_first"@ != "mixed"@,
        "name"@ != "date"@ && "name"@ != "size"@ && "name"@ != "ext"@,
        "date"@ != "size"@ && "date"@ != "ext"@ && "size"@ != "ext"@,
        "auto"@ != "windows_terminal"@ && "auto"@ != "powershell"@ && "auto"@ != "cmd"@,
        "windows_terminal"@ != "powershell"@ && "windows_terminal"@ != "cmd"@,
        "powershell"@ != "cmd"@,
        "full"@ != "summary"@,
        "left"@ != "right"@,
{
    reveal_strlit("dirs_first");
    reveal_strlit("mixed");
    reveal_strlit("name");
    reveal_strlit("date");
    reveal_strlit("size");
    reveal_strlit("ext");
    reveal_strlit("auto");
    reveal_strlit("windows_terminal");
    reveal_strlit("powershell");
    reveal_strlit("cmd");
    reveal_strlit("full");
    reveal_strlit("summary");
    reveal_strlit("left");
    reveal_strlit("right");
    assert("name"@[0] == 'n' && "date"@[0] == 'd' && "size"@[0] == 's');
    assert("dirs_first"@.len() == 10 && "mixed"@.len() == 5);
    assert("name"@.len() == 4 && "ext"@.len() == 3);
    assert("auto"@.len() == 4 && "windows_terminal"@.len() == 16 && "powershell"@.len() == 10
        && "cmd"@.len() == 3);
    assert("full"@.len() == 4 && "summary"@.len() == 7);
    assert("left"@.len() == 4 && "right"@.len() == 5);
}

/// Each setting means what it says, and its default where it is missing or not understood:
/// hidden files are not shown, directories stand first, entries are sorted by name and not
/// in reverse, the last session is restored, the terminal is chosen by the system, and a
/// question shows everything.
pub proof fn settings_mean_what_they_say(
    table: Entries,
    order: Seq<Seq<char>>,
    facts: ConfigFactsView,
    text: Seq<char>,
)
    ensures
        ({
            let config = config_of(table, order, facts);
            &&& config.show_hidden <==> lookup(table, "show_hidden"@) == Some(Toml::Boolean(true))
            &&& config.sort_reverse <==> lookup(table, "sort_reverse"@) == Some(
                Toml::Boolean(true),
            )
            &&& config.restore_session <==> lookup(table, "restore_session"@) != Some(
                Toml::Boolean(false),
            )
            &&& config.sort == SortOrder::Mixed <==> lookup(table, "sort"@) == Some(
                Toml::Str("mixed"@),
            )
            &&& config.sort_key == SortKey::Date <==> lookup(table, "sort_key"@) == Some(
                Toml::Str("date"@),
            )
            &&& config.sort_key == SortKey::Size <==> lookup(table, "sort_key"@) == Some(
                Toml::Str("size"@),
            )
            &&& config.sort_key == SortKey::Extension <==> lookup(table, "sort_key"@) == Some(
                Toml::Str("ext"@),
            )
            &&& config.terminal == TerminalKind::WindowsTerminal <==> lookup(table, "terminal"@)
                == Some(Toml::Str("windows_terminal"@))
            &&& config.terminal == TerminalKind::PowerShell <==> lookup(table, "terminal"@) == Some(
                Toml::Str("powershell"@),
            )
            &&& config.terminal == TerminalKind::Cmd <==> lookup(table, "terminal"@) == Some(
                Toml::Str("cmd"@),
            )
            &&& config.confirm_detail == ConfirmDetail::Summary <==> lookup(
                table,
                "confirm_detail"@,
            ) == Some(Toml::Str("summary"@))
            &&& config.feedback_url == Some(text) <==> lookup(table, "feedback_url"@) == Some(
                Toml::Str(text),
            )
            &&& config.font == Some(text) <==> lookup(table, "font"@) == Some(Toml::Str(text))
                && facts.absolute.contains(text)
            &&& config.leader == Some(text) <==> lookup(table, "leader"@) == Some(Toml::Str(text))
                && facts.leader_error is None
        }),
{
    lemma_words();
}

/// A bookmark counts just where its place is a text and absolute, and each name counts
/// once.
pub proof fn bookmarks_count_once(
    table: Entries,
    order: Seq<Seq<char>>,
    absolute: Seq<Seq<char>>,
    name: Seq<char>,
    path: Seq<char>,
    i: int,
    j: int,
)
    ensures
        bookmarks_of(table, order, absolute).contains((name, path)) <==> (lookup(
            table,
            "bookmarks"@,
        ) matches Some(Toml::Table(bookmarks)) && lookup(bookmarks, name) == Some(Toml::Str(path))
            && absolute.contains(path)),
        0 <= i < j < bookmarks_of(table, order, absolute).len() ==> bookmarks_of(
            table,
            order,
            absolute,
        )[i].0 != bookmarks_of(table, order, absolute)[j].0,
{
    if let Some(Toml::Table(bookmarks)) = lookup(table, "bookmarks"@) {
        let names = bookmark_names(bookmarks, order);
        lemma_named_bookmarks(names, bookmarks, absolute, name, path);
        lemma_first_seen_contains(order + keys_of(bookmarks), name);
        lemma_first_seen_differ(order + keys_of(bookmarks));
        if lookup(bookmarks, name) is Some {
            key_leads_to_its_value(bookmarks, name, 0);
            let k = choose|k: int|
                0 <= k < bookmarks.len() && #[trigger] bookmarks[k] == (
                    name,
                    lookup(bookmarks, name)->Some_0,
                );
            assert(keys_of(bookmarks)[k] == name);
            assert((order + keys_of(bookmarks))[order.len() + k] == name);
        }
        if 0 <= i < j < bookmarks_of(table, order, absolute).len() {
            lemma_named_in_order(names, bookmarks, absolute, i, j);
        }
    }
}

proof fn lemma_named_bookmarks(
    names: Seq<Seq<char>>,
    table: Entries,
    absolute: Seq<Seq<char>>,
    name: Seq<char>,
    path: Seq<char>,
)
    ensures
        named_bookmarks(names, table, absolute).contains((name, path)) <==> names.contains(name)
            && lookup(table, name) == Some(Toml::Str(path)) && absolute.contains(path),
    decreases names.len(),
{
    if names.len() > 0 {
        let shorter = names.drop_last();
        lemma_named_bookmarks(shorter, table, absolute, name, path);
        let before = named_bookmarks(shorter, table, absolute);
        let all = named_bookmarks(names, table, absolute);
        if before.contains((name, path)) {
            let k = choose|k: int| 0 <= k < before.len() && before[k] == (name, path);
            assert(all[k] == (name, path));
        }
        if shorter.contains(name) {
            let k = choose|k: int| 0 <= k < shorter.len() && shorter[k] == name;
            assert(names[k] == name);
        }
        if names.contains(name) && names.last() != name {
            let k = choose|k: int| 0 <= k < names.len() && names[k] == name;
            assert(shorter[k] == name);
        }
        if names.last() == name {
            assert(names[names.len() - 1] == name);
            if lookup(table, name) == Some(Toml::Str(path)) && absolute.contains(path) {
                assert(all[all.len() - 1] == (name, path));
            }
        }
        if all.contains((name, path)) {
            let k = choose|k: int| 0 <= k < all.len() && all[k] == (name, path);
            if k < before.len() {
                assert(before[k] == (name, path));
            }
        }
    }
}

proof fn lemma_first_seen_differ(names: Seq<Seq<char>>)
    ensures
        first_seen(names).no_duplicates(),
    decreases names.len(),
{
    if names.len() > 0 {
        let shorter = names.drop_last();
        lemma_first_seen_differ(shorter);
        lemma_first_seen_contains(shorter, names.last());
        let before = first_seen(shorter);
        let all = first_seen(names);
        assert forall|a: int, b: int|
            0 <= a < all.len() && 0 <= b < all.len() && a != b implies all[a] != all[b] by {
            if a < before.len() && b < before.len() {
                assert(before[a] != before[b]);
            } else if a < before.len() {
                assert(before.contains(before[a]));
            } else if b < before.len() {
                assert(before.contains(before[b]));
            }
        }
    }
}

proof fn lemma_named_in_order(
    names: Seq<Seq<char>>,
    table: Entries,
    absolute: Seq<Seq<char>>,
    i: int,
    j: int,
)
    requires
        names.no_duplicates(),
        0 <= i < j < named_bookmarks(names, table, absolute).len(),
    ensures
        named_bookmarks(names, table, absolute)[i].0 != named_bookmarks(names, table, absolute)[j].0,
    decreases names.len(),
{
    let shorter = names.drop_last();
    let before = named_bookmarks(shorter, table, absolute);
    let all = named_bookmarks(names, table, absolute);
    assert(shorter.no_duplicates()) by {
        assert forall|a: int, b: int|
            0 <= a < shorter.len() && 0 <= b < shorter.len() && a != b implies shorter[a]
            != shorter[b] by {
            assert(names[a] != names[b]);
        }
    }
    if j < before.len() {
        lemma_named_in_order(shorter, table, absolute, i, j);
    } else {
        let (name, path) = before[i];
        assert(before.contains((name, path)));
        lemma_named_bookmarks(shorter, table, absolute, name, path);
        let k = choose|k: int| 0 <= k < shorter.len() && shorter[k] == name;
        assert(names[k] != names[names.len() - 1]);
    }
}

/// Where there is a key map, each of its keys that stands for a text means that action, in
/// order, and where there is none there is no key map.
pub proof fn keys_mean_their_actions(
    table: Entries,
    normal: Entries,
    more: Entries,
    key: Seq<char>,
    value: Toml,
)
    ensures
        keymap_of(table) is Some <==> (lookup(table, "keymap"@) matches Some(Toml::Table(_))),
        lookup(table, "keymap"@) matches Some(Toml::Table(keymap)) ==> match lookup(
            keymap,
            "normal"@,
        ) {
            Some(Toml::Table(bound)) => keymap_of(table) == Some(keymap_pairs(bound)),
            _ => keymap_of(table) == Some(Seq::<(Seq<char>, Seq<char>)>::empty()),
        },
        keymap_pairs(normal + more) == keymap_pairs(normal) + keymap_pairs(more),
        keymap_pairs(seq![(key, value)]) == (match value {
            Toml::Str(action) => seq![(key, action)],
            _ => Seq::empty(),
        }),
    decreases more.len(),
{
    let one = seq![(key, value)];
    assert(one.drop_last() =~= Seq::empty());
    assert(keymap_pairs(one.drop_last()) =~= Seq::empty());
    assert(keymap_pairs(one) =~= (match value {
        Toml::Str(action) => seq![(key, action)],
        _ => Seq::<(Seq<char>, Seq<char>)>::empty(),
    }));
    if more.len() == 0 {
        assert(normal + more =~= normal);
        assert(keymap_pairs(normal) + keymap_pairs(more) =~= keymap_pairs(normal));
    } else {
        keys_mean_their_actions(table, normal, more.drop_last(), key, value);
        assert((normal + more).drop_last() =~= normal + more.drop_last());
        assert((normal + more).last() == more.last());
        assert(keymap_pairs(normal + more) =~= keymap_pairs(normal) + keymap_pairs(more));
    }
}

/// A side of the status line shows just the items that are known, in order, and its default
/// where it is no list.
pub proof fn known_items_are_shown(
    table: Entries,
    facts: ConfigFactsView,
    order: Seq<Seq<char>>,
    items: Seq<Toml>,
    more: Seq<Toml>,
    item: Toml,
)
    ensures
        ({
            let config = config_of(table, order, facts);
            let bar = lookup(table, "statusline"@);
            &&& bar matches Some(Toml::Table(sides)) ==> {
                &&& lookup(sides, "left"@) matches Some(Toml::Array(shown)) ==> config.statusline_left
                    == Some(known_names(shown, facts.known_items))
                &&& !(lookup(sides, "left"@) matches Some(Toml::Array(_)))
                    ==> config.statusline_left is None
                &&& lookup(sides, "right"@) matches Some(Toml::Array(shown))
                    ==> config.statusline_right == Some(known_names(shown, facts.known_items))
                &&& !(lookup(sides, "right"@) matches Some(Toml::Array(_)))
                    ==> config.statusline_right is None
            }
            &&& !(bar matches Some(Toml::Table(_))) ==> config.statusline_left is None
                && config.statusline_right is None
        }),
        known_names(items + more, facts.known_items) == known_names(items, facts.known_items)
            + known_names(more, facts.known_items),
        known_names(seq![item], facts.known_items) == (match item {
            Toml::Str(name) => if facts.known_items.contains(name) {
                seq![name]
            } else {
                Seq::empty()
            },
            _ => Seq::empty(),
        }),
    decreases more.len(),
{
    let known = facts.known_items;
    assert(seq![item].drop_last() =~= Seq::empty());
    assert(known_names(seq![item].drop_last(), known) =~= Seq::empty());
    assert(known_names(seq![item], known) =~= (match item {
        Toml::Str(name) => if known.contains(name) {
            seq![name]
        } else {
            Seq::<Seq<char>>::empty()
        },
        _ => Seq::<Seq<char>>::empty(),
    }));
    if more.len() == 0 {
        assert(items + more =~= items);
        assert(known_names(items, known) + known_names(more, known) =~= known_names(items, known));
    } else {
        known_items_are_shown(table, facts, order, items, more.drop_last(), item);
        assert((items + more).drop_last() =~= items + more.drop_last());
        assert((items + more).last() == more.last());
        assert(known_names(items + more, known) =~= known_names(items, known) + known_names(
            more,
            known,
        ));
    }
}

/// Whether a setting is missing or one of some words.
pub open spec fn is_word(table: Entries, key: Seq<char>, words: Seq<Seq<char>>) -> bool {
    match lookup(table, key) {
        None => true,
        Some(Toml::Str(text)) => words.contains(text),
        Some(_) => false,
    }
}

/// Whether a setting is missing or true or false.
pub open spec fn is_flag(table: Entries, key: Seq<char>) -> bool {
    lookup(table, key) is None || (lookup(table, key) matches Some(Toml::Boolean(_)))
}

/// Whether every key of a table is one of some.
pub open spec fn keys_are_known(table: Entries, known: Seq<Seq<char>>) -> bool {
    forall|i: int| 0 <= i < table.len() ==> known.contains((#[trigger] table[i]).0)
}

/// Whether a side of the status line is missing or a list of known items.
pub open spec fn side_is_known(value: Option<Toml>, known: Seq<Seq<char>>) -> bool {
    match value {
        None => true,
        Some(Toml::Array(items)) => forall|i: int|
            0 <= i < items.len() ==> (#[trigger] items[i] matches Toml::Str(name)
                && known.contains(name)),
        Some(_) => false,
    }
}

/// A user is told nothing of settings just where every one of them is understood; each part
/// of them is silent just where that part is understood.
pub proof fn understood_settings_are_silent(
    table: Entries,
    order: Seq<Seq<char>>,
    facts: ConfigFactsView,
)
    ensures
        leader_warnings(table, facts.leader_error).len() == 0 <==> lookup(table, "leader"@) is None
            || ((lookup(table, "leader"@) matches Some(Toml::Str(_))) && facts.leader_error
            is None),
        forall|key: Seq<char>| #[trigger] flag_warnings(table, key).len() == 0 <==> is_flag(
            table,
            key,
        ),
        statusline_warnings(table, facts).len() == 0 <==> match lookup(table, "statusline"@) {
            None => true,
            Some(Toml::Table(sides)) => keys_are_known(sides, seq!["left"@, "right"@])
                && side_is_known(lookup(sides, "left"@), facts.known_items) && side_is_known(
                lookup(sides, "right"@),
                facts.known_items,
            ),
            Some(_) => false,
        },
        font_warnings(table, facts.absolute).len() == 0 <==> is_word(
            table,
            "font"@,
            facts.absolute,
        ),
        bookmark_warnings(table, order, facts.absolute).len() == 0 <==> match lookup(
            table,
            "bookmarks"@,
        ) {
            None => true,
            Some(Toml::Table(bookmarks)) => forall|name: Seq<char>|
                #[trigger] lookup(bookmarks, name) is Some ==> is_word(
                    bookmarks,
                    name,
                    facts.absolute,
                ),
            Some(_) => false,
        },
        keymap_warnings(table, facts.keymap_warnings).len() == 0 <==> match lookup(
            table,
            "keymap"@,
        ) {
            None => true,
            Some(Toml::Table(keymap)) => keys_are_known(keymap, seq!["normal"@])
                && facts.keymap_warnings.len() == 0 && match lookup(keymap, "normal"@) {
                None => true,
                Some(Toml::Table(normal)) => forall|i: int|
                    0 <= i < normal.len() ==> (#[trigger] normal[i]).1 is Str,
                Some(_) => false,
            },
            Some(_) => false,
        },
        config_warnings(table, order, facts).len() == 0 <==> {
            &&& leader_warnings(table, facts.leader_error).len() == 0
            &&& is_flag(table, "show_hidden"@) && is_flag(table, "sort_reverse"@) && is_flag(
                table,
                "restore_session"@,
            )
            &&& is_word(table, "sort"@, seq!["dirs_first"@, "mixed"@])
            &&& is_word(table, "sort_key"@, seq!["name"@, "date"@, "size"@, "ext"@])
            &&& is_word(
                table,
                "terminal"@,
                seq!["auto"@, "windows_terminal"@, "powershell"@, "cmd"@],
            )
            &&& lookup(table, "feedback_url"@) is None || (lookup(
                table,
                "feedback_url"@,
            ) matches Some(Toml::Str(_)))
            &&& statusline_warnings(table, facts).len() == 0
            &&& is_word(table, "confirm_detail"@, seq!["full"@, "summary"@])
            &&& font_warnings(table, facts.absolute).len() == 0
            &&& bookmark_warnings(table, order, facts.absolute).len() == 0
            &&& keymap_warnings(table, facts.keymap_warnings).len() == 0
            &&& keys_are_known(table, known_keys())
        },
{
    lemma_words();
    let two = seq!["dirs_first"@, "mixed"@];
    assert(two[0] == "dirs_first"@ && two[1] == "mixed"@);
    let keys = seq!["name"@, "date"@, "size"@, "ext"@];
    assert(keys[0] == "name"@ && keys[1] == "date"@ && keys[2] == "size"@ && keys[3] == "ext"@);
    let terminals = seq!["auto"@, "windows_terminal"@, "powershell"@, "cmd"@];
    assert(terminals[0] == "auto"@ && terminals[1] == "windows_terminal"@ && terminals[2]
        == "powershell"@ && terminals[3] == "cmd"@);
    let details = seq!["full"@, "summary"@];
    assert(details[0] == "full"@ && details[1] == "summary"@);
    lemma_unknown_keys(table, known_keys(), "Ignoring unknown configuration key: "@);
    if let Some(Toml::Table(sides)) = lookup(table, "statusline"@) {
        lemma_unknown_keys(sides, seq!["left"@, "right"@], "Ignoring unknown statusline key: "@);
        lemma_side(lookup(sides, "left"@), facts.known_items, facts.left_texts);
        lemma_side(lookup(sides, "right"@), facts.known_items, facts.right_texts);
    }
    if let Some(Toml::Table(bookmarks)) = lookup(table, "bookmarks"@) {
        lemma_bookmark_silence(bookmarks, order, facts.absolute);
    }
    if let Some(Toml::Table(keymap)) = lookup(table, "keymap"@) {
        lemma_unknown_keys(keymap, seq!["normal"@], "Ignoring unsupported keymap section: "@);
        if let Some(Toml::Table(normal)) = lookup(keymap, "normal"@) {
            lemma_keymap_entries(normal);
        }
        assert(prefixed(facts.keymap_warnings, "keymap: "@).len() == facts.keymap_warnings.len());
    }
}

proof fn lemma_unknown_keys(table: Entries, known: Seq<Seq<char>>, message: Seq<char>)
    ensures
        unknown_key_warnings(table, known, message).len() == 0 <==> keys_are_known(table, known),
    decreases table.len(),
{
    if table.len() > 0 {
        let shorter = table.drop_last();
        let n = table.len() - 1;
        lemma_unknown_keys(shorter, known, message);
        assert(forall|i: int| 0 <= i < n ==> #[trigger] shorter[i] == table[i]);
        if keys_are_known(table, known) {
            assert(known.contains(table[n].0));
            assert forall|i: int| 0 <= i < shorter.len() implies known.contains(
                (#[trigger] shorter[i]).0,
            ) by {
                assert(known.contains(table[i].0));
            }
        }
        if keys_are_known(shorter, known) && known.contains(table[n].0) {
            assert forall|i: int| 0 <= i < table.len() implies known.contains(
                (#[trigger] table[i]).0,
            ) by {
                if i < n {
                    assert(known.contains(shorter[i].0));
                }
            }
        }
    }
}

proof fn lemma_side(value: Option<Toml>, known: Seq<Seq<char>>, texts: Seq<Seq<char>>)
    ensures
        side_warnings(value, known, texts).len() == 0 <==> side_is_known(value, known),
{
    if let Some(Toml::Array(items)) = value {
        lemma_unknown_items(items, known, texts);
    }
}

proof fn lemma_unknown_items(items: Seq<Toml>, known: Seq<Seq<char>>, texts: Seq<Seq<char>>)
    ensures
        unknown_item_warnings(items, known, texts).len() == 0 <==> forall|i: int|
            0 <= i < items.len() ==> (#[trigger] items[i] matches Toml::Str(name)
                && known.contains(name)),
    decreases items.len(),
{
    if items.len() > 0 {
        let shorter = items.drop_last();
        let n = items.len() - 1;
        lemma_unknown_items(shorter, known, texts);
        assert(forall|i: int| 0 <= i < n ==> #[trigger] shorter[i] == items[i]);
        if unknown_item_warnings(items, known, texts).len() == 0 {
            assert forall|i: int| 0 <= i < items.len() implies (
            #[trigger] items[i] matches Toml::Str(name) && known.contains(name)) by {
                if i < n {
                    assert(shorter[i] == items[i]);
                }
            }
        }
        if forall|i: int|
            0 <= i < items.len() ==> (#[trigger] items[i] matches Toml::Str(name)
                && known.contains(name)) {
            assert(items[n] is Str);
            assert forall|i: int| 0 <= i < shorter.len() implies (
            #[trigger] shorter[i] matches Toml::Str(name) && known.contains(name)) by {
                assert(items[i] is Str);
            }
        }
    }
}

proof fn lemma_keymap_entries(normal: Entries)
    ensures
        keymap_entry_warnings(normal).len() == 0 <==> forall|i: int|
            0 <= i < normal.len() ==> (#[trigger] normal[i]).1 is Str,
    decreases normal.len(),
{
    if normal.len() > 0 {
        let shorter = normal.drop_last();
        let n = normal.len() - 1;
        lemma_keymap_entries(shorter);
        assert(forall|i: int| 0 <= i < n ==> #[trigger] shorter[i] == normal[i]);
        if keymap_entry_warnings(normal).len() == 0 {
            assert forall|i: int| 0 <= i < normal.len() implies (#[trigger] normal[i]).1 is Str by {
                if i < n {
                    assert(shorter[i].1 is Str);
                }
            }
        }
        if forall|i: int| 0 <= i < normal.len() ==> (#[trigger] normal[i]).1 is Str {
            assert(normal[n].1 is Str);
            assert forall|i: int| 0 <= i < shorter.len() implies (#[trigger] shorter[i]).1 is Str by {
                assert(normal[i].1 is Str);
            }
        }
    }
}

proof fn lemma_bookmark_silence(
    bookmarks: Entries,
    order: Seq<Seq<char>>,
    absolute: Seq<Seq<char>>,
)
    ensures
        named_bookmark_warnings(bookmark_names(bookmarks, order), bookmarks, absolute).len() == 0
            <==> forall|name: Seq<char>| #[trigger]
            lookup(bookmarks, name) is Some ==> is_word(bookmarks, name, absolute),
{
    let names = bookmark_names(bookmarks, order);
    lemma_named_warnings(names, bookmarks, absolute);
    assert forall|name: Seq<char>| #[trigger]
        lookup(bookmarks, name) is Some implies names.contains(name) by {
        key_leads_to_its_value(bookmarks, name, 0);
        let k = choose|k: int|
            0 <= k < bookmarks.len() && #[trigger] bookmarks[k] == (
                name,
                lookup(bookmarks, name)->Some_0,
            );
        assert(keys_of(bookmarks)[k] == name);
        assert((order + keys_of(bookmarks))[order.len() + k] == name);
        lemma_first_seen_contains(order + keys_of(bookmarks), name);
    }
    if named_bookmark_warnings(names, bookmarks, absolute).len() == 0 {
        assert forall|name: Seq<char>| #[trigger]
            lookup(bookmarks, name) is Some implies is_word(bookmarks, name, absolute) by {
            assert(names.contains(name));
            let k = choose|k: int| 0 <= k < names.len() && names[k] == name;
            assert(is_word(bookmarks, names[k], absolute));
        }
    }
    if forall|name: Seq<char>| #[trigger]
        lookup(bookmarks, name) is Some ==> is_word(bookmarks, name, absolute) {
        assert forall|k: int| 0 <= k < names.len() implies is_word(
            bookmarks,
            #[trigger] names[k],
            absolute,
        ) by {
            if lookup(bookmarks, names[k]) is Some {
            }
        }
    }
}

proof fn lemma_named_warnings(names: Seq<Seq<char>>, table: Entries, absolute: Seq<Seq<char>>)
    ensures
        named_bookmark_warnings(names, table, absolute).len() == 0 <==> forall|k: int|
            0 <= k < names.len() ==> is_word(table, #[trigger] names[k], absolute),
    decreases names.len(),
{
    if names.len() > 0 {
        let shorter = names.drop_last();
        let n = names.len() - 1;
        lemma_named_warnings(shorter, table, absolute);
        assert(forall|i: int| 0 <= i < n ==> #[trigger] shorter[i] == names[i]);
        if named_bookmark_warnings(names, table, absolute).len() == 0 {
            assert forall|k: int| 0 <= k < names.len() implies is_word(
                table,
                #[trigger] names[k],
                absolute,
            ) by {
                if k < n {
                    assert(is_word(table, shorter[k], absolute));
                }
            }
        }
        if forall|k: int| 0 <= k < names.len() ==> is_word(table, #[trigger] names[k], absolute) {
            assert(is_word(table, names[n], absolute));
            assert forall|k: int| 0 <= k < shorter.len() implies is_word(
                table,
                #[trigger] shorter[k],
                absolute,
            ) by {
                assert(is_word(table, names[k], absolute));
            }
        }
    }
}

/// Settings are kept where they were told to be; else below the place that the system has
/// for them, and below home where it has none but home. An empty place counts as none.
pub proof fn settings_are_kept_in_their_place(environment: ConfigEnvironment, windows: bool)
    ensures
        ({
            let told = path_view(environment.fyler_config_dir);
            let data = path_view(environment.app_data);
            let xdg = path_view(environment.xdg_config_home);
            let home = path_view(environment.home);
            let is_told = told matches Some(path) && path.text.len() > 0;
            let has_data = data matches Some(path) && path.text.len() > 0;
            let has_xdg = xdg matches Some(path) && path.text.len() > 0;
            let has_home = home matches Some(path) && path.text.len() > 0;
            let place = settings_dir(environment, windows);
            &&& is_told ==> (place matches Ok(dir) && Some(dir.base) == told && dir.names.len()
                == 0)
            &&& !is_told && windows ==> (place is Ok <==> has_data)
            &&& !is_told && windows && has_data ==> (place matches Ok(dir) && Some(dir.base)
                == data && dir.names.len() == 1)
            &&& !is_told && !windows ==> (place is Ok <==> has_xdg || has_home)
            &&& !is_told && !windows && has_xdg ==> (place matches Ok(dir) && Some(dir.base) == xdg
                && dir.names.len() == 1)
            &&& !is_told && !windows && !has_xdg && has_home ==> (place matches Ok(dir) && Some(
                dir.base,
            ) == home && dir.names.len() == 2)
        }),
{
}

/// Of recent roots those are kept that are not the same as the new one, in their order.
pub proof fn other_roots_are_kept(
    roots: Seq<Seq<char>>,
    same: Seq<bool>,
    root: Seq<char>,
    is_same: bool,
)
    requires
        roots.len() == same.len(),
    ensures
        others(roots.push(root), same.push(is_same)) == (if is_same {
            others(roots, same)
        } else {
            others(roots, same).push(root)
        }),
        others(Seq::empty(), Seq::empty()) == Seq::<Seq<char>>::empty(),
        marked(roots.push(root), same.push(is_same)) == (if is_same {
            marked(roots, same).push(root)
        } else {
            marked(roots, same)
        }),
{
    assert(roots.push(root).drop_last() =~= roots);
    assert(same.push(is_same).drop_last() =~= same);
}

/// A list of recent roots is cut after ten and else stays; the new root stands before the
/// others; and a root that is not absolute is not recorded.
pub proof fn ten_roots_are_kept(
    list: Seq<Seq<char>>,
    roots: Seq<Seq<char>>,
    same: Seq<bool>,
    root: Seq<char>,
    i: int,
)
    ensures
        at_most_ten(list).len() == (if list.len() < 10 {
            list.len()
        } else {
            10
        }),
        0 <= i < at_most_ten(list).len() ==> at_most_ten(list)[i] == list[i],
        with_recent(roots, same, root)[0] == root,
        0 < i < with_recent(roots, same, root).len() ==> with_recent(roots, same, root)[i]
            == others(roots, same)[i - 1],
        with_recent(roots, same, root).len() == (if others(roots, same).len() < 9 {
            others(roots, same).len() + 1
        } else {
            10
        }),
        record_outcome(root, false, roots, same) is Err,
{
}

/// The texts of a list are all that are texts, in order.
pub proof fn listed_texts_come_in_order(items: Seq<Toml>, more: Seq<Toml>, item: Toml)
    ensures
        root_texts(items + more) == root_texts(items) + root_texts(more),
        root_texts(seq![item]) == (match item {
            Toml::Str(text) => seq![text],
            _ => Seq::empty(),
        }),
    decreases more.len(),
{
    assert(seq![item].drop_last() =~= Seq::empty());
    assert(root_texts(seq![item].drop_last()) =~= Seq::empty());
    assert(root_texts(seq![item]) =~= (match item {
        Toml::Str(text) => seq![text],
        _ => Seq::<Seq<char>>::empty(),
    }));
    if more.len() == 0 {
        assert(items + more =~= items);
        assert(root_texts(items) + root_texts(more) =~= root_texts(items));
    } else {
        listed_texts_come_in_order(items, more.drop_last(), item);
        assert((items + more).drop_last() =~= items + more.drop_last());
        assert((items + more).last() == more.last());
        assert(root_texts(items + more) =~= root_texts(items) + root_texts(more));
    }
}

/// Every absolute path of a list is loaded, as the first that is the same as it.
pub proof fn every_root_is_loaded(listed: Seq<ListedRoot>, n: int, k: int)
    requires
        0 <= k < n <= listed.len(),
        listed[k].absolute,
    ensures
        exists|j: int|
            0 <= j <= k && (#[trigger] listed[j]).absolute && listed[j].first_same
                == listed[k].first_same && distinct_roots(listed, n).contains(listed[j].text@),
    decreases n, k,
{
    if listed_before(listed, k) {
        let j = choose|j: int|
            0 <= j < k && (#[trigger] listed[j]).absolute && listed[j].first_same
                == listed[k].first_same;
        every_root_is_loaded(listed, n, j);
    } else {
        lemma_first_is_loaded(listed, n, k);
        assert(listed[k].absolute);
    }
}

proof fn lemma_first_is_loaded(listed: Seq<ListedRoot>, n: int, k: int)
    requires
        0 <= k < n <= listed.len(),
        listed[k].absolute,
        !listed_before(listed, k),
    ensures
        distinct_roots(listed, n).contains(listed[k].text@),
    decreases n,
{
    let all = distinct_roots(listed, n);
    if k == n - 1 {
        assert(all[all.len() - 1] == listed[k].text@);
    } else {
        lemma_first_is_loaded(listed, n - 1, k);
        let before = distinct_roots(listed, n - 1);
        let i = choose|i: int| 0 <= i < before.len() && before[i] == listed[k].text@;
        assert(all[i] == listed[k].text@);
    }
}

} // verus!
