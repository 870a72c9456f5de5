//! What holds of the settings as a whole.

use vstd::prelude::*;

use crate::config::{
    bookmark_warnings, complaint_unless, config_of, config_warnings, detail_of, flag_warnings,
    font_of, font_warnings, keymap_warnings, known_keys, leader_of, leader_warnings, quiet,
    sort_key_of, sort_of, statusline_warnings, terminal_of, unknown_key_warnings, word,
    ConfigFactsView,
};
use crate::toml_doc::{lookup, Toml};
use crate::undo_journal::Entries;

verus! {

/// The setting that a part of the warnings is about, in their order.
pub open spec fn part_key(i: int) -> Seq<char> {
    seq![
        "leader"@,
        "show_hidden"@,
        "sort"@,
        "sort_key"@,
        "sort_reverse"@,
        "restore_session"@,
        "terminal"@,
        "feedback_url"@,
        "statusline"@,
        "confirm_detail"@,
        "font"@,
        "bookmarks"@,
        "keymap"@,
    ][i]
}

/// What there is to say of one setting and, last, of keys that are no settings.
pub open spec fn part(
    table: Entries,
    order: Seq<Seq<char>>,
    facts: ConfigFactsView,
    i: int,
) -> Seq<Seq<char>> {
    if i == 0 {
        leader_warnings(table, facts.leader_error)
    } else if i == 1 {
        flag_warnings(table, "show_hidden"@)
    } else if i == 2 {
        complaint_unless(
            table,
            "sort"@,
            sort_of(word(table, "sort"@)) is Some,
            "sort must be \"dirs_first\" or \"mixed\""@,
        )
    } else if i == 3 {
        complaint_unless(
            table,
            "sort_key"@,
            sort_key_of(word(table, "sort_key"@)) is Some,
            "sort_key must be \"name\", \"date\", \"size\", or \"ext\""@,
        )
    } else if i == 4 {
        flag_warnings(table, "sort_reverse"@)
    } else if i == 5 {
        flag_warnings(table, "restore_session"@)
    } else if i == 6 {
        complaint_unless(
            table,
            "terminal"@,
            terminal_of(word(table, "terminal"@)) is Some,
            "terminal must be \"auto\", \"windows_terminal\", \"powershell\", or \"cmd\""@,
        )
    } else if i == 7 {
        complaint_unless(
            table,
            "feedback_url"@,
            word(table, "feedback_url"@) is Some,
            "feedback_url must be a string"@,
        )
    } else if i == 8 {
        statusline_warnings(table, facts)
    } else if i == 9 {
        complaint_unless(
            table,
            "confirm_detail"@,
            detail_of(word(table, "confirm_detail"@)) is Some,
            "confirm_detail must be \"full\" or \"summary\""@,
        )
    } else if i == 10 {
        font_warnings(table, facts.absolute)
    } else if i == 11 {
        bookmark_warnings(table, order, facts.absolute)
    } else if i == 12 {
        keymap_warnings(table, facts.keymap_warnings)
    } else {
        unknown_key_warnings(table, known_keys(), "Ignoring unknown configuration key: "@)
    }
}

/// What there is to say of the first settings.
pub open spec fn parts(
    table: Entries,
    order: Seq<Seq<char>>,
    facts: ConfigFactsView,
    from: int,
    to: int,
) -> Seq<Seq<char>>
    decreases to - from,
{
    if to <= from {
        quiet()
    } else {
        parts(table, order, facts, from, to - 1) + part(table, order, facts, to - 1)
    }
}

/// A table without a key.
pub open spec fn without(table: Entries, key: Seq<char>) -> Entries
    decreases table.len(),
{
    if table.len() == 0 {
        table
    } else {
        let rest = without(table.drop_first(), key);
        if table[0].0 == key {
            rest
        } else {
            seq![table[0]] + rest
        }
    }
}

/// Whether a text names a key.
pub open spec fn names(text: Seq<char>, key: Seq<char>) -> bool {
    exists|i: int|
        0 <= i <= text.len() - key.len() && #[trigger] text.subrange(i, i + key.len()) == key
}

/// Whether a setting that stands for one value is there and not understood.
pub open spec fn is_bad(table: Entries, facts: ConfigFactsView, key: Seq<char>) -> bool {
    lookup(table, key) matches Some(value) && {
        ||| (key == "show_hidden"@ || key == "sort_reverse"@ || key == "restore_session"@) && !(
        value is Boolean)
        ||| key == "sort"@ && sort_of(word(table, key)) is None
        ||| key == "sort_key"@ && sort_key_of(word(table, key)) is None
        ||| key == "terminal"@ && terminal_of(word(table, key)) is None
        ||| key == "confirm_detail"@ && detail_of(word(table, key)) is None
        ||| key == "feedback_url"@ && !(value is Str)
        ||| key == "font"@ && font_of(table, facts.absolute) is None
        ||| key == "leader"@ && leader_of(table, facts.leader_error) is None
    }
}

/// A setting that is not understood changes nothing else: the settings are those without
/// it, and there is one warning more, which names it.
pub proof fn bad_setting_changes_nothing_else(
    table: Entries,
    order: Seq<Seq<char>>,
    facts: ConfigFactsView,
    key: Seq<char>,
)
    requires
        is_bad(table, facts, key),
    ensures
        config_of(table, order, facts) == config_of(without(table, key), order, facts),
        exists|before: Seq<Seq<char>>, warning: Seq<char>, after: Seq<Seq<char>>|
            config_warnings(table, order, facts) == #[trigger] (before + seq![warning] + after)
                && config_warnings(without(table, key), order, facts) == before + after && names(
                warning,
                key,
            ),
{
    let less = without(table, key);
    lemma_part_keys();
    assert forall|other: Seq<char>| #[trigger] lookup(less, other) == (if other == key {
        None
    } else {
        lookup(table, other)
    }) by {
        lemma_lookup_without(table, key, other);
    }
    let i: int = choose|i: int|
        0 <= i < 13 && i != 8 && i != 11 && i != 12 && #[trigger] part_key(i) == key;
    assert(part_key(0) == "leader"@ && part_key(1) == "show_hidden"@ && part_key(2) == "sort"@);
    assert(part_key(3) == "sort_key"@ && part_key(4) == "sort_reverse"@);
    assert(part_key(5) == "restore_session"@ && part_key(6) == "terminal"@);
    assert(part_key(7) == "feedback_url"@ && part_key(9) == "confirm_detail"@);
    assert(part_key(10) == "font"@);
    assert(part_key(8) == "statusline"@ && part_key(11) == "bookmarks"@ && part_key(12)
        == "keymap"@);
    assert(0 <= i < 13 && i != 8 && i != 11 && i != 12 && part_key(i) == key);
    assert(known_keys().contains(key)) by {
        lemma_known(i);
    }
    assert forall|j: int| 0 <= j < 14 && j != i implies part(less, order, facts, j) == #[trigger] part(
        table,
        order,
        facts,
        j,
    ) by {
        if j == 13 {
            lemma_unknown_without(
                table,
                key,
                known_keys(),
                "Ignoring unknown configuration key: "@,
            );
        } else {
            assert(part_key(j) != key);
        }
    }
    assert(part(less, order, facts, i) =~= quiet());
    let warning = lemma_bad_part(table, order, facts, key, i);
    lemma_parts(table, order, facts, i);
    lemma_parts(less, order, facts, i);
    lemma_same_parts(table, less, order, facts, 0, i);
    lemma_same_parts(table, less, order, facts, i + 1, 14);
    let before = parts(table, order, facts, 0, i);
    let after = parts(table, order, facts, i + 1, 14);
    assert(config_warnings(table, order, facts) =~= before + seq![warning] + after);
    assert(config_warnings(less, order, facts) =~= before + after);
}

/// The settings have different names.
proof fn lemma_part_keys()
    ensures
        forall|i: int, j: int|
            0 <= i < j < 13 ==> #[trigger] part_key(i) != #[trigger] part_key(j),
{
    reveal_strlit("leader");
    reveal_strlit("show_hidden");
    reveal_strlit("sort");
    reveal_strlit("sort_key");
    reveal_strlit("sort_reverse");
    reveal_strlit("restore_session");
    reveal_strlit("terminal");
    reveal_strlit("feedback_url");
    reveal_strlit("statusline");
    reveal_strlit("confirm_detail");
    reveal_strlit("font");
    reveal_strlit("bookmarks");
    reveal_strlit("keymap");
    assert forall|i: int, j: int| 0 <= i < j < 13 implies #[trigger] part_key(i)
        != #[trigger] part_key(j) by {
        assert(part_key(i).len() != part_key(j).len() || part_key(i)[0] != part_key(j)[0]);
    }
}

/// The settings are known keys.
proof fn lemma_known(i: int)
    requires
        0 <= i < 13,
    ensures
        known_keys().contains(part_key(i)),
{
    let known = known_keys();
    assert(known[0] == "show_hidden"@ && known[1] == "sort"@ && known[2] == "sort_key"@);
    assert(known[3] == "sort_reverse"@ && known[4] == "restore_session"@);
    assert(known[5] == "terminal"@ && known[6] == "feedback_url"@);
    assert(known[7] == "confirm_detail"@ && known[8] == "font"@ && known[9] == "bookmarks"@);
    assert(known[10] == "leader"@ && known[11] == "keymap"@ && known[12] == "statusline"@);
}

/// A setting that is not understood has one warning, which names it.
proof fn lemma_bad_part(
    table: Entries,
    order: Seq<Seq<char>>,
    facts: ConfigFactsView,
    key: Seq<char>,
    i: int,
) -> (warning: Seq<char>)
    requires
        is_bad(table, facts, key),
        0 <= i < 13,
        i != 8 && i != 11 && i != 12,
        part_key(i) == key,
    ensures
        part(table, order, facts, i) == seq![warning],
        names(warning, key),
{
    lemma_part_keys();
    assert(part_key(0) == "leader"@ && part_key(1) == "show_hidden"@ && part_key(2) == "sort"@);
    assert(part_key(3) == "sort_key"@ && part_key(4) == "sort_reverse"@);
    assert(part_key(5) == "restore_session"@ && part_key(6) == "terminal"@);
    assert(part_key(7) == "feedback_url"@ && part_key(9) == "confirm_detail"@);
    assert(part_key(10) == "font"@);
    let warning = part(table, order, facts, i)[0];
    assert(part(table, order, facts, i) =~= seq![warning]);
    let at: int = if i == 0 && lookup(table, key) matches Some(Toml::Str(_)) {
        8
    } else if i == 10 && lookup(table, key) matches Some(Toml::Str(_)) {
        9
    } else {
        0
    };
    reveal_strlit("leader");
    reveal_strlit("sort");
    reveal_strlit("sort_key");
    reveal_strlit("terminal");
    reveal_strlit("feedback_url");
    reveal_strlit("confirm_detail");
    reveal_strlit("font");
    reveal_strlit("Invalid leader; using Space: ");
    reveal_strlit("leader must be a string; using Space");
    reveal_strlit("sort must be \"dirs_first\" or \"mixed\"");
    reveal_strlit("sort_key must be \"name\", \"date\", \"size\", or \"ext\"");
    reveal_strlit("terminal must be \"auto\", \"windows_terminal\", \"powershell\", or \"cmd\"");
    reveal_strlit("feedback_url must be a string");
    reveal_strlit("confirm_detail must be \"full\" or \"summary\"");
    reveal_strlit("Ignoring font because it is not an absolute path: ");
    reveal_strlit("font must be a string");
    assert(warning.subrange(at, at + key.len()) =~= key);
    warning
}

/// What is found in a table without a key.
proof fn lemma_lookup_without(table: Entries, key: Seq<char>, other: Seq<char>)
    ensures
        lookup(without(table, key), other) == (if other == key {
            None
        } else {
            lookup(table, other)
        }),
    decreases table.len(),
{
    if table.len() > 0 {
        lemma_lookup_without(table.drop_first(), key, other);
        let rest = without(table.drop_first(), key);
        if table[0].0 != key {
            assert((seq![table[0]] + rest).drop_first() =~= rest);
        }
    }
}

/// A known key is not warned of.
proof fn lemma_unknown_without(
    table: Entries,
    key: Seq<char>,
    known: Seq<Seq<char>>,
    message: Seq<char>,
)
    requires
        known.contains(key),
    ensures
        unknown_key_warnings(without(table, key), known, message) == unknown_key_warnings(
            table,
            known,
            message,
        ),
    decreases table.len(),
{
    if table.len() > 0 {
        let first = seq![table[0]];
        let rest = without(table.drop_first(), key);
        lemma_unknown_without(table.drop_first(), key, known, message);
        assert(table =~= first + table.drop_first());
        lemma_unknown_split(first, table.drop_first(), known, message);
        lemma_unknown_split(first, rest, known, message);
        assert(first.drop_last() =~= Seq::empty());
        if table[0].0 == key {
            assert(first.last() == table[0]);
            assert(unknown_key_warnings(first.drop_last(), known, message) == quiet());
            assert(unknown_key_warnings(first, known, message) =~= quiet());
            assert(quiet() + unknown_key_warnings(rest, known, message) =~= unknown_key_warnings(
                rest,
                known,
                message,
            ));
        }
    }
}

/// What there is to say of the keys of two tables, one behind the other.
proof fn lemma_unknown_split(
    first: Entries,
    rest: Entries,
    known: Seq<Seq<char>>,
    message: Seq<char>,
)
    ensures
        unknown_key_warnings(first + rest, known, message) == unknown_key_warnings(
            first,
            known,
            message,
        ) + unknown_key_warnings(rest, known, message),
    decreases rest.len(),
{
    if rest.len() == 0 {
        assert(first + rest =~= first);
        assert(unknown_key_warnings(first, known, message) + quiet() =~= unknown_key_warnings(
            first,
            known,
            message,
        ));
    } else {
        lemma_unknown_split(first, rest.drop_last(), known, message);
        assert((first + rest).drop_last() =~= first + rest.drop_last());
        assert(unknown_key_warnings(first + rest, known, message) =~= unknown_key_warnings(
            first,
            known,
            message,
        ) + unknown_key_warnings(rest, known, message));
    }
}

/// What there is to say of all settings, around one of them.
proof fn lemma_parts(table: Entries, order: Seq<Seq<char>>, facts: ConfigFactsView, i: int)
    requires
        0 <= i < 14,
    ensures
        config_warnings(table, order, facts) == parts(table, order, facts, 0, i) + part(
            table,
            order,
            facts,
            i,
        ) + parts(table, order, facts, i + 1, 14),
{
    lemma_all_parts(table, order, facts);
    lemma_split_parts(table, order, facts, 0, i, 14);
    lemma_split_parts(table, order, facts, i, i + 1, 14);
    assert(parts(table, order, facts, i, i + 1) =~= part(table, order, facts, i)) by {
        assert(parts(table, order, facts, i, i) == quiet());
    }
    assert(config_warnings(table, order, facts) =~= parts(table, order, facts, 0, i) + part(
        table,
        order,
        facts,
        i,
    ) + parts(table, order, facts, i + 1, 14));
}

proof fn lemma_all_parts(table: Entries, order: Seq<Seq<char>>, facts: ConfigFactsView)
    ensures
        config_warnings(table, order, facts) == parts(table, order, facts, 0, 14),
{
    reveal_with_fuel(parts, 15);
    assert(parts(table, order, facts, 0, 1) =~= part(table, order, facts, 0));
}

proof fn lemma_split_parts(
    table: Entries,
    order: Seq<Seq<char>>,
    facts: ConfigFactsView,
    from: int,
    middle: int,
    to: int,
)
    requires
        from <= middle <= to,
    ensures
        parts(table, order, facts, from, to) == parts(table, order, facts, from, middle) + parts(
            table,
            order,
            facts,
            middle,
            to,
        ),
    decreases to - middle,
{
    if middle == to {
        assert(parts(table, order, facts, from, middle) + quiet() =~= parts(
            table,
            order,
            facts,
            from,
            middle,
        ));
    } else {
        lemma_split_parts(table, order, facts, from, middle, to - 1);
        assert(parts(table, order, facts, from, to) =~= parts(table, order, facts, from, middle)
            + parts(table, order, facts, middle, to));
    }
}

/// Where no part differs, all is the same.
proof fn lemma_same_parts(
    table: Entries,
    other: Entries,
    order: Seq<Seq<char>>,
    facts: ConfigFactsView,
    from: int,
    to: int,
)
    requires
        forall|j: int|
            from <= j < to ==> part(other, order, facts, j) == #[trigger] part(
                table,
                order,
                facts,
                j,
            ),
    ensures
        parts(other, order, facts, from, to) == parts(table, order, facts, from, to),
    decreases to - from,
{
    if from < to {
        lemma_same_parts(table, other, order, facts, from, to - 1);
        assert(part(other, order, facts, to - 1) == part(table, order, facts, to - 1));
    }
}

} // verus!
