//! The user's settings and the list of recent roots.
//!
//! A setting that is missing or not understood leaves the default in place; one
//! that is not understood also gives a warning. Nothing here fails.

use vstd::prelude::*;

use crate::fs_path::{
    begins_absolute, compared, joined, letters, path_is_absolute, same_path, unicode_path, FsPath,
    FsPathView, JoinedPath, JoinedPathView,
};
use crate::options::{ConfirmDetail, SortKey, SortOrder, TerminalKind};
use crate::text::{
    char_vec, contains_text, copy_texts, debug_of, debug_text, same_text, slice_text, texts,
};
use crate::toml_doc::{
    document, document_text, lemma_lookup_with_entry, lookup, nested_list_texts, nested_texts,
    no_entries, parsed, read_toml, with_entry, write_toml, Toml, TomlTable, TomlValue,
};
use crate::undo::path_view;
use crate::undo_journal::{nonempty, nonempty_env, text_view, Entries};

verus! {

/// The user's settings.
#[derive(Debug, PartialEq, Eq)]
pub struct Config {
    /// Whether hidden files are shown from the start.
    pub show_hidden: bool,
    /// Whether directories stand before files.
    pub sort: SortOrder,
    /// What entries are sorted by.
    pub sort_key: SortKey,
    /// Whether the sort is reversed.
    pub sort_reverse: bool,
    /// Whether the last session is restored.
    pub restore_session: bool,
    /// Which terminal is opened.
    pub terminal: TerminalKind,
    /// Where feedback is sent; an empty text switches feedback off.
    pub feedback_url: Option<String>,
    /// How much the question before a save shows.
    pub confirm_detail: ConfirmDetail,
    /// The absolute path of a font.
    pub font: Option<String>,
    /// Names with absolute paths, in the order of their definition.
    pub bookmarks: Vec<(String, String)>,
    /// The leader key, where it is not the default.
    pub leader: Option<String>,
    /// The key sequences with their actions, where there is a key map.
    pub keymap: Option<Vec<(String, String)>>,
    /// The items on the left of the status line, where they are not the default.
    pub statusline_left: Option<Vec<String>>,
    /// The items on the right of the status line, where they are not the default.
    pub statusline_right: Option<Vec<String>>,
}

/// What the settings are.
#[verifier::ext_equal]
pub struct ConfigView {
    pub show_hidden: bool,
    pub sort: SortOrder,
    pub sort_key: SortKey,
    pub sort_reverse: bool,
    pub restore_session: bool,
    pub terminal: TerminalKind,
    pub feedback_url: Option<Seq<char>>,
    pub confirm_detail: ConfirmDetail,
    pub font: Option<Seq<char>>,
    pub bookmarks: Seq<(Seq<char>, Seq<char>)>,
    pub leader: Option<Seq<char>>,
    pub keymap: Option<Seq<(Seq<char>, Seq<char>)>>,
    pub statusline_left: Option<Seq<Seq<char>>>,
    pub statusline_right: Option<Seq<Seq<char>>>,
}

/// Pairs of texts.
pub open spec fn pairs(list: Seq<(String, String)>) -> Seq<(Seq<char>, Seq<char>)> {
    list.map_values(|pair: (String, String)| (pair.0@, pair.1@))
}

/// An optional list of texts.
pub open spec fn texts_view(list: Option<Vec<String>>) -> Option<Seq<Seq<char>>> {
    match list {
        Some(list) => Some(texts(list@)),
        None => None,
    }
}

impl Config {
    pub open spec fn view(&self) -> ConfigView {
        ConfigView {
            show_hidden: self.show_hidden,
            sort: self.sort,
            sort_key: self.sort_key,
            sort_reverse: self.sort_reverse,
            restore_session: self.restore_session,
            terminal: self.terminal,
            feedback_url: text_view(self.feedback_url),
            confirm_detail: self.confirm_detail,
            font: text_view(self.font),
            bookmarks: pairs(self.bookmarks@),
            leader: text_view(self.leader),
            keymap: match self.keymap {
                Some(entries) => Some(pairs(entries@)),
                None => None,
            },
            statusline_left: texts_view(self.statusline_left),
            statusline_right: texts_view(self.statusline_right),
        }
    }
}

/// What the settings are where nothing is set.
pub open spec fn default_config() -> ConfigView {
    ConfigView {
        show_hidden: false,
        sort: SortOrder::DirsFirst,
        sort_key: SortKey::Name,
        sort_reverse: false,
        restore_session: true,
        terminal: TerminalKind::Auto,
        feedback_url: None,
        confirm_detail: ConfirmDetail::Full,
        font: None,
        bookmarks: Seq::empty(),
        leader: None,
        keymap: None,
        statusline_left: None,
        statusline_right: None,
    }
}

impl Default for Config {
    fn default() -> (r: Self)
        ensures
            r@ == default_config(),
    {
        let config = Config {
            show_hidden: false,
            sort: SortOrder::DirsFirst,
            sort_key: SortKey::Name,
            sort_reverse: false,
            restore_session: true,
            terminal: TerminalKind::Auto,
            feedback_url: None,
            confirm_detail: ConfirmDetail::Full,
            font: None,
            bookmarks: Vec::new(),
            leader: None,
            keymap: None,
            statusline_left: None,
            statusline_right: None,
        };
        assert(config@.bookmarks =~= Seq::empty());
        config
    }
}

/// What other parts of the application say of the settings.
#[derive(Debug, PartialEq, Eq)]
pub struct ConfigFacts {
    /// Why the leader key is not understood, where it is not.
    pub leader_error: Option<String>,
    /// What the key map complains about.
    pub keymap_warnings: Vec<String>,
    /// The names of the items of the status line.
    pub known_items: Vec<String>,
    /// The items of the left list of the status line as TOML text.
    pub left_texts: Vec<String>,
    /// The items of the right list of the status line as TOML text.
    pub right_texts: Vec<String>,
    /// The paths among the settings that are absolute on this platform.
    pub absolute: Vec<String>,
}

/// What other parts of the application say of the settings.
#[verifier::ext_equal]
pub struct ConfigFactsView {
    pub leader_error: Option<Seq<char>>,
    pub keymap_warnings: Seq<Seq<char>>,
    pub known_items: Seq<Seq<char>>,
    pub left_texts: Seq<Seq<char>>,
    pub right_texts: Seq<Seq<char>>,
    pub absolute: Seq<Seq<char>>,
}

impl ConfigFacts {
    pub open spec fn view(&self) -> ConfigFactsView {
        ConfigFactsView {
            leader_error: text_view(self.leader_error),
            keymap_warnings: texts(self.keymap_warnings@),
            known_items: texts(self.known_items@),
            left_texts: texts(self.left_texts@),
            right_texts: texts(self.right_texts@),
            absolute: texts(self.absolute@),
        }
    }
}

/// No warnings.
pub open spec fn quiet() -> Seq<Seq<char>> {
    Seq::empty()
}

/// A setting that is on or off.
pub open spec fn flag(table: Entries, key: Seq<char>, default: bool) -> bool {
    match lookup(table, key) {
        Some(Toml::Boolean(flag)) => flag,
        _ => default,
    }
}

/// What there is to say of a setting that is on or off.
pub open spec fn flag_warnings(table: Entries, key: Seq<char>) -> Seq<Seq<char>> {
    match lookup(table, key) {
        None => quiet(),
        Some(Toml::Boolean(_)) => quiet(),
        Some(_) => seq![key + " must be true or false"@],
    }
}

/// A setting that is a text.
pub open spec fn word(table: Entries, key: Seq<char>) -> Option<Seq<char>> {
    match lookup(table, key) {
        Some(Toml::Str(text)) => Some(text),
        _ => None,
    }
}

/// What there is to say of a setting: `message` where it is there and not
/// understood.
pub open spec fn complaint_unless(
    table: Entries,
    key: Seq<char>,
    understood: bool,
    message: Seq<char>,
) -> Seq<Seq<char>> {
    if lookup(table, key) is None || understood {
        quiet()
    } else {
        seq![message]
    }
}

/// The order that a word stands for.
pub open spec fn sort_of(word: Option<Seq<char>>) -> Option<SortOrder> {
    if word == Some("dirs_first"@) {
        Some(SortOrder::DirsFirst)
    } else if word == Some("mixed"@) {
        Some(SortOrder::Mixed)
    } else {
        None
    }
}

/// The sort key that a word stands for.
pub open spec fn sort_key_of(word: Option<Seq<char>>) -> Option<SortKey> {
    if word == Some("name"@) {
        Some(SortKey::Name)
    } else if word == Some("date"@) {
        Some(SortKey::Date)
    } else if word == Some("size"@) {
        Some(SortKey::Size)
    } else if word == Some("ext"@) {
        Some(SortKey::Extension)
    } else {
        None
    }
}

/// The terminal that a word stands for.
pub open spec fn terminal_of(word: Option<Seq<char>>) -> Option<TerminalKind> {
    if word == Some("auto"@) {
        Some(TerminalKind::Auto)
    } else if word == Some("windows_terminal"@) {
        Some(TerminalKind::WindowsTerminal)
    } else if word == Some("powershell"@) {
        Some(TerminalKind::PowerShell)
    } else if word == Some("cmd"@) {
        Some(TerminalKind::Cmd)
    } else {
        None
    }
}

/// The detail that a word stands for.
pub open spec fn detail_of(word: Option<Seq<char>>) -> Option<ConfirmDetail> {
    if word == Some("full"@) {
        Some(ConfirmDetail::Full)
    } else if word == Some("summary"@) {
        Some(ConfirmDetail::Summary)
    } else {
        None
    }
}

/// `choice`, or `default` where there is none.
pub open spec fn or_default<T>(choice: Option<T>, default: T) -> T {
    match choice {
        Some(value) => value,
        None => default,
    }
}

/// What there is to say of the leader key.
pub open spec fn leader_warnings(table: Entries, error: Option<Seq<char>>) -> Seq<Seq<char>> {
    match lookup(table, "leader"@) {
        None => quiet(),
        Some(Toml::Str(_)) => match error {
            None => quiet(),
            Some(error) => seq!["Invalid leader; using Space: "@ + error],
        },
        Some(_) => seq!["leader must be a string; using Space"@],
    }
}

/// The leader key, where it is set and understood.
pub open spec fn leader_of(table: Entries, error: Option<Seq<char>>) -> Option<Seq<char>> {
    if error is None {
        word(table, "leader"@)
    } else {
        None
    }
}

/// The text of an item of a list.
pub open spec fn item_text(item_texts: Seq<Seq<char>>, i: int) -> Seq<char> {
    if 0 <= i < item_texts.len() {
        item_texts[i]
    } else {
        Seq::empty()
    }
}

/// The known names among the items of a list, in order.
pub open spec fn known_names(items: Seq<Toml>, known: Seq<Seq<char>>) -> Seq<Seq<char>>
    decreases items.len(),
{
    if items.len() == 0 {
        Seq::empty()
    } else {
        let before = known_names(items.drop_last(), known);
        match items.last() {
            Toml::Str(name) => if known.contains(name) {
                before.push(name)
            } else {
                before
            },
            _ => before,
        }
    }
}

/// A warning for each item of a list that is no known name, in order.
pub open spec fn unknown_item_warnings(
    items: Seq<Toml>,
    known: Seq<Seq<char>>,
    item_texts: Seq<Seq<char>>,
) -> Seq<Seq<char>>
    decreases items.len(),
{
    if items.len() == 0 {
        quiet()
    } else {
        let before = unknown_item_warnings(items.drop_last(), known, item_texts);
        let last = items.last();
        if last is Str && known.contains(last->Str_0) {
            before
        } else {
            before.push("Ignoring unknown statusline item: "@ + item_text(item_texts, items.len() - 1))
        }
    }
}

/// The items of a side of the status line, where they are set.
pub open spec fn side_items(value: Option<Toml>, known: Seq<Seq<char>>) -> Option<Seq<Seq<char>>> {
    match value {
        Some(Toml::Array(items)) => Some(known_names(items, known)),
        _ => None,
    }
}

/// What there is to say of a side of the status line.
pub open spec fn side_warnings(
    value: Option<Toml>,
    known: Seq<Seq<char>>,
    item_texts: Seq<Seq<char>>,
) -> Seq<Seq<char>> {
    match value {
        None => quiet(),
        Some(Toml::Array(items)) => unknown_item_warnings(items, known, item_texts),
        Some(_) => seq!["statusline entries must be an array of item names"@],
    }
}

/// A warning for each key of a table that is not among `known`, in order.
pub open spec fn unknown_key_warnings(
    table: Entries,
    known: Seq<Seq<char>>,
    message: Seq<char>,
) -> Seq<Seq<char>>
    decreases table.len(),
{
    if table.len() == 0 {
        quiet()
    } else {
        let before = unknown_key_warnings(table.drop_last(), known, message);
        if known.contains(table.last().0) {
            before
        } else {
            before.push(message + table.last().0)
        }
    }
}

/// The value of a side in the table of the status line.
pub open spec fn statusline_side(table: Entries, side: Seq<char>) -> Option<Toml> {
    match lookup(table, "statusline"@) {
        Some(Toml::Table(statusline)) => lookup(statusline, side),
        _ => None,
    }
}

/// What there is to say of the status line.
pub open spec fn statusline_warnings(table: Entries, facts: ConfigFactsView) -> Seq<Seq<char>> {
    match lookup(table, "statusline"@) {
        None => quiet(),
        Some(Toml::Table(statusline)) => unknown_key_warnings(
            statusline,
            seq!["left"@, "right"@],
            "Ignoring unknown statusline key: "@,
        ) + side_warnings(lookup(statusline, "left"@), facts.known_items, facts.left_texts)
            + side_warnings(lookup(statusline, "right"@), facts.known_items, facts.right_texts),
        Some(_) => seq!["statusline must be a table"@],
    }
}

/// The font, where it is set to an absolute path.
pub open spec fn font_of(table: Entries, absolute: Seq<Seq<char>>) -> Option<Seq<char>> {
    match word(table, "font"@) {
        Some(path) => if absolute.contains(path) {
            Some(path)
        } else {
            None
        },
        None => None,
    }
}

/// What there is to say of the font.
pub open spec fn font_warnings(table: Entries, absolute: Seq<Seq<char>>) -> Seq<Seq<char>> {
    match lookup(table, "font"@) {
        None => quiet(),
        Some(Toml::Str(path)) => if absolute.contains(path) {
            quiet()
        } else {
            seq!["Ignoring font because it is not an absolute path: "@ + path]
        },
        Some(_) => seq!["font must be a string"@],
    }
}

/// The names of a list without those that have come before.
pub open spec fn first_seen(names: Seq<Seq<char>>) -> Seq<Seq<char>>
    decreases names.len(),
{
    if names.len() == 0 {
        Seq::empty()
    } else {
        let before = first_seen(names.drop_last());
        if names.drop_last().contains(names.last()) {
            before
        } else {
            before.push(names.last())
        }
    }
}

/// The keys of a table, in order.
pub open spec fn keys_of(table: Entries) -> Seq<Seq<char>> {
    table.map_values(|entry: (Seq<char>, Toml)| entry.0)
}

/// The bookmarks of the names that have an absolute path.
pub open spec fn named_bookmarks(
    names: Seq<Seq<char>>,
    table: Entries,
    absolute: Seq<Seq<char>>,
) -> Seq<(Seq<char>, Seq<char>)>
    decreases names.len(),
{
    if names.len() == 0 {
        Seq::empty()
    } else {
        let before = named_bookmarks(names.drop_last(), table, absolute);
        let name = names.last();
        match lookup(table, name) {
            Some(Toml::Str(path)) => if absolute.contains(path) {
                before.push((name, path))
            } else {
                before
            },
            _ => before,
        }
    }
}

/// What there is to say of the bookmarks with these names.
pub open spec fn named_bookmark_warnings(
    names: Seq<Seq<char>>,
    table: Entries,
    absolute: Seq<Seq<char>>,
) -> Seq<Seq<char>>
    decreases names.len(),
{
    if names.len() == 0 {
        quiet()
    } else {
        let before = named_bookmark_warnings(names.drop_last(), table, absolute);
        let name = names.last();
        match lookup(table, name) {
            None => before,
            Some(Toml::Str(path)) => if absolute.contains(path) {
                before
            } else {
                before.push(
                    "Ignoring bookmark "@ + name + " because it is not an absolute path: "@ + path,
                )
            },
            Some(_) => before.push("Path for bookmark "@ + name + " must be a string"@),
        }
    }
}

/// The names of the bookmarks in the order in which they are taken: as they are
/// defined in the text, then those that were not seen there.
pub open spec fn bookmark_names(bookmarks: Entries, order: Seq<Seq<char>>) -> Seq<Seq<char>> {
    first_seen(order + keys_of(bookmarks))
}

/// The bookmarks.
pub open spec fn bookmarks_of(
    table: Entries,
    order: Seq<Seq<char>>,
    absolute: Seq<Seq<char>>,
) -> Seq<(Seq<char>, Seq<char>)> {
    match lookup(table, "bookmarks"@) {
        Some(Toml::Table(bookmarks)) => named_bookmarks(
            bookmark_names(bookmarks, order),
            bookmarks,
            absolute,
        ),
        _ => Seq::empty(),
    }
}

/// What there is to say of the bookmarks.
pub open spec fn bookmark_warnings(
    table: Entries,
    order: Seq<Seq<char>>,
    absolute: Seq<Seq<char>>,
) -> Seq<Seq<char>> {
    match lookup(table, "bookmarks"@) {
        None => quiet(),
        Some(Toml::Table(bookmarks)) => named_bookmark_warnings(
            bookmark_names(bookmarks, order),
            bookmarks,
            absolute,
        ),
        Some(_) => seq!["bookmarks must be a table"@],
    }
}

/// The sequences of a key map that have an action, in order.
pub open spec fn keymap_pairs(normal: Entries) -> Seq<(Seq<char>, Seq<char>)>
    decreases normal.len(),
{
    if normal.len() == 0 {
        Seq::empty()
    } else {
        let before = keymap_pairs(normal.drop_last());
        match normal.last().1 {
            Toml::Str(action) => before.push((normal.last().0, action)),
            _ => before,
        }
    }
}

/// A warning for each sequence of a key map that has no action, in order.
pub open spec fn keymap_entry_warnings(normal: Entries) -> Seq<Seq<char>>
    decreases normal.len(),
{
    if normal.len() == 0 {
        quiet()
    } else {
        let before = keymap_entry_warnings(normal.drop_last());
        match normal.last().1 {
            Toml::Str(_) => before,
            _ => before.push(
                "keymap.normal entry "@ + debug_of(normal.last().0) + " must be a string"@,
            ),
        }
    }
}

/// The key map, where it is set.
pub open spec fn keymap_of(table: Entries) -> Option<Seq<(Seq<char>, Seq<char>)>> {
    match lookup(table, "keymap"@) {
        Some(Toml::Table(keymap)) => match lookup(keymap, "normal"@) {
            Some(Toml::Table(normal)) => Some(keymap_pairs(normal)),
            _ => Some(Seq::empty()),
        },
        _ => None,
    }
}

/// Each of `warnings` with `prefix` before it.
pub open spec fn prefixed(warnings: Seq<Seq<char>>, prefix: Seq<char>) -> Seq<Seq<char>> {
    warnings.map_values(|warning: Seq<char>| prefix + warning)
}

/// What there is to say of the key map.
pub open spec fn keymap_warnings(table: Entries, complaints: Seq<Seq<char>>) -> Seq<Seq<char>> {
    match lookup(table, "keymap"@) {
        None => quiet(),
        Some(Toml::Table(keymap)) => unknown_key_warnings(
            keymap,
            seq!["normal"@],
            "Ignoring unsupported keymap section: "@,
        ) + (match lookup(keymap, "normal"@) {
            None => quiet(),
            Some(Toml::Table(normal)) => keymap_entry_warnings(normal),
            Some(_) => seq!["keymap.normal must be a table"@],
        }) + prefixed(complaints, "keymap: "@),
        Some(_) => seq!["keymap must be a table"@],
    }
}

/// The keys that the settings know.
pub open spec fn known_keys() -> Seq<Seq<char>> {
    seq![
        "show_hidden"@,
        "sort"@,
        "sort_key"@,
        "sort_reverse"@,
        "restore_session"@,
        "terminal"@,
        "feedback_url"@,
        "confirm_detail"@,
        "font"@,
        "bookmarks"@,
        "leader"@,
        "keymap"@,
        "statusline"@,
    ]
}

/// The settings in a table.
pub open spec fn config_of(
    table: Entries,
    order: Seq<Seq<char>>,
    facts: ConfigFactsView,
) -> ConfigView {
    ConfigView {
        show_hidden: flag(table, "show_hidden"@, false),
        sort: or_default(sort_of(word(table, "sort"@)), SortOrder::DirsFirst),
        sort_key: or_default(sort_key_of(word(table, "sort_key"@)), SortKey::Name),
        sort_reverse: flag(table, "sort_reverse"@, false),
        restore_session: flag(table, "restore_session"@, true),
        terminal: or_default(terminal_of(word(table, "terminal"@)), TerminalKind::Auto),
        feedback_url: word(table, "feedback_url"@),
        confirm_detail: or_default(detail_of(word(table, "confirm_detail"@)), ConfirmDetail::Full),
        font: font_of(table, facts.absolute),
        bookmarks: bookmarks_of(table, order, facts.absolute),
        leader: leader_of(table, facts.leader_error),
        keymap: keymap_of(table),
        statusline_left: side_items(statusline_side(table, "left"@), facts.known_items),
        statusline_right: side_items(statusline_side(table, "right"@), facts.known_items),
    }
}

/// What there is to say of the settings in a table, setting by setting.
pub open spec fn config_warnings(
    table: Entries,
    order: Seq<Seq<char>>,
    facts: ConfigFactsView,
) -> Seq<Seq<char>> {
    leader_warnings(table, facts.leader_error)
        + flag_warnings(table, "show_hidden"@)
        + complaint_unless(
        table,
        "sort"@,
        sort_of(word(table, "sort"@)) is Some,
        "sort must be \"dirs_first\" or \"mixed\""@,
    ) + complaint_unless(
        table,
        "sort_key"@,
        sort_key_of(word(table, "sort_key"@)) is Some,
        "sort_key must be \"name\", \"date\", \"size\", or \"ext\""@,
    ) + flag_warnings(table, "sort_reverse"@)
        + flag_warnings(table, "restore_session"@)
        + complaint_unless(
        table,
        "terminal"@,
        terminal_of(word(table, "terminal"@)) is Some,
        "terminal must be \"auto\", \"windows_terminal\", \"powershell\", or \"cmd\""@,
    ) + complaint_unless(
        table,
        "feedback_url"@,
        word(table, "feedback_url"@) is Some,
        "feedback_url must be a string"@,
    ) + statusline_warnings(table, facts)
        + complaint_unless(
        table,
        "confirm_detail"@,
        detail_of(word(table, "confirm_detail"@)) is Some,
        "confirm_detail must be \"full\" or \"summary\""@,
    ) + font_warnings(table, facts.absolute)
        + bookmark_warnings(table, order, facts.absolute)
        + keymap_warnings(table, facts.keymap_warnings)
        + unknown_key_warnings(table, known_keys(), "Ignoring unknown configuration key: "@)
}

/// Adds a warning.
fn warn(warnings: &mut Vec<String>, message: String)
    ensures
        texts(final(warnings)@) == texts(old(warnings)@).push(message@),
{
    warnings.push(message);
    assert(texts(warnings@) =~= texts(old(warnings)@).push(message@));
}

/// Reads a setting that is on or off.
fn read_flag(table: &TomlTable, key: &str, default: bool, warnings: &mut Vec<String>) -> (r: bool)
    ensures
        r == flag(table@, key@, default),
        texts(final(warnings)@) == texts(old(warnings)@) + flag_warnings(table@, key@),
{
    let flag = match table.get(key) {
        None => default,
        Some(TomlValue::Boolean(flag)) => *flag,
        Some(_) => {
            warn(warnings, key.to_owned().concat(" must be true or false"));
            default
        },
    };
    assert(texts(warnings@) =~= texts(old(warnings)@) + flag_warnings(table@, key@));
    flag
}

/// Reads a setting that is a text.
fn read_word<'a>(table: &'a TomlTable, key: &str) -> (r: Option<&'a String>)
    ensures
        match r {
            Some(text) => word(table@, key@) == Some(text@),
            None => word(table@, key@) is None,
        },
{
    match table.get(key) {
        Some(TomlValue::Str(text)) => Some(text),
        _ => None,
    }
}

/// Adds `message` where a setting is there and not understood.
fn warn_unless(
    table: &TomlTable,
    key: &str,
    understood: bool,
    message: &str,
    warnings: &mut Vec<String>,
)
    ensures
        texts(final(warnings)@) == texts(old(warnings)@) + complaint_unless(
            table@,
            key@,
            understood,
            message@,
        ),
{
    if !understood && table.get(key).is_some() {
        warn(warnings, message.to_owned());
    }
    assert(texts(warnings@) =~= texts(old(warnings)@) + complaint_unless(
        table@,
        key@,
        understood,
        message@,
    ));
}

/// Whether `text` is there and is `expected`.
fn is_word(text: Option<&String>, expected: &str) -> (r: bool)
    ensures
        r == (text matches Some(text) && text@ == expected@),
{
    match text {
        Some(text) => same_text(text.as_str(), expected),
        None => false,
    }
}

/// The order that a word stands for.
fn parse_sort(text: Option<&String>) -> (r: Option<SortOrder>)
    ensures
        r == sort_of(word_view(text)),
{
    if is_word(text, "dirs_first") {
        Some(SortOrder::DirsFirst)
    } else if is_word(text, "mixed") {
        Some(SortOrder::Mixed)
    } else {
        None
    }
}

/// An optional text.
pub open spec fn word_view(text: Option<&String>) -> Option<Seq<char>> {
    match text {
        Some(text) => Some(text@),
        None => None,
    }
}

/// The sort key that a word stands for.
fn parse_sort_key(text: Option<&String>) -> (r: Option<SortKey>)
    ensures
        r == sort_key_of(word_view(text)),
{
    if is_word(text, "name") {
        Some(SortKey::Name)
    } else if is_word(text, "date") {
        Some(SortKey::Date)
    } else if is_word(text, "size") {
        Some(SortKey::Size)
    } else if is_word(text, "ext") {
        Some(SortKey::Extension)
    } else {
        None
    }
}

/// The terminal that a word stands for.
fn parse_terminal(text: Option<&String>) -> (r: Option<TerminalKind>)
    ensures
        r == terminal_of(word_view(text)),
{
    if is_word(text, "auto") {
        Some(TerminalKind::Auto)
    } else if is_word(text, "windows_terminal") {
        Some(TerminalKind::WindowsTerminal)
    } else if is_word(text, "powershell") {
        Some(TerminalKind::PowerShell)
    } else if is_word(text, "cmd") {
        Some(TerminalKind::Cmd)
    } else {
        None
    }
}

/// The detail that a word stands for.
fn parse_detail(text: Option<&String>) -> (r: Option<ConfirmDetail>)
    ensures
        r == detail_of(word_view(text)),
{
    if is_word(text, "full") {
        Some(ConfirmDetail::Full)
    } else if is_word(text, "summary") {
        Some(ConfirmDetail::Summary)
    } else {
        None
    }
}

/// Reads the leader key.
fn read_leader(table: &TomlTable, error: &Option<String>, warnings: &mut Vec<String>) -> (r: Option<
    String,
>)
    ensures
        text_view(r) == leader_of(table@, text_view(*error)),
        texts(final(warnings)@) == texts(old(warnings)@) + leader_warnings(
            table@,
            text_view(*error),
        ),
{
    let leader = match table.get("leader") {
        None => None,
        Some(TomlValue::Str(text)) => match error {
            None => Some(text.clone()),
            Some(error) => {
                warn(warnings, "Invalid leader; using Space: ".to_owned().concat(error.as_str()));
                None
            },
        },
        Some(_) => {
            warn(warnings, "leader must be a string; using Space".to_owned());
            None
        },
    };
    assert(texts(warnings@) =~= texts(old(warnings)@) + leader_warnings(
        table@,
        text_view(*error),
    ));
    leader
}

/// The items of one side of the status line, where they are set.
fn parse_statusline_items(
    value: Option<&TomlValue>,
    known: &Vec<String>,
    item_texts: &Vec<String>,
    warnings: &mut Vec<String>,
) -> (r: Option<Vec<String>>)
    ensures
        texts_view(r) == side_items(toml_view(value), texts(known@)),
        texts(final(warnings)@) == texts(old(warnings)@) + side_warnings(
            toml_view(value),
            texts(known@),
            texts(item_texts@),
        ),
{
    let value = match value {
        None => {
            assert(texts(warnings@) =~= texts(old(warnings)@) + quiet());
            return None;
        },
        Some(value) => value,
    };
    let array = match value {
        TomlValue::Array(array) => array,
        _ => {
            warn(warnings, "statusline entries must be an array of item names".to_owned());
            assert(texts(warnings@) =~= texts(old(warnings)@) + seq![
                "statusline entries must be an array of item names"@,
            ]);
            return None;
        },
    };
    let ghost all = value@->Array_0;
    let ghost start = texts(old(warnings)@);
    let ghost known_view = texts(known@);
    let ghost shown_view = texts(item_texts@);
    let mut items: Vec<String> = Vec::new();
    let mut i: usize = 0;
    assert(all.take(0) =~= Seq::empty());
    assert(texts(items@) =~= Seq::empty());
    assert(texts(warnings@) =~= start + quiet());
    while i < array.len()
        invariant
            i <= array@.len(),
            all.len() == array@.len(),
            forall|j: int| 0 <= j < all.len() ==> #[trigger] all[j] == array@[j]@,
            known_view == texts(known@),
            shown_view == texts(item_texts@),
            texts(items@) == known_names(all.take(i as int), known_view),
            texts(warnings@) == start + unknown_item_warnings(
                all.take(i as int),
                known_view,
                shown_view,
            ),
        decreases array@.len() - i,
    {
        let ghost next = all.take(i + 1);
        let ghost items_before = texts(items@);
        let ghost warnings_before = unknown_item_warnings(
            all.take(i as int),
            known_view,
            shown_view,
        );
        proof {
            assert(next.drop_last() =~= all.take(i as int));
            assert(next.last() == array@[i as int]@);
        }
        let known_name = match &array[i] {
            TomlValue::Str(name) => if contains_text(known, name.as_str()) {
                Some(name.clone())
            } else {
                None
            },
            _ => None,
        };
        match known_name {
            Some(name) => {
                items.push(name);
                assert(texts(items@) =~= items_before.push(name@));
            },
            None => {
                let text = if i < item_texts.len() {
                    item_texts[i].clone()
                } else {
                    String::new()
                };
                assert(text@ =~= item_text(shown_view, i as int));
                warn(
                    warnings,
                    "Ignoring unknown statusline item: ".to_owned().concat(text.as_str()),
                );
                assert(texts(warnings@) =~= start + warnings_before.push(
                    "Ignoring unknown statusline item: "@ + text@,
                ));
            },
        }
        i = i + 1;
    }
    assert(all.take(i as int) =~= all);
    Some(items)
}

/// The meaning of an optional value.
pub open spec fn toml_view(value: Option<&TomlValue>) -> Option<Toml> {
    match value {
        Some(value) => Some(value@),
        None => None,
    }
}

/// Adds a warning for each key of a table that is not among `known`.
fn warn_unknown_keys(
    table: &TomlTable,
    known: &Vec<String>,
    message: &str,
    warnings: &mut Vec<String>,
)
    ensures
        texts(final(warnings)@) == texts(old(warnings)@) + unknown_key_warnings(
            table@,
            texts(known@),
            message@,
        ),
{
    let ghost start = texts(old(warnings)@);
    let ghost all = table@;
    let ghost known_view = texts(known@);
    let mut i: usize = 0;
    assert(all.take(0) =~= Seq::empty());
    assert(texts(warnings@) =~= start + quiet());
    while i < table.entries.len()
        invariant
            i <= table.entries@.len(),
            all == table@,
            known_view == texts(known@),
            texts(warnings@) == start + unknown_key_warnings(
                all.take(i as int),
                known_view,
                message@,
            ),
        decreases table.entries@.len() - i,
    {
        let ghost next = all.take(i + 1);
        let ghost before = unknown_key_warnings(all.take(i as int), known_view, message@);
        proof {
            assert(next.drop_last() =~= all.take(i as int));
            assert(next.last().0 == table.entries@[i as int].key@);
        }
        let key = &table.entries[i].key;
        if !contains_text(known, key.as_str()) {
            warn(warnings, message.to_owned().concat(key.as_str()));
            assert(texts(warnings@) =~= start + before.push(message@ + key@));
        }
        i = i + 1;
    }
    assert(all.take(i as int) =~= all);
}

/// Reads both sides of the status line.
fn read_statusline(table: &TomlTable, facts: &ConfigFacts, warnings: &mut Vec<String>) -> (r: (
    Option<Vec<String>>,
    Option<Vec<String>>,
))
    ensures
        texts_view(r.0) == side_items(statusline_side(table@, "left"@), facts@.known_items),
        texts_view(r.1) == side_items(statusline_side(table@, "right"@), facts@.known_items),
        texts(final(warnings)@) == texts(old(warnings)@) + statusline_warnings(table@, facts@),
{
    let ghost start = texts(old(warnings)@);
    match table.get("statusline") {
        None => {
            assert(texts(warnings@) =~= start + quiet());
            (None, None)
        },
        Some(TomlValue::Table(statusline)) => {
            let mut sides: Vec<String> = Vec::new();
            sides.push("left".to_owned());
            sides.push("right".to_owned());
            assert(texts(sides@) =~= seq!["left"@, "right"@]);
            warn_unknown_keys(statusline, &sides, "Ignoring unknown statusline key: ", warnings);
            let left = parse_statusline_items(
                statusline.get("left"),
                &facts.known_items,
                &facts.left_texts,
                warnings,
            );
            let right = parse_statusline_items(
                statusline.get("right"),
                &facts.known_items,
                &facts.right_texts,
                warnings,
            );
            assert(texts(warnings@) =~= start + statusline_warnings(table@, facts@));
            (left, right)
        },
        Some(_) => {
            warn(warnings, "statusline must be a table".to_owned());
            assert(texts(warnings@) =~= start + seq!["statusline must be a table"@]);
            (None, None)
        },
    }
}

/// Reads the font.
fn read_font(table: &TomlTable, absolute: &Vec<String>, warnings: &mut Vec<String>) -> (r: Option<
    String,
>)
    ensures
        text_view(r) == font_of(table@, texts(absolute@)),
        texts(final(warnings)@) == texts(old(warnings)@) + font_warnings(table@, texts(absolute@)),
{
    let font = match table.get("font") {
        None => None,
        Some(TomlValue::Str(path)) => if contains_text(absolute, path.as_str()) {
            Some(path.clone())
        } else {
            warn(
                warnings,
                "Ignoring font because it is not an absolute path: ".to_owned().concat(
                    path.as_str(),
                ),
            );
            None
        },
        Some(_) => {
            warn(warnings, "font must be a string".to_owned());
            None
        },
    };
    assert(texts(warnings@) =~= texts(old(warnings)@) + font_warnings(table@, texts(absolute@)));
    font
}

/// The names of a list without those that have come before.
fn distinct_names(names: &Vec<String>) -> (r: Vec<String>)
    ensures
        texts(r@) == first_seen(texts(names@)),
{
    let ghost all = texts(names@);
    let mut distinct: Vec<String> = Vec::new();
    let mut i: usize = 0;
    assert(all.take(0) =~= Seq::empty());
    assert(texts(distinct@) =~= Seq::empty());
    while i < names.len()
        invariant
            i <= names@.len(),
            all == texts(names@),
            texts(distinct@) == first_seen(all.take(i as int)),
        decreases names@.len() - i,
    {
        let ghost next = all.take(i + 1);
        let ghost before = texts(distinct@);
        proof {
            assert(next.drop_last() =~= all.take(i as int));
            lemma_first_seen_contains(all.take(i as int), next.last());
        }
        if !contains_text(&distinct, names[i].as_str()) {
            distinct.push(names[i].clone());
            assert(texts(distinct@) =~= before.push(next.last()));
        }
        i = i + 1;
    }
    assert(all.take(i as int) =~= all);
    distinct
}

/// A name is among the first seen names exactly when it is among the names.
pub proof fn lemma_first_seen_contains(names: Seq<Seq<char>>, name: Seq<char>)
    ensures
        first_seen(names).contains(name) == names.contains(name),
    decreases names.len(),
{
    if names.len() > 0 {
        let shorter = names.drop_last();
        let before = first_seen(shorter);
        lemma_first_seen_contains(shorter, name);
        if names.contains(name) {
            let i = choose|i: int| 0 <= i < names.len() && names[i] == name;
            if i < shorter.len() {
                assert(shorter[i] == name);
                assert(before.contains(name));
                let j = choose|j: int| 0 <= j < before.len() && before[j] == name;
                assert(first_seen(names)[j] == name);
            } else if shorter.contains(names.last()) {
                lemma_first_seen_contains(shorter, names.last());
            } else {
                assert(first_seen(names)[before.len() as int] == name);
            }
        } else {
            assert forall|j: int| 0 <= j < first_seen(names).len() implies first_seen(names)[j]
                != name by {
                if j < before.len() {
                    assert(before[j] == first_seen(names)[j]);
                    if before[j] == name {
                        assert(before.contains(name));
                        let k = choose|k: int| 0 <= k < shorter.len() && shorter[k] == name;
                        assert(names[k] == name);
                    }
                } else {
                    assert(first_seen(names)[j] == names.last());
                    assert(names[names.len() - 1] == names.last());
                }
            }
        }
    }
}

/// Reads the bookmarks with these names.
fn read_named_bookmarks(
    names: &Vec<String>,
    table: &TomlTable,
    absolute: &Vec<String>,
    warnings: &mut Vec<String>,
) -> (r: Vec<(String, String)>)
    ensures
        pairs(r@) == named_bookmarks(texts(names@), table@, texts(absolute@)),
        texts(final(warnings)@) == texts(old(warnings)@) + named_bookmark_warnings(
            texts(names@),
            table@,
            texts(absolute@),
        ),
{
    let ghost start = texts(old(warnings)@);
    let ghost all = texts(names@);
    let ghost absolute_view = texts(absolute@);
    let mut bookmarks: Vec<(String, String)> = Vec::new();
    let mut i: usize = 0;
    assert(all.take(0) =~= Seq::empty());
    assert(pairs(bookmarks@) =~= Seq::empty());
    assert(texts(warnings@) =~= start + quiet());
    while i < names.len()
        invariant
            i <= names@.len(),
            all == texts(names@),
            absolute_view == texts(absolute@),
            pairs(bookmarks@) == named_bookmarks(all.take(i as int), table@, absolute_view),
            texts(warnings@) == start + named_bookmark_warnings(
                all.take(i as int),
                table@,
                absolute_view,
            ),
        decreases names@.len() - i,
    {
        let ghost next = all.take(i + 1);
        let ghost bookmarks_before = pairs(bookmarks@);
        let ghost before = named_bookmark_warnings(all.take(i as int), table@, absolute_view);
        proof {
            assert(next.drop_last() =~= all.take(i as int));
            assert(next.last() == names@[i as int]@);
        }
        let name = &names[i];
        match table.get(name.as_str()) {
            None => {},
            Some(TomlValue::Str(path)) => {
                if contains_text(absolute, path.as_str()) {
                    bookmarks.push((name.clone(), path.clone()));
                    assert(pairs(bookmarks@) =~= bookmarks_before.push((name@, path@)));
                } else {
                    let message = "Ignoring bookmark ".to_owned().concat(name.as_str()).concat(
                        " because it is not an absolute path: ",
                    ).concat(path.as_str());
                    warn(warnings, message);
                    assert(texts(warnings@) =~= start + before.push(message@));
                }
            },
            Some(_) => {
                let message = "Path for bookmark ".to_owned().concat(name.as_str()).concat(
                    " must be a string",
                );
                warn(warnings, message);
                assert(texts(warnings@) =~= start + before.push(message@));
            },
        }
        i = i + 1;
    }
    assert(all.take(i as int) =~= all);
    bookmarks
}

/// Reads the bookmarks.
fn read_bookmarks(
    table: &TomlTable,
    order: &Vec<String>,
    absolute: &Vec<String>,
    warnings: &mut Vec<String>,
) -> (r: Vec<(String, String)>)
    ensures
        pairs(r@) == bookmarks_of(table@, texts(order@), texts(absolute@)),
        texts(final(warnings)@) == texts(old(warnings)@) + bookmark_warnings(
            table@,
            texts(order@),
            texts(absolute@),
        ),
{
    let ghost start = texts(old(warnings)@);
    match table.get("bookmarks") {
        None => {
            let none: Vec<(String, String)> = Vec::new();
            assert(pairs(none@) =~= Seq::empty());
            assert(texts(warnings@) =~= start + quiet());
            none
        },
        Some(TomlValue::Table(bookmarks)) => {
            let mut names: Vec<String> = order.clone();
            assert(names@ =~= order@);
            let mut i: usize = 0;
            assert(texts(names@) =~= texts(order@) + keys_of(bookmarks@).take(0));
            while i < bookmarks.entries.len()
                invariant
                    i <= bookmarks.entries@.len(),
                    texts(names@) == texts(order@) + keys_of(bookmarks@).take(i as int),
                decreases bookmarks.entries@.len() - i,
            {
                let ghost before = texts(names@);
                names.push(bookmarks.entries[i].key.clone());
                assert(texts(names@) =~= before.push(bookmarks.entries@[i as int].key@));
                assert(keys_of(bookmarks@).take(i + 1) =~= keys_of(bookmarks@).take(i as int).push(
                    bookmarks.entries@[i as int].key@,
                ));
                i = i + 1;
                assert(texts(names@) =~= texts(order@) + keys_of(bookmarks@).take(i as int));
            }
            assert(keys_of(bookmarks@).take(i as int) =~= keys_of(bookmarks@));
            let distinct = distinct_names(&names);
            read_named_bookmarks(&distinct, bookmarks, absolute, warnings)
        },
        Some(_) => {
            warn(warnings, "bookmarks must be a table".to_owned());
            let none: Vec<(String, String)> = Vec::new();
            assert(pairs(none@) =~= Seq::empty());
            assert(texts(warnings@) =~= start + seq!["bookmarks must be a table"@]);
            none
        },
    }
}

/// Reads the sequences of a key map.
fn read_normal_keymap(normal: &TomlTable, warnings: &mut Vec<String>) -> (r: Vec<(String, String)>)
    ensures
        pairs(r@) == keymap_pairs(normal@),
        texts(final(warnings)@) == texts(old(warnings)@) + keymap_entry_warnings(normal@),
{
    let ghost start = texts(old(warnings)@);
    let ghost all = normal@;
    let mut entries: Vec<(String, String)> = Vec::new();
    let mut i: usize = 0;
    assert(all.take(0) =~= Seq::empty());
    assert(pairs(entries@) =~= Seq::empty());
    assert(texts(warnings@) =~= start + quiet());
    while i < normal.entries.len()
        invariant
            i <= normal.entries@.len(),
            all == normal@,
            pairs(entries@) == keymap_pairs(all.take(i as int)),
            texts(warnings@) == start + keymap_entry_warnings(all.take(i as int)),
        decreases normal.entries@.len() - i,
    {
        let ghost next = all.take(i + 1);
        let ghost entries_before = pairs(entries@);
        let ghost before = keymap_entry_warnings(all.take(i as int));
        proof {
            assert(next.drop_last() =~= all.take(i as int));
            assert(next.last() == (
                normal.entries@[i as int].key@,
                normal.entries@[i as int].value@,
            ));
        }
        let entry = &normal.entries[i];
        match &entry.value {
            TomlValue::Str(action) => {
                entries.push((entry.key.clone(), action.clone()));
                assert(pairs(entries@) =~= entries_before.push((entry.key@, action@)));
            },
            _ => {
                let message = "keymap.normal entry ".to_owned().concat(
                    debug_text(entry.key.as_str()).as_str(),
                ).concat(" must be a string");
                warn(warnings, message);
                assert(texts(warnings@) =~= start + before.push(message@));
            },
        }
        i = i + 1;
    }
    assert(all.take(i as int) =~= all);
    entries
}

/// Reads the key map.
fn read_keymap(table: &TomlTable, complaints: &Vec<String>, warnings: &mut Vec<String>) -> (r: Option<
    Vec<(String, String)>,
>)
    ensures
        (match r {
            Some(entries) => Some(pairs(entries@)),
            None => None,
        }) == keymap_of(table@),
        texts(final(warnings)@) == texts(old(warnings)@) + keymap_warnings(
            table@,
            texts(complaints@),
        ),
{
    let ghost start = texts(old(warnings)@);
    let keymap = match table.get("keymap") {
        None => {
            assert(texts(warnings@) =~= start + quiet());
            return None;
        },
        Some(TomlValue::Table(keymap)) => keymap,
        Some(_) => {
            warn(warnings, "keymap must be a table".to_owned());
            assert(texts(warnings@) =~= start + seq!["keymap must be a table"@]);
            return None;
        },
    };
    let mut sections: Vec<String> = Vec::new();
    sections.push("normal".to_owned());
    assert(texts(sections@) =~= seq!["normal"@]);
    warn_unknown_keys(keymap, &sections, "Ignoring unsupported keymap section: ", warnings);
    let ghost sectioned = texts(warnings@);
    let ghost middle = match lookup(keymap@, "normal"@) {
        None => quiet(),
        Some(Toml::Table(normal)) => keymap_entry_warnings(normal),
        Some(_) => seq!["keymap.normal must be a table"@],
    };
    let entries = match keymap.get("normal") {
        None => {
            let none: Vec<(String, String)> = Vec::new();
            assert(pairs(none@) =~= Seq::empty());
            none
        },
        Some(TomlValue::Table(normal)) => read_normal_keymap(normal, warnings),
        Some(_) => {
            warn(warnings, "keymap.normal must be a table".to_owned());
            let none: Vec<(String, String)> = Vec::new();
            assert(pairs(none@) =~= Seq::empty());
            none
        },
    };
    assert(texts(warnings@) =~= sectioned + middle);
    let ghost complained = prefixed(texts(complaints@), "keymap: "@);
    let mut i: usize = 0;
    assert(texts(warnings@) =~= sectioned + middle + complained.take(0));
    while i < complaints.len()
        invariant
            i <= complaints@.len(),
            complained == prefixed(texts(complaints@), "keymap: "@),
            texts(warnings@) == sectioned + middle + complained.take(i as int),
        decreases complaints@.len() - i,
    {
        let ghost before = texts(warnings@);
        let message = "keymap: ".to_owned().concat(complaints[i].as_str());
        warn(warnings, message);
        assert(complained[i as int] == message@);
        assert(complained.take(i + 1) =~= complained.take(i as int).push(message@));
        i = i + 1;
        assert(texts(warnings@) =~= sectioned + middle + complained.take(i as int));
    }
    assert(complained.take(i as int) =~= complained);
    assert(texts(warnings@) =~= start + keymap_warnings(table@, texts(complaints@)));
    Some(entries)
}

/// The keys that the settings know.
fn known_key_list() -> (r: Vec<String>)
    ensures
        texts(r@) == known_keys(),
{
    let mut keys: Vec<String> = Vec::new();
    keys.push("show_hidden".to_owned());
    keys.push("sort".to_owned());
    keys.push("sort_key".to_owned());
    keys.push("sort_reverse".to_owned());
    keys.push("restore_session".to_owned());
    keys.push("terminal".to_owned());
    keys.push("feedback_url".to_owned());
    keys.push("confirm_detail".to_owned());
    keys.push("font".to_owned());
    keys.push("bookmarks".to_owned());
    keys.push("leader".to_owned());
    keys.push("keymap".to_owned());
    keys.push("statusline".to_owned());
    assert(texts(keys@) =~= known_keys());
    keys
}

/// The settings in a table and what there is to say of them.
pub fn config_from_table(table: &TomlTable, order: &Vec<String>, facts: &ConfigFacts) -> (r: (
    Config,
    Vec<String>,
))
    ensures
        r.0@ == config_of(table@, texts(order@), facts@),
        texts(r.1@) == config_warnings(table@, texts(order@), facts@),
{
    let mut warnings: Vec<String> = Vec::new();
    let leader = read_leader(table, &facts.leader_error, &mut warnings);
    let show_hidden = read_flag(table, "show_hidden", false, &mut warnings);
    let sort = parse_sort(read_word(table, "sort"));
    warn_unless(
        table,
        "sort",
        sort.is_some(),
        "sort must be \"dirs_first\" or \"mixed\"",
        &mut warnings,
    );
    let sort_key = parse_sort_key(read_word(table, "sort_key"));
    warn_unless(
        table,
        "sort_key",
        sort_key.is_some(),
        "sort_key must be \"name\", \"date\", \"size\", or \"ext\"",
        &mut warnings,
    );
    let sort_reverse = read_flag(table, "sort_reverse", false, &mut warnings);
    let restore_session = read_flag(table, "restore_session", true, &mut warnings);
    let terminal = parse_terminal(read_word(table, "terminal"));
    warn_unless(
        table,
        "terminal",
        terminal.is_some(),
        "terminal must be \"auto\", \"windows_terminal\", \"powershell\", or \"cmd\"",
        &mut warnings,
    );
    let feedback_url = match read_word(table, "feedback_url") {
        Some(url) => Some(url.clone()),
        None => None,
    };
    warn_unless(
        table,
        "feedback_url",
        feedback_url.is_some(),
        "feedback_url must be a string",
        &mut warnings,
    );
    let (statusline_left, statusline_right) = read_statusline(table, facts, &mut warnings);
    let confirm_detail = parse_detail(read_word(table, "confirm_detail"));
    warn_unless(
        table,
        "confirm_detail",
        confirm_detail.is_some(),
        "confirm_detail must be \"full\" or \"summary\"",
        &mut warnings,
    );
    let font = read_font(table, &facts.absolute, &mut warnings);
    let bookmarks = read_bookmarks(table, order, &facts.absolute, &mut warnings);
    let keymap = read_keymap(table, &facts.keymap_warnings, &mut warnings);
    warn_unknown_keys(
        table,
        &known_key_list(),
        "Ignoring unknown configuration key: ",
        &mut warnings,
    );
    let config = Config {
        show_hidden,
        sort: sort.unwrap_or(SortOrder::DirsFirst),
        sort_key: sort_key.unwrap_or(SortKey::Name),
        sort_reverse,
        restore_session,
        terminal: terminal.unwrap_or(TerminalKind::Auto),
        feedback_url,
        confirm_detail: confirm_detail.unwrap_or(ConfirmDetail::Full),
        font,
        bookmarks,
        leader,
        keymap,
        statusline_left,
        statusline_right,
    };
    assert(texts(warnings@) =~= config_warnings(table@, texts(order@), facts@));
    (config, warnings)
}

/// The names of the bookmarks that a text defines, by name; none where the text is no
/// document.
pub open spec fn bookmark_keys(source: Seq<char>) -> Option<Seq<Seq<char>>> {
    match parsed(source) {
        Ok(value) => match lookup(value->Table_0, "bookmarks"@) {
            Some(Toml::Table(bookmarks)) => Some(keys_of(bookmarks)),
            _ => Some(Seq::empty()),
        },
        Err(_) => None,
    }
}

/// Names, with those of `found` behind them that were not there.
pub open spec fn with_new(names: Seq<Seq<char>>, found: Seq<Seq<char>>) -> Seq<Seq<char>>
    decreases found.len(),
{
    if found.len() == 0 {
        names
    } else {
        let before = with_new(names, found.drop_last());
        if before.contains(found.last()) {
            before
        } else {
            before.push(found.last())
        }
    }
}

/// Names, with those behind them that the first `n` characters of a text define, once
/// the brace that may be open there is closed.
pub open spec fn with_closed(source: Seq<char>, n: int, names: Seq<Seq<char>>) -> Seq<Seq<char>> {
    match bookmark_keys(source.take(n).push('}')) {
        Some(found) => with_new(names, found),
        None => names,
    }
}

/// Names, with those behind them that a text defines between two places, one character
/// after the other.
pub open spec fn named_within(
    source: Seq<char>,
    from: int,
    to: int,
    names: Seq<Seq<char>>,
) -> Seq<Seq<char>>
    decreases to - from,
{
    if to <= from {
        names
    } else {
        with_closed(source, to - 1, named_within(source, from, to - 1, names))
    }
}

/// Whether a line of a text ends after `n` characters.
pub open spec fn is_line_end(source: Seq<char>, n: int) -> bool {
    0 < n <= source.len() && (n == source.len() || source[n - 1] == '\n')
}

/// Names, with those behind them that a text defines up to the end of a line, where
/// `names` are those that it defines up to `from`. Where more than one is defined in
/// between, the text is looked at character by character.
pub open spec fn named_by_line(
    source: Seq<char>,
    from: int,
    n: int,
    names: Seq<Seq<char>>,
    found: Seq<Seq<char>>,
) -> Seq<Seq<char>> {
    if with_new(names, found).len() <= names.len() + 1 {
        with_new(names, found)
    } else {
        with_new(named_within(source, from, n, names), found)
    }
}

/// The names of the bookmarks that the first `n` characters of a text define, in the order
/// of their definition, and how far the last lines reach that are a document.
pub open spec fn defined_before(source: Seq<char>, n: int) -> (Seq<Seq<char>>, int)
    decreases n,
{
    if n <= 0 {
        (Seq::empty(), 0)
    } else {
        let (names, from) = defined_before(source, n - 1);
        if is_line_end(source, n) {
            match bookmark_keys(source.take(n)) {
                Some(found) => (named_by_line(source, from, n, names, found), n),
                None => (names, from),
            }
        } else {
            (names, from)
        }
    }
}

/// The names of the bookmarks in the order in which a text defines them.
pub open spec fn defined_names(source: Seq<char>) -> Seq<Seq<char>> {
    defined_before(source, source.len() as int).0
}

/// The names of the bookmarks that a text defines, by name.
fn read_bookmark_keys(source: &str) -> (r: Option<Vec<String>>)
    ensures
        match r {
            Some(names) => bookmark_keys(source@) == Some(texts(names@)),
            None => bookmark_keys(source@) is None,
        },
{
    match read_toml(source) {
        Err(_) => None,
        Ok(table) => {
            let mut names: Vec<String> = Vec::new();
            assert(texts(names@) =~= Seq::empty());
            if let Some(TomlValue::Table(bookmarks)) = table.get("bookmarks") {
                let ghost keys = keys_of(bookmarks@);
                let mut i: usize = 0;
                while i < bookmarks.entries.len()
                    invariant
                        i <= bookmarks.entries@.len(),
                        keys == keys_of(bookmarks@),
                        keys.len() == bookmarks.entries@.len(),
                        texts(names@) == keys.take(i as int),
                    decreases bookmarks.entries@.len() - i,
                {
                    let ghost before = texts(names@);
                    names.push(bookmarks.entries[i].key.clone());
                    assert(keys[i as int] == bookmarks.entries@[i as int].key@);
                    assert(texts(names@) =~= before.push(keys[i as int]));
                    assert(keys.take(i + 1) =~= keys.take(i as int).push(keys[i as int]));
                    i = i + 1;
                }
                assert(keys.take(i as int) =~= keys);
            }
            Some(names)
        },
    }
}

/// Puts the names of `found` behind `names` that are not there.
fn add_new(names: &mut Vec<String>, found: &Vec<String>)
    ensures
        texts(final(names)@) == with_new(texts(old(names)@), texts(found@)),
{
    let ghost start = texts(names@);
    let ghost all = texts(found@);
    let mut i: usize = 0;
    assert(all.take(0) =~= Seq::empty());
    while i < found.len()
        invariant
            i <= found@.len(),
            all == texts(found@),
            texts(names@) == with_new(start, all.take(i as int)),
        decreases found@.len() - i,
    {
        let ghost before = texts(names@);
        proof {
            assert(all.take(i + 1).drop_last() =~= all.take(i as int));
            assert(all.take(i + 1).last() == found@[i as int]@);
        }
        if !contains_text(names, found[i].as_str()) {
            names.push(found[i].clone());
            assert(texts(names@) =~= before.push(found@[i as int]@));
        }
        i = i + 1;
    }
    assert(all.take(i as int) =~= all);
}

/// Puts the names behind `names` that a text defines between two places.
fn add_named_within(chars: &Vec<char>, from: usize, to: usize, names: &mut Vec<String>)
    requires
        from <= to <= chars@.len(),
    ensures
        texts(final(names)@) == named_within(
            chars@,
            from as int,
            to as int,
            texts(old(names)@),
        ),
{
    let ghost start = texts(names@);
    let mut j: usize = from;
    while j < to
        invariant
            from <= j <= to <= chars@.len(),
            texts(names@) == named_within(chars@, from as int, j as int, start),
        decreases to - j,
    {
        let mut text = slice_text(chars, 0, j);
        text.push('}');
        assert(text@ =~= chars@.take(j as int).push('}'));
        if let Some(found) = read_bookmark_keys(text.as_str()) {
            add_new(names, &found);
        }
        j = j + 1;
    }
}

/// The names of the bookmarks in the order in which a text defines them.
pub fn bookmark_definition_order(source: &str) -> (r: Vec<String>)
    ensures
        texts(r@) == defined_names(source@),
{
    let chars = char_vec(source);
    let mut names: Vec<String> = Vec::new();
    let mut from: usize = 0;
    let mut n: usize = 0;
    assert(texts(names@) =~= Seq::empty());
    while n < chars.len()
        invariant
            from <= n <= chars@.len(),
            chars@ == source@,
            (texts(names@), from as int) == defined_before(source@, n as int),
        decreases chars@.len() - n,
    {
        let ghost before = texts(names@);
        let ends_line = n + 1 == chars.len() || chars[n] == '\n';
        n = n + 1;
        assert(ends_line == is_line_end(source@, n as int));
        if ends_line {
            let text = slice_text(&chars, 0, n);
            assert(text@ =~= source@.take(n as int));
            if let Some(found) = read_bookmark_keys(text.as_str()) {
                let mut together = copy_texts(&names);
                add_new(&mut together, &found);
                if together.len() > 0 && together.len() - 1 > names.len() {
                    add_named_within(&chars, from, n, &mut names);
                    add_new(&mut names, &found);
                } else {
                    names = together;
                }
                from = n;
            }
        }
    }
    names
}

/// Whether the first `n` characters of a text define a bookmark, at the end of some line or
/// once a brace is closed.
pub open spec fn is_defined_before(source: Seq<char>, n: int, name: Seq<char>) -> bool {
    ||| exists|m: int|
        is_line_end(source, m) && m <= n && (#[trigger] bookmark_keys(source.take(m)) matches Some(
            found,
        ) && found.contains(name))
    ||| exists|m: int|
        0 <= m < n && (#[trigger] bookmark_keys(source.take(m).push('}')) matches Some(found)
            && found.contains(name))
}

/// Bookmarks come in the order of their definition: one that the lines up to some place
/// define stands before one that they do not define.
pub proof fn bookmarks_come_in_order(
    source: Seq<char>,
    table: Entries,
    absolute: Seq<Seq<char>>,
    n: int,
    i: int,
    j: int,
)
    requires
        is_line_end(source, n),
        0 <= i < bookmarks_of(table, defined_names(source), absolute).len(),
        0 <= j < bookmarks_of(table, defined_names(source), absolute).len(),
        bookmark_keys(source.take(n)) matches Some(found) && found.contains(
            bookmarks_of(table, defined_names(source), absolute)[i].0,
        ),
        !is_defined_before(
            source,
            n,
            bookmarks_of(table, defined_names(source), absolute)[j].0,
        ),
    ensures
        i < j,
{
    let order = defined_names(source);
    let all = bookmarks_of(table, order, absolute);
    let bookmarks = lookup(table, "bookmarks"@)->Some_0->Table_0;
    let first = defined_before(source, n).0;
    lemma_defined_prefix(source, n, source.len() as int);
    lemma_defined_here(source, n, all[i].0);
    if first.contains(all[j].0) {
        lemma_defined_somewhere(source, n, all[j].0);
    }
    let rest = order.skip(first.len() as int) + keys_of(bookmarks);
    assert(order + keys_of(bookmarks) =~= first + rest);
    lemma_first_seen_split(first, rest);
    let names = bookmark_names(bookmarks, order);
    let head = first_seen(first);
    let tail = names.skip(head.len() as int);
    assert(names =~= head + tail);
    lemma_named_split(head, tail, bookmarks, absolute);
    let head_bookmarks = named_bookmarks(head, bookmarks, absolute);
    let tail_bookmarks = named_bookmarks(tail, bookmarks, absolute);
    if i >= head_bookmarks.len() {
        lemma_named_member(tail, bookmarks, absolute, i - head_bookmarks.len());
        let k = choose|k: int| 0 <= k < tail.len() && tail[k] == all[i].0;
        assert(names[k + head.len()] == all[i].0);
    }
    if j < head_bookmarks.len() {
        lemma_named_member(head, bookmarks, absolute, j);
        lemma_first_seen_contains(first, all[j].0);
    }
}

/// Names stay in front when others are put behind them, and all that are found are there.
proof fn lemma_with_new(names: Seq<Seq<char>>, found: Seq<Seq<char>>)
    ensures
        names.len() <= with_new(names, found).len(),
        with_new(names, found).take(names.len() as int) == names,
        forall|name: Seq<char>| #[trigger]
            with_new(names, found).contains(name) == (names.contains(name) || found.contains(name)),
    decreases found.len(),
{
    let after = with_new(names, found);
    if found.len() == 0 {
        assert(after.take(names.len() as int) =~= names);
    } else {
        let shorter = found.drop_last();
        let before = with_new(names, shorter);
        lemma_with_new(names, shorter);
        assert(after.take(names.len() as int) =~= before.take(names.len() as int));
        assert forall|name: Seq<char>| #[trigger] after.contains(name) == (names.contains(name)
            || found.contains(name)) by {
            assert(before.contains(name) == (names.contains(name) || shorter.contains(name)));
            if found.contains(name) {
                let k = choose|k: int| 0 <= k < found.len() && found[k] == name;
                if k < shorter.len() {
                    assert(shorter[k] == name);
                }
            }
            if shorter.contains(name) {
                let k = choose|k: int| 0 <= k < shorter.len() && shorter[k] == name;
                assert(found[k] == name);
            }
            if name == found.last() {
                assert(found[found.len() - 1] == name);
            }
            if !before.contains(found.last()) {
                if before.contains(name) {
                    let k = choose|k: int| 0 <= k < before.len() && before[k] == name;
                    assert(after[k] == name);
                }
                assert(after[before.len() as int] == found.last());
                if after.contains(name) {
                    let k = choose|k: int| 0 <= k < after.len() && after[k] == name;
                    if k < before.len() {
                        assert(before[k] == name);
                    }
                }
            }
        }
    }
}

/// Names stay in front when a text is looked at character by character.
proof fn lemma_named_within(source: Seq<char>, from: int, to: int, names: Seq<Seq<char>>)
    requires
        0 <= from,
    ensures
        names.len() <= named_within(source, from, to, names).len(),
        named_within(source, from, to, names).take(names.len() as int) == names,
        forall|name: Seq<char>| #[trigger]
            named_within(source, from, to, names).contains(name) ==> names.contains(name) || exists|
                m: int,
            |
                from <= m < to && (#[trigger] bookmark_keys(source.take(m).push('}')) matches Some(
                    found,
                ) && found.contains(name)),
    decreases to - from,
{
    if to <= from {
        assert(names.take(names.len() as int) =~= names);
    } else {
        lemma_named_within(source, from, to - 1, names);
        let before = named_within(source, from, to - 1, names);
        let after = named_within(source, from, to, names);
        if let Some(found) = bookmark_keys(source.take(to - 1).push('}')) {
            lemma_with_new(before, found);
            assert(after.take(names.len() as int) =~= before.take(names.len() as int)) by {
                assert(after.take(before.len() as int) == before);
                assert forall|k: int| 0 <= k < names.len() implies after[k] == before[k] by {
                    assert(after.take(before.len() as int)[k] == after[k]);
                }
            }
        }
    }
}

/// The names that fewer characters define stand in front of those that more define.
proof fn lemma_defined_prefix(source: Seq<char>, n: int, m: int)
    requires
        0 <= n <= m,
    ensures
        0 <= defined_before(source, m).1,
        defined_before(source, n).0.len() <= defined_before(source, m).0.len(),
        defined_before(source, m).0.take(defined_before(source, n).0.len() as int)
            == defined_before(source, n).0,
    decreases m,
{
    let first = defined_before(source, n).0;
    let after = defined_before(source, m).0;
    if m > 0 {
        if n < m {
            lemma_defined_prefix(source, n, m - 1);
        } else {
            lemma_defined_prefix(source, n - 1, m - 1);
        }
    }
    if n == m {
        assert(after.take(first.len() as int) =~= first);
    } else {
        let (names, from) = defined_before(source, m - 1);
        lemma_line_step(source, m);
        assert forall|k: int| 0 <= k < first.len() implies after[k] == first[k] by {
            assert(after.take(names.len() as int)[k] == after[k]);
            assert(names.take(first.len() as int)[k] == names[k]);
        }
        assert(after.take(first.len() as int) =~= first);
    }
}

/// One more character leaves the names in front.
proof fn lemma_line_step(source: Seq<char>, m: int)
    requires
        0 < m,
        0 <= defined_before(source, m - 1).1,
    ensures
        defined_before(source, m - 1).0.len() <= defined_before(source, m).0.len(),
        defined_before(source, m).0.take(defined_before(source, m - 1).0.len() as int)
            == defined_before(source, m - 1).0,
{
    let (names, from) = defined_before(source, m - 1);
    let after = defined_before(source, m).0;
    assert(names.take(names.len() as int) =~= names);
    if is_line_end(source, m) {
        if let Some(found) = bookmark_keys(source.take(m)) {
            lemma_with_new(names, found);
            let within = named_within(source, from, m, names);
            lemma_named_within(source, from, m, names);
            lemma_with_new(within, found);
            if after != with_new(names, found) {
                assert(after == with_new(within, found));
                assert forall|k: int| 0 <= k < names.len() implies after[k] == names[k] by {
                    assert(after.take(within.len() as int)[k] == after[k]);
                    assert(within.take(names.len() as int)[k] == within[k]);
                }
                assert(after.take(names.len() as int) =~= names);
            }
        }
    }
}

/// What the lines up to some place define is among the names there.
proof fn lemma_defined_here(source: Seq<char>, n: int, name: Seq<char>)
    requires
        is_line_end(source, n),
        bookmark_keys(source.take(n)) matches Some(found) && found.contains(name),
    ensures
        defined_before(source, n).0.contains(name),
{
    let (names, from) = defined_before(source, n - 1);
    let found = bookmark_keys(source.take(n))->Some_0;
    lemma_with_new(names, found);
    lemma_with_new(named_within(source, from, n, names), found);
}

/// Every name is defined somewhere.
proof fn lemma_defined_somewhere(source: Seq<char>, n: int, name: Seq<char>)
    requires
        0 <= n <= source.len(),
        defined_before(source, n).0.contains(name),
    ensures
        is_defined_before(source, n, name),
    decreases n,
{
    if n > 0 {
        let (names, from) = defined_before(source, n - 1);
        lemma_defined_prefix(source, n - 1, n - 1);
        if names.contains(name) {
            lemma_defined_somewhere(source, n - 1, name);
            if exists|m: int|
                is_line_end(source, m) && m <= n - 1 && (#[trigger] bookmark_keys(
                    source.take(m),
                ) matches Some(found) && found.contains(name)) {
                let m = choose|m: int|
                    is_line_end(source, m) && m <= n - 1 && (#[trigger] bookmark_keys(
                        source.take(m),
                    ) matches Some(found) && found.contains(name));
                assert(is_line_end(source, m) && m <= n);
            }
        } else {
            let found = bookmark_keys(source.take(n))->Some_0;
            lemma_with_new(names, found);
            lemma_named_within(source, from, n, names);
            lemma_with_new(named_within(source, from, n, names), found);
        }
    }
}

/// The names of a list that were first seen in its first part stand in front.
proof fn lemma_first_seen_split(first: Seq<Seq<char>>, rest: Seq<Seq<char>>)
    ensures
        first_seen(first).len() <= first_seen(first + rest).len(),
        first_seen(first + rest).take(first_seen(first).len() as int) == first_seen(first),
        forall|k: int|
            first_seen(first).len() <= k < first_seen(first + rest).len() ==> !first.contains(
                #[trigger] first_seen(first + rest)[k],
            ),
    decreases rest.len(),
{
    let head = first_seen(first);
    let whole = first_seen(first + rest);
    if rest.len() == 0 {
        assert(first + rest =~= first);
        assert(whole.take(head.len() as int) =~= head);
    } else {
        let shorter = rest.drop_last();
        lemma_first_seen_split(first, shorter);
        assert((first + rest).drop_last() =~= first + shorter);
        let before = first_seen(first + shorter);
        assert(whole.take(head.len() as int) =~= before.take(head.len() as int));
        assert forall|k: int| head.len() <= k < whole.len() implies !first.contains(
            #[trigger] whole[k],
        ) by {
            if k < before.len() {
                assert(whole[k] == before[k]);
            } else if first.contains(rest.last()) {
                let m = choose|m: int| 0 <= m < first.len() && first[m] == rest.last();
                assert((first + shorter)[m] == rest.last());
            }
        }
    }
}

/// The bookmarks of two lists of names, one behind the other.
proof fn lemma_named_split(
    first: Seq<Seq<char>>,
    rest: Seq<Seq<char>>,
    table: Entries,
    absolute: Seq<Seq<char>>,
)
    ensures
        named_bookmarks(first + rest, table, absolute) == named_bookmarks(first, table, absolute)
            + named_bookmarks(rest, table, absolute),
    decreases rest.len(),
{
    if rest.len() == 0 {
        assert(first + rest =~= first);
        assert(named_bookmarks(first, table, absolute) + named_bookmarks(rest, table, absolute)
            =~= named_bookmarks(first, table, absolute));
    } else {
        lemma_named_split(first, rest.drop_last(), table, absolute);
        assert((first + rest).drop_last() =~= first + rest.drop_last());
        assert(named_bookmarks(first + rest, table, absolute) =~= named_bookmarks(
            first,
            table,
            absolute,
        ) + named_bookmarks(rest, table, absolute));
    }
}

/// A bookmark has one of the names.
proof fn lemma_named_member(
    names: Seq<Seq<char>>,
    table: Entries,
    absolute: Seq<Seq<char>>,
    i: int,
)
    requires
        0 <= i < named_bookmarks(names, table, absolute).len(),
    ensures
        names.contains(named_bookmarks(names, table, absolute)[i].0),
    decreases names.len(),
{
    let shorter = names.drop_last();
    let before = named_bookmarks(shorter, table, absolute);
    if i < before.len() {
        lemma_named_member(shorter, table, absolute, i);
        let k = choose|k: int| 0 <= k < shorter.len() && shorter[k] == before[i].0;
        assert(names[k] == before[i].0);
    } else {
        assert(names[names.len() - 1] == named_bookmarks(names, table, absolute)[i].0);
    }
}

/// Where the text of the settings came from.
#[derive(Debug, PartialEq, Eq)]
pub enum ConfigSource {
    /// There is no directory for settings.
    NoDirectory { error: String },
    /// There is no file.
    Missing,
    /// The file could not be read.
    Unreadable { path: String, error: String },
    /// The file was read.
    Text { path: String, source: String },
}

/// The leader key and the key map that a text sets, for the part of the
/// application that understands them.
pub fn keymap_request(source: &str) -> (r: (Option<String>, Option<Vec<(String, String)>>))
    ensures
        match parsed(source@) {
            Ok(value) => {
                &&& text_view(r.0) == word(value->Table_0, "leader"@)
                &&& (match r.1 {
                    Some(entries) => Some(pairs(entries@)),
                    None => None,
                }) == keymap_of(value->Table_0)
            },
            Err(_) => r.0 is None && r.1 is None,
        },
{
    match read_toml(source) {
        Err(_) => (None, None),
        Ok(table) => {
            let leader = match read_word(&table, "leader") {
                Some(leader) => Some(leader.clone()),
                None => None,
            };
            let mut ignored: Vec<String> = Vec::new();
            let complaints: Vec<String> = Vec::new();
            let keymap = read_keymap(&table, &complaints, &mut ignored);
            (leader, keymap)
        },
    }
}

/// The paths of the font and the bookmarks.
fn path_candidates(table: &TomlTable) -> (r: Vec<String>)
    ensures
        font_of(table@, texts(r@)) == word(table@, "font"@),
        match lookup(table@, "bookmarks"@) {
            Some(Toml::Table(bookmarks)) => forall|i: int|
                0 <= i < bookmarks.len() ==> ((#[trigger] bookmarks[i]).1 matches Toml::Str(path)
                    ==> texts(r@).contains(path)),
            _ => true,
        },
{
    let mut paths: Vec<String> = Vec::new();
    let ghost font = word(table@, "font"@);
    if let Some(path) = read_word(table, "font") {
        paths.push(path.clone());
        assert(texts(paths@)[0] == path@);
    }
    if let Some(TomlValue::Table(bookmarks)) = table.get("bookmarks") {
        let ghost all = bookmarks@;
        let mut i: usize = 0;
        while i < bookmarks.entries.len()
            invariant
                i <= bookmarks.entries@.len(),
                all == bookmarks@,
                font matches Some(path) ==> texts(paths@).contains(path),
                forall|j: int|
                    0 <= j < i ==> ((#[trigger] all[j]).1 matches Toml::Str(path) ==> texts(
                        paths@,
                    ).contains(path)),
            decreases bookmarks.entries@.len() - i,
        {
            let ghost before = texts(paths@);
            assert(all[i as int].1 == bookmarks.entries@[i as int].value@);
            if let TomlValue::Str(path) = &bookmarks.entries[i].value {
                paths.push(path.clone());
                proof {
                    assert(texts(paths@) =~= before.push(path@));
                    assert(texts(paths@)[before.len() as int] == path@);
                    assert forall|known: Seq<char>| before.contains(known) implies texts(
                        paths@,
                    ).contains(known) by {
                        let k = choose|k: int| 0 <= k < before.len() && before[k] == known;
                        assert(texts(paths@)[k] == known);
                    }
                }
            }
            i = i + 1;
        }
    }
    paths
}

/// The paths of a list that are absolute on this platform.
pub(crate) fn absolute_among(paths: &Vec<String>) -> (r: Vec<String>)
    ensures
        exists|marks: Seq<bool>|
            texts(r@) == #[trigger] marked(texts(paths@), marks) && asked_of(texts(paths@), marks),
        forall|i: int|
            0 <= i < r@.len() ==> texts(paths@).contains((#[trigger] r@[i])@) && begins_absolute(
                r@[i]@,
            ),
{
    let mut marks: Vec<bool> = Vec::new();
    let mut i: usize = 0;
    while i < paths.len()
        invariant
            i <= paths@.len(),
            marks@.len() == i,
            forall|j: int|
                0 <= j < i ==> ((#[trigger] marks@[j]) ==> begins_absolute(texts(paths@)[j])),
        decreases paths@.len() - i,
    {
        assert(texts(paths@)[i as int] == paths@[i as int]@);
        marks.push(path_is_absolute(paths[i].as_str()));
        i = i + 1;
    }
    let absolute = marked_paths(paths, &marks);
    proof {
        assert(asked_of(texts(paths@), marks@));
        assert forall|i: int| 0 <= i < absolute@.len() implies texts(paths@).contains(
            (#[trigger] absolute@[i])@,
        ) && begins_absolute(absolute@[i]@) by {
            assert(texts(absolute@)[i] == absolute@[i]@);
            lemma_marked(texts(paths@), marks@, i);
            let k = choose|k: int|
                0 <= k < texts(paths@).len() && marks@[k] && #[trigger] texts(paths@)[k]
                    == texts(absolute@)[i];
            assert(begins_absolute(texts(paths@)[k]));
        }
    }
    absolute
}

/// Whether each path of a list has a mark, and only those are marked that begin as an
/// absolute path does.
pub open spec fn asked_of(paths: Seq<Seq<char>>, marks: Seq<bool>) -> bool {
    &&& marks.len() == paths.len()
    &&& forall|i: int|
        0 <= i < marks.len() ==> ((#[trigger] marks[i]) ==> begins_absolute(paths[i]))
}

/// Whether all paths begin as an absolute path does.
pub open spec fn all_begin_absolute(paths: Seq<Seq<char>>) -> bool {
    forall|path: Seq<char>| #[trigger] paths.contains(path) ==> begins_absolute(path)
}

/// Texts that begin as an absolute path does, one by one and all.
pub(crate) proof fn lemma_all_begin_absolute(paths: Seq<String>)
    requires
        forall|i: int| 0 <= i < paths.len() ==> begins_absolute((#[trigger] paths[i])@),
    ensures
        all_begin_absolute(texts(paths)),
{
    assert forall|path: Seq<char>| #[trigger] texts(paths).contains(path) implies begins_absolute(
        path,
    ) by {
        let i = choose|i: int| 0 <= i < texts(paths).len() && texts(paths)[i] == path;
        assert(begins_absolute(paths[i]@));
    }
}

/// The marked paths of a list, in order.
pub open spec fn marked(paths: Seq<Seq<char>>, marks: Seq<bool>) -> Seq<Seq<char>>
    decreases paths.len(),
{
    if paths.len() == 0 || marks.len() != paths.len() {
        Seq::empty()
    } else {
        let before = marked(paths.drop_last(), marks.drop_last());
        if marks.last() {
            before.push(paths.last())
        } else {
            before
        }
    }
}

/// Each of the marked paths is a path with a mark.
proof fn lemma_marked(paths: Seq<Seq<char>>, marks: Seq<bool>, i: int)
    requires
        marks.len() == paths.len(),
        0 <= i < marked(paths, marks).len(),
    ensures
        exists|k: int|
            0 <= k < paths.len() && marks[k] && #[trigger] paths[k] == marked(paths, marks)[i],
    decreases paths.len(),
{
    let shorter = paths.drop_last();
    let fewer = marks.drop_last();
    let before = marked(shorter, fewer);
    if i < before.len() {
        lemma_marked(shorter, fewer, i);
        let k = choose|k: int|
            0 <= k < shorter.len() && fewer[k] && #[trigger] shorter[k] == before[i];
        assert(marks[k] && paths[k] == marked(paths, marks)[i]);
    } else {
        assert(paths[paths.len() - 1] == marked(paths, marks)[i]);
    }
}

/// The marked paths of a list. `marks` says of each path whether it is meant.
pub fn marked_paths(paths: &Vec<String>, marks: &Vec<bool>) -> (r: Vec<String>)
    requires
        marks@.len() == paths@.len(),
    ensures
        texts(r@) == marked(texts(paths@), marks@),
{
    let ghost all = texts(paths@);
    let mut kept: Vec<String> = Vec::new();
    let mut i: usize = 0;
    assert(texts(kept@) =~= marked(all.take(0), marks@.take(0)));
    while i < paths.len()
        invariant
            i <= paths@.len(),
            marks@.len() == paths@.len(),
            all == texts(paths@),
            texts(kept@) == marked(all.take(i as int), marks@.take(i as int)),
        decreases paths@.len() - i,
    {
        let ghost before = texts(kept@);
        proof {
            assert(all.take(i + 1).drop_last() =~= all.take(i as int));
            assert(marks@.take(i + 1).drop_last() =~= marks@.take(i as int));
            assert(all.take(i + 1).last() == paths@[i as int]@);
            assert(marks@.take(i + 1).last() == marks@[i as int]);
        }
        if marks[i] {
            kept.push(paths[i].clone());
            assert(texts(kept@) =~= before.push(paths@[i as int]@));
        }
        i = i + 1;
    }
    assert(all.take(i as int) =~= all);
    assert(marks@.take(i as int) =~= marks@);
    kept
}

/// Whether settings and warnings are those of a text of which the platform
/// takes just the paths `absolute` for absolute ones.
pub open spec fn loaded_with(
    config: ConfigView,
    warnings: Seq<Seq<char>>,
    source: Seq<char>,
    leader_error: Option<Seq<char>>,
    complaints: Seq<Seq<char>>,
    known_items: Seq<Seq<char>>,
    absolute: Seq<Seq<char>>,
) -> bool {
    let table = parsed(source)->Ok_0->Table_0;
    let order = defined_names(source);
    let facts = ConfigFactsView {
        leader_error,
        keymap_warnings: complaints,
        known_items,
        left_texts: nested_texts(source, "statusline"@, "left"@),
        right_texts: nested_texts(source, "statusline"@, "right"@),
        absolute,
    };
    &&& config == config_of(table, order, facts)
    &&& warnings == config_warnings(table, order, facts)
}

/// Loads the settings. `leader_error`, `complaints` and `known_items` are what
/// the parts of the application say that understand the leader key, the key map
/// and the status line.
///
/// Which paths count as absolute is up to the platform: none does that begins neither
/// with a root nor with a drive.
pub fn load(
    input: ConfigSource,
    leader_error: Option<String>,
    complaints: Vec<String>,
    known_items: Vec<String>,
) -> (r: (Config, Vec<String>))
    ensures
        match input {
            ConfigSource::NoDirectory { error } => r.0@ == default_config() && texts(r.1@) == seq![
                "Failed to locate configuration directory: "@ + error@,
            ],
            ConfigSource::Missing => r.0@ == default_config() && r.1@.len() == 0,
            ConfigSource::Unreadable { path, error } => r.0@ == default_config() && texts(r.1@)
                == seq!["Failed to read "@ + path@ + ": "@ + error@],
            ConfigSource::Text { path, source } => match parsed(source@) {
                Err(error) => r.0@ == default_config() && texts(r.1@) == seq![
                    "Invalid TOML in "@ + path@ + ": "@ + error,
                ],
                Ok(_) => exists|absolute: Seq<Seq<char>>|
                    #[trigger] loaded_with(
                        r.0@,
                        texts(r.1@),
                        source@,
                        text_view(leader_error),
                        texts(complaints@),
                        texts(known_items@),
                        absolute,
                    ) && all_begin_absolute(absolute),
            },
        },
{
    let mut warnings: Vec<String> = Vec::new();
    assert(texts(warnings@) =~= Seq::empty());
    match input {
        ConfigSource::NoDirectory { error } => {
            warn(
                &mut warnings,
                "Failed to locate configuration directory: ".to_owned().concat(error.as_str()),
            );
            assert(texts(warnings@) =~= seq![
                "Failed to locate configuration directory: "@ + error@,
            ]);
            (Config::default(), warnings)
        },
        ConfigSource::Missing => (Config::default(), warnings),
        ConfigSource::Unreadable { path, error } => {
            warn(
                &mut warnings,
                "Failed to read ".to_owned().concat(path.as_str()).concat(": ").concat(
                    error.as_str(),
                ),
            );
            assert(texts(warnings@) =~= seq!["Failed to read "@ + path@ + ": "@ + error@]);
            (Config::default(), warnings)
        },
        ConfigSource::Text { path, source } => match read_toml(source.as_str()) {
            Err(error) => {
                warn(
                    &mut warnings,
                    "Invalid TOML in ".to_owned().concat(path.as_str()).concat(": ").concat(
                        error.as_str(),
                    ),
                );
                assert(texts(warnings@) =~= seq!["Invalid TOML in "@ + path@ + ": "@ + error@]);
                (Config::default(), warnings)
            },
            Ok(table) => {
                let order = bookmark_definition_order(source.as_str());
                let absolute = absolute_among(&path_candidates(&table));
                let facts = ConfigFacts {
                    leader_error,
                    keymap_warnings: complaints,
                    known_items,
                    left_texts: nested_list_texts(source.as_str(), "statusline", "left"),
                    right_texts: nested_list_texts(source.as_str(), "statusline", "right"),
                    absolute,
                };
                let loaded = config_from_table(&table, &order, &facts);
                proof {
                    assert(parsed(source@)->Ok_0->Table_0 == table@);
                    assert(loaded_with(
                        loaded.0@,
                        texts(loaded.1@),
                        source@,
                        text_view(leader_error),
                        texts(complaints@),
                        texts(known_items@),
                        texts(facts.absolute@),
                    ));
                    lemma_all_begin_absolute(facts.absolute@);
                }
                loaded
            },
        },
    }
}

/// The environment that decides where the settings are.
#[derive(Debug, PartialEq, Eq)]
pub struct ConfigEnvironment {
    pub fyler_config_dir: Option<FsPath>,
    pub app_data: Option<FsPath>,
    pub xdg_config_home: Option<FsPath>,
    pub home: Option<FsPath>,
}

/// Where the settings are: in the directory that is set for them, else below
/// the place where the platform keeps settings.
pub open spec fn settings_dir(environment: ConfigEnvironment, windows: bool) -> Result<
    JoinedPathView,
    Seq<char>,
> {
    match nonempty(path_view(environment.fyler_config_dir)) {
        Some(dir) => Ok(joined(dir, Seq::empty())),
        None => if windows {
            match nonempty(path_view(environment.app_data)) {
                Some(dir) => Ok(joined(dir, seq!["fyler"@])),
                None => Err("APPDATA is not set"@),
            }
        } else {
            match nonempty(path_view(environment.xdg_config_home)) {
                Some(dir) => Ok(joined(dir, seq!["fyler"@])),
                None => match nonempty(path_view(environment.home)) {
                    Some(dir) => Ok(joined(dir, seq![".config"@, "fyler"@])),
                    None => Err("Neither XDG_CONFIG_HOME nor HOME is set"@),
                },
            }
        },
    }
}

/// Where the settings are.
pub fn config_dir(environment: &ConfigEnvironment, windows: bool) -> (r: Result<
    JoinedPath,
    String,
>)
    ensures
        match r {
            Ok(path) => settings_dir(*environment, windows) == Ok::<JoinedPathView, Seq<char>>(
                path@,
            ),
            Err(message) => settings_dir(*environment, windows) == Err::<
                JoinedPathView,
                Seq<char>,
            >(message@),
        },
{
    if let Some(dir) = nonempty_env(&environment.fyler_config_dir) {
        return Ok(JoinedPath::bare(dir));
    }
    if windows {
        match nonempty_env(&environment.app_data) {
            Some(dir) => {
                let path = JoinedPath::bare(dir).join("fyler");
                assert(path@.names =~= seq!["fyler"@]);
                Ok(path)
            },
            None => Err("APPDATA is not set".to_owned()),
        }
    } else {
        if let Some(dir) = nonempty_env(&environment.xdg_config_home) {
            let path = JoinedPath::bare(dir).join("fyler");
            assert(path@.names =~= seq!["fyler"@]);
            return Ok(path);
        }
        match nonempty_env(&environment.home) {
            Some(dir) => {
                let path = JoinedPath::bare(dir).join(".config").join("fyler");
                assert(path@.names =~= seq![".config"@, "fyler"@]);
                Ok(path)
            },
            None => Err("Neither XDG_CONFIG_HOME nor HOME is set".to_owned()),
        }
    }
}

/// How many recent roots are kept.
pub const MAX_RECENT_ROOTS: usize = 10;

/// A path that is listed as a recent root, and what the platform says of it:
/// whether it is absolute, and the number of the first path in the list that is
/// the same.
#[derive(Debug, PartialEq, Eq)]
pub struct ListedRoot {
    pub text: String,
    pub absolute: bool,
    pub first_same: usize,
}

/// Whether an absolute path that is the same as root `i` stands before it.
pub open spec fn listed_before(roots: Seq<ListedRoot>, i: int) -> bool {
    exists|j: int|
        0 <= j < i && (#[trigger] roots[j]).absolute && roots[j].first_same == roots[i].first_same
}

/// The absolute roots of a list without those that have come before, in order.
pub open spec fn distinct_roots(roots: Seq<ListedRoot>, n: int) -> Seq<Seq<char>>
    decreases n,
{
    if n <= 0 {
        Seq::empty()
    } else {
        let before = distinct_roots(roots, n - 1);
        if roots[n - 1].absolute && !listed_before(roots, n - 1) {
            before.push(roots[n - 1].text@)
        } else {
            before
        }
    }
}

/// The first ten of a list.
pub open spec fn at_most_ten(list: Seq<Seq<char>>) -> Seq<Seq<char>> {
    if list.len() <= MAX_RECENT_ROOTS {
        list
    } else {
        list.take(MAX_RECENT_ROOTS as int)
    }
}

/// The recent roots of a list: the absolute ones, each once, the first ten.
pub fn recent_roots(roots: &Vec<ListedRoot>) -> (r: Vec<String>)
    ensures
        texts(r@) == at_most_ten(distinct_roots(roots@, roots@.len() as int)),
{
    let mut kept: Vec<String> = Vec::new();
    let mut i: usize = 0;
    assert(texts(kept@) =~= Seq::empty());
    while i < roots.len()
        invariant
            i <= roots@.len(),
            texts(kept@) == distinct_roots(roots@, i as int),
        decreases roots@.len() - i,
    {
        let mut seen = false;
        let mut j: usize = 0;
        while j < i
            invariant
                j <= i < roots@.len(),
                seen == exists|k: int|
                    0 <= k < j && (#[trigger] roots@[k]).absolute && roots@[k].first_same
                        == roots@[i as int].first_same,
            decreases i - j,
        {
            if roots[j].absolute && roots[j].first_same == roots[i].first_same {
                assert(roots@[j as int].absolute);
                seen = true;
            }
            j = j + 1;
        }
        let ghost before = texts(kept@);
        if roots[i].absolute && !seen {
            kept.push(roots[i].text.clone());
            assert(texts(kept@) =~= before.push(roots@[i as int].text@));
        }
        i = i + 1;
    }
    let ghost all = texts(kept@);
    if kept.len() > MAX_RECENT_ROOTS {
        kept.truncate(MAX_RECENT_ROOTS);
        assert(texts(kept@) =~= all.take(MAX_RECENT_ROOTS as int));
    }
    kept
}

/// The texts in the list of roots of a document; none where there is no such
/// list.
pub open spec fn root_texts(items: Seq<Toml>) -> Seq<Seq<char>>
    decreases items.len(),
{
    if items.len() == 0 {
        Seq::empty()
    } else {
        let before = root_texts(items.drop_last());
        match items.last() {
            Toml::Str(text) => before.push(text),
            _ => before,
        }
    }
}

/// The texts that a file lists as recent roots.
pub open spec fn listed_texts(source: Seq<char>) -> Seq<Seq<char>> {
    match parsed(source) {
        Ok(value) => match lookup(value->Table_0, "roots"@) {
            Some(Toml::Array(items)) => root_texts(items),
            _ => Seq::empty(),
        },
        Err(_) => Seq::empty(),
    }
}

/// The texts that a file lists as recent roots.
pub fn read_listed_texts(source: &str) -> (r: Vec<String>)
    ensures
        texts(r@) == listed_texts(source@),
{
    let none: Vec<String> = Vec::new();
    assert(texts(none@) =~= Seq::empty());
    let table = match read_toml(source) {
        Err(_) => {
            return none;
        },
        Ok(table) => table,
    };
    match table.get("roots") {
        Some(value) => match value {
            TomlValue::Array(items) => {
                let ghost all = value@->Array_0;
                let mut list: Vec<String> = Vec::new();
                let mut i: usize = 0;
                assert(all.take(0) =~= Seq::empty());
                assert(texts(list@) =~= Seq::empty());
                while i < items.len()
                    invariant
                        i <= items@.len(),
                        all.len() == items@.len(),
                        forall|j: int| 0 <= j < all.len() ==> #[trigger] all[j] == items@[j]@,
                        texts(list@) == root_texts(all.take(i as int)),
                    decreases items@.len() - i,
                {
                    let ghost next = all.take(i + 1);
                    let ghost before = texts(list@);
                    proof {
                        assert(next.drop_last() =~= all.take(i as int));
                        assert(next.last() == items@[i as int]@);
                    }
                    if let TomlValue::Str(text) = &items[i] {
                        list.push(text.clone());
                        assert(texts(list@) =~= before.push(text@));
                    }
                    i = i + 1;
                }
                assert(all.take(i as int) =~= all);
                list
            },
            _ => none,
        },
        None => none,
    }
}

/// What the platform says of the paths of a list.
fn listed_roots(list: &Vec<String>) -> (r: Vec<ListedRoot>)
    ensures
        listed_as(r@, texts(list@)),
{
    let ghost all = texts(list@);
    let mut roots: Vec<ListedRoot> = Vec::new();
    let mut i: usize = 0;
    while i < list.len()
        invariant
            i <= list@.len(),
            all == texts(list@),
            roots@.len() == i,
            listed_as(roots@, all.take(i as int)),
            forall|j: int|
                0 <= j < i ==> letters(all[(#[trigger] roots@[j]).first_same as int]) == letters(
                    all[j],
                ),
        decreases list@.len() - i,
    {
        let ghost before = roots@;
        assert(all[i as int] == list@[i as int]@);
        let mut seen: usize = 0;
        while seen < i && !same_text(list[seen].as_str(), list[i].as_str())
            invariant
                seen <= i < list@.len(),
                all == texts(list@),
                forall|j: int| 0 <= j < seen ==> #[trigger] all[j] != all[i as int],
            decreases i - seen,
        {
            assert(all[seen as int] == list@[seen as int]@);
            seen = seen + 1;
        }
        let (absolute, first) = if seen < i {
            assert(all[seen as int] == list@[seen as int]@);
            (roots[seen].absolute, roots[seen].first_same)
        } else {
            let mut first: usize = 0;
            while first < i && !same_path(list[first].as_str(), list[i].as_str())
                invariant
                    first <= i < list@.len(),
                decreases i - first,
            {
                first = first + 1;
            }
            assert(all[first as int] == list@[first as int]@);
            (path_is_absolute(list[i].as_str()), first)
        };
        roots.push(ListedRoot { text: list[i].clone(), absolute, first_same: first });
        proof {
            let after = roots@;
            let next = all.take(i + 1);
            assert(next.take(i as int) =~= all.take(i as int));
            assert forall|j: int| 0 <= j < after.len() implies (#[trigger] after[j]).text@ == next[j]
                && after[j].first_same <= j && (after[j].absolute ==> begins_absolute(next[j])) by {
                if j < i {
                    assert(after[j] == before[j]);
                } else if seen < i {
                    assert(before[seen as int].text@ == all[seen as int]);
                }
            }
            assert forall|j: int| 0 <= j < after.len() implies letters(
                all[(#[trigger] after[j]).first_same as int],
            ) == letters(all[j]) by {
                if j < i {
                    assert(after[j] == before[j]);
                } else if seen < i {
                    assert(letters(all[before[seen as int].first_same as int]) == letters(
                        all[seen as int],
                    ));
                }
            }
            assert forall|j: int, k: int|
                0 <= j < after.len() && 0 <= k < after.len() && next[j] == next[k] implies (
            #[trigger] after[j]).first_same == (#[trigger] after[k]).first_same
                && after[j].absolute == after[k].absolute by {
                if j < i && k < i {
                    assert(after[j] == before[j] && after[k] == before[k]);
                } else if j < i {
                    assert(seen < i);
                    assert(before[j].first_same == before[seen as int].first_same);
                } else if k < i {
                    assert(seen < i);
                    assert(before[k].first_same == before[seen as int].first_same);
                }
            }
            assert forall|j: int, k: int|
                0 <= j < after.len() && 0 <= k < after.len() && letters(next[j]) != letters(
                    next[k],
                ) implies (#[trigger] after[j]).first_same != (#[trigger] after[k]).first_same by {
                assert(letters(all[after[j].first_same as int]) == letters(all[j]));
                assert(letters(all[after[k].first_same as int]) == letters(all[k]));
            }
        }
        i = i + 1;
    }
    assert(all.take(i as int) =~= all);
    roots
}

/// Whether `roots` are the paths `list`, with something said of each: the same of equal
/// texts, and of texts with different letters that they are different paths.
pub open spec fn listed_as(roots: Seq<ListedRoot>, list: Seq<Seq<char>>) -> bool {
    &&& roots.len() == list.len()
    &&& forall|i: int|
        0 <= i < roots.len() ==> (#[trigger] roots[i]).text@ == list[i] && roots[i].first_same <= i
            && (roots[i].absolute ==> begins_absolute(list[i]))
    &&& forall|i: int, j: int|
        0 <= i < roots.len() && 0 <= j < roots.len() && list[i] == list[j] ==> (
        #[trigger] roots[i]).first_same == (#[trigger] roots[j]).first_same && roots[i].absolute
            == roots[j].absolute
    &&& forall|i: int, j: int|
        0 <= i < roots.len() && 0 <= j < roots.len() && letters(list[i]) != letters(list[j]) ==> (
        #[trigger] roots[i]).first_same != (#[trigger] roots[j]).first_same
}

/// The recent roots in a file, newest first; none where there is no file.
///
/// Which paths are absolute and which are the same is up to the platform.
pub fn load_recent_roots(source: &Option<String>) -> (r: Vec<String>)
    ensures
        match *source {
            None => r@.len() == 0,
            Some(source) => exists|roots: Seq<ListedRoot>|
                #[trigger] listed_as(roots, listed_texts(source@)) && texts(r@) == at_most_ten(
                    distinct_roots(roots, roots.len() as int),
                ),
        },
        texts(r@).no_duplicates(),
        all_begin_absolute(texts(r@)),
{
    match source {
        None => {
            let none: Vec<String> = Vec::new();
            assert(texts(none@) =~= Seq::empty());
            none
        },
        Some(source) => {
            let roots = listed_roots(&read_listed_texts(source.as_str()));
            proof {
                recent_roots_are_distinct(roots@, listed_texts(source@));
            }
            recent_roots(&roots)
        },
    }
}

/// A root put before the recent roots: those that are the same path are taken
/// out, and at most ten are kept.
pub open spec fn with_recent(roots: Seq<Seq<char>>, same: Seq<bool>, root: Seq<char>) -> Seq<
    Seq<char>,
> {
    at_most_ten(seq![root] + others(roots, same))
}

/// The roots that are not marked as the same path, in order.
pub open spec fn others(roots: Seq<Seq<char>>, same: Seq<bool>) -> Seq<Seq<char>>
    decreases roots.len(),
{
    if roots.len() == 0 || same.len() != roots.len() {
        Seq::empty()
    } else {
        let before = others(roots.drop_last(), same.drop_last());
        if same.last() {
            before
        } else {
            before.push(roots.last())
        }
    }
}

/// Puts `root` before the recent roots. `same` marks the roots that are the same
/// path as `root`.
pub fn put_recent(roots: &Vec<String>, same: &Vec<bool>, root: &str) -> (r: Vec<String>)
    requires
        same@.len() == roots@.len(),
    ensures
        texts(r@) == with_recent(texts(roots@), same@, root@),
{
    let ghost all = texts(roots@);
    let mut list: Vec<String> = Vec::new();
    list.push(root.to_owned());
    let mut i: usize = 0;
    assert(all.take(0) =~= Seq::empty());
    assert(texts(list@) =~= seq![root@] + others(all.take(0), same@.take(0)));
    while i < roots.len()
        invariant
            i <= roots@.len(),
            same@.len() == roots@.len(),
            all == texts(roots@),
            texts(list@) == seq![root@] + others(all.take(i as int), same@.take(i as int)),
        decreases roots@.len() - i,
    {
        let ghost before = texts(list@);
        proof {
            assert(all.take(i + 1).drop_last() =~= all.take(i as int));
            assert(same@.take(i + 1).drop_last() =~= same@.take(i as int));
            assert(all.take(i + 1).last() == roots@[i as int]@);
        }
        if !same[i] {
            list.push(roots[i].clone());
            assert(texts(list@) =~= before.push(roots@[i as int]@));
        }
        i = i + 1;
        assert(texts(list@) =~= seq![root@] + others(all.take(i as int), same@.take(i as int)));
    }
    assert(all.take(i as int) =~= all);
    assert(same@.take(i as int) =~= same@);
    let ghost whole = texts(list@);
    if list.len() > MAX_RECENT_ROOTS {
        list.truncate(MAX_RECENT_ROOTS);
        assert(texts(list@) =~= whole.take(MAX_RECENT_ROOTS as int));
    }
    list
}

/// The document that lists recent roots.
pub open spec fn recent_document(roots: Seq<Seq<char>>) -> Entries {
    with_entry(
        no_entries(),
        "roots"@,
        Toml::Array(roots.map_values(|root: Seq<char>| Toml::Str(root))),
    )
}

/// The document that lists recent roots.
fn recent_table(roots: &Vec<String>) -> (r: TomlTable)
    ensures
        r@ == recent_document(texts(roots@)),
{
    let ghost expected = texts(roots@).map_values(|root: Seq<char>| Toml::Str(root));
    let mut items: Vec<TomlValue> = Vec::new();
    let mut i: usize = 0;
    while i < roots.len()
        invariant
            i <= roots@.len(),
            items@.len() == i,
            forall|j: int| 0 <= j < i ==> (#[trigger] items@[j])@ == Toml::Str(roots@[j]@),
        decreases roots@.len() - i,
    {
        items.push(TomlValue::Str(roots[i].clone()));
        i = i + 1;
    }
    let value = TomlValue::Array(items);
    assert(value@->Array_0 =~= expected);
    let mut table = TomlTable::new();
    table.insert("roots", value);
    table
}

/// What recording a root gives: the text of the file of recent roots, or why
/// there is none.
pub open spec fn record_outcome(
    root: Seq<char>,
    absolute: bool,
    roots: Seq<Seq<char>>,
    same: Seq<bool>,
) -> Result<Seq<char>, Seq<char>> {
    if !absolute {
        Err("Recent root must be an absolute path: "@ + root)
    } else {
        match document_text(recent_document(with_recent(roots, same, root))) {
            Some(text) => Ok(text),
            None => Err("Recent roots cannot be written"@),
        }
    }
}

/// Whether a result is `expected`.
pub open spec fn text_result(
    r: Result<String, String>,
    expected: Result<Seq<char>, Seq<char>>,
) -> bool {
    match r {
        Ok(text) => expected == Ok::<Seq<char>, Seq<char>>(text@),
        Err(message) => expected == Err::<Seq<char>, Seq<char>>(message@),
    }
}

/// The text of the file of recent roots after `root` has been used. `same` marks
/// the roots that are the same path as `root`, `absolute` says whether `root` is
/// absolute.
pub fn record_recent_root(
    root: &FsPath,
    absolute: bool,
    roots: &Vec<String>,
    same: &Vec<bool>,
) -> (r: Result<String, String>)
    requires
        same@.len() == roots@.len(),
    ensures
        text_result(r, record_outcome(root@.text, absolute, texts(roots@), same@)),
        r matches Ok(text) ==> parsed(text@) == document(
            Toml::Table(recent_document(with_recent(texts(roots@), same@, root@.text))),
        ),
{
    if !absolute {
        return Err(
            "Recent root must be an absolute path: ".to_owned().concat(root.text.as_str()),
        );
    }
    let updated = put_recent(roots, same, root.text.as_str());
    match write_toml(recent_table(&updated)) {
        Some(text) => Ok(text),
        None => Err("Recent roots cannot be written".to_owned()),
    }
}

/// Whether `roots` are the recent roots of a file whose listed paths are
/// `listed`.
pub open spec fn recent_in(
    source: Option<Seq<char>>,
    listed: Seq<ListedRoot>,
    roots: Seq<Seq<char>>,
) -> bool {
    match source {
        None => roots.len() == 0,
        Some(source) => listed_as(listed, listed_texts(source)) && roots == at_most_ten(
            distinct_roots(listed, listed.len() as int),
        ),
    }
}

/// Whether `same` can be what the platform says of the recent roots: which of them are the
/// same path as `root`.
pub open spec fn compared_with(root: FsPathView, roots: Seq<Seq<char>>, same: Seq<bool>) -> bool {
    &&& same.len() == roots.len()
    &&& forall|i: int|
        0 <= i < same.len() ==> compared(unicode_path(roots[i]), root, #[trigger] same[i])
}

/// Recording a root in the file of recent roots: reads the list, asks the
/// platform about its paths, and gives the new text of the file.
pub fn record_recent_in(source: &Option<String>, root: &FsPath) -> (r: Result<String, String>)
    ensures
        exists|listed: Seq<ListedRoot>, roots: Seq<Seq<char>>, same: Seq<bool>, absolute: bool|
            #[trigger] recent_in(text_view(*source), listed, roots) && compared_with(
                root@,
                roots,
                same,
            ) && (absolute ==> begins_absolute(root@.text)) && text_result(
                r,
                #[trigger] record_outcome(root@.text, absolute, roots, same),
            ),
        r matches Ok(text) ==> {
            &&& begins_absolute(root@.text)
            &&& 0 < listed_texts(text@).len() <= MAX_RECENT_ROOTS
            &&& listed_texts(text@)[0] == root@.text
            &&& root@.raw is None ==> forall|i: int|
                0 < i < listed_texts(text@).len() ==> #[trigger] listed_texts(text@)[i]
                    != root@.text
        },
{
    let roots = load_recent_roots(source);
    let ghost listed = match source {
        None => Seq::empty(),
        Some(source) => choose|listed: Seq<ListedRoot>|
            #[trigger] listed_as(listed, listed_texts(source@)) && texts(roots@) == at_most_ten(
                distinct_roots(listed, listed.len() as int),
            ),
    };
    let mut same: Vec<bool> = Vec::new();
    let mut i: usize = 0;
    while i < roots.len()
        invariant
            i <= roots@.len(),
            same@.len() == i,
            forall|j: int|
                0 <= j < i ==> compared(
                    unicode_path(texts(roots@)[j]),
                    root@,
                    #[trigger] same@[j],
                ),
        decreases roots@.len() - i,
    {
        assert(texts(roots@)[i as int] == roots@[i as int]@);
        same.push(FsPath::from_text(roots[i].as_str()).is_same_path(root));
        i = i + 1;
    }
    assert(compared_with(root@, texts(roots@), same@));
    let absolute = path_is_absolute(root.text.as_str());
    let outcome = record_recent_root(root, absolute, &roots, &same);
    assert(recent_in(text_view(*source), listed, texts(roots@)));
    assert(text_result(outcome, record_outcome(root@.text, absolute, texts(roots@), same@)));
    proof {
        if let Ok(text) = &outcome {
            let recorded = with_recent(texts(roots@), same@, root@.text);
            recent_roots_are_read_back(recorded, text@);
            recent_roots_are_bounded(texts(roots@), same@, root@.text);
            if root@.raw is None {
                assert forall|i: int| 0 < i < recorded.len() implies #[trigger] recorded[i]
                    != root@.text by {
                    recorded_root_stands_once(texts(roots@), same@, root@, i);
                }
            }
        }
    }
    outcome
}

/// Never more than ten recent roots are kept, and the one that was used last
/// stands first.
pub proof fn recent_roots_are_bounded(roots: Seq<Seq<char>>, same: Seq<bool>, root: Seq<char>)
    ensures
        1 <= with_recent(roots, same, root).len() <= MAX_RECENT_ROOTS,
        with_recent(roots, same, root)[0] == root,
{
}

/// A root that is recorded stands once in the file: an equal one that was there is taken
/// out.
pub proof fn recorded_root_stands_once(
    roots: Seq<Seq<char>>,
    same: Seq<bool>,
    root: FsPathView,
    i: int,
)
    requires
        root.raw is None,
        compared_with(root, roots, same),
        0 < i < with_recent(roots, same, root.text).len(),
    ensures
        with_recent(roots, same, root.text)[i] != root.text,
{
    lemma_others(roots, same, root.text);
    assert(with_recent(roots, same, root.text)[i] == others(roots, same)[i - 1]);
}

/// Where a text is marked wherever it stands, it is not among the others.
proof fn lemma_others(roots: Seq<Seq<char>>, same: Seq<bool>, text: Seq<char>)
    requires
        same.len() == roots.len(),
        forall|i: int| 0 <= i < roots.len() && roots[i] == text ==> #[trigger] same[i],
    ensures
        forall|i: int| 0 <= i < others(roots, same).len() ==> #[trigger] others(roots, same)[i]
            != text,
    decreases roots.len(),
{
    if roots.len() > 0 {
        assert forall|i: int|
            0 <= i < roots.drop_last().len() && roots.drop_last()[i]
                == text implies #[trigger] same.drop_last()[i] by {
            assert(same[i]);
        }
        lemma_others(roots.drop_last(), same.drop_last(), text);
        let before = others(roots.drop_last(), same.drop_last());
        if roots.last() == text {
            assert(same[roots.len() - 1]);
        }
        assert forall|i: int| 0 <= i < others(roots, same).len() implies #[trigger] others(
            roots,
            same,
        )[i] != text by {
            if i < before.len() {
                assert(before[i] != text);
            }
        }
    }
}

/// The recent roots that are loaded are all different, and each of them begins as an
/// absolute path does.
pub proof fn recent_roots_are_distinct(listed: Seq<ListedRoot>, list: Seq<Seq<char>>)
    requires
        listed_as(listed, list),
    ensures
        at_most_ten(distinct_roots(listed, listed.len() as int)).no_duplicates(),
        all_begin_absolute(at_most_ten(distinct_roots(listed, listed.len() as int))),
{
    let n = listed.len() as int;
    lemma_distinct_roots(listed, list, n);
    let loaded = at_most_ten(distinct_roots(listed, n));
    assert forall|path: Seq<char>| #[trigger] loaded.contains(path) implies begins_absolute(
        path,
    ) by {
        let i = choose|i: int| 0 <= i < loaded.len() && loaded[i] == path;
        assert(is_listed(listed, n, distinct_roots(listed, n)[i]));
    }
}

/// Whether an absolute path with this text is among the first `n` of a list.
spec fn is_listed(listed: Seq<ListedRoot>, n: int, text: Seq<char>) -> bool {
    exists|k: int| 0 <= k < n && (#[trigger] listed[k]).absolute && listed[k].text@ == text
}

/// The distinct roots among the first of a list stand in the list and are all different.
proof fn lemma_distinct_roots(listed: Seq<ListedRoot>, list: Seq<Seq<char>>, n: int)
    requires
        listed_as(listed, list),
        0 <= n <= listed.len(),
    ensures
        distinct_roots(listed, n).no_duplicates(),
        forall|i: int|
            0 <= i < distinct_roots(listed, n).len() ==> is_listed(
                listed,
                n,
                #[trigger] distinct_roots(listed, n)[i],
            ),
        n > 0 && listed[0].absolute ==> distinct_roots(listed, n).len() > 0 && distinct_roots(
            listed,
            n,
        )[0] == list[0],
    decreases n,
{
    if n > 0 {
        lemma_distinct_roots(listed, list, n - 1);
        let before = distinct_roots(listed, n - 1);
        let after = distinct_roots(listed, n);
        let last = listed[n - 1];
        assert(last.text@ == list[n - 1]);
        assert forall|i: int| 0 <= i < before.len() implies is_listed(
            listed,
            n,
            #[trigger] before[i],
        ) by {
            assert(is_listed(listed, n - 1, before[i]));
        }
        if last.absolute && !listed_before(listed, n - 1) {
            assert forall|i: int| 0 <= i < before.len() implies #[trigger] before[i]
                != last.text@ by {
                assert(is_listed(listed, n - 1, before[i]));
                let k = choose|k: int|
                    0 <= k < n - 1 && (#[trigger] listed[k]).absolute && listed[k].text@
                        == before[i];
                assert(listed[k].text@ == list[k]);
                if before[i] == last.text@ {
                    assert(listed[k].first_same == listed[n - 1].first_same);
                    assert(listed_before(listed, n - 1));
                }
            }
            assert(after =~= before.push(last.text@));
            assert(listed[n - 1].absolute);
            assert(is_listed(listed, n, last.text@));
            assert forall|i: int| 0 <= i < after.len() implies is_listed(
                listed,
                n,
                #[trigger] after[i],
            ) by {
                if i < before.len() {
                    assert(after[i] == before[i]);
                }
            }
        } else {
            assert(after == before);
        }
        if n == 1 && last.absolute {
            assert(!listed_before(listed, 0));
        }
    }
}

/// A root that has been recorded is the first that is loaded, and is loaded once, where the
/// platform still takes it for absolute.
pub proof fn recorded_root_is_loaded_first(
    roots: Seq<Seq<char>>,
    same: Seq<bool>,
    root: Seq<char>,
    source: Seq<char>,
    listed: Seq<ListedRoot>,
)
    requires
        parsed(source) == document(Toml::Table(recent_document(with_recent(roots, same, root)))),
        listed_as(listed, listed_texts(source)),
        listed[0].absolute,
    ensures
        ({
            let loaded = at_most_ten(distinct_roots(listed, listed.len() as int));
            &&& loaded.len() > 0
            &&& loaded[0] == root
            &&& forall|i: int| 0 < i < loaded.len() ==> #[trigger] loaded[i] != root
        }),
{
    recent_roots_are_read_back(with_recent(roots, same, root), source);
    lemma_distinct_roots(listed, listed_texts(source), listed.len() as int);
}

/// Once a root has been recorded, all that was written is loaded, in its order, where the
/// platform takes each of the paths for absolute and for different ones.
pub proof fn recorded_list_is_loaded_whole(
    roots: Seq<Seq<char>>,
    same: Seq<bool>,
    root: Seq<char>,
    source: Seq<char>,
    listed: Seq<ListedRoot>,
)
    requires
        parsed(source) == document(Toml::Table(recent_document(with_recent(roots, same, root)))),
        listed_as(listed, listed_texts(source)),
        forall|i: int| 0 <= i < listed.len() ==> (#[trigger] listed[i]).absolute,
        forall|i: int, j: int|
            0 <= i < j < listed.len() ==> (#[trigger] listed[i]).first_same
                != (#[trigger] listed[j]).first_same,
    ensures
        at_most_ten(distinct_roots(listed, listed.len() as int)) == with_recent(roots, same, root),
{
    let list = with_recent(roots, same, root);
    recent_roots_are_read_back(list, source);
    recent_roots_are_bounded(roots, same, root);
    lemma_all_distinct(listed, list, listed.len() as int);
    assert(list.take(listed.len() as int) =~= list);
}

/// Where paths are all absolute and all different, none of them is left out.
proof fn lemma_all_distinct(listed: Seq<ListedRoot>, list: Seq<Seq<char>>, n: int)
    requires
        listed_as(listed, list),
        0 <= n <= listed.len(),
        forall|i: int| 0 <= i < listed.len() ==> (#[trigger] listed[i]).absolute,
        forall|i: int, j: int|
            0 <= i < j < listed.len() ==> (#[trigger] listed[i]).first_same
                != (#[trigger] listed[j]).first_same,
    ensures
        distinct_roots(listed, n) == list.take(n),
    decreases n,
{
    if n == 0 {
        assert(list.take(0) =~= Seq::empty());
    } else {
        lemma_all_distinct(listed, list, n - 1);
        assert(listed[n - 1].text@ == list[n - 1]);
        assert(!listed_before(listed, n - 1));
        assert(list.take(n) =~= list.take(n - 1).push(list[n - 1]));
    }
}

/// The list of recent roots that was written is read back.
pub proof fn recent_roots_are_read_back(roots: Seq<Seq<char>>, source: Seq<char>)
    requires
        parsed(source) == document(Toml::Table(recent_document(roots))),
    ensures
        listed_texts(source) == roots,
{
    lemma_lookup_with_entry(
        no_entries(),
        "roots"@,
        Toml::Array(roots.map_values(|root: Seq<char>| Toml::Str(root))),
        "roots"@,
    );
    lemma_root_texts(roots);
}

/// Texts as values are read as those texts.
proof fn lemma_root_texts(roots: Seq<Seq<char>>)
    ensures
        root_texts(roots.map_values(|root: Seq<char>| Toml::Str(root))) == roots,
    decreases roots.len(),
{
    let items = roots.map_values(|root: Seq<char>| Toml::Str(root));
    if roots.len() == 0 {
        assert(roots =~= Seq::empty());
    } else {
        lemma_root_texts(roots.drop_last());
        assert(items.drop_last() =~= roots.drop_last().map_values(
            |root: Seq<char>| Toml::Str(root),
        ));
        assert(roots.drop_last().push(roots.last()) =~= roots);
    }
}

} // verus!
