//! The session that is restored at the next start: the layout of the panes,
//! their roots and what they showed. What was being edited is not part of it.

use vstd::prelude::*;

use crate::config::{absolute_among, all_begin_absolute, lemma_all_begin_absolute};
use crate::fs_path::{path_text, unicode_path, FsPath, FsPathView};
use crate::options::{ScanOptions, SortKey, SortOrder};
use crate::pane::{
    contains_pane, layout_has_a_pane, leaves_of, retain_available_layout, retained,
    retaining_all_changes_nothing, PaneId, PaneLayout, SplitDirection,
};
use crate::single::{
    integer_bits, narrow, narrowed, narrowing_a_whole_number_changes_nothing,
    narrowing_twice_changes_nothing, of_integer, ONE,
};
use crate::text::{
    char_vec, contains_text, debug_of, debug_text, decimal, decimal_text, same_text,
    signed_decimal, signed_text, texts,
};
use crate::toml_doc::{
    lemma_lookup_decreases, lemma_lookup_no_entries, lemma_lookup_with_entry, lookup, no_entries,
    parsed, read_toml, with_entry, Toml, TomlTable, TomlValue,
};
use crate::tree::{paths_view, tree_path_view, TreePath};
use crate::undo_journal::{text_value, values_view, Entries};

verus! {

/// How many panes a session keeps.
pub const MAX_SESSION_PANES: usize = 4;

/// Where the window was, and whether that is a place for a window. Its numbers have single
/// precision; they are held by the bits of the equal numbers of double precision.
#[derive(Debug, Clone, Copy, PartialEq, Eq, Structural)]
pub struct WindowGeometry {
    pub inner_width: u64,
    pub inner_height: u64,
    pub outer_x: u64,
    pub outer_y: u64,
    pub maximized: bool,
    pub valid: bool,
}

/// What is kept of a pane.
#[derive(Debug, PartialEq, Eq)]
pub struct SessionPane {
    pub id: PaneId,
    pub root: FsPath,
    pub cursor: Option<TreePath>,
    pub collapsed: Vec<TreePath>,
    /// The directories that were loaded and expanded.
    pub expanded: Vec<TreePath>,
    pub scan_options: ScanOptions,
}

/// What is kept of a session; the panes by their numbers.
#[derive(Debug, PartialEq, Eq)]
pub struct SessionState {
    pub layout: PaneLayout,
    pub active: PaneId,
    pub panes: Vec<SessionPane>,
    pub window: Option<WindowGeometry>,
}

#[verifier::ext_equal]
pub struct SessionPaneView {
    pub id: PaneId,
    pub root: FsPathView,
    pub cursor: Option<Seq<Seq<char>>>,
    pub collapsed: Seq<Seq<Seq<char>>>,
    pub expanded: Seq<Seq<Seq<char>>>,
    pub scan_options: ScanOptions,
}

#[verifier::ext_equal]
pub struct SessionStateView {
    pub layout: PaneLayout,
    pub active: PaneId,
    pub panes: Seq<SessionPaneView>,
    pub window: Option<WindowGeometry>,
}

impl SessionPane {
    pub open spec fn view(&self) -> SessionPaneView {
        SessionPaneView {
            id: self.id,
            root: self.root@,
            cursor: tree_path_view(self.cursor),
            collapsed: paths_view(self.collapsed@),
            expanded: paths_view(self.expanded@),
            scan_options: self.scan_options,
        }
    }
}

/// What is kept of panes.
pub open spec fn panes_view(panes: Seq<SessionPane>) -> Seq<SessionPaneView> {
    panes.map_values(|pane: SessionPane| pane@)
}

impl SessionState {
    pub open spec fn view(&self) -> SessionStateView {
        SessionStateView {
            layout: self.layout,
            active: self.active,
            panes: panes_view(self.panes@),
            window: self.window,
        }
    }
}

// What a session is written as.

/// The value of a pane's number.
pub open spec fn pane_id_toml(id: PaneId) -> Result<Toml, Seq<char>> {
    if id.0 <= i64::MAX {
        Ok(Toml::Integer(id.0 as i64))
    } else {
        Err("pane id is too large"@)
    }
}

/// The word for a direction.
pub open spec fn direction_text(direction: SplitDirection) -> Seq<char> {
    match direction {
        SplitDirection::Horizontal => "horizontal"@,
        SplitDirection::Vertical => "vertical"@,
    }
}

/// The table of a split.
pub open spec fn split_entries(
    direction: SplitDirection,
    ratio: u64,
    first: Toml,
    second: Toml,
) -> Entries {
    with_entry(
        with_entry(
            with_entry(
                with_entry(
                    with_entry(no_entries(), "kind"@, Toml::Str("split"@)),
                    "direction"@,
                    Toml::Str(direction_text(direction)),
                ),
                "ratio"@,
                Toml::Float(ratio),
            ),
            "first"@,
            first,
        ),
        "second"@,
        second,
    )
}

/// The table of a single pane.
pub open spec fn leaf_entries(id: Toml) -> Entries {
    with_entry(with_entry(no_entries(), "kind"@, Toml::Str("leaf"@)), "pane"@, id)
}

/// The value of a layout.
pub open spec fn layout_toml(layout: PaneLayout) -> Result<Toml, Seq<char>>
    decreases layout,
{
    match layout {
        PaneLayout::Leaf(id) => match pane_id_toml(id) {
            Err(message) => Err(message),
            Ok(id) => Ok(Toml::Table(leaf_entries(id))),
        },
        PaneLayout::Split { direction, ratio, first, second } => match layout_toml(*first) {
            Err(message) => Err(message),
            Ok(first) => match layout_toml(*second) {
                Err(message) => Err(message),
                Ok(second) => Ok(Toml::Table(split_entries(direction, ratio, first, second))),
            },
        },
    }
}

/// The value of the window's place.
pub open spec fn window_toml(window: WindowGeometry) -> Toml {
    Toml::Table(
        with_entry(
            with_entry(
                with_entry(
                    with_entry(
                        with_entry(
                            no_entries(),
                            "inner_width"@,
                            Toml::Float(window.inner_width),
                        ),
                        "inner_height"@,
                        Toml::Float(window.inner_height),
                    ),
                    "outer_x"@,
                    Toml::Float(window.outer_x),
                ),
                "outer_y"@,
                Toml::Float(window.outer_y),
            ),
            "maximized"@,
            Toml::Boolean(window.maximized),
        ),
    )
}

/// The value of a place in the tree.
pub open spec fn tree_path_toml(path: Seq<Seq<char>>) -> Toml {
    Toml::Array(path.map_values(|name: Seq<char>| Toml::Str(name)))
}

/// The value of places in the tree.
pub open spec fn tree_paths_toml(paths: Seq<Seq<Seq<char>>>) -> Toml {
    Toml::Array(paths.map_values(|path: Seq<Seq<char>>| tree_path_toml(path)))
}

/// The word for an order.
pub open spec fn sort_text(sort: SortOrder) -> Seq<char> {
    match sort {
        SortOrder::DirsFirst => "dirs_first"@,
        SortOrder::Mixed => "mixed"@,
    }
}

/// The word for a sort key.
pub open spec fn sort_key_text(key: SortKey) -> Seq<char> {
    match key {
        SortKey::Name => "name"@,
        SortKey::Date => "date"@,
        SortKey::Size => "size"@,
        SortKey::Extension => "ext"@,
    }
}

/// The beginning of a pane's table: its number, its root and its cursor.
pub open spec fn pane_head(id: Toml, root: Seq<char>, cursor: Option<Seq<Seq<char>>>) -> Entries {
    let rooted = with_entry(with_entry(no_entries(), "id"@, id), "root"@, Toml::Str(root));
    match cursor {
        Some(path) => with_entry(rooted, "cursor"@, tree_path_toml(path)),
        None => rooted,
    }
}

/// A pane's table.
pub open spec fn pane_entries(id: Toml, root: Seq<char>, pane: SessionPaneView) -> Entries {
    with_entry(
        with_entry(
            with_entry(
                with_entry(
                    with_entry(
                        with_entry(
                            pane_head(id, root, pane.cursor),
                            "collapsed"@,
                            tree_paths_toml(pane.collapsed),
                        ),
                        "expanded"@,
                        tree_paths_toml(pane.expanded),
                    ),
                    "show_hidden"@,
                    Toml::Boolean(pane.scan_options.show_hidden),
                ),
                "sort"@,
                Toml::Str(sort_text(pane.scan_options.sort)),
            ),
            "sort_key"@,
            Toml::Str(sort_key_text(pane.scan_options.key)),
        ),
        "sort_reverse"@,
        Toml::Boolean(pane.scan_options.reverse),
    )
}

/// The value of a pane.
pub open spec fn pane_toml(pane: SessionPaneView) -> Result<Toml, Seq<char>> {
    match pane_id_toml(pane.id) {
        Err(message) => Err(message),
        Ok(id) => match path_text(pane.root) {
            None => Err("session paths must be Unicode"@),
            Some(root) => Ok(Toml::Table(pane_entries(id, root, pane))),
        },
    }
}

/// The values of panes: the error of the first pane that has one, else all
/// values in order.
pub open spec fn pane_values(panes: Seq<SessionPaneView>) -> Result<Seq<Toml>, Seq<char>>
    decreases panes.len(),
{
    if panes.len() == 0 {
        Ok(Seq::empty())
    } else {
        match pane_values(panes.drop_last()) {
            Err(message) => Err(message),
            Ok(values) => match pane_toml(panes.last()) {
                Err(message) => Err(message),
                Ok(value) => Ok(values.push(value)),
            },
        }
    }
}

/// The beginning of a session's document.
pub open spec fn state_head(
    active: Toml,
    layout: Toml,
    window: Option<WindowGeometry>,
) -> Entries {
    let table = with_entry(
        with_entry(with_entry(no_entries(), "version"@, Toml::Integer(1)), "active"@, active),
        "layout"@,
        layout,
    );
    match window {
        Some(window) => with_entry(table, "window"@, window_toml(window)),
        None => table,
    }
}

/// A session's document.
pub open spec fn state_entries(state: SessionStateView) -> Result<Entries, Seq<char>> {
    match pane_id_toml(state.active) {
        Err(message) => Err(message),
        Ok(active) => match layout_toml(state.layout) {
            Err(message) => Err(message),
            Ok(layout) => match pane_values(state.panes) {
                Err(message) => Err(message),
                Ok(values) => Ok(
                    with_entry(
                        state_head(active, layout, state.window),
                        "panes"@,
                        Toml::Array(values),
                    ),
                ),
            },
        },
    }
}

// What a session is read from.

/// The value of a key, which must be there.
pub open spec fn required(table: Entries, key: Seq<char>) -> Result<Toml, Seq<char>> {
    match lookup(table, key) {
        Some(value) => Ok(value),
        None => Err("Missing required field: "@ + key),
    }
}

/// The pane's number that a value holds.
pub open spec fn pane_id_of(value: Toml) -> Result<PaneId, Seq<char>> {
    match value {
        Toml::Integer(number) => if number > 0 {
            Ok(PaneId(number as u64))
        } else {
            Err("pane id must be positive"@)
        },
        _ => Err("pane id must be an integer"@),
    }
}

/// The pane's number under a key, which must be there.
pub open spec fn required_pane_id(table: Entries, key: Seq<char>) -> Result<PaneId, Seq<char>> {
    match required(table, key) {
        Err(message) => Err(message),
        Ok(value) => pane_id_of(value),
    }
}

/// Whether the bits are those of a share of single precision between nothing and all.
pub open spec fn is_share(bits: u64) -> bool {
    0 < bits < ONE && narrowed(bits) == bits
}

/// The direction of a split.
pub open spec fn direction_of(table: Entries) -> Result<SplitDirection, Seq<char>> {
    match required(table, "direction"@) {
        Err(message) => Err(message),
        Ok(Toml::Str(word)) => if word == "horizontal"@ {
            Ok(SplitDirection::Horizontal)
        } else if word == "vertical"@ {
            Ok(SplitDirection::Vertical)
        } else {
            Err("Invalid split direction: "@ + word)
        },
        Ok(_) => Err("split direction must be a string"@),
    }
}

/// The share of the first half of a split, in single precision. No integer lies between
/// nothing and all.
pub open spec fn ratio_of(table: Entries) -> Result<u64, Seq<char>> {
    match required(table, "ratio"@) {
        Err(message) => Err(message),
        Ok(Toml::Float(bits)) => if 0 < narrowed(bits) < ONE {
            Ok(narrowed(bits))
        } else {
            Err("split ratio must be between 0 and 1"@)
        },
        Ok(Toml::Integer(_)) => Err("split ratio must be between 0 and 1"@),
        Ok(_) => Err("split ratio must be a number"@),
    }
}

/// The layout that a value holds.
pub open spec fn layout_of(value: Toml) -> Result<PaneLayout, Seq<char>>
    decreases value,
{
    match value {
        Toml::Table(table) => match required(table, "kind"@) {
            Err(message) => Err(message),
            Ok(Toml::Str(kind)) => if kind == "leaf"@ {
                match required_pane_id(table, "pane"@) {
                    Err(message) => Err(message),
                    Ok(id) => Ok(PaneLayout::Leaf(id)),
                }
            } else if kind == "split"@ {
                proof {
                    lemma_lookup_decreases(table, "first"@);
                    lemma_lookup_decreases(table, "second"@);
                }
                match direction_of(table) {
                    Err(message) => Err(message),
                    Ok(direction) => match ratio_of(table) {
                        Err(message) => Err(message),
                        Ok(ratio) => match lookup(table, "first"@) {
                            None => Err("Missing required field: "@ + "first"@),
                            Some(first) => match layout_of(first) {
                                Err(message) => Err(message),
                                Ok(first) => match lookup(table, "second"@) {
                                    None => Err("Missing required field: "@ + "second"@),
                                    Some(second) => match layout_of(second) {
                                        Err(message) => Err(message),
                                        Ok(second) => Ok(
                                            PaneLayout::Split {
                                                direction,
                                                ratio,
                                                first: Box::new(first),
                                                second: Box::new(second),
                                            },
                                        ),
                                    },
                                },
                            },
                        },
                    },
                }
            } else {
                Err("Invalid layout kind: "@ + kind)
            },
            Ok(_) => Err("layout kind must be a string"@),
        },
        _ => Err("layout node must be a table"@),
    }
}

/// Whether a text can be a name in the tree.
pub open spec fn is_component(name: Seq<char>) -> bool {
    name.len() > 0 && !name.contains('/') && !name.contains('\\')
}

/// The names that values hold: the error of the first value that has one, else
/// all names in order.
pub open spec fn components_of(values: Seq<Toml>) -> Result<Seq<Seq<char>>, Seq<char>>
    decreases values.len(),
{
    if values.len() == 0 {
        Ok(Seq::empty())
    } else {
        match components_of(values.drop_last()) {
            Err(message) => Err(message),
            Ok(names) => match values.last() {
                Toml::Str(name) => if is_component(name) {
                    Ok(names.push(name))
                } else {
                    Err("Invalid tree path component: "@ + debug_of(name))
                },
                _ => Err("path component must be a string"@),
            },
        }
    }
}

/// The place in the tree that a value holds.
pub open spec fn tree_path_of(value: Toml) -> Result<Seq<Seq<char>>, Seq<char>> {
    match value {
        Toml::Array(values) => components_of(values),
        _ => Err("tree path must be an array"@),
    }
}

/// The places in the tree that values hold: the error of the first value that
/// has one, else all places in order.
pub open spec fn tree_path_list(values: Seq<Toml>) -> Result<Seq<Seq<Seq<char>>>, Seq<char>>
    decreases values.len(),
{
    if values.len() == 0 {
        Ok(Seq::empty())
    } else {
        match tree_path_list(values.drop_last()) {
            Err(message) => Err(message),
            Ok(paths) => match tree_path_of(values.last()) {
                Err(message) => Err(message),
                Ok(path) => Ok(paths.push(path)),
            },
        }
    }
}

/// The places in the tree under a key; none where the key is missing.
pub open spec fn tree_paths_of(value: Option<Toml>) -> Result<Seq<Seq<Seq<char>>>, Seq<char>> {
    match value {
        None => Ok(Seq::empty()),
        Some(Toml::Array(values)) => tree_path_list(values),
        Some(_) => Err("tree path list must be an array"@),
    }
}

/// The place in the tree under a key, if the key is there.
pub open spec fn optional_tree_path(value: Option<Toml>) -> Result<
    Option<Seq<Seq<char>>>,
    Seq<char>,
> {
    match value {
        None => Ok(None),
        Some(value) => match tree_path_of(value) {
            Err(message) => Err(message),
            Ok(path) => Ok(Some(path)),
        },
    }
}

/// The flag under a key, or a default.
pub open spec fn optional_bool(table: Entries, key: Seq<char>, default: bool) -> Result<
    bool,
    Seq<char>,
> {
    match lookup(table, key) {
        None => Ok(default),
        Some(Toml::Boolean(flag)) => Ok(flag),
        Some(_) => Err(key + " must be a boolean"@),
    }
}

/// The text under a key, or a default.
pub open spec fn optional_str(table: Entries, key: Seq<char>, default: Seq<char>) -> Result<
    Seq<char>,
    Seq<char>,
> {
    match lookup(table, key) {
        None => Ok(default),
        Some(Toml::Str(text)) => Ok(text),
        Some(_) => Err(key + " must be a string"@),
    }
}

/// The order under its key.
pub open spec fn pane_sort_of(table: Entries) -> Result<SortOrder, Seq<char>> {
    match optional_str(table, "sort"@, "dirs_first"@) {
        Err(message) => Err(message),
        Ok(word) => if word == "dirs_first"@ {
            Ok(SortOrder::DirsFirst)
        } else if word == "mixed"@ {
            Ok(SortOrder::Mixed)
        } else {
            Err("Invalid pane sort value: "@ + word)
        },
    }
}

/// The sort key under its key.
pub open spec fn pane_sort_key_of(table: Entries) -> Result<SortKey, Seq<char>> {
    match optional_str(table, "sort_key"@, "name"@) {
        Err(message) => Err(message),
        Ok(word) => if word == "name"@ {
            Ok(SortKey::Name)
        } else if word == "date"@ {
            Ok(SortKey::Date)
        } else if word == "size"@ {
            Ok(SortKey::Size)
        } else if word == "ext"@ {
            Ok(SortKey::Extension)
        } else {
            Err("Invalid pane sort_key value: "@ + word)
        },
    }
}

/// How the tree of a pane was scanned.
pub open spec fn scan_options_of(table: Entries) -> Result<ScanOptions, Seq<char>> {
    match optional_bool(table, "show_hidden"@, false) {
        Err(message) => Err(message),
        Ok(show_hidden) => match pane_sort_of(table) {
            Err(message) => Err(message),
            Ok(sort) => match pane_sort_key_of(table) {
                Err(message) => Err(message),
                Ok(key) => match optional_bool(table, "sort_reverse"@, false) {
                    Err(message) => Err(message),
                    Ok(reverse) => Ok(ScanOptions { show_hidden, sort, key, reverse }),
                },
            },
        },
    }
}

/// The root of a pane, which must be an absolute path.
pub open spec fn root_of(table: Entries, absolute: Seq<Seq<char>>) -> Result<Seq<char>, Seq<char>> {
    match required(table, "root"@) {
        Err(message) => Err(message),
        Ok(Toml::Str(root)) => if absolute.contains(root) {
            Ok(root)
        } else {
            Err("pane root must be absolute: "@ + root)
        },
        Ok(_) => Err("pane root must be a string"@),
    }
}

/// What a pane's table holds beside its number.
pub open spec fn pane_record(id: PaneId, table: Entries, absolute: Seq<Seq<char>>) -> Result<
    SessionPaneView,
    Seq<char>,
> {
    match root_of(table, absolute) {
        Err(message) => Err(message),
        Ok(root) => match optional_tree_path(lookup(table, "cursor"@)) {
            Err(message) => Err(message),
            Ok(cursor) => match tree_paths_of(lookup(table, "collapsed"@)) {
                Err(message) => Err(message),
                Ok(collapsed) => match tree_paths_of(lookup(table, "expanded"@)) {
                    Err(message) => Err(message),
                    Ok(expanded) => match scan_options_of(table) {
                        Err(message) => Err(message),
                        Ok(scan_options) => Ok(
                            SessionPaneView {
                                id,
                                root: unicode_path(root),
                                cursor,
                                collapsed,
                                expanded,
                                scan_options,
                            },
                        ),
                    },
                },
            },
        },
    }
}

/// Panes by their numbers with one more in its place; none where its number is
/// taken.
pub open spec fn with_pane(panes: Seq<SessionPaneView>, pane: SessionPaneView) -> Option<
    Seq<SessionPaneView>,
>
    decreases panes.len(),
{
    if panes.len() == 0 || panes.last().id.0 < pane.id.0 {
        Some(panes.push(pane))
    } else if panes.last().id == pane.id {
        None
    } else {
        match with_pane(panes.drop_last(), pane) {
            None => None,
            Some(before) => Some(before.push(panes.last())),
        }
    }
}

/// The panes that values hold, by their numbers; those that are not in the
/// layout are left out.
pub open spec fn panes_of(
    values: Seq<Toml>,
    wanted: Seq<PaneId>,
    absolute: Seq<Seq<char>>,
) -> Result<Seq<SessionPaneView>, Seq<char>>
    decreases values.len(),
{
    if values.len() == 0 {
        Ok(Seq::empty())
    } else {
        match panes_of(values.drop_last(), wanted, absolute) {
            Err(message) => Err(message),
            Ok(panes) => match values.last() {
                Toml::Table(table) => match required_pane_id(table, "id"@) {
                    Err(message) => Err(message),
                    Ok(id) => if !wanted.contains(id) {
                        Ok(panes)
                    } else {
                        match pane_record(id, table, absolute) {
                            Err(message) => Err(message),
                            Ok(pane) => match with_pane(panes, pane) {
                                None => Err("Duplicate pane id: "@ + decimal(id.0 as nat)),
                                Some(panes) => Ok(panes),
                            },
                        }
                    },
                },
                _ => Err("each pane must be a table"@),
            },
        }
    }
}

/// The number under a key of the window's table, in single precision.
pub open spec fn window_number(table: Entries, key: Seq<char>) -> Result<u64, Seq<char>> {
    match required(table, key) {
        Err(message) => Err(message),
        Ok(Toml::Float(bits)) => Ok(narrowed(bits)),
        Ok(Toml::Integer(number)) => Ok(of_integer(number)),
        Ok(_) => Err("window "@ + key + " must be a number"@),
    }
}

/// Where the window was, with `valid` for whether that is a place for a window.
pub open spec fn window_of(value: Toml, valid: bool) -> Result<WindowGeometry, Seq<char>> {
    match value {
        Toml::Table(table) => match window_number(table, "inner_width"@) {
            Err(message) => Err(message),
            Ok(inner_width) => match window_number(table, "inner_height"@) {
                Err(message) => Err(message),
                Ok(inner_height) => match window_number(table, "outer_x"@) {
                    Err(message) => Err(message),
                    Ok(outer_x) => match window_number(table, "outer_y"@) {
                        Err(message) => Err(message),
                        Ok(outer_y) => match required(table, "maximized"@) {
                            Err(message) => Err(message),
                            Ok(Toml::Boolean(maximized)) => if valid {
                                Ok(
                                    WindowGeometry {
                                        inner_width,
                                        inner_height,
                                        outer_x,
                                        outer_y,
                                        maximized,
                                        valid,
                                    },
                                )
                            } else {
                                Err("window geometry contains invalid values"@)
                            },
                            Ok(_) => Err("window maximized must be a boolean"@),
                        },
                    },
                },
            },
        },
        _ => Err("window must be a table"@),
    }
}

/// Where the window was, if that is recorded.
pub open spec fn optional_window(value: Option<Toml>, valid: bool) -> Result<
    Option<WindowGeometry>,
    Seq<char>,
> {
    match value {
        None => Ok(None),
        Some(value) => match window_of(value, valid) {
            Err(message) => Err(message),
            Ok(window) => Ok(Some(window)),
        },
    }
}

/// Whether the numbers of panes are just those of a layout.
pub open spec fn same_panes(leaves: Seq<PaneId>, panes: Seq<SessionPaneView>) -> bool {
    &&& forall|i: int| 0 <= i < leaves.len() ==> has_pane(panes, #[trigger] leaves[i])
    &&& forall|i: int| 0 <= i < panes.len() ==> leaves.contains((#[trigger] panes[i]).id)
}

/// Whether a pane is among panes.
pub open spec fn has_pane(panes: Seq<SessionPaneView>, id: PaneId) -> bool {
    exists|i: int| 0 <= i < panes.len() && (#[trigger] panes[i]).id == id
}

/// The version of a session's document.
pub open spec fn version_of(table: Entries) -> Result<(), Seq<char>> {
    match required(table, "version"@) {
        Err(message) => Err(message),
        Ok(Toml::Integer(version)) => if version == 1 {
            Ok(())
        } else {
            Err("Unsupported session schema version: "@ + signed_decimal(version as int))
        },
        Ok(_) => Err("version must be an integer"@),
    }
}

/// The first panes of a layout, at most as many as a session keeps.
pub open spec fn first_panes(layout: PaneLayout) -> Seq<PaneId> {
    let leaves = leaves_of(layout);
    if leaves.len() <= MAX_SESSION_PANES {
        leaves
    } else {
        leaves.take(MAX_SESSION_PANES as int)
    }
}

/// The layout of a session's document, cut down to the panes that are kept.
pub open spec fn kept_layout(table: Entries) -> Result<PaneLayout, Seq<char>> {
    match required(table, "layout"@) {
        Err(message) => Err(message),
        Ok(value) => match layout_of(value) {
            Err(message) => Err(message),
            Ok(layout) => match retained(layout, first_panes(layout)) {
                None => Err("layout contains no panes"@),
                Some(kept) => Ok(kept),
            },
        },
    }
}

/// The panes of a session's document.
pub open spec fn recorded_panes(
    table: Entries,
    wanted: Seq<PaneId>,
    absolute: Seq<Seq<char>>,
) -> Result<Seq<SessionPaneView>, Seq<char>> {
    match required(table, "panes"@) {
        Err(message) => Err(message),
        Ok(Toml::Array(values)) => match panes_of(values, wanted, absolute) {
            Err(message) => Err(message),
            Ok(panes) => if same_panes(wanted, panes) {
                Ok(panes)
            } else {
                Err("layout and pane records do not contain the same pane IDs"@)
            },
        },
        Ok(_) => Err("panes must be an array"@),
    }
}

/// What is wrong with a session, if anything is.
pub open spec fn state_error(state: SessionStateView) -> Option<Seq<char>> {
    let leaves = leaves_of(state.layout);
    if leaves.len() == 0 || leaves.len() > MAX_SESSION_PANES {
        Some("session must contain 1 to 4 panes"@)
    } else if !leaves.no_duplicates() {
        Some("layout contains duplicate pane IDs"@)
    } else if !same_panes(leaves, state.panes) {
        Some("layout and pane records do not contain the same pane IDs"@)
    } else if !leaves.contains(state.active) {
        Some("active pane is not present in layout"@)
    } else if state.window matches Some(window) && !window.valid {
        Some("session window geometry is invalid"@)
    } else {
        None
    }
}

/// The session that a document holds. `absolute` are the paths that are
/// absolute on this platform, `window_valid` says whether the window's place is
/// one for a window.
pub open spec fn state_of(
    table: Entries,
    absolute: Seq<Seq<char>>,
    window_valid: bool,
) -> Result<SessionStateView, Seq<char>> {
    match version_of(table) {
        Err(message) => Err(message),
        Ok(_) => match kept_layout(table) {
            Err(message) => Err(message),
            Ok(layout) => match recorded_panes(table, leaves_of(layout), absolute) {
                Err(message) => Err(message),
                Ok(panes) => match required_pane_id(table, "active"@) {
                    Err(message) => Err(message),
                    Ok(active) => match optional_window(lookup(table, "window"@), window_valid) {
                        Err(message) => Err(message),
                        Ok(window) => {
                            let state = SessionStateView {
                                layout,
                                active: if leaves_of(layout).contains(active) {
                                    active
                                } else {
                                    panes[0].id
                                },
                                panes,
                                window,
                            };
                            match state_error(state) {
                                Some(message) => Err(message),
                                None => Ok(state),
                            }
                        },
                    },
                },
            },
        },
    }
}

// Writing.

/// The value of a pane's number.
fn pane_id_value(id: PaneId) -> (r: Result<TomlValue, String>)
    ensures
        value_result(r, pane_id_toml(id)),
{
    if id.0 <= i64::MAX as u64 {
        Ok(TomlValue::Integer(id.0 as i64))
    } else {
        Err("pane id is too large".to_owned())
    }
}

/// Whether a result is `expected`.
pub open spec fn value_result(
    r: Result<TomlValue, String>,
    expected: Result<Toml, Seq<char>>,
) -> bool {
    match r {
        Ok(value) => expected == Ok::<Toml, Seq<char>>(value@),
        Err(message) => expected == Err::<Toml, Seq<char>>(message@),
    }
}

/// The value of a layout.
fn encode_layout(layout: &PaneLayout) -> (r: Result<TomlValue, String>)
    ensures
        value_result(r, layout_toml(*layout)),
    decreases layout,
{
    let mut table = TomlTable::new();
    match layout {
        PaneLayout::Leaf(id) => {
            let id = match pane_id_value(*id) {
                Ok(id) => id,
                Err(message) => {
                    return Err(message);
                },
            };
            table.insert("kind", text_value("leaf"));
            table.insert("pane", id);
        },
        PaneLayout::Split { direction, ratio, first, second } => {
            let first = match encode_layout(first) {
                Ok(first) => first,
                Err(message) => {
                    return Err(message);
                },
            };
            let second = match encode_layout(second) {
                Ok(second) => second,
                Err(message) => {
                    return Err(message);
                },
            };
            let word = match direction {
                SplitDirection::Horizontal => "horizontal",
                SplitDirection::Vertical => "vertical",
            };
            table.insert("kind", text_value("split"));
            table.insert("direction", text_value(word));
            table.insert("ratio", TomlValue::Float(*ratio));
            table.insert("first", first);
            table.insert("second", second);
        },
    }
    Ok(TomlValue::Table(table))
}

/// The value of the window's place.
fn encode_window(window: WindowGeometry) -> (r: TomlValue)
    ensures
        r@ == window_toml(window),
{
    let mut table = TomlTable::new();
    table.insert("inner_width", TomlValue::Float(window.inner_width));
    table.insert("inner_height", TomlValue::Float(window.inner_height));
    table.insert("outer_x", TomlValue::Float(window.outer_x));
    table.insert("outer_y", TomlValue::Float(window.outer_y));
    table.insert("maximized", TomlValue::Boolean(window.maximized));
    TomlValue::Table(table)
}

/// The value of a place in the tree.
fn tree_path_value(path: &TreePath) -> (r: TomlValue)
    ensures
        r@ == tree_path_toml(path@),
{
    let mut items: Vec<TomlValue> = Vec::new();
    let mut i: usize = 0;
    while i < path.components.len()
        invariant
            i <= path.components@.len(),
            items@.len() == i,
            forall|j: int| 0 <= j < i ==> (#[trigger] items@[j])@ == Toml::Str(path@[j]),
        decreases path.components@.len() - i,
    {
        items.push(TomlValue::Str(path.components[i].clone()));
        i = i + 1;
    }
    let value = TomlValue::Array(items);
    assert(value@->Array_0 =~= tree_path_toml(path@)->Array_0);
    value
}

/// The value of places in the tree.
fn tree_paths_value(paths: &Vec<TreePath>) -> (r: TomlValue)
    ensures
        r@ == tree_paths_toml(paths_view(paths@)),
{
    let mut items: Vec<TomlValue> = Vec::new();
    let mut i: usize = 0;
    while i < paths.len()
        invariant
            i <= paths@.len(),
            items@.len() == i,
            forall|j: int| 0 <= j < i ==> (#[trigger] items@[j])@ == tree_path_toml(paths@[j]@),
        decreases paths@.len() - i,
    {
        items.push(tree_path_value(&paths[i]));
        i = i + 1;
    }
    let value = TomlValue::Array(items);
    assert(value@->Array_0 =~= tree_paths_toml(paths_view(paths@))->Array_0);
    value
}

/// The word for an order.
pub fn sort_word(sort: SortOrder) -> (r: &'static str)
    ensures
        r@ == sort_text(sort),
{
    match sort {
        SortOrder::DirsFirst => "dirs_first",
        SortOrder::Mixed => "mixed",
    }
}

/// The word for a sort key.
pub fn sort_key_word(key: SortKey) -> (r: &'static str)
    ensures
        r@ == sort_key_text(key),
{
    match key {
        SortKey::Name => "name",
        SortKey::Date => "date",
        SortKey::Size => "size",
        SortKey::Extension => "ext",
    }
}

/// The value of a pane.
fn encode_pane(pane: &SessionPane) -> (r: Result<TomlValue, String>)
    ensures
        value_result(r, pane_toml(pane@)),
{
    let id = match pane_id_value(pane.id) {
        Ok(id) => id,
        Err(message) => {
            return Err(message);
        },
    };
    let root = match pane.root.to_text() {
        Some(root) => root,
        None => {
            return Err("session paths must be Unicode".to_owned());
        },
    };
    let mut table = TomlTable::new();
    table.insert("id", id);
    table.insert("root", TomlValue::Str(root));
    if let Some(cursor) = &pane.cursor {
        table.insert("cursor", tree_path_value(cursor));
    }
    table.insert("collapsed", tree_paths_value(&pane.collapsed));
    table.insert("expanded", tree_paths_value(&pane.expanded));
    table.insert("show_hidden", TomlValue::Boolean(pane.scan_options.show_hidden));
    table.insert("sort", text_value(sort_word(pane.scan_options.sort)));
    table.insert("sort_key", text_value(sort_key_word(pane.scan_options.key)));
    table.insert("sort_reverse", TomlValue::Boolean(pane.scan_options.reverse));
    Ok(TomlValue::Table(table))
}

/// An error among the first panes is the error of all.
proof fn lemma_pane_values_error(panes: Seq<SessionPaneView>, n: int)
    requires
        0 <= n <= panes.len(),
        pane_values(panes.take(n)) is Err,
    ensures
        pane_values(panes) == pane_values(panes.take(n)),
    decreases panes.len() - n,
{
    if n < panes.len() {
        assert(panes.take(n + 1).drop_last() =~= panes.take(n));
        lemma_pane_values_error(panes, n + 1);
    } else {
        assert(panes.take(n) =~= panes);
    }
}

/// The document of a session.
pub fn encode(state: &SessionState) -> (r: Result<TomlTable, String>)
    ensures
        match r {
            Ok(table) => state_entries(state@) == Ok::<Entries, Seq<char>>(table@),
            Err(message) => state_entries(state@) == Err::<Entries, Seq<char>>(message@),
        },
{
    let active = match pane_id_value(state.active) {
        Ok(active) => active,
        Err(message) => {
            return Err(message);
        },
    };
    let layout = match encode_layout(&state.layout) {
        Ok(layout) => layout,
        Err(message) => {
            return Err(message);
        },
    };
    let ghost all = panes_view(state.panes@);
    let mut values: Vec<TomlValue> = Vec::new();
    let mut i: usize = 0;
    assert(all.take(0) =~= Seq::empty());
    assert(values_view(values@) =~= Seq::empty());
    while i < state.panes.len()
        invariant
            i <= state.panes@.len(),
            all == panes_view(state.panes@),
            pane_id_toml(state@.active) is Ok,
            layout_toml(state@.layout) is Ok,
            pane_values(all.take(i as int)) == Ok::<Seq<Toml>, Seq<char>>(values_view(values@)),
        decreases state.panes@.len() - i,
    {
        proof {
            assert(all.take(i + 1).drop_last() =~= all.take(i as int));
            assert(all.take(i + 1).last() == state.panes@[i as int]@);
        }
        match encode_pane(&state.panes[i]) {
            Err(message) => {
                proof {
                    lemma_pane_values_error(all, i + 1);
                }
                return Err(message);
            },
            Ok(value) => {
                let ghost before = values_view(values@);
                values.push(value);
                assert(values_view(values@) =~= before.push(value@));
            },
        }
        i = i + 1;
    }
    assert(all.take(i as int) =~= all);
    let mut table = TomlTable::new();
    table.insert("version", TomlValue::Integer(1));
    table.insert("active", active);
    table.insert("layout", layout);
    if let Some(window) = state.window {
        table.insert("window", encode_window(window));
    }
    let panes = TomlValue::Array(values);
    assert(panes@->Array_0 =~= values_view(values@));
    table.insert("panes", panes);
    Ok(table)
}

// Reading.

/// The value of a key, which must be there.
fn require<'a>(table: &'a TomlTable, key: &str) -> (r: Result<&'a TomlValue, String>)
    ensures
        match r {
            Ok(value) => required(table@, key@) == Ok::<Toml, Seq<char>>(value@)
                && decreases_to!(table => value),
            Err(message) => required(table@, key@) == Err::<Toml, Seq<char>>(message@),
        },
{
    match table.get(key) {
        Some(value) => Ok(value),
        None => Err("Missing required field: ".to_owned().concat(key)),
    }
}

/// The pane's number that a value holds.
fn parse_pane_id(value: &TomlValue) -> (r: Result<PaneId, String>)
    ensures
        match r {
            Ok(id) => pane_id_of(value@) == Ok::<PaneId, Seq<char>>(id),
            Err(message) => pane_id_of(value@) == Err::<PaneId, Seq<char>>(message@),
        },
{
    match value {
        TomlValue::Integer(number) => if *number > 0 {
            Ok(PaneId(*number as u64))
        } else {
            Err("pane id must be positive".to_owned())
        },
        _ => Err("pane id must be an integer".to_owned()),
    }
}

/// The pane's number under a key, which must be there.
fn require_pane_id(table: &TomlTable, key: &str) -> (r: Result<PaneId, String>)
    ensures
        match r {
            Ok(id) => required_pane_id(table@, key@) == Ok::<PaneId, Seq<char>>(id),
            Err(message) => required_pane_id(table@, key@) == Err::<PaneId, Seq<char>>(message@),
        },
{
    match require(table, key) {
        Err(message) => Err(message),
        Ok(value) => parse_pane_id(value),
    }
}

/// The direction of a split.
fn parse_direction(table: &TomlTable) -> (r: Result<SplitDirection, String>)
    ensures
        match r {
            Ok(direction) => direction_of(table@) == Ok::<SplitDirection, Seq<char>>(direction),
            Err(message) => direction_of(table@) == Err::<SplitDirection, Seq<char>>(message@),
        },
{
    match require(table, "direction") {
        Err(message) => Err(message),
        Ok(TomlValue::Str(word)) => if same_text(word.as_str(), "horizontal") {
            Ok(SplitDirection::Horizontal)
        } else if same_text(word.as_str(), "vertical") {
            Ok(SplitDirection::Vertical)
        } else {
            Err("Invalid split direction: ".to_owned().concat(word.as_str()))
        },
        Ok(_) => Err("split direction must be a string".to_owned()),
    }
}

/// The share of the first half of a split.
fn parse_ratio(table: &TomlTable) -> (r: Result<u64, String>)
    ensures
        match r {
            Ok(bits) => ratio_of(table@) == Ok::<u64, Seq<char>>(bits),
            Err(message) => ratio_of(table@) == Err::<u64, Seq<char>>(message@),
        },
{
    match require(table, "ratio") {
        Err(message) => Err(message),
        Ok(TomlValue::Float(bits)) => {
            let ratio = narrow(*bits);
            if 0 < ratio && ratio < ONE {
                Ok(ratio)
            } else {
                Err("split ratio must be between 0 and 1".to_owned())
            }
        },
        Ok(TomlValue::Integer(_)) => Err("split ratio must be between 0 and 1".to_owned()),
        Ok(_) => Err("split ratio must be a number".to_owned()),
    }
}

/// The layout that a value holds.
fn parse_layout(value: &TomlValue) -> (r: Result<PaneLayout, String>)
    ensures
        match r {
            Ok(layout) => layout_of(value@) == Ok::<PaneLayout, Seq<char>>(layout),
            Err(message) => layout_of(value@) == Err::<PaneLayout, Seq<char>>(message@),
        },
    decreases value,
{
    let table = match value {
        TomlValue::Table(table) => table,
        _ => {
            return Err("layout node must be a table".to_owned());
        },
    };
    let kind = match require(table, "kind") {
        Err(message) => {
            return Err(message);
        },
        Ok(TomlValue::Str(kind)) => kind,
        Ok(_) => {
            return Err("layout kind must be a string".to_owned());
        },
    };
    if same_text(kind.as_str(), "leaf") {
        return match require_pane_id(table, "pane") {
            Err(message) => Err(message),
            Ok(id) => Ok(PaneLayout::Leaf(id)),
        };
    }
    if !same_text(kind.as_str(), "split") {
        return Err("Invalid layout kind: ".to_owned().concat(kind.as_str()));
    }
    proof {
        reveal_strlit("leaf");
        reveal_strlit("split");
        assert("leaf"@.len() == 4 && "split"@.len() == 5);
    }
    let direction = match parse_direction(table) {
        Err(message) => {
            return Err(message);
        },
        Ok(direction) => direction,
    };
    let ratio = match parse_ratio(table) {
        Err(message) => {
            return Err(message);
        },
        Ok(ratio) => ratio,
    };
    let first = match require(table, "first") {
        Err(message) => {
            return Err(message);
        },
        Ok(first) => match parse_layout(first) {
            Err(message) => {
                return Err(message);
            },
            Ok(first) => first,
        },
    };
    let second = match require(table, "second") {
        Err(message) => {
            return Err(message);
        },
        Ok(second) => match parse_layout(second) {
            Err(message) => {
                return Err(message);
            },
            Ok(second) => second,
        },
    };
    Ok(PaneLayout::Split { direction, ratio, first: Box::new(first), second: Box::new(second) })
}

/// Whether a text can be a name in the tree.
fn is_path_component(name: &str) -> (r: bool)
    ensures
        r == is_component(name@),
{
    let chars = char_vec(name);
    if chars.len() == 0 {
        return false;
    }
    let mut i: usize = 0;
    while i < chars.len()
        invariant
            i <= chars@.len(),
            chars@ == name@,
            chars@.len() > 0,
            forall|j: int| 0 <= j < i ==> chars@[j] != '/' && chars@[j] != '\\',
        decreases chars@.len() - i,
    {
        if chars[i] == '/' || chars[i] == '\\' {
            assert(name@.contains(chars@[i as int]));
            return false;
        }
        i = i + 1;
    }
    true
}

/// An error among the first values is the error of all.
proof fn lemma_components_error(values: Seq<Toml>, n: int)
    requires
        0 <= n <= values.len(),
        components_of(values.take(n)) is Err,
    ensures
        components_of(values) == components_of(values.take(n)),
    decreases values.len() - n,
{
    if n < values.len() {
        assert(values.take(n + 1).drop_last() =~= values.take(n));
        lemma_components_error(values, n + 1);
    } else {
        assert(values.take(n) =~= values);
    }
}

/// The place in the tree that a value holds.
fn parse_tree_path(value: &TomlValue) -> (r: Result<TreePath, String>)
    ensures
        match r {
            Ok(path) => tree_path_of(value@) == Ok::<Seq<Seq<char>>, Seq<char>>(path@),
            Err(message) => tree_path_of(value@) == Err::<Seq<Seq<char>>, Seq<char>>(message@),
        },
{
    let values = match value {
        TomlValue::Array(values) => values,
        _ => {
            return Err("tree path must be an array".to_owned());
        },
    };
    let ghost all = value@->Array_0;
    let mut names: Vec<String> = Vec::new();
    let mut i: usize = 0;
    assert(all.take(0) =~= Seq::empty());
    assert(texts(names@) =~= Seq::empty());
    while i < values.len()
        invariant
            i <= values@.len(),
            value@ == Toml::Array(all),
            all.len() == values@.len(),
            forall|j: int| 0 <= j < all.len() ==> #[trigger] all[j] == values@[j]@,
            components_of(all.take(i as int)) == Ok::<Seq<Seq<char>>, Seq<char>>(texts(names@)),
        decreases values@.len() - i,
    {
        proof {
            assert(all.take(i + 1).drop_last() =~= all.take(i as int));
            assert(all.take(i + 1).last() == values@[i as int]@);
        }
        match &values[i] {
            TomlValue::Str(name) => {
                if !is_path_component(name.as_str()) {
                    proof {
                        lemma_components_error(all, i + 1);
                    }
                    return Err(
                        "Invalid tree path component: ".to_owned().concat(
                            debug_text(name.as_str()).as_str(),
                        ),
                    );
                }
                let ghost before = texts(names@);
                names.push(name.clone());
                assert(texts(names@) =~= before.push(name@));
            },
            _ => {
                proof {
                    lemma_components_error(all, i + 1);
                }
                return Err("path component must be a string".to_owned());
            },
        }
        i = i + 1;
    }
    assert(all.take(i as int) =~= all);
    Ok(TreePath::from_components(names))
}

/// An error among the first values is the error of all.
proof fn lemma_path_list_error(values: Seq<Toml>, n: int)
    requires
        0 <= n <= values.len(),
        tree_path_list(values.take(n)) is Err,
    ensures
        tree_path_list(values) == tree_path_list(values.take(n)),
    decreases values.len() - n,
{
    if n < values.len() {
        assert(values.take(n + 1).drop_last() =~= values.take(n));
        lemma_path_list_error(values, n + 1);
    } else {
        assert(values.take(n) =~= values);
    }
}

/// The meaning of an optional value.
pub open spec fn optional_toml(value: Option<&TomlValue>) -> Option<Toml> {
    match value {
        Some(value) => Some(value@),
        None => None,
    }
}

/// The places in the tree under a key; none where the key is missing.
fn parse_tree_paths(list: Option<&TomlValue>) -> (r: Result<Vec<TreePath>, String>)
    ensures
        match r {
            Ok(paths) => tree_paths_of(optional_toml(list)) == Ok::<
                Seq<Seq<Seq<char>>>,
                Seq<char>,
            >(paths_view(paths@)),
            Err(message) => tree_paths_of(optional_toml(list)) == Err::<
                Seq<Seq<Seq<char>>>,
                Seq<char>,
            >(message@),
        },
{
    let mut paths: Vec<TreePath> = Vec::new();
    assert(paths_view(paths@) =~= Seq::empty());
    let value = match list {
        None => {
            return Ok(paths);
        },
        Some(value) => value,
    };
    let values = match value {
        TomlValue::Array(values) => values,
        _ => {
            return Err("tree path list must be an array".to_owned());
        },
    };
    let ghost all = value@->Array_0;
    let mut i: usize = 0;
    assert(all.take(0) =~= Seq::empty());
    while i < values.len()
        invariant
            i <= values@.len(),
            optional_toml(list) == Some(Toml::Array(all)),
            all.len() == values@.len(),
            forall|j: int| 0 <= j < all.len() ==> #[trigger] all[j] == values@[j]@,
            tree_path_list(all.take(i as int)) == Ok::<Seq<Seq<Seq<char>>>, Seq<char>>(
                paths_view(paths@),
            ),
        decreases values@.len() - i,
    {
        proof {
            assert(all.take(i + 1).drop_last() =~= all.take(i as int));
            assert(all.take(i + 1).last() == values@[i as int]@);
        }
        match parse_tree_path(&values[i]) {
            Err(message) => {
                proof {
                    lemma_path_list_error(all, i + 1);
                }
                return Err(message);
            },
            Ok(path) => {
                let ghost before = paths_view(paths@);
                paths.push(path);
                assert(paths_view(paths@) =~= before.push(path@));
            },
        }
        i = i + 1;
    }
    assert(all.take(i as int) =~= all);
    Ok(paths)
}

/// The flag under a key, or a default.
fn read_bool(table: &TomlTable, key: &str, default: bool) -> (r: Result<bool, String>)
    ensures
        match r {
            Ok(flag) => optional_bool(table@, key@, default) == Ok::<bool, Seq<char>>(flag),
            Err(message) => optional_bool(table@, key@, default) == Err::<bool, Seq<char>>(
                message@,
            ),
        },
{
    match table.get(key) {
        None => Ok(default),
        Some(TomlValue::Boolean(flag)) => Ok(*flag),
        Some(_) => Err(key.to_owned().concat(" must be a boolean")),
    }
}

/// The text under a key, or a default.
fn read_str(table: &TomlTable, key: &str, default: &str) -> (r: Result<String, String>)
    ensures
        match r {
            Ok(text) => optional_str(table@, key@, default@) == Ok::<Seq<char>, Seq<char>>(text@),
            Err(message) => optional_str(table@, key@, default@) == Err::<Seq<char>, Seq<char>>(
                message@,
            ),
        },
{
    match table.get(key) {
        None => Ok(default.to_owned()),
        Some(TomlValue::Str(text)) => Ok(text.clone()),
        Some(_) => Err(key.to_owned().concat(" must be a string")),
    }
}

/// How the tree of a pane was scanned.
fn parse_scan_options(table: &TomlTable) -> (r: Result<ScanOptions, String>)
    ensures
        match r {
            Ok(options) => scan_options_of(table@) == Ok::<ScanOptions, Seq<char>>(options),
            Err(message) => scan_options_of(table@) == Err::<ScanOptions, Seq<char>>(message@),
        },
{
    let show_hidden = match read_bool(table, "show_hidden", false) {
        Ok(show_hidden) => show_hidden,
        Err(message) => {
            return Err(message);
        },
    };
    let word = match read_str(table, "sort", "dirs_first") {
        Ok(word) => word,
        Err(message) => {
            return Err(message);
        },
    };
    let sort = if same_text(word.as_str(), "dirs_first") {
        SortOrder::DirsFirst
    } else if same_text(word.as_str(), "mixed") {
        SortOrder::Mixed
    } else {
        return Err("Invalid pane sort value: ".to_owned().concat(word.as_str()));
    };
    assert(pane_sort_of(table@) == Ok::<SortOrder, Seq<char>>(sort));
    let word = match read_str(table, "sort_key", "name") {
        Ok(word) => word,
        Err(message) => {
            return Err(message);
        },
    };
    let key = if same_text(word.as_str(), "name") {
        SortKey::Name
    } else if same_text(word.as_str(), "date") {
        SortKey::Date
    } else if same_text(word.as_str(), "size") {
        SortKey::Size
    } else if same_text(word.as_str(), "ext") {
        SortKey::Extension
    } else {
        return Err("Invalid pane sort_key value: ".to_owned().concat(word.as_str()));
    };
    assert(pane_sort_key_of(table@) == Ok::<SortKey, Seq<char>>(key));
    match read_bool(table, "sort_reverse", false) {
        Ok(reverse) => Ok(ScanOptions { show_hidden, sort, key, reverse }),
        Err(message) => Err(message),
    }
}

/// What a pane's table holds beside its number.
fn parse_pane(id: PaneId, table: &TomlTable, absolute: &Vec<String>) -> (r: Result<
    SessionPane,
    String,
>)
    ensures
        match r {
            Ok(pane) => pane_record(id, table@, texts(absolute@)) == Ok::<
                SessionPaneView,
                Seq<char>,
            >(pane@),
            Err(message) => pane_record(id, table@, texts(absolute@)) == Err::<
                SessionPaneView,
                Seq<char>,
            >(message@),
        },
{
    let root = match require(table, "root") {
        Err(message) => {
            return Err(message);
        },
        Ok(TomlValue::Str(root)) => root,
        Ok(_) => {
            return Err("pane root must be a string".to_owned());
        },
    };
    if !contains_text(absolute, root.as_str()) {
        return Err("pane root must be absolute: ".to_owned().concat(root.as_str()));
    }
    assert(root_of(table@, texts(absolute@)) == Ok::<Seq<char>, Seq<char>>(root@));
    let cursor = match table.get("cursor") {
        None => None,
        Some(value) => match parse_tree_path(value) {
            Ok(path) => Some(path),
            Err(message) => {
                return Err(message);
            },
        },
    };
    assert(optional_tree_path(lookup(table@, "cursor"@)) == Ok::<
        Option<Seq<Seq<char>>>,
        Seq<char>,
    >(tree_path_view(cursor)));
    let collapsed = match parse_tree_paths(table.get("collapsed")) {
        Ok(collapsed) => collapsed,
        Err(message) => {
            return Err(message);
        },
    };
    let expanded = match parse_tree_paths(table.get("expanded")) {
        Ok(expanded) => expanded,
        Err(message) => {
            return Err(message);
        },
    };
    match parse_scan_options(table) {
        Ok(scan_options) => Ok(
            SessionPane {
                id,
                root: FsPath::from_text(root.as_str()),
                cursor,
                collapsed,
                expanded,
                scan_options,
            },
        ),
        Err(message) => Err(message),
    }
}

/// Adds a pane in its place; not where its number is taken.
fn insert_pane(panes: &mut Vec<SessionPane>, pane: SessionPane) -> (r: bool)
    ensures
        match with_pane(panes_view(old(panes)@), pane@) {
            Some(new) => r && panes_view(final(panes)@) == new,
            None => !r && panes_view(final(panes)@) == panes_view(old(panes)@),
        },
{
    let ghost all = panes_view(panes@);
    let mut i: usize = panes.len();
    assert(all.take(i as int) =~= all);
    assert(all.skip(i as int) =~= Seq::empty());
    proof {
        match with_pane(all, pane@) {
            Some(new) => {
                assert(new + all.skip(i as int) =~= new);
            },
            None => {},
        }
    }
    while i > 0 && panes[i - 1].id.0 > pane.id.0
        invariant
            i <= panes@.len(),
            all == panes_view(panes@),
            with_pane(all, pane@) == (match with_pane(all.take(i as int), pane@) {
                Some(before) => Some(before + all.skip(i as int)),
                None => None,
            }),
        decreases i,
    {
        proof {
            let now = all.take(i as int);
            assert(now.last() == panes@[i - 1]@);
            assert(now.drop_last() =~= all.take(i - 1));
            match with_pane(all.take(i - 1), pane@) {
                Some(before) => {
                    assert(before.push(now.last()) + all.skip(i as int) =~= before + all.skip(
                        i - 1,
                    ));
                },
                None => {},
            }
        }
        i = i - 1;
    }
    let ghost head = all.take(i as int);
    assert(i > 0 ==> head.last() == panes@[i - 1]@);
    if i > 0 && panes[i - 1].id == pane.id {
        return false;
    }
    panes.insert(i, pane);
    assert(panes_view(panes@) =~= head.push(pane@) + all.skip(i as int));
    true
}

/// An error among the first values is the error of all.
proof fn lemma_panes_error(
    values: Seq<Toml>,
    wanted: Seq<PaneId>,
    absolute: Seq<Seq<char>>,
    n: int,
)
    requires
        0 <= n <= values.len(),
        panes_of(values.take(n), wanted, absolute) is Err,
    ensures
        panes_of(values, wanted, absolute) == panes_of(values.take(n), wanted, absolute),
    decreases values.len() - n,
{
    if n < values.len() {
        assert(values.take(n + 1).drop_last() =~= values.take(n));
        lemma_panes_error(values, wanted, absolute, n + 1);
    } else {
        assert(values.take(n) =~= values);
    }
}

/// The panes that values hold, by their numbers.
fn parse_panes(value: &TomlValue, wanted: &Vec<PaneId>, absolute: &Vec<String>) -> (r: Result<
    Vec<SessionPane>,
    String,
>)
    requires
        value@ is Array,
    ensures
        match r {
            Ok(panes) => panes_of(value@->Array_0, wanted@, texts(absolute@)) == Ok::<
                Seq<SessionPaneView>,
                Seq<char>,
            >(panes_view(panes@)),
            Err(message) => panes_of(value@->Array_0, wanted@, texts(absolute@)) == Err::<
                Seq<SessionPaneView>,
                Seq<char>,
            >(message@),
        },
{
    let mut panes: Vec<SessionPane> = Vec::new();
    let ghost all = value@->Array_0;
    let ghost absolute_view = texts(absolute@);
    if let TomlValue::Array(values) = value {
        let mut i: usize = 0;
        assert(all.take(0) =~= Seq::empty());
        assert(panes_view(panes@) =~= Seq::empty());
        while i < values.len()
            invariant
                i <= values@.len(),
                value@ == Toml::Array(all),
                all.len() == values@.len(),
                absolute_view == texts(absolute@),
                forall|j: int| 0 <= j < all.len() ==> #[trigger] all[j] == values@[j]@,
                panes_of(all.take(i as int), wanted@, absolute_view) == Ok::<
                    Seq<SessionPaneView>,
                    Seq<char>,
                >(panes_view(panes@)),
            decreases values@.len() - i,
        {
            proof {
                assert(all.take(i + 1).drop_last() =~= all.take(i as int));
                assert(all.take(i + 1).last() == values@[i as int]@);
                if panes_of(all.take(i + 1), wanted@, absolute_view) is Err {
                    lemma_panes_error(all, wanted@, absolute_view, i + 1);
                }
            }
            let table = match &values[i] {
                TomlValue::Table(table) => table,
                _ => {
                    return Err("each pane must be a table".to_owned());
                },
            };
            let id = match require_pane_id(table, "id") {
                Ok(id) => id,
                Err(message) => {
                    return Err(message);
                },
            };
            if contains_pane(wanted, id) {
                match parse_pane(id, table, absolute) {
                    Err(message) => {
                        return Err(message);
                    },
                    Ok(pane) => {
                        if !insert_pane(&mut panes, pane) {
                            return Err(
                                "Duplicate pane id: ".to_owned().concat(
                                    decimal_text(id.0).as_str(),
                                ),
                            );
                        }
                    },
                }
            }
            i = i + 1;
        }
        assert(all.take(i as int) =~= all);
    }
    Ok(panes)
}

/// The number under a key of the window's table.
fn require_number(table: &TomlTable, key: &str) -> (r: Result<u64, String>)
    ensures
        match r {
            Ok(number) => window_number(table@, key@) == Ok::<u64, Seq<char>>(number),
            Err(message) => window_number(table@, key@) == Err::<u64, Seq<char>>(message@),
        },
{
    match require(table, key) {
        Err(message) => Err(message),
        Ok(TomlValue::Float(bits)) => Ok(narrow(*bits)),
        Ok(TomlValue::Integer(number)) => Ok(integer_bits(*number)),
        Ok(_) => Err("window ".to_owned().concat(key).concat(" must be a number")),
    }
}

/// Where the window was.
fn parse_window(value: &TomlValue, valid: bool) -> (r: Result<WindowGeometry, String>)
    ensures
        match r {
            Ok(window) => window_of(value@, valid) == Ok::<WindowGeometry, Seq<char>>(window),
            Err(message) => window_of(value@, valid) == Err::<WindowGeometry, Seq<char>>(message@),
        },
{
    let table = match value {
        TomlValue::Table(table) => table,
        _ => {
            return Err("window must be a table".to_owned());
        },
    };
    match require_number(table, "inner_width") {
        Err(message) => Err(message),
        Ok(inner_width) => match require_number(table, "inner_height") {
            Err(message) => Err(message),
            Ok(inner_height) => match require_number(table, "outer_x") {
                Err(message) => Err(message),
                Ok(outer_x) => match require_number(table, "outer_y") {
                    Err(message) => Err(message),
                    Ok(outer_y) => match require(table, "maximized") {
                        Err(message) => Err(message),
                        Ok(TomlValue::Boolean(maximized)) => if valid {
                            Ok(
                                WindowGeometry {
                                    inner_width,
                                    inner_height,
                                    outer_x,
                                    outer_y,
                                    maximized: *maximized,
                                    valid,
                                },
                            )
                        } else {
                            Err("window geometry contains invalid values".to_owned())
                        },
                        Ok(_) => Err("window maximized must be a boolean".to_owned()),
                    },
                },
            },
        },
    }
}

/// Whether the numbers of panes are just those of a layout.
fn has_same_panes(leaves: &Vec<PaneId>, panes: &Vec<SessionPane>) -> (r: bool)
    ensures
        r == same_panes(leaves@, panes_view(panes@)),
{
    let ghost all = panes_view(panes@);
    let mut i: usize = 0;
    while i < leaves.len()
        invariant
            i <= leaves@.len(),
            all == panes_view(panes@),
            forall|j: int| 0 <= j < i ==> has_pane(all, #[trigger] leaves@[j]),
        decreases leaves@.len() - i,
    {
        let mut found = false;
        let mut j: usize = 0;
        while j < panes.len()
            invariant
                i < leaves@.len(),
                j <= panes@.len(),
                all == panes_view(panes@),
                found == exists|k: int| 0 <= k < j && (#[trigger] all[k]).id == leaves@[i as int],
            decreases panes@.len() - j,
        {
            if panes[j].id == leaves[i] {
                assert(all[j as int].id == leaves@[i as int]);
                found = true;
            }
            j = j + 1;
        }
        if !found {
            assert(!has_pane(all, leaves@[i as int]));
            return false;
        }
        i = i + 1;
    }
    let mut i: usize = 0;
    while i < panes.len()
        invariant
            i <= panes@.len(),
            all == panes_view(panes@),
            forall|j: int| 0 <= j < i ==> leaves@.contains((#[trigger] all[j]).id),
        decreases panes@.len() - i,
    {
        assert(all[i as int].id == panes@[i as int].id);
        if !contains_pane(leaves, panes[i].id) {
            return false;
        }
        i = i + 1;
    }
    true
}

/// Whether no pane stands twice among panes.
fn without_duplicates(panes: &Vec<PaneId>) -> (r: bool)
    ensures
        r == panes@.no_duplicates(),
{
    let mut i: usize = 0;
    while i < panes.len()
        invariant
            i <= panes@.len(),
            forall|j: int, k: int| 0 <= j < k < i ==> panes@[j] != panes@[k],
        decreases panes@.len() - i,
    {
        let mut j: usize = 0;
        while j < i
            invariant
                j <= i < panes@.len(),
                forall|k: int| 0 <= k < j ==> panes@[k] != panes@[i as int],
            decreases i - j,
        {
            if panes[j] == panes[i] {
                return false;
            }
            j = j + 1;
        }
        i = i + 1;
    }
    true
}

/// Whether a session can be kept.
pub fn validate(state: &SessionState) -> (r: Result<(), String>)
    ensures
        match r {
            Ok(_) => state_error(state@) is None,
            Err(message) => state_error(state@) == Some(message@),
        },
{
    let leaves = state.layout.leaves();
    if leaves.len() == 0 || leaves.len() > MAX_SESSION_PANES {
        return Err("session must contain 1 to 4 panes".to_owned());
    }
    if !without_duplicates(&leaves) {
        return Err("layout contains duplicate pane IDs".to_owned());
    }
    if !has_same_panes(&leaves, &state.panes) {
        return Err("layout and pane records do not contain the same pane IDs".to_owned());
    }
    if !contains_pane(&leaves, state.active) {
        return Err("active pane is not present in layout".to_owned());
    }
    if let Some(window) = state.window {
        if !window.valid {
            return Err("session window geometry is invalid".to_owned());
        }
    }
    Ok(())
}

/// A layout cut down to its first panes.
pub fn limit_layout(layout: &PaneLayout) -> (r: Option<PaneLayout>)
    ensures
        r == retained(*layout, first_panes(*layout)),
{
    let mut leaves = layout.leaves();
    if leaves.len() > MAX_SESSION_PANES {
        leaves.truncate(MAX_SESSION_PANES);
    }
    assert(leaves@ =~= first_panes(*layout));
    retain_available_layout(layout, &leaves)
}

/// The session that a document holds.
pub fn parse_table(table: &TomlTable, absolute: &Vec<String>, window_valid: bool) -> (r: Result<
    SessionState,
    String,
>)
    ensures
        match r {
            Ok(state) => state_of(table@, texts(absolute@), window_valid) == Ok::<
                SessionStateView,
                Seq<char>,
            >(state@),
            Err(message) => state_of(table@, texts(absolute@), window_valid) == Err::<
                SessionStateView,
                Seq<char>,
            >(message@),
        },
{
    match require(table, "version") {
        Err(message) => {
            return Err(message);
        },
        Ok(TomlValue::Integer(version)) => {
            if *version != 1 {
                return Err(
                    "Unsupported session schema version: ".to_owned().concat(
                        signed_text(*version).as_str(),
                    ),
                );
            }
        },
        Ok(_) => {
            return Err("version must be an integer".to_owned());
        },
    }
    let layout = match require(table, "layout") {
        Err(message) => {
            return Err(message);
        },
        Ok(value) => match parse_layout(value) {
            Err(message) => {
                return Err(message);
            },
            Ok(layout) => layout,
        },
    };
    let layout = match limit_layout(&layout) {
        None => {
            return Err("layout contains no panes".to_owned());
        },
        Some(layout) => layout,
    };
    assert(kept_layout(table@) == Ok::<PaneLayout, Seq<char>>(layout));
    let leaves = layout.leaves();
    let panes = match require(table, "panes") {
        Err(message) => {
            return Err(message);
        },
        Ok(value) => match value {
            TomlValue::Array(_) => match parse_panes(value, &leaves, absolute) {
                Err(message) => {
                    return Err(message);
                },
                Ok(panes) => panes,
            },
            _ => {
                return Err("panes must be an array".to_owned());
            },
        },
    };
    if !has_same_panes(&leaves, &panes) {
        return Err("layout and pane records do not contain the same pane IDs".to_owned());
    }
    assert(recorded_panes(table@, leaves@, texts(absolute@)) == Ok::<
        Seq<SessionPaneView>,
        Seq<char>,
    >(panes_view(panes@)));
    let requested = match require_pane_id(table, "active") {
        Err(message) => {
            return Err(message);
        },
        Ok(requested) => requested,
    };
    let window = match table.get("window") {
        None => None,
        Some(value) => match parse_window(value, window_valid) {
            Err(message) => {
                return Err(message);
            },
            Ok(window) => Some(window),
        },
    };
    assert(optional_window(lookup(table@, "window"@), window_valid) == Ok::<
        Option<WindowGeometry>,
        Seq<char>,
    >(window));
    proof {
        layout_has_a_pane(layout);
        assert(has_pane(panes_view(panes@), leaves@[0]));
    }
    let active = if contains_pane(&leaves, requested) {
        requested
    } else {
        panes[0].id
    };
    let state = SessionState { layout, active, panes, window };
    match validate(&state) {
        Err(message) => Err(message),
        Ok(_) => Ok(state),
    }
}

/// The document of a session that can be kept.
pub fn save(state: &SessionState) -> (r: Result<TomlTable, String>)
    ensures
        match r {
            Ok(table) => state_error(state@) is None && state_entries(state@) == Ok::<
                Entries,
                Seq<char>,
            >(table@),
            Err(message) => match state_error(state@) {
                Some(reason) => message@ == reason,
                None => state_entries(state@) == Err::<Entries, Seq<char>>(message@),
            },
        },
{
    match validate(state) {
        Err(message) => Err(message),
        Ok(_) => encode(state),
    }
}

/// The root that a record of a pane names.
pub open spec fn recorded_root(value: Toml) -> Option<Seq<char>> {
    match value {
        Toml::Table(pane) => match lookup(pane, "root"@) {
            Some(Toml::Str(root)) => Some(root),
            _ => None,
        },
        _ => None,
    }
}

/// The roots that the panes of a document name.
fn root_candidates(table: &TomlTable) -> (r: Vec<String>)
    ensures
        match lookup(table@, "panes"@) {
            Some(Toml::Array(values)) => forall|i: int|
                0 <= i < values.len() ==> (recorded_root(#[trigger] values[i]) matches Some(root)
                    ==> texts(r@).contains(root)),
            _ => true,
        },
{
    let mut roots: Vec<String> = Vec::new();
    if let Some(TomlValue::Array(values)) = table.get("panes") {
        let ghost all = lookup(table@, "panes"@)->Some_0->Array_0;
        let mut i: usize = 0;
        while i < values.len()
            invariant
                i <= values@.len(),
                all.len() == values@.len(),
                forall|k: int| 0 <= k < values@.len() ==> #[trigger] all[k] == values@[k]@,
                forall|k: int|
                    0 <= k < i ==> (recorded_root(#[trigger] all[k]) matches Some(root) ==> texts(
                        roots@,
                    ).contains(root)),
            decreases values@.len() - i,
        {
            let ghost before = texts(roots@);
            assert(all[i as int] == values@[i as int]@);
            if let TomlValue::Table(pane) = &values[i] {
                if let Some(TomlValue::Str(root)) = pane.get("root") {
                    roots.push(root.clone());
                    proof {
                        assert(texts(roots@) =~= before.push(root@));
                        assert(texts(roots@)[before.len() as int] == root@);
                        assert forall|known: Seq<char>| before.contains(known) implies texts(
                            roots@,
                        ).contains(known) by {
                            let k = choose|k: int| 0 <= k < before.len() && before[k] == known;
                            assert(texts(roots@)[k] == known);
                        }
                    }
                }
            }
            i = i + 1;
        }
    }
    roots
}

/// Whether `r` is the session of a text of which the platform takes just the
/// paths `absolute` for absolute ones.
pub open spec fn parsed_with(
    r: Result<SessionState, String>,
    source: Seq<char>,
    window_valid: bool,
    absolute: Seq<Seq<char>>,
) -> bool {
    let expected = state_of(parsed(source)->Ok_0->Table_0, absolute, window_valid);
    match r {
        Ok(state) => expected == Ok::<SessionStateView, Seq<char>>(state@),
        Err(message) => expected == Err::<SessionStateView, Seq<char>>(message@),
    }
}

/// The session that a text holds. Which paths count as absolute is up to the
/// platform: none does that begins neither with a root nor with a drive.
pub fn parse(source: &str, window_valid: bool) -> (r: Result<SessionState, String>)
    ensures
        match parsed(source@) {
            Err(_) => r matches Err(message) && message@ == "Invalid TOML"@,
            Ok(_) => exists|absolute: Seq<Seq<char>>|
                #[trigger] parsed_with(r, source@, window_valid, absolute) && all_begin_absolute(
                    absolute,
                ),
        },
{
    let table = match read_toml(source) {
        Err(_) => {
            return Err("Invalid TOML".to_owned());
        },
        Ok(table) => table,
    };
    let absolute = absolute_among(&root_candidates(&table));
    let parsed_state = parse_table(&table, &absolute, window_valid);
    proof {
        assert(parsed(source@)->Ok_0->Table_0 == table@);
        assert(parsed_with(parsed_state, source@, window_valid, texts(absolute@)));
        lemma_all_begin_absolute(absolute@);
    }
    parsed_state
}

/// Where the window was according to a text, for the part of the application
/// that knows places for windows.
pub fn recorded_window(source: &str) -> (r: Option<WindowGeometry>)
    ensures
        match parsed(source@) {
            Err(_) => r is None,
            Ok(value) => match optional_window(lookup(value->Table_0, "window"@), true) {
                Ok(window) => r == window,
                Err(_) => r is None,
            },
        },
{
    match read_toml(source) {
        Err(_) => None,
        Ok(table) => match table.get("window") {
            None => None,
            Some(value) => match parse_window(value, true) {
                Ok(window) => Some(window),
                Err(_) => None,
            },
        },
    }
}

// What is written is read back.

/// Whether the numbers of a window have single precision.
pub open spec fn window_wf(window: WindowGeometry) -> bool {
    &&& narrowed(window.inner_width) == window.inner_width
    &&& narrowed(window.inner_height) == window.inner_height
    &&& narrowed(window.outer_x) == window.outer_x
    &&& narrowed(window.outer_y) == window.outer_y
}

/// Whether every share in a layout lies between nothing and all, and every pane
/// has a positive number.
pub open spec fn layout_wf(layout: PaneLayout) -> bool
    decreases layout,
{
    match layout {
        PaneLayout::Leaf(id) => id.0 > 0,
        PaneLayout::Split { ratio, first, second, .. } => is_share(ratio) && layout_wf(*first)
            && layout_wf(*second),
    }
}

/// Whether the names of a place can be names in the tree.
pub open spec fn tree_path_wf(path: Seq<Seq<char>>) -> bool {
    forall|i: int| 0 <= i < path.len() ==> is_component(#[trigger] path[i])
}

/// Whether the names of places can be names in the tree.
pub open spec fn tree_paths_wf(paths: Seq<Seq<Seq<char>>>) -> bool {
    forall|i: int| 0 <= i < paths.len() ==> tree_path_wf(#[trigger] paths[i])
}

/// Whether a pane has an absolute root and places of the tree.
pub open spec fn pane_wf(pane: SessionPaneView, absolute: Seq<Seq<char>>) -> bool {
    &&& absolute.contains(pane.root.text)
    &&& pane.cursor matches Some(path) ==> tree_path_wf(path)
    &&& tree_paths_wf(pane.collapsed)
    &&& tree_paths_wf(pane.expanded)
}

/// Whether panes stand by their numbers.
pub open spec fn panes_ascend(panes: Seq<SessionPaneView>) -> bool {
    forall|i: int, j: int|
        0 <= i < j < panes.len() ==> (#[trigger] panes[i]).id.0 < (#[trigger] panes[j]).id.0
}

/// Whether a session is one that an application can have.
pub open spec fn session_wf(state: SessionStateView, absolute: Seq<Seq<char>>) -> bool {
    &&& state_error(state) is None
    &&& layout_wf(state.layout)
    &&& panes_ascend(state.panes)
    &&& state.window matches Some(window) ==> window_wf(window)
    &&& forall|i: int| 0 <= i < state.panes.len() ==> pane_wf(#[trigger] state.panes[i], absolute)
}

/// The keys and words of layouts differ where they have to.
proof fn lemma_layout_words()
    ensures
        "kind"@ != "pane"@,
        "kind"@ != "direction"@,
        "kind"@ != "ratio"@,
        "kind"@ != "first"@,
        "kind"@ != "second"@,
        "direction"@ != "ratio"@,
        "direction"@ != "first"@,
        "direction"@ != "second"@,
        "ratio"@ != "first"@,
        "ratio"@ != "second"@,
        "first"@ != "second"@,
        "leaf"@ != "split"@,
        "horizontal"@ != "vertical"@,
{
    reveal_strlit("kind");
    reveal_strlit("pane");
    reveal_strlit("direction");
    reveal_strlit("ratio");
    reveal_strlit("first");
    reveal_strlit("second");
    reveal_strlit("leaf");
    reveal_strlit("split");
    reveal_strlit("horizontal");
    reveal_strlit("vertical");
    assert("kind"@[0] != "pane"@[0]);
    assert("ratio"@[0] != "first"@[0]);
    assert("kind"@.len() == 4 && "pane"@.len() == 4 && "direction"@.len() == 9);
    assert("ratio"@.len() == 5 && "first"@.len() == 5 && "second"@.len() == 6);
    assert("leaf"@.len() == 4 && "split"@.len() == 5);
    assert("horizontal"@.len() == 10 && "vertical"@.len() == 8);
}

/// A written layout is read back.
proof fn lemma_layout_read_back(layout: PaneLayout)
    requires
        layout_wf(layout),
        layout_toml(layout) is Ok,
    ensures
        layout_of(layout_toml(layout)->Ok_0) == Ok::<PaneLayout, Seq<char>>(layout),
    decreases layout,
{
    broadcast use {lemma_lookup_with_entry, lemma_lookup_no_entries};

    lemma_layout_words();
    let value = layout_toml(layout)->Ok_0;
    match layout {
        PaneLayout::Leaf(id) => {
            let table = leaf_entries(pane_id_toml(id)->Ok_0);
            assert(value == Toml::Table(table));
            assert(required(table, "kind"@) == Ok::<Toml, Seq<char>>(Toml::Str("leaf"@)));
            assert(required_pane_id(table, "pane"@) == Ok::<PaneId, Seq<char>>(id));
        },
        PaneLayout::Split { direction, ratio, first, second } => {
            lemma_layout_read_back(*first);
            lemma_layout_read_back(*second);
            let first_value = layout_toml(*first)->Ok_0;
            let second_value = layout_toml(*second)->Ok_0;
            let table = split_entries(direction, ratio, first_value, second_value);
            assert(value == Toml::Table(table));
            assert(required(table, "kind"@) == Ok::<Toml, Seq<char>>(Toml::Str("split"@)));
            assert(direction_of(table) == Ok::<SplitDirection, Seq<char>>(direction));
            assert(ratio_of(table) == Ok::<u64, Seq<char>>(ratio));
            assert(lookup(table, "first"@) == Some(first_value));
            assert(lookup(table, "second"@) == Some(second_value));
        },
    }
}

/// A written place is read back.
proof fn lemma_tree_path_read_back(path: Seq<Seq<char>>)
    requires
        tree_path_wf(path),
    ensures
        tree_path_of(tree_path_toml(path)) == Ok::<Seq<Seq<char>>, Seq<char>>(path),
    decreases path.len(),
{
    let values = path.map_values(|name: Seq<char>| Toml::Str(name));
    if path.len() == 0 {
        assert(path =~= Seq::empty());
    } else {
        let shorter = path.drop_last();
        assert forall|i: int| 0 <= i < shorter.len() implies is_component(#[trigger] shorter[i]) by {
            assert(shorter[i] == path[i]);
        }
        lemma_tree_path_read_back(shorter);
        assert(values.drop_last() =~= shorter.map_values(|name: Seq<char>| Toml::Str(name)));
        assert(path.last() == path[path.len() - 1]);
        assert(shorter.push(path.last()) =~= path);
        assert(components_of(values.drop_last()) == Ok::<Seq<Seq<char>>, Seq<char>>(shorter));
        assert(components_of(values) == Ok::<Seq<Seq<char>>, Seq<char>>(path));
    }
}

/// Written places are read back.
proof fn lemma_tree_paths_read_back(paths: Seq<Seq<Seq<char>>>)
    requires
        tree_paths_wf(paths),
    ensures
        tree_paths_of(Some(tree_paths_toml(paths))) == Ok::<Seq<Seq<Seq<char>>>, Seq<char>>(paths),
    decreases paths.len(),
{
    let values = paths.map_values(|path: Seq<Seq<char>>| tree_path_toml(path));
    if paths.len() == 0 {
        assert(paths =~= Seq::empty());
    } else {
        let shorter = paths.drop_last();
        assert forall|i: int| 0 <= i < shorter.len() implies tree_path_wf(#[trigger] shorter[i]) by {
            assert(shorter[i] == paths[i]);
        }
        lemma_tree_paths_read_back(shorter);
        assert(values.drop_last() =~= shorter.map_values(
            |path: Seq<Seq<char>>| tree_path_toml(path),
        ));
        assert(paths.last() == paths[paths.len() - 1]);
        lemma_tree_path_read_back(paths.last());
        assert(shorter.push(paths.last()) =~= paths);
        assert(tree_path_list(values.drop_last()) == Ok::<Seq<Seq<Seq<char>>>, Seq<char>>(shorter));
        assert(tree_path_list(values) == Ok::<Seq<Seq<Seq<char>>>, Seq<char>>(paths));
    }
}

/// The keys and words of panes differ where they have to.
proof fn lemma_pane_words()
    ensures
        "id"@ != "root"@ && "id"@ != "cursor"@ && "id"@ != "collapsed"@ && "id"@ != "expanded"@
            && "id"@ != "show_hidden"@ && "id"@ != "sort"@ && "id"@ != "sort_key"@ && "id"@
            != "sort_reverse"@,
        "root"@ != "cursor"@ && "root"@ != "collapsed"@ && "root"@ != "expanded"@ && "root"@
            != "show_hidden"@ && "root"@ != "sort"@ && "root"@ != "sort_key"@ && "root"@
            != "sort_reverse"@,
        "cursor"@ != "collapsed"@ && "cursor"@ != "expanded"@ && "cursor"@ != "show_hidden"@
            && "cursor"@ != "sort"@ && "cursor"@ != "sort_key"@ && "cursor"@ != "sort_reverse"@,
        "collapsed"@ != "expanded"@ && "collapsed"@ != "show_hidden"@ && "collapsed"@ != "sort"@
            && "collapsed"@ != "sort_key"@ && "collapsed"@ != "sort_reverse"@,
        "expanded"@ != "show_hidden"@ && "expanded"@ != "sort"@ && "expanded"@ != "sort_key"@
            && "expanded"@ != "sort_reverse"@,
        "show_hidden"@ != "sort"@ && "show_hidden"@ != "sort_key"@ && "show_hidden"@
            != "sort_reverse"@,
        "sort"@ != "sort_key"@ && "sort"@ != "sort_reverse"@ && "sort_key"@ != "sort_reverse"@,
        "dirs_first"@ != "mixed"@,
        "name"@ != "date"@ && "name"@ != "size"@ && "name"@ != "ext"@ && "date"@ != "size"@
            && "date"@ != "ext"@ && "size"@ != "ext"@,
{
    reveal_strlit("id");
    reveal_strlit("root");
    reveal_strlit("cursor");
    reveal_strlit("collapsed");
    reveal_strlit("expanded");
    reveal_strlit("show_hidden");
    reveal_strlit("sort");
    reveal_strlit("sort_key");
    reveal_strlit("sort_reverse");
    reveal_strlit("dirs_first");
    reveal_strlit("mixed");
    reveal_strlit("name");
    reveal_strlit("date");
    reveal_strlit("size");
    reveal_strlit("ext");
    assert("id"@.len() == 2 && "root"@.len() == 4 && "cursor"@.len() == 6);
    assert("collapsed"@.len() == 9 && "expanded"@.len() == 8 && "show_hidden"@.len() == 11);
    assert("sort"@.len() == 4 && "sort_key"@.len() == 8 && "sort_reverse"@.len() == 12);
    assert("root"@[0] != "sort"@[0]);
    assert("expanded"@[0] != "sort_key"@[0]);
    assert("dirs_first"@.len() == 10 && "mixed"@.len() == 5);
    assert("name"@[0] != "date"@[0] && "name"@[0] != "size"@[0] && "date"@[0] != "size"@[0]);
    assert("name"@.len() == 4 && "date"@.len() == 4 && "size"@.len() == 4 && "ext"@.len() == 3);
}

/// A written pane is read back.
proof fn lemma_pane_read_back(pane: SessionPaneView, absolute: Seq<Seq<char>>)
    requires
        pane_wf(pane, absolute),
        pane.id.0 > 0,
        pane_toml(pane) is Ok,
    ensures
        pane_toml(pane)->Ok_0 is Table,
        required_pane_id(pane_toml(pane)->Ok_0->Table_0, "id"@) == Ok::<PaneId, Seq<char>>(
            pane.id,
        ),
        pane_record(pane.id, pane_toml(pane)->Ok_0->Table_0, absolute) == Ok::<
            SessionPaneView,
            Seq<char>,
        >(pane),
{
    broadcast use {lemma_lookup_with_entry, lemma_lookup_no_entries};

    lemma_pane_words();
    let table = pane_toml(pane)->Ok_0->Table_0;
    if let Some(path) = pane.cursor {
        lemma_tree_path_read_back(path);
    }
    lemma_tree_paths_read_back(pane.collapsed);
    lemma_tree_paths_read_back(pane.expanded);
    assert(root_of(table, absolute) == Ok::<Seq<char>, Seq<char>>(pane.root.text));
    assert(lookup(table, "cursor"@) == (match pane.cursor {
        Some(path) => Some(tree_path_toml(path)),
        None => None,
    }));
    assert(optional_tree_path(lookup(table, "cursor"@)) == Ok::<
        Option<Seq<Seq<char>>>,
        Seq<char>,
    >(pane.cursor));
    assert(lookup(table, "collapsed"@) == Some(tree_paths_toml(pane.collapsed)));
    assert(lookup(table, "expanded"@) == Some(tree_paths_toml(pane.expanded)));
    assert(pane_sort_of(table) == Ok::<SortOrder, Seq<char>>(pane.scan_options.sort));
    assert(pane_sort_key_of(table) == Ok::<SortKey, Seq<char>>(pane.scan_options.key));
    assert(scan_options_of(table) == Ok::<ScanOptions, Seq<char>>(pane.scan_options));
    assert(unicode_path(pane.root.text) == pane.root);
}

/// Written panes are read back.
proof fn lemma_panes_read_back(
    panes: Seq<SessionPaneView>,
    wanted: Seq<PaneId>,
    absolute: Seq<Seq<char>>,
)
    requires
        panes_ascend(panes),
        forall|i: int|
            0 <= i < panes.len() ==> pane_wf(#[trigger] panes[i], absolute) && panes[i].id.0 > 0
                && wanted.contains(panes[i].id),
        pane_values(panes) is Ok,
    ensures
        panes_of(pane_values(panes)->Ok_0, wanted, absolute) == Ok::<
            Seq<SessionPaneView>,
            Seq<char>,
        >(panes),
    decreases panes.len(),
{
    if panes.len() == 0 {
        assert(panes =~= Seq::empty());
    } else {
        let shorter = panes.drop_last();
        let last = panes.last();
        assert(last == panes[panes.len() - 1]);
        assert(panes_ascend(shorter)) by {
            assert forall|i: int, j: int| 0 <= i < j < shorter.len() implies (
            #[trigger] shorter[i]).id.0 < (#[trigger] shorter[j]).id.0 by {
                assert(shorter[i] == panes[i] && shorter[j] == panes[j]);
            }
        }
        assert forall|i: int| 0 <= i < shorter.len() implies pane_wf(#[trigger] shorter[i], absolute)
            && shorter[i].id.0 > 0 && wanted.contains(shorter[i].id) by {
            assert(shorter[i] == panes[i]);
        }
        lemma_panes_read_back(shorter, wanted, absolute);
        lemma_pane_read_back(last, absolute);
        let values = pane_values(panes)->Ok_0;
        assert(values.drop_last() =~= pane_values(shorter)->Ok_0);
        assert(values.last() == pane_toml(last)->Ok_0);
        if shorter.len() > 0 {
            assert(shorter.last() == panes[panes.len() - 2]);
        }
        assert(with_pane(shorter, last) == Some(shorter.push(last)));
        assert(shorter.push(last) =~= panes);
    }
}

/// The keys of a session differ.
proof fn lemma_state_words()
    ensures
        "version"@ != "active"@ && "version"@ != "layout"@ && "version"@ != "window"@ && "version"@
            != "panes"@,
        "active"@ != "layout"@ && "active"@ != "window"@ && "active"@ != "panes"@,
        "layout"@ != "window"@ && "layout"@ != "panes"@,
        "window"@ != "panes"@,
        "inner_width"@ != "inner_height"@ && "inner_width"@ != "outer_x"@ && "inner_width"@
            != "outer_y"@ && "inner_width"@ != "maximized"@,
        "inner_height"@ != "outer_x"@ && "inner_height"@ != "outer_y"@ && "inner_height"@
            != "maximized"@,
        "outer_x"@ != "outer_y"@ && "outer_x"@ != "maximized"@ && "outer_y"@ != "maximized"@,
{
    reveal_strlit("version");
    reveal_strlit("active");
    reveal_strlit("layout");
    reveal_strlit("window");
    reveal_strlit("panes");
    reveal_strlit("inner_width");
    reveal_strlit("inner_height");
    reveal_strlit("outer_x");
    reveal_strlit("outer_y");
    reveal_strlit("maximized");
    assert("version"@.len() == 7 && "active"@.len() == 6 && "layout"@.len() == 6);
    assert("window"@.len() == 6 && "panes"@.len() == 5);
    assert("active"@[0] != "layout"@[0] && "active"@[0] != "window"@[0]);
    assert("layout"@[0] != "window"@[0]);
    assert("inner_width"@.len() == 11 && "inner_height"@.len() == 12);
    assert("outer_x"@.len() == 7 && "outer_y"@.len() == 7 && "maximized"@.len() == 9);
    assert("outer_x"@[6] != "outer_y"@[6]);
}

/// The written place of a window is read back.
proof fn lemma_window_read_back(window: WindowGeometry)
    requires
        window.valid,
        window_wf(window),
    ensures
        window_of(window_toml(window), true) == Ok::<WindowGeometry, Seq<char>>(window),
{
    broadcast use {lemma_lookup_with_entry, lemma_lookup_no_entries};

    lemma_state_words();
    let table = window_toml(window)->Table_0;
    assert(window_number(table, "inner_width"@) == Ok::<u64, Seq<char>>(window.inner_width));
    assert(window_number(table, "inner_height"@) == Ok::<u64, Seq<char>>(window.inner_height));
    assert(window_number(table, "outer_x"@) == Ok::<u64, Seq<char>>(window.outer_x));
    assert(window_number(table, "outer_y"@) == Ok::<u64, Seq<char>>(window.outer_y));
}

/// The panes of a layout that is well formed have positive numbers.
proof fn lemma_positive_leaves(layout: PaneLayout)
    requires
        layout_wf(layout),
    ensures
        forall|i: int| 0 <= i < leaves_of(layout).len() ==> (#[trigger] leaves_of(layout)[i]).0 > 0,
    decreases layout,
{
    if let PaneLayout::Split { first, second, .. } = layout {
        lemma_positive_leaves(*first);
        lemma_positive_leaves(*second);
        let a = leaves_of(*first);
        let b = leaves_of(*second);
        assert forall|i: int| 0 <= i < leaves_of(layout).len() implies (
        #[trigger] leaves_of(layout)[i]).0 > 0 by {
            if i < a.len() {
                assert(leaves_of(layout)[i] == a[i]);
            } else {
                assert(leaves_of(layout)[i] == b[i - a.len()]);
            }
        }
    }
}

/// A session that is written is read back: its layout, its panes with their
/// roots, cursors and options, and the place of the window.
pub proof fn session_is_read_back(state: SessionStateView, absolute: Seq<Seq<char>>)
    requires
        session_wf(state, absolute),
        state_entries(state) is Ok,
    ensures
        state_of(state_entries(state)->Ok_0, absolute, true) == Ok::<SessionStateView, Seq<char>>(
            state,
        ),
{
    broadcast use {lemma_lookup_with_entry, lemma_lookup_no_entries};

    lemma_state_words();
    let table = state_entries(state)->Ok_0;
    let leaves = leaves_of(state.layout);
    let values = pane_values(state.panes)->Ok_0;
    lemma_layout_read_back(state.layout);
    lemma_positive_leaves(state.layout);
    retaining_all_changes_nothing(state.layout, leaves);
    assert forall|i: int| 0 <= i < state.panes.len() implies pane_wf(
        #[trigger] state.panes[i],
        absolute,
    ) && state.panes[i].id.0 > 0 && leaves.contains(state.panes[i].id) by {
        let k = choose|k: int| 0 <= k < leaves.len() && leaves[k] == state.panes[i].id;
        assert(leaves[k].0 > 0);
    }
    lemma_panes_read_back(state.panes, leaves, absolute);
    if let Some(window) = state.window {
        lemma_window_read_back(window);
    }
    let k = choose|k: int| 0 <= k < leaves.len() && leaves[k] == state.active;
    assert(leaves[k].0 > 0);
    assert(version_of(table) == Ok::<(), Seq<char>>(()));
    assert(lookup(table, "layout"@) == Some(layout_toml(state.layout)->Ok_0));
    assert(kept_layout(table) == Ok::<PaneLayout, Seq<char>>(state.layout));
    assert(lookup(table, "panes"@) == Some(Toml::Array(values)));
    assert(recorded_panes(table, leaves, absolute) == Ok::<Seq<SessionPaneView>, Seq<char>>(
        state.panes,
    ));
    assert(required_pane_id(table, "active"@) == Ok::<PaneId, Seq<char>>(state.active));
    assert(lookup(table, "window"@) == (match state.window {
        Some(window) => Some(window_toml(window)),
        None => None,
    }));
    assert(optional_window(lookup(table, "window"@), true) == Ok::<
        Option<WindowGeometry>,
        Seq<char>,
    >(state.window));
}

/// A session that was read has between one pane and as many as a session keeps,
/// each of them once in its layout and once among its panes, and one of them
/// active.
pub proof fn read_session_is_consistent(
    table: Entries,
    absolute: Seq<Seq<char>>,
    window_valid: bool,
)
    ensures
        state_of(table, absolute, window_valid) matches Ok(state) ==> {
            &&& 1 <= leaves_of(state.layout).len() <= MAX_SESSION_PANES
            &&& leaves_of(state.layout).no_duplicates()
            &&& same_panes(leaves_of(state.layout), state.panes)
            &&& leaves_of(state.layout).contains(state.active)
        },
{
}

/// A layout that was read is well formed.
proof fn lemma_read_layout(value: Toml)
    ensures
        layout_of(value) matches Ok(layout) ==> layout_wf(layout),
    decreases value,
{
    if let Toml::Table(table) = value {
        lemma_lookup_decreases(table, "first"@);
        lemma_lookup_decreases(table, "second"@);
        if let Some(first) = lookup(table, "first"@) {
            lemma_read_layout(first);
        }
        if let Some(second) = lookup(table, "second"@) {
            lemma_read_layout(second);
        }
        if let Some(Toml::Float(bits)) = lookup(table, "ratio"@) {
            narrowing_twice_changes_nothing(bits);
        }
    }
}

/// A part of a layout that is well formed is well formed.
proof fn lemma_retained_wf(layout: PaneLayout, available: Seq<PaneId>)
    requires
        layout_wf(layout),
    ensures
        retained(layout, available) matches Some(kept) ==> layout_wf(kept),
    decreases layout,
{
    if let PaneLayout::Split { first, second, .. } = layout {
        lemma_retained_wf(*first, available);
        lemma_retained_wf(*second, available);
    }
}

/// A place that was read has names that can be names in the tree.
proof fn lemma_read_components(values: Seq<Toml>)
    ensures
        components_of(values) matches Ok(path) ==> tree_path_wf(path),
    decreases values.len(),
{
    if values.len() > 0 {
        lemma_read_components(values.drop_last());
    }
}

/// Places that were read have names that can be names in the tree.
proof fn lemma_read_paths(values: Seq<Toml>)
    ensures
        tree_path_list(values) matches Ok(paths) ==> tree_paths_wf(paths),
    decreases values.len(),
{
    if values.len() > 0 {
        lemma_read_paths(values.drop_last());
        if let Toml::Array(names) = values.last() {
            lemma_read_components(names);
        }
    }
}

/// A pane that was read is well formed.
proof fn lemma_read_pane(id: PaneId, table: Entries, absolute: Seq<Seq<char>>)
    ensures
        pane_record(id, table, absolute) matches Ok(pane) ==> pane_wf(pane, absolute) && pane.id
            == id,
{
    if let Some(Toml::Array(names)) = lookup(table, "cursor"@) {
        lemma_read_components(names);
    }
    if let Some(Toml::Array(values)) = lookup(table, "collapsed"@) {
        lemma_read_paths(values);
    }
    if let Some(Toml::Array(values)) = lookup(table, "expanded"@) {
        lemma_read_paths(values);
    }
}

/// A pane that is put in its place leaves the panes in order.
proof fn lemma_with_pane(
    panes: Seq<SessionPaneView>,
    pane: SessionPaneView,
    absolute: Seq<Seq<char>>,
    limit: int,
)
    requires
        panes_ascend(panes),
        pane_wf(pane, absolute),
        forall|i: int|
            0 <= i < panes.len() ==> pane_wf(#[trigger] panes[i], absolute) && panes[i].id.0
                < limit,
        pane.id.0 < limit,
    ensures
        with_pane(panes, pane) matches Some(after) ==> panes_ascend(after) && forall|i: int|
            0 <= i < after.len() ==> pane_wf(#[trigger] after[i], absolute) && after[i].id.0
                < limit,
    decreases panes.len(),
{
    if panes.len() > 0 {
        let last = panes.last();
        if last.id.0 > pane.id.0 {
            let shorter = panes.drop_last();
            assert(panes_ascend(shorter));
            assert forall|i: int| 0 <= i < shorter.len() implies pane_wf(
                #[trigger] shorter[i],
                absolute,
            ) && shorter[i].id.0 < last.id.0 by {
                assert(shorter[i] == panes[i]);
                assert(panes[i].id.0 < panes[panes.len() - 1].id.0);
            }
            lemma_with_pane(shorter, pane, absolute, last.id.0 as int);
            if let Some(before) = with_pane(shorter, pane) {
                let after = before.push(last);
                assert forall|i: int| 0 <= i < after.len() implies pane_wf(
                    #[trigger] after[i],
                    absolute,
                ) && after[i].id.0 < limit by {
                    if i < before.len() {
                        assert(after[i] == before[i]);
                    } else {
                        assert(after[i] == panes[panes.len() - 1]);
                    }
                }
            }
        } else if last.id.0 < pane.id.0 {
            let after = panes.push(pane);
            assert forall|i: int, j: int| 0 <= i < j < after.len() implies (#[trigger] after[i]).id.0
                < (#[trigger] after[j]).id.0 by {
                if j == panes.len() && i + 1 < panes.len() {
                    assert(panes[i].id.0 < panes[panes.len() - 1].id.0);
                }
            }
        }
    }
}

/// Panes that were read are well formed and stand by their numbers.
proof fn lemma_read_panes(values: Seq<Toml>, wanted: Seq<PaneId>, absolute: Seq<Seq<char>>)
    ensures
        panes_of(values, wanted, absolute) matches Ok(panes) ==> panes_ascend(panes) && forall|
            i: int,
        |
            0 <= i < panes.len() ==> pane_wf(#[trigger] panes[i], absolute),
    decreases values.len(),
{
    if values.len() > 0 {
        lemma_read_panes(values.drop_last(), wanted, absolute);
        if let Ok(before) = panes_of(values.drop_last(), wanted, absolute) {
            if let Toml::Table(table) = values.last() {
                if let Ok(id) = required_pane_id(table, "id"@) {
                    lemma_read_pane(id, table, absolute);
                    if let Ok(pane) = pane_record(id, table, absolute) {
                        lemma_with_pane(before, pane, absolute, u64::MAX + 1);
                    }
                }
            }
        }
    }
}

/// The numbers of a window that was read have single precision.
proof fn lemma_read_window(value: Toml, valid: bool)
    ensures
        window_of(value, valid) matches Ok(window) ==> window_wf(window) && window.valid,
{
    if let Toml::Table(table) = value {
        lemma_read_number(table, "inner_width"@);
        lemma_read_number(table, "inner_height"@);
        lemma_read_number(table, "outer_x"@);
        lemma_read_number(table, "outer_y"@);
    }
}

/// A number that was read has single precision.
proof fn lemma_read_number(table: Entries, key: Seq<char>)
    ensures
        window_number(table, key) matches Ok(bits) ==> narrowed(bits) == bits,
{
    match lookup(table, key) {
        Some(Toml::Float(bits)) => {
            narrowing_twice_changes_nothing(bits);
        },
        Some(Toml::Integer(number)) => {
            narrowing_a_whole_number_changes_nothing(number);
        },
        _ => {},
    }
}

/// A session that was read, written and read again is the same.
pub proof fn reading_again_changes_nothing(
    table: Entries,
    absolute: Seq<Seq<char>>,
    window_valid: bool,
)
    ensures
        state_of(table, absolute, window_valid) matches Ok(state) ==> {
            &&& session_wf(state, absolute)
            &&& state_entries(state) matches Ok(written) ==> state_of(written, absolute, true)
                == Ok::<SessionStateView, Seq<char>>(state)
        },
{
    if let Ok(state) = state_of(table, absolute, window_valid) {
        if let Some(value) = lookup(table, "layout"@) {
            lemma_read_layout(value);
            let layout = layout_of(value)->Ok_0;
            lemma_retained_wf(layout, first_panes(layout));
        }
        if let Some(Toml::Array(values)) = lookup(table, "panes"@) {
            lemma_read_panes(values, leaves_of(state.layout), absolute);
        }
        if let Some(value) = lookup(table, "window"@) {
            lemma_read_window(value, window_valid);
        }
        if state_entries(state) is Ok {
            session_is_read_back(state, absolute);
        }
    }
}

} // verus!
