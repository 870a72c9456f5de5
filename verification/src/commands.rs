//! What a user types and what a user is told: directories to go to, orders,
//! bookmarks and help.

use vstd::prelude::*;

use crate::config::pairs;
use crate::fs_path::{
    begins_absolute, joined, located, path_is_absolute, unicode_path, FsPath, FsPathView, JoinedPath,
    JoinedPathView,
};
use crate::grammar::{line_texts, EditorLine};
use crate::listing::entry_at;
use crate::notices::{tell_of, told_of, told_view, tried, Message, MessageKind};
use crate::options::SortKey;
use crate::pane::{leaves_of, PaneId, PaneLayout};
use crate::save_flow::{SaveController, SaveView};
use crate::text::{
    begins_with, char_vec, decimal, decimal_text, has_prefix, join_texts, joined_texts,
    parse_number, parse_u64, same_text, slice_text, texts, trim_range, trimmed,
};
use crate::tree::{contains_path, paths_view, tree_path_view, EntryKind, TreePath};

verus! {

/// Where a path that a user typed leads: home for a tilde, below home for a tilde
/// and a slash, nowhere for another tilde, itself where it is absolute, and below
/// the root of the pane otherwise.
pub open spec fn cd_place(
    query: Seq<char>,
    root: FsPathView,
    home: Option<FsPathView>,
    absolute: bool,
) -> Option<JoinedPathView> {
    if query == "~"@ {
        match home {
            Some(home) => Some(joined(home, Seq::empty())),
            None => None,
        }
    } else if begins_with(query, "~/"@) {
        match home {
            Some(home) => Some(joined(home, seq![query.skip(2)])),
            None => None,
        }
    } else if begins_with(query, "~"@) {
        None
    } else if absolute {
        Some(joined(unicode_path(query), Seq::empty()))
    } else {
        Some(joined(root, seq![query]))
    }
}

/// A joined path that may be missing.
pub open spec fn place_view(path: Option<JoinedPath>) -> Option<JoinedPathView> {
    match path {
        Some(path) => Some(path@),
        None => None,
    }
}

/// A path that may be missing.
pub open spec fn home_view(home: Option<&FsPath>) -> Option<FsPathView> {
    match home {
        Some(home) => Some(home@),
        None => None,
    }
}

/// Where a path that a user typed leads. `absolute` says whether the path is
/// absolute.
pub fn cd_target(query: &str, root: &FsPath, home: Option<&FsPath>, absolute: bool) -> (r: Option<
    JoinedPath,
>)
    ensures
        place_view(r) == cd_place(query@, root@, home_view(home), absolute),
{
    proof {
        reveal_strlit("~/");
        reveal_strlit("~");
    }
    if same_text(query, "~") {
        return match home {
            Some(home) => Some(JoinedPath::bare(home.copy())),
            None => None,
        };
    }
    if has_prefix(query, "~/") {
        return match home {
            Some(home) => {
                let chars = char_vec(query);
                let relative = slice_text(&chars, 2, chars.len());
                assert(relative@ =~= query@.skip(2));
                let place = JoinedPath::bare(home.copy()).join(relative.as_str());
                assert(place@.names =~= seq![query@.skip(2)]);
                Some(place)
            },
            None => None,
        };
    }
    if has_prefix(query, "~") {
        return None;
    }
    if absolute {
        return Some(JoinedPath::bare(FsPath::from_text(query)));
    }
    let place = JoinedPath::bare(root.copy()).join(query);
    assert(place@.names =~= seq![query@]);
    Some(place)
}

/// Where a path that a user typed leads. Whether it is absolute is for the
/// platform to say.
pub fn resolve_cd_target(query: &str, root: &FsPath, home: Option<&FsPath>) -> (r: Option<
    JoinedPath,
>)
    ensures
        exists|absolute: bool|
            (absolute ==> begins_absolute(query@)) && #[trigger] cd_place(
                query@,
                root@,
                home_view(home),
                absolute,
            ) == place_view(r),
{
    let absolute = path_is_absolute(query);
    let place = cd_target(query, root, home, absolute);
    assert(cd_place(query@, root@, home_view(home), absolute) == place_view(place));
    place
}

/// Drives beside one another.
pub fn format_drive_paths(drives: &Vec<String>) -> (r: String)
    ensures
        r@ == joined_texts(texts(drives@), " "@),
{
    join_texts(drives, " ")
}

/// The word for an order.
pub open spec fn sort_word(key: SortKey) -> Seq<char> {
    match key {
        SortKey::Name => "name"@,
        SortKey::Date => "date"@,
        SortKey::Size => "size"@,
        SortKey::Extension => "ext"@,
    }
}

/// The word for an order.
pub fn sort_key_name(key: SortKey) -> (r: &'static str)
    ensures
        r@ == sort_word(key),
{
    match key {
        SortKey::Name => "name",
        SortKey::Date => "date",
        SortKey::Size => "size",
        SortKey::Extension => "ext",
    }
}

/// The order that a word stands for.
pub open spec fn sort_key(word: Seq<char>) -> Option<SortKey> {
    if word == "name"@ {
        Some(SortKey::Name)
    } else if word == "date"@ {
        Some(SortKey::Date)
    } else if word == "size"@ {
        Some(SortKey::Size)
    } else if word == "ext"@ {
        Some(SortKey::Extension)
    } else {
        None
    }
}

/// A wish for an order without the white space around it and without a bang before
/// it, and whether there was one.
pub open spec fn without_leading_bang(query: Seq<char>) -> (Seq<char>, bool) {
    let query = trimmed(query);
    if query.len() > 0 && query[0] == '!' {
        (trimmed(query.drop_first()), true)
    } else {
        (query, false)
    }
}

/// The word of a wish for an order, and whether a bang before or after it turns
/// the order round.
pub open spec fn sort_wish(query: Seq<char>) -> (Seq<char>, bool) {
    let (rest, leading) = without_leading_bang(query);
    if rest.len() > 0 && rest.last() == '!' {
        (trimmed(rest.drop_last()), true)
    } else {
        (rest, leading)
    }
}

/// The order that a user asks for, or what a user is told.
pub open spec fn sort_query(query: Seq<char>) -> Result<(SortKey, bool), Seq<char>> {
    let (word, reverse) = sort_wish(query);
    match sort_key(word) {
        Some(key) => Ok((key, reverse)),
        None => Err("Unknown sort key: "@ + word + " (name|date|size|ext)"@),
    }
}

/// The order that a user asks for, or what a user is told.
pub fn parse_sort_query(query: &str) -> (r: Result<(SortKey, bool), String>)
    ensures
        match r {
            Ok(order) => sort_query(query@) == Ok::<(SortKey, bool), Seq<char>>(order),
            Err(error) => sort_query(query@) == Err::<(SortKey, bool), Seq<char>>(error@),
        },
{
    let chars = char_vec(query);
    let (start, end) = trim_range(&chars, 0, chars.len());
    assert(chars@.subrange(0, chars@.len() as int) =~= query@);
    let mut from: usize = start;
    let mut to: usize = end;
    let mut reverse = false;
    let ghost whole = trimmed(query@);
    assert(chars@.subrange(from as int, to as int) == whole);
    if from < to && chars[from] == '!' {
        assert(whole[0] == '!');
        assert(chars@.subrange(from + 1, to as int) =~= whole.drop_first());
        let (start, end) = trim_range(&chars, from + 1, to);
        from = start;
        to = end;
        reverse = true;
    } else {
        assert(from < to ==> whole[0] == chars@[from as int]);
    }
    let ghost rest = without_leading_bang(query@).0;
    assert(chars@.subrange(from as int, to as int) == rest);
    if from < to && chars[to - 1] == '!' {
        assert(rest.last() == '!');
        assert(chars@.subrange(from as int, to - 1) =~= rest.drop_last());
        let (start, end) = trim_range(&chars, from, to - 1);
        from = start;
        to = end;
        reverse = true;
    } else {
        assert(from < to ==> rest.last() == chars@[to - 1]);
    }
    let word = slice_text(&chars, from, to);
    assert((word@, reverse) == sort_wish(query@));
    if same_text(word.as_str(), "name") {
        return Ok((SortKey::Name, reverse));
    }
    if same_text(word.as_str(), "date") {
        return Ok((SortKey::Date, reverse));
    }
    if same_text(word.as_str(), "size") {
        return Ok((SortKey::Size, reverse));
    }
    if same_text(word.as_str(), "ext") {
        return Ok((SortKey::Extension, reverse));
    }
    Err("Unknown sort key: ".to_owned().concat(word.as_str()).concat(" (name|date|size|ext)"))
}

/// What a user is told about the order.
pub open spec fn sort_message(key: SortKey, reverse: bool) -> Seq<char> {
    "sort: "@ + sort_word(key) + (if reverse {
        " (reverse)"@
    } else {
        Seq::empty()
    })
}

/// What a user is told about the order.
pub fn sort_state_message(key: SortKey, reverse: bool) -> (r: String)
    ensures
        r@ == sort_message(key, reverse),
{
    let message = "sort: ".to_owned().concat(sort_key_name(key));
    let message = if reverse {
        message.concat(" (reverse)")
    } else {
        message
    };
    assert(message@ =~= sort_message(key, reverse));
    message
}

/// What a bookmark's name leads to.
#[derive(Debug, PartialEq, Eq)]
pub enum BookmarkResolution {
    Resolved(String),
    Ambiguous(Vec<String>),
    NotFound,
}

/// What a bookmark's name leads to.
#[verifier::ext_equal]
pub enum BookmarkView {
    Resolved(Seq<char>),
    Ambiguous(Seq<Seq<char>>),
    NotFound,
}

impl BookmarkResolution {
    pub open spec fn view(&self) -> BookmarkView {
        match self {
            BookmarkResolution::Resolved(path) => BookmarkView::Resolved(path@),
            BookmarkResolution::Ambiguous(names) => BookmarkView::Ambiguous(texts(names@)),
            BookmarkResolution::NotFound => BookmarkView::NotFound,
        }
    }
}

/// The path of the first bookmark with a name.
pub open spec fn named_path(bookmarks: Seq<(Seq<char>, Seq<char>)>, name: Seq<char>) -> Option<
    Seq<char>,
>
    decreases bookmarks.len(),
{
    if bookmarks.len() == 0 {
        None
    } else {
        match named_path(bookmarks.drop_last(), name) {
            Some(path) => Some(path),
            None => if bookmarks.last().0 == name {
                Some(bookmarks.last().1)
            } else {
                None
            },
        }
    }
}

/// The bookmarks whose names begin with a text.
pub open spec fn beginning_with(
    bookmarks: Seq<(Seq<char>, Seq<char>)>,
    prefix: Seq<char>,
) -> Seq<(Seq<char>, Seq<char>)>
    decreases bookmarks.len(),
{
    if bookmarks.len() == 0 {
        Seq::empty()
    } else {
        let before = beginning_with(bookmarks.drop_last(), prefix);
        if begins_with(bookmarks.last().0, prefix) {
            before.push(bookmarks.last())
        } else {
            before
        }
    }
}

/// The recent root that a number stands for, counted from one.
pub open spec fn numbered_root(recent: Seq<Seq<char>>, query: Seq<char>) -> Option<Seq<char>> {
    match parse_number(query) {
        Some(number) => if 1 <= number <= recent.len() {
            Some(recent[number - 1])
        } else {
            None
        },
        None => None,
    }
}

/// What a query for a bookmark leads to: the bookmark of that name, the only one
/// whose name begins with it, the recent root of that number, or nothing that is
/// clear.
pub open spec fn bookmark_query(
    query: Seq<char>,
    bookmarks: Seq<(Seq<char>, Seq<char>)>,
    recent: Seq<Seq<char>>,
) -> BookmarkView {
    let matches = beginning_with(bookmarks, query);
    match named_path(bookmarks, query) {
        Some(path) => BookmarkView::Resolved(path),
        None => if matches.len() == 1 {
            BookmarkView::Resolved(matches[0].1)
        } else {
            match numbered_root(recent, query) {
                Some(path) => BookmarkView::Resolved(path),
                None => if matches.len() > 1 {
                    BookmarkView::Ambiguous(
                        matches.map_values(|found: (Seq<char>, Seq<char>)| found.0),
                    )
                } else {
                    BookmarkView::NotFound
                },
            }
        },
    }
}

/// A bookmark that is found among the first ones is found among all.
proof fn lemma_named_path(bookmarks: Seq<(Seq<char>, Seq<char>)>, n: int, name: Seq<char>)
    requires
        0 <= n <= bookmarks.len(),
        named_path(bookmarks.take(n), name) is Some,
    ensures
        named_path(bookmarks, name) == named_path(bookmarks.take(n), name),
    decreases bookmarks.len() - n,
{
    if n == bookmarks.len() {
        assert(bookmarks.take(n) =~= bookmarks);
    } else {
        assert(bookmarks.take(n + 1).drop_last() =~= bookmarks.take(n));
        lemma_named_path(bookmarks, n + 1, name);
    }
}

/// What a query for a bookmark leads to.
pub fn resolve_bookmark_query(
    query: &str,
    bookmarks: &Vec<(String, String)>,
    recent: &Vec<String>,
) -> (r: BookmarkResolution)
    ensures
        r@ == bookmark_query(query@, pairs(bookmarks@), texts(recent@)),
{
    let ghost all = pairs(bookmarks@);
    let mut names: Vec<String> = Vec::new();
    let mut only = String::new();
    let mut i: usize = 0;
    assert(all.take(0) =~= Seq::empty());
    assert(texts(names@) =~= beginning_with(all.take(0), query@).map_values(
        |found: (Seq<char>, Seq<char>)| found.0,
    ));
    while i < bookmarks.len()
        invariant
            i <= bookmarks@.len(),
            all == pairs(bookmarks@),
            named_path(all.take(i as int), query@) is None,
            texts(names@) == beginning_with(all.take(i as int), query@).map_values(
                |found: (Seq<char>, Seq<char>)| found.0,
            ),
            names@.len() > 0 ==> only@ == beginning_with(all.take(i as int), query@).last().1,
        decreases bookmarks@.len() - i,
    {
        let ghost before = beginning_with(all.take(i as int), query@);
        let ghost names_before = texts(names@);
        proof {
            assert(all.take(i + 1).drop_last() =~= all.take(i as int));
            assert(all.take(i + 1).last() == (bookmarks@[i as int].0@, bookmarks@[i as int].1@));
        }
        if same_text(bookmarks[i].0.as_str(), query) {
            proof {
                lemma_named_path(all, i + 1, query@);
            }
            return BookmarkResolution::Resolved(bookmarks[i].1.clone());
        }
        if has_prefix(bookmarks[i].0.as_str(), query) {
            names.push(bookmarks[i].0.clone());
            only = bookmarks[i].1.clone();
            proof {
                let after = beginning_with(all.take(i + 1), query@);
                assert(after == before.push(all[i as int]));
                assert(texts(names@) =~= names_before.push(all[i as int].0));
                assert(texts(names@) =~= after.map_values(
                    |found: (Seq<char>, Seq<char>)| found.0,
                ));
            }
        }
        i = i + 1;
    }
    assert(all.take(i as int) =~= all);
    let ghost matches = beginning_with(all, query@);
    assert(texts(names@).len() == matches.len());
    if names.len() == 1 {
        return BookmarkResolution::Resolved(only);
    }
    if let Some(number) = parse_u64(query) {
        if 1 <= number && number <= recent.len() as u64 {
            let index = (number - 1) as usize;
            return BookmarkResolution::Resolved(recent[index].clone());
        }
    }
    if names.len() > 1 {
        BookmarkResolution::Ambiguous(names)
    } else {
        BookmarkResolution::NotFound
    }
}

/// The entries of the list of bookmarks and recent roots.
pub open spec fn bookmark_entries(
    bookmarks: Seq<(Seq<char>, Seq<char>)>,
    recent: Seq<Seq<char>>,
) -> Seq<Seq<char>> {
    bookmarks.map_values(
        |bookmark: (Seq<char>, Seq<char>)| "b:"@ + bookmark.0 + "="@ + bookmark.1,
    ) + Seq::new(recent.len(), |i: int| decimal((i + 1) as nat) + ":"@ + recent[i])
}

/// What a user is told about bookmarks and recent roots.
pub open spec fn bookmark_message(
    bookmarks: Seq<(Seq<char>, Seq<char>)>,
    recent: Seq<Seq<char>>,
) -> Seq<char> {
    let entries = bookmark_entries(bookmarks, recent);
    if entries.len() == 0 {
        "No bookmarks or recent roots"@
    } else {
        joined_texts(entries, " | "@)
    }
}

/// What a user is told about bookmarks and recent roots.
pub fn bookmark_list_message(bookmarks: &Vec<(String, String)>, recent: &Vec<String>) -> (r: String)
    ensures
        r@ == bookmark_message(pairs(bookmarks@), texts(recent@)),
{
    let ghost all = bookmark_entries(pairs(bookmarks@), texts(recent@));
    let mut entries: Vec<String> = Vec::new();
    let mut i: usize = 0;
    while i < bookmarks.len()
        invariant
            i <= bookmarks@.len(),
            all == bookmark_entries(pairs(bookmarks@), texts(recent@)),
            entries@.len() == i,
            forall|j: int| 0 <= j < i ==> (#[trigger] entries@[j])@ == all[j],
        decreases bookmarks@.len() - i,
    {
        let entry = "b:".to_owned().concat(bookmarks[i].0.as_str()).concat("=").concat(
            bookmarks[i].1.as_str(),
        );
        assert(pairs(bookmarks@)[i as int] == (bookmarks@[i as int].0@, bookmarks@[i as int].1@));
        assert(entry@ =~= all[i as int]);
        entries.push(entry);
        i = i + 1;
    }
    let mut k: usize = 0;
    while k < recent.len()
        invariant
            k <= recent@.len(),
            all == bookmark_entries(pairs(bookmarks@), texts(recent@)),
            entries@.len() == bookmarks@.len() + k,
            forall|j: int| 0 <= j < entries@.len() ==> (#[trigger] entries@[j])@ == all[j],
        decreases recent@.len() - k,
    {
        let entry = decimal_text(k as u64 + 1).concat(":").concat(recent[k].as_str());
        assert(texts(recent@)[k as int] == recent@[k as int]@);
        assert(entry@ =~= all[bookmarks@.len() + k]);
        entries.push(entry);
        k = k + 1;
    }
    assert(texts(entries@) =~= all);
    if entries.len() == 0 {
        "No bookmarks or recent roots".to_owned()
    } else {
        join_texts(&entries, " | ")
    }
}

/// A program that can open a file.
#[derive(Debug, PartialEq, Eq)]
pub struct OpenWithHandler {
    pub display_name: String,
    pub key: String,
}

/// The programs that a user can choose from; the last is the one that the system
/// asks about.
pub open spec fn open_choices(handlers: Seq<OpenWithHandler>) -> Seq<Seq<char>> {
    handlers.map_values(|handler: OpenWithHandler| handler.display_name@).push(
        "Open with... (Windows dialog)"@,
    )
}

/// The programs that a user can choose from.
pub fn open_with_choices(handlers: &Vec<OpenWithHandler>) -> (r: Vec<String>)
    ensures
        texts(r@) == open_choices(handlers@),
{
    let mut choices: Vec<String> = Vec::new();
    let mut i: usize = 0;
    while i < handlers.len()
        invariant
            i <= handlers@.len(),
            choices@.len() == i,
            forall|j: int| 0 <= j < i ==> (#[trigger] choices@[j])@ == handlers@[j].display_name@,
        decreases handlers@.len() - i,
    {
        choices.push(handlers[i].display_name.clone());
        i = i + 1;
    }
    choices.push("Open with... (Windows dialog)".to_owned());
    assert(texts(choices@) =~= open_choices(handlers@));
    choices
}

/// What a user's choice of a program leads to.
#[derive(Debug, Clone, Copy, PartialEq, Eq, Structural)]
pub enum OpenWithChoice {
    Handler(usize),
    SystemDialog,
    OutOfRange,
}

/// What a user's choice of a program leads to.
pub fn open_with_choice(index: usize, handlers: usize) -> (r: OpenWithChoice)
    ensures
        r == (if index < handlers {
            OpenWithChoice::Handler(index)
        } else if index == handlers {
            OpenWithChoice::SystemDialog
        } else {
            OpenWithChoice::OutOfRange
        }),
{
    if index < handlers {
        OpenWithChoice::Handler(index)
    } else if index == handlers {
        OpenWithChoice::SystemDialog
    } else {
        OpenWithChoice::OutOfRange
    }
}

/// Why a file was not opened with the program that a user chose. `done` is what came of
/// opening it where the choice is among those that there are.
pub open spec fn open_with_error(
    choice: OpenWithChoice,
    index: nat,
    done: Result<(), Seq<char>>,
) -> Result<(), Seq<char>> {
    if choice == OpenWithChoice::OutOfRange {
        Err("Open-with selection is out of range: "@ + decimal(index))
    } else {
        done
    }
}

/// What a user is told once a file has been opened with the program that they chose, or
/// could not be.
pub fn after_open_with_choice(choice: OpenWithChoice, index: usize, done: Result<(), String>) -> (r:
    Option<Message>)
    ensures
        told_view(r) == told_of(
            MessageKind::Error,
            "Failed to open with selected application: "@,
            open_with_error(choice, index as nat, tried(done)),
        ),
{
    let done = if choice == OpenWithChoice::OutOfRange {
        Err(
            "Open-with selection is out of range: ".to_owned().concat(
                decimal_text(index as u64).as_str(),
            ),
        )
    } else {
        done
    };
    tell_of(MessageKind::Error, "Failed to open with selected application: ", done)
}

/// The first directory above a place, from the top, that has not been read.
pub open spec fn first_unloaded(
    target: Seq<Seq<char>>,
    unloaded: Seq<Seq<Seq<char>>>,
    depth: nat,
) -> Option<Seq<Seq<char>>>
    decreases target.len() - depth,
{
    if depth >= target.len() {
        None
    } else if unloaded.contains(target.take(depth as int)) {
        Some(target.take(depth as int))
    } else {
        first_unloaded(target, unloaded, depth + 1)
    }
}

/// The next directory to read before a search candidate can be shown: the first
/// one above it, from the top, that has not been read.
pub fn next_picker_reveal_directory(unloaded: &Vec<TreePath>, target: &TreePath) -> (r: Option<
    TreePath,
>)
    ensures
        tree_path_view(r) == first_unloaded(target@, paths_view(unloaded@), 1),
{
    let mut depth: usize = 1;
    while depth < target.depth()
        invariant
            1 <= depth,
            first_unloaded(target@, paths_view(unloaded@), 1) == first_unloaded(
                target@,
                paths_view(unloaded@),
                depth as nat,
            ),
        decreases target@.len() - depth,
    {
        let dir = target.prefix(depth);
        assert(dir@ =~= target@.take(depth as int));
        if contains_path(unloaded, &dir) {
            return Some(dir);
        }
        depth = depth + 1;
    }
    None
}

/// A path, or the directory that holds it.
#[derive(Debug, PartialEq, Eq)]
pub struct TerminalCwd {
    pub path: JoinedPath,
    /// Whether the directory that holds the path is meant, or the root where the
    /// path has none.
    pub parent: bool,
}

/// Where a terminal starts: in the directory under the cursor, beside the entry
/// under it, or at the root.
pub open spec fn terminal_place(
    view: SaveView,
    lines: Seq<Seq<char>>,
    line: int,
    root: FsPathView,
) -> (JoinedPathView, bool) {
    match entry_at(view.baseline.entries, lines, line) {
        Some(entry) => (joined(root, entry.path), entry.kind != EntryKind::Dir),
        None => (joined(root, Seq::empty()), false),
    }
}

/// Where a terminal starts.
pub fn resolve_terminal_cwd(
    controller: &SaveController,
    lines: &Vec<EditorLine>,
    line: usize,
    root: &FsPath,
) -> (r: TerminalCwd)
    ensures
        (r.path@, r.parent) == terminal_place(
            controller@,
            line_texts(lines@),
            line as int,
            root@,
        ),
{
    match controller.resolve_line(lines, line) {
        Some((path, kind)) => TerminalCwd {
            path: located(root, &path),
            parent: kind != EntryKind::Dir,
        },
        None => TerminalCwd { path: JoinedPath::bare(root.copy()), parent: false },
    }
}

/// The first of some directories that is there, or another one.
pub open spec fn first_existing(candidates: Seq<(FsPathView, bool)>, fallback: FsPathView) -> FsPathView
    decreases candidates.len(),
{
    if candidates.len() == 0 {
        fallback
    } else if candidates[0].1 {
        candidates[0].0
    } else {
        first_existing(candidates.drop_first(), fallback)
    }
}

/// What directories are, and whether they are there.
pub open spec fn candidates_view(candidates: Seq<(FsPath, bool)>) -> Seq<(FsPathView, bool)> {
    candidates.map_values(|candidate: (FsPath, bool)| (candidate.0@, candidate.1))
}

/// The root that a pane opens: of the one that is asked for and those above it,
/// nearest first and each with whether it is a directory, the first that is one;
/// else the fallback.
pub fn existing_root_or_ancestor(ancestors: &Vec<(FsPath, bool)>, fallback: &FsPath) -> (r: FsPath)
    ensures
        r@ == first_existing(candidates_view(ancestors@), fallback@),
{
    let ghost all = candidates_view(ancestors@);
    let mut i: usize = 0;
    assert(all.skip(0) =~= all);
    while i < ancestors.len()
        invariant
            i <= ancestors@.len(),
            all == candidates_view(ancestors@),
            first_existing(all, fallback@) == first_existing(all.skip(i as int), fallback@),
        decreases ancestors@.len() - i,
    {
        proof {
            assert(all.skip(i as int).drop_first() =~= all.skip(i + 1));
            assert(all.skip(i as int)[0] == (ancestors@[i as int].0@, ancestors@[i as int].1));
        }
        if ancestors[i].1 {
            return ancestors[i].0.copy();
        }
        i = i + 1;
    }
    fallback.copy()
}

/// The pane that the focus goes to on its way round.
pub open spec fn next_focus(leaves: Seq<PaneId>, active: PaneId, forward: bool) -> Option<PaneId> {
    if leaves.len() < 2 {
        None
    } else {
        match leaves.index_of_first(active) {
            None => None,
            Some(index) => if forward {
                if index + 1 == leaves.len() {
                    Some(leaves[0])
                } else {
                    Some(leaves[index + 1])
                }
            } else if index == 0 {
                Some(leaves.last())
            } else {
                Some(leaves[index - 1])
            },
        }
    }
}

/// The pane that the focus goes to on its way round.
pub fn cycle_focus(layout: &PaneLayout, active: PaneId, forward: bool) -> (r: Option<PaneId>)
    ensures
        r == next_focus(leaves_of(*layout), active, forward),
{
    let leaves = layout.leaves();
    proof {
        leaves@.index_of_first_ensures(active);
    }
    if leaves.len() < 2 {
        return None;
    }
    let mut i: usize = 0;
    while i < leaves.len()
        invariant
            i <= leaves@.len(),
            2 <= leaves@.len(),
            leaves@ == leaves_of(*layout),
            forall|j: int| 0 <= j < i ==> leaves@[j] != active,
        decreases leaves@.len() - i,
    {
        if leaves[i] == active {
            proof {
                leaves@.index_of_first_ensures(active);
                assert(leaves@.contains(active));
                assert(leaves@.index_of_first(active) == Some(i as int));
            }
            let count = leaves.len();
            return if forward {
                if i + 1 == count {
                    Some(leaves[0])
                } else {
                    Some(leaves[i + 1])
                }
            } else if i == 0 {
                Some(leaves[count - 1])
            } else {
                Some(leaves[i - 1])
            };
        }
        i = i + 1;
    }
    None
}

/// Where the panes differ, going round one way and back leads to where one was.
pub proof fn focus_comes_back(leaves: Seq<PaneId>, active: PaneId, forward: bool)
    requires
        leaves.no_duplicates(),
        leaves.len() >= 2,
        leaves.contains(active),
    ensures
        next_focus(leaves, active, forward) is Some,
        next_focus(leaves, next_focus(leaves, active, forward)->Some_0, !forward) == Some(active),
{
    leaves.index_of_first_ensures(active);
    let index = leaves.index_of_first(active)->Some_0;
    let target = next_focus(leaves, active, forward)->Some_0;
    let expected = if forward {
        if index + 1 == leaves.len() {
            0
        } else {
            index + 1
        }
    } else if index == 0 {
        leaves.len() - 1
    } else {
        index - 1
    };
    assert(leaves[expected] == target);
    assert(leaves.contains(target));
    leaves.index_of_first_ensures(target);
    assert(leaves.index_of_first(target) == Some(expected));
}

/// Keys and what they do.
#[derive(Debug, PartialEq, Eq)]
pub struct KeyBinding {
    /// The keys, as they are shown.
    pub sequence: String,
    /// The number of what they do.
    pub action: u32,
    /// What they do, in words.
    pub description: String,
}

/// The keys that do something, in order.
pub open spec fn keys_for(bindings: Seq<KeyBinding>, action: u32) -> Seq<Seq<char>>
    decreases bindings.len(),
{
    if bindings.len() == 0 {
        Seq::empty()
    } else {
        let before = keys_for(bindings.drop_last(), action);
        if bindings.last().action == action {
            before.push(bindings.last().sequence@)
        } else {
            before
        }
    }
}

/// Whether something is done by keys that stand before a place.
pub open spec fn bound_before(bindings: Seq<KeyBinding>, i: int) -> bool {
    exists|j: int| 0 <= j < i && (#[trigger] bindings[j]).action == bindings[i].action
}

/// A line for each thing that the first `n` keys do, with all keys that do it.
pub open spec fn action_lines(bindings: Seq<KeyBinding>, n: int) -> Seq<Seq<char>>
    decreases n,
{
    if n <= 0 {
        Seq::empty()
    } else {
        let before = action_lines(bindings, n - 1);
        if bound_before(bindings, n - 1) {
            before
        } else {
            before.push(
                joined_texts(keys_for(bindings, bindings[n - 1].action), ", "@) + "  "@
                    + bindings[n - 1].description@,
            )
        }
    }
}

/// The lines on commands that every help ends with.
pub open spec fn command_lines() -> Seq<Seq<char>> {
    seq![
        ":w  Save changes"@,
        ":cd  Change root"@,
        ":b  Bookmarks / Recent roots"@,
        ":terminal  Open terminal here"@,
        ":feedback  Send anonymous feedback"@,
    ]
}

/// The keys that do something, in order.
fn sequences_for(bindings: &Vec<KeyBinding>, action: u32) -> (r: Vec<String>)
    ensures
        texts(r@) == keys_for(bindings@, action),
{
    let mut found: Vec<String> = Vec::new();
    let mut i: usize = 0;
    assert(bindings@.take(0) =~= Seq::empty());
    assert(texts(found@) =~= keys_for(bindings@.take(0), action));
    while i < bindings.len()
        invariant
            i <= bindings@.len(),
            texts(found@) == keys_for(bindings@.take(i as int), action),
        decreases bindings@.len() - i,
    {
        let ghost before = texts(found@);
        proof {
            assert(bindings@.take(i + 1).drop_last() =~= bindings@.take(i as int));
            assert(bindings@.take(i + 1).last() == bindings@[i as int]);
        }
        if bindings[i].action == action {
            found.push(bindings[i].sequence.clone());
            assert(texts(found@) =~= before.push(bindings@[i as int].sequence@));
        }
        i = i + 1;
    }
    assert(bindings@.take(i as int) =~= bindings@);
    found
}

/// Whether something is done by keys that stand before a place.
fn is_bound_before(bindings: &Vec<KeyBinding>, i: usize) -> (r: bool)
    requires
        i < bindings@.len(),
    ensures
        r == bound_before(bindings@, i as int),
{
    let mut j: usize = 0;
    while j < i
        invariant
            j <= i < bindings@.len(),
            forall|k: int| 0 <= k < j ==> (#[trigger] bindings@[k]).action != bindings@[i as int].action,
        decreases i - j,
    {
        if bindings[j].action == bindings[i].action {
            assert(bindings@[j as int].action == bindings@[i as int].action);
            return true;
        }
        j = j + 1;
    }
    false
}

/// The lines of the help: one for each thing that keys do, in the order of the
/// first keys for it, and then the commands.
pub fn help_lines(bindings: &Vec<KeyBinding>) -> (r: Vec<String>)
    ensures
        texts(r@) == action_lines(bindings@, bindings@.len() as int) + command_lines(),
{
    let ghost all = bindings@;
    let mut lines: Vec<String> = Vec::new();
    let mut i: usize = 0;
    assert(texts(lines@) =~= action_lines(all, 0));
    while i < bindings.len()
        invariant
            i <= bindings@.len(),
            all == bindings@,
            texts(lines@) == action_lines(all, i as int),
        decreases bindings@.len() - i,
    {
        let ghost before = texts(lines@);
        if !is_bound_before(bindings, i) {
            let keys = sequences_for(bindings, bindings[i].action);
            let line = join_texts(&keys, ", ").concat("  ").concat(
                bindings[i].description.as_str(),
            );
            let ghost text = line@;
            lines.push(line);
            assert(texts(lines@) =~= before.push(text));
        }
        i = i + 1;
    }
    let ghost before = texts(lines@);
    lines.push(":w  Save changes".to_owned());
    lines.push(":cd  Change root".to_owned());
    lines.push(":b  Bookmarks / Recent roots".to_owned());
    lines.push(":terminal  Open terminal here".to_owned());
    lines.push(":feedback  Send anonymous feedback".to_owned());
    assert(texts(lines@) =~= before + command_lines());
    lines
}

} // verus!
