//! How an entry is written as a line of the listing, and how the line is read.
//!
//! A line begins with the number of its entry: a slash, at least three digits
//! and a space. Then come the indentation, the name, and a slash after the name
//! of a directory. A line that the user has typed has no number.

use vstd::prelude::*;

use crate::text::{
    all_digits, char_vec, decimal, decimal_text, digits_number, digits_value, is_digit,
    lemma_decimal_value, parse_digits, slice_text,
};

verus! {

/// The number of an entry.
#[derive(Debug, Clone, Copy, PartialEq, Eq, Structural)]
pub struct EntryId(pub u64);

/// A line of the listing.
#[derive(Debug, PartialEq, Eq)]
pub struct EditorLine {
    pub text: String,
}

/// The beginning of a line.
#[derive(Debug, PartialEq, Eq)]
pub enum PrefixParse {
    /// The number of an entry, and what follows it.
    WithId { id: EntryId, rest: String },
    /// No number: the line is new.
    NoId,
    /// Something that looks like a number but is none.
    Broken,
}

/// The beginning of a line.
#[verifier::ext_equal]
pub enum PrefixView {
    WithId { id: EntryId, rest: Seq<char> },
    NoId,
    Broken,
}

impl PrefixParse {
    pub open spec fn view(&self) -> PrefixView {
        match self {
            PrefixParse::WithId { id, rest } => PrefixView::WithId { id: *id, rest: rest@ },
            PrefixParse::NoId => PrefixView::NoId,
            PrefixParse::Broken => PrefixView::Broken,
        }
    }
}

impl EditorLine {
    /// A line with this text.
    pub fn new(text: String) -> (r: EditorLine)
        ensures
            r.text@ == text@,
    {
        EditorLine { text }
    }
}

/// The texts of lines.
pub open spec fn line_texts(lines: Seq<EditorLine>) -> Seq<Seq<char>> {
    lines.map_values(|line: EditorLine| line.text@)
}

/// `n` characters `c`.
pub open spec fn repeated(c: char, n: nat) -> Seq<char> {
    Seq::new(n, |i: int| c)
}

/// A number in at least three digits.
pub open spec fn padded(n: nat) -> Seq<char> {
    let digits = decimal(n);
    if digits.len() < 3 {
        repeated('0', (3 - digits.len()) as nat) + digits
    } else {
        digits
    }
}

/// The number of an entry at the beginning of a line.
pub open spec fn id_prefix(id: EntryId) -> Seq<char> {
    "/"@ + padded(id.0 as nat) + " "@
}

/// The number of an entry at the beginning of a line.
pub fn format_id_prefix(id: EntryId) -> (r: String)
    ensures
        r@ == id_prefix(id),
{
    let digits = decimal_text(id.0);
    let count = char_vec(digits.as_str()).len();
    let mut text = "/".to_owned();
    let ghost slash = text@;
    let mut i: usize = count;
    assert(text@ =~= slash + repeated('0', 0));
    while i < 3
        invariant
            count <= i,
            i <= 3 || i == count,
            text@ == slash + repeated('0', (i - count) as nat),
        decreases 3 - i,
    {
        text.push('0');
        assert(repeated('0', (i - count) as nat).push('0') =~= repeated('0', (i - count + 1) as nat));
        i = i + 1;
        assert(text@ =~= slash + repeated('0', (i - count) as nat));
    }
    text.append(digits.as_str());
    text.append(" ");
    assert(text@ =~= id_prefix(id));
    text
}

/// How many digits stand in a row from position `from`.
pub open spec fn digit_run(s: Seq<char>, from: int) -> nat
    decreases s.len() - from,
{
    if 0 <= from < s.len() && is_digit(s[from]) {
        digit_run(s, from + 1) + 1
    } else {
        0
    }
}

/// A row of digits ends within the text.
pub proof fn lemma_digit_run_bound(s: Seq<char>, from: int)
    requires
        0 <= from <= s.len(),
    ensures
        from + digit_run(s, from) <= s.len(),
    decreases s.len() - from,
{
    if from < s.len() && is_digit(s[from]) {
        lemma_digit_run_bound(s, from + 1);
    }
}

/// How the beginning of a line is read.
pub open spec fn prefix_of(s: Seq<char>) -> PrefixView {
    if s.len() == 0 || s[0] != '/' {
        PrefixView::NoId
    } else {
        let end = 1 + digit_run(s, 1) as int;
        if end < s.len() && s[end] == ' ' {
            match digits_number(s.subrange(1, end)) {
                Some(id) => PrefixView::WithId {
                    id: EntryId(id),
                    rest: s.subrange(end + 1, s.len() as int),
                },
                None => PrefixView::Broken,
            }
        } else {
            PrefixView::Broken
        }
    }
}

/// Reads the beginning of a line.
pub fn split_id_prefix(text: &str) -> (r: PrefixParse)
    ensures
        r@ == prefix_of(text@),
{
    let chars = char_vec(text);
    if chars.len() == 0 || chars[0] != '/' {
        return PrefixParse::NoId;
    }
    let mut end: usize = 1;
    while end < chars.len() && '0' <= chars[end] && chars[end] <= '9'
        invariant
            1 <= end <= chars@.len(),
            chars@ == text@,
            1 + digit_run(text@, 1) == end + digit_run(text@, end as int),
        decreases chars@.len() - end,
    {
        end = end + 1;
    }
    assert(digit_run(text@, end as int) == 0);
    if end < chars.len() && chars[end] == ' ' {
        match parse_digits(&chars, 1, end) {
            Some(id) => PrefixParse::WithId {
                id: EntryId(id),
                rest: slice_text(&chars, end + 1, chars.len()),
            },
            None => PrefixParse::Broken,
        }
    } else {
        PrefixParse::Broken
    }
}

/// Zeros before digits do not change the number.
proof fn lemma_leading_zeros(zeros: nat, digits: Seq<char>)
    requires
        all_digits(digits),
    ensures
        all_digits(repeated('0', zeros) + digits),
        digits_value(repeated('0', zeros) + digits) == digits_value(digits),
    decreases digits.len() + zeros,
{
    let s = repeated('0', zeros) + digits;
    if digits.len() > 0 {
        let shorter = digits.drop_last();
        assert(all_digits(shorter));
        lemma_leading_zeros(zeros, shorter);
        assert(s.drop_last() =~= repeated('0', zeros) + shorter);
        assert(s.last() == digits.last());
        assert(is_digit(digits[digits.len() - 1]));
        assert forall|i: int| 0 <= i < s.len() implies is_digit(#[trigger] s[i]) by {
            if i < s.len() - 1 {
                assert(s[i] == s.drop_last()[i]);
            }
        }
    } else if zeros > 0 {
        lemma_leading_zeros((zeros - 1) as nat, digits);
        assert(s.drop_last() =~= repeated('0', (zeros - 1) as nat) + digits);
        assert(s.last() == '0');
        assert(digits_value(digits) == 0);
    } else {
        assert(s =~= digits);
    }
}

/// Digits in a row are counted.
proof fn lemma_digit_run(s: Seq<char>, from: int, end: int)
    requires
        0 <= from <= end < s.len(),
        forall|i: int| from <= i < end ==> is_digit(#[trigger] s[i]),
        !is_digit(s[end]),
    ensures
        digit_run(s, from) == end - from,
    decreases end - from,
{
    if from < end {
        assert(is_digit(s[from]));
        lemma_digit_run(s, from + 1, end);
    }
}

/// The number that is written at the beginning of a line is read back, and what
/// follows it is left as it is.
pub proof fn id_prefix_is_read_back(id: EntryId, rest: Seq<char>)
    ensures
        prefix_of(id_prefix(id) + rest) == (PrefixView::WithId { id, rest }),
{
    reveal_strlit("/");
    reveal_strlit(" ");
    let digits = padded(id.0 as nat);
    let s = id_prefix(id) + rest;
    lemma_decimal_value(id.0 as nat);
    if decimal(id.0 as nat).len() < 3 {
        lemma_leading_zeros((3 - decimal(id.0 as nat).len()) as nat, decimal(id.0 as nat));
    }
    let end = 1 + digits.len() as int;
    assert(s[0] == '/');
    assert(s.subrange(1, end) =~= digits);
    assert(s[end] == ' ');
    assert forall|i: int| 1 <= i < end implies is_digit(#[trigger] s[i]) by {
        assert(s[i] == digits[i - 1]);
    }
    lemma_digit_run(s, 1, end);
    assert(s.subrange(end + 1, s.len() as int) =~= rest);
}

/// The spaces of one level of indentation.
pub open spec fn indentation(levels: nat) -> Seq<char> {
    repeated(' ', levels * 2)
}

/// How many levels of indentation a text begins with.
pub open spec fn indent_levels(s: Seq<char>) -> nat
    decreases s.len(),
{
    if s.len() >= 2 && s[0] == ' ' && s[1] == ' ' {
        indent_levels(s.skip(2)) + 1
    } else {
        0
    }
}

/// What follows the indentation of a text.
pub open spec fn after_indent(s: Seq<char>) -> Seq<char>
    decreases s.len(),
{
    if s.len() >= 2 && s[0] == ' ' && s[1] == ' ' {
        after_indent(s.skip(2))
    } else {
        s
    }
}

/// The levels of indentation that a text begins with, and what follows them.
pub fn split_indent(text: &str) -> (r: (usize, String))
    ensures
        r.0 == indent_levels(text@),
        r.1@ == after_indent(text@),
{
    let chars = char_vec(text);
    let mut levels: usize = 0;
    let mut at: usize = 0;
    assert(text@.skip(0) =~= text@);
    while chars.len() - at >= 2 && chars[at] == ' ' && chars[at + 1] == ' '
        invariant
            at <= chars@.len(),
            levels <= at,
            chars@ == text@,
            indent_levels(text@) == levels + indent_levels(text@.skip(at as int)),
            after_indent(text@) == after_indent(text@.skip(at as int)),
        decreases chars@.len() - at,
    {
        assert(text@.skip(at as int).skip(2) =~= text@.skip(at + 2));
        at = at + 2;
        levels = levels + 1;
    }
    assert(text@.skip(at as int) =~= chars@.subrange(at as int, chars@.len() as int));
    (levels, slice_text(&chars, at, chars.len()))
}

/// A name without the slash of a directory, and whether there was one.
pub open spec fn without_suffix(s: Seq<char>) -> (Seq<char>, bool) {
    if s.len() > 0 && s.last() == '/' {
        (s.drop_last(), true)
    } else {
        (s, false)
    }
}

/// A name without the slash of a directory, and whether there was one.
pub fn split_dir_suffix(text: &str) -> (r: (String, bool))
    ensures
        (r.0@, r.1) == without_suffix(text@),
{
    let chars = char_vec(text);
    let count = chars.len();
    if count > 0 && chars[count - 1] == '/' {
        let name = slice_text(&chars, 0, count - 1);
        assert(name@ =~= text@.drop_last());
        (name, true)
    } else {
        (text.to_owned(), false)
    }
}

/// The spaces of `levels` levels of indentation.
pub fn indent(levels: usize) -> (r: String)
    ensures
        r@ == indentation(levels as nat),
{
    let mut text = String::new();
    let mut i: usize = 0;
    assert(text@ =~= indentation(0));
    while i < levels
        invariant
            i <= levels,
            text@ == indentation(i as nat),
        decreases levels - i,
    {
        text.push(' ');
        text.push(' ');
        i = i + 1;
        assert(text@ =~= indentation(i as nat));
    }
    text
}

} // verus!
