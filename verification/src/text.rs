//! Text as sequences of characters: the operations that the other modules
//! share, each with its exact result.

use vstd::prelude::*;

verus! {

/// `String::push` of std: "Appends the given `char` to the end of this
/// `String`." Trusted: the new contents are the old ones and that character.
pub assume_specification[ String::push ](s: &mut String, c: char)
    ensures
        final(s)@ == old(s)@.push(c),
;

/// The characters of `s`, in order.
pub fn char_vec(s: &str) -> (r: Vec<char>)
    ensures
        r@ == s@,
{
    let mut chars: Vec<char> = Vec::new();
    for c in it: s.chars()
        invariant
            chars@ == it.seq().take(it.index()),
            it.seq() == s@,
    {
        chars.push(c);
    }
    assert(s@.take(s@.len() as int) == s@);
    chars
}

/// The characters of `chars` from `from` up to but not including `to`, as text.
pub fn slice_text(chars: &Vec<char>, from: usize, to: usize) -> (r: String)
    requires
        from <= to <= chars@.len(),
    ensures
        r@ == chars@.subrange(from as int, to as int),
{
    let mut text = String::new();
    let mut i: usize = from;
    while i < to
        invariant
            from <= i <= to <= chars@.len(),
            text@ == chars@.subrange(from as int, i as int),
        decreases to - i,
    {
        text.push(chars[i]);
        i = i + 1;
        assert(chars@.subrange(from as int, i as int) == chars@.subrange(
            from as int,
            i - 1,
        ).push(chars@[i - 1]));
    }
    text
}

/// Whether `a` and `b` are the same text.
pub fn same_text(a: &str, b: &str) -> (r: bool)
    ensures
        r == (a@ == b@),
{
    a.to_owned() == b.to_owned()
}

/// The views of a list of texts.
pub open spec fn texts(list: Seq<String>) -> Seq<Seq<char>> {
    list.map_values(|s: String| s@)
}

/// A copy of a list of texts.
pub fn copy_texts(list: &Vec<String>) -> (r: Vec<String>)
    ensures
        r@ == list@,
{
    let copy = list.clone();
    assert(copy@ =~= list@);
    copy
}

/// Whether two lists of texts are the same.
pub fn same_texts(a: &Vec<String>, b: &Vec<String>) -> (r: bool)
    ensures
        r == (texts(a@) == texts(b@)),
{
    if a.len() != b.len() {
        assert(texts(a@).len() != texts(b@).len());
        return false;
    }
    let mut i: usize = 0;
    while i < a.len()
        invariant
            i <= a@.len() == b@.len(),
            forall|j: int| 0 <= j < i ==> a@[j]@ == b@[j]@,
        decreases a@.len() - i,
    {
        if a[i] != b[i] {
            assert(texts(a@)[i as int] != texts(b@)[i as int]);
            return false;
        }
        i = i + 1;
    }
    assert(texts(a@) =~= texts(b@));
    true
}

/// The character of a digit.
pub open spec fn digit_char(digit: nat) -> char {
    (digit + 48) as char
}

/// Whether `c` is one of the ten digits.
pub open spec fn is_digit(c: char) -> bool {
    '0' <= c <= '9'
}

/// Whether every character of `s` is a digit.
pub open spec fn all_digits(s: Seq<char>) -> bool {
    forall|i: int| 0 <= i < s.len() ==> is_digit(#[trigger] s[i])
}

/// The number that a row of digits stands for.
pub open spec fn digits_value(s: Seq<char>) -> nat
    decreases s.len(),
{
    if s.len() == 0 {
        0
    } else {
        digits_value(s.drop_last()) * 10 + (s.last() as nat - 48) as nat
    }
}

/// A number in decimal digits, without leading zeros.
pub open spec fn decimal(n: nat) -> Seq<char>
    decreases n,
{
    if n < 10 {
        seq![digit_char(n)]
    } else {
        decimal(n / 10).push(digit_char(n % 10))
    }
}

/// What a row of digits stands for, where it is a number of 64 bits.
pub open spec fn digits_number(s: Seq<char>) -> Option<u64> {
    if s.len() > 0 && all_digits(s) && digits_value(s) <= u64::MAX {
        Some(digits_value(s) as u64)
    } else {
        None
    }
}

/// A number of 64 bits in decimal digits, a plus sign before them or none.
pub open spec fn parse_number(s: Seq<char>) -> Option<u64> {
    if s.len() > 0 && s[0] == '+' {
        digits_number(s.drop_first())
    } else {
        digits_number(s)
    }
}

/// Decimal digits stand for the number that they were made from.
pub proof fn lemma_decimal_value(n: nat)
    ensures
        all_digits(decimal(n)),
        digits_value(decimal(n)) == n,
        decimal(n).len() >= 1,
        is_digit(decimal(n)[0]),
    decreases n,
{
    if n < 10 {
        let s = decimal(n);
        assert(s.drop_last() =~= Seq::<char>::empty());
        assert(digits_value(s.drop_last()) == 0);
    } else {
        lemma_decimal_value(n / 10);
        let s = decimal(n);
        assert(s.drop_last() =~= decimal(n / 10));
        assert(s[0] == decimal(n / 10)[0]);
        assert forall|i: int| 0 <= i < s.len() implies is_digit(#[trigger] s[i]) by {
            if i < s.len() - 1 {
                assert(s[i] == decimal(n / 10)[i]);
            }
        }
    }
}

/// A number written in decimal digits is read back.
pub proof fn lemma_parse_decimal(n: u64)
    ensures
        parse_number(decimal(n as nat)) == Some(n),
        digits_number(decimal(n as nat)) == Some(n),
{
    lemma_decimal_value(n as nat);
}

/// The beginning of a row of digits stands for no more than the row.
proof fn lemma_value_of_beginning(s: Seq<char>, n: int)
    requires
        0 <= n <= s.len(),
    ensures
        digits_value(s.take(n)) <= digits_value(s),
    decreases s.len(),
{
    if n == s.len() {
        assert(s.take(n) =~= s);
    } else {
        lemma_value_of_beginning(s.drop_last(), n);
        assert(s.drop_last().take(n) =~= s.take(n));
    }
}

/// `n` in decimal digits.
pub fn decimal_text(n: u64) -> (r: String)
    ensures
        r@ == decimal(n as nat),
    decreases n,
{
    if n < 10 {
        let mut text = String::new();
        text.push(digit_to_char(n));
        assert(text@ =~= decimal(n as nat));
        text
    } else {
        let mut text = decimal_text(n / 10);
        text.push(digit_to_char(n % 10));
        text
    }
}

/// An integer in decimal digits, with a minus sign where it is negative.
pub open spec fn signed_decimal(n: int) -> Seq<char> {
    if n < 0 {
        "-"@ + decimal((-n) as nat)
    } else {
        decimal(n as nat)
    }
}

/// `n` in decimal digits, with a minus sign where it is negative.
pub fn signed_text(n: i64) -> (r: String)
    ensures
        r@ == signed_decimal(n as int),
{
    if n < 0 {
        let below: u64 = (-(n + 1)) as u64;
        "-".to_owned().concat(decimal_text(below + 1).as_str())
    } else {
        decimal_text(n as u64)
    }
}

/// The character of a digit.
fn digit_to_char(digit: u64) -> (r: char)
    requires
        digit < 10,
    ensures
        r == digit_char(digit as nat),
{
    (digit as u8 + 48) as char
}

/// The number that the digits of `chars` from `from` to `to` stand for.
pub fn parse_digits(chars: &Vec<char>, from: usize, to: usize) -> (r: Option<u64>)
    requires
        from <= to <= chars@.len(),
    ensures
        r == digits_number(chars@.subrange(from as int, to as int)),
{
    let ghost all = chars@.subrange(from as int, to as int);
    if from == to {
        return None;
    }
    let mut value: u64 = 0;
    let mut i: usize = from;
    assert(all.take(0) =~= Seq::<char>::empty());
    while i < to
        invariant
            from <= i <= to <= chars@.len(),
            all == chars@.subrange(from as int, to as int),
            forall|j: int| 0 <= j < i - from ==> is_digit(#[trigger] all[j]),
            value == digits_value(all.take(i - from)),
        decreases to - i,
    {
        let c = chars[i];
        assert(all[i - from] == c);
        if !('0' <= c && c <= '9') {
            return None;
        }
        let digit: u64 = c as u64 - 48;
        let ghost next = all.take(i - from + 1);
        proof {
            assert(next.drop_last() =~= all.take(i - from));
            assert(digits_value(next) == value * 10 + digit);
            lemma_value_of_beginning(all, i - from + 1);
        }
        match value.checked_mul(10) {
            Some(tenfold) => match tenfold.checked_add(digit) {
                Some(sum) => {
                    value = sum;
                },
                None => {
                    return None;
                },
            },
            None => {
                return None;
            },
        }
        i = i + 1;
    }
    assert(all.take(to - from) =~= all);
    Some(value)
}

/// The number that `text` stands for.
pub fn parse_u64(text: &str) -> (r: Option<u64>)
    ensures
        r == parse_number(text@),
{
    let chars = char_vec(text);
    if chars.len() > 0 && chars[0] == '+' {
        assert(text@.drop_first() =~= chars@.subrange(1, chars@.len() as int));
        parse_digits(&chars, 1, chars.len())
    } else {
        assert(text@ =~= chars@.subrange(0, chars@.len() as int));
        parse_digits(&chars, 0, chars.len())
    }
}

/// Whether `c` is white space: the characters with Unicode's property
/// `White_Space`.
pub open spec fn is_white(c: char) -> bool {
    ||| '\u{9}' <= c <= '\u{d}'
    ||| c == '\u{20}'
    ||| c == '\u{85}'
    ||| c == '\u{a0}'
    ||| c == '\u{1680}'
    ||| '\u{2000}' <= c <= '\u{200a}'
    ||| c == '\u{2028}'
    ||| c == '\u{2029}'
    ||| c == '\u{202f}'
    ||| c == '\u{205f}'
    ||| c == '\u{3000}'
}

/// Whether `c` is white space.
pub fn is_whitespace(c: char) -> (r: bool)
    ensures
        r == is_white(c),
{
    ('\u{9}' <= c && c <= '\u{d}') || c == '\u{20}' || c == '\u{85}' || c == '\u{a0}' || c
        == '\u{1680}' || ('\u{2000}' <= c && c <= '\u{200a}') || c == '\u{2028}' || c == '\u{2029}'
        || c == '\u{202f}' || c == '\u{205f}' || c == '\u{3000}'
}

/// `s` without the white space at its start.
pub open spec fn trim_start(s: Seq<char>) -> Seq<char>
    decreases s.len(),
{
    if s.len() > 0 && is_white(s[0]) {
        trim_start(s.drop_first())
    } else {
        s
    }
}

/// `s` without the white space at its end.
pub open spec fn trim_end(s: Seq<char>) -> Seq<char>
    decreases s.len(),
{
    if s.len() > 0 && is_white(s.last()) {
        trim_end(s.drop_last())
    } else {
        s
    }
}

/// `s` without the white space at its start and at its end.
pub open spec fn trimmed(s: Seq<char>) -> Seq<char> {
    trim_end(trim_start(s))
}

/// The characters of `chars` without the white space at the start and the end
/// of the part from `from` to `to`.
pub fn trim_range(chars: &Vec<char>, from: usize, to: usize) -> (r: (usize, usize))
    requires
        from <= to <= chars@.len(),
    ensures
        from <= r.0 <= r.1 <= to,
        chars@.subrange(r.0 as int, r.1 as int) == trimmed(
            chars@.subrange(from as int, to as int),
        ),
{
    let mut start: usize = from;
    while start < to && is_whitespace(chars[start])
        invariant
            from <= start <= to <= chars@.len(),
            trim_start(chars@.subrange(from as int, to as int)) == trim_start(
                chars@.subrange(start as int, to as int),
            ),
        decreases to - start,
    {
        assert(chars@.subrange(start as int, to as int).drop_first() =~= chars@.subrange(
            start + 1,
            to as int,
        ));
        start = start + 1;
    }
    let ghost left = chars@.subrange(start as int, to as int);
    assert(start < to ==> left[0] == chars@[start as int]);
    assert(trim_start(left) == left);
    let mut end: usize = to;
    while start < end && is_whitespace(chars[end - 1])
        invariant
            from <= start <= end <= to <= chars@.len(),
            trim_end(left) == trim_end(chars@.subrange(start as int, end as int)),
        decreases end - start,
    {
        assert(chars@.subrange(start as int, end as int).drop_last() =~= chars@.subrange(
            start as int,
            end - 1,
        ));
        end = end - 1;
    }
    assert(start < end ==> chars@.subrange(start as int, end as int).last() == chars@[end - 1]);
    (start, end)
}

/// `text` without the white space at its start and at its end.
pub fn trim(text: &str) -> (r: String)
    ensures
        r@ == trimmed(text@),
{
    let chars = char_vec(text);
    let (start, end) = trim_range(&chars, 0, chars.len());
    assert(chars@.subrange(0, chars@.len() as int) =~= text@);
    slice_text(&chars, start, end)
}

/// Whether `text` is among `list`.
pub fn contains_text(list: &Vec<String>, text: &str) -> (r: bool)
    ensures
        r == texts(list@).contains(text@),
{
    let mut i: usize = 0;
    while i < list.len()
        invariant
            i <= list@.len(),
            forall|j: int| 0 <= j < i ==> texts(list@)[j] != text@,
        decreases list@.len() - i,
    {
        if same_text(list[i].as_str(), text) {
            assert(texts(list@)[i as int] == text@);
            return true;
        }
        i = i + 1;
    }
    false
}

/// Texts one after the other, with `separator` between them.
pub open spec fn joined_texts(list: Seq<Seq<char>>, separator: Seq<char>) -> Seq<char>
    decreases list.len(),
{
    if list.len() == 0 {
        Seq::empty()
    } else if list.len() == 1 {
        list[0]
    } else {
        joined_texts(list.drop_last(), separator) + separator + list.last()
    }
}

/// Texts one after the other, with `separator` between them.
pub fn join_texts(list: &Vec<String>, separator: &str) -> (r: String)
    ensures
        r@ == joined_texts(texts(list@), separator@),
{
    let ghost all = texts(list@);
    if list.len() == 0 {
        return String::new();
    }
    let mut text = list[0].clone();
    let mut i: usize = 1;
    assert(all.take(1) =~= seq![list@[0]@]);
    while i < list.len()
        invariant
            1 <= i <= list@.len(),
            all == texts(list@),
            text@ == joined_texts(all.take(i as int), separator@),
        decreases list@.len() - i,
    {
        proof {
            assert(all.take(i + 1).drop_last() =~= all.take(i as int));
            assert(all.take(i + 1).last() == list@[i as int]@);
        }
        text.append(separator);
        text.append(list[i].as_str());
        i = i + 1;
    }
    assert(all.take(i as int) =~= all);
    text
}

/// Whether `s` begins with `prefix`.
pub open spec fn begins_with(s: Seq<char>, prefix: Seq<char>) -> bool {
    prefix.len() <= s.len() && s.take(prefix.len() as int) == prefix
}

/// Whether `text` begins with `prefix`.
pub fn has_prefix(text: &str, prefix: &str) -> (r: bool)
    ensures
        r == begins_with(text@, prefix@),
{
    let chars = char_vec(text);
    let start = char_vec(prefix);
    if start.len() > chars.len() {
        return false;
    }
    let mut i: usize = 0;
    while i < start.len()
        invariant
            i <= start@.len() <= chars@.len(),
            chars@ == text@,
            start@ == prefix@,
            forall|j: int| 0 <= j < i ==> chars@[j] == start@[j],
        decreases start@.len() - i,
    {
        if chars[i] != start[i] {
            assert(text@.take(prefix@.len() as int)[i as int] != prefix@[i as int]);
            return false;
        }
        i = i + 1;
    }
    assert(text@.take(prefix@.len() as int) =~= prefix@);
    true
}

/// The text that `Debug` of std gives for a text: in quotation marks, with
/// escapes.
pub uninterp spec fn debug_of(text: Seq<char>) -> Seq<char>;

/// `Debug` of std on a `str`. Trusted: the result depends on the text alone.
#[verifier::external_body]
pub(crate) fn debug_text(text: &str) -> (r: String)
    ensures
        r@ == debug_of(text@),
{
    format!("{:?}", text)
}

/// A text that may be missing.
pub open spec fn optional_text(text: Option<&str>) -> Option<Seq<char>> {
    match text {
        Some(text) => Some(text@),
        None => None,
    }
}

} // verus!
