//! What texts, places and the numbers in front of lines are made of.

use vstd::prelude::*;

use crate::fs_path::{begins_absolute, letters};
use crate::grammar::{digit_run, lemma_digit_run_bound, prefix_of, EntryId, PrefixView};
use crate::text::{
    all_digits, begins_with, decimal, digits_number, digits_value, is_digit, is_white, joined_texts,
    parse_number, trim_end, trim_start, trimmed,
};
use crate::tree::{join_path, split_path};

verus! {

/// Whether a text is all blanks.
pub open spec fn all_white(s: Seq<char>) -> bool {
    forall|i: int| 0 <= i < s.len() ==> is_white(#[trigger] s[i])
}

/// A text is what is left of it without the blanks at its ends, with blanks around; what is
/// left begins and ends with no blank.
pub proof fn trimming_takes_blanks_alone(s: Seq<char>)
    ensures
        trimmed(s).len() > 0 ==> !is_white(trimmed(s)[0]) && !is_white(trimmed(s).last()),
        exists|before: Seq<char>, after: Seq<char>|
            s == #[trigger] (before + trimmed(s) + after) && all_white(before) && all_white(after),
        trimmed(s).len() == 0 <==> all_white(s),
{
    lemma_trim_start(s);
    let rest = trim_start(s);
    lemma_trim_end(rest);
    let before = choose|before: Seq<char>| s == #[trigger] (before + rest) && all_white(before);
    let after = choose|after: Seq<char>|
        rest == #[trigger] (trim_end(rest) + after) && all_white(after);
    assert(s =~= before + trimmed(s) + after);
    let core = trimmed(s);
    if core.len() > 0 {
        assert(rest[0] == core[0]);
        assert(s[before.len() as int] == core[0]);
    } else {
        assert forall|i: int| 0 <= i < s.len() implies is_white(#[trigger] s[i]) by {
            if i < before.len() {
                assert(s[i] == before[i]);
            } else {
                assert(s[i] == after[i - before.len()]);
            }
        }
    }
}

proof fn lemma_trim_start(s: Seq<char>)
    ensures
        trim_start(s).len() > 0 ==> !is_white(trim_start(s)[0]),
        exists|before: Seq<char>| s == #[trigger] (before + trim_start(s)) && all_white(before),
    decreases s.len(),
{
    if s.len() > 0 && is_white(s[0]) {
        let less = s.drop_first();
        lemma_trim_start(less);
        let before = choose|before: Seq<char>|
            less == #[trigger] (before + trim_start(less)) && all_white(before);
        let more = seq![s[0]] + before;
        assert(s =~= seq![s[0]] + less);
        assert(more + trim_start(less) =~= seq![s[0]] + (before + trim_start(less)));
        assert(s == more + trim_start(s));
        assert forall|i: int| 0 <= i < more.len() implies is_white(#[trigger] more[i]) by {
            if i > 0 {
                assert(more[i] == before[i - 1]);
            }
        }
    } else {
        assert(s =~= Seq::<char>::empty() + trim_start(s));
    }
}

proof fn lemma_trim_end(s: Seq<char>)
    ensures
        trim_end(s).len() > 0 ==> !is_white(trim_end(s).last()),
        exists|after: Seq<char>| s == #[trigger] (trim_end(s) + after) && all_white(after),
    decreases s.len(),
{
    if s.len() > 0 && is_white(s.last()) {
        let less = s.drop_last();
        lemma_trim_end(less);
        let after = choose|after: Seq<char>|
            less == #[trigger] (trim_end(less) + after) && all_white(after);
        let more = after.push(s.last());
        assert(s =~= less.push(s.last()));
        assert(trim_end(less) + more =~= (trim_end(less) + after).push(s.last()));
        assert(s == trim_end(s) + more);
    } else {
        assert(s =~= trim_end(s) + Seq::<char>::empty());
    }
}

/// A text without blanks at its ends stays as it is, and blanks around it do not count.
pub proof fn trimming_gives_the_core(before: Seq<char>, core: Seq<char>, after: Seq<char>)
    requires
        all_white(before),
        all_white(after),
        core.len() > 0,
        !is_white(core[0]),
        !is_white(core.last()),
    ensures
        trimmed(before + core + after) == core,
{
    let s = before + core + after;
    lemma_skips_start(before, core + after);
    assert(s =~= before + (core + after));
    lemma_skips_end(core, after);
}

proof fn lemma_skips_start(before: Seq<char>, rest: Seq<char>)
    requires
        all_white(before),
        rest.len() > 0,
        !is_white(rest[0]),
    ensures
        trim_start(before + rest) == rest,
    decreases before.len(),
{
    let s = before + rest;
    if before.len() == 0 {
        assert(s =~= rest);
    } else {
        assert(s[0] == before[0]);
        assert(is_white(before[0]));
        assert(s.drop_first() =~= before.drop_first() + rest);
        lemma_skips_start(before.drop_first(), rest);
    }
}

proof fn lemma_skips_end(rest: Seq<char>, after: Seq<char>)
    requires
        all_white(after),
        rest.len() > 0,
        !is_white(rest.last()),
    ensures
        trim_end(rest + after) == rest,
    decreases after.len(),
{
    let s = rest + after;
    if after.len() == 0 {
        assert(s =~= rest);
    } else {
        assert(s.last() == after.last());
        assert(is_white(after[after.len() - 1]));
        assert(s.drop_last() =~= rest + after.drop_last());
        lemma_skips_end(rest, after.drop_last());
    }
}

/// A number is written with digits that are read as that number again, without a zero in
/// front of others.
pub proof fn numbers_are_read_back(n: nat)
    ensures
        decimal(n).len() > 0,
        all_digits(decimal(n)),
        digits_value(decimal(n)) == n,
        decimal(n).len() > 1 ==> decimal(n)[0] != '0',
        n <= u64::MAX ==> digits_number(decimal(n)) == Some(n as u64),
        n <= u64::MAX ==> parse_number(decimal(n)) == Some(n as u64),
{
    lemma_decimal(n);
}

proof fn lemma_decimal(n: nat)
    ensures
        decimal(n).len() > 0,
        all_digits(decimal(n)),
        digits_value(decimal(n)) == n,
        decimal(n).len() > 1 ==> decimal(n)[0] != '0',
        n > 0 ==> decimal(n)[0] != '0',
    decreases n,
{
    if n < 10 {
        let c = (n + 48) as char;
        assert(decimal(n) =~= seq![c]);
        assert(seq![c].drop_last() =~= Seq::empty());
        assert(digits_value(seq![c].drop_last()) == 0);
        assert(is_digit(c));
    } else {
        lemma_decimal(n / 10);
        let c = (n % 10 + 48) as char;
        assert(is_digit(c));
        assert(decimal(n).drop_last() =~= decimal(n / 10));
        assert(decimal(n)[0] == decimal(n / 10)[0]);
    }
}

/// Texts are joined by putting the separator between each two of them, and nowhere else.
pub proof fn joining_puts_separators_between(
    list: Seq<Seq<char>>,
    more: Seq<Seq<char>>,
    text: Seq<char>,
    separator: Seq<char>,
)
    ensures
        joined_texts(Seq::empty(), separator) == Seq::<char>::empty(),
        joined_texts(seq![text], separator) == text,
        list.len() > 0 && more.len() > 0 ==> joined_texts(list + more, separator) == joined_texts(
            list,
            separator,
        ) + separator + joined_texts(more, separator),
    decreases more.len(),
{
    if list.len() > 0 && more.len() > 0 {
        let all = list + more;
        assert(all.drop_last() =~= list + more.drop_last());
        assert(all.last() == more.last());
        if more.len() == 1 {
            assert(list + more.drop_last() =~= list);
            assert(more =~= seq![more[0]]);
        } else {
            joining_puts_separators_between(list, more.drop_last(), text, separator);
            assert(joined_texts(all, separator) =~= joined_texts(list, separator) + separator
                + joined_texts(more, separator));
        }
    }
}

/// A text begins with another just where it is that text and something behind it.
pub proof fn beginning_is_a_prefix(s: Seq<char>, prefix: Seq<char>)
    ensures
        begins_with(s, prefix) <==> exists|rest: Seq<char>| s == #[trigger] (prefix + rest),
{
    if begins_with(s, prefix) {
        assert(s =~= prefix + s.skip(prefix.len() as int));
    }
    if exists|rest: Seq<char>| s == #[trigger] (prefix + rest) {
        let rest = choose|rest: Seq<char>| s == #[trigger] (prefix + rest);
        assert(s.take(prefix.len() as int) =~= prefix);
    }
}

/// Whether texts can be the names of a place: none is empty or holds a slash.
pub open spec fn are_names(names: Seq<Seq<char>>) -> bool {
    forall|i: int|
        0 <= i < names.len() ==> (#[trigger] names[i]).len() > 0 && !names[i].contains('/')
}

/// A place that is displayed with slashes between its names is read back as these names.
pub proof fn places_are_read_back(names: Seq<Seq<char>>)
    requires
        are_names(names),
    ensures
        split_path(join_path(names)) == names,
    decreases names.len(),
{
    reveal_strlit("/");
    if names.len() == 0 {
        assert(split_path(join_path(names)) =~= names);
    } else {
        let before = names.drop_last();
        let last = names.last();
        assert(are_names(before)) by {
            assert forall|i: int| 0 <= i < before.len() implies (#[trigger] before[i]).len() > 0
                && !before[i].contains('/') by {
                assert(before[i] == names[i]);
            }
        }
        assert(names[names.len() - 1].len() > 0 && !names[names.len() - 1].contains('/'));
        places_are_read_back(before);
        let front = if before.len() == 0 {
            Seq::empty()
        } else {
            join_path(before) + "/"@
        };
        assert(join_path(names) =~= front + last) by {
            if before.len() == 0 {
                assert(names[0] == last);
            }
        }
        assert(split_path(front) == before) by {
            if before.len() > 0 {
                assert(front.last() == '/');
                assert(front.drop_last() =~= join_path(before));
            } else {
                assert(split_path(front) =~= before);
            }
        }
        lemma_split_name(front, last, last.len() as int);
        assert(last.take(last.len() as int) =~= last);
        assert(before.push(last) =~= names);
    }
}

/// A name behind a slash, or at the beginning, is read letter by letter.
proof fn lemma_split_name(front: Seq<char>, name: Seq<char>, n: int)
    requires
        front.len() == 0 || front.last() == '/',
        1 <= n <= name.len(),
        !name.contains('/'),
    ensures
        split_path(front + name.take(n)) == split_path(front).push(name.take(n)),
    decreases n,
{
    let s = front + name.take(n);
    assert(s.last() == name[n - 1]);
    assert(name.contains(name[n - 1]));
    assert(s.drop_last() =~= front + name.take(n - 1));
    if n == 1 {
        assert(name.take(0) =~= Seq::empty());
        assert(front + name.take(0) =~= front);
        assert(name.take(1) =~= seq![name[0]]);
        if front.len() > 0 {
            assert(s[s.len() - 2] == front.last());
        }
    } else {
        lemma_split_name(front, name, n - 1);
        assert(s[s.len() - 2] == name[n - 2]);
        assert(name.contains(name[n - 2]));
        let before = split_path(s.drop_last());
        assert(before.last() == name.take(n - 1));
        assert(name.take(n - 1).push(name[n - 1]) =~= name.take(n));
        assert(before.drop_last() =~= split_path(front));
    }
}

/// A line has no number just where it does not begin with a slash. It has one where digits
/// that are a number and a blank follow the slash, and then this is its number and the rest
/// is what follows; any other line with a slash is broken.
pub proof fn number_stands_in_front(digits: Seq<char>, rest: Seq<char>, s: Seq<char>)
    requires
        digits.len() > 0,
        all_digits(digits),
    ensures
        prefix_of(s) is NoId <==> s.len() == 0 || s[0] != '/',
        digits_value(digits) <= u64::MAX ==> prefix_of(seq!['/'] + digits + seq![' '] + rest) == (
        PrefixView::WithId { id: EntryId(digits_value(digits) as u64), rest }),
        digits_value(digits) > u64::MAX ==> prefix_of(seq!['/'] + digits + seq![' '] + rest)
            is Broken,
        prefix_of(s) matches PrefixView::WithId { id, rest: behind } ==> exists|number: Seq<char>|
            s == #[trigger] (seq!['/'] + number + seq![' '] + behind) && number.len() > 0
                && all_digits(number) && digits_value(number) == id.0,
{
    let line = seq!['/'] + digits + seq![' '] + rest;
    assert(line[0] == '/');
    let end = 1 + digits.len() as int;
    assert(line[end] == ' ');
    lemma_digit_run(line, 1, end);
    assert(line.subrange(1, end) =~= digits);
    assert(line.subrange(end + 1, line.len() as int) =~= rest);
    if let PrefixView::WithId { id, rest: behind } = prefix_of(s) {
        lemma_digit_run_bound(s, 1);
        let stop = 1 + digit_run(s, 1) as int;
        let number = s.subrange(1, stop);
        assert(s =~= seq!['/'] + number + seq![' '] + behind);
    }
}

proof fn lemma_digit_run(s: Seq<char>, from: int, end: int)
    requires
        0 <= from <= end < s.len(),
        forall|i: int| from <= i < end ==> is_digit(#[trigger] s[i]),
        !is_digit(s[end]),
    ensures
        digit_run(s, from) == end - from,
    decreases end - from,
{
    if from < end {
        assert(is_digit(s[from]));
        lemma_digit_run(s, from + 1, end);
    }
}

/// Two texts are written with the same letters where they differ in dots, slashes and
/// capitals alone: each letter counts by itself and where it stands among the letters.
pub proof fn letters_leave_out_separators(text: Seq<char>, more: Seq<char>, c: char)
    ensures
        letters(text + more) == letters(text) + letters(more),
        letters(seq![c]) == (if c == '/' || c == '\\' || c == '.' {
            Seq::<char>::empty()
        } else if 'A' <= c <= 'Z' {
            seq![(c as int + 32) as char]
        } else {
            seq![c]
        }),
    decreases more.len(),
{
    assert(seq![c].drop_last() =~= Seq::empty());
    assert(letters(seq![c].drop_last()) =~= Seq::empty());
    assert(letters(seq![c]) =~= (if c == '/' || c == '\\' || c == '.' {
        Seq::<char>::empty()
    } else if 'A' <= c <= 'Z' {
        seq![(c as int + 32) as char]
    } else {
        seq![c]
    }));
    if more.len() == 0 {
        assert(text + more =~= text);
        assert(letters(text) + letters(more) =~= letters(text));
    } else {
        letters_leave_out_separators(text, more.drop_last(), c);
        assert((text + more).drop_last() =~= text + more.drop_last());
        assert((text + more).last() == more.last());
        assert(letters(text + more) =~= letters(text) + letters(more));
    }
}

/// A path begins as an absolute one does with a slash of either kind or with a drive.
pub proof fn absolute_beginnings(rest: Seq<char>, drive: char)
    ensures
        begins_absolute(seq!['/'] + rest),
        begins_absolute(seq!['\\'] + rest),
        begins_absolute(seq![drive, ':'] + rest),
        !begins_absolute(Seq::empty()),
        drive != '/' && drive != '\\' && (rest.len() == 0 || rest[0] != ':') ==> !begins_absolute(
            seq![drive] + rest,
        ),
{
    assert((seq!['/'] + rest)[0] == '/');
    assert((seq!['\\'] + rest)[0] == '\\');
    assert((seq![drive, ':'] + rest)[1] == ':');
    if rest.len() > 0 {
        assert((seq![drive] + rest)[1] == rest[0]);
    }
}

/// The blanks are those between the words and lines of a text, wide ones too; no character
/// that can be seen is one.
pub proof fn seen_characters_are_not_blank(c: char)
    ensures
        is_white('\t') && is_white('\n') && is_white('\u{b}') && is_white('\u{c}') && is_white(
            '\r',
        ) && is_white(' '),
        is_white('\u{85}') && is_white('\u{a0}') && is_white('\u{1680}') && is_white('\u{3000}'),
        '\u{2000}' <= c <= '\u{200a}' ==> is_white(c),
        is_white('\u{2028}') && is_white('\u{2029}') && is_white('\u{202f}') && is_white(
            '\u{205f}',
        ),
        c < '\t' ==> !is_white(c),
        '\r' < c < ' ' ==> !is_white(c),
        ' ' < c <= '~' ==> !is_white(c),
        '\u{200a}' < c < '\u{2028}' ==> !is_white(c),
        c > '\u{3000}' ==> !is_white(c),
{
}

} // verus!
