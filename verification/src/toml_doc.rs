//! TOML documents as plain values, and the two directions of the `toml` crate.

use vstd::prelude::*;

use crate::text::{char_vec, same_text, texts};

verus! {

/// A TOML value held as plain data.
///
/// A float is held by the bits of its double precision value, a date by its
/// TOML text.
#[derive(Debug, PartialEq, Eq)]
pub enum TomlValue {
    Str(String),
    Integer(i64),
    Float(u64),
    Boolean(bool),
    Datetime(String),
    Array(Vec<TomlValue>),
    Table(TomlTable),
}

/// A key of a table with its value.
#[derive(Debug, PartialEq, Eq)]
pub struct TomlEntry {
    pub key: String,
    pub value: TomlValue,
}

/// A table: its entries in the order of their keys.
#[derive(Debug, PartialEq, Eq)]
pub struct TomlTable {
    pub entries: Vec<TomlEntry>,
}

/// What a TOML value means.
#[verifier::ext_equal]
pub enum Toml {
    Str(Seq<char>),
    Integer(i64),
    Float(u64),
    Boolean(bool),
    Datetime(Seq<char>),
    Array(Seq<Toml>),
    Table(Seq<(Seq<char>, Toml)>),
}

impl TomlValue {
    /// The meaning of this value.
    pub open spec fn view(&self) -> Toml
        decreases self,
    {
        match self {
            TomlValue::Str(text) => Toml::Str(text@),
            TomlValue::Integer(number) => Toml::Integer(*number),
            TomlValue::Float(bits) => Toml::Float(*bits),
            TomlValue::Boolean(flag) => Toml::Boolean(*flag),
            TomlValue::Datetime(text) => Toml::Datetime(text@),
            TomlValue::Array(items) => Toml::Array(
                Seq::new(
                    items@.len(),
                    |i: int|
                        if 0 <= i < items@.len() {
                            items@[i].view()
                        } else {
                            arbitrary()
                        },
                ),
            ),
            TomlValue::Table(table) => Toml::Table(table.view()),
        }
    }
}

impl TomlTable {
    /// The keys with the meanings of their values, in order.
    pub open spec fn view(&self) -> Seq<(Seq<char>, Toml)>
        decreases self,
    {
        Seq::new(
            self.entries@.len(),
            |i: int|
                if 0 <= i < self.entries@.len() {
                    (self.entries@[i].key@, self.entries@[i].value.view())
                } else {
                    arbitrary()
                },
        )
    }
}

/// The order of keys: by the first character in which they differ, and a
/// beginning of a key before the key.
pub open spec fn key_less(a: Seq<char>, b: Seq<char>) -> bool
    decreases a.len(),
{
    if b.len() == 0 {
        false
    } else if a.len() == 0 {
        true
    } else {
        (a[0] as int) < (b[0] as int) || (a[0] == b[0] && key_less(a.drop_first(), b.drop_first()))
    }
}

/// Whether the keys of a table ascend strictly.
pub open spec fn keys_ascend(table: Seq<(Seq<char>, Toml)>) -> bool {
    forall|i: int, j: int| 0 <= i < j < table.len() ==> key_less(#[trigger] table[i].0, #[trigger] table[j].0)
}

/// The value of `key` in a table.
pub open spec fn lookup(table: Seq<(Seq<char>, Toml)>, key: Seq<char>) -> Option<Toml>
    decreases table.len(),
{
    if table.len() == 0 {
        None
    } else if table[0].0 == key {
        Some(table[0].1)
    } else {
        lookup(table.drop_first(), key)
    }
}

/// A table in which `key` has been given `value`: in the place of its earlier
/// value, else before the first greater key.
pub open spec fn with_entry(
    table: Seq<(Seq<char>, Toml)>,
    key: Seq<char>,
    value: Toml,
) -> Seq<(Seq<char>, Toml)>
    decreases table.len(),
{
    if table.len() == 0 {
        seq![(key, value)]
    } else if table[0].0 == key {
        seq![(key, value)] + table.drop_first()
    } else if key_less(key, table[0].0) {
        seq![(key, value)] + table
    } else {
        seq![table[0]] + with_entry(table.drop_first(), key, value)
    }
}

/// What is found in a table is a part of it.
pub proof fn lemma_lookup_decreases(table: Seq<(Seq<char>, Toml)>, key: Seq<char>)
    ensures
        lookup(table, key) matches Some(value) ==> decreases_to!(table => value),
    decreases table.len(),
{
    if table.len() > 0 {
        if table[0].0 == key {
            assert(decreases_to!(table => table[0]));
            assert(decreases_to!(table[0] => table[0].1));
        } else {
            lemma_lookup_decreases(table.drop_first(), key);
            lemma_lookup_member(table, key);
        }
    }
}

/// What is found in a table stands there.
proof fn lemma_lookup_member(table: Seq<(Seq<char>, Toml)>, key: Seq<char>)
    ensures
        lookup(table, key) matches Some(value) ==> exists|i: int|
            0 <= i < table.len() && #[trigger] table[i] == (key, value),
    decreases table.len(),
{
    if table.len() > 0 {
        if table[0].0 == key {
            assert(table[0] == (key, table[0].1));
        } else {
            lemma_lookup_member(table.drop_first(), key);
            if let Some(value) = lookup(table, key) {
                let i = choose|i: int|
                    0 <= i < table.drop_first().len() && table.drop_first()[i] == (key, value);
                assert(table[i + 1] == (key, value));
                assert(decreases_to!(table => table[i + 1]));
                assert(decreases_to!(table[i + 1] => table[i + 1].1));
            }
        }
    }
}

/// The empty table.
pub open spec fn no_entries() -> Seq<(Seq<char>, Toml)> {
    Seq::empty()
}

/// No key is less than itself.
pub proof fn lemma_key_less_irreflexive(a: Seq<char>)
    ensures
        !key_less(a, a),
    decreases a.len(),
{
    if a.len() > 0 {
        lemma_key_less_irreflexive(a.drop_first());
    }
}

/// The order of keys is transitive.
pub proof fn lemma_key_less_transitive(a: Seq<char>, b: Seq<char>, c: Seq<char>)
    requires
        key_less(a, b),
        key_less(b, c),
    ensures
        key_less(a, c),
    decreases a.len(),
{
    if a.len() > 0 && b.len() > 0 && c.len() > 0 && a[0] == b[0] && b[0] == c[0] {
        lemma_key_less_transitive(a.drop_first(), b.drop_first(), c.drop_first());
    }
}

/// Of two different keys one is less than the other.
pub proof fn lemma_key_less_total(a: Seq<char>, b: Seq<char>)
    ensures
        a == b || key_less(a, b) || key_less(b, a),
    decreases a.len(),
{
    if a.len() == 0 {
        if b.len() == 0 {
            assert(a =~= b);
        }
    } else if b.len() > 0 {
        lemma_key_less_total(a.drop_first(), b.drop_first());
        if a[0] == b[0] && a.drop_first() == b.drop_first() {
            assert(a =~= seq![a[0]] + a.drop_first());
            assert(b =~= seq![b[0]] + b.drop_first());
        }
    }
}

/// Giving a key a value changes what is found under that key and under no other.
pub broadcast proof fn lemma_lookup_with_entry(
    table: Seq<(Seq<char>, Toml)>,
    key: Seq<char>,
    value: Toml,
    other: Seq<char>,
)
    ensures
        #[trigger] lookup(with_entry(table, key, value), other) == (if other == key {
            Some(value)
        } else {
            lookup(table, other)
        }),
    decreases table.len(),
{
    let new = with_entry(table, key, value);
    if table.len() == 0 {
        assert(new.drop_first() =~= table);
    } else if table[0].0 == key {
        assert(new.drop_first() =~= table.drop_first());
    } else if key_less(key, table[0].0) {
        assert(new.drop_first() =~= table);
    } else {
        let rest = table.drop_first();
        lemma_lookup_with_entry(rest, key, value, other);
        assert(new.drop_first() =~= with_entry(rest, key, value));
    }
}

/// Nothing is found in the empty table.
pub broadcast proof fn lemma_lookup_no_entries(key: Seq<char>)
    ensures
        #[trigger] lookup(no_entries(), key) == None::<Toml>,
{
}

/// Every entry of `with_entry` is the new one or an entry of the table, and the
/// new one is there.
proof fn lemma_with_entry_members(
    table: Seq<(Seq<char>, Toml)>,
    key: Seq<char>,
    value: Toml,
)
    ensures
        with_entry(table, key, value).len() >= 1,
        forall|i: int|
            0 <= i < with_entry(table, key, value).len() ==> {
                let entry = #[trigger] with_entry(table, key, value)[i];
                entry == (key, value) || table.contains(entry)
            },
    decreases table.len(),
{
    if table.len() > 0 {
        let rest = table.drop_first();
        let new = with_entry(table, key, value);
        if table[0].0 == key {
            assert forall|i: int| 0 <= i < new.len() implies {
                let entry = #[trigger] new[i];
                entry == (key, value) || table.contains(entry)
            } by {
                if i > 0 {
                    assert(new[i] == table[i]);
                }
            }
        } else if key_less(key, table[0].0) {
            assert forall|i: int| 0 <= i < new.len() implies {
                let entry = #[trigger] new[i];
                entry == (key, value) || table.contains(entry)
            } by {
                if i > 0 {
                    assert(new[i] == table[i - 1]);
                }
            }
        } else {
            lemma_with_entry_members(rest, key, value);
            let tail = with_entry(rest, key, value);
            assert forall|i: int| 0 <= i < new.len() implies {
                let entry = #[trigger] new[i];
                entry == (key, value) || table.contains(entry)
            } by {
                if i == 0 {
                    assert(new[0] == table[0]);
                } else {
                    assert(new[i] == tail[i - 1]);
                    if rest.contains(tail[i - 1]) {
                        let j = choose|j: int| 0 <= j < rest.len() && rest[j] == tail[i - 1];
                        assert(table[j + 1] == tail[i - 1]);
                    }
                }
            }
        }
    }
}

/// Giving a key a value keeps the keys ascending.
pub proof fn lemma_with_entry_ascends(
    table: Seq<(Seq<char>, Toml)>,
    key: Seq<char>,
    value: Toml,
)
    requires
        keys_ascend(table),
    ensures
        keys_ascend(with_entry(table, key, value)),
    decreases table.len(),
{
    let new = with_entry(table, key, value);
    if table.len() > 0 {
        let rest = table.drop_first();
        assert(keys_ascend(rest)) by {
            assert forall|i: int, j: int| 0 <= i < j < rest.len() implies key_less(
                #[trigger] rest[i].0,
                #[trigger] rest[j].0,
            ) by {
                assert(rest[i] == table[i + 1]);
                assert(rest[j] == table[j + 1]);
            }
        }
        if table[0].0 == key {
            assert forall|i: int, j: int| 0 <= i < j < new.len() implies key_less(
                #[trigger] new[i].0,
                #[trigger] new[j].0,
            ) by {
                assert(new[i].0 == table[i].0);
                assert(new[j].0 == table[j].0);
            }
        } else if key_less(key, table[0].0) {
            assert forall|i: int, j: int| 0 <= i < j < new.len() implies key_less(
                #[trigger] new[i].0,
                #[trigger] new[j].0,
            ) by {
                assert(new[j] == table[j - 1]);
                if i == 0 {
                    if j > 1 {
                        assert(key_less(table[0].0, table[j - 1].0));
                        lemma_key_less_transitive(key, table[0].0, table[j - 1].0);
                    }
                } else {
                    assert(new[i] == table[i - 1]);
                }
            }
        } else {
            lemma_key_less_total(key, table[0].0);
            lemma_with_entry_ascends(rest, key, value);
            lemma_with_entry_members(rest, key, value);
            let tail = with_entry(rest, key, value);
            assert forall|i: int, j: int| 0 <= i < j < new.len() implies key_less(
                #[trigger] new[i].0,
                #[trigger] new[j].0,
            ) by {
                assert(new[j] == tail[j - 1]);
                if i == 0 {
                    assert(new[0] == table[0]);
                    if rest.contains(tail[j - 1]) {
                        let k = choose|k: int| 0 <= k < rest.len() && rest[k] == tail[j - 1];
                        assert(table[k + 1] == tail[j - 1]);
                        assert(key_less(table[0].0, table[k + 1].0));
                    }
                } else {
                    assert(new[i] == tail[i - 1]);
                }
            }
        }
    }
}

/// How many characters `quote` stand in a row right before position `end`.
pub open spec fn run_before(text: Seq<char>, end: int, quote: char) -> nat
    decreases end,
{
    if end <= 0 || text[end - 1] != quote {
        0
    } else {
        run_before(text, end - 1, quote) + 1
    }
}

/// Whether no quotation mark stands more than 255 times in a row in `text`.
pub open spec fn short_quotes(text: Seq<char>) -> bool {
    forall|end: int|
        0 <= end <= text.len() ==> #[trigger] run_before(text, end, '\'') <= 255 && run_before(
            text,
            end,
            '"',
        ) <= 255
}

/// Whether no text in a value holds long rows of quotation marks.
pub open spec fn calm(value: Toml) -> bool
    decreases value,
{
    match value {
        Toml::Str(text) => short_quotes(text),
        Toml::Array(items) => forall|i: int| 0 <= i < items.len() ==> calm(#[trigger] items[i]),
        Toml::Table(table) => forall|i: int|
            0 <= i < table.len() ==> calm((#[trigger] table[i]).1),
        _ => true,
    }
}

/// Whether a key can be told from the marks that the TOML reader keeps for
/// itself: those begin with a dollar sign.
pub open spec fn plain_key(key: Seq<char>) -> bool {
    key.len() == 0 || key[0] != '$'
}

/// Whether a value can be written so that reading gives it back: no floats and
/// no dates, keys in order, at most `limit` levels of arrays and tables.
pub open spec fn writable(value: Toml, limit: nat) -> bool
    decreases limit,
{
    match value {
        Toml::Str(text) => short_quotes(text),
        Toml::Integer(_) => true,
        Toml::Boolean(_) => true,
        Toml::Float(_) => false,
        Toml::Datetime(_) => false,
        Toml::Array(items) => {
            &&& limit > 0
            &&& forall|i: int|
                0 <= i < items.len() ==> writable(#[trigger] items[i], (limit - 1) as nat)
        },
        Toml::Table(table) => {
            &&& limit > 0
            &&& keys_ascend(table)
            &&& forall|i: int|
                0 <= i < table.len() ==> plain_key((#[trigger] table[i]).0) && writable(
                    table[i].1,
                    (limit - 1) as nat,
                )
        },
    }
}

/// What can be written holds no long rows of quotation marks.
pub proof fn lemma_writable_is_calm(value: Toml, limit: nat)
    requires
        writable(value, limit),
    ensures
        calm(value),
    decreases limit,
{
    match value {
        Toml::Array(items) => {
            assert forall|i: int| 0 <= i < items.len() implies calm(#[trigger] items[i]) by {
                lemma_items_writable(items, i, limit);
                lemma_writable_is_calm(items[i], (limit - 1) as nat);
            }
        },
        Toml::Table(table) => {
            assert forall|i: int| 0 <= i < table.len() implies calm((#[trigger] table[i]).1) by {
                assert(value->Table_0[i] == table[i]);
                lemma_writable_is_calm(table[i].1, (limit - 1) as nat);
            }
        },
        _ => {},
    }
}

/// Giving a plain key a value that can be written keeps a table that can be
/// written.
pub proof fn lemma_writable_with_entry(
    table: Seq<(Seq<char>, Toml)>,
    key: Seq<char>,
    value: Toml,
    limit: nat,
)
    requires
        writable(Toml::Table(table), limit),
        plain_key(key),
        writable(value, (limit - 1) as nat),
    ensures
        writable(Toml::Table(with_entry(table, key, value)), limit),
{
    let new = with_entry(table, key, value);
    assert(Toml::Table(table)->Table_0 == table);
    lemma_with_entry_ascends(table, key, value);
    lemma_with_entry_members(table, key, value);
    assert forall|i: int| 0 <= i < new.len() implies plain_key((#[trigger] new[i]).0) && writable(
        new[i].1,
        (limit - 1) as nat,
    ) by {
        if new[i] != (key, value) {
            assert(table.contains(new[i]));
            let j = choose|j: int| 0 <= j < table.len() && table[j] == new[i];
            assert(Toml::Table(table)->Table_0[j] == table[j]);
        }
    }
}

/// The empty table can be written.
pub proof fn lemma_writable_no_entries(limit: nat)
    requires
        limit > 0,
    ensures
        writable(Toml::Table(no_entries()), limit),
{
}

/// Digits hold no quotation marks.
pub proof fn lemma_digits_short_quotes(text: Seq<char>)
    requires
        forall|i: int| 0 <= i < text.len() ==> #[trigger] text[i] != '\'' && text[i] != '"',
    ensures
        short_quotes(text),
{
    assert forall|end: int| 0 <= end <= text.len() implies #[trigger] run_before(text, end, '\'')
        <= 255 && run_before(text, end, '"') <= 255 by {
        if end > 0 {
            assert(text[end - 1] != '\'' && text[end - 1] != '"');
        }
    }
}

/// The items of an array that can be written can be written in a level less.
proof fn lemma_items_writable(items: Seq<Toml>, i: int, limit: nat)
    requires
        0 <= i < items.len(),
        writable(Toml::Array(items), limit),
    ensures
        limit > 0,
        writable(items[i], (limit - 1) as nat),
{
    let value = Toml::Array(items);
    assert(value->Array_0[i] == items[i]);
}

/// The greatest number of levels that is written.
pub const MAX_LEVELS: u32 = 16;

/// Whether no quotation mark stands more than 255 times in a row in `text`.
fn has_short_quotes(text: &str) -> (r: bool)
    ensures
        r == short_quotes(text@),
{
    let chars = char_vec(text);
    let mut single: u32 = 0;
    let mut double: u32 = 0;
    let mut i: usize = 0;
    while i < chars.len()
        invariant
            i <= chars@.len(),
            chars@ == text@,
            single == run_before(chars@, i as int, '\''),
            double == run_before(chars@, i as int, '"'),
            single <= 255,
            double <= 255,
            forall|end: int|
                0 <= end <= i ==> #[trigger] run_before(chars@, end, '\'') <= 255 && run_before(
                    chars@,
                    end,
                    '"',
                ) <= 255,
        decreases chars@.len() - i,
    {
        if chars[i] == '\'' {
            single = single + 1;
        } else {
            single = 0;
        }
        if chars[i] == '"' {
            double = double + 1;
        } else {
            double = 0;
        }
        i = i + 1;
        if single > 255 || double > 255 {
            assert(run_before(text@, i as int, '\'') == single);
            return false;
        }
    }
    true
}

/// Whether key `a` stands before key `b`.
fn is_key_less(a: &str, b: &str) -> (r: bool)
    ensures
        r == key_less(a@, b@),
{
    let first = char_vec(a);
    let second = char_vec(b);
    let mut i: usize = 0;
    proof {
        assert(first@.skip(0) =~= first@);
        assert(second@.skip(0) =~= second@);
    }
    while i < first.len() && i < second.len() && first[i] == second[i]
        invariant
            i <= first@.len(),
            i <= second@.len(),
            key_less(first@, second@) == key_less(first@.skip(i as int), second@.skip(i as int)),
        decreases first@.len() - i,
    {
        assert(first@.skip(i as int).drop_first() =~= first@.skip(i + 1));
        assert(second@.skip(i as int).drop_first() =~= second@.skip(i + 1));
        assert(first@.skip(i as int)[0] == first@[i as int]);
        assert(second@.skip(i as int)[0] == second@[i as int]);
        i = i + 1;
    }
    if i < first.len() && i < second.len() {
        assert(first@.skip(i as int)[0] == first@[i as int]);
        assert(second@.skip(i as int)[0] == second@[i as int]);
        first[i] < second[i]
    } else {
        i < second.len()
    }
}

impl TomlValue {
    /// Whether this value can be written in at most `limit` levels.
    pub fn is_writable(&self, limit: u32) -> (r: bool)
        ensures
            r == writable(self@, limit as nat),
        decreases limit, self,
    {
        match self {
            TomlValue::Str(text) => has_short_quotes(text.as_str()),
            TomlValue::Integer(_) => true,
            TomlValue::Boolean(_) => true,
            TomlValue::Float(_) => false,
            TomlValue::Datetime(_) => false,
            TomlValue::Array(items) => {
                if limit == 0 {
                    return false;
                }
                let ghost meaning = self@->Array_0;
                let mut i: usize = 0;
                while i < items.len()
                    invariant
                        i <= items@.len(),
                        0 < limit,
                        self@ == Toml::Array(meaning),
                        meaning.len() == items@.len(),
                        forall|j: int| 0 <= j < meaning.len() ==> #[trigger] meaning[j] == items@[j]@,
                        forall|j: int|
                            0 <= j < i ==> writable(#[trigger] meaning[j], (limit - 1) as nat),
                    decreases items@.len() - i,
                {
                    if !items[i].is_writable(limit - 1) {
                        assert(meaning[i as int] == items@[i as int]@);
                        proof {
                            if writable(self@, limit as nat) {
                                lemma_items_writable(meaning, i as int, limit as nat);
                            }
                        }
                        return false;
                    }
                    i = i + 1;
                }
                true
            },
            TomlValue::Table(table) => table.is_writable_table(limit),
        }
    }
}

impl TomlValue {
    /// Whether no text in this value holds long rows of quotation marks.
    pub fn is_calm(&self) -> (r: bool)
        ensures
            r == calm(self@),
        decreases self,
    {
        match self {
            TomlValue::Str(text) => has_short_quotes(text.as_str()),
            TomlValue::Array(items) => {
                let ghost meaning = self@->Array_0;
                let mut i: usize = 0;
                while i < items.len()
                    invariant
                        i <= items@.len(),
                        self is Array,
                        self->Array_0 == *items,
                        meaning == self@->Array_0,
                        meaning.len() == items@.len(),
                        forall|j: int| 0 <= j < meaning.len() ==> #[trigger] meaning[j] == items@[j]@,
                        forall|j: int| 0 <= j < i ==> calm(#[trigger] meaning[j]),
                    decreases items@.len() - i,
                {
                    assert(meaning[i as int] == items@[i as int]@);
                    if !items[i].is_calm() {
                        assert(self@->Array_0[i as int] == meaning[i as int]);
                        return false;
                    }
                    i = i + 1;
                }
                true
            },
            TomlValue::Table(table) => {
                let ghost meaning = table@;
                let mut i: usize = 0;
                while i < table.entries.len()
                    invariant
                        i <= table.entries@.len(),
                        self is Table,
                        self->Table_0 == *table,
                        meaning == table@,
                        meaning.len() == table.entries@.len(),
                        forall|j: int|
                            0 <= j < meaning.len() ==> #[trigger] meaning[j] == (
                                table.entries@[j].key@,
                                table.entries@[j].value@,
                            ),
                        forall|j: int| 0 <= j < i ==> calm((#[trigger] meaning[j]).1),
                    decreases table.entries@.len() - i,
                {
                    assert(meaning[i as int].1 == table.entries@[i as int].value@);
                    if !table.entries[i].value.is_calm() {
                        assert(self@->Table_0[i as int] == meaning[i as int]);
                        return false;
                    }
                    i = i + 1;
                }
                true
            },
            _ => true,
        }
    }
}

impl TomlTable {
    /// Whether this table can be written in at most `limit` levels.
    pub fn is_writable_table(&self, limit: u32) -> (r: bool)
        ensures
            r == writable(Toml::Table(self@), limit as nat),
        decreases limit, self,
    {
        if limit == 0 {
            return false;
        }
        let ghost meaning = self@;
        let mut i: usize = 0;
        while i < self.entries.len()
            invariant
                i <= self.entries@.len(),
                0 < limit,
                self@ == meaning,
                meaning.len() == self.entries@.len(),
                forall|j: int|
                    0 <= j < meaning.len() ==> #[trigger] meaning[j] == (
                        self.entries@[j].key@,
                        self.entries@[j].value@,
                    ),
                forall|j: int, k: int|
                    0 <= j < k < i ==> key_less(#[trigger] meaning[j].0, #[trigger] meaning[k].0),
                forall|j: int|
                    0 <= j < i ==> plain_key((#[trigger] meaning[j]).0) && writable(
                        meaning[j].1,
                        (limit - 1) as nat,
                    ),
            decreases self.entries@.len() - i,
        {
            let entry = &self.entries[i];
            assert(meaning[i as int] == (entry.key@, entry.value@));
            let first = char_vec(entry.key.as_str());
            if first.len() > 0 && first[0] == '$' {
                return false;
            }
            if i > 0 {
                assert(meaning[i - 1].0 == self.entries@[i - 1].key@);
                if !is_key_less(self.entries[i - 1].key.as_str(), entry.key.as_str()) {
                    assert(!key_less(meaning[i - 1].0, meaning[i as int].0));
                    return false;
                }
                proof {
                    assert forall|j: int| 0 <= j < i implies key_less(
                        #[trigger] meaning[j].0,
                        meaning[i as int].0,
                    ) by {
                        if j < i - 1 {
                            assert(key_less(meaning[j].0, meaning[i - 1].0));
                            lemma_key_less_transitive(
                                meaning[j].0,
                                meaning[i - 1].0,
                                meaning[i as int].0,
                            );
                        }
                    }
                }
            }
            if !entry.value.is_writable(limit - 1) {
                return false;
            }
            i = i + 1;
        }
        true
    }

    /// The empty table.
    pub fn new() -> (r: TomlTable)
        ensures
            r@ == no_entries(),
    {
        let table = TomlTable { entries: Vec::new() };
        assert(table@ =~= no_entries());
        table
    }

    /// The value of `key`, if it has one.
    pub fn get(&self, key: &str) -> (r: Option<&TomlValue>)
        ensures
            match r {
                Some(value) => lookup(self@, key@) == Some(value@) && decreases_to!(self => value),
                None => lookup(self@, key@) is None,
            },
    {
        let mut i: usize = 0;
        assert(self@.skip(0) =~= self@);
        while i < self.entries.len()
            invariant
                i <= self.entries@.len() == self@.len(),
                lookup(self@, key@) == lookup(self@.skip(i as int), key@),
            decreases self.entries@.len() - i,
        {
            assert(self@.skip(i as int)[0] == self@[i as int]);
            assert(self@.skip(i as int).drop_first() =~= self@.skip(i + 1));
            if same_text(self.entries[i].key.as_str(), key) {
                assert(decreases_to!(self => self.entries@[i as int]));
                return Some(&self.entries[i].value);
            }
            i = i + 1;
        }
        None
    }

    /// Gives `key` the value `value`.
    pub fn insert(&mut self, key: &str, value: TomlValue)
        ensures
            final(self)@ == with_entry(old(self)@, key@, value@),
    {
        let ghost before = self@;
        let mut i: usize = 0;
        assert(before.skip(0) =~= before);
        assert(before.take(0) + with_entry(before.skip(0), key@, value@) =~= with_entry(
            before,
            key@,
            value@,
        ));
        while i < self.entries.len() && is_key_less(self.entries[i].key.as_str(), key)
            invariant
                i <= self.entries@.len() == before.len(),
                self@ == before,
                with_entry(before, key@, value@) == before.take(i as int) + with_entry(
                    before.skip(i as int),
                    key@,
                    value@,
                ),
            decreases self.entries@.len() - i,
        {
            proof {
                let rest = before.skip(i as int);
                assert(rest[0] == before[i as int]);
                assert(before[i as int].0 == self.entries@[i as int].key@);
                lemma_key_less_irreflexive(key@);
                if key_less(key@, rest[0].0) {
                    lemma_key_less_transitive(key@, rest[0].0, key@);
                }
                assert(rest.drop_first() =~= before.skip(i + 1));
                assert(before.take(i as int) + (seq![rest[0]] + with_entry(
                    before.skip(i + 1),
                    key@,
                    value@,
                )) =~= before.take(i + 1) + with_entry(before.skip(i + 1), key@, value@));
            }
            i = i + 1;
        }
        let ghost rest = before.skip(i as int);
        if i < self.entries.len() && same_text(self.entries[i].key.as_str(), key) {
            let entry = TomlEntry { key: key.to_owned(), value };
            self.entries.remove(i);
            self.entries.insert(i, entry);
            proof {
                assert(rest[0] == before[i as int]);
                assert(before.take(i as int) + (seq![(key@, value@)] + rest.drop_first())
                    =~= before.update(i as int, (key@, value@)));
                assert(self@ =~= before.update(i as int, (key@, value@)));
            }
        } else {
            let entry = TomlEntry { key: key.to_owned(), value };
            self.entries.insert(i, entry);
            proof {
                if rest.len() > 0 {
                    assert(rest[0] == before[i as int]);
                    lemma_key_less_total(rest[0].0, key@);
                }
                assert(before.take(i as int) + (seq![(key@, value@)] + rest) =~= before.insert(
                    i as int,
                    (key@, value@),
                ));
                assert(rest.len() == 0 ==> seq![(key@, value@)] + rest =~= seq![(key@, value@)]);
                assert(self@ =~= before.insert(i as int, (key@, value@)));
            }
        }
    }
}

/// `toml::Value` of the `toml` crate, carried through without a look inside.
#[verifier::external_type_specification]
#[verifier::external_body]
pub struct ExTomlValue(toml::Value);

/// What a value of the `toml` crate holds, as plain data: a float by its bits,
/// a date by its text, a table by its entries in the order of the keys.
pub uninterp spec fn contents(value: toml::Value) -> Toml;

/// What the `toml` crate reads from a document: the top-level table, or the
/// text of its complaint.
pub uninterp spec fn parsed(source: Seq<char>) -> Result<Toml, Seq<char>>;

/// A document that was read.
pub open spec fn document(value: Toml) -> Result<Toml, Seq<char>> {
    Ok(value)
}

/// A document that was refused with a complaint.
pub open spec fn complaint(message: Seq<char>) -> Result<Toml, Seq<char>> {
    Err(message)
}

/// The text that the `toml` crate writes for a document.
pub uninterp spec fn written(value: Toml) -> Seq<char>;

/// `str::parse` into `toml::Table`. Trusted: the outcome depends on the text
/// alone, and a document that is read is a table with its keys in order.
#[verifier::external_body]
fn parse_document(source: &str) -> (r: Result<toml::Value, String>)
    ensures
        match r {
            Ok(value) => parsed(source@) == document(contents(value)) && contents(value) is Table
                && keys_ascend(contents(value)->Table_0),
            Err(message) => parsed(source@) == complaint(message@),
        },
{
    match source.parse::<toml::Table>() {
        Ok(table) => Ok(toml::Value::Table(table)),
        Err(error) => Err(error.to_string()),
    }
}

/// A `toml::Value` turned into plain data, variant for variant. Trusted: the
/// result holds what the value holds.
#[verifier::external_body]
fn from_outside(value: toml::Value) -> (r: TomlValue)
    ensures
        r@ == contents(value),
{
    match value {
        toml::Value::String(text) => TomlValue::Str(text),
        toml::Value::Integer(number) => TomlValue::Integer(number),
        toml::Value::Float(number) => TomlValue::Float(number.to_bits()),
        toml::Value::Boolean(flag) => TomlValue::Boolean(flag),
        toml::Value::Datetime(date) => TomlValue::Datetime(date.to_string()),
        toml::Value::Array(items) => TomlValue::Array(items.into_iter().map(from_outside).collect()),
        toml::Value::Table(table) => TomlValue::Table(TomlTable {
            entries: table.into_iter().map(|(key, value)| TomlEntry { key, value: from_outside(value) }).collect(),
        }),
    }
}

/// Plain data turned into a `toml::Value`, variant for variant; floats and
/// dates do not come here. Trusted: the result holds what the data means. A
/// `toml::Table` keeps its keys in order and once each, so the keys must come
/// that way.
#[verifier::external_body]
fn to_outside(value: &TomlValue) -> (r: toml::Value)
    requires
        writable(value@, MAX_LEVELS as nat),
    ensures
        contents(r) == value@,
{
    match value {
        TomlValue::Str(text) => toml::Value::String(text.clone()),
        TomlValue::Integer(number) => toml::Value::Integer(*number),
        TomlValue::Boolean(flag) => toml::Value::Boolean(*flag),
        TomlValue::Float(_) | TomlValue::Datetime(_) => toml::Value::Float(Default::default()),
        TomlValue::Array(items) => toml::Value::Array(items.iter().map(to_outside).collect()),
        TomlValue::Table(table) => toml::Value::Table(
            table.entries.iter().map(|entry| (entry.key.clone(), to_outside(&entry.value))).collect(),
        ),
    }
}

/// `toml::Table::insert` of a text. Trusted: the key has the text afterwards,
/// in its place in the order, and nothing else has changed.
#[verifier::external_body]
fn insert_text(value: toml::Value, key: &str, text: &str) -> (r: toml::Value)
    requires
        contents(value) is Table,
        keys_ascend(contents(value)->Table_0),
    ensures
        contents(r) == Toml::Table(with_entry(contents(value)->Table_0, key@, Toml::Str(text@))),
{
    match value {
        toml::Value::Table(mut table) => {
            table.insert(key.to_owned(), toml::Value::String(text.to_owned()));
            toml::Value::Table(table)
        }
        other => other,
    }
}

/// `to_string` of `toml::Table`. Trusted: the text depends on what the table
/// holds alone, and what can be written is read back from it. The writer counts
/// the quotation marks in a row in a byte, so longer rows are left out.
#[verifier::external_body]
fn write_document(value: &toml::Value) -> (r: String)
    requires
        contents(*value) is Table,
        calm(contents(*value)),
    ensures
        r@ == written(contents(*value)),
        writable(contents(*value), MAX_LEVELS as nat) ==> parsed(r@) == document(contents(*value)),
{
    match value {
        toml::Value::Table(table) => table.to_string(),
        other => other.to_string(),
    }
}

/// Reads a TOML document.
pub fn read_toml(source: &str) -> (r: Result<TomlTable, String>)
    ensures
        match r {
            Ok(table) => parsed(source@) == document(Toml::Table(table@)),
            Err(message) => parsed(source@) == complaint(message@),
        },
{
    match parse_document(source) {
        Ok(value) => match from_outside(value) {
            TomlValue::Table(table) => Ok(table),
            _ => Ok(TomlTable::new()),
        },
        Err(message) => Err(message),
    }
}

/// The text of a document, where it can be written so that reading gives it
/// back.
pub open spec fn document_text(table: Seq<(Seq<char>, Toml)>) -> Option<Seq<char>> {
    if writable(Toml::Table(table), MAX_LEVELS as nat) {
        Some(written(Toml::Table(table)))
    } else {
        None
    }
}

/// Writes a TOML document, unless it cannot be written so that reading gives
/// it back.
pub fn write_toml(table: TomlTable) -> (r: Option<String>)
    ensures
        match r {
            Some(text) => document_text(table@) == Some(text@) && parsed(text@) == document(
                Toml::Table(table@),
            ),
            None => document_text(table@) is None,
        },
{
    let value = TomlValue::Table(table);
    if value.is_writable(MAX_LEVELS) {
        proof {
            lemma_writable_is_calm(value@, MAX_LEVELS as nat);
        }
        Some(write_document(&to_outside(&value)))
    } else {
        None
    }
}

/// The text of a document in which `key` has been given the text `text`: the
/// complaint where the document cannot be read, `None` where the new one cannot
/// be written.
pub open spec fn updated_document(source: Seq<char>, key: Seq<char>, text: Seq<char>) -> Result<
    Option<Seq<char>>,
    Seq<char>,
> {
    match parsed(source) {
        Err(message) => Err(message),
        Ok(value) => {
            let updated = Toml::Table(with_entry(value->Table_0, key, Toml::Str(text)));
            if calm(updated) {
                Ok(Some(written(updated)))
            } else {
                Ok(None)
            }
        },
    }
}

/// Gives a key of a document a text.
pub fn update_toml(source: &str, key: &str, text: &str) -> (r: Result<Option<String>, String>)
    ensures
        match r {
            Ok(Some(new)) => {
                &&& updated_document(source@, key@, text@) == Ok::<Option<Seq<char>>, Seq<char>>(
                    Some(new@),
                )
                &&& parsed(source@) matches Ok(Toml::Table(table)) && {
                    let updated = Toml::Table(with_entry(table, key@, Toml::Str(text@)));
                    writable(updated, MAX_LEVELS as nat) ==> parsed(new@) == document(updated)
                }
            },
            Ok(None) => updated_document(source@, key@, text@) == Ok::<
                Option<Seq<char>>,
                Seq<char>,
            >(None),
            Err(message) => updated_document(source@, key@, text@) == Err::<
                Option<Seq<char>>,
                Seq<char>,
            >(message@),
        },
{
    let mut table = match read_toml(source) {
        Ok(table) => table,
        Err(message) => {
            return Err(message);
        },
    };
    match parse_document(source) {
        Ok(value) => {
            table.insert(key, TomlValue::Str(text.to_owned()));
            let updated = TomlValue::Table(table);
            if updated.is_calm() {
                Ok(Some(write_document(&insert_text(value, key, text))))
            } else {
                Ok(None)
            }
        },
        Err(message) => Err(message),
    }
}

/// The text that the `toml` crate displays for a value.
pub uninterp spec fn value_text(value: Toml) -> Seq<char>;

/// `toml::Table::get`. Trusted: the value of the key, where the value is a table
/// that has the key.
#[verifier::external_body]
fn field_of(value: &toml::Value, key: &str) -> (r: Option<toml::Value>)
    ensures
        match r {
            Some(found) => contents(*value) is Table && lookup(contents(*value)->Table_0, key@)
                == Some(contents(found)),
            None => contents(*value) is Table ==> lookup(contents(*value)->Table_0, key@) is None,
        },
{
    match value {
        toml::Value::Table(table) => table.get(key).cloned(),
        _ => None,
    }
}

/// The items of a `toml::Value::Array`. Trusted: the items in their order, none
/// where the value is no array.
#[verifier::external_body]
fn items_of(value: toml::Value) -> (r: Vec<toml::Value>)
    ensures
        r@.map_values(|item: toml::Value| contents(item)) == list_items(Some(contents(value))),
{
    match value {
        toml::Value::Array(items) => items,
        _ => Vec::new(),
    }
}

/// `to_string` of `toml::Value`. Trusted: the text depends on what the value
/// holds alone. The writer counts the quotation marks in a row in a byte, so
/// longer rows are left out.
#[verifier::external_body]
fn display_value(value: &toml::Value) -> (r: String)
    requires
        calm(contents(*value)),
    ensures
        r@ == value_text(contents(*value)),
{
    value.to_string()
}

/// The items of a list; none where the value is no list.
pub open spec fn list_items(value: Option<Toml>) -> Seq<Toml> {
    match value {
        Some(Toml::Array(items)) => items,
        _ => Seq::empty(),
    }
}

/// The text that is shown for a value: none where it holds long rows of
/// quotation marks.
pub open spec fn shown(value: Toml) -> Seq<char> {
    if calm(value) {
        value_text(value)
    } else {
        Seq::empty()
    }
}

/// The list under `inner` in the table under `outer`.
pub open spec fn nested_list(
    table: Seq<(Seq<char>, Toml)>,
    outer: Seq<char>,
    inner: Seq<char>,
) -> Seq<Toml> {
    match lookup(table, outer) {
        Some(Toml::Table(nested)) => list_items(lookup(nested, inner)),
        _ => Seq::empty(),
    }
}

/// The texts that are shown for the items of the list under `inner` in the
/// table under `outer` of a document.
pub open spec fn nested_texts(source: Seq<char>, outer: Seq<char>, inner: Seq<char>) -> Seq<
    Seq<char>,
> {
    match parsed(source) {
        Ok(value) => nested_list(value->Table_0, outer, inner).map_values(
            |item: Toml| shown(item),
        ),
        Err(_) => Seq::empty(),
    }
}

/// Whether no text in `value` holds long rows of quotation marks.
fn check_calm(value: toml::Value) -> (r: bool)
    ensures
        r == calm(contents(value)),
{
    from_outside(value).is_calm()
}

/// The items of the list under `inner` in the table under `outer` of a document.
fn nested_items(source: &str, outer: &str, inner: &str) -> (r: Vec<toml::Value>)
    ensures
        match parsed(source@) {
            Ok(value) => r@.map_values(|item: toml::Value| contents(item)) == nested_list(
                value->Table_0,
                outer@,
                inner@,
            ),
            Err(_) => r@.len() == 0,
        },
{
    let none: Vec<toml::Value> = Vec::new();
    assert(none@.map_values(|item: toml::Value| contents(item)) =~= Seq::empty());
    match parse_document(source) {
        Err(_) => none,
        Ok(value) => match field_of(&value, outer) {
            None => none,
            Some(nested) => match field_of(&nested, inner) {
                None => none,
                Some(list) => items_of(list),
            },
        },
    }
}

/// The texts that are shown for the items of the list under `inner` in the
/// table under `outer` of a document.
pub fn nested_list_texts(source: &str, outer: &str, inner: &str) -> (r: Vec<String>)
    ensures
        texts(r@) == nested_texts(source@, outer@, inner@),
{
    let items = nested_items(source, outer, inner);
    let copies = nested_items(source, outer, inner);
    let ghost meaning = items@.map_values(|item: toml::Value| contents(item));
    let ghost copied = copies@.map_values(|item: toml::Value| contents(item));
    assert(meaning =~= copied);
    let mut shown_texts: Vec<String> = Vec::new();
    let mut i: usize = 0;
    for copy in it: copies
        invariant
            it.seq() == copies@,
            i == it.index(),
            i <= items@.len(),
            items@.len() == copies@.len(),
            meaning == items@.map_values(|item: toml::Value| contents(item)),
            meaning == copies@.map_values(|item: toml::Value| contents(item)),
            shown_texts@.len() == i,
            forall|j: int| 0 <= j < i ==> (#[trigger] shown_texts@[j])@ == shown(meaning[j]),
    {
        assert(i < items.len());
        assert(meaning[i as int] == contents(items@[i as int]));
        assert(meaning[i as int] == contents(copy));
        if check_calm(copy) {
            shown_texts.push(display_value(&items[i]));
        } else {
            let empty = String::new();
            assert(empty@ =~= Seq::empty());
            shown_texts.push(empty);
        }
        i = i + 1;
    }
    assert(texts(shown_texts@) =~= nested_texts(source@, outer@, inner@));
    shown_texts
}

} // verus!
