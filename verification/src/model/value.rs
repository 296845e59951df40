//! Attribute values: hashes, arrays, literals and deferred expressions.

use crate::model::slots::Slots;
use crate::text::same_text;
use vstd::prelude::*;
use vstd::string::*;

verus! {

/// A decimal number, kept exactly: a sign, the digits before the point and
/// the digits after it. Each digit is a value from 0 to 9.
#[derive(Debug)]
pub struct Number {
    pub negative: bool,
    pub integer: Vec<u8>,
    pub fraction: Vec<u8>,
}

/// What a `Number` holds.
pub struct NumberModel {
    pub negative: bool,
    pub integer: Seq<u8>,
    pub fraction: Seq<u8>,
}

/// A deferred computation stored inside a value.
#[derive(Debug)]
pub enum Expression {
    /// A variable reference: its prefix character and its path.
    Variable(char, Vec<Value>),
    /// A function call: its name and its parameters.
    Function(String, Attributes),
}

/// An attribute value. An `Expression` holds the place of its slot in a
/// table of slots (`Slots`): every copy of it holds the same place, so what
/// resolution writes there, every copy reads. An expression without a place
/// has no slot yet, and stands for `Undefined`.
#[derive(Debug)]
pub enum Value {
    Hash(Attributes),
    Array(Vec<Value>),
    String(String),
    Number(Number),
    Boolean(bool),
    Expression(Option<usize>, Expression),
    Undefined,
    Null,
}

/// A mapping from string keys to values, held as a list of entries. A key is
/// looked up at its first entry; `insert` and `extend` never add a second
/// entry for a key.
#[derive(Debug)]
pub struct Attributes {
    pub entries: Vec<(String, Value)>,
}

/// The entries of an `Attributes`, in order.
pub type AttributesModel = Seq<(Seq<char>, ValueModel)>;

/// What a `Value` holds.
pub enum ValueModel {
    Hash(AttributesModel),
    Array(Seq<ValueModel>),
    String(Seq<char>),
    Number(NumberModel),
    Boolean(bool),
    Expression(Option<usize>, ExpressionModel),
    Undefined,
    Null,
}

/// What an `Expression` holds.
pub enum ExpressionModel {
    Variable(char, Seq<ValueModel>),
    Function(Seq<char>, AttributesModel),
}

impl View for Number {
    type V = NumberModel;

    open spec fn view(&self) -> NumberModel {
        NumberModel { negative: self.negative, integer: self.integer@, fraction: self.fraction@ }
    }
}

/// The models of a list of values, one for one.
pub open spec fn values_model(items: Seq<Value>) -> Seq<ValueModel>
    decreases items,
{
    Seq::new(
        items.len(),
        |i: int|
            if 0 <= i < items.len() {
                items[i].model()
            } else {
                ValueModel::Null
            },
    )
}

/// The models of a list of entries, one for one.
pub open spec fn entries_model(items: Seq<(String, Value)>) -> AttributesModel
    decreases items,
{
    Seq::new(
        items.len(),
        |i: int|
            if 0 <= i < items.len() {
                (items[i].0@, items[i].1.model())
            } else {
                (Seq::empty(), ValueModel::Null)
            },
    )
}

impl Value {
    /// What this value holds; `@` is short for it.
    pub open spec fn model(&self) -> ValueModel
        decreases self,
    {
        match self {
            Value::Hash(attributes) => ValueModel::Hash(entries_model(attributes.entries@)),
            Value::Array(items) => ValueModel::Array(values_model(items@)),
            Value::String(text) => ValueModel::String(text@),
            Value::Number(number) => ValueModel::Number(number@),
            Value::Boolean(flag) => ValueModel::Boolean(*flag),
            Value::Expression(place, expression) => ValueModel::Expression(
                *place,
                expression.model(),
            ),
            Value::Undefined => ValueModel::Undefined,
            Value::Null => ValueModel::Null,
        }
    }
}

impl Expression {
    /// What this expression holds; `@` is short for it.
    pub open spec fn model(&self) -> ExpressionModel
        decreases self,
    {
        match self {
            Expression::Variable(prefix, path) => ExpressionModel::Variable(
                *prefix,
                values_model(path@),
            ),
            Expression::Function(name, parameters) => ExpressionModel::Function(
                name@,
                entries_model(parameters.entries@),
            ),
        }
    }
}

impl View for Value {
    type V = ValueModel;

    open spec fn view(&self) -> ValueModel {
        self.model()
    }
}

impl View for Expression {
    type V = ExpressionModel;

    open spec fn view(&self) -> ExpressionModel {
        self.model()
    }
}

impl View for Attributes {
    type V = AttributesModel;

    open spec fn view(&self) -> AttributesModel {
        entries_model(self.entries@)
    }
}

/// The index of the first entry at or after `from` whose key is `key`, or
/// the number of entries where there is none.
pub open spec fn find_key(entries: AttributesModel, key: Seq<char>, from: int) -> int
    decreases entries.len() - from,
{
    if from < 0 || from >= entries.len() {
        entries.len() as int
    } else if entries[from].0 == key {
        from
    } else {
        find_key(entries, key, from + 1)
    }
}

/// The value that `key` maps to: that of its first entry.
pub open spec fn lookup(entries: AttributesModel, key: Seq<char>) -> Option<ValueModel> {
    let index = find_key(entries, key, 0);
    if index < entries.len() {
        Some(entries[index].1)
    } else {
        None
    }
}

/// The entries after `key` is set to `value`: the first entry of `key` is
/// replaced in its place, or a new entry is added at the end.
pub open spec fn inserted(entries: AttributesModel, key: Seq<char>, value: ValueModel)
    -> AttributesModel {
    let index = find_key(entries, key, 0);
    if index < entries.len() {
        entries.update(index, (key, value))
    } else {
        entries.push((key, value))
    }
}

/// The entries after those of `other`, from index `from` on, are inserted in order.
pub open spec fn extended_from(entries: AttributesModel, other: AttributesModel, from: int)
    -> AttributesModel
    decreases other.len() - from,
{
    if from < 0 || from >= other.len() {
        entries
    } else {
        extended_from(inserted(entries, other[from].0, other[from].1), other, from + 1)
    }
}

/// The entries after all those of `other` are inserted in order.
pub open spec fn extended(entries: AttributesModel, other: AttributesModel) -> AttributesModel {
    extended_from(entries, other, 0)
}

/// No key has two entries.
pub open spec fn unique_keys(entries: AttributesModel) -> bool {
    forall|i: int, j: int|
        0 <= i < j < entries.len() ==> (#[trigger] entries[i]).0 != (#[trigger] entries[j]).0
}

/// `find_key` returns an index in range of an entry with the key, and no
/// entry between `from` and it has the key.
pub proof fn lemma_find_key(entries: AttributesModel, key: Seq<char>, from: int)
    requires
        0 <= from <= entries.len(),
    ensures
        from <= find_key(entries, key, from) <= entries.len(),
        find_key(entries, key, from) < entries.len() ==> entries[find_key(entries, key, from)].0
            == key,
        forall|i: int| from <= i < find_key(entries, key, from) ==> (#[trigger] entries[i]).0 != key,
    decreases entries.len() - from,
{
    if from < entries.len() && entries[from].0 != key {
        lemma_find_key(entries, key, from + 1);
    }
}

/// Setting a key keeps the keys unique.
pub proof fn lemma_inserted_unique(entries: AttributesModel, key: Seq<char>, value: ValueModel)
    requires
        unique_keys(entries),
    ensures
        unique_keys(inserted(entries, key, value)),
        lookup(inserted(entries, key, value), key) == Some(value),
{
    lemma_find_key(entries, key, 0);
    let index = find_key(entries, key, 0);
    let after = inserted(entries, key, value);
    assert forall|i: int, j: int| 0 <= i < j < after.len() implies (#[trigger] after[i]).0 != (
    #[trigger] after[j]).0 by {
        if index < entries.len() {
            assert(after[i].0 == entries[i].0);
            assert(after[j].0 == entries[j].0);
        } else if j == entries.len() {
            assert(after[i] == entries[i]);
        } else {
            assert(after[i] == entries[i]);
            assert(after[j] == entries[j]);
        }
    }
    lemma_find_key(after, key, 0);
    let found = find_key(after, key, 0);
    if index < entries.len() {
        assert(after[index].0 == key);
        if found != index {
            if found < index {
                assert(after[found].0 == key);
            } else {
                assert(after[found].0 == key);
            }
        }
    } else {
        assert(after[entries.len() as int].0 == key);
        if found < entries.len() {
            assert(after[found] == entries[found]);
        }
    }
}

/// Inserting a list of entries keeps the keys unique.
pub proof fn lemma_extended_unique(entries: AttributesModel, other: AttributesModel, from: int)
    requires
        unique_keys(entries),
        0 <= from <= other.len(),
    ensures
        unique_keys(extended_from(entries, other, from)),
    decreases other.len() - from,
{
    if from < other.len() {
        lemma_inserted_unique(entries, other[from].0, other[from].1);
        lemma_extended_unique(inserted(entries, other[from].0, other[from].1), other, from + 1);
    }
}

/// Whether every mapping in each of the values has unique keys.
pub open spec fn keyed_values(items: Seq<ValueModel>) -> bool
    decreases items,
{
    forall|i: int| 0 <= i < items.len() ==> keyed(#[trigger] items[i])
}

/// Whether a mapping has unique keys, and so has every mapping in its values.
pub open spec fn keyed_entries(entries: AttributesModel) -> bool
    decreases entries,
{
    unique_keys(entries) && forall|i: int|
        0 <= i < entries.len() ==> keyed((#[trigger] entries[i]).1)
}

/// Whether every mapping in a value has unique keys: a hash, the
/// parameters of a call, and every mapping inside them.
pub open spec fn keyed(value: ValueModel) -> bool
    decreases value,
{
    match value {
        ValueModel::Hash(entries) => keyed_entries(entries),
        ValueModel::Array(items) => keyed_values(items),
        ValueModel::Expression(_, ExpressionModel::Function(_, parameters)) => keyed_entries(
            parameters,
        ),
        ValueModel::Expression(_, ExpressionModel::Variable(_, path)) => keyed_values(path),
        _ => true,
    }
}

/// Setting a key to a value whose mappings have unique keys keeps the keys unique, at every depth.
pub proof fn lemma_inserted_keyed(entries: AttributesModel, key: Seq<char>, value: ValueModel)
    requires
        keyed_entries(entries),
        keyed(value),
    ensures
        keyed_entries(inserted(entries, key, value)),
{
    lemma_inserted_unique(entries, key, value);
    lemma_find_key(entries, key, 0);
    let after = inserted(entries, key, value);
    let index = find_key(entries, key, 0);
    assert forall|i: int| 0 <= i < after.len() implies keyed((#[trigger] after[i]).1) by {
        if index < entries.len() {
            if i != index {
                assert(after[i] == entries[i]);
            }
        } else if i < entries.len() {
            assert(after[i] == entries[i]);
        }
    }
}

/// Inserting the entries of a mapping keeps the keys unique, at every depth.
pub proof fn lemma_extended_keyed(entries: AttributesModel, other: AttributesModel, from: int)
    requires
        keyed_entries(entries),
        forall|i: int| 0 <= i < other.len() ==> keyed((#[trigger] other[i]).1),
        0 <= from <= other.len(),
    ensures
        keyed_entries(extended_from(entries, other, from)),
    decreases other.len() - from,
{
    if from < other.len() {
        assert(keyed(other[from].1));
        lemma_inserted_keyed(entries, other[from].0, other[from].1);
        lemma_extended_keyed(inserted(entries, other[from].0, other[from].1), other, from + 1);
    }
}

impl Attributes {
    /// An empty mapping.
    pub fn new() -> (attributes: Attributes)
        ensures
            attributes@ == Seq::<(Seq<char>, ValueModel)>::empty(),
    {
        let attributes = Attributes { entries: Vec::new() };
        assert(attributes@ =~= Seq::<(Seq<char>, ValueModel)>::empty());
        attributes
    }

    /// The number of entries.
    pub fn len(&self) -> (count: usize)
        ensures
            count == self@.len(),
    {
        self.entries.len()
    }

    /// Whether there is no entry.
    pub fn is_empty(&self) -> (empty: bool)
        ensures
            empty == (self@.len() == 0),
    {
        self.entries.len() == 0
    }

    /// The index of the first entry of `key`, or the number of entries.
    pub fn position(&self, key: &str) -> (index: usize)
        ensures
            index == find_key(self@, key@, 0),
            index <= self.entries.len(),
    {
        let mut index: usize = 0;
        while index < self.entries.len()
            invariant
                index <= self.entries.len(),
                find_key(self@, key@, 0) == find_key(self@, key@, index as int),
            decreases self.entries.len() - index,
        {
            assert(self@[index as int].0 == self.entries[index as int].0@);
            if same_text(self.entries[index].0.as_str(), key) {
                return index;
            }
            index += 1;
        }
        index
    }

    /// The value that `key` maps to.
    pub fn get(&self, key: &str) -> (value: Option<&Value>)
        ensures
            match value {
                Some(found) => lookup(self@, key@) == Some(found@),
                None => lookup(self@, key@) is None,
            },
            value is Some ==> find_key(self@, key@, 0) < self.entries.len() && *value->0
                == self.entries[find_key(self@, key@, 0)].1,
    {
        let index = self.position(key);
        if index < self.entries.len() {
            Some(&self.entries[index].1)
        } else {
            None
        }
    }

    /// Whether `key` has an entry.
    pub fn contains_key(&self, key: &str) -> (present: bool)
        ensures
            present == lookup(self@, key@) is Some,
    {
        self.position(key) < self.entries.len()
    }

    /// Sets `key` to `value` and returns the value that it had before.
    pub fn insert(&mut self, key: String, value: Value) -> (previous: Option<Value>)
        ensures
            final(self)@ == inserted(old(self)@, key@, value@),
            match previous {
                Some(before) => lookup(old(self)@, key@) == Some(before@),
                None => lookup(old(self)@, key@) is None,
            },
            unique_keys(old(self)@) ==> unique_keys(final(self)@),
            keyed_entries(old(self)@) && keyed(value@) ==> keyed_entries(final(self)@),
    {
        proof {
            if unique_keys(self@) {
                lemma_inserted_unique(self@, key@, value@);
            }
            if keyed_entries(self@) && keyed(value@) {
                lemma_inserted_keyed(self@, key@, value@);
            }
        }
        let index = self.position(key.as_str());
        if index < self.entries.len() {
            let mut entry = (key, value);
            let slot = &mut self.entries[index];
            std::mem::swap(slot, &mut entry);
            assert(self@ =~= inserted(old(self)@, key@, value@));
            Some(entry.1)
        } else {
            self.entries.push((key, value));
            assert(self@ =~= inserted(old(self)@, key@, value@));
            None
        }
    }

    /// Inserts every entry of `other`, in order.
    pub fn extend(&mut self, other: Attributes)
        ensures
            final(self)@ == extended(old(self)@, other@),
            unique_keys(old(self)@) ==> unique_keys(final(self)@),
            keyed_entries(old(self)@) && keyed_entries(other@) ==> keyed_entries(final(self)@),
    {
        proof {
            if unique_keys(self@) {
                lemma_extended_unique(self@, other@, 0);
            }
            if keyed_entries(self@) && keyed_entries(other@) {
                lemma_extended_keyed(self@, other@, 0);
            }
        }
        let mut rest = other.entries;
        let ghost all = other@;
        let ghost mut done: int = 0;
        while rest.len() > 0
            invariant
                0 <= done <= all.len(),
                rest.len() == all.len() - done,
                forall|k: int|
                    0 <= k < rest.len() ==> (#[trigger] rest@[k]).0@ == all[done + k].0
                        && rest@[k].1@ == all[done + k].1,
                extended_from(self@, all, done) == extended(old(self)@, all),
                unique_keys(old(self)@) ==> unique_keys(self@),
            decreases rest.len(),
        {
            let entry = rest.remove(0);
            self.insert(entry.0, entry.1);
            proof {
                done = done + 1;
            }
        }
    }
}

/// The index of the first digit at or after `from` that is not a leading
/// zero: the first nonzero digit, or the last digit.
pub open spec fn leading_zeros(digits: Seq<u8>, from: int) -> int
    decreases digits.len() - from,
{
    if 0 <= from && from + 1 < digits.len() && digits[from] == 0 {
        leading_zeros(digits, from + 1)
    } else {
        from
    }
}

/// The end of the digits before `end` once the trailing zeros are left out.
pub open spec fn trailing_end(digits: Seq<u8>, end: int) -> int
    decreases end,
{
    if 0 < end <= digits.len() && digits[end - 1] == 0 {
        trailing_end(digits, end - 1)
    } else {
        end
    }
}

/// The number that a sign and two runs of digits denote, in the form in
/// which equal numbers have equal digits: no leading zero before the point
/// but a single `0`, no trailing zero after it, and no negative zero.
pub open spec fn canonical(negative: bool, integer: Seq<u8>, fraction: Seq<u8>) -> NumberModel {
    let whole = if integer.len() == 0 {
        seq![0u8]
    } else {
        integer.subrange(leading_zeros(integer, 0), integer.len() as int)
    };
    let part = fraction.subrange(0, trailing_end(fraction, fraction.len() as int));
    NumberModel {
        negative: negative && !(whole == seq![0u8] && part.len() == 0),
        integer: whole,
        fraction: part,
    }
}

/// The decimal digits of a natural number, most significant first.
pub open spec fn digits_of(n: nat) -> Seq<u8>
    decreases n,
{
    if n < 10 {
        seq![n as u8]
    } else {
        digits_of(n / 10).push((n % 10) as u8)
    }
}

/// The number that an integer denotes.
pub open spec fn number_of_int(n: int) -> NumberModel {
    NumberModel {
        negative: n < 0,
        integer: digits_of(
            if n < 0 {
                -n
            } else {
                n
            } as nat,
        ),
        fraction: Seq::empty(),
    }
}

/// The natural number that a run of digits denotes.
pub open spec fn digits_value(digits: Seq<u8>) -> nat
    decreases digits.len(),
{
    if digits.len() == 0 {
        0
    } else {
        digits_value(digits.drop_last()) * 10 + digits.last() as nat
    }
}

/// The index that a number stands for: its whole part, and 0 where it is negative.
pub open spec fn number_index(number: NumberModel) -> nat {
    if number.negative {
        0
    } else {
        digits_value(number.integer)
    }
}

/// The character of a digit.
pub open spec fn digit_char(digit: u8) -> char {
    if digit < 10 {
        (48 + digit) as u8 as char
    } else {
        '?'
    }
}

/// The characters of a run of digits.
pub open spec fn digit_chars(digits: Seq<u8>) -> Seq<char> {
    Seq::new(digits.len(), |i: int| digit_char(digits[i]))
}

/// The decimal text of a number.
pub open spec fn number_text(number: NumberModel) -> Seq<char> {
    let sign = if number.negative {
        seq!['-']
    } else {
        Seq::empty()
    };
    let tail = if number.fraction.len() > 0 {
        seq!['.'] + digit_chars(number.fraction)
    } else {
        Seq::empty()
    };
    sign + digit_chars(number.integer) + tail
}

/// A longer run of digits denotes no less than its beginning.
pub proof fn lemma_digits_value_grows(digits: Seq<u8>, count: int)
    requires
        0 <= count <= digits.len(),
    ensures
        digits_value(digits.subrange(0, count)) <= digits_value(digits),
    decreases digits.len() - count,
{
    if count < digits.len() {
        let longer = digits.subrange(0, count + 1);
        assert(longer.drop_last() =~= digits.subrange(0, count));
        lemma_digits_value_grows(digits, count + 1);
    } else {
        assert(digits.subrange(0, count) =~= digits);
    }
}

/// The text of one digit.
fn digit_text(digit: u8) -> (text: &'static str)
    ensures
        text@ == seq![digit_char(digit)],
{
    proof {
        reveal_strlit("0");
        reveal_strlit("1");
        reveal_strlit("2");
        reveal_strlit("3");
        reveal_strlit("4");
        reveal_strlit("5");
        reveal_strlit("6");
        reveal_strlit("7");
        reveal_strlit("8");
        reveal_strlit("9");
        reveal_strlit("?");
    }
    let text = match digit {
        0 => "0",
        1 => "1",
        2 => "2",
        3 => "3",
        4 => "4",
        5 => "5",
        6 => "6",
        7 => "7",
        8 => "8",
        9 => "9",
        _ => "?",
    };
    assert(text@ =~= seq![digit_char(digit)]);
    text
}

/// Appends the characters of a run of digits.
fn append_digits(out: &mut String, digits: &Vec<u8>)
    ensures
        final(out)@ == old(out)@ + digit_chars(digits@),
{
    let mut index: usize = 0;
    while index < digits.len()
        invariant
            index <= digits.len(),
            out@ == old(out)@ + digit_chars(digits@.subrange(0, index as int)),
        decreases digits.len() - index,
    {
        out.append(digit_text(digits[index]));
        index += 1;
        assert(out@ =~= old(out)@ + digit_chars(digits@.subrange(0, index as int)));
    }
    assert(digits@.subrange(0, index as int) =~= digits@);
}

/// The decimal digits of a natural number, most significant first.
pub fn decimal_digits(n: u64) -> (digits: Vec<u8>)
    ensures
        digits@ == digits_of(n as nat),
{
    let mut rest: u64 = n / 10;
    let mut digits: Vec<u8> = Vec::new();
    digits.push((n % 10) as u8);
    assert(digits@ =~= seq![(n % 10) as u8]);
    while rest > 0
        invariant
            digits_of(n as nat) == if rest > 0 {
                digits_of(rest as nat) + digits@
            } else {
                digits@
            },
        decreases rest,
    {
        let ghost before = digits@;
        digits.insert(0, (rest % 10) as u8);
        proof {
            if rest < 10 {
                assert(digits@ =~= digits_of(rest as nat) + before);
            } else {
                assert(digits_of((rest / 10) as nat) + digits@ =~= digits_of(rest as nat)
                    + before);
            }
        }
        rest = rest / 10;
    }
    digits
}

/// The decimal text of a natural number.
pub fn decimal_text(n: u64) -> (text: String)
    ensures
        text@ == digit_chars(digits_of(n as nat)),
{
    let mut text = String::new();
    append_digits(&mut text, &decimal_digits(n));
    assert(text@ =~= digit_chars(digits_of(n as nat)));
    text
}

impl Number {
    /// The number that a sign and two runs of digits denote. Digits are
    /// values from 0 to 9.
    pub fn from_digits(negative: bool, integer: Vec<u8>, fraction: Vec<u8>) -> (number: Number)
        ensures
            number@ == canonical(negative, integer@, fraction@),
    {
        let ghost integer_given = integer@;
        let ghost fraction_given = fraction@;
        let mut integer = integer;
        let mut fraction = fraction;
        let whole = if integer.len() == 0 {
            let mut zero = Vec::new();
            zero.push(0u8);
            assert(zero@ =~= seq![0u8]);
            zero
        } else {
            let mut start: usize = 0;
            while start + 1 < integer.len() && integer[start] == 0
                invariant
                    start < integer.len(),
                    leading_zeros(integer@, 0) == leading_zeros(integer@, start as int),
                decreases integer.len() - start,
            {
                start += 1;
            }
            let ghost given = integer@;
            let tail = integer.split_off(start);
            assert(tail@ =~= given.subrange(start as int, given.len() as int));
            tail
        };
        let mut end: usize = fraction.len();
        while end > 0 && fraction[end - 1] == 0
            invariant
                end <= fraction.len(),
                trailing_end(fraction@, fraction.len() as int) == trailing_end(
                    fraction@,
                    end as int,
                ),
            decreases end,
        {
            end -= 1;
        }
        fraction.truncate(end);
        let zero = whole.len() == 1 && whole[0] == 0 && fraction.len() == 0;
        proof {
            if zero {
                assert(whole@ =~= seq![0u8]);
            } else if whole@ == seq![0u8] {
                assert(whole@.len() == 1);
                assert(whole@[0] == 0u8);
            }
        }
        Number { negative: negative && !zero, integer: whole, fraction }
    }

    /// The number that an integer denotes.
    pub fn from_i32(value: i32) -> (number: Number)
        ensures
            number@ == number_of_int(value as int),
    {
        let wide: i64 = value as i64;
        let size: u64 = if wide < 0 {
            (-wide) as u64
        } else {
            wide as u64
        };
        Number { negative: value < 0, integer: decimal_digits(size), fraction: Vec::new() }
    }

    /// The number that a natural number denotes.
    pub fn from_u64(value: u64) -> (number: Number)
        ensures
            number@ == number_of_int(value as int),
    {
        Number { negative: false, integer: decimal_digits(value), fraction: Vec::new() }
    }

    /// The decimal text of the number.
    pub fn to_text(&self) -> (text: String)
        ensures
            text@ == number_text(self@),
    {
        let mut text = String::new();
        if self.negative {
            proof {
                reveal_strlit("-");
            }
            text.append("-");
        }
        assert(text@ =~= if self.negative {
            seq!['-']
        } else {
            Seq::empty()
        });
        append_digits(&mut text, &self.integer);
        if self.fraction.len() > 0 {
            proof {
                reveal_strlit(".");
            }
            let ghost before = text@;
            text.append(".");
            append_digits(&mut text, &self.fraction);
            assert(text@ =~= before + (seq!['.'] + digit_chars(self.fraction@)));
        } else {
            assert(text@ =~= text@ + Seq::<char>::empty());
        }
        text
    }

    /// The index that the number stands for, where it fits the machine's word.
    pub fn to_index(&self) -> (index: Option<usize>)
        ensures
            match index {
                Some(i) => i == number_index(self@),
                None => number_index(self@) > usize::MAX,
            },
    {
        if self.negative {
            return Some(0);
        }
        let mut total: usize = 0;
        let mut position: usize = 0;
        while position < self.integer.len()
            invariant
                !self.negative,
                position <= self.integer.len(),
                total == digits_value(self.integer@.subrange(0, position as int)),
            decreases self.integer.len() - position,
        {
            let digit = self.integer[position] as usize;
            proof {
                let longer = self.integer@.subrange(0, position as int + 1);
                assert(longer.drop_last() =~= self.integer@.subrange(0, position as int));
                assert(digits_value(longer) == total * 10 + digit);
                lemma_digits_value_grows(self.integer@, position as int + 1);
            }
            if total > (usize::MAX - digit) / 10 {
                return None;
            }
            total = total * 10 + digit;
            position += 1;
        }
        assert(self.integer@.subrange(0, position as int) =~= self.integer@);
        Some(total)
    }
}

impl Clone for Number {
    fn clone(&self) -> (copy: Number)
        ensures
            copy@ == self@,
    {
        let copy = Number {
            negative: self.negative,
            integer: self.integer.clone(),
            fraction: self.fraction.clone(),
        };
        assert(copy.integer@ =~= self.integer@);
        assert(copy.fraction@ =~= self.fraction@);
        copy
    }
}

/// What stands in the slot at `place`: `Undefined` where there is no such slot.
pub open spec fn read(slots: Seq<ValueModel>, place: Option<usize>) -> ValueModel {
    match place {
        Some(found) => if found < slots.len() {
            slots[found as int]
        } else {
            ValueModel::Undefined
        },
        None => ValueModel::Undefined,
    }
}

/// The value that stands for `value` once resolved: what stands in the slot
/// of an expression, and any other value itself.
pub open spec fn resolved_model(value: ValueModel, slots: Seq<ValueModel>) -> ValueModel {
    match value {
        ValueModel::Expression(place, _) => read(slots, place),
        _ => value,
    }
}

/// The text that a value is written as: a string, a number or a boolean
/// literally, an expression as what stands in its slot, and anything else as
/// `[OBJECT]`. Slots are followed `steps` times at most.
pub open spec fn display(value: ValueModel, slots: Seq<ValueModel>, steps: nat) -> Seq<char>
    decreases steps,
{
    match value {
        ValueModel::String(text) => text,
        ValueModel::Number(number) => number_text(number),
        ValueModel::Boolean(flag) => if flag {
            "true"@
        } else {
            "false"@
        },
        ValueModel::Expression(place, _) => if steps > 0 {
            display(read(slots, place), slots, (steps - 1) as nat)
        } else {
            "[OBJECT]"@
        },
        _ => "[OBJECT]"@,
    }
}

/// The text that a value is written as, with slots followed as often as there are slots.
pub open spec fn shown(value: ValueModel, slots: Seq<ValueModel>) -> Seq<char> {
    display(value, slots, slots.len())
}

/// One step down a path: a string key into a hash, a number into an array.
pub open spec fn step_into(value: ValueModel, key: ValueModel) -> Option<ValueModel> {
    match (value, key) {
        (ValueModel::Hash(entries), ValueModel::String(name)) => lookup(entries, name),
        (ValueModel::Array(items), ValueModel::Number(number)) => if number_index(number)
            < items.len() {
            Some(items[number_index(number) as int])
        } else {
            None
        },
        _ => None,
    }
}

/// The value reached from `value` along `path`, from its index `from` on.
pub open spec fn deep_get_from(value: ValueModel, path: Seq<ValueModel>, from: int) -> Option<
    ValueModel,
>
    decreases path.len() - from,
{
    if from < 0 || from >= path.len() {
        Some(value)
    } else {
        match step_into(value, path[from]) {
            Some(next) => deep_get_from(next, path, from + 1),
            None => None,
        }
    }
}

/// Copies of a list of values.
fn duplicate_values(items: &Vec<Value>) -> (copies: Vec<Value>)
    ensures
        values_model(copies@) == values_model(items@),
    decreases items,
{
    let mut copies: Vec<Value> = Vec::new();
    let mut index: usize = 0;
    while index < items.len()
        invariant
            index <= items.len(),
            copies.len() == index,
            forall|k: int| 0 <= k < index ==> (#[trigger] copies@[k]).model() == items@[k].model(),
        decreases items.len() - index,
    {
        let copy = items[index].duplicate();
        copies.push(copy);
        index += 1;
    }
    assert(values_model(copies@) =~= values_model(items@));
    copies
}

/// Copies of a list of entries.
fn duplicate_entries(items: &Vec<(String, Value)>) -> (copies: Vec<(String, Value)>)
    ensures
        entries_model(copies@) == entries_model(items@),
    decreases items,
{
    let mut copies: Vec<(String, Value)> = Vec::new();
    let mut index: usize = 0;
    while index < items.len()
        invariant
            index <= items.len(),
            copies.len() == index,
            forall|k: int|
                0 <= k < index ==> (#[trigger] copies@[k]).0@ == items@[k].0@ && copies@[k].1.model()
                    == items@[k].1.model(),
        decreases items.len() - index,
    {
        let key = items[index].0.clone();
        let copy = items[index].1.duplicate();
        copies.push((key, copy));
        index += 1;
    }
    assert(entries_model(copies@) =~= entries_model(items@));
    copies
}

impl Attributes {
    /// A copy that holds the same entries.
    pub fn duplicate(&self) -> (copy: Attributes)
        ensures
            copy@ == self@,
        decreases self,
    {
        Attributes { entries: duplicate_entries(&self.entries) }
    }
}

impl Expression {
    /// A copy that holds the same expression.
    pub fn duplicate(&self) -> (copy: Expression)
        ensures
            copy@ == self@,
        decreases self,
    {
        match self {
            Expression::Variable(prefix, path) => Expression::Variable(
                *prefix,
                duplicate_values(path),
            ),
            Expression::Function(name, parameters) => Expression::Function(
                name.clone(),
                parameters.duplicate(),
            ),
        }
    }
}

impl Value {
    /// The value that holds `expression`, without a slot yet.
    pub fn from_expression(expression: Expression) -> (value: Value)
        ensures
            value@ == ValueModel::Expression(None, expression@),
    {
        Value::Expression(None, expression)
    }

    /// Whether the value is an expression.
    pub fn is_expression(&self) -> (found: bool)
        ensures
            found == self@ is Expression,
    {
        match self {
            Value::Expression(_, _) => true,
            _ => false,
        }
    }

    /// Whether the value is a call of a function.
    pub fn is_call(&self) -> (found: bool)
        ensures
            found == (self@ is Expression && self@->Expression_1 is Function),
    {
        proof {
            reveal_with_fuel(Value::model, 2);
            reveal_with_fuel(Expression::model, 2);
        }
        match self {
            Value::Expression(_, expression) => match expression {
                Expression::Function(_, _) => true,
                Expression::Variable(_, _) => false,
            },
            _ => false,
        }
    }

    /// A copy that holds the same value; a copy of an expression holds the same slot.
    pub fn duplicate(&self) -> (copy: Value)
        ensures
            copy@ == self@,
        decreases self,
    {
        match self {
            Value::Hash(attributes) => Value::Hash(attributes.duplicate()),
            Value::Array(items) => Value::Array(duplicate_values(items)),
            Value::String(text) => Value::String(text.clone()),
            Value::Number(number) => Value::Number(number.clone()),
            Value::Boolean(flag) => Value::Boolean(*flag),
            Value::Expression(place, expression) => Value::Expression(
                *place,
                expression.duplicate(),
            ),
            Value::Undefined => Value::Undefined,
            Value::Null => Value::Null,
        }
    }

    /// The value that stands for this one once resolved: what stands in the
    /// slot of an expression, and any other value itself. Nothing stands for `Undefined`.
    pub fn settled<'a>(&'a self, slots: &'a Slots) -> (value: Option<&'a Value>)
        ensures
            match value {
                Some(found) => found@ == resolved_model(self@, slots@) && *found
                    == self.settled_value(slots),
                None => resolved_model(self@, slots@) == ValueModel::Undefined
                    && self.settled_value(slots) == Value::Undefined,
            },
    {
        match self {
            Value::Expression(place, _) => slots.read(*place),
            _ => Some(self),
        }
    }

    /// What stands in the slot of an expression, and any other value itself.
    pub open spec fn settled_value(&self, slots: &Slots) -> Value {
        match self {
            Value::Expression(Some(place), _) => if *place < slots.values@.len() {
                slots.values@[*place as int]
            } else {
                Value::Undefined
            },
            Value::Expression(None, _) => Value::Undefined,
            _ => *self,
        }
    }

    /// What `read` makes of the value that stands for this one once resolved.
    pub fn resolved<T, F: Fn(&Value) -> T>(&self, slots: &Slots, read: F) -> (result: T)
        requires
            call_requires(read, (&self.settled_value(slots),)),
        ensures
            call_ensures(read, (&self.settled_value(slots),), result),
    {
        match self.settled(slots) {
            Some(found) => read(found),
            None => {
                let undefined = Value::Undefined;
                read(&undefined)
            },
        }
    }

    /// The text that this value is written as, with slots followed `steps` times at most.
    pub fn to_text_within(&self, slots: &Slots, steps: usize) -> (text: String)
        ensures
            text@ == display(self@, slots@, steps as nat),
        decreases steps,
    {
        proof {
            reveal_with_fuel(display, 2);
        }
        match self {
            Value::String(value) => value.clone(),
            Value::Number(number) => number.to_text(),
            Value::Boolean(flag) => if *flag {
                String::from_str("true")
            } else {
                String::from_str("false")
            },
            Value::Expression(place, _) => {
                if steps > 0 {
                    match slots.read(*place) {
                        Some(found) => found.to_text_within(slots, steps - 1),
                        None => String::from_str("[OBJECT]"),
                    }
                } else {
                    String::from_str("[OBJECT]")
                }
            },
            _ => String::from_str("[OBJECT]"),
        }
    }

    /// The text that this value is written as: a string, a number or a
    /// boolean literally, an expression as what stands in its slot, and
    /// anything else as `[OBJECT]`.
    pub fn to_text(&self, slots: &Slots) -> (text: String)
        ensures
            text@ == shown(self@, slots@),
    {
        self.to_text_within(slots, slots.len())
    }

    /// One step down a path.
    pub fn step(&self, key: &Value) -> (next: Option<&Value>)
        ensures
            match next {
                Some(found) => step_into(self@, key@) == Some(found@),
                None => step_into(self@, key@) is None,
            },
    {
        match self {
            Value::Hash(attributes) => match key {
                Value::String(name) => attributes.get(name.as_str()),
                _ => None,
            },
            Value::Array(items) => match key {
                Value::Number(number) => {
                    assert(values_model(items@).len() == items.len());
                    match number.to_index() {
                        Some(index) => if index < items.len() {
                            assert(values_model(items@)[index as int] == items@[index as int]@);
                            Some(&items[index])
                        } else {
                            None
                        },
                        None => None,
                    }
                },
                _ => None,
            },
            _ => None,
        }
    }

    /// The value reached along `path`: each string key looks into a hash,
    /// each number into an array; anything else along the way yields nothing.
    pub fn deep_get(&self, path: &[Value]) -> (value: Option<&Value>)
        ensures
            match value {
                Some(found) => deep_get_from(self@, values_model(path@), 0) == Some(found@),
                None => deep_get_from(self@, values_model(path@), 0) is None,
            },
    {
        self.deep_get_at(path, 0)
    }

    /// The value reached along `path` from its step `from` on.
    pub fn deep_get_at(&self, path: &[Value], from: usize) -> (value: Option<&Value>)
        ensures
            match value {
                Some(found) => deep_get_from(self@, values_model(path@), from as int) == Some(
                    found@,
                ),
                None => deep_get_from(self@, values_model(path@), from as int) is None,
            },
    {
        let mut current: &Value = self;
        let mut index: usize = from;
        while index < path.len()
            invariant
                from <= index,
                deep_get_from(self@, values_model(path@), from as int) == deep_get_from(
                    current@,
                    values_model(path@),
                    index as int,
                ),
            decreases path.len() - index,
        {
            match current.step(&path[index]) {
                Some(next) => {
                    current = next;
                },
                None => {
                    return None;
                },
            }
            index += 1;
        }
        Some(current)
    }
}

impl Clone for Value {
    fn clone(&self) -> (copy: Value)
        ensures
            copy@ == self@,
    {
        self.duplicate()
    }
}

impl Clone for Expression {
    fn clone(&self) -> (copy: Expression)
        ensures
            copy@ == self@,
    {
        self.duplicate()
    }
}

impl Clone for Attributes {
    fn clone(&self) -> (copy: Attributes)
        ensures
            copy@ == self@,
    {
        self.duplicate()
    }
}

/// Whether two lists hold the same values, place by place.
pub open spec fn same_values(left: Seq<ValueModel>, right: Seq<ValueModel>) -> bool
    decreases left,
{
    left.len() == right.len() && forall|i: int|
        0 <= i < left.len() ==> same_value(#[trigger] left[i], right[i])
}

/// Whether two mappings map the same keys to the same values, in whatever
/// order their entries stand.
pub open spec fn same_entries(left: AttributesModel, right: AttributesModel) -> bool
    decreases left,
{
    (forall|i: int|
        0 <= i < left.len() && find_key(left, (#[trigger] left[i]).0, 0) == i ==> find_key(
            right,
            left[i].0,
            0,
        ) < right.len() && same_value(left[i].1, right[find_key(right, left[i].0, 0)].1))
        && (forall|j: int|
        0 <= j < right.len() ==> find_key(left, (#[trigger] right[j]).0, 0) < left.len())
}

/// Whether two expressions are the same.
pub open spec fn same_expression(left: ExpressionModel, right: ExpressionModel) -> bool
    decreases left,
{
    match left {
        ExpressionModel::Variable(prefix, path) => match right {
            ExpressionModel::Variable(other, steps) => prefix == other && same_values(path, steps),
            _ => false,
        },
        ExpressionModel::Function(name, parameters) => match right {
            ExpressionModel::Function(other, given) => name == other && same_entries(
                parameters,
                given,
            ),
            _ => false,
        },
    }
}

/// Whether two values are the same: of the same kind, with the same
/// content, where mappings are compared without regard to the order of
/// their entries, and expressions are the same where they hold the same
/// slot and the same expression.
pub open spec fn same_value(left: ValueModel, right: ValueModel) -> bool
    decreases left,
{
    match left {
        ValueModel::Hash(entries) => match right {
            ValueModel::Hash(other) => same_entries(entries, other),
            _ => false,
        },
        ValueModel::Array(items) => match right {
            ValueModel::Array(other) => same_values(items, other),
            _ => false,
        },
        ValueModel::String(text) => right == ValueModel::String(text),
        ValueModel::Number(number) => match right {
            ValueModel::Number(other) => number.negative == other.negative && number.integer
                == other.integer && number.fraction == other.fraction,
            _ => false,
        },
        ValueModel::Boolean(flag) => right == ValueModel::Boolean(flag),
        ValueModel::Expression(place, expression) => match right {
            ValueModel::Expression(other_place, other) => place == other_place
                && same_expression(expression, other),
            _ => false,
        },
        ValueModel::Undefined => right is Undefined,
        ValueModel::Null => right is Null,
    }
}

/// Whether two runs of digits are the same.
fn same_digits(left: &Vec<u8>, right: &Vec<u8>) -> (same: bool)
    ensures
        same == (left@ == right@),
{
    if left.len() != right.len() {
        return false;
    }
    let mut index: usize = 0;
    while index < left.len()
        invariant
            index <= left.len(),
            left.len() == right.len(),
            forall|k: int| 0 <= k < index ==> left@[k] == right@[k],
        decreases left.len() - index,
    {
        if left[index] != right[index] {
            return false;
        }
        index += 1;
    }
    assert(left@ =~= right@);
    true
}

impl Number {
    /// Whether two numbers have the same sign and digits.
    pub fn same(&self, other: &Number) -> (same: bool)
        ensures
            same == (self@.negative == other@.negative && self@.integer == other@.integer
                && self@.fraction == other@.fraction),
    {
        self.negative == other.negative && same_digits(&self.integer, &other.integer)
            && same_digits(&self.fraction, &other.fraction)
    }
}

/// Whether two lists hold the same values, place by place.
fn same_list(left: &Vec<Value>, right: &Vec<Value>) -> (same: bool)
    ensures
        same == same_values(values_model(left@), values_model(right@)),
    decreases left,
{
    if left.len() != right.len() {
        return false;
    }
    let mut index: usize = 0;
    while index < left.len()
        invariant
            index <= left.len(),
            left.len() == right.len(),
            forall|k: int|
                0 <= k < index ==> same_value(
                    #[trigger] values_model(left@)[k],
                    values_model(right@)[k],
                ),
        decreases left.len() - index,
    {
        if !left[index].same(&right[index]) {
            assert(!same_value(
                values_model(left@)[index as int],
                values_model(right@)[index as int],
            ));
            return false;
        }
        index += 1;
    }
    true
}

/// Whether two lists of entries map the same keys to the same values.
fn same_map(left: &Attributes, right: &Attributes) -> (same: bool)
    ensures
        same == same_entries(left@, right@),
    decreases left,
{
    let mut index: usize = 0;
    while index < left.entries.len()
        invariant
            index <= left.entries.len(),
            left@.len() == left.entries.len(),
            forall|i: int|
                0 <= i < index && find_key(left@, (#[trigger] left@[i]).0, 0) == i ==> find_key(
                    right@,
                    left@[i].0,
                    0,
                ) < right@.len() && same_value(
                    left@[i].1,
                    right@[find_key(right@, left@[i].0, 0)].1,
                ),
        decreases left.entries.len() - index,
    {
        let key = left.entries[index].0.as_str();
        assert(left@[index as int] == (left.entries@[index as int].0@, left.entries@[index as int].1@));
        if left.position(key) == index {
            match right.get(key) {
                Some(value) => {
                    assert(right@[find_key(right@, key@, 0)].1 == value@);
                    if !left.entries[index].1.same(value) {
                        return false;
                    }
                },
                None => {
                    return false;
                },
            }
        }
        index += 1;
    }
    let mut other: usize = 0;
    while other < right.entries.len()
        invariant
            other <= right.entries.len(),
            right@.len() == right.entries.len(),
            forall|i: int|
                0 <= i < left@.len() && find_key(left@, (#[trigger] left@[i]).0, 0) == i
                    ==> find_key(right@, left@[i].0, 0) < right@.len() && same_value(
                    left@[i].1,
                    right@[find_key(right@, left@[i].0, 0)].1,
                ),
            forall|j: int|
                0 <= j < other ==> find_key(left@, (#[trigger] right@[j]).0, 0) < left@.len(),
        decreases right.entries.len() - other,
    {
        let key = right.entries[other].0.as_str();
        assert(right@[other as int] == (
            right.entries@[other as int].0@,
            right.entries@[other as int].1@,
        ));
        if left.position(key) >= left.entries.len() {
            return false;
        }
        other += 1;
    }
    true
}

impl Attributes {
    /// Whether two mappings map the same keys to the same values.
    pub fn same(&self, other: &Attributes) -> (same: bool)
        ensures
            same == same_entries(self@, other@),
        decreases self,
    {
        same_map(self, other)
    }
}

impl Expression {
    /// Whether two expressions are the same.
    pub fn same(&self, other: &Expression) -> (same: bool)
        ensures
            same == same_expression(self@, other@),
        decreases self,
    {
        match self {
            Expression::Variable(prefix, path) => match other {
                Expression::Variable(other_prefix, steps) => *prefix == *other_prefix && same_list(
                    path,
                    steps,
                ),
                _ => false,
            },
            Expression::Function(name, parameters) => match other {
                Expression::Function(other_name, given) => same_text(
                    name.as_str(),
                    other_name.as_str(),
                ) && same_map(parameters, given),
                _ => false,
            },
        }
    }
}

/// Whether two places are the same.
fn same_place(left: &Option<usize>, right: &Option<usize>) -> (same: bool)
    ensures
        same == (*left == *right),
{
    match left {
        Some(place) => match right {
            Some(other) => *place == *other,
            None => false,
        },
        None => right.is_none(),
    }
}

impl Value {
    /// Whether two values are the same.
    pub fn same(&self, other: &Value) -> (same: bool)
        ensures
            same == same_value(self@, other@),
        decreases self,
    {
        match self {
            Value::Hash(entries) => match other {
                Value::Hash(held) => same_map(entries, held),
                _ => false,
            },
            Value::Array(items) => match other {
                Value::Array(held) => same_list(items, held),
                _ => false,
            },
            Value::String(text) => match other {
                Value::String(held) => same_text(text.as_str(), held.as_str()),
                _ => false,
            },
            Value::Number(number) => match other {
                Value::Number(held) => number.same(held),
                _ => false,
            },
            Value::Boolean(flag) => match other {
                Value::Boolean(held) => *flag == *held,
                _ => false,
            },
            Value::Expression(place, expression) => match other {
                Value::Expression(held_place, held) => same_place(place, held_place)
                    && expression.same(held),
                _ => false,
            },
            Value::Undefined => match other {
                Value::Undefined => true,
                _ => false,
            },
            Value::Null => match other {
                Value::Null => true,
                _ => false,
            },
        }
    }
}

impl PartialEq for Number {
    fn eq(&self, other: &Number) -> (same: bool) {
        self.same(other)
    }
}

impl vstd::std_specs::cmp::PartialEqSpecImpl for Number {
    open spec fn obeys_eq_spec() -> bool {
        true
    }

    open spec fn eq_spec(&self, other: &Number) -> bool {
        self@.negative == other@.negative && self@.integer == other@.integer && self@.fraction
            == other@.fraction
    }
}

impl PartialEq for Attributes {
    fn eq(&self, other: &Attributes) -> (same: bool) {
        self.same(other)
    }
}

impl vstd::std_specs::cmp::PartialEqSpecImpl for Attributes {
    open spec fn obeys_eq_spec() -> bool {
        true
    }

    open spec fn eq_spec(&self, other: &Attributes) -> bool {
        same_entries(self@, other@)
    }
}

impl PartialEq for Expression {
    fn eq(&self, other: &Expression) -> (same: bool) {
        self.same(other)
    }
}

impl vstd::std_specs::cmp::PartialEqSpecImpl for Expression {
    open spec fn obeys_eq_spec() -> bool {
        true
    }

    open spec fn eq_spec(&self, other: &Expression) -> bool {
        same_expression(self@, other@)
    }
}

impl PartialEq for Value {
    fn eq(&self, other: &Value) -> (same: bool) {
        self.same(other)
    }
}

impl vstd::std_specs::cmp::PartialEqSpecImpl for Value {
    open spec fn obeys_eq_spec() -> bool {
        true
    }

    open spec fn eq_spec(&self, other: &Value) -> bool {
        same_value(self@, other@)
    }
}

impl From<String> for Value {
    fn from(value: String) -> (made: Value)
        ensures
            made@ == ValueModel::String(value@),
    {
        Value::String(value)
    }
}

impl vstd::std_specs::convert::FromSpecImpl<String> for Value {
    open spec fn obeys_from_spec() -> bool {
        true
    }

    open spec fn from_spec(value: String) -> Value {
        Value::String(value)
    }
}

impl<'a> From<&'a str> for Value {
    fn from(value: &'a str) -> (made: Value)
        ensures
            made@ == ValueModel::String(value@),
    {
        Value::String(String::from_str(value))
    }
}

impl<'a> vstd::std_specs::convert::FromSpecImpl<&'a str> for Value {
    open spec fn obeys_from_spec() -> bool {
        false
    }

    open spec fn from_spec(value: &'a str) -> Value {
        Value::Undefined
    }
}

impl From<bool> for Value {
    fn from(value: bool) -> (made: Value)
        ensures
            made@ == ValueModel::Boolean(value),
    {
        Value::Boolean(value)
    }
}

impl vstd::std_specs::convert::FromSpecImpl<bool> for Value {
    open spec fn obeys_from_spec() -> bool {
        true
    }

    open spec fn from_spec(value: bool) -> Value {
        Value::Boolean(value)
    }
}

impl From<i32> for Value {
    fn from(value: i32) -> (made: Value)
        ensures
            made@ == ValueModel::Number(number_of_int(value as int)),
    {
        Value::Number(Number::from_i32(value))
    }
}

impl vstd::std_specs::convert::FromSpecImpl<i32> for Value {
    open spec fn obeys_from_spec() -> bool {
        false
    }

    open spec fn from_spec(value: i32) -> Value {
        Value::Undefined
    }
}

impl From<Vec<Value>> for Value {
    fn from(value: Vec<Value>) -> (made: Value)
        ensures
            made@ == ValueModel::Array(values_model(value@)),
    {
        Value::Array(value)
    }
}

impl vstd::std_specs::convert::FromSpecImpl<Vec<Value>> for Value {
    open spec fn obeys_from_spec() -> bool {
        true
    }

    open spec fn from_spec(value: Vec<Value>) -> Value {
        Value::Array(value)
    }
}

impl From<Attributes> for Value {
    fn from(value: Attributes) -> (made: Value)
        ensures
            made@ == ValueModel::Hash(value@),
    {
        Value::Hash(value)
    }
}

impl vstd::std_specs::convert::FromSpecImpl<Attributes> for Value {
    open spec fn obeys_from_spec() -> bool {
        true
    }

    open spec fn from_spec(value: Attributes) -> Value {
        Value::Hash(value)
    }
}

impl From<Expression> for Value {
    fn from(value: Expression) -> (made: Value)
        ensures
            made@ == ValueModel::Expression(None, value@),
    {
        Value::from_expression(value)
    }
}

impl vstd::std_specs::convert::FromSpecImpl<Expression> for Value {
    open spec fn obeys_from_spec() -> bool {
        false
    }

    open spec fn from_spec(value: Expression) -> Value {
        Value::Undefined
    }
}

impl From<Vec<(String, Value)>> for Attributes {
    fn from(entries: Vec<(String, Value)>) -> (made: Attributes)
        ensures
            made@ == extended(Seq::empty(), entries_model(entries@)),
            unique_keys(made@),
    {
        let mut made = Attributes::new();
        made.extend(Attributes { entries });
        made
    }
}

impl vstd::std_specs::convert::FromSpecImpl<Vec<(String, Value)>> for Attributes {
    open spec fn obeys_from_spec() -> bool {
        false
    }

    open spec fn from_spec(entries: Vec<(String, Value)>) -> Attributes {
        Attributes { entries }
    }
}

} // verus!
