//! The grammar of embedded tags: `{% name ... %}`, `{% /name %}`,
//! `{% key=value ... %}`, and the values that they hold.
//!
//! The grammar is defined on the UTF-8 bytes of a tag's text. Each rule is a
//! specification function from a position to what it recognizes there and
//! where that ends; the parsing functions are proved to compute them.
//!
//! ```text
//! tag        = open | close | annotation | shown          (the first that fits)
//! open       = "{%" _ name [__ primary] [__ attributes] _ ["/"] "%}"
//! close      = "{%" _ "/" name _ "%}"
//! annotation = "{%" _ attributes _ "%}"
//! shown      = "{%" _ (call | variable) _ "%}"
//! attributes = attribute (__ attribute)*
//! attribute  = "#" name | "." name | name "=" value
//! primary    = value                                      (that is no attribute)
//! value      = string | array | hash | number | call | "null" | "true" | "false"
//!            | name | variable
//! string     = '"' (any byte but '"')* '"'
//! number     = ["-"] digit+ ["." digit+]                  (where no more of a name follows)
//! array      = "[" _ [value (_ "," _ value)* [_ ","]] _ "]"
//! hash       = "{" _ [entry (_ "," _ entry)* [_ ","]] _ "}"
//! entry      = (name | string) _ ":" _ value
//! call       = name "(" _ [parameter (_ "," _ parameter)* [_ ","]] _ ")"
//! parameter  = [name "="] value
//! variable   = prefix name ("." name | "[" (number | string) "]")*
//! prefix     = an ASCII byte that is neither white space nor part of a name
//! name       = (letter | digit | "-" | "_")+
//! _          = white space, or nothing;  __ = white space
//! ```

use crate::model::value::{
    canonical, decimal_text, digit_chars, digits_of, extended, inserted, keyed, keyed_entries,
    keyed_values, same_entries, same_value,
    values_model, Attributes, AttributesModel, Expression,
    ExpressionModel, Number, NumberModel, Value, ValueModel,
};
use crate::text::{same_text, slice, text_between};
use vstd::prelude::*;
use vstd::string::*;

verus! {

/// What the grammar recognizes in a tag's text.
#[derive(Debug)]
pub enum Tag {
    /// `{% name ... /%}`: a tag without content.
    Standalone(String, Option<Attributes>),
    /// `{% name ... %}`: the opening of a tag.
    Open(String, Option<Attributes>),
    /// `{% /name %}`: the closing of a tag.
    Close(String),
    /// `{% key=value ... %}`: attributes for the element that it follows.
    Annotation(Attributes),
    /// `{% $variable %}` or `{% function(...) %}`: a value to show.
    Value(Value),
    /// Text that has none of these forms.
    Error(SyntaxError),
}

/// The text of a tag that the grammar does not recognize.
#[derive(Debug)]
pub struct SyntaxError {
    pub text: String,
}

impl SyntaxError {
    /// The message that reports the text.
    pub fn message(&self) -> (message: String)
        ensures
            message@ == syntax_message(self.text@),
    {
        let mut message = String::from_str("Syntax error in tag '");
        message.append(self.text.as_str());
        message.append("'");
        message
    }
}

/// The message that reports a text that the grammar does not recognize.
pub open spec fn syntax_message(text: Seq<char>) -> Seq<char> {
    "Syntax error in tag '"@ + text + "'"@
}

/// What a `Tag` holds.
pub enum TagModel {
    Standalone(Seq<char>, Option<AttributesModel>),
    Open(Seq<char>, Option<AttributesModel>),
    Close(Seq<char>),
    Annotation(AttributesModel),
    Value(ValueModel),
    Error(Seq<char>),
}

impl View for Tag {
    type V = TagModel;

    open spec fn view(&self) -> TagModel {
        match self {
            Tag::Standalone(name, attributes) => TagModel::Standalone(
                name@,
                match attributes {
                    Some(found) => Some(found@),
                    None => None,
                },
            ),
            Tag::Open(name, attributes) => TagModel::Open(
                name@,
                match attributes {
                    Some(found) => Some(found@),
                    None => None,
                },
            ),
            Tag::Close(name) => TagModel::Close(name@),
            Tag::Annotation(attributes) => TagModel::Annotation(attributes@),
            Tag::Value(value) => TagModel::Value(value@),
            Tag::Error(error) => TagModel::Error(error.text@),
        }
    }
}

/// The classes of bytes that the grammar scans runs of.
#[derive(Clone, Copy, Debug, PartialEq, Eq)]
pub enum Class {
    /// Space, tab, line feed, carriage return.
    Space,
    /// ASCII letters and digits, `-` and `_`.
    Identifier,
    /// ASCII digits.
    Digit,
}

/// Whether a byte is a space, a tab, a line feed or a carriage return.
pub open spec fn is_space(byte: u8) -> bool {
    byte == 0x20 || byte == 0x09 || byte == 0x0a || byte == 0x0d
}

/// Whether a byte is an ASCII digit.
pub open spec fn is_digit(byte: u8) -> bool {
    0x30 <= byte <= 0x39
}

/// Whether a byte is an ASCII letter or digit.
pub open spec fn is_alphanumeric(byte: u8) -> bool {
    is_digit(byte) || (0x41 <= byte <= 0x5a) || (0x61 <= byte <= 0x7a)
}

/// Whether a byte may stand in an identifier: an ASCII letter or digit, `-` or `_`.
pub open spec fn is_identifier(byte: u8) -> bool {
    is_alphanumeric(byte) || byte == 0x2d || byte == 0x5f
}

/// Whether a byte belongs to a class.
pub open spec fn in_class(byte: u8, class: Class) -> bool {
    match class {
        Class::Space => is_space(byte),
        Class::Identifier => is_identifier(byte),
        Class::Digit => is_digit(byte),
    }
}

/// The number of bytes from `pos` to the end.
pub open spec fn remaining(s: Seq<u8>, pos: int) -> nat {
    if pos <= s.len() {
        (s.len() - pos) as nat
    } else {
        0
    }
}

/// The number of bytes of `class` that stand in a row at `pos`.
pub open spec fn run_length(s: Seq<u8>, pos: int, class: Class) -> nat
    decreases s.len() - pos,
{
    if 0 <= pos < s.len() && in_class(s[pos], class) {
        1 + run_length(s, pos + 1, class)
    } else {
        0
    }
}

/// The position after the run of bytes of `class` at `pos`.
pub open spec fn run_end(s: Seq<u8>, pos: int, class: Class) -> int {
    pos + run_length(s, pos, class)
}

/// The position after the white space at `pos`.
pub open spec fn skip_space(s: Seq<u8>, pos: int) -> int {
    run_end(s, pos, Class::Space)
}

/// Whether the byte at `pos` is `byte`.
pub open spec fn is_byte(s: Seq<u8>, pos: int, byte: u8) -> bool {
    0 <= pos < s.len() && s[pos] == byte
}

/// The number of bytes from `pos` to the next `byte`, or to the end.
pub open spec fn distance_to(s: Seq<u8>, pos: int, byte: u8) -> nat
    decreases s.len() - pos,
{
    if 0 <= pos < s.len() && s[pos] != byte {
        1 + distance_to(s, pos + 1, byte)
    } else {
        0
    }
}

/// A string literal at `pos`: `"`, any bytes but `"`, and `"`. Gives the
/// text between the quotes and the number of bytes of the literal.
#[verifier::opaque]
pub open spec fn string_at(s: Seq<u8>, pos: int) -> Option<(Seq<char>, nat)> {
    let close = pos + 1 + distance_to(s, pos + 1, 0x22);
    if is_byte(s, pos, 0x22) && is_byte(s, close, 0x22) {
        Some((text_between(s, pos + 1, close), (close + 1 - pos) as nat))
    } else {
        None
    }
}

/// The digits that the bytes from `from` to `to` stand for.
pub open spec fn digit_values(s: Seq<u8>, from: int, to: int) -> Seq<u8> {
    Seq::new(
        if to >= from {
            (to - from) as nat
        } else {
            0
        },
        |i: int| (s[from + i] - 0x30) as u8,
    )
}

/// A number literal at `pos`: an optional `-`, digits, and optionally `.` and
/// digits. Gives the number and the number of bytes of the literal.
#[verifier::opaque]
pub open spec fn number_at(s: Seq<u8>, pos: int) -> Option<(NumberModel, nat)> {
    let negative = is_byte(s, pos, 0x2d);
    let start = if negative {
        pos + 1
    } else {
        pos
    };
    let whole = run_end(s, start, Class::Digit);
    let part = run_end(s, whole + 1, Class::Digit);
    if whole == start {
        None
    } else if is_byte(s, whole, 0x2e) && part > whole + 1 {
        Some(
            (
                canonical(negative, digit_values(s, start, whole), digit_values(s, whole + 1, part)),
                (part - pos) as nat,
            ),
        )
    } else {
        Some(
            (canonical(negative, digit_values(s, start, whole), Seq::empty()), (whole - pos) as nat),
        )
    }
}

/// The number of bytes of the number literal at `pos`, and 0 where there is none.
pub open spec fn number_length(s: Seq<u8>, pos: int) -> nat {
    match number_at(s, pos) {
        Some((_, length)) => length,
        None => 0,
    }
}

/// The steps of a variable's path that follow at `pos`, added to `path`:
/// `.name` adds a string, `[number]` a number and `["text"]` a string.
/// Gives the whole path and the number of bytes of the steps.
#[verifier::opaque]
pub open spec fn path_at(s: Seq<u8>, pos: int, path: Seq<ValueModel>) -> (Seq<ValueModel>, nat)
    decreases remaining(s, pos),
{
    let name_end = run_end(s, pos + 1, Class::Identifier);
    if is_byte(s, pos, 0x2e) && name_end > pos + 1 {
        let rest = path_at(
            s,
            name_end,
            path.push(ValueModel::String(text_between(s, pos + 1, name_end))),
        );
        (rest.0, (name_end - pos + rest.1) as nat)
    } else if is_byte(s, pos, 0x5b) {
        let key = match number_at(s, pos + 1) {
            Some((number, length)) => Some((ValueModel::Number(number), length)),
            None => match string_at(s, pos + 1) {
                Some((text, length)) => Some((ValueModel::String(text), length)),
                None => None,
            },
        };
        match key {
            Some((value, length)) => if is_byte(s, pos + 1 + length, 0x5d) {
                let rest = path_at(s, pos + 2 + length, path.push(value));
                (rest.0, (2 + length + rest.1) as nat)
            } else {
                (path, 0)
            },
            None => (path, 0),
        }
    } else {
        (path, 0)
    }
}

/// A variable at `pos`: a prefix byte that is ASCII and neither white space nor
/// part of an identifier, a name, and the steps of its path. The grammar
/// gives an expression no slot: `Slots::adopt` does.
#[verifier::opaque]
pub open spec fn variable_at(s: Seq<u8>, pos: int) -> Option<(ValueModel, nat)> {
    let name_end = run_end(s, pos + 1, Class::Identifier);
    if 0 <= pos < s.len() && s[pos] < 0x80 && !is_identifier(s[pos]) && !is_space(s[pos])
        && name_end > pos + 1 {
        let path = path_at(s, name_end, seq![ValueModel::String(text_between(s, pos + 1, name_end))]);
        Some(
            (
                ValueModel::Expression(
                    None,
                    ExpressionModel::Variable(s[pos] as char, path.0),
                ),
                (name_end - pos + path.1) as nat,
            ),
        )
    } else {
        None
    }
}

/// The key under which the parameter at `index` of a call is kept when it has no name.
pub open spec fn positional_key(index: nat) -> Seq<char> {
    digit_chars(digits_of(index))
}

/// Whether the text of the bytes from `from` to `to` is `word`.
pub open spec fn is_word(s: Seq<u8>, from: int, to: int, word: Seq<u8>) -> bool {
    0 <= from <= to <= s.len() && s.subrange(from, to) == word
}

/// A value at `pos`: a string, an array, a hash, a number, a call, `null`,
/// `true`, `false`, a bare identifier (a string), or a variable. Gives the
/// value and the number of bytes that it takes.
#[verifier::opaque]
pub open spec fn value_at(s: Seq<u8>, pos: int) -> Option<(ValueModel, nat)>
    decreases remaining(s, pos), 0int,
{
    let word_end = run_end(s, pos, Class::Identifier);
    if !(0 <= pos < s.len()) {
        None
    } else if s[pos] == 0x22 {
        match string_at(s, pos) {
            Some((text, length)) => Some((ValueModel::String(text), length)),
            None => None,
        }
    } else if s[pos] == 0x5b {
        match items_at(s, pos + 1, Seq::empty()) {
            Some((items, length)) => Some((ValueModel::Array(items), 1 + length)),
            None => None,
        }
    } else if s[pos] == 0x7b {
        match entries_at(s, pos + 1, Seq::empty()) {
            Some((entries, length)) => Some((ValueModel::Hash(entries), 1 + length)),
            None => None,
        }
    } else if is_identifier(s[pos]) {
        if number_at(s, pos) is Some && pos + number_length(s, pos) >= word_end {
            Some((ValueModel::Number(number_at(s, pos).unwrap().0), number_length(s, pos)))
        } else if is_byte(s, word_end, 0x28) {
            match parameters_at(s, word_end + 1, 0, Seq::empty()) {
                Some((parameters, length)) => Some(
                    (
                        ValueModel::Expression(
                            None,
                            ExpressionModel::Function(text_between(s, pos, word_end), parameters),
                        ),
                        (word_end - pos + 1 + length) as nat,
                    ),
                ),
                None => None,
            }
        } else if is_word(s, pos, word_end, seq![0x6eu8, 0x75, 0x6c, 0x6c]) {
            Some((ValueModel::Null, (word_end - pos) as nat))
        } else if is_word(s, pos, word_end, seq![0x74u8, 0x72, 0x75, 0x65]) {
            Some((ValueModel::Boolean(true), (word_end - pos) as nat))
        } else if is_word(s, pos, word_end, seq![0x66u8, 0x61, 0x6c, 0x73, 0x65]) {
            Some((ValueModel::Boolean(false), (word_end - pos) as nat))
        } else {
            Some((ValueModel::String(text_between(s, pos, word_end)), (word_end - pos) as nat))
        }
    } else {
        variable_at(s, pos)
    }
}

/// The items of an array from `pos` on, after its `[`, added to `items`:
/// values between commas, with white space anywhere between and a comma
/// allowed after the last, up to the `]`.
#[verifier::opaque]
pub open spec fn items_at(s: Seq<u8>, pos: int, items: Seq<ValueModel>) -> Option<
    (Seq<ValueModel>, nat),
>
    decreases remaining(s, pos), 1int,
{
    let start = skip_space(s, pos);
    if !(0 <= pos <= start < s.len()) {
        None
    } else if s[start] == 0x5d {
        Some((items, (start + 1 - pos) as nat))
    } else {
        match value_at(s, start) {
            Some((value, length)) => {
                let after = skip_space(s, start + length);
                if is_byte(s, after, 0x2c) {
                    match items_at(s, after + 1, items.push(value)) {
                        Some((all, more)) => Some((all, (after + 1 - pos + more) as nat)),
                        None => None,
                    }
                } else if is_byte(s, after, 0x5d) {
                    Some((items.push(value), (after + 1 - pos) as nat))
                } else {
                    None
                }
            },
            None => None,
        }
    }
}

/// The key of a hash entry at `pos`: an identifier or a string literal.
#[verifier::opaque]
pub open spec fn key_at(s: Seq<u8>, pos: int) -> Option<(Seq<char>, nat)> {
    let word_end = run_end(s, pos, Class::Identifier);
    if is_byte(s, pos, 0x22) {
        string_at(s, pos)
    } else if word_end > pos {
        Some((text_between(s, pos, word_end), (word_end - pos) as nat))
    } else {
        None
    }
}

/// The entries of a hash from `pos` on, after its `{`, set in `entries`:
/// `key: value` between commas, with white space anywhere between and a comma
/// allowed after the last, up to the `}`.
#[verifier::opaque]
pub open spec fn entries_at(s: Seq<u8>, pos: int, entries: AttributesModel) -> Option<
    (AttributesModel, nat),
>
    decreases remaining(s, pos), 1int,
{
    let start = skip_space(s, pos);
    if !(0 <= pos <= start < s.len()) {
        None
    } else if s[start] == 0x7d {
        Some((entries, (start + 1 - pos) as nat))
    } else {
        match key_at(s, start) {
            Some((key, key_length)) => {
                let colon = skip_space(s, start + key_length);
                let value_start = skip_space(s, colon + 1);
                if is_byte(s, colon, 0x3a) {
                    match value_at(s, value_start) {
                        Some((value, length)) => {
                            let after = skip_space(s, value_start + length);
                            if is_byte(s, after, 0x2c) {
                                match entries_at(s, after + 1, inserted(entries, key, value)) {
                                    Some((all, more)) => Some(
                                        (all, (after + 1 - pos + more) as nat),
                                    ),
                                    None => None,
                                }
                            } else if is_byte(s, after, 0x7d) {
                                Some((inserted(entries, key, value), (after + 1 - pos) as nat))
                            } else {
                                None
                            }
                        },
                        None => None,
                    }
                } else {
                    None
                }
            },
            None => None,
        }
    }
}

/// The parameters of a call from `pos` on, after its `(`, set in
/// `parameters`: `name=value` or a value between commas, up to the `)`. A
/// value without a name is kept under its index among all the parameters.
#[verifier::opaque]
pub open spec fn parameters_at(s: Seq<u8>, pos: int, index: nat, parameters: AttributesModel)
    -> Option<(AttributesModel, nat)>
    decreases remaining(s, pos), 1int,
{
    let start = skip_space(s, pos);
    let name_end = run_end(s, start, Class::Identifier);
    let named = name_end > start && is_byte(s, name_end, 0x3d);
    let value_start = if named {
        name_end + 1
    } else {
        start
    };
    let key = if named {
        text_between(s, start, name_end)
    } else {
        positional_key(index)
    };
    if !(0 <= pos <= start < s.len()) {
        None
    } else if s[start] == 0x29 {
        Some((parameters, (start + 1 - pos) as nat))
    } else {
        match value_at(s, value_start) {
            Some((value, length)) => {
                let after = skip_space(s, value_start + length);
                if is_byte(s, after, 0x2c) {
                    match parameters_at(s, after + 1, index + 1, inserted(parameters, key, value)) {
                        Some((all, more)) => Some((all, (after + 1 - pos + more) as nat)),
                        None => None,
                    }
                } else if is_byte(s, after, 0x29) {
                    Some((inserted(parameters, key, value), (after + 1 - pos) as nat))
                } else {
                    None
                }
            },
            None => None,
        }
    }
}

/// One item of a list of attributes.
pub enum ItemModel {
    /// A class name, from `.name` or `class=value`.
    Class(Seq<char>),
    /// A key and its value, from `key=value` or `#name`.
    Pair(Seq<char>, ValueModel),
}

/// The text of the value that takes `length` bytes at `pos`: what stands
/// between the quotes of a string literal, and the source text of any other.
pub open spec fn value_text(s: Seq<u8>, pos: int, length: nat) -> Seq<char> {
    if is_byte(s, pos, 0x22) {
        text_between(s, pos + 1, pos + length - 1)
    } else {
        text_between(s, pos, pos + length)
    }
}

/// An attribute at `pos`: `#name` sets `id`, `.name` names a class,
/// `class=value` names the class that the value's text spells, and
/// `key=value` sets `key`.
#[verifier::opaque]
pub open spec fn item_at(s: Seq<u8>, pos: int) -> Option<(ItemModel, nat)> {
    let name_end = run_end(s, pos + 1, Class::Identifier);
    let key_end = run_end(s, pos, Class::Identifier);
    if is_byte(s, pos, 0x23) && name_end > pos + 1 {
        Some(
            (
                ItemModel::Pair("id"@, ValueModel::String(text_between(s, pos + 1, name_end))),
                (name_end - pos) as nat,
            ),
        )
    } else if is_byte(s, pos, 0x2e) && name_end > pos + 1 {
        Some((ItemModel::Class(text_between(s, pos + 1, name_end)), (name_end - pos) as nat))
    } else if key_end > pos && is_byte(s, key_end, 0x3d) {
        match value_at(s, key_end + 1) {
            Some((value, length)) => Some(
                (
                    if is_word(s, pos, key_end, seq![0x63u8, 0x6c, 0x61, 0x73, 0x73]) {
                        ItemModel::Class(value_text(s, key_end + 1, length))
                    } else {
                        ItemModel::Pair(text_between(s, pos, key_end), value)
                    },
                    (key_end + 1 - pos + length) as nat,
                ),
            ),
            None => None,
        }
    } else {
        None
    }
}

/// The attributes once the class names are added to them: under `class`, a
/// hash that maps each name to `true`, where there is any.
pub open spec fn with_classes(attributes: AttributesModel, classes: AttributesModel)
    -> AttributesModel {
    if classes.len() > 0 {
        inserted(attributes, "class"@, ValueModel::Hash(classes))
    } else {
        attributes
    }
}

/// The attributes from `pos` on, separated by white space, set in
/// `attributes` and `classes`. Gives them with the classes added and the
/// number of bytes up to the end of the last attribute.
#[verifier::opaque]
pub open spec fn attributes_at(
    s: Seq<u8>,
    pos: int,
    attributes: AttributesModel,
    classes: AttributesModel,
) -> Option<(AttributesModel, nat)>
    decreases remaining(s, pos),
{
    match item_at(s, pos) {
        Some((item, length)) => {
            let next = skip_space(s, pos + length);
            let set = match item {
                ItemModel::Pair(key, value) => inserted(attributes, key, value),
                ItemModel::Class(_) => attributes,
            };
            let named = match item {
                ItemModel::Pair(_, _) => classes,
                ItemModel::Class(name) => inserted(classes, name, ValueModel::Boolean(true)),
            };
            if 0 <= pos < s.len() && next > pos + length && item_at(s, next) is Some {
                match attributes_at(s, next, set, named) {
                    Some((all, more)) => Some((all, (next - pos + more) as nat)),
                    None => None,
                }
            } else {
                Some((with_classes(set, named), length))
            }
        },
        None => None,
    }
}

/// Whether the text begins with `{%`.
pub open spec fn starts_tag(s: Seq<u8>) -> bool {
    is_byte(s, 0, 0x7b) && is_byte(s, 1, 0x25)
}

/// Whether `%}` stands at `pos` and ends the text.
pub open spec fn ends_tag(s: Seq<u8>, pos: int) -> bool {
    is_byte(s, pos, 0x25) && is_byte(s, pos + 1, 0x7d) && pos + 2 == s.len()
}

/// An opening or self-closing tag: `{%`, a name, optionally a primary value
/// (a value that is no attribute, kept under `primary`), optionally
/// attributes, optionally `/`, and `%}`, with white space between them.
/// A tag without any attribute has none, not an empty mapping.
pub open spec fn open_tag(s: Seq<u8>) -> Option<TagModel> {
    let name_start = skip_space(s, 2);
    let name_end = run_end(s, name_start, Class::Identifier);
    let primary_start = skip_space(s, name_end);
    let primary = if primary_start > name_end && item_at(s, primary_start) is None {
        value_at(s, primary_start)
    } else {
        None
    };
    let primary_end = match primary {
        Some((_, length)) => primary_start + length,
        None => name_end,
    };
    let attributes_start = skip_space(s, primary_end);
    let attributes = if attributes_start > primary_end {
        attributes_at(s, attributes_start, Seq::empty(), Seq::empty())
    } else {
        None
    };
    let attributes_end = match attributes {
        Some((_, length)) => attributes_start + length,
        None => primary_end,
    };
    let slash = skip_space(s, attributes_end);
    let standalone = is_byte(s, slash, 0x2f);
    let close = if standalone {
        slash + 1
    } else {
        slash
    };
    let first: AttributesModel = match primary {
        Some((value, _)) => seq![("primary"@, value)],
        None => Seq::empty(),
    };
    let all = match attributes {
        Some((found, _)) => extended(first, found),
        None => first,
    };
    let held = if all.len() == 0 {
        None
    } else {
        Some(all)
    };
    if starts_tag(s) && name_end > name_start && ends_tag(s, close) {
        if standalone {
            Some(TagModel::Standalone(text_between(s, name_start, name_end), held))
        } else {
            Some(TagModel::Open(text_between(s, name_start, name_end), held))
        }
    } else {
        None
    }
}

/// A closing tag: `{%`, `/`, a name and `%}`.
pub open spec fn close_tag(s: Seq<u8>) -> Option<TagModel> {
    let slash = skip_space(s, 2);
    let name_end = run_end(s, slash + 1, Class::Identifier);
    if starts_tag(s) && is_byte(s, slash, 0x2f) && name_end > slash + 1 && ends_tag(
        s,
        skip_space(s, name_end),
    ) {
        Some(TagModel::Close(text_between(s, slash + 1, name_end)))
    } else {
        None
    }
}

/// An annotation: `{%`, attributes and `%}`.
pub open spec fn annotation_tag(s: Seq<u8>) -> Option<TagModel> {
    let start = skip_space(s, 2);
    match attributes_at(s, start, Seq::empty(), Seq::empty()) {
        Some((attributes, length)) => if starts_tag(s) && ends_tag(
            s,
            skip_space(s, start + length),
        ) {
            Some(TagModel::Annotation(attributes))
        } else {
            None
        },
        None => None,
    }
}

/// A value to show: `{%`, a call or a variable, and `%}`.
pub open spec fn value_tag(s: Seq<u8>) -> Option<TagModel> {
    let start = skip_space(s, 2);
    match value_at(s, start) {
        Some((value, length)) => if starts_tag(s) && value is Expression && ends_tag(
            s,
            skip_space(s, start + length),
        ) {
            Some(TagModel::Value(value))
        } else {
            None
        },
        None => None,
    }
}

/// Whether every mapping that a tag holds has unique keys: its attributes,
/// and every hash and every list of parameters inside them.
pub open spec fn keyed_tag(tag: TagModel) -> bool {
    match tag {
        TagModel::Open(_, Some(attributes)) => keyed_entries(attributes),
        TagModel::Standalone(_, Some(attributes)) => keyed_entries(attributes),
        TagModel::Annotation(attributes) => keyed_entries(attributes),
        TagModel::Value(value) => keyed(value),
        _ => true,
    }
}

/// What the text of a tag is: the first of an opening or self-closing tag, a
/// closing tag, an annotation and a value that the whole text is, and an
/// error that holds the text where it is none of them.
pub open spec fn tag_of(s: Seq<u8>) -> TagModel {
    if open_tag(s) is Some {
        open_tag(s).unwrap()
    } else if close_tag(s) is Some {
        close_tag(s).unwrap()
    } else if annotation_tag(s) is Some {
        annotation_tag(s).unwrap()
    } else if value_tag(s) is Some {
        value_tag(s).unwrap()
    } else {
        TagModel::Error(text_between(s, 0, s.len() as int))
    }
}

/// The value that the whole text is, if it is one.
pub open spec fn whole_value(s: Seq<u8>) -> Option<ValueModel> {
    match value_at(s, 0) {
        Some((value, length)) => if length == s.len() {
            Some(value)
        } else {
            None
        },
        None => None,
    }
}

/// The attributes that the whole text is, if it is a list of them.
pub open spec fn whole_attributes(s: Seq<u8>) -> Option<AttributesModel> {
    match attributes_at(s, 0, Seq::empty(), Seq::empty()) {
        Some((attributes, length)) => if length == s.len() {
            Some(attributes)
        } else {
            None
        },
        None => None,
    }
}

/// Every byte of a run belongs to its class.
pub proof fn lemma_run_in_class(s: Seq<u8>, pos: int, class: Class)
    requires
        0 <= pos,
    ensures
        forall|k: int| pos <= k < run_end(s, pos, class) ==> in_class(#[trigger] s[k], class),
        pos <= run_end(s, pos, class),
        pos <= s.len() ==> run_end(s, pos, class) <= s.len(),
    decreases s.len() - pos,
{
    if pos < s.len() && in_class(s[pos], class) {
        lemma_run_in_class(s, pos + 1, class);
    }
}

/// Whether the byte at `pos` is `byte`.
fn has_byte(input: &str, pos: usize, byte: u8) -> (found: bool)
    ensures
        found == is_byte(input.spec_bytes(), pos as int, byte),
        input.spec_bytes().len() <= usize::MAX,
{
    let bytes = input.as_bytes();
    pos < bytes.len() && bytes[pos] == byte
}

/// Whether a byte belongs to a class.
fn belongs(byte: u8, class: Class) -> (found: bool)
    ensures
        found == in_class(byte, class),
{
    match class {
        Class::Space => byte == 0x20 || byte == 0x09 || byte == 0x0a || byte == 0x0d,
        Class::Identifier => (0x30 <= byte && byte <= 0x39) || (0x41 <= byte && byte <= 0x5a) || (
        0x61 <= byte && byte <= 0x7a) || byte == 0x2d || byte == 0x5f,
        Class::Digit => 0x30 <= byte && byte <= 0x39,
    }
}

/// The position after the run of bytes of `class` at `pos`.
fn scan(input: &str, pos: usize, class: Class) -> (end: usize)
    ensures
        end == run_end(input.spec_bytes(), pos as int, class),
        pos <= end,
        pos <= input.spec_bytes().len() ==> end <= input.spec_bytes().len(),
        input.spec_bytes().len() <= usize::MAX,
{
    let bytes = input.as_bytes();
    let mut end = pos;
    while end < bytes.len() && belongs(bytes[end], class)
        invariant
            bytes@ == input.spec_bytes(),
            pos <= end,
            pos <= bytes.len() ==> end <= bytes.len(),
            run_end(bytes@, pos as int, class) == run_end(bytes@, end as int, class),
        decreases bytes.len() - end,
    {
        end += 1;
    }
    end
}

/// The position of the next `byte` at or after `pos`, or the end.
fn find(input: &str, pos: usize, byte: u8) -> (end: usize)
    requires
        pos <= input.spec_bytes().len(),
    ensures
        end == pos + distance_to(input.spec_bytes(), pos as int, byte),
        pos <= end <= input.spec_bytes().len(),
{
    let bytes = input.as_bytes();
    let mut end = pos;
    while end < bytes.len() && bytes[end] != byte
        invariant
            bytes@ == input.spec_bytes(),
            pos <= end <= bytes.len(),
            pos + distance_to(bytes@, pos as int, byte) == end + distance_to(
                bytes@,
                end as int,
                byte,
            ),
        decreases bytes.len() - end,
    {
        end += 1;
    }
    end
}

/// The text of the bytes from `from` to `to`.
fn text(input: &str, from: usize, to: usize) -> (part: String)
    ensures
        part@ == text_between(input.spec_bytes(), from as int, to as int),
{
    String::from_str(slice(input, from, to))
}

/// Whether the bytes from `from` to `to` spell `word`.
fn spells(input: &str, from: usize, to: usize, word: &[u8]) -> (found: bool)
    ensures
        found == is_word(input.spec_bytes(), from as int, to as int, word@),
{
    let bytes = input.as_bytes();
    if !(from <= to && to <= bytes.len()) {
        return false;
    }
    if to - from != word.len() {
        assert(bytes@.subrange(from as int, to as int).len() != word@.len());
        return false;
    }
    let mut index: usize = 0;
    while index < word.len()
        invariant
            bytes@ == input.spec_bytes(),
            from <= to <= bytes.len(),
            to - from == word.len(),
            index <= word.len(),
            forall|k: int| 0 <= k < index ==> bytes@[from + k] == word@[k],
        decreases word.len() - index,
    {
        if bytes[from + index] != word[index] {
            assert(bytes@.subrange(from as int, to as int)[index as int] != word@[index as int]);
            return false;
        }
        index += 1;
    }
    assert(bytes@.subrange(from as int, to as int) =~= word@);
    true
}

/// The string literal at `pos` and the position after it.
fn parse_string(input: &str, pos: usize) -> (found: Option<(String, usize)>)
    ensures
        match found {
            Some((text, end)) => pos < end <= input.spec_bytes().len() && string_at(
                input.spec_bytes(),
                pos as int,
            ) == Some((text@, (end - pos) as nat)),
            None => string_at(input.spec_bytes(), pos as int) is None,
        },
{
    reveal(string_at);
    if !has_byte(input, pos, 0x22) {
        return None;
    }
    let close = find(input, pos + 1, 0x22);
    if has_byte(input, close, 0x22) {
        Some((text(input, pos + 1, close), close + 1))
    } else {
        None
    }
}

/// The digits that the bytes from `from` to `to` stand for.
fn digits(input: &str, from: usize, to: usize) -> (values: Vec<u8>)
    requires
        from <= to <= input.spec_bytes().len(),
        forall|k: int| from <= k < to ==> is_digit(#[trigger] input.spec_bytes()[k]),
    ensures
        values@ == digit_values(input.spec_bytes(), from as int, to as int),
{
    let bytes = input.as_bytes();
    let mut values: Vec<u8> = Vec::new();
    let mut index = from;
    while index < to
        invariant
            bytes@ == input.spec_bytes(),
            from <= index <= to <= bytes.len(),
            values@ == digit_values(bytes@, from as int, index as int),
            forall|k: int| from <= k < to ==> is_digit(#[trigger] bytes@[k]),
        decreases to - index,
    {
        values.push(bytes[index] - 0x30);
        index += 1;
        assert(values@ =~= digit_values(bytes@, from as int, index as int));
    }
    values
}

/// The number literal at `pos` and the position after it.
fn parse_number(input: &str, pos: usize) -> (found: Option<(Number, usize)>)
    requires
        pos <= input.spec_bytes().len(),
    ensures
        match found {
            Some((number, end)) => pos < end <= input.spec_bytes().len() && number_at(
                input.spec_bytes(),
                pos as int,
            ) == Some((number@, (end - pos) as nat)),
            None => number_at(input.spec_bytes(), pos as int) is None,
        },
{
    reveal(number_at);
    let negative = has_byte(input, pos, 0x2d);
    let start = if negative {
        pos + 1
    } else {
        pos
    };
    let whole = scan(input, start, Class::Digit);
    if whole == start {
        return None;
    }
    proof {
        lemma_run_in_class(input.spec_bytes(), start as int, Class::Digit);
    }
    if has_byte(input, whole, 0x2e) {
        let part = scan(input, whole + 1, Class::Digit);
        proof {
            lemma_run_in_class(input.spec_bytes(), whole + 1, Class::Digit);
        }
        if part > whole + 1 {
            let number = Number::from_digits(
                negative,
                digits(input, start, whole),
                digits(input, whole + 1, part),
            );
            return Some((number, part));
        }
    }
    let number = Number::from_digits(negative, digits(input, start, whole), Vec::new());
    Some((number, whole))
}

/// The steps of a variable's path at `pos`, added to `path`, and the position after them.
fn parse_path(input: &str, pos: usize, path: Vec<Value>) -> (found: (Vec<Value>, usize))
    requires
        keyed_values(values_model(path@)),
        pos <= input.spec_bytes().len(),
    ensures
        pos <= found.1 <= input.spec_bytes().len(),
        path_at(input.spec_bytes(), pos as int, values_model(path@)) == (
            values_model(found.0@),
            (found.1 - pos) as nat,
        ),
        keyed_values(values_model(found.0@)),
    decreases remaining(input.spec_bytes(), pos as int),
{
    reveal(path_at);
    let mut path = path;
    let ghost before = values_model(path@);
    if has_byte(input, pos, 0x2e) {
        let name_end = scan(input, pos + 1, Class::Identifier);
        if name_end > pos + 1 {
            path.push(Value::String(text(input, pos + 1, name_end)));
            assert(values_model(path@) =~= before.push(
                ValueModel::String(text_between(input.spec_bytes(), pos + 1, name_end as int)),
            ));
            return parse_path(input, name_end, path);
        }
        (path, pos)
    } else if has_byte(input, pos, 0x5b) {
        let key = match parse_number(input, pos + 1) {
            Some((number, end)) => Some((Value::Number(number), end)),
            None => match parse_string(input, pos + 1) {
                Some((name, end)) => Some((Value::String(name), end)),
                None => None,
            },
        };
        match key {
            Some((value, end)) => {
                if has_byte(input, end, 0x5d) {
                    path.push(value);
                    assert(values_model(path@) =~= before.push(value@));
                    parse_path(input, end + 1, path)
                } else {
                    (path, pos)
                }
            },
            None => (path, pos),
        }
    } else {
        (path, pos)
    }
}

/// The variable at `pos` and the position after it.
fn parse_variable(input: &str, pos: usize) -> (found: Option<(Value, usize)>)
    ensures
        match found {
            Some((value, end)) => pos < end <= input.spec_bytes().len() && variable_at(
                input.spec_bytes(),
                pos as int,
            ) == Some((value@, (end - pos) as nat)),
            None => variable_at(input.spec_bytes(), pos as int) is None,
        },
        found is Some ==> keyed(found.unwrap().0@),
{
    reveal(variable_at);
    let bytes = input.as_bytes();
    if pos >= bytes.len() {
        return None;
    }
    let prefix = bytes[pos];
    if prefix >= 0x80 || belongs(prefix, Class::Identifier) || belongs(prefix, Class::Space) {
        return None;
    }
    let name_end = scan(input, pos + 1, Class::Identifier);
    if name_end == pos + 1 {
        return None;
    }
    let mut first: Vec<Value> = Vec::new();
    first.push(Value::String(text(input, pos + 1, name_end)));
    assert(values_model(first@) =~= seq![
        ValueModel::String(text_between(input.spec_bytes(), pos + 1, name_end as int)),
    ]);
    let (path, end) = parse_path(input, name_end, first);
    let value = Value::from_expression(Expression::Variable(prefix as char, path));
    Some((value, end))
}

/// The value at `pos` and the position after it.
fn parse_value(input: &str, pos: usize) -> (found: Option<(Value, usize)>)
    requires
        pos <= input.spec_bytes().len(),
    ensures
        match found {
            Some((value, end)) => pos <= end <= input.spec_bytes().len() && value_at(
                input.spec_bytes(),
                pos as int,
            ) == Some((value@, (end - pos) as nat)),
            None => value_at(input.spec_bytes(), pos as int) is None,
        },
        found is Some ==> keyed(found.unwrap().0@),
    decreases remaining(input.spec_bytes(), pos as int), 0int,
{
    reveal(value_at);
    reveal(items_at);
    reveal(entries_at);
    reveal(parameters_at);
    let bytes = input.as_bytes();
    if pos >= bytes.len() {
        return None;
    }
    let first = bytes[pos];
    if first == 0x22 {
        match parse_string(input, pos) {
            Some((name, end)) => Some((Value::String(name), end)),
            None => None,
        }
    } else if first == 0x5b {
        match parse_items(input, pos + 1, Vec::new()) {
            Some((items, end)) => {
                assert(values_model(Seq::<Value>::empty()) =~= Seq::<ValueModel>::empty());
                Some((Value::Array(items), end))
            },
            None => {
                assert(values_model(Seq::<Value>::empty()) =~= Seq::<ValueModel>::empty());
                None
            },
        }
    } else if first == 0x7b {
        match parse_entries(input, pos + 1, Attributes::new()) {
            Some((entries, end)) => Some((Value::Hash(entries), end)),
            None => None,
        }
    } else if belongs(first, Class::Identifier) {
        let word_end = scan(input, pos, Class::Identifier);
        match parse_number(input, pos) {
            Some((number, end)) => {
                if end >= word_end {
                    return Some((Value::Number(number), end));
                }
            },
            None => {},
        }
        if has_byte(input, word_end, 0x28) {
            match parse_parameters(input, word_end + 1, 0, Attributes::new()) {
                Some((parameters, end)) => {
                    let name = text(input, pos, word_end);
                    Some((Value::from_expression(Expression::Function(name, parameters)), end))
                },
                None => None,
            }
        } else if spells(input, pos, word_end, &[0x6eu8, 0x75, 0x6c, 0x6c]) {
            Some((Value::Null, word_end))
        } else if spells(input, pos, word_end, &[0x74u8, 0x72, 0x75, 0x65]) {
            Some((Value::Boolean(true), word_end))
        } else if spells(input, pos, word_end, &[0x66u8, 0x61, 0x6c, 0x73, 0x65]) {
            Some((Value::Boolean(false), word_end))
        } else {
            Some((Value::String(text(input, pos, word_end)), word_end))
        }
    } else {
        parse_variable(input, pos)
    }
}

/// The items of an array from `pos` on, added to `items`, and the position after its `]`.
fn parse_items(input: &str, pos: usize, items: Vec<Value>) -> (found: Option<(Vec<Value>, usize)>)
    requires
        keyed_values(values_model(items@)),
        pos <= input.spec_bytes().len(),
    ensures
        match found {
            Some((all, end)) => pos < end <= input.spec_bytes().len() && items_at(
                input.spec_bytes(),
                pos as int,
                values_model(items@),
            ) == Some((values_model(all@), (end - pos) as nat)),
            None => items_at(input.spec_bytes(), pos as int, values_model(items@)) is None,
        },
        found is Some ==> keyed_values(values_model(found.unwrap().0@)),
    decreases remaining(input.spec_bytes(), pos as int), 1int,
{
    reveal(items_at);
    reveal(value_at);
    let mut items = items;
    let ghost before = values_model(items@);
    let start = scan(input, pos, Class::Space);
    if has_byte(input, start, 0x5d) {
        return Some((items, start + 1));
    }
    if start >= input.as_bytes().len() {
        return None;
    }
    match parse_value(input, start) {
        Some((value, end)) => {
            let after = scan(input, end, Class::Space);
            if has_byte(input, after, 0x2c) {
                items.push(value);
                assert(values_model(items@) =~= before.push(value@));
                parse_items(input, after + 1, items)
            } else if has_byte(input, after, 0x5d) {
                items.push(value);
                assert(values_model(items@) =~= before.push(value@));
                Some((items, after + 1))
            } else {
                None
            }
        },
        None => None,
    }
}

/// The key of a hash entry at `pos` and the position after it.
fn parse_key(input: &str, pos: usize) -> (found: Option<(String, usize)>)
    requires
        pos <= input.spec_bytes().len(),
    ensures
        match found {
            Some((key, end)) => pos < end <= input.spec_bytes().len() && key_at(
                input.spec_bytes(),
                pos as int,
            ) == Some((key@, (end - pos) as nat)),
            None => key_at(input.spec_bytes(), pos as int) is None,
        },
{
    reveal(key_at);
    if has_byte(input, pos, 0x22) {
        return parse_string(input, pos);
    }
    let word_end = scan(input, pos, Class::Identifier);
    if word_end > pos {
        Some((text(input, pos, word_end), word_end))
    } else {
        None
    }
}

/// The entries of a hash from `pos` on, set in `entries`, and the position after its `}`.
fn parse_entries(input: &str, pos: usize, entries: Attributes) -> (found: Option<
    (Attributes, usize),
>)
    requires
        keyed_entries(entries@),
        pos <= input.spec_bytes().len(),
    ensures
        match found {
            Some((all, end)) => pos < end <= input.spec_bytes().len() && entries_at(
                input.spec_bytes(),
                pos as int,
                entries@,
            ) == Some((all@, (end - pos) as nat)),
            None => entries_at(input.spec_bytes(), pos as int, entries@) is None,
        },
        found is Some ==> keyed_entries(found.unwrap().0@),
    decreases remaining(input.spec_bytes(), pos as int), 1int,
{
    reveal(entries_at);
    reveal(value_at);
    let mut entries = entries;
    let start = scan(input, pos, Class::Space);
    if has_byte(input, start, 0x7d) {
        return Some((entries, start + 1));
    }
    if start >= input.as_bytes().len() {
        return None;
    }
    match parse_key(input, start) {
        Some((key, key_end)) => {
            let colon = scan(input, key_end, Class::Space);
            if !has_byte(input, colon, 0x3a) {
                return None;
            }
            let value_start = scan(input, colon + 1, Class::Space);
            match parse_value(input, value_start) {
                Some((value, end)) => {
                    let after = scan(input, end, Class::Space);
                    if has_byte(input, after, 0x2c) {
                        entries.insert(key, value);
                        parse_entries(input, after + 1, entries)
                    } else if has_byte(input, after, 0x7d) {
                        entries.insert(key, value);
                        Some((entries, after + 1))
                    } else {
                        None
                    }
                },
                None => None,
            }
        },
        None => None,
    }
}

/// The parameters of a call from `pos` on, set in `parameters`, and the position after its `)`.
#[verifier::rlimit(40)]
fn parse_parameters(input: &str, pos: usize, index: usize, parameters: Attributes) -> (found:
    Option<(Attributes, usize)>)
    requires
        keyed_entries(parameters@),
        pos <= input.spec_bytes().len(),
        index <= pos,
    ensures
        match found {
            Some((all, end)) => pos < end <= input.spec_bytes().len() && parameters_at(
                input.spec_bytes(),
                pos as int,
                index as nat,
                parameters@,
            ) == Some((all@, (end - pos) as nat)),
            None => parameters_at(input.spec_bytes(), pos as int, index as nat, parameters@)
                is None,
        },
        found is Some ==> keyed_entries(found.unwrap().0@),
    decreases remaining(input.spec_bytes(), pos as int), 1int,
{
    reveal(parameters_at);
    reveal(value_at);
    let mut parameters = parameters;
    let start = scan(input, pos, Class::Space);
    if has_byte(input, start, 0x29) {
        return Some((parameters, start + 1));
    }
    if start >= input.as_bytes().len() {
        return None;
    }
    let name_end = scan(input, start, Class::Identifier);
    let named = name_end > start && has_byte(input, name_end, 0x3d);
    let value_start = if named {
        name_end + 1
    } else {
        start
    };
    match parse_value(input, value_start) {
        Some((value, end)) => {
            let after = scan(input, end, Class::Space);
            let last = has_byte(input, after, 0x29);
            if has_byte(input, after, 0x2c) || last {
                let key = if named {
                    text(input, start, name_end)
                } else {
                    decimal_text(index as u64)
                };
                parameters.insert(key, value);
                if last {
                    Some((parameters, after + 1))
                } else {
                    parse_parameters(input, after + 1, index + 1, parameters)
                }
            } else {
                None
            }
        },
        None => None,
    }
}

/// One item of a list of attributes.
pub enum Item {
    /// A class name.
    Class(String),
    /// A key and its value.
    Pair(String, Value),
}

impl View for Item {
    type V = ItemModel;

    open spec fn view(&self) -> ItemModel {
        match self {
            Item::Class(name) => ItemModel::Class(name@),
            Item::Pair(key, value) => ItemModel::Pair(key@, value@),
        }
    }
}

/// The attribute at `pos` and the position after it.
fn parse_item(input: &str, pos: usize) -> (found: Option<(Item, usize)>)
    requires
        pos <= input.spec_bytes().len(),
    ensures
        match found {
            Some((item, end)) => pos < end <= input.spec_bytes().len() && item_at(
                input.spec_bytes(),
                pos as int,
            ) == Some((item@, (end - pos) as nat)),
            None => item_at(input.spec_bytes(), pos as int) is None,
        },
        found is Some ==> match found.unwrap().0@ {
            ItemModel::Pair(_, value) => keyed(value),
            ItemModel::Class(_) => true,
        },
{
    reveal(item_at);
    let sharp = has_byte(input, pos, 0x23);
    if sharp || has_byte(input, pos, 0x2e) {
        let name_end = scan(input, pos + 1, Class::Identifier);
        if name_end > pos + 1 {
            let name = text(input, pos + 1, name_end);
            if sharp {
                return Some((Item::Pair(String::from_str("id"), Value::String(name)), name_end));
            } else {
                return Some((Item::Class(name), name_end));
            }
        }
    }
    let key_end = scan(input, pos, Class::Identifier);
    if key_end > pos && has_byte(input, key_end, 0x3d) {
        match parse_value(input, key_end + 1) {
            Some((value, end)) => {
                if spells(input, pos, key_end, &[0x63u8, 0x6c, 0x61, 0x73, 0x73]) {
                    let name = if has_byte(input, key_end + 1, 0x22) {
                        text(input, key_end + 2, end - 1)
                    } else {
                        text(input, key_end + 1, end)
                    };
                    Some((Item::Class(name), end))
                } else {
                    Some((Item::Pair(text(input, pos, key_end), value), end))
                }
            },
            None => None,
        }
    } else {
        None
    }
}

/// The attributes from `pos` on, set in `attributes` and `classes`, with the
/// classes added, and the position after the last attribute.
fn parse_attributes(input: &str, pos: usize, attributes: Attributes, classes: Attributes) -> (found:
    Option<(Attributes, usize)>)
    requires
        keyed_entries(attributes@),
        keyed_entries(classes@),
        pos <= input.spec_bytes().len(),
    ensures
        match found {
            Some((all, end)) => pos < end <= input.spec_bytes().len() && attributes_at(
                input.spec_bytes(),
                pos as int,
                attributes@,
                classes@,
            ) == Some((all@, (end - pos) as nat)),
            None => attributes_at(input.spec_bytes(), pos as int, attributes@, classes@) is None,
        },
        found is Some ==> keyed_entries(found.unwrap().0@),
    decreases remaining(input.spec_bytes(), pos as int),
{
    reveal(attributes_at);
    let mut attributes = attributes;
    let mut classes = classes;
    match parse_item(input, pos) {
        Some((item, end)) => {
            match item {
                Item::Pair(key, value) => {
                    attributes.insert(key, value);
                },
                Item::Class(name) => {
                    classes.insert(name, Value::Boolean(true));
                },
            }
            let next = scan(input, end, Class::Space);
            if next > end && parse_item(input, next).is_some() {
                parse_attributes(input, next, attributes, classes)
            } else {
                if classes.len() > 0 {
                    attributes.insert(String::from_str("class"), Value::Hash(classes));
                }
                Some((attributes, end))
            }
        },
        None => None,
    }
}

/// Whether the text begins with `{%`.
fn begins(input: &str) -> (found: bool)
    ensures
        found == starts_tag(input.spec_bytes()),
{
    has_byte(input, 0, 0x7b) && has_byte(input, 1, 0x25)
}

/// Whether `%}` stands at `pos` and ends the text.
fn ends(input: &str, pos: usize) -> (found: bool)
    requires
        pos <= input.spec_bytes().len(),
    ensures
        found == ends_tag(input.spec_bytes(), pos as int),
{
    has_byte(input, pos, 0x25) && has_byte(input, pos + 1, 0x7d) && pos + 2
        == input.as_bytes().len()
}

/// The opening or self-closing tag that the text is, if it is one.
fn parse_open(input: &str) -> (found: Option<Tag>)
    ensures
        match found {
            Some(tag) => open_tag(input.spec_bytes()) == Some(tag@),
            None => open_tag(input.spec_bytes()) is None,
        },
        found is Some ==> keyed_tag(found.unwrap()@),
{
    if !begins(input) {
        return None;
    }
    let name_start = scan(input, 2, Class::Space);
    let name_end = scan(input, name_start, Class::Identifier);
    if name_end == name_start {
        return None;
    }
    let mut all = Attributes::new();
    let primary_start = scan(input, name_end, Class::Space);
    let mut primary_end = name_end;
    if primary_start > name_end && parse_item(input, primary_start).is_none() {
        match parse_value(input, primary_start) {
            Some((value, end)) => {
                all.insert(String::from_str("primary"), value);
                assert(all@ =~= seq![("primary"@, value@)]);
                primary_end = end;
            },
            None => {},
        }
    }
    let attributes_start = scan(input, primary_end, Class::Space);
    let mut attributes_end = primary_end;
    if attributes_start > primary_end {
        match parse_attributes(input, attributes_start, Attributes::new(), Attributes::new()) {
            Some((found, end)) => {
                all.extend(found);
                attributes_end = end;
            },
            None => {},
        }
    }
    let slash = scan(input, attributes_end, Class::Space);
    let standalone = has_byte(input, slash, 0x2f);
    let close = if standalone {
        slash + 1
    } else {
        slash
    };
    if !ends(input, close) {
        return None;
    }
    let name = text(input, name_start, name_end);
    let held = if all.is_empty() {
        None
    } else {
        Some(all)
    };
    if standalone {
        Some(Tag::Standalone(name, held))
    } else {
        Some(Tag::Open(name, held))
    }
}

/// The closing tag that the text is, if it is one.
fn parse_close(input: &str) -> (found: Option<Tag>)
    ensures
        match found {
            Some(tag) => close_tag(input.spec_bytes()) == Some(tag@),
            None => close_tag(input.spec_bytes()) is None,
        },
        found is Some ==> keyed_tag(found.unwrap()@),
{
    if !begins(input) {
        return None;
    }
    let slash = scan(input, 2, Class::Space);
    if !has_byte(input, slash, 0x2f) {
        return None;
    }
    let name_end = scan(input, slash + 1, Class::Identifier);
    if name_end > slash + 1 && ends(input, scan(input, name_end, Class::Space)) {
        Some(Tag::Close(text(input, slash + 1, name_end)))
    } else {
        None
    }
}

/// The annotation that the text is, if it is one.
fn parse_annotation(input: &str) -> (found: Option<Tag>)
    ensures
        match found {
            Some(tag) => annotation_tag(input.spec_bytes()) == Some(tag@),
            None => annotation_tag(input.spec_bytes()) is None,
        },
        found is Some ==> keyed_tag(found.unwrap()@),
{
    if !begins(input) {
        return None;
    }
    let start = scan(input, 2, Class::Space);
    match parse_attributes(input, start, Attributes::new(), Attributes::new()) {
        Some((attributes, end)) => {
            if ends(input, scan(input, end, Class::Space)) {
                Some(Tag::Annotation(attributes))
            } else {
                None
            }
        },
        None => None,
    }
}

/// The value to show that the text is, if it is one.
fn parse_shown(input: &str) -> (found: Option<Tag>)
    ensures
        match found {
            Some(tag) => value_tag(input.spec_bytes()) == Some(tag@),
            None => value_tag(input.spec_bytes()) is None,
        },
        found is Some ==> keyed_tag(found.unwrap()@),
{
    if !begins(input) {
        return None;
    }
    let start = scan(input, 2, Class::Space);
    match parse_value(input, start) {
        Some((value, end)) => {
            if value.is_expression() && ends(input, scan(input, end, Class::Space)) {
                Some(Tag::Value(value))
            } else {
                None
            }
        },
        None => None,
    }
}

/// Reads the text of a tag. Text that has no form of the grammar gives
/// `Tag::Error`, which holds it. In every mapping of the tag the keys are unique.
pub fn parse(input: &str) -> (tag: Tag)
    ensures
        tag@ == tag_of(input.spec_bytes()),
        keyed_tag(tag@),
{
    match parse_open(input) {
        Some(tag) => {
            return tag;
        },
        None => {},
    }
    match parse_close(input) {
        Some(tag) => {
            return tag;
        },
        None => {},
    }
    match parse_annotation(input) {
        Some(tag) => {
            return tag;
        },
        None => {},
    }
    match parse_shown(input) {
        Some(tag) => {
            return tag;
        },
        None => {},
    }
    Tag::Error(SyntaxError { text: text(input, 0, input.as_bytes().len()) })
}

/// Reads a text that is one value, whole: `None` where it is not.
pub fn convert_value(input: &str) -> (found: Option<Value>)
    ensures
        match found {
            Some(value) => whole_value(input.spec_bytes()) == Some(value@),
            None => whole_value(input.spec_bytes()) is None,
        },
        found is Some ==> keyed(found.unwrap()@),
{
    match parse_value(input, 0) {
        Some((value, end)) => if end == input.as_bytes().len() {
            Some(value)
        } else {
            None
        },
        None => None,
    }
}

/// Reads a text that is one call, whole: `None` where it is not.
pub fn convert_function(input: &str) -> (found: Option<Value>)
    ensures
        match found {
            Some(value) => whole_value(input.spec_bytes()) == Some(value@) && value@ is Expression
                && value@->Expression_1 is Function,
            None => !(whole_value(input.spec_bytes()) is Some && whole_value(
                input.spec_bytes(),
            ).unwrap() is Expression && whole_value(
                input.spec_bytes(),
            ).unwrap()->Expression_1 is Function),
        },
        found is Some ==> keyed(found.unwrap()@),
{
    match convert_value(input) {
        Some(value) => {
            if value.is_call() {
                Some(value)
            } else {
                None
            }
        },
        None => None,
    }
}

/// Reads a text that is a list of attributes, whole: `None` where it is not.
pub fn convert_attributes(input: &str) -> (found: Option<Attributes>)
    ensures
        match found {
            Some(attributes) => whole_attributes(input.spec_bytes()) == Some(attributes@),
            None => whole_attributes(input.spec_bytes()) is None,
        },
        found is Some ==> keyed_entries(found.unwrap()@),
{
    match parse_attributes(input, 0, Attributes::new(), Attributes::new()) {
        Some((attributes, end)) => if end == input.as_bytes().len() {
            Some(attributes)
        } else {
            None
        },
        None => None,
    }
}

/// Whether two optional mappings are both absent, or map the same keys to the same values.
pub open spec fn same_optional(left: Option<AttributesModel>, right: Option<AttributesModel>)
    -> bool {
    match left {
        Some(entries) => match right {
            Some(other) => same_entries(entries, other),
            None => false,
        },
        None => right is None,
    }
}

/// Whether two tags are the same: of the same form, with the same name and the same attributes.
pub open spec fn same_tag(left: TagModel, right: TagModel) -> bool {
    match left {
        TagModel::Standalone(name, attributes) => match right {
            TagModel::Standalone(other, held) => name == other && same_optional(attributes, held),
            _ => false,
        },
        TagModel::Open(name, attributes) => match right {
            TagModel::Open(other, held) => name == other && same_optional(attributes, held),
            _ => false,
        },
        TagModel::Close(name) => right == TagModel::Close(name),
        TagModel::Annotation(attributes) => match right {
            TagModel::Annotation(held) => same_entries(attributes, held),
            _ => false,
        },
        TagModel::Value(value) => match right {
            TagModel::Value(held) => same_value(value, held),
            _ => false,
        },
        TagModel::Error(text) => right == TagModel::Error(text),
    }
}

/// Whether two optional mappings are both absent, or the same.
fn same_held(left: &Option<Attributes>, right: &Option<Attributes>) -> (same: bool)
    ensures
        same == same_optional(
            match left {
                Some(found) => Some(found@),
                None => None,
            },
            match right {
                Some(found) => Some(found@),
                None => None,
            },
        ),
{
    match left {
        Some(entries) => match right {
            Some(other) => entries.same(other),
            None => false,
        },
        None => right.is_none(),
    }
}

impl Tag {
    /// Whether two tags are the same.
    pub fn same(&self, other: &Tag) -> (same: bool)
        ensures
            same == same_tag(self@, other@),
    {
        match self {
            Tag::Standalone(name, attributes) => match other {
                Tag::Standalone(other_name, held) => same_text(name.as_str(), other_name.as_str())
                    && same_held(attributes, held),
                _ => false,
            },
            Tag::Open(name, attributes) => match other {
                Tag::Open(other_name, held) => same_text(name.as_str(), other_name.as_str())
                    && same_held(attributes, held),
                _ => false,
            },
            Tag::Close(name) => match other {
                Tag::Close(other_name) => same_text(name.as_str(), other_name.as_str()),
                _ => false,
            },
            Tag::Annotation(attributes) => match other {
                Tag::Annotation(held) => attributes.same(held),
                _ => false,
            },
            Tag::Value(value) => match other {
                Tag::Value(held) => value.same(held),
                _ => false,
            },
            Tag::Error(error) => match other {
                Tag::Error(held) => same_text(error.text.as_str(), held.text.as_str()),
                _ => false,
            },
        }
    }
}

impl PartialEq for Tag {
    fn eq(&self, other: &Tag) -> (same: bool) {
        self.same(other)
    }
}

impl vstd::std_specs::cmp::PartialEqSpecImpl for Tag {
    open spec fn obeys_eq_spec() -> bool {
        true
    }

    open spec fn eq_spec(&self, other: &Tag) -> bool {
        same_tag(self@, other@)
    }
}

/// Whether a tag that has a name has a name that is not empty.
pub open spec fn is_named(tag: TagModel) -> bool {
    match tag {
        TagModel::Open(name, _) => name.len() > 0,
        TagModel::Standalone(name, _) => name.len() > 0,
        TagModel::Close(name) => name.len() > 0,
        _ => true,
    }
}

/// The text of an identifier is not empty.
proof fn lemma_identifier_text(s: Seq<u8>, start: int)
    requires
        vstd::utf8::valid_utf8(s),
        0 <= start,
        run_end(s, start, Class::Identifier) > start,
    ensures
        text_between(s, start, run_end(s, start, Class::Identifier)).len() > 0,
{
    let end = run_end(s, start, Class::Identifier);
    lemma_run_in_class(s, start, Class::Identifier);
    assert(start < s.len()) by {
        reveal_with_fuel(run_length, 1);
    }
    assert(in_class(s[start], Class::Identifier));
    assert(in_class(s[end - 1], Class::Identifier));
    crate::text::lemma_ascii_is_boundary(s, start);
    crate::text::lemma_ascii_is_boundary(s, end - 1);
    let front = s.subrange(0, end);
    let part = s.subrange(start, end);
    vstd::utf8::valid_utf8_split(s, end);
    assert(front[start] == s[start]);
    vstd::utf8::is_char_boundary_iff_not_is_continuation_byte(front, start);
    vstd::utf8::valid_utf8_split(front, start);
    assert(front.subrange(start, front.len() as int) =~= part);
    assert(vstd::utf8::valid_utf8(part));
    assert(part.len() > 0);
    reveal(text_between);
    assert(vstd::utf8::decode_utf8(part).len() > 0);
}

/// The name of a tag is never empty: a tag that the grammar recognizes in
/// a text as one that opens, closes, or has no content has a name of at
/// least one character.
pub proof fn lemma_tag_is_named(text: Seq<char>)
    ensures
        is_named(tag_of(vstd::utf8::encode_utf8(text))),
{
    let s = vstd::utf8::encode_utf8(text);
    vstd::utf8::encode_utf8_valid_utf8(text);
    lemma_run_in_class(s, 2, Class::Space);
    if open_tag(s) is Some {
        lemma_identifier_text(s, skip_space(s, 2));
    } else if close_tag(s) is Some {
        lemma_run_in_class(s, 2, Class::Space);
        lemma_identifier_text(s, skip_space(s, 2) + 1);
    }
}

} // verus!
