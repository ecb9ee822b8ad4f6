//! What the library relies on from `serde_json`, stated over a model of JSON
//! values.

use vstd::prelude::*;
use serde_json::{Number, Value};

verus! {

/// The model of a JSON value: a number is kept as the text of its literal.
pub enum JsonView {
    Null,
    Bool(bool),
    Num(Seq<char>),
    Str(Seq<char>),
    Array(Seq<JsonView>),
    Object(Map<Seq<char>, JsonView>),
}

#[verifier::external_type_specification]
#[verifier::external_body]
pub struct ExValue(Value);

#[verifier::external_type_specification]
#[verifier::external_body]
pub struct ExNumber(Number);

#[verifier::external_type_specification]
#[verifier::external_body]
pub struct ExJsonError(serde_json::Error);

/// What a `serde_json::Value` holds.
pub uninterp spec fn json_view(v: Value) -> JsonView;

/// The literal text that a `serde_json::Number` holds.
pub uninterp spec fn number_text(n: Number) -> Seq<char>;

/// What `serde_json::from_slice` makes of a byte string, if it is one JSON value.
pub uninterp spec fn parsed_json(text: Seq<u8>) -> Option<JsonView>;

/// The bytes that JSON counts as whitespace: space, tab, line feed, carriage
/// return.
pub open spec fn is_json_whitespace(b: u8) -> bool {
    b == 32 || b == 9 || b == 10 || b == 13
}

/// Relies on `serde_json::from_slice`: it reads one JSON value, surrounded by
/// whitespace only, or fails; whitespace at the end changes nothing.
#[verifier::external_body]
pub(crate) fn parse_value(text: &[u8]) -> (r: Result<Value, serde_json::Error>)
    ensures
        r.is_ok() == parsed_json(text@).is_some(),
        r.is_ok() ==> parsed_json(text@) == Some(json_view(r.unwrap())),
        forall|w: u8| #[trigger] is_json_whitespace(w) ==> r.is_ok() == parsed_json(text@.push(w)).is_some(),
        forall|w: u8| #[trigger] is_json_whitespace(w) && r.is_ok() ==> parsed_json(text@.push(w)) == Some(
            json_view(r.unwrap()),
        ),
{
    serde_json::from_slice::<Value>(text)
}

/// Relies on `serde_json::Value::is_object`: true exactly for an object.
pub assume_specification[ Value::is_object ](v: &Value) -> (r: bool)
    ensures
        r == (json_view(*v) is Object),
;

/// Relies on `serde_json::Value::as_str`: the text of a string, `None` for
/// anything else.
pub assume_specification[ Value::as_str ](v: &Value) -> (r: Option<&str>)
    ensures
        r.is_some() == (json_view(*v) is Str),
        r.is_some() ==> json_view(*v) == JsonView::Str(r.unwrap()@),
;

/// Relies on `serde_json::Value::as_number`: the number of a number, `None`
/// for anything else.
pub assume_specification[ Value::as_number ](v: &Value) -> (r: Option<&Number>)
    ensures
        r.is_some() == (json_view(*v) is Num),
        r.is_some() ==> json_view(*v) == JsonView::Num(number_text(*r.unwrap())),
;

/// A JSON pointer token that names an object member: it holds no `/` and no
/// `~` (so nothing in it is unescaped) and is no array index.
pub open spec fn is_member_token(k: Seq<char>) -> bool {
    &&& forall|i: int| 0 <= i < k.len() ==> k[i] != '/' && k[i] != '~'
    &&& exists|i: int| 0 <= i < k.len() && !('0' <= k[i] && k[i] <= '9')
}

/// Relies on `serde_json::Value::pointer` with a pointer of one member token:
/// the member of that name in an object, `None` for an absent member or a
/// value that is no object.
pub assume_specification<'a>[ Value::pointer ](v: &'a Value, pointer: &str) -> (r: Option<&'a Value>)
    ensures
        pointer@.len() > 0 && pointer@[0] == '/' && is_member_token(pointer@.drop_first()) ==> r.is_some()
            == (json_view(*v) is Object && json_view(*v)->Object_0.contains_key(pointer@.drop_first())),
        pointer@.len() > 0 && pointer@[0] == '/' && is_member_token(pointer@.drop_first()) && r.is_some()
            ==> json_view(*r.unwrap()) == json_view(*v)->Object_0[pointer@.drop_first()],
;

/// Relies on `serde_json::Number::as_str` (with `arbitrary_precision`): the
/// literal exactly as it was read.
pub assume_specification[ Number::as_str ](n: &Number) -> (r: &str)
    ensures
        r@ == number_text(*n),
;

/// Whether Rust's `f64` parser reads a text as a finite number.
pub uninterp spec fn finite_f64_text(text: Seq<char>) -> bool;

/// Relies on `serde_json::Number::as_f64`: it parses the literal as an `f64`
/// and keeps it only where it is finite.
#[verifier::external_body]
pub(crate) fn fits_f64(n: &Number) -> (r: bool)
    ensures
        r == finite_f64_text(number_text(*n)),
{
    n.as_f64().is_some()
}

pub open spec fn hex_digit(v: nat) -> char {
    seq!['0', '1', '2', '3', '4', '5', '6', '7', '8', '9', 'a', 'b', 'c', 'd', 'e', 'f'][v as int]
}

/// How one character is written inside a JSON string: `"` and `\` and the
/// control characters below U+0020 are escaped, the short forms where JSON
/// has them, `\u00XX` otherwise; every other character stands as it is.
pub open spec fn escape_char(c: char) -> Seq<char> {
    if c == '"' {
        seq!['\\', '"']
    } else if c == '\\' {
        seq!['\\', '\\']
    } else if c == '\x08' {
        seq!['\\', 'b']
    } else if c == '\t' {
        seq!['\\', 't']
    } else if c == '\n' {
        seq!['\\', 'n']
    } else if c == '\x0c' {
        seq!['\\', 'f']
    } else if c == '\r' {
        seq!['\\', 'r']
    } else if (c as u32) < 0x20 {
        seq!['\\', 'u', '0', '0', hex_digit((c as u32 / 16) as nat), hex_digit((c as u32 % 16) as nat)]
    } else {
        seq![c]
    }
}

pub open spec fn escape_text(s: Seq<char>) -> Seq<char>
    decreases s.len(),
{
    if s.len() == 0 {
        Seq::empty()
    } else {
        escape_char(s[0]) + escape_text(s.drop_first())
    }
}

/// The JSON string literal for a text: its characters escaped, in quotes.
pub open spec fn json_string(s: Seq<char>) -> Seq<char> {
    seq!['"'] + escape_text(s) + seq!['"']
}

/// Relies on `serde_json::to_string`: it writes a `str` in quotes, escaping
/// characters by its `ESCAPE` table as `escape_char` states; writing a `str`
/// into memory cannot fail.
#[verifier::external_body]
pub(crate) fn quote(s: &str) -> (r: Result<String, serde_json::Error>)
    ensures
        r.is_ok(),
        r.is_ok() ==> r.unwrap()@ == json_string(s@),
{
    serde_json::to_string(s)
}

} // verus!
