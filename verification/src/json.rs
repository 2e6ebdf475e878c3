//! JSON text of strings and string lists, as serde_json writes it.
use vstd::prelude::*;

verus! {

/// Lower-case hexadecimal digit.
pub open spec fn hex_digit(d: nat) -> char {
    if d < 10 {
        crate::text::digit_char(d)
    } else if d == 10 {
        'a'
    } else if d == 11 {
        'b'
    } else if d == 12 {
        'c'
    } else if d == 13 {
        'd'
    } else if d == 14 {
        'e'
    } else {
        'f'
    }
}

/// How serde_json writes one character inside a JSON string: the quote,
/// the backslash and the control characters below U+0020 are escaped
/// (`\b \t \n \f \r` by name, the others as `\u00XX` in lower-case hex);
/// every other character stands for itself.
pub open spec fn json_escape_char(c: char) -> Seq<char> {
    if c == '"' {
        seq!['\\', '"']
    } else if c == '\\' {
        seq!['\\', '\\']
    } else if c == '\x08' {
        seq!['\\', 'b']
    } else if c == '\t' {
        seq!['\\', 't']
    } else if c == '\n' {
        seq!['\\', 'n']
    } else if c == '\x0C' {
        seq!['\\', 'f']
    } else if c == '\r' {
        seq!['\\', 'r']
    } else if (c as u32) < 0x20 {
        seq!['\\', 'u', '0', '0', hex_digit(((c as u32) / 16) as nat), hex_digit(((c as u32) % 16) as nat)]
    } else {
        seq![c]
    }
}

pub open spec fn json_escape(s: Seq<char>) -> Seq<char>
    decreases s.len(),
{
    if s.len() == 0 {
        seq![]
    } else {
        json_escape(s.drop_last()) + json_escape_char(s.last())
    }
}

/// A JSON string literal.
pub open spec fn spec_json_string(s: Seq<char>) -> Seq<char> {
    seq!['"'] + json_escape(s) + seq!['"']
}

/// The elements of a JSON array of strings, comma separated.
pub open spec fn json_string_items(l: Seq<Seq<char>>) -> Seq<char>
    decreases l.len(),
{
    if l.len() == 0 {
        seq![]
    } else if l.len() == 1 {
        spec_json_string(l[0])
    } else {
        json_string_items(l.drop_last()) + seq![','] + spec_json_string(l.last())
    }
}

/// A compact JSON array of strings.
pub open spec fn spec_json_string_array(l: Seq<Seq<char>>) -> Seq<char> {
    seq!['['] + json_string_items(l) + seq![']']
}

/// `serde_json::to_string` of a string: a JSON string literal, escaped as
/// `spec_json_string` states (serializing a string cannot fail).
#[verifier::external_body]
pub(crate) fn json_string(s: &str) -> (r: String)
    ensures
        r@ == spec_json_string(s@),
{
    serde_json::to_string(s).unwrap_or_else(|_| "\"\"".to_string())
}

/// `serde_json::to_string` of a vector of strings: a compact JSON array, as
/// `spec_json_string_array` states (serializing it cannot fail).
#[verifier::external_body]
pub(crate) fn json_string_array(v: &Vec<String>) -> (r: String)
    ensures
        r@ == spec_json_string_array(crate::tags::views(v@)),
{
    serde_json::to_string(v).unwrap_or_else(|_| "[]".to_string())
}

/// The view of an optional string.
pub open spec fn opt_view(o: Option<String>) -> Option<Seq<char>> {
    match o {
        Some(s) => Some(s@),
        None => None,
    }
}

/// What `serde_json` finds as a string at a JSON pointer (RFC 6901) in a
/// document: `None` where the document does not parse or holds no string there.
pub uninterp spec fn spec_json_str_at(doc: Seq<char>, pointer: Seq<char>) -> Option<Seq<char>>;

/// What `serde_json` finds as a boolean at a JSON pointer in a document.
pub uninterp spec fn spec_json_bool_at(doc: Seq<char>, pointer: Seq<char>) -> Option<bool>;

/// `serde_json::from_str` into a `serde_json::Value`, then `Value::pointer`
/// and `Value::as_str`. The contract names the result; how JSON is parsed is
/// not stated.
#[verifier::external_body]
pub(crate) fn json_str_at(doc: &str, pointer: &str) -> (r: Option<String>)
    ensures
        opt_view(r) == spec_json_str_at(doc@, pointer@),
{
    serde_json::from_str::<serde_json::Value>(doc)
        .ok()
        .and_then(|v| v.pointer(pointer).and_then(|x| x.as_str()).map(|x| x.to_string()))
}

/// `serde_json::from_str` into a `serde_json::Value`, then `Value::pointer`
/// and `Value::as_bool`. The contract names the result.
#[verifier::external_body]
pub(crate) fn json_bool_at(doc: &str, pointer: &str) -> (r: Option<bool>)
    ensures
        r == spec_json_bool_at(doc@, pointer@),
{
    serde_json::from_str::<serde_json::Value>(doc).ok().and_then(|v| v.pointer(pointer).and_then(|x| x.as_bool()))
}

} // verus!
