//! Reading and quoting JSON text, and its MessagePack form.
//!
//! A value inside a document is addressed by its JSON pointer, such as
//! `/activity/name`.
use vstd::prelude::*;

verus! {

/// Characters of an optional text.
pub open spec fn opt_text(s: Option<String>) -> Option<Seq<char>> {
    match s {
        Some(t) => Some(t@),
        None => None,
    }
}

/// Characters of an optional borrowed text.
pub open spec fn opt_str(s: Option<&str>) -> Option<Seq<char>> {
    match s {
        Some(t) => Some(t@),
        None => None,
    }
}

/// Compact rendering of the value at `pointer` in the JSON document `doc`;
/// nothing when `doc` is no JSON or has no such value.
pub uninterp spec fn json_text(doc: Seq<char>, pointer: Seq<char>) -> Option<Seq<char>>;

/// The string at `pointer` in the JSON document `doc`.
pub uninterp spec fn json_str(doc: Seq<char>, pointer: Seq<char>) -> Option<Seq<char>>;

/// The unsigned number at `pointer` in the JSON document `doc`.
pub uninterp spec fn json_u64(doc: Seq<char>, pointer: Seq<char>) -> Option<u64>;

/// The signed number at `pointer` in the JSON document `doc`.
pub uninterp spec fn json_i64(doc: Seq<char>, pointer: Seq<char>) -> Option<i64>;

/// The boolean at `pointer` in the JSON document `doc`.
pub uninterp spec fn json_bool(doc: Seq<char>, pointer: Seq<char>) -> Option<bool>;

/// The hexadecimal digit of `n`.
pub open spec fn hex_digit(n: int) -> char {
    if n < 10 {
        ('0' as u32 + n) as char
    } else {
        ('a' as u32 + (n - 10)) as char
    }
}

/// A character inside a JSON string literal: quotes, backslashes and control
/// characters are escaped.
pub open spec fn escaped(c: char) -> Seq<char> {
    if c == '"' {
        seq!['\\', '"']
    } else if c == '\\' {
        seq!['\\', '\\']
    } else if c == '\u{8}' {
        seq!['\\', 'b']
    } else if c == '\t' {
        seq!['\\', 't']
    } else if c == '\n' {
        seq!['\\', 'n']
    } else if c == '\u{c}' {
        seq!['\\', 'f']
    } else if c == '\r' {
        seq!['\\', 'r']
    } else if (c as u32) < 32 {
        seq!['\\', 'u', '0', '0', hex_digit(c as int / 16), hex_digit(c as int % 16)]
    } else {
        seq![c]
    }
}

/// The characters of `s` inside a JSON string literal.
pub open spec fn all_escaped(s: Seq<char>) -> Seq<char>
    decreases s.len(),
{
    if s.len() == 0 {
        Seq::empty()
    } else {
        all_escaped(s.drop_last()) + escaped(s.last())
    }
}

/// `s` as a JSON string literal, quotes included.
pub open spec fn json_quoted(s: Seq<char>) -> Seq<char> {
    seq!['"'] + all_escaped(s) + seq!['"']
}

/// MessagePack encoding, with field names in the order of the document, of
/// the JSON document `doc`.
pub uninterp spec fn msgpack_of(doc: Seq<char>) -> Option<Seq<u8>>;

/// MessagePack encoding, with field names in their own order, of the JSON
/// document `doc`.
pub uninterp spec fn msgpack_sorted(doc: Seq<char>) -> Option<Seq<u8>>;

/// The JSON document `doc` with the number `n` in place of the value at
/// `pointer`; nothing when `doc` is no JSON or has no such value.
pub uninterp spec fn json_replaced_i64(
    doc: Seq<char>,
    pointer: Seq<char>,
    n: i64,
) -> Option<Seq<char>>;

/// `serde_json::Value::to_string` on the value at `pointer`: the result is
/// the text named [`json_text`].
#[verifier::external_body]
pub(crate) fn json_text_at(doc: &str, pointer: &str) -> (r: Option<String>)
    ensures
        opt_text(r) == json_text(doc@, pointer@),
{
    let value: serde_json::Value = serde_json::from_str(doc).ok()?;
    value.pointer(pointer).map(|v| v.to_string())
}

/// `serde_json::Value::as_str` on the value at `pointer`: the result is the
/// text named [`json_str`].
#[verifier::external_body]
pub(crate) fn json_str_at(doc: &str, pointer: &str) -> (r: Option<String>)
    ensures
        opt_text(r) == json_str(doc@, pointer@),
{
    let value: serde_json::Value = serde_json::from_str(doc).ok()?;
    value.pointer(pointer).and_then(|v| v.as_str()).map(|s| s.to_string())
}

/// `serde_json::Value::as_u64` on the value at `pointer`: the result is the
/// number named [`json_u64`].
#[verifier::external_body]
pub(crate) fn json_u64_at(doc: &str, pointer: &str) -> (r: Option<u64>)
    ensures
        r == json_u64(doc@, pointer@),
{
    let value: serde_json::Value = serde_json::from_str(doc).ok()?;
    value.pointer(pointer).and_then(|v| v.as_u64())
}

/// `serde_json::Value::as_i64` on the value at `pointer`: the result is the
/// number named [`json_i64`].
#[verifier::external_body]
pub(crate) fn json_i64_at(doc: &str, pointer: &str) -> (r: Option<i64>)
    ensures
        r == json_i64(doc@, pointer@),
{
    let value: serde_json::Value = serde_json::from_str(doc).ok()?;
    value.pointer(pointer).and_then(|v| v.as_i64())
}

/// `serde_json::Value::as_bool` on the value at `pointer`: the result is the
/// boolean named [`json_bool`].
#[verifier::external_body]
pub(crate) fn json_bool_at(doc: &str, pointer: &str) -> (r: Option<bool>)
    ensures
        r == json_bool(doc@, pointer@),
{
    let value: serde_json::Value = serde_json::from_str(doc).ok()?;
    value.pointer(pointer).and_then(|v| v.as_bool())
}

/// `serde_json::Value::pointer_mut` on the parsed document, the value there
/// replaced and the document rendered again: the result is the text named
/// [`json_replaced_i64`]. Reading it at the pointer gives the number back.
#[verifier::external_body]
pub(crate) fn json_replace_i64(doc: &str, pointer: &str, n: i64) -> (r: Option<String>)
    ensures
        opt_text(r) == json_replaced_i64(doc@, pointer@, n),
        r matches Some(text) ==> json_i64(text@, pointer@) == Some(n),
{
    let mut value: serde_json::Value = serde_json::from_str(doc).ok()?;
    *value.pointer_mut(pointer)? = n.into();
    Some(value.to_string())
}

/// `serde_json::to_string` on a text, which cannot fail: the result is the
/// literal that [`json_quoted`] describes.
#[verifier::external_body]
pub(crate) fn json_quote(s: &str) -> (r: String)
    ensures
        r@ == json_quoted(s@),
{
    serde_json::to_string(s).unwrap_or_default()
}

/// `rmp_serde::to_vec_named` on the parsed document, whose objects keep their
/// order: the result is the encoding named [`msgpack_of`], nothing where
/// parsing or encoding fails.
#[verifier::external_body]
pub(crate) fn json_to_msgpack(doc: &str) -> (r: Option<Vec<u8>>)
    ensures
        match r {
            Some(bytes) => msgpack_of(doc@) == Some(bytes@),
            None => msgpack_of(doc@) is None,
        },
{
    let value: serde_json::Value = serde_json::from_str(doc).ok()?;
    rmp_serde::to_vec_named(&value).ok()
}

/// `serde_json::Value::sort_all_objects` on the parsed document, then
/// `rmp_serde::to_vec_named`: the result is the encoding named
/// [`msgpack_sorted`], nothing where parsing or encoding fails.
#[verifier::external_body]
pub(crate) fn json_to_msgpack_sorted(doc: &str) -> (r: Option<Vec<u8>>)
    ensures
        match r {
            Some(bytes) => msgpack_sorted(doc@) == Some(bytes@),
            None => msgpack_sorted(doc@) is None,
        },
{
    let mut value: serde_json::Value = serde_json::from_str(doc).ok()?;
    value.sort_all_objects();
    rmp_serde::to_vec_named(&value).ok()
}

} // verus!
