//! Reading single values out of a JSON text: a string, a boolean, or an
//! array's length at a JSON pointer (RFC 6901, as `serde_json`'s
//! `Value::pointer` reads it).

use vstd::prelude::*;

use crate::text::{append, dec_digits, decimal, push_str, string_of};

verus! {

/// What `serde_json` finds at `pointer` in the text `doc`, when the text
/// parses and the value there is a string.
pub uninterp spec fn json_str_at(doc: Seq<char>, pointer: Seq<char>) -> Option<Seq<char>>;

/// Calls `serde_json::from_str` for a `Value`, then `Value::pointer`, then
/// `Value::as_str`: the string at `pointer`, if the text parses and holds
/// one there.
#[verifier::external_body]
pub(crate) fn json_pointer_str(doc: &str, pointer: &str) -> (r: Option<String>)
    ensures
        r is Some <==> json_str_at(doc@, pointer@) is Some,
        r is Some ==> r->Some_0@ == json_str_at(doc@, pointer@)->Some_0,
{
    serde_json::from_str::<serde_json::Value>(doc).ok().and_then(
        |v| v.pointer(pointer).and_then(|x| x.as_str()).map(String::from),
    )
}

/// What `serde_json` finds at `pointer` in `doc`, when the text parses and
/// the value there is a boolean.
pub uninterp spec fn json_bool_at(doc: Seq<char>, pointer: Seq<char>) -> Option<bool>;

/// Calls `serde_json::from_str`, `Value::pointer` and `Value::as_bool`.
#[verifier::external_body]
pub(crate) fn json_pointer_bool(doc: &str, pointer: &str) -> (r: Option<bool>)
    ensures
        r == json_bool_at(doc@, pointer@),
{
    serde_json::from_str::<serde_json::Value>(doc).ok().and_then(
        |v| v.pointer(pointer).and_then(|x| x.as_bool()),
    )
}

/// The length of the array at `pointer` in `doc`, when the text parses and
/// the value there is an array.
pub uninterp spec fn json_len_at(doc: Seq<char>, pointer: Seq<char>) -> Option<nat>;

/// Calls `serde_json::from_str`, `Value::pointer` and `Value::as_array`, and
/// takes the array's length.
#[verifier::external_body]
pub(crate) fn json_array_len(doc: &str, pointer: &str) -> (r: Option<usize>)
    ensures
        r is Some <==> json_len_at(doc@, pointer@) is Some,
        r is Some ==> r->Some_0 == json_len_at(doc@, pointer@)->Some_0,
{
    serde_json::from_str::<serde_json::Value>(doc).ok().and_then(
        |v| v.pointer(pointer).and_then(|x| x.as_array()).map(|a| a.len()),
    )
}

/// The view of an optional string.
pub open spec fn opt_view(o: Option<String>) -> Option<Seq<char>> {
    match o {
        Some(x) => Some(x@),
        None => None,
    }
}

/// The pointer to `field` of the `i`-th item of the array at `prefix`
/// (`prefix` ends with a slash, `field` is empty or starts with one).
pub open spec fn index_ptr(prefix: Seq<char>, i: nat, field: Seq<char>) -> Seq<char> {
    prefix + dec_digits(i) + field
}

pub fn index_pointer(prefix: &str, i: usize, field: &str) -> (r: String)
    ensures
        r@ == index_ptr(prefix@, i as nat, field@),
{
    let mut v: Vec<char> = Vec::new();
    push_str(&mut v, prefix);
    let d = decimal(i as u64);
    append(&mut v, d.as_slice());
    push_str(&mut v, field);
    string_of(v.as_slice())
}

} // verus!
