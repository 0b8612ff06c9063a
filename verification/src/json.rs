//! JSON string literals, written by `serde_json`.

use vstd::prelude::*;

verus! {

#[verifier::external_type_specification]
#[verifier::external_body]
pub struct ExJsonError(serde_json::Error);

/// What `serde_json` writes for the string `s`: the JSON string literal, quotes included.
pub uninterp spec fn json_string_literal(s: Seq<char>) -> Seq<char>;

/// `serde_json::to_string` applied to a string slice.
///
/// Claims only that a successful result is the literal `json_string_literal` names for
/// the argument, and that serialising a string slice succeeds: `serde_json` writes the
/// escaped string into a `Vec<u8>`, whose writes cannot fail.
#[verifier::external_body]
pub(crate) fn json_string(s: &str) -> (r: Result<String, serde_json::Error>)
    ensures
        r is Ok,
        r->Ok_0@ == json_string_literal(s@),
{
    serde_json::to_string(s)
}

} // verus!
