//! JSON string literals, as `serde_json` writes them.

use vstd::prelude::*;
use crate::text::rewrite::expand;

verus! {

/// The error type of `serde_json`.
#[verifier::external_type_specification]
#[verifier::external_body]
pub struct ExJsonError(serde_json::Error);

/// The lower-case hexadecimal digit for `n`.
pub open spec fn hex_digit(n: int) -> char {
    if n < 10 {
        ((48 + n) as u8) as char
    } else {
        ((87 + n) as u8) as char
    }
}

/// What one character becomes inside a JSON string literal.
///
/// The double quote and the backslash get a backslash in front. The control
/// characters below U+0020 become a two-character escape where JSON has one
/// (`\b`, `\t`, `\n`, `\f`, `\r`), and `\u00` with two hexadecimal digits
/// otherwise. Every other character stands for itself.
pub open spec fn json_escape(c: char) -> Seq<char> {
    let n = c as u32;
    if c == '"' {
        seq!['\\', '"']
    } else if c == '\\' {
        seq!['\\', '\\']
    } else if n == 0x08 {
        seq!['\\', 'b']
    } else if n == 0x09 {
        seq!['\\', 't']
    } else if n == 0x0A {
        seq!['\\', 'n']
    } else if n == 0x0C {
        seq!['\\', 'f']
    } else if n == 0x0D {
        seq!['\\', 'r']
    } else if n < 0x20 {
        seq!['\\', 'u', '0', '0', hex_digit(n as int / 16), hex_digit(n as int % 16)]
    } else {
        seq![c]
    }
}

/// The JSON string literal for `s`: its escaped characters between two
/// double quotes.
pub open spec fn json_literal(s: Seq<char>) -> Seq<char> {
    seq!['"'] + expand(s, |c: char| json_escape(c)) + seq!['"']
}

/// `serde_json::to_string` on a string slice.
///
/// The call writes the opening quote, each character as `json_escape` gives
/// it, and the closing quote into a byte vector. Its only error path is a
/// failed write, and writing into a vector does not fail, so the result is
/// always `Ok`.
#[verifier::external_body]
pub(crate) fn json_encode(s: &str) -> (r: Result<String, serde_json::Error>)
    ensures
        r is Ok,
        r matches Ok(t) ==> t@ == json_literal(s@),
{
    serde_json::to_string(s)
}

} // verus!
