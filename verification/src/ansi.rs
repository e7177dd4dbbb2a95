//! Removing terminal escape sequences from a line, so that coloured git
//! output can still be recognised as a diff.

use vstd::prelude::*;
use vstd::utf8::{decode_utf8, encode_utf8, encode_utf8_decode_utf8, encode_utf8_valid_utf8, valid_utf8};

use crate::text::to_owned_string;

verus! {

/// The bytes that `strip_ansi_escapes::strip` returns for the UTF-8
/// encoding of `s`: the input with its ANSI escape sequences taken out,
/// as the crate's escape-sequence parser decides them.
pub uninterp spec fn ansi_stripped(s: Seq<char>) -> Seq<u8>;

/// Whether `s` has no control character: none below U+0020 (so no
/// escape, tab or newline) and none in U+0080..U+009F.
pub open spec fn is_plain_text(s: Seq<char>) -> bool {
    forall|i: int|
        0 <= i < s.len() ==> (#[trigger] s[i] as u32) >= 0x20 && !(0x80 <= (s[i] as u32) <= 0x9f)
}

/// Calls `strip_ansi_escapes::strip` on the bytes of `s`. The result is a
/// function of `s` (named `ansi_stripped`); which bytes form an escape
/// sequence is left to the crate. For text without control characters the
/// crate's parser (vte) prints every character as it is, so the bytes
/// come back unchanged.
#[verifier::external_body]
fn strip_escape_bytes(s: &str) -> (r: Vec<u8>)
    ensures
        r@ == ansi_stripped(s@),
        is_plain_text(s@) ==> r@ == encode_utf8(s@),
{
    strip_ansi_escapes::strip(s)
}

/// Calls std's `String::from_utf8`, which accepts exactly the valid UTF-8
/// byte sequences and then holds the characters they encode; `None` stands
/// for its error.
#[verifier::external_body]
fn string_from_utf8(bytes: Vec<u8>) -> (r: Option<String>)
    ensures
        r is Some <==> valid_utf8(bytes@),
        r matches Some(s) ==> s@ == decode_utf8(bytes@),
{
    String::from_utf8(bytes).ok()
}

/// The text of a line with escape sequences removed: the stripped bytes
/// read as UTF-8 when they are valid UTF-8, else the line unchanged.
pub open spec fn strip_ansi_spec(s: Seq<char>) -> Seq<char> {
    if valid_utf8(ansi_stripped(s)) {
        decode_utf8(ansi_stripped(s))
    } else {
        s
    }
}

/// Reads the bytes left after stripping as text: their decoding when they
/// are valid UTF-8, else `original`.
pub fn decoded_or_original(stripped: Vec<u8>, original: &str) -> (r: String)
    ensures
        valid_utf8(stripped@) ==> r@ == decode_utf8(stripped@),
        !valid_utf8(stripped@) ==> r@ == original@,
{
    match string_from_utf8(stripped) {
        Some(t) => t,
        None => to_owned_string(original),
    }
}

/// Removes ANSI escape sequences from `s`; text without control
/// characters comes back unchanged.
pub fn strip_ansi(s: &str) -> (r: String)
    ensures
        r@ == strip_ansi_spec(s@),
        is_plain_text(s@) ==> r@ == s@,
{
    let bytes = strip_escape_bytes(s);
    proof {
        if is_plain_text(s@) {
            encode_utf8_valid_utf8(s@);
            encode_utf8_decode_utf8(s@);
        }
    }
    decoded_or_original(bytes, s)
}

} // verus!
