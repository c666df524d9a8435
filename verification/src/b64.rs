//! Standard base64 with `=` padding, as used by the sealed-value wire
//! format and for key material.
//!
//! Encoding and decoding are done by the `base64` crate through the trusted
//! wrappers below; the results are named by the uninterpreted functions
//! [`b64_enc`] and [`b64_dec`].

use vstd::prelude::*;

use base64::Engine;

verus! {

/// The standard padded base64 encoding of a byte string.
pub uninterp spec fn b64_enc(b: Seq<u8>) -> Seq<char>;

/// The result of standard padded base64 decoding: the decoded bytes, or
/// nothing when the input is not a valid encoding.
pub uninterp spec fn b64_dec(s: Seq<char>) -> Option<Seq<u8>>;

/// The characters that standard padded base64 output is drawn from:
/// ASCII letters, digits, `+`, `/` and the padding character `=`.
pub open spec fn is_b64_char(c: char) -> bool {
    ('A' <= c && c <= 'Z') || ('a' <= c && c <= 'z') || ('0' <= c && c <= '9') || c == '+' || c
        == '/' || c == '='
}

/// Relies on `base64::engine::general_purpose::STANDARD.encode`: standard
/// alphabet with `=` padding, four output characters per three input bytes,
/// and decodable back to exactly the input bytes.
#[verifier::external_body]
pub(crate) fn b64_encode(b: &[u8]) -> (r: String)
    ensures
        r@ == b64_enc(b@),
        b64_dec(r@) == Some(b@),
        r@.len() == 4 * ((b@.len() + 2) / 3),
        forall|i: int| 0 <= i < r@.len() ==> is_b64_char(#[trigger] r@[i]),
{
    base64::engine::general_purpose::STANDARD.encode(b)
}

/// Relies on `base64::engine::general_purpose::STANDARD.decode`: succeeds
/// exactly on valid standard padded base64, returning the decoded bytes.
#[verifier::external_body]
pub(crate) fn b64_decode(s: &str) -> (r: Option<Vec<u8>>)
    ensures
        r matches Some(v) ==> b64_dec(s@) == Some(v@),
        r is None ==> b64_dec(s@) is None,
{
    base64::engine::general_purpose::STANDARD.decode(s).ok()
}

} // verus!
