//! The embeddable read path: decrypt sealed values that an application
//! finds in its process environment.
//!
//! The caller hands in the variable's value as looked up (absent or
//! present) together with the `SEALED_KEY` value as looked up (absent or
//! present); the environment itself is the caller's concern. `var` demands
//! a sealed value, `var_or_plain` passes unsealed values through, and
//! `var_optional` additionally turns an absent variable into no value.

use vstd::prelude::*;

use crate::b64::b64_dec;
use crate::codec::{
    decode_key,
    decode_spec,
    decrypt_err_msg,
    decrypt_value,
    is_encrypted,
    looks_sealed,
    utf8_string,
};
use crate::error::SealedEnvError;
use crate::input::{trim_end_newlines, trim_end_nl};
use crate::secret::{secret_bytes, secret_text, SecretText};
use vstd::string::StringExecFns;
use vstd::utf8::{decode_utf8, encode_utf8, valid_utf8};

verus! {

/// What decrypting the sealed value `value` of variable `name` under the
/// base64 key `key_b64` yields: the key's trailing newlines are stripped
/// first, as for any non-argv key source; then the plaintext characters,
/// or nothing when the key does not decode to 32 bytes, the value is
/// malformed, the ciphertext does not authenticate, or the plaintext is
/// not UTF-8.
pub open spec fn embed_decode(name: Seq<char>, value: Seq<char>, key_b64: Seq<char>) -> Option<
    Seq<char>,
> {
    match b64_dec(trim_end_nl(key_b64)) {
        None => None,
        Some(k) => if k.len() != 32 {
            None
        } else {
            match decode_spec(k, encode_utf8(name), value) {
                None => None,
                Some(p) => if valid_utf8(p) {
                    Some(decode_utf8(p))
                } else {
                    None
                },
            }
        },
    }
}

/// The message an embedded decode fails with, by stage: the key material,
/// then the sealed value's format or authentication, then UTF-8.
pub open spec fn embed_err_msg(name: Seq<char>, value: Seq<char>, key_b64: Seq<char>) -> Seq<
    char,
> {
    match b64_dec(trim_end_nl(key_b64)) {
        None => "invalid base64 key"@,
        Some(k) => if k.len() != 32 {
            "key must be 32 bytes after base64 decode"@
        } else {
            match decode_spec(k, encode_utf8(name), value) {
                None => decrypt_err_msg(k, value),
                Some(p) => "decrypted value is not valid UTF-8"@,
            }
        },
    }
}

/// Decode a sealed environment value with the key from `SEALED_KEY`
/// (trailing newlines stripped): absent key is `MissingKey`; everything
/// that fails after that — key material, format, authentication, UTF-8 —
/// is `Crypto`, each with the message of its stage.
fn decode_sealed_env(name: &str, value: &str, key_b64: Option<String>) -> (r: Result<
    String,
    SealedEnvError,
>)
    ensures
        key_b64 is None ==> (r matches Err(e) && e is MissingKey && e.spec_message()
            == "SEALED_KEY is not set"@),
        key_b64 matches Some(kb) ==> match embed_decode(name@, value@, kb@) {
            Some(p) => r matches Ok(s) && s@ == p,
            None => r matches Err(e) && e is Crypto && e.spec_message() == embed_err_msg(
                name@,
                value@,
                kb@,
            ),
        },
{
    let kb = match key_b64 {
        Some(kb) => kb,
        None => {
            return Err(SealedEnvError::MissingKey("SEALED_KEY is not set".to_owned()));
        },
    };
    let kt = String::from_str(trim_end_newlines(kb.as_str()));
    let key = match decode_key(&SecretText::from_string(kt)) {
        Ok(k) => k,
        Err(e) => {
            return Err(SealedEnvError::Crypto(e.message().clone()));
        },
    };
    let decrypted = match decrypt_value(&key, name, value) {
        Ok(p) => p,
        Err(e) => {
            return Err(SealedEnvError::Crypto(e.message().clone()));
        },
    };
    match utf8_string(decrypted.expose()) {
        Some(s) => Ok(s),
        None => Err(SealedEnvError::Crypto("decrypted value is not valid UTF-8".to_owned())),
    }
}

/// Read an encrypted variable: `value` and `key_b64` are the environment's
/// bindings of the variable and of `SEALED_KEY`. The strict variant — the
/// variable must be present and sealed; use `var_or_plain` to let
/// plaintext values pass through.
pub fn var(name: &str, value: Option<String>, key_b64: Option<String>) -> (r: Result<
    String,
    SealedEnvError,
>)
    ensures
        value is None ==> (r matches Err(e) && e is MissingVar),
        value matches Some(v) ==> {
            &&& !looks_sealed(v@) ==> (r matches Err(e) && e is NotEncrypted)
            &&& looks_sealed(v@) && key_b64 is None ==> (r matches Err(e) && e is MissingKey
                && e.spec_message() == "SEALED_KEY is not set"@)
            &&& looks_sealed(v@) ==> (key_b64 matches Some(kb) ==> match embed_decode(
                name@,
                v@,
                kb@,
            ) {
                Some(p) => r matches Ok(s) && s@ == p,
                None => r matches Err(e) && e is Crypto && e.spec_message() == embed_err_msg(
                    name@,
                    v@,
                    kb@,
                ),
            })
        },
{
    let v = match value {
        Some(v) => v,
        None => {
            return Err(SealedEnvError::MissingVar(missing_var_msg(name)));
        },
    };
    if !is_encrypted(v.as_str()) {
        let mut msg = String::from_str("environment variable '");
        msg.append(name);
        msg.append("' is not encrypted");
        return Err(SealedEnvError::NotEncrypted(msg));
    }
    decode_sealed_env(name, v.as_str(), key_b64)
}

/// Read a variable, decrypting it when sealed and passing it through
/// verbatim when not.
pub fn var_or_plain(name: &str, value: Option<String>, key_b64: Option<String>) -> (r: Result<
    String,
    SealedEnvError,
>)
    ensures
        value is None ==> (r matches Err(e) && e is MissingVar),
        value matches Some(v) ==> {
            &&& !looks_sealed(v@) ==> (r matches Ok(s) && s@ == v@)
            &&& looks_sealed(v@) && key_b64 is None ==> (r matches Err(e) && e is MissingKey
                && e.spec_message() == "SEALED_KEY is not set"@)
            &&& looks_sealed(v@) ==> (key_b64 matches Some(kb) ==> match embed_decode(
                name@,
                v@,
                kb@,
            ) {
                Some(p) => r matches Ok(s) && s@ == p,
                None => r matches Err(e) && e is Crypto && e.spec_message() == embed_err_msg(
                    name@,
                    v@,
                    kb@,
                ),
            })
        },
{
    let v = match value {
        Some(v) => v,
        None => {
            return Err(SealedEnvError::MissingVar(missing_var_msg(name)));
        },
    };
    if !is_encrypted(v.as_str()) {
        return Ok(v);
    }
    decode_sealed_env(name, v.as_str(), key_b64)
}

/// Read a variable that may be absent: absent is no value; a present one
/// is decrypted when sealed and passed through verbatim when not.
pub fn var_optional(name: &str, value: Option<String>, key_b64: Option<String>) -> (r: Result<
    Option<String>,
    SealedEnvError,
>)
    ensures
        value is None ==> r == Ok::<Option<String>, SealedEnvError>(None),
        value matches Some(v) ==> {
            &&& !looks_sealed(v@) ==> (r matches Ok(o) && o matches Some(s) && s@ == v@)
            &&& looks_sealed(v@) && key_b64 is None ==> (r matches Err(e) && e is MissingKey
                && e.spec_message() == "SEALED_KEY is not set"@)
            &&& looks_sealed(v@) ==> (key_b64 matches Some(kb) ==> match embed_decode(
                name@,
                v@,
                kb@,
            ) {
                Some(p) => r matches Ok(o) && o matches Some(s) && s@ == p,
                None => r matches Err(e) && e is Crypto && e.spec_message() == embed_err_msg(
                    name@,
                    v@,
                    kb@,
                ),
            })
        },
{
    let v = match value {
        Some(v) => v,
        None => {
            return Ok(None);
        },
    };
    if !is_encrypted(v.as_str()) {
        return Ok(Some(v));
    }
    match decode_sealed_env(name, v.as_str(), key_b64) {
        Ok(s) => Ok(Some(s)),
        Err(e) => Err(e),
    }
}

/// The message reporting an unset environment variable.
fn missing_var_msg(name: &str) -> (m: String) {
    let mut msg = String::from_str("environment variable '");
    msg.append(name);
    msg.append("' is not set");
    msg
}

} // verus!
