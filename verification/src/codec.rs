//! The `ENCv1` sealed-value codec.
//!
//! A sealed value is the textual form `ENCv1:<nonce_b64>:<ct_b64>`: exactly
//! two `:` separators, a 12-byte nonce and an AEAD ciphertext (ChaCha20-
//! Poly1305, 32-byte key, tag included), both in standard padded base64.
//! The associated data is the variable's name as UTF-8 bytes, so a renamed
//! variable no longer decrypts.

use vstd::prelude::*;

use crate::b64::{b64_dec, b64_enc, b64_decode, b64_encode, is_b64_char};
use crate::chars::{find_char, lemma_find_char};
use crate::error::SealedError;
use crate::secret::{secret_bytes, secret_text, random_bytes, wipe_bytes, SecretBytes, SecretText};
use vstd::string::StrSliceExecFns;
use vstd::string::StringExecFns;
use vstd::utf8::{decode_utf8, valid_utf8};

use chacha20poly1305::aead::Aead;
use chacha20poly1305::KeyInit;

verus! {

/// The ChaCha20-Poly1305 ciphertext (tag appended) of `msg` under `key`
/// and `nonce`, authenticating `aad` alongside.
pub uninterp spec fn chacha_seal(key: Seq<u8>, nonce: Seq<u8>, aad: Seq<u8>, msg: Seq<u8>) -> Seq<
    u8,
>;

/// The result of ChaCha20-Poly1305 decryption of `ct` under `key` and
/// `nonce` with associated data `aad`: the plaintext, or nothing when
/// authentication fails.
pub uninterp spec fn chacha_open(key: Seq<u8>, nonce: Seq<u8>, aad: Seq<u8>, ct: Seq<u8>) -> Option<
    Seq<u8>,
>;

/// Relies on `chacha20poly1305::ChaCha20Poly1305` through `aead::Aead::
/// encrypt`: deterministic in key, nonce, associated data and message; the
/// 16-byte Poly1305 tag is appended; and decrypting the result with the
/// same key, nonce and associated data returns the message.
#[verifier::external_body]
fn aead_encrypt(key: &[u8], nonce: &[u8], aad: &[u8], msg: &[u8]) -> (r: Option<Vec<u8>>)
    requires
        key@.len() == 32,
        nonce@.len() == 12,
    ensures
        r matches Some(c) ==> c@ == chacha_seal(key@, nonce@, aad@, msg@) && c@.len() == msg@.len()
            + 16 && chacha_open(key@, nonce@, aad@, c@) == Some(msg@),
{
    let cipher = chacha20poly1305::ChaCha20Poly1305::new_from_slice(key).ok()?;
    let nonce = chacha20poly1305::Nonce::try_from(nonce).ok()?;
    cipher.encrypt(&nonce, chacha20poly1305::aead::Payload { msg, aad }).ok()
}

/// Relies on `chacha20poly1305::ChaCha20Poly1305` through `aead::Aead::
/// decrypt`: succeeds exactly when the ciphertext authenticates under the
/// key, nonce and associated data, and then returns the plaintext, which
/// is the ciphertext minus its postfix 16-byte tag; a ciphertext shorter
/// than the tag always fails.
#[verifier::external_body]
fn aead_decrypt(key: &[u8], nonce: &[u8], aad: &[u8], ct: &[u8]) -> (r: Option<Vec<u8>>)
    requires
        key@.len() == 32,
        nonce@.len() == 12,
    ensures
        r matches Some(m) ==> chacha_open(key@, nonce@, aad@, ct@) == Some(m@) && m@.len() + 16
            == ct@.len(),
        r is None ==> chacha_open(key@, nonce@, aad@, ct@) is None,
        ct@.len() < 16 ==> r is None,
{
    let cipher = chacha20poly1305::ChaCha20Poly1305::new_from_slice(key).ok()?;
    let nonce = chacha20poly1305::Nonce::try_from(nonce).ok()?;
    cipher.decrypt(&nonce, chacha20poly1305::aead::Payload { msg: ct, aad }).ok()
}

/// Relies on `String::from_utf8`: succeeds exactly on valid UTF-8 and then
/// decodes the bytes to their character sequence.
#[verifier::external_body]
pub(crate) fn utf8_string(b: &[u8]) -> (r: Option<String>)
    ensures
        r matches Some(s) ==> valid_utf8(b@) && s@ == decode_utf8(b@),
        r is None ==> !valid_utf8(b@),
{
    String::from_utf8(b.to_vec()).ok()
}

/// The version tag of the sealed-value format.
pub open spec fn enc_tag() -> Seq<char> {
    seq!['E', 'N', 'C', 'v', '1']
}

/// The prefix that marks a value as sealed: the version tag and the first
/// separator.
pub open spec fn enc_prefix() -> Seq<char> {
    seq!['E', 'N', 'C', 'v', '1', ':']
}

/// Whether `s` begins with the sealed-value prefix. A routing heuristic
/// only: it does not imply well-formedness.
pub open spec fn looks_sealed(s: Seq<char>) -> bool {
    s.len() >= 6 && s.take(6) == enc_prefix()
}

/// `s` split at its first two `:` separators: the part before the first,
/// the part between, and the (possibly `:`-bearing) remainder; or nothing
/// when `s` holds fewer than two separators.
pub open spec fn split3(s: Seq<char>) -> Option<(Seq<char>, Seq<char>, Seq<char>)> {
    match find_char(s, ':') {
        None => None,
        Some(i) => {
            let rest = s.skip(i + 1);
            match find_char(rest, ':') {
                None => None,
                Some(j) => Some((s.take(i), rest.take(j), rest.skip(j + 1))),
            }
        },
    }
}

/// The nonce and ciphertext bytes of a well-formed sealed value: the tag
/// must be exactly the version tag, all three fields must be non-empty,
/// both base64 fields must decode, and the nonce must be 12 bytes.
pub open spec fn parse_encrypted_spec(s: Seq<char>) -> Option<(Seq<u8>, Seq<u8>)> {
    match split3(s) {
        None => None,
        Some((tag, nb, cb)) => if tag != enc_tag() || cb.len() == 0 {
            None
        } else {
            match b64_dec(nb) {
                None => None,
                Some(n) => if n.len() != 12 {
                    None
                } else {
                    match b64_dec(cb) {
                        None => None,
                        Some(ct) => Some((n, ct)),
                    }
                },
            }
        },
    }
}

/// The plaintext that decoding a sealed value yields: nothing unless the
/// key is 32 bytes, the value is well-formed, and the ciphertext
/// authenticates under the key, nonce and associated data.
pub open spec fn decode_spec(key: Seq<u8>, aad: Seq<u8>, s: Seq<char>) -> Option<Seq<u8>> {
    if key.len() != 32 {
        None
    } else {
        match parse_encrypted_spec(s) {
            None => None,
            Some((n, ct)) => chacha_open(key, n, aad, ct),
        }
    }
}

/// The textual sealed form of a nonce and a ciphertext.
pub open spec fn sealed_string(n: Seq<u8>, ct: Seq<u8>) -> Seq<char> {
    enc_tag() + seq![':'] + b64_enc(n) + seq![':'] + b64_enc(ct)
}

/// The uniform message for any authentication failure: it must not
/// distinguish a wrong key from a wrong name or corrupt ciphertext.
pub open spec fn auth_fail_msg() -> Seq<char> {
    "decryption failed (bad key or data)"@
}

/// The message a malformed sealed value is rejected with, by the first
/// format invariant it breaks: separators, tag and field presence, nonce
/// base64, nonce length, ciphertext base64.
pub open spec fn parse_err_msg(s: Seq<char>) -> Seq<char> {
    match split3(s) {
        None => "invalid encrypted value format"@,
        Some((tag, nb, cb)) => if tag != enc_tag() || cb.len() == 0 {
            "invalid encrypted value format"@
        } else {
            match b64_dec(nb) {
                None => "invalid base64 nonce"@,
                Some(n) => if n.len() != 12 {
                    "nonce must be 12 bytes after base64 decode"@
                } else {
                    "invalid base64 ciphertext"@
                },
            }
        },
    }
}

/// The message decoding a sealed value fails with, by stage: the format
/// invariant it breaks, the key length, or — uniformly — authentication.
pub open spec fn decrypt_err_msg(key: Seq<u8>, s: Seq<char>) -> Seq<char> {
    match parse_encrypted_spec(s) {
        None => parse_err_msg(s),
        Some((n, ct)) => if key.len() != 32 {
            "key must be 32 bytes after base64 decode"@
        } else {
            auth_fail_msg()
        },
    }
}

/// Joining three fields with `:` separators and splitting again returns
/// the fields, provided the first two are free of `:`.
pub proof fn lemma_split3_of_join(a: Seq<char>, b: Seq<char>, c: Seq<char>)
    requires
        forall|i: int| 0 <= i < a.len() ==> a[i] != ':',
        forall|i: int| 0 <= i < b.len() ==> b[i] != ':',
    ensures
        split3(a + seq![':'] + b + seq![':'] + c) == Some((a, b, c)),
{
    let s = a + seq![':'] + b + seq![':'] + c;
    lemma_find_char(s, ':');
    assert(s[a.len() as int] == ':');
    assert(forall|j: int| 0 <= j < a.len() ==> s[j] == a[j] && s[j] != ':');
    let i = find_char(s, ':')->Some_0;
    assert(i == a.len());
    let rest = s.skip(i + 1);
    assert(rest =~= b + seq![':'] + c);
    lemma_find_char(rest, ':');
    assert(rest[b.len() as int] == ':');
    assert(forall|j: int| 0 <= j < b.len() ==> rest[j] == b[j] && rest[j] != ':');
    let j = find_char(rest, ':')->Some_0;
    assert(j == b.len());
    assert(s.take(i) =~= a);
    assert(rest.take(j) =~= b);
    assert(rest.skip(j + 1) =~= c);
}

/// Whether a value begins with the literal sealed-value prefix `ENCv1:`.
pub fn is_encrypted(value: &str) -> (r: bool)
    ensures
        r == looks_sealed(value@),
{
    let n = value.unicode_len();
    if n < 6 {
        return false;
    }
    proof {
        reveal_strlit("ENCv1:");
        assert("ENCv1:"@ =~= enc_prefix());
    }
    let ok = value.get_char(0) == 'E' && value.get_char(1) == 'N' && value.get_char(2) == 'C'
        && value.get_char(3) == 'v' && value.get_char(4) == '1' && value.get_char(5) == ':';
    proof {
        if ok {
            assert(value@.take(6) =~= enc_prefix());
        } else {
            assert(value@.take(6) != enc_prefix()) by {
                if value@.take(6) == enc_prefix() {
                    assert(value@[0] == enc_prefix()[0]);
                    assert(value@[1] == enc_prefix()[1]);
                    assert(value@[2] == enc_prefix()[2]);
                    assert(value@[3] == enc_prefix()[3]);
                    assert(value@[4] == enc_prefix()[4]);
                    assert(value@[5] == enc_prefix()[5]);
                }
            }
        }
    }
    ok
}

/// Split a sealed value into its nonce and ciphertext bytes, enforcing the
/// format invariants: exactly the `ENCv1` tag, two separators delimiting
/// non-empty fields, base64 fields, and a 12-byte nonce. Every rejection
/// is a `Crypto` error.
pub fn parse_encrypted(value: &str) -> (r: Result<(Vec<u8>, Vec<u8>), SealedError>)
    ensures
        r matches Ok((n, ct)) ==> parse_encrypted_spec(value@) == Some((n@, ct@)),
        r is Err <==> parse_encrypted_spec(value@) is None,
        r matches Err(e) ==> e is Crypto && e.spec_message() == parse_err_msg(value@),
{
    let n = value.unicode_len();
    proof {
        lemma_find_char(value@, ':');
    }
    let mut i: usize = 0;
    while i < n && value.get_char(i) != ':'
        invariant
            0 <= i <= n,
            n == value@.len(),
            forall|k: int| 0 <= k < i ==> value@[k] != ':',
        decreases n - i,
    {
        i += 1;
    }
    if i == n {
        return Err(SealedError::Crypto("invalid encrypted value format".to_owned()));
    }
    proof {
        assert(find_char(value@, ':') == Some(i as int));
    }
    let tag_ok = i == 5 && value.get_char(0) == 'E' && value.get_char(1) == 'N' && value.get_char(2)
        == 'C' && value.get_char(3) == 'v' && value.get_char(4) == '1';
    if !tag_ok {
        proof {
            if value@.take(i as int) == enc_tag() {
                assert(value@[0] == enc_tag()[0]);
                assert(value@[1] == enc_tag()[1]);
                assert(value@[2] == enc_tag()[2]);
                assert(value@[3] == enc_tag()[3]);
                assert(value@[4] == enc_tag()[4]);
            }
        }
        return Err(SealedError::Crypto("invalid encrypted value format".to_owned()));
    }
    proof {
        assert(value@.take(i as int) =~= enc_tag());
    }
    let ghost rest = value@.skip(i + 1);
    proof {
        lemma_find_char(rest, ':');
    }
    let mut j: usize = i + 1;
    while j < n && value.get_char(j) != ':'
        invariant
            i < j <= n,
            n == value@.len(),
            rest == value@.skip(i + 1),
            forall|k: int| i < k < j ==> value@[k] != ':',
        decreases n - j,
    {
        j += 1;
    }
    proof {
        assert(forall|k: int| 0 <= k < j - i - 1 ==> rest[k] == value@[k + i + 1] && rest[k]
            != ':');
    }
    if j == n {
        proof {
            assert(find_char(rest, ':') is None);
        }
        return Err(SealedError::Crypto("invalid encrypted value format".to_owned()));
    }
    proof {
        assert(rest[j - i - 1] == ':');
        assert(find_char(rest, ':') == Some(j - i - 1));
    }
    if j + 1 == n {
        proof {
            assert(rest.skip(j - i - 1 + 1) =~= value@.skip(j + 1));
        }
        return Err(SealedError::Crypto("invalid encrypted value format".to_owned()));
    }
    proof {
        assert(rest.skip(j - i - 1 + 1) =~= value@.skip(j + 1));
        assert(rest.skip(j - i - 1 + 1).len() > 0);
    }
    let nonce_b64 = value.substring_char(i + 1, j);
    let ct_b64 = value.substring_char(j + 1, n);
    proof {
        assert(nonce_b64@ =~= rest.take(j - i - 1));
        assert(ct_b64@ =~= rest.skip(j - i - 1 + 1));
    }
    let nonce = match b64_decode(nonce_b64) {
        Some(v) => v,
        None => {
            return Err(SealedError::Crypto("invalid base64 nonce".to_owned()));
        },
    };
    if nonce.len() != 12 {
        return Err(SealedError::Crypto("nonce must be 12 bytes after base64 decode".to_owned()));
    }
    let ct = match b64_decode(ct_b64) {
        Some(v) => v,
        None => {
            return Err(SealedError::Crypto("invalid base64 ciphertext".to_owned()));
        },
    };
    Ok((nonce, ct))
}

/// Decode a base64 key and require exactly 32 bytes of key material.
pub fn decode_key(b64: &SecretText) -> (r: Result<SecretBytes, SealedError>)
    ensures
        r matches Ok(k) ==> b64_dec(secret_text(*b64)) == Some(secret_bytes(k)) && secret_bytes(
            k,
        ).len() == 32,
        r is Ok <==> (b64_dec(secret_text(*b64)) matches Some(d) && d.len() == 32),
        r matches Err(e) ==> e is Crypto && (if b64_dec(secret_text(*b64)) is None {
            e.spec_message() == "invalid base64 key"@
        } else {
            e.spec_message() == "key must be 32 bytes after base64 decode"@
        }),
{
    let s = b64.expose();
    match b64_decode(s) {
        None => Err(SealedError::Crypto("invalid base64 key".to_owned())),
        Some(decoded) => {
            if decoded.len() != 32 {
                Err(SealedError::Crypto("key must be 32 bytes after base64 decode".to_owned()))
            } else {
                Ok(SecretBytes::from_vec(decoded))
            }
        },
    }
}

/// Seal a plaintext under a key, bound to the variable's name: a fresh
/// 12-byte nonce is drawn per call, the name is the associated data, and
/// the result is the textual `ENCv1` form: it parses back into a 12-byte
/// nonce and a ciphertext of the plaintext's length plus the 16-byte tag,
/// is made of base64 characters and exactly two `:` separators (both
/// encoded fields are free of `:`), and decodes, under the same key and
/// name, back to exactly the plaintext bytes. With a 32-byte key the only
/// failures are the nonce draw's and the cipher's.
pub fn encrypt_value(key: &SecretBytes, var_name: &str, plaintext: &SecretText) -> (r: Result<
    String,
    SealedError,
>)
    ensures
        r matches Ok(s) ==> decode_spec(
            secret_bytes(*key),
            vstd::utf8::encode_utf8(var_name@),
            s@,
        ) == Some(vstd::utf8::encode_utf8(secret_text(*plaintext))),
        r matches Ok(s) ==> (exists|n: Seq<u8>|
            n.len() == 12 && s@ == #[trigger] sealed_string(
                n,
                chacha_seal(
                    secret_bytes(*key),
                    n,
                    vstd::utf8::encode_utf8(var_name@),
                    vstd::utf8::encode_utf8(secret_text(*plaintext)),
                ),
            )),
        r matches Ok(s) ==> looks_sealed(s@),
        r matches Ok(s) ==> (parse_encrypted_spec(s@) matches Some((n, ct)) && n.len() == 12
            && ct.len() == vstd::utf8::encode_utf8(secret_text(*plaintext)).len() + 16),
        r matches Ok(s) ==> (forall|x: int|
            0 <= x < s@.len() ==> is_b64_char(#[trigger] s@[x]) || s@[x] == ':'),
        r matches Ok(s) ==> (split3(s@) matches Some((tag, nb, cb)) && (forall|x: int|
            0 <= x < nb.len() ==> #[trigger] nb[x] != ':') && (forall|x: int|
            0 <= x < cb.len() ==> #[trigger] cb[x] != ':')),
        secret_bytes(*key).len() != 32 ==> (r matches Err(e) && e.spec_message()
            == "key must be 32 bytes after base64 decode"@),
        r matches Err(e) ==> (secret_bytes(*key).len() != 32 || e.spec_message()
            == "failed to generate nonce"@ || e.spec_message() == "encryption failed"@),
        r matches Err(e) ==> e is Crypto,
{
    let key_bytes = key.expose();
    if key_bytes.len() != 32 {
        return Err(SealedError::Crypto("key must be 32 bytes after base64 decode".to_owned()));
    }
    let nonce = match random_bytes(12) {
        Some(v) => v,
        None => {
            return Err(SealedError::Crypto("failed to generate nonce".to_owned()));
        },
    };
    let pt = plaintext.expose();
    let ct = match aead_encrypt(key_bytes, nonce.as_slice(), var_name.as_bytes(), pt.as_bytes()) {
        Some(v) => v,
        None => {
            return Err(SealedError::Crypto("encryption failed".to_owned()));
        },
    };
    let nonce_b64 = b64_encode(nonce.as_slice());
    let ct_b64 = b64_encode(ct.as_slice());
    let mut out = String::from_str("ENCv1:");
    out.append(nonce_b64.as_str());
    out.append(":");
    out.append(ct_b64.as_str());
    proof {
        reveal_strlit("ENCv1:");
        reveal_strlit(":");
        let k = secret_bytes(*key);
        let aad = vstd::utf8::encode_utf8(var_name@);
        let msg = vstd::utf8::encode_utf8(secret_text(*plaintext));
        assert("ENCv1:"@ =~= enc_tag() + seq![':']);
        assert(":"@ =~= seq![':']);
        assert(out@ =~= enc_tag() + seq![':'] + b64_enc(nonce@) + seq![':'] + b64_enc(ct@));
        assert(out@ == sealed_string(nonce@, ct@));
        assert(forall|x: int| 0 <= x < enc_tag().len() ==> enc_tag()[x] != ':');
        assert(forall|x: int|
            0 <= x < b64_enc(nonce@).len() ==> is_b64_char(#[trigger] b64_enc(nonce@)[x])
                && b64_enc(nonce@)[x] != ':');
        assert(forall|x: int|
            0 <= x < b64_enc(ct@).len() ==> is_b64_char(#[trigger] b64_enc(ct@)[x]) && b64_enc(
                ct@,
            )[x] != ':');
        lemma_split3_of_join(enc_tag(), b64_enc(nonce@), b64_enc(ct@));
        assert(split3(out@) == Some((enc_tag(), b64_enc(nonce@), b64_enc(ct@))));
        assert(parse_encrypted_spec(out@) == Some((nonce@, ct@)));
        assert(decode_spec(k, aad, out@) == Some(msg));
        assert(nonce@.len() == 12 && out@ == sealed_string(nonce@, chacha_seal(k, nonce@, aad, msg)));
        assert(out@.take(6) =~= enc_prefix());
        let nb = b64_enc(nonce@);
        let cb = b64_enc(ct@);
        assert(is_b64_char(enc_tag()[0]) && is_b64_char(enc_tag()[1]) && is_b64_char(enc_tag()[2])
            && is_b64_char(enc_tag()[3]) && is_b64_char(enc_tag()[4]));
        assert forall|x: int| 0 <= x < out@.len() implies is_b64_char(#[trigger] out@[x])
            || out@[x] == ':' by {
            if x < 5 {
                assert(out@[x] == enc_tag()[x]);
            } else if x == 5 {
                assert(out@[x] == ':');
            } else if x < 6 + nb.len() {
                assert(out@[x] == nb[x - 6]);
            } else if x == 6 + nb.len() {
                assert(out@[x] == ':');
            } else {
                assert(out@[x] == cb[x - 7 - nb.len()]);
            }
        }
    }
    Ok(out)
}

/// Decode a sealed value under a key, with the variable's name as the
/// associated data. Succeeds exactly when the key is 32 bytes, the value
/// is well-formed, and the ciphertext authenticates, returning a plaintext
/// 16 bytes (the tag) shorter than the ciphertext; each failure carries
/// the message of its stage, and every authentication failure one uniform
/// message that does not distinguish a wrong key from a wrong name or
/// corrupt data.
pub fn decrypt_value(key: &SecretBytes, var_name: &str, encrypted: &str) -> (r: Result<
    SecretBytes,
    SealedError,
>)
    ensures
        r matches Ok(p) ==> decode_spec(
            secret_bytes(*key),
            vstd::utf8::encode_utf8(var_name@),
            encrypted@,
        ) == Some(secret_bytes(p)),
        r is Ok <==> decode_spec(
            secret_bytes(*key),
            vstd::utf8::encode_utf8(var_name@),
            encrypted@,
        ) is Some,
        r matches Ok(p) ==> (parse_encrypted_spec(encrypted@) matches Some((n, ct))
            && secret_bytes(p).len() + 16 == ct.len()),
        r matches Err(e) ==> e is Crypto && e.spec_message() == decrypt_err_msg(
            secret_bytes(*key),
            encrypted@,
        ),
        (secret_bytes(*key).len() == 32 && (parse_encrypted_spec(encrypted@) matches Some((n, ct))
            && chacha_open(secret_bytes(*key), n, vstd::utf8::encode_utf8(var_name@), ct)
            is None)) ==> (r matches Err(e) && e.spec_message() == auth_fail_msg()),
{
    let parsed = match parse_encrypted(encrypted) {
        Ok(p) => p,
        Err(e) => {
            return Err(e);
        },
    };
    let (nonce, ct) = parsed;
    let key_bytes = key.expose();
    if key_bytes.len() != 32 {
        return Err(SealedError::Crypto("key must be 32 bytes after base64 decode".to_owned()));
    }
    match aead_decrypt(key_bytes, nonce.as_slice(), var_name.as_bytes(), ct.as_slice()) {
        Some(pt) => Ok(SecretBytes::from_vec(pt)),
        None => {
            let msg = "decryption failed (bad key or data)".to_owned();
            Err(SealedError::Crypto(msg))
        },
    }
}

/// Draw 32 random bytes from the system's secure source and return them in
/// standard padded base64: 44 characters that decode back to the 32-byte
/// key. The raw buffer is zero-overwritten before returning.
pub fn generate_key_b64() -> (r: Result<String, SealedError>)
    ensures
        r matches Ok(s) ==> s@.len() == 44 && (b64_dec(s@) matches Some(k) && k.len() == 32),
        r matches Err(e) ==> e is Crypto,
{
    let mut raw = match random_bytes(32) {
        Some(v) => v,
        None => {
            return Err(SealedError::Crypto("failed to generate key".to_owned()));
        },
    };
    let b64 = b64_encode(raw.as_slice());
    wipe_bytes(&mut raw);
    Ok(b64)
}

} // verus!
