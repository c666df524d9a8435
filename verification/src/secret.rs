//! Erasing containers for secret material.
//!
//! Raw key bytes and plaintext live in containers that overwrite their
//! storage with zeros when released, and expose their content only through
//! an explicit accessor. The containers wrap `secrecy`'s boxes; their
//! content is modelled by the uninterpreted functions [`secret_bytes`] and
//! [`secret_text`].

use vstd::prelude::*;

use rand::TryRng;
use secrecy::ExposeSecret;
use zeroize::Zeroize;

verus! {

/// The byte content held by a [`SecretBytes`] container.
pub uninterp spec fn secret_bytes(s: SecretBytes) -> Seq<u8>;

/// The character content held by a [`SecretText`] container.
pub uninterp spec fn secret_text(s: SecretText) -> Seq<char>;

/// A byte string (key material or raw plaintext) that is zero-overwritten
/// when dropped.
#[verifier::external_body]
pub struct SecretBytes {
    inner: secrecy::SecretSlice<u8>,
}

impl SecretBytes {
    /// Relies on `secrecy::SecretSlice::from`: the box takes ownership of
    /// the bytes and zeroizes them on drop.
    #[verifier::external_body]
    pub fn from_vec(v: Vec<u8>) -> (s: SecretBytes)
        ensures
            secret_bytes(s) == v@,
    {
        SecretBytes { inner: secrecy::SecretSlice::from(v) }
    }

    /// Relies on `secrecy::SecretBox::expose_secret`: returns a borrow of
    /// exactly the stored bytes.
    #[verifier::external_body]
    pub fn expose(&self) -> (b: &[u8])
        ensures
            b@ == secret_bytes(*self),
    {
        self.inner.expose_secret()
    }
}

/// A text secret (a plaintext value or base64 key material) that is
/// zero-overwritten when dropped.
#[verifier::external_body]
pub struct SecretText {
    inner: secrecy::SecretString,
}

impl SecretText {
    /// Relies on `secrecy::SecretString::from`: the box takes ownership of
    /// the string and zeroizes it on drop.
    #[verifier::external_body]
    pub fn from_string(s: String) -> (t: SecretText)
        ensures
            secret_text(t) == s@,
    {
        SecretText { inner: secrecy::SecretString::from(s) }
    }

    /// Relies on `secrecy::SecretBox::expose_secret`: returns a borrow of
    /// exactly the stored text.
    #[verifier::external_body]
    pub fn expose(&self) -> (s: &str)
        ensures
            s@ == secret_text(*self),
    {
        self.inner.expose_secret()
    }
}

/// Relies on `zeroize::Zeroize for Vec<u8>`: every element and the spare
/// capacity are overwritten with zero bytes, then the vector is cleared.
#[verifier::external_body]
pub(crate) fn wipe_bytes(v: &mut Vec<u8>)
    ensures
        final(v)@.len() == 0,
{
    v.zeroize();
}

/// Relies on `getrandom::SysRng` (via `rand`): fills a buffer from the
/// operating system's cryptographically secure random source. Nothing is
/// assumed of the bytes themselves beyond their count.
#[verifier::external_body]
pub(crate) fn random_bytes(n: usize) -> (r: Option<Vec<u8>>)
    ensures
        r matches Some(v) ==> v@.len() == n,
{
    let mut buf = vec![0u8; n];
    let mut rng = rand::rngs::SysRng;
    match rng.try_fill_bytes(&mut buf) {
        Ok(()) => Some(buf),
        Err(_) => None,
    }
}

} // verus!
