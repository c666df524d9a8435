//! Sealed environment variables: at-rest confidentiality for individual
//! values in dotenv-style files.
//!
//! A sensitive value is encrypted under a 32-byte symmetric key with
//! ChaCha20-Poly1305, bound to its variable's name as associated data, and
//! stored in place as `ENCv1:<nonce_b64>:<ct_b64>` alongside plaintext
//! variables in the same file ([`codec`]). The env-file edit engine reads
//! and upserts bindings while preserving unrelated lines, leading
//! whitespace, `export ` prefixes and duplicate-key layout ([`envfile`]).
//! Key and plaintext bytes live in erasing containers and are acquired
//! from exactly one of several sources under a strict no-fallthrough
//! policy ([`secret`], [`input`]). The top-level `set` and `get` flows and
//! key generation sit in [`ops`] and [`codec`]; an embeddable read path
//! that decrypts sealed values found in the process environment is in
//! [`embed`]. File, stream and environment I/O stay with the caller.

pub mod args;
pub mod b64;
pub mod chars;
pub mod codec;
pub mod embed;
pub mod envfile;
pub mod error;
pub mod input;
pub mod ops;
pub mod secret;
