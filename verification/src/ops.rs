//! The three top-level flows over in-memory file content: planning a
//! `set`, sealing a value into env-file content, and reading (and
//! possibly decrypting) a variable out of it. Key generation lives with
//! the codec; file and stream I/O is the caller's concern.

use vstd::prelude::*;

use crate::args::SetArgs;
use crate::b64::is_b64_char;
use crate::codec::{
    decode_spec,
    decrypt_err_msg,
    decrypt_value,
    encrypt_value,
    is_encrypted,
    looks_sealed,
    parse_encrypted_spec,
    utf8_string,
};
use crate::envfile::{read_var, read_var_spec, upsert_spec, upsert_var, value_ok};
use crate::error::SealedError;
use crate::input::{
    key_source_count,
    trim_end_nl,
    select_key_input,
    select_value_source,
    value_source_count,
    KeyInput,
    ValueSource,
};
use crate::secret::{secret_bytes, secret_text, SecretBytes, SecretText};
use vstd::string::StringExecFns;
use vstd::utf8::{decode_utf8, encode_utf8, valid_utf8};

verus! {

/// What a `get` produced: a plaintext binding passed through verbatim, a
/// decrypted value to print, or a decrypted value withheld because its
/// reveal was not requested.
pub enum GetOutcome {
    /// The binding was not sealed; its verbatim value.
    Plain(String),
    /// The binding was sealed and decryption was requested: the plaintext.
    Revealed(String),
    /// The binding was sealed and decrypted, but printing was not asked
    /// for; the plaintext is withheld.
    Suppressed,
}

/// Decide everything about a `set` invocation that precedes I/O: reject
/// the double use of stdin, choose the single value source, and choose the
/// single key source, which must be present.
pub fn plan_set(args: &SetArgs, env_key: Option<String>) -> (r: Result<
    (ValueSource, KeyInput),
    SealedError,
>)
    ensures
        ({
            let vcnt = value_source_count(*args);
            let kcnt = key_source_count(
                args.key.deep_view(),
                args.key_file.deep_view(),
                args.key_stdin,
                env_key.deep_view(),
            );
            &&& r matches Err(e) ==> e is Arg
            &&& args.stdin && args.key_stdin ==> r is Err
            &&& r is Ok <==> (!(args.stdin && args.key_stdin) && vcnt == 1 && (args.value is Some
                ==> args.allow_argv) && kcnt == 1)
            &&& r matches Ok((vs, ki)) ==> {
                &&& (args.stdin ==> vs == ValueSource::Stdin)
                &&& (args.value matches Some(v0) ==> (vs matches ValueSource::Argv(v) && v@
                    == v0@))
                &&& (args.value_file matches Some(f0) ==> (vs matches ValueSource::File(f) && f@
                    == f0@))
                &&& (args.key matches Some(k0) ==> (ki matches KeyInput::Direct(d) && d@ == k0@))
                &&& (args.key_file matches Some(kf0) ==> (ki matches KeyInput::File(p) && p@
                    == kf0@))
                &&& (args.key_stdin ==> ki == KeyInput::Stdin)
                &&& (args.key is None && args.key_file is None && !args.key_stdin ==> (
                env_key matches Some(e) ==> (ki matches KeyInput::Env(s) && s@ == trim_end_nl(
                    e@,
                ))))
            }
        }),
{
    if args.stdin && args.key_stdin {
        return Err(
            SealedError::Arg(
                "stdin may be used only once; --stdin and --key-stdin cannot be used together".to_owned(),
            ),
        );
    }
    let source = match select_value_source(args) {
        Ok(s) => s,
        Err(e) => {
            return Err(e);
        },
    };
    let key = match &args.key {
        Some(s) => Some(s.clone()),
        None => None,
    };
    let key_file = match &args.key_file {
        Some(s) => Some(s.clone()),
        None => None,
    };
    let key_input = match select_key_input(key, key_file, args.key_stdin, env_key) {
        Ok(k) => k,
        Err(e) => {
            return Err(e);
        },
    };
    match key_input {
        Some(ki) => Ok((source, ki)),
        None => Err(
            SealedError::Arg(
                "key required; provide --key, --key-file, --key-stdin, or set SEALED_KEY".to_owned(),
            ),
        ),
    }
}

/// Seal `plaintext` under `key`, bound to `var_name`, and upsert the
/// sealed value into `content`: the returned content binds `var_name` to a
/// well-formed sealed string — it parses into a 12-byte nonce and a
/// ciphertext of the plaintext's length plus the tag, holds no newline or
/// trailing carriage return, and decodes back to the plaintext under the
/// same key and name — and every other line is carried over. With a
/// 32-byte key the only failures are the nonce draw's and the cipher's.
pub fn set_in_content(
    key: &SecretBytes,
    var_name: &str,
    plaintext: &SecretText,
    content: &str,
) -> (r: Result<String, SealedError>)
    ensures
        r matches Ok(out) ==> (exists|sealed: Seq<char>|
            {
                &&& decode_spec(secret_bytes(*key), encode_utf8(var_name@), sealed) == Some(
                    encode_utf8(secret_text(*plaintext)),
                )
                &&& looks_sealed(sealed)
                &&& value_ok(sealed)
                &&& (parse_encrypted_spec(sealed) matches Some((n, ct)) && n.len() == 12
                    && ct.len() == encode_utf8(secret_text(*plaintext)).len() + 16)
                &&& out@ == #[trigger] upsert_spec(content@, var_name@, sealed)
            }),
        secret_bytes(*key).len() != 32 ==> (r matches Err(e) && e.spec_message()
            == "key must be 32 bytes after base64 decode"@),
        r matches Err(e) ==> (secret_bytes(*key).len() != 32 || e.spec_message()
            == "failed to generate nonce"@ || e.spec_message() == "encryption failed"@),
        r matches Err(e) ==> e is Crypto,
{
    let sealed = match encrypt_value(key, var_name, plaintext) {
        Ok(s) => s,
        Err(e) => {
            return Err(e);
        },
    };
    let out = upsert_var(content, var_name, sealed.as_str());
    proof {
        assert forall|x: int| 0 <= x < sealed@.len() implies #[trigger] sealed@[x] != '\n'
            && sealed@[x] != '\r' by {
            assert(is_b64_char(sealed@[x]) || sealed@[x] == ':');
        }
        assert(value_ok(sealed@));
        assert(decode_spec(secret_bytes(*key), encode_utf8(var_name@), sealed@) == Some(
            encode_utf8(secret_text(*plaintext)),
        ) && looks_sealed(sealed@) && out@ == upsert_spec(content@, var_name@, sealed@));
    }
    Ok(out)
}

/// Read `var_name` out of `content` and decide what `get` emits: the
/// variable must be bound; an unsealed value passes through verbatim; a
/// sealed value needs a key and authenticates against the variable's name,
/// a failure carrying the message of its stage (uniform for every
/// authentication failure); and the decrypted plaintext is printed only on
/// request, and only when it is valid UTF-8.
pub fn get_from_content(
    var_name: &str,
    env_path: &str,
    content: &str,
    key: Option<&SecretBytes>,
    reveal: bool,
) -> (r: Result<GetOutcome, SealedError>)
    ensures
        ({
            let rv = read_var_spec(content@, var_name@);
            &&& rv is None ==> (r matches Err(e) && e is VarNotFound)
            &&& rv matches Some(v) ==> {
                &&& !looks_sealed(v) ==> (r matches Ok(o) && o matches GetOutcome::Plain(s) && s@
                    == v)
                &&& looks_sealed(v) && key is None ==> (r matches Err(e) && e is Crypto)
                &&& looks_sealed(v) ==> (key matches Some(k) ==> {
                    let d = decode_spec(secret_bytes(*k), encode_utf8(var_name@), v);
                    &&& d is None ==> (r matches Err(e) && e is Crypto && e.spec_message()
                        == decrypt_err_msg(secret_bytes(*k), v))
                    &&& d matches Some(p) ==> {
                        &&& !reveal ==> r == Ok::<GetOutcome, SealedError>(GetOutcome::Suppressed)
                        &&& reveal && valid_utf8(p) ==> (r matches Ok(o) && o matches GetOutcome::Revealed(
                            s,
                        ) && s@ == decode_utf8(p))
                        &&& reveal && !valid_utf8(p) ==> (r matches Err(e) && e is Crypto
                            && e.spec_message() == "decrypted value is not valid UTF-8"@)
                    }
                })
            }
        }),
{
    let value = match read_var(content, var_name) {
        Some(v) => v,
        None => {
            let mut msg = String::from_str("variable '");
            msg.append(var_name);
            msg.append("' not found in ");
            msg.append(env_path);
            return Err(SealedError::VarNotFound(msg));
        },
    };
    if !is_encrypted(value.as_str()) {
        return Ok(GetOutcome::Plain(value));
    }
    let key = match key {
        Some(k) => k,
        None => {
            return Err(
                SealedError::Crypto(
                    "encrypted value requires a key; provide --key, --key-file, --key-stdin, or set SEALED_KEY".to_owned(),
                ),
            );
        },
    };
    let decrypted = match decrypt_value(key, var_name, value.as_str()) {
        Ok(p) => p,
        Err(e) => {
            return Err(e);
        },
    };
    if !reveal {
        return Ok(GetOutcome::Suppressed);
    }
    match utf8_string(decrypted.expose()) {
        Some(s) => Ok(GetOutcome::Revealed(s)),
        None => Err(SealedError::Crypto("decrypted value is not valid UTF-8".to_owned())),
    }
}

} // verus!
