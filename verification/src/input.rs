//! Secret intake policy: which single source supplies the plaintext value
//! and which single source supplies the key.
//!
//! A value comes from exactly one of stdin, an argv string (only with an
//! explicit acknowledgement that command lines are world-readable), or a
//! file. A key comes from exactly one of an argv string, a file, stdin, or
//! the `SEALED_KEY` environment variable (counted only when non-empty);
//! offering more than one key source is an error — the policy never picks
//! silently. Reading the chosen source is the caller's concern; this
//! module only decides, and trims the trailing newlines that terminals and
//! files append.

use vstd::prelude::*;

use crate::args::SetArgs;
use crate::error::SealedError;
use vstd::string::StrSliceExecFns;
use vstd::string::StringExecFns;

verus! {

/// The single source a plaintext value is to be read from.
pub enum ValueSource {
    /// Consume standard input to EOF.
    Stdin,
    /// The string given on the command line, permitted explicitly.
    Argv(String),
    /// Read the file at this path as UTF-8.
    File(String),
}

/// The single source a key is to be read from.
pub enum KeyInput {
    /// Base64 key material given on the command line.
    Direct(String),
    /// Path of a file holding the base64 key.
    File(String),
    /// Consume standard input to EOF.
    Stdin,
    /// The value of the `SEALED_KEY` environment variable.
    Env(String),
}

/// How many value sources an invocation offers.
pub open spec fn value_source_count(args: SetArgs) -> int {
    (if args.stdin {
        1int
    } else {
        0
    }) + (if args.value is Some {
        1int
    } else {
        0
    }) + (if args.value_file is Some {
        1int
    } else {
        0
    })
}

/// Choose the plaintext value source of a `set` invocation: exactly one of
/// stdin, argv (which additionally demands the explicit acknowledgement),
/// or a file. Anything else is an `Arg` error.
pub fn select_value_source(args: &SetArgs) -> (r: Result<ValueSource, SealedError>)
    ensures
        value_source_count(*args) != 1 ==> (r matches Err(e) && e is Arg),
        value_source_count(*args) == 1 && args.value is Some && !args.allow_argv ==> (r matches Err(
            e,
        ) && e is Arg && e.spec_message() == "--value requires --allow-argv"@),
        value_source_count(*args) == 1 && args.stdin ==> r == Ok::<ValueSource, SealedError>(ValueSource::Stdin),
        value_source_count(*args) == 1 && args.allow_argv ==> (args.value matches Some(v0) ==> (
        r matches Ok(ValueSource::Argv(v)) && v@ == v0@)),
        value_source_count(*args) == 1 ==> (args.value_file matches Some(f0) ==> (r matches Ok(
            ValueSource::File(f),
        ) && f@ == f0@)),
{
    let mut count: u32 = 0;
    if args.stdin {
        count += 1;
    }
    if args.value.is_some() {
        count += 1;
    }
    if args.value_file.is_some() {
        count += 1;
    }
    if count != 1 {
        return Err(
            SealedError::Arg(
                "value required; choose exactly one of --stdin, --value (with --allow-argv), or --value-file".to_owned(),
            ),
        );
    }
    if args.value.is_some() && !args.allow_argv {
        return Err(SealedError::Arg("--value requires --allow-argv".to_owned()));
    }
    if args.stdin {
        return Ok(ValueSource::Stdin);
    }
    match &args.value {
        Some(v) => Ok(ValueSource::Argv(v.clone())),
        None => {
            match &args.value_file {
                Some(f) => Ok(ValueSource::File(f.clone())),
                None => Err(
                    SealedError::Arg(
                        "value required; choose exactly one of --stdin, --value (with --allow-argv), or --value-file".to_owned(),
                    ),
                ),
            }
        },
    }
}

/// Whether an offered `SEALED_KEY` value counts as a key source: it must
/// be non-empty.
pub open spec fn env_key_effective(env_key: Option<Seq<char>>) -> bool {
    match env_key {
        Some(e) => e.len() > 0,
        None => false,
    }
}

/// How many key sources an invocation offers.
pub open spec fn key_source_count(
    key: Option<Seq<char>>,
    key_file: Option<Seq<char>>,
    key_stdin: bool,
    env_key: Option<Seq<char>>,
) -> int {
    (if key is Some {
        1int
    } else {
        0
    }) + (if key_file is Some {
        1int
    } else {
        0
    }) + (if key_stdin {
        1int
    } else {
        0
    }) + (if env_key_effective(env_key) {
        1int
    } else {
        0
    })
}

/// Choose the key source among an argv string, a file path, stdin, and a
/// non-empty `SEALED_KEY` value, whose trailing newlines are stripped like
/// those of any other non-argv source. More than one offered source is an
/// `Arg` error — never a silent pick; none offered is no source, which the
/// caller judges.
pub fn select_key_input(
    key: Option<String>,
    key_file: Option<String>,
    key_stdin: bool,
    env_key: Option<String>,
) -> (r: Result<Option<KeyInput>, SealedError>)
    ensures
        ({
            let cnt = key_source_count(
                key.deep_view(),
                key_file.deep_view(),
                key_stdin,
                env_key.deep_view(),
            );
            &&& cnt > 1 ==> (r matches Err(e) && e is Arg)
            &&& cnt <= 1 ==> r is Ok
            &&& cnt <= 1 ==> (key matches Some(k) ==> (r matches Ok(Some(KeyInput::Direct(d)))
                && d@ == k@))
            &&& cnt <= 1 && key is None ==> (key_file matches Some(f) ==> (r matches Ok(
                Some(KeyInput::File(p)),
            ) && p@ == f@))
            &&& (cnt <= 1 && key is None && key_file is None && key_stdin) ==> r == Ok::<
                Option<KeyInput>,
                SealedError,
            >(Some(KeyInput::Stdin))
            &&& cnt <= 1 && key is None && key_file is None && !key_stdin ==> (env_key matches Some(
                e,
            ) ==> (e@.len() > 0 ==> (r matches Ok(Some(KeyInput::Env(s))) && s@ == trim_end_nl(
                e@,
            ))))
            &&& (cnt == 0) ==> r == Ok::<Option<KeyInput>, SealedError>(None)
        }),
{
    let env_eff: Option<String> = match env_key {
        Some(e) => {
            if e.as_str().is_empty() {
                None
            } else {
                Some(e)
            }
        },
        None => None,
    };
    let mut count: u32 = 0;
    if key.is_some() {
        count += 1;
    }
    if key_file.is_some() {
        count += 1;
    }
    if key_stdin {
        count += 1;
    }
    if env_eff.is_some() {
        count += 1;
    }
    if count > 1 {
        return Err(
            SealedError::Arg(
                "choose exactly one key source: --key, --key-file, --key-stdin, or SEALED_KEY".to_owned(),
            ),
        );
    }
    match key {
        Some(k) => {
            return Ok(Some(KeyInput::Direct(k)));
        },
        None => {},
    }
    match key_file {
        Some(f) => {
            return Ok(Some(KeyInput::File(f)));
        },
        None => {},
    }
    if key_stdin {
        return Ok(Some(KeyInput::Stdin));
    }
    match env_eff {
        Some(e) => Ok(Some(KeyInput::Env(String::from_str(trim_end_newlines(e.as_str()))))),
        None => Ok(None),
    }
}

/// `s` with every trailing newline and carriage return removed.
pub open spec fn trim_end_nl(s: Seq<char>) -> Seq<char>
    decreases s.len(),
{
    if s.len() > 0 && (s.last() == '\n' || s.last() == '\r') {
        trim_end_nl(s.drop_last())
    } else {
        s
    }
}

/// A terminator-free suffix bound pins `trim_end_nl` to the prefix of
/// length `k`.
proof fn lemma_trim_end_nl_is(s: Seq<char>, k: int)
    requires
        0 <= k <= s.len(),
        forall|j: int| k <= j < s.len() ==> s[j] == '\n' || s[j] == '\r',
        k > 0 ==> !(s[k - 1] == '\n' || s[k - 1] == '\r'),
    ensures
        trim_end_nl(s) == s.take(k),
    decreases s.len(),
{
    if k < s.len() {
        lemma_trim_end_nl_is(s.drop_last(), k);
        assert(s.drop_last().take(k) =~= s.take(k));
    } else {
        assert(s.take(k) =~= s);
    }
}

/// Strip the trailing `\n` and `\r` bytes that terminal or file input
/// appends, keeping interior newlines (a multi-line secret is permitted).
pub fn trim_end_newlines(s: &str) -> (r: &str)
    ensures
        r@ == trim_end_nl(s@),
{
    let n = s.unicode_len();
    let mut k: usize = n;
    while k > 0 && (s.get_char(k - 1) == '\n' || s.get_char(k - 1) == '\r')
        invariant
            0 <= k <= n,
            n == s@.len(),
            forall|j: int| k <= j < n ==> s@[j] == '\n' || s@[j] == '\r',
        decreases k,
    {
        k -= 1;
    }
    proof {
        lemma_trim_end_nl_is(s@, k as int);
    }
    let r = s.substring_char(0, k);
    proof {
        assert(r@ =~= s@.take(k as int));
    }
    r
}

} // verus!
