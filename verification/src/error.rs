//! Error taxonomy for the sealed-value tool and the embeddable read API.
//!
//! Each CLI-facing error kind carries a human-readable message and maps to a
//! stable process exit code.

use vstd::prelude::*;

verus! {

/// Errors surfaced by the CLI operations (`set`, `get`, `keygen`) and the
/// components under them.
#[derive(Debug)]
pub enum SealedError {
    /// User-facing misuse: conflicting sources, missing required inputs.
    Arg(String),
    /// Any cryptographic or format failure: base64, nonce length, version
    /// tag, key length, authentication failure, non-UTF-8 reveal.
    Crypto(String),
    /// `get` could not locate the variable in the env file.
    VarNotFound(String),
    /// I/O failure reading or writing the env file.
    EnvFile(String),
}

impl SealedError {
    /// The stable exit code of this error kind.
    pub fn exit_code(&self) -> (code: i32)
        ensures
            code == self.spec_exit_code(),
    {
        match self {
            SealedError::VarNotFound(_) => 1,
            SealedError::Crypto(_) => 2,
            SealedError::Arg(_) => 3,
            SealedError::EnvFile(_) => 4,
        }
    }

    /// Exit code by error kind: 1 variable not found, 2 cryptographic or
    /// format error, 3 argument error, 4 env-file I/O error.
    pub open spec fn spec_exit_code(&self) -> i32 {
        match self {
            SealedError::VarNotFound(_) => 1,
            SealedError::Crypto(_) => 2,
            SealedError::Arg(_) => 3,
            SealedError::EnvFile(_) => 4,
        }
    }

    /// The message carried by the error, whatever its kind.
    pub fn message(&self) -> (msg: &String)
        ensures
            msg@ == self.spec_message(),
    {
        match self {
            SealedError::Arg(m) => m,
            SealedError::Crypto(m) => m,
            SealedError::VarNotFound(m) => m,
            SealedError::EnvFile(m) => m,
        }
    }

    /// The message carried by the error.
    pub open spec fn spec_message(&self) -> Seq<char> {
        match self {
            SealedError::Arg(m) => m@,
            SealedError::Crypto(m) => m@,
            SealedError::VarNotFound(m) => m@,
            SealedError::EnvFile(m) => m@,
        }
    }
}

/// Errors returned by the embeddable read API, which draws the variable and
/// the key from the process environment.
#[derive(Debug)]
pub enum SealedEnvError {
    /// The requested environment variable is not set.
    MissingVar(String),
    /// `SEALED_KEY` is missing from the environment.
    MissingKey(String),
    /// The variable is set but does not carry a sealed value.
    NotEncrypted(String),
    /// Any cryptographic or decoding error.
    Crypto(String),
}

impl SealedEnvError {
    /// The message carried by the error, whatever its kind.
    pub fn message(&self) -> (msg: &String)
        ensures
            msg@ == self.spec_message(),
    {
        match self {
            SealedEnvError::MissingVar(m) => m,
            SealedEnvError::MissingKey(m) => m,
            SealedEnvError::NotEncrypted(m) => m,
            SealedEnvError::Crypto(m) => m,
        }
    }

    /// The message carried by the error.
    pub open spec fn spec_message(&self) -> Seq<char> {
        match self {
            SealedEnvError::MissingVar(m) => m@,
            SealedEnvError::MissingKey(m) => m@,
            SealedEnvError::NotEncrypted(m) => m@,
            SealedEnvError::Crypto(m) => m@,
        }
    }
}

} // verus!
