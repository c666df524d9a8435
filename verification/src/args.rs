//! The parsed command-line surface: three commands and their arguments.
//!
//! Flag parsing itself is an outer concern; these types carry what it
//! produced. Paths are plain strings here; the caller resolves them.

use vstd::prelude::*;

verus! {

/// A parsed invocation: one of the three commands.
pub struct Cli {
    pub command: Commands,
}

/// The three top-level commands.
pub enum Commands {
    /// Encrypt and store a variable in an env file.
    SetCmd(SetArgs),
    /// Read a variable from an env file.
    Get(GetArgs),
    /// Generate a new random key (base64).
    Keygen(KeygenArgs),
}

/// Arguments of `set`: the variable name (used as associated data), one
/// value source, one key source, and the env file to edit.
pub struct SetArgs {
    pub var_name: String,
    /// Read the plaintext value from stdin.
    pub stdin: bool,
    /// Plaintext value given on the command line; needs `allow_argv`.
    pub value: Option<String>,
    /// Path of a file holding the plaintext value.
    pub value_file: Option<String>,
    /// Acknowledge that argv is world-readable on many systems.
    pub allow_argv: bool,
    /// Base64 key given on the command line.
    pub key: Option<String>,
    /// Path of a file holding the base64 key.
    pub key_file: Option<String>,
    /// Read the base64 key from stdin.
    pub key_stdin: bool,
    /// Path of the env file to edit.
    pub env_file: String,
}

/// Arguments of `get`: the variable name, the env file, whether to print
/// the plaintext, and an optional key source.
pub struct GetArgs {
    pub var_name: String,
    pub env_file: String,
    /// Print decrypted plaintext to stdout.
    pub reveal: bool,
    pub key: Option<String>,
    pub key_file: Option<String>,
    pub key_stdin: bool,
}

/// Arguments of `keygen`: where to write the base64 key, stdout if absent.
pub struct KeygenArgs {
    pub out_file: Option<String>,
}

} // verus!
