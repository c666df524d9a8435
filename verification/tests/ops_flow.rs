use base64::Engine;
use chacha20poly1305::aead::{Aead, Payload};
use chacha20poly1305::KeyInit;
use sealed_env::codec::{decode_key, generate_key_b64};
use sealed_env::error::SealedError;
use sealed_env::ops::{get_from_content, set_in_content, GetOutcome};
use sealed_env::secret::{SecretBytes, SecretText};

fn fresh_key() -> SecretBytes {
    decode_key(&SecretText::from_string(generate_key_b64().unwrap())).unwrap()
}

fn secret(s: &str) -> SecretText {
    SecretText::from_string(s.to_string())
}

#[test]
fn keygen_set_get_round_trip() {
    let key_b64 = generate_key_b64().unwrap();
    assert_eq!(key_b64.len(), 44);
    let key = decode_key(&SecretText::from_string(key_b64)).unwrap();

    let content = set_in_content(&key, "DBPASS", &secret("hunter2"), "").unwrap();
    let lines: Vec<&str> = content.lines().collect();
    assert_eq!(lines.len(), 1);
    assert!(lines[0].starts_with("DBPASS=ENCv1:"));
    assert!(content.ends_with('\n'));

    match get_from_content("DBPASS", ".env", &content, Some(&key), true).unwrap() {
        GetOutcome::Revealed(s) => assert_eq!(s, "hunter2"),
        _ => panic!("expected revealed plaintext"),
    }
}

#[test]
fn get_with_wrong_key_reports_decryption_failure() {
    let key = fresh_key();
    let content = set_in_content(&key, "DBPASS", &secret("hunter2"), "").unwrap();
    let wrong = fresh_key();
    match get_from_content("DBPASS", ".env", &content, Some(&wrong), true) {
        Err(SealedError::Crypto(msg)) => assert!(msg.contains("decryption failed")),
        _ => panic!("expected Crypto error"),
    }
}

#[test]
fn renamed_binding_fails_authentication() {
    let key = fresh_key();
    let content = set_in_content(&key, "DBPASS", &secret("hunter2"), "").unwrap();
    // Same nonce and ciphertext under another name.
    let renamed = content.replacen("DBPASS=", "OTHER=", 1);
    match get_from_content("OTHER", ".env", &renamed, Some(&key), true) {
        Err(SealedError::Crypto(msg)) => assert!(msg.contains("decryption failed")),
        _ => panic!("expected Crypto error"),
    }
}

#[test]
fn set_preserves_export_whitespace_and_comments() {
    let key = fresh_key();
    let content = "   export DBPASS=old\n# note\nKEEP=me\n";
    let out = set_in_content(&key, "DBPASS", &secret("new"), content).unwrap();
    let lines: Vec<&str> = out.lines().collect();
    assert_eq!(lines.len(), 3);
    assert!(lines[0].starts_with("   export DBPASS=ENCv1:"));
    assert_eq!(lines[1], "# note");
    assert_eq!(lines[2], "KEEP=me");
}

#[test]
fn set_rewrites_every_duplicate_to_the_same_sealed_value() {
    let key = fresh_key();
    let out = set_in_content(&key, "A", &secret("3"), "A=1\nA=2\n").unwrap();
    let lines: Vec<&str> = out.lines().collect();
    assert_eq!(lines.len(), 2);
    for line in &lines {
        assert!(line.starts_with("A=ENCv1:"));
        let value = &line["A=".len()..];
        let opened = sealed_env::codec::decrypt_value(&key, "A", value).unwrap();
        assert_eq!(opened.expose(), b"3");
    }
    // Upsert writes one sealed string into every duplicate.
    assert_eq!(lines[0], lines[1]);
}

#[test]
fn get_passes_plain_values_through() {
    match get_from_content("P", ".env", "P=hello\n", None, false).unwrap() {
        GetOutcome::Plain(s) => assert_eq!(s, "hello"),
        _ => panic!("expected plain value"),
    }
}

#[test]
fn get_unknown_variable_is_var_not_found() {
    match get_from_content("NOPE", "custom.env", "A=1\n", None, false) {
        Err(e @ SealedError::VarNotFound(_)) => {
            assert_eq!(e.exit_code(), 1);
            assert!(e.message().contains("NOPE"));
            assert!(e.message().contains("custom.env"));
        }
        _ => panic!("expected VarNotFound"),
    }
}

#[test]
fn get_sealed_without_key_is_crypto_error() {
    let key = fresh_key();
    let content = set_in_content(&key, "S", &secret("x"), "").unwrap();
    match get_from_content("S", ".env", &content, None, true) {
        Err(e @ SealedError::Crypto(_)) => {
            assert_eq!(e.exit_code(), 2);
            assert!(e.message().contains("requires a key"));
        }
        _ => panic!("expected Crypto error"),
    }
}

#[test]
fn get_without_reveal_suppresses_plaintext() {
    let key = fresh_key();
    let content = set_in_content(&key, "S", &secret("x"), "").unwrap();
    assert!(matches!(
        get_from_content("S", ".env", &content, Some(&key), false).unwrap(),
        GetOutcome::Suppressed
    ));
}

#[test]
fn get_reveal_of_binary_plaintext_is_a_crypto_error() {
    let key_bytes = [9u8; 32];
    let cipher = chacha20poly1305::ChaCha20Poly1305::new_from_slice(&key_bytes).unwrap();
    let nonce_bytes = [1u8; 12];
    let nonce = chacha20poly1305::Nonce::try_from(&nonce_bytes[..]).unwrap();
    let ct = cipher
        .encrypt(
            &nonce,
            Payload {
                msg: &[0xff, 0xfe],
                aad: b"BIN",
            },
        )
        .unwrap();
    let std_b64 = base64::engine::general_purpose::STANDARD;
    let sealed = format!("ENCv1:{}:{}", std_b64.encode(nonce_bytes), std_b64.encode(ct));
    let content = format!("BIN={}\n", sealed);
    let key = decode_key(&SecretText::from_string(std_b64.encode(key_bytes))).unwrap();
    match get_from_content("BIN", ".env", &content, Some(&key), true) {
        Err(SealedError::Crypto(msg)) => assert_eq!(msg, "decrypted value is not valid UTF-8"),
        _ => panic!("expected Crypto error"),
    }
    // Without reveal the binary plaintext is simply withheld.
    assert!(matches!(
        get_from_content("BIN", ".env", &content, Some(&key), false).unwrap(),
        GetOutcome::Suppressed
    ));
}

#[test]
fn exit_codes_are_stable() {
    assert_eq!(SealedError::VarNotFound(String::new()).exit_code(), 1);
    assert_eq!(SealedError::Crypto(String::new()).exit_code(), 2);
    assert_eq!(SealedError::Arg(String::new()).exit_code(), 3);
    assert_eq!(SealedError::EnvFile(String::new()).exit_code(), 4);
}
