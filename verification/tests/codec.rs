use base64::Engine;
use sealed_env::codec::{
    decode_key, decrypt_value, encrypt_value, generate_key_b64, is_encrypted, parse_encrypted,
};
use sealed_env::error::SealedError;
use sealed_env::secret::{SecretBytes, SecretText};

fn test_key() -> SecretBytes {
    // 32 fixed bytes so failures are reproducible.
    let bytes: Vec<u8> = (0u8..32u8).collect();
    SecretBytes::from_vec(bytes)
}

fn other_key() -> SecretBytes {
    let bytes: Vec<u8> = (100u8..132u8).collect();
    SecretBytes::from_vec(bytes)
}

fn seal(key: &SecretBytes, name: &str, plaintext: &str) -> String {
    encrypt_value(key, name, &SecretText::from_string(plaintext.to_string())).unwrap()
}

#[test]
fn round_trip_returns_plaintext() {
    let key = test_key();
    let sealed = seal(&key, "DBPASS", "hunter2");
    let out = decrypt_value(&key, "DBPASS", &sealed).unwrap();
    assert_eq!(out.expose(), b"hunter2");
}

#[test]
fn round_trip_empty_and_multiline_plaintexts() {
    let key = test_key();
    for pt in ["", "a", "line one\nline two\n", "sp ace = quote\" #hash"] {
        let sealed = seal(&key, "V", pt);
        let out = decrypt_value(&key, "V", &sealed).unwrap();
        assert_eq!(out.expose(), pt.as_bytes());
    }
}

#[test]
fn wrong_key_fails_with_uniform_crypto_error() {
    let sealed = seal(&test_key(), "DBPASS", "hunter2");
    match decrypt_value(&other_key(), "DBPASS", &sealed) {
        Err(err) => match err {
            SealedError::Crypto(msg) => {
                assert_eq!(msg, "decryption failed (bad key or data)");
            }
            _ => panic!("expected Crypto error"),
        },
        Ok(_) => panic!("expected an error"),
    }
}

#[test]
fn wrong_name_fails_with_uniform_crypto_error() {
    let key = test_key();
    let sealed = seal(&key, "DBPASS", "hunter2");
    match decrypt_value(&key, "OTHER", &sealed) {
        Err(SealedError::Crypto(msg)) => {
            assert_eq!(msg, "decryption failed (bad key or data)");
        }
        _ => panic!("expected Crypto error"),
    }
}

#[test]
fn two_encodings_of_same_input_differ() {
    let key = test_key();
    let a = seal(&key, "V", "same");
    let b = seal(&key, "V", "same");
    assert_ne!(a, b, "nonces must be fresh per call");
}

#[test]
fn sealed_format_has_three_fields_and_right_sizes() {
    let sealed = seal(&test_key(), "V", "hunter2");
    let parts: Vec<&str> = sealed.split(':').collect();
    assert_eq!(parts.len(), 3);
    assert_eq!(parts[0], "ENCv1");
    let nonce = base64::engine::general_purpose::STANDARD
        .decode(parts[1])
        .unwrap();
    assert_eq!(nonce.len(), 12);
    let ct = base64::engine::general_purpose::STANDARD
        .decode(parts[2])
        .unwrap();
    assert_eq!(ct.len(), "hunter2".len() + 16);
}

#[test]
fn tampering_any_field_breaks_decryption() {
    let key = test_key();
    let sealed = seal(&key, "V", "hunter2");
    let parts: Vec<String> = sealed.split(':').map(|s| s.to_string()).collect();
    // Flip the first character of the nonce field.
    let flip = |s: &str| {
        let mut c: Vec<char> = s.chars().collect();
        c[0] = if c[0] == 'A' { 'B' } else { 'A' };
        c.into_iter().collect::<String>()
    };
    let bad_nonce = format!("{}:{}:{}", parts[0], flip(&parts[1]), parts[2]);
    assert!(decrypt_value(&key, "V", &bad_nonce).is_err());
    let bad_ct = format!("{}:{}:{}", parts[0], parts[1], flip(&parts[2]));
    assert!(decrypt_value(&key, "V", &bad_ct).is_err());
}

#[test]
fn parse_encrypted_accepts_well_formed_values() {
    let sealed = seal(&test_key(), "V", "x");
    let (nonce, ct) = parse_encrypted(&sealed).unwrap();
    assert_eq!(nonce.len(), 12);
    assert_eq!(ct.len(), 1 + 16);
}

#[test]
fn parse_encrypted_rejects_malformed_values() {
    for bad in [
        "",
        "ENCv1",
        "ENCv1:onlyone",
        "ENCv2:AAAA:AAAA",
        "encv1:AAAA:AAAA",
        "ENCv1:!!!!:AAAA",
        "ENCv1:AAAA:!!!!",
        // valid base64 nonce of the wrong length (3 bytes, not 12)
        "ENCv1:QUJD:AAAA",
        // empty ciphertext field
        "ENCv1:AAAAAAAAAAAAAAAA:",
    ] {
        match parse_encrypted(bad) {
            Err(SealedError::Crypto(_)) => {}
            Err(_) => panic!("expected Crypto error for {:?}", bad),
            Ok(_) => panic!("accepted {:?}", bad),
        }
    }
}

#[test]
fn is_encrypted_checks_prefix_only() {
    assert!(is_encrypted("ENCv1:"));
    assert!(is_encrypted("ENCv1:junk"));
    assert!(!is_encrypted("ENCv1"));
    assert!(!is_encrypted("encv1:x"));
    assert!(!is_encrypted(""));
    assert!(!is_encrypted("plain"));
}

#[test]
fn decode_key_enforces_base64_and_length() {
    let good = base64::engine::general_purpose::STANDARD.encode([7u8; 32]);
    let key = decode_key(&SecretText::from_string(good)).unwrap();
    assert_eq!(key.expose(), &[7u8; 32]);

    match decode_key(&SecretText::from_string("***".to_string())) {
        Err(SealedError::Crypto(msg)) => assert_eq!(msg, "invalid base64 key"),
        _ => panic!("expected Crypto error"),
    }

    let short = base64::engine::general_purpose::STANDARD.encode([7u8; 16]);
    match decode_key(&SecretText::from_string(short)) {
        Err(SealedError::Crypto(msg)) => {
            assert_eq!(msg, "key must be 32 bytes after base64 decode");
        }
        _ => panic!("expected Crypto error"),
    }
}

#[test]
fn encrypt_rejects_short_key() {
    let key = SecretBytes::from_vec(vec![1u8; 16]);
    match encrypt_value(&key, "V", &SecretText::from_string("x".to_string())) {
        Err(SealedError::Crypto(msg)) => {
            assert_eq!(msg, "key must be 32 bytes after base64 decode");
        }
        _ => panic!("expected Crypto error"),
    }
}

#[test]
fn decrypt_reports_the_failing_stage() {
    let key = test_key();
    let cases = [
        ("notsealed", "invalid encrypted value format"),
        ("ENCv1:AAAAAAAAAAAAAAAA:", "invalid encrypted value format"),
        ("ENCv1:!!!!:AAAA", "invalid base64 nonce"),
        ("ENCv1:QUJD:AAAA", "nonce must be 12 bytes after base64 decode"),
        ("ENCv1:AAAAAAAAAAAAAAAA:!!!!", "invalid base64 ciphertext"),
    ];
    for (bad, expected) in cases {
        match decrypt_value(&key, "V", bad) {
            Err(SealedError::Crypto(msg)) => assert_eq!(msg, expected, "for {:?}", bad),
            _ => panic!("expected Crypto error for {:?}", bad),
        }
    }
}

#[test]
fn generated_key_is_44_base64_chars_decoding_to_32_bytes() {
    let b64 = generate_key_b64().unwrap();
    assert_eq!(b64.len(), 44);
    let raw = base64::engine::general_purpose::STANDARD
        .decode(&b64)
        .unwrap();
    assert_eq!(raw.len(), 32);
}

#[test]
fn generated_keys_encrypt_and_decrypt() {
    let b64 = generate_key_b64().unwrap();
    let key = decode_key(&SecretText::from_string(b64)).unwrap();
    let sealed = seal(&key, "APP", "secret value");
    let out = decrypt_value(&key, "APP", &sealed).unwrap();
    assert_eq!(out.expose(), b"secret value");
}
