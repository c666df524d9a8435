use base64::Engine;
use chacha20poly1305::aead::{Aead, Payload};
use chacha20poly1305::KeyInit;
use sealed_env::codec::{decode_key, generate_key_b64};
use sealed_env::embed::{var, var_optional, var_or_plain};
use sealed_env::error::SealedEnvError;
use sealed_env::secret::SecretText;

fn sealed_binding() -> (String, String) {
    let key_b64 = generate_key_b64().unwrap();
    let key = decode_key(&SecretText::from_string(key_b64.clone())).unwrap();
    let sealed = sealed_env::codec::encrypt_value(
        &key,
        "DBPASS",
        &SecretText::from_string("hunter2".to_string()),
    )
    .unwrap();
    (key_b64, sealed)
}

#[test]
fn var_decrypts_a_sealed_value() {
    let (key_b64, sealed) = sealed_binding();
    let out = var("DBPASS", Some(sealed), Some(key_b64)).unwrap();
    assert_eq!(out, "hunter2");
}

#[test]
fn var_without_key_is_missing_key() {
    let (_, sealed) = sealed_binding();
    match var("DBPASS", Some(sealed), None) {
        Err(SealedEnvError::MissingKey(msg)) => assert_eq!(msg, "SEALED_KEY is not set"),
        _ => panic!("expected MissingKey"),
    }
}

#[test]
fn var_on_plain_value_is_not_encrypted() {
    let (key_b64, _) = sealed_binding();
    match var("PLAIN", Some("hello".to_string()), Some(key_b64)) {
        Err(SealedEnvError::NotEncrypted(msg)) => assert!(msg.contains("PLAIN")),
        _ => panic!("expected NotEncrypted"),
    }
}

#[test]
fn var_on_absent_variable_is_missing_var() {
    match var("NOPE", None, None) {
        Err(SealedEnvError::MissingVar(msg)) => assert!(msg.contains("NOPE")),
        _ => panic!("expected MissingVar"),
    }
}

#[test]
fn var_with_wrong_key_is_crypto() {
    let (_, sealed) = sealed_binding();
    let other = generate_key_b64().unwrap();
    match var("DBPASS", Some(sealed), Some(other)) {
        Err(SealedEnvError::Crypto(msg)) => assert!(msg.contains("decryption failed")),
        _ => panic!("expected Crypto"),
    }
}

#[test]
fn var_with_renamed_binding_is_crypto() {
    let (key_b64, sealed) = sealed_binding();
    match var("OTHER", Some(sealed), Some(key_b64)) {
        Err(SealedEnvError::Crypto(msg)) => assert!(msg.contains("decryption failed")),
        _ => panic!("expected Crypto"),
    }
}

#[test]
fn var_with_bad_key_material_is_crypto() {
    let (_, sealed) = sealed_binding();
    match var("DBPASS", Some(sealed.clone()), Some("***".to_string())) {
        Err(SealedEnvError::Crypto(msg)) => assert_eq!(msg, "invalid base64 key"),
        _ => panic!("expected Crypto"),
    }
    match var("DBPASS", Some(sealed), Some("QUJD".to_string())) {
        Err(SealedEnvError::Crypto(msg)) => {
            assert_eq!(msg, "key must be 32 bytes after base64 decode");
        }
        _ => panic!("expected Crypto"),
    }
}

#[test]
fn var_accepts_sealed_key_with_trailing_newline() {
    let (key_b64, sealed) = sealed_binding();
    let out = var("DBPASS", Some(sealed), Some(format!("{}\n", key_b64))).unwrap();
    assert_eq!(out, "hunter2");
}

#[test]
fn var_rejects_non_utf8_plaintext() {
    let key_bytes = [9u8; 32];
    let cipher = chacha20poly1305::ChaCha20Poly1305::new_from_slice(&key_bytes).unwrap();
    let nonce_bytes = [1u8; 12];
    let nonce = chacha20poly1305::Nonce::try_from(&nonce_bytes[..]).unwrap();
    let ct = cipher
        .encrypt(
            &nonce,
            Payload {
                msg: &[0xff, 0xfe],
                aad: b"BIN",
            },
        )
        .unwrap();
    let std_b64 = base64::engine::general_purpose::STANDARD;
    let sealed = format!("ENCv1:{}:{}", std_b64.encode(nonce_bytes), std_b64.encode(ct));
    let key_b64 = std_b64.encode(key_bytes);
    match var("BIN", Some(sealed), Some(key_b64)) {
        Err(SealedEnvError::Crypto(msg)) => {
            assert_eq!(msg, "decrypted value is not valid UTF-8");
        }
        _ => panic!("expected Crypto"),
    }
}

#[test]
fn var_or_plain_passes_plaintext_through() {
    let out = var_or_plain("PLAIN", Some("hello".to_string()), None).unwrap();
    assert_eq!(out, "hello");
}

#[test]
fn var_or_plain_decrypts_sealed_values() {
    let (key_b64, sealed) = sealed_binding();
    let out = var_or_plain("DBPASS", Some(sealed), Some(key_b64)).unwrap();
    assert_eq!(out, "hunter2");
}

#[test]
fn var_optional_absent_is_none() {
    assert!(var_optional("NOPE", None, None).unwrap().is_none());
}

#[test]
fn var_optional_present_behaves_like_var_or_plain() {
    let (key_b64, sealed) = sealed_binding();
    let out = var_optional("DBPASS", Some(sealed), Some(key_b64)).unwrap();
    assert_eq!(out.unwrap(), "hunter2");
    let plain = var_optional("P", Some("v".to_string()), None).unwrap();
    assert_eq!(plain.unwrap(), "v");
}
