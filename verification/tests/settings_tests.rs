use rnagent::settings::AppSettings;
use rnagent::settings::CryptoError;
use rnagent::settings::SettingsError;
use rnagent::settings::decrypt_value;
use rnagent::settings::derive_key;
use rnagent::settings::encrypt_value;
use rnagent::settings::machine_key;
use rnagent::settings::validate_s3_settings;

fn filled() -> AppSettings {
    AppSettings {
        username: "u".to_string(),
        api_url: "http://localhost:3000".to_string(),
        ws_url: "ws://localhost:3000".to_string(),
        aws_access_key_id: "AKIA".to_string(),
        aws_secret_access_key: "SECRET-REDACTED".to_string(),
        aws_region: "eu-west-1".to_string(),
        aws_bucket: "bucket".to_string(),
    }
}

#[test]
fn validation_reports_each_missing_field() {
    assert!(validate_s3_settings(&filled()).is_ok());

    let mut s = filled();
    s.aws_access_key_id = String::new();
    assert!(matches!(
        validate_s3_settings(&s),
        Err(SettingsError::CredentialsNotConfigured)
    ));

    let mut s = filled();
    s.aws_secret_access_key = String::new();
    assert!(matches!(
        validate_s3_settings(&s),
        Err(SettingsError::CredentialsNotConfigured)
    ));

    let mut s = filled();
    s.aws_region = String::new();
    assert!(matches!(
        validate_s3_settings(&s),
        Err(SettingsError::RegionNotConfigured)
    ));

    let mut s = filled();
    s.aws_bucket = String::new();
    assert!(matches!(
        validate_s3_settings(&s),
        Err(SettingsError::BucketNotConfigured)
    ));

    assert_eq!(
        SettingsError::RegionNotConfigured.message(),
        "AWS region not configured."
    );
}

#[test]
fn default_settings_are_empty() {
    let s = AppSettings::default();
    assert!(s.username.is_empty());
    assert!(s.api_url.is_empty());
    assert!(s.aws_bucket.is_empty());
}

#[test]
fn key_derivation_digests_its_input() {
    let a = derive_key("machine-a");
    let b = derive_key("machine-b");
    assert_eq!(a.len(), 32);
    assert_eq!(b.len(), 32);
    assert_ne!(a, b);
    // The digest is not the raw material handed back.
    assert_ne!(a, b"machine-a".to_vec());
    assert_eq!(a, derive_key("machine-a"));
    assert_eq!(machine_key().len(), 32);
}

#[test]
fn credential_round_trip() {
    let key = derive_key("unit-test-machine");
    let stored = encrypt_value(&key, "s3cr3t value with spaces").unwrap();
    assert!(!stored.is_empty());
    assert_ne!(stored, "s3cr3t value with spaces");
    let back = decrypt_value(&key, &stored).unwrap();
    assert_eq!(back, "s3cr3t value with spaces");
}

#[test]
fn empty_credential_stays_empty() {
    let key = derive_key("unit-test-machine");
    assert_eq!(encrypt_value(&key, "").unwrap(), "");
    assert_eq!(decrypt_value(&key, "").unwrap(), "");
}

#[test]
fn decrypt_failures_are_classified() {
    let key = derive_key("unit-test-machine");

    assert!(matches!(
        decrypt_value(&key, "!!!not base64!!!"),
        Err(CryptoError::BadBase64)
    ));
    // Three bytes decode fine but are shorter than a nonce.
    assert!(matches!(
        decrypt_value(&key, "AAAA"),
        Err(CryptoError::CiphertextTooShort)
    ));
    // A tampered ciphertext no longer authenticates.
    let stored = encrypt_value(&key, "payload").unwrap();
    let mut bytes = stored.into_bytes();
    let last = bytes.len() - 1;
    bytes[last] = if bytes[last] == b'A' { b'B' } else { b'A' };
    let tampered = String::from_utf8(bytes).unwrap();
    match decrypt_value(&key, &tampered) {
        Err(CryptoError::DecryptFailed) | Err(CryptoError::BadBase64) => {},
        _ => panic!("tampering must not decrypt"),
    }
    // A different key must not decrypt.
    let stored = encrypt_value(&key, "payload").unwrap();
    let other = derive_key("another-machine");
    assert!(matches!(
        decrypt_value(&other, &stored),
        Err(CryptoError::DecryptFailed)
    ));
    assert_eq!(CryptoError::CiphertextTooShort.message(), "Ciphertext too short");
}
