//! Application settings: the stored fields, the checks an S3 client needs,
//! and the cipher protecting the stored AWS credentials.
//!
//! A credential is stored as `base64(nonce ++ ciphertext)` under a key
//! derived from a machine identifier; an empty credential is stored as the
//! empty string. The framing (key derivation input, nonce split, length
//! check) is verified; the hash, the AEAD and the base64 coding are trusted
//! calls into their crates.

use vstd::prelude::*;
use aes_gcm::aead::Aead;
use aes_gcm::aead::AeadCore;
use aes_gcm::aead::KeyInit;
use aes_gcm::aead::OsRng;
use aes_gcm::Aes256Gcm;
use aes_gcm::Key;
use aes_gcm::Nonce;
use base64::Engine;
use sha2::Digest;
use sha2::Sha256;
use vstd::utf8::encode_utf8;
use vstd::utf8::decode_utf8;
use vstd::utf8::valid_utf8;

verus! {

/// The stored settings of the application.
#[derive(Debug, Clone)]
pub struct AppSettings {
    pub username: String,
    pub api_url: String,
    pub ws_url: String,
    pub aws_access_key_id: String,
    pub aws_secret_access_key: String,
    pub aws_region: String,
    pub aws_bucket: String,
}

impl Default for AppSettings {
    fn default() -> (r: AppSettings)
        ensures
            r.username@ == Seq::<char>::empty(),
            r.api_url@ == Seq::<char>::empty(),
            r.ws_url@ == Seq::<char>::empty(),
            r.aws_access_key_id@ == Seq::<char>::empty(),
            r.aws_secret_access_key@ == Seq::<char>::empty(),
            r.aws_region@ == Seq::<char>::empty(),
            r.aws_bucket@ == Seq::<char>::empty(),
    {
        AppSettings {
            username: String::new(),
            api_url: String::new(),
            ws_url: String::new(),
            aws_access_key_id: String::new(),
            aws_secret_access_key: String::new(),
            aws_region: String::new(),
            aws_bucket: String::new(),
        }
    }
}

/// What keeps an S3 client from being built out of the settings.
pub enum SettingsError {
    /// Access key or secret key missing.
    CredentialsNotConfigured,
    /// Region missing.
    RegionNotConfigured,
    /// Bucket missing.
    BucketNotConfigured,
}

impl SettingsError {
    /// The message the S3 operations fail with.
    pub fn message(&self) -> (s: String)
        ensures
            match self {
                SettingsError::CredentialsNotConfigured => s@
                    == "AWS credentials not configured. Please complete setup in Settings."@,
                SettingsError::RegionNotConfigured => s@ == "AWS region not configured."@,
                SettingsError::BucketNotConfigured => s@ == "AWS bucket not configured."@,
            },
    {
        match self {
            SettingsError::CredentialsNotConfigured => String::from_str(
                "AWS credentials not configured. Please complete setup in Settings.",
            ),
            SettingsError::RegionNotConfigured => String::from_str("AWS region not configured."),
            SettingsError::BucketNotConfigured => String::from_str("AWS bucket not configured."),
        }
    }
}

/// Checks the fields an S3 client needs, in the order the caller reports
/// them: credentials first, then region, then bucket.
pub fn validate_s3_settings(settings: &AppSettings) -> (r: Result<(), SettingsError>)
    ensures
        r matches Err(SettingsError::CredentialsNotConfigured) <==> (
        settings.aws_access_key_id@.len() == 0 || settings.aws_secret_access_key@.len() == 0),
        r matches Err(SettingsError::RegionNotConfigured) <==> (settings.aws_access_key_id@.len()
            > 0 && settings.aws_secret_access_key@.len() > 0 && settings.aws_region@.len() == 0),
        r matches Err(SettingsError::BucketNotConfigured) <==> (settings.aws_access_key_id@.len()
            > 0 && settings.aws_secret_access_key@.len() > 0 && settings.aws_region@.len() > 0
            && settings.aws_bucket@.len() == 0),
        r is Ok <==> (settings.aws_access_key_id@.len() > 0
            && settings.aws_secret_access_key@.len() > 0 && settings.aws_region@.len() > 0
            && settings.aws_bucket@.len() > 0),
{
    if settings.aws_access_key_id.as_str().is_empty()
        || settings.aws_secret_access_key.as_str().is_empty() {
        return Err(SettingsError::CredentialsNotConfigured);
    }
    if settings.aws_region.as_str().is_empty() {
        return Err(SettingsError::RegionNotConfigured);
    }
    if settings.aws_bucket.as_str().is_empty() {
        return Err(SettingsError::BucketNotConfigured);
    }
    Ok(())
}

/// What SHA-256 returns on the given bytes.
pub uninterp spec fn sha256_of(b: Seq<u8>) -> Seq<u8>;

/// Relies on sha2's Sha256: the digest is a function of the input bytes
/// alone and is 32 bytes long.
#[verifier::external_body]
fn sha256(b: &[u8]) -> (r: Vec<u8>)
    ensures
        r@ == sha256_of(b@),
        r@.len() == 32,
{
    let mut h = Sha256::new();
    h.update(b);
    h.finalize().to_vec()
}

/// Relies on machine_uid::get: a machine identifier read from the running
/// system; nothing is assumed of its value.
#[verifier::external_body]
fn machine_uid_string() -> (r: Option<String>)
{
    machine_uid::get().ok()
}

/// The key protecting stored credentials on a machine with identifier
/// `uid`: the digest of a fixed domain prefix and the identifier.
pub open spec fn derived_key(uid: Seq<char>) -> Seq<u8> {
    sha256_of(encode_utf8("rnagent-config-v1:"@) + encode_utf8(uid))
}

/// Derives the credential key from a machine identifier.
pub fn derive_key(uid: &str) -> (r: Vec<u8>)
    ensures
        r@ == derived_key(uid@),
        r@.len() == 32,
{
    let mut material: Vec<u8> = Vec::new();
    material.extend_from_slice("rnagent-config-v1:".as_bytes());
    material.extend_from_slice(uid.as_bytes());
    proof {
        assert(material@ =~= encode_utf8("rnagent-config-v1:"@) + encode_utf8(uid@));
    }
    sha256(material.as_slice())
}

/// The credential key of this machine, from its identifier (or a fixed
/// fallback when none can be read, as the settings store has always done).
pub fn machine_key() -> (r: Vec<u8>)
    ensures
        r@.len() == 32,
{
    let uid = match machine_uid_string() {
        Some(uid) => uid,
        None => String::from_str("fallback-uid"),
    };
    derive_key(uid.as_str())
}

/// What AES-256-GCM encryption returns for a key, nonce and plaintext.
pub uninterp spec fn aes_ct_of(key: Seq<u8>, nonce: Seq<u8>, pt: Seq<u8>) -> Seq<u8>;

/// What AES-256-GCM decryption returns for a key, nonce and ciphertext.
pub uninterp spec fn aes_pt_of(key: Seq<u8>, nonce: Seq<u8>, ct: Seq<u8>) -> Option<Seq<u8>>;

/// Relies on Aes256Gcm::encrypt: the ciphertext is a function of key, nonce
/// and plaintext, and decrypting it with the same key and nonce gives the
/// plaintext back (AEAD correctness).
#[verifier::external_body]
fn aes_encrypt(key: &[u8], nonce: &[u8], pt: &[u8]) -> (r: Option<Vec<u8>>)
    requires
        key@.len() == 32,
        nonce@.len() == 12,
    ensures
        match r {
            Some(ct) => ct@ == aes_ct_of(key@, nonce@, pt@) && aes_pt_of(key@, nonce@, ct@)
                == Some(pt@),
            None => true,
        },
{
    let cipher = Aes256Gcm::new(Key::<Aes256Gcm>::from_slice(key));
    cipher.encrypt(Nonce::from_slice(nonce), pt).ok()
}

/// Relies on Aes256Gcm::decrypt: succeeds exactly when the ciphertext
/// authenticates under the key and nonce, returning the plaintext.
#[verifier::external_body]
fn aes_decrypt(key: &[u8], nonce: &[u8], ct: &[u8]) -> (r: Option<Vec<u8>>)
    requires
        key@.len() == 32,
        nonce@.len() == 12,
    ensures
        match r {
            Some(pt) => aes_pt_of(key@, nonce@, ct@) == Some(pt@),
            None => aes_pt_of(key@, nonce@, ct@) is None,
        },
{
    let cipher = Aes256Gcm::new(Key::<Aes256Gcm>::from_slice(key));
    cipher.decrypt(Nonce::from_slice(nonce), ct).ok()
}

/// Relies on Aes256Gcm::generate_nonce: a fresh random 96-bit nonce;
/// nothing is assumed of its value.
#[verifier::external_body]
fn generate_nonce() -> (r: Vec<u8>)
    ensures
        r@.len() == 12,
{
    Aes256Gcm::generate_nonce(&mut OsRng).to_vec()
}

/// What base64 (standard alphabet, padded) encodes the given bytes to.
pub uninterp spec fn b64_of(b: Seq<u8>) -> Seq<char>;

/// What base64 (standard alphabet, padded) decodes the given text to.
pub uninterp spec fn b64_decode_of(s: Seq<char>) -> Option<Seq<u8>>;

/// Relies on base64's STANDARD engine encode: a function of the bytes
/// alone, decodable back to them, and non-empty for non-empty input.
#[verifier::external_body]
fn b64_encode(b: &[u8]) -> (r: String)
    ensures
        r@ == b64_of(b@),
        b64_decode_of(r@) == Some(b@),
        b@.len() > 0 ==> r@.len() > 0,
{
    base64::engine::general_purpose::STANDARD.encode(b)
}

/// Relies on base64's STANDARD engine decode: succeeds exactly on valid
/// padded base64 text and returns the encoded bytes.
#[verifier::external_body]
fn b64_decode(s: &str) -> (r: Option<Vec<u8>>)
    ensures
        match r {
            Some(v) => b64_decode_of(s@) == Some(v@),
            None => b64_decode_of(s@) is None,
        },
{
    base64::engine::general_purpose::STANDARD.decode(s).ok()
}

/// Why a stored credential could not be read or written.
#[derive(Debug)]
pub enum CryptoError {
    /// The cipher refused to encrypt.
    EncryptFailed,
    /// The stored text is not base64.
    BadBase64,
    /// The decoded blob is shorter than a nonce.
    CiphertextTooShort,
    /// The ciphertext does not authenticate under this machine's key.
    DecryptFailed,
    /// The decrypted bytes are not UTF-8.
    BadUtf8,
}

impl CryptoError {
    /// The message such a failure carries.
    pub fn message(&self) -> (s: String)
        ensures
            match self {
                CryptoError::EncryptFailed => s@ == "Encrypt failed"@,
                CryptoError::BadBase64 => s@ == "Base64 decode failed"@,
                CryptoError::CiphertextTooShort => s@ == "Ciphertext too short"@,
                CryptoError::DecryptFailed => s@ == "Decrypt failed"@,
                CryptoError::BadUtf8 => s@ == "Decrypted text is not UTF-8"@,
            },
    {
        match self {
            CryptoError::EncryptFailed => String::from_str("Encrypt failed"),
            CryptoError::BadBase64 => String::from_str("Base64 decode failed"),
            CryptoError::CiphertextTooShort => String::from_str("Ciphertext too short"),
            CryptoError::DecryptFailed => String::from_str("Decrypt failed"),
            CryptoError::BadUtf8 => String::from_str("Decrypted text is not UTF-8"),
        }
    }
}

/// What decrypting a stored credential yields: the empty string stays
/// empty; otherwise the text must decode as base64 into a nonce and a
/// ciphertext that authenticates and holds UTF-8.
pub open spec fn spec_decrypt(key: Seq<u8>, stored: Seq<char>) -> Option<Seq<char>> {
    if stored.len() == 0 {
        Some(Seq::empty())
    } else {
        match b64_decode_of(stored) {
            None => None,
            Some(blob) => if blob.len() < 12 {
                None
            } else {
                match aes_pt_of(key, blob.take(12), blob.skip(12)) {
                    None => None,
                    Some(ptb) => if valid_utf8(ptb) {
                        Some(decode_utf8(ptb))
                    } else {
                        None
                    },
                }
            },
        }
    }
}

/// Encrypts one credential for storage. The empty string is stored as
/// itself; anything else is stored so that decrypting it with the same key
/// gives it back.
pub fn encrypt_value(key: &[u8], plaintext: &str) -> (r: Result<String, CryptoError>)
    requires
        key@.len() == 32,
    ensures
        plaintext@.len() == 0 ==> (r matches Ok(s) && s@ == Seq::<char>::empty()),
        match r {
            Ok(s) => spec_decrypt(key@, s@) == Some(plaintext@),
            Err(e) => e is EncryptFailed,
        },
{
    proof {
        broadcast use vstd::utf8::encode_utf8_valid_utf8;
        broadcast use vstd::utf8::encode_utf8_decode_utf8;

    }
    if plaintext.is_empty() {
        return Ok(String::new());
    }
    let nonce = generate_nonce();
    let pt_bytes = plaintext.as_bytes();
    let ct = match aes_encrypt(key, nonce.as_slice(), pt_bytes) {
        Some(ct) => ct,
        None => return Err(CryptoError::EncryptFailed),
    };
    let ghost noncev = nonce@;
    let mut blob = nonce;
    blob.extend_from_slice(ct.as_slice());
    let out = b64_encode(blob.as_slice());
    proof {
        assert(blob@.take(12) =~= noncev);
        assert(blob@.skip(12) =~= ct@);
        assert(encode_utf8(plaintext@).len() > 0) by {
            if encode_utf8(plaintext@).len() == 0 {
                assert(decode_utf8(encode_utf8(plaintext@)) == plaintext@);
            }
        }
        assert(out@.len() > 0);
        assert(spec_decrypt(key@, out@) == Some(plaintext@));
    }
    Ok(out)
}

/// Decrypts one stored credential: the exact inverse of
/// [`encrypt_value`]'s storage format, each failure named.
pub fn decrypt_value(key: &[u8], stored: &str) -> (r: Result<String, CryptoError>)
    requires
        key@.len() == 32,
    ensures
        match r {
            Ok(s) => spec_decrypt(key@, stored@) == Some(s@),
            Err(e) => spec_decrypt(key@, stored@) is None && !(e is EncryptFailed) && match e {
                CryptoError::BadBase64 => b64_decode_of(stored@) is None,
                CryptoError::CiphertextTooShort => (b64_decode_of(stored@) matches Some(blob)
                    && blob.len() < 12),
                CryptoError::DecryptFailed => (b64_decode_of(stored@) matches Some(blob)
                    && blob.len() >= 12 && aes_pt_of(key@, blob.take(12), blob.skip(12)) is None),
                CryptoError::BadUtf8 => (b64_decode_of(stored@) matches Some(blob) && blob.len()
                    >= 12 && (aes_pt_of(key@, blob.take(12), blob.skip(12)) matches Some(ptb)
                    && !valid_utf8(ptb))),
                _ => false,
            },
        },
{
    if stored.is_empty() {
        return Ok(String::new());
    }
    let blob = match b64_decode(stored) {
        Some(v) => v,
        None => return Err(CryptoError::BadBase64),
    };
    if blob.len() < 12 {
        return Err(CryptoError::CiphertextTooShort);
    }
    let n = blob.len();
    let nonce = vstd::slice::slice_to_vec(&blob.as_slice()[0..12]);
    let ct = vstd::slice::slice_to_vec(&blob.as_slice()[12..n]);
    proof {
        assert(nonce@ =~= blob@.take(12));
        assert(ct@ =~= blob@.skip(12));
    }
    let ptb = match aes_decrypt(key, nonce.as_slice(), ct.as_slice()) {
        Some(ptb) => ptb,
        None => return Err(CryptoError::DecryptFailed),
    };
    match crate::text::utf8_to_string(ptb.as_slice()) {
        Some(s) => Ok(s),
        None => Err(CryptoError::BadUtf8),
    }
}

} // verus!
