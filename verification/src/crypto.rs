//! The vault codec: authenticated encryption of the on-disk account list
//! (`nonce[12] || ciphertext`) and master-key handling. The cipher itself
//! is ChaCha20-Poly1305, called through trusted wrappers; the framing,
//! the length checks and the key decisions are verified here.

use vstd::prelude::*;
use vstd::slice::slice_subrange;
use vstd::string::StringSliceAdditionalSpecFns;

use chacha20poly1305::aead::Aead;
use chacha20poly1305::AeadCore;
use chacha20poly1305::KeyInit;

use crate::errors::CryptoError;

verus! {

/// The ciphertext (with its appended tag) that ChaCha20-Poly1305 produces
/// for a key, a nonce and a plaintext. Fixed by those arguments alone.
pub uninterp spec fn chacha_seal(key: Seq<u8>, nonce: Seq<u8>, plaintext: Seq<u8>) -> Seq<u8>;

/// What ChaCha20-Poly1305 decryption returns for a key, a nonce and a
/// ciphertext: the plaintext when the tag verifies, nothing otherwise.
/// Fixed by those arguments alone.
pub uninterp spec fn chacha_open(key: Seq<u8>, nonce: Seq<u8>, ciphertext: Seq<u8>) -> Option<Seq<u8>>;

/// Relies on chacha20poly1305's `AeadCore::generate_nonce`, which fills 12
/// bytes from the operating system's randomness source. Nothing is assumed
/// of the value but its length.
#[verifier::external_body]
fn gen_nonce() -> (r: Vec<u8>)
    ensures
        r@.len() == 12,
{
    chacha20poly1305::ChaCha20Poly1305::generate_nonce(&mut chacha20poly1305::aead::OsRng).to_vec()
}

/// Relies on chacha20poly1305's `KeyInit::generate_key`, which fills 32
/// bytes from the operating system's randomness source. Nothing is assumed
/// of the value but its length.
#[verifier::external_body]
fn gen_key() -> (r: Vec<u8>)
    ensures
        r@.len() == 32,
{
    chacha20poly1305::ChaCha20Poly1305::generate_key(&mut chacha20poly1305::aead::OsRng).to_vec()
}

/// Relies on chacha20poly1305's `Aead::encrypt`: it appends the 16-byte
/// Poly1305 tag to the ciphertext, fails only on messages of 2^38 bytes
/// and more, and `Aead::decrypt` on its result with the same key and nonce
/// returns the plaintext.
#[verifier::external_body]
fn aead_seal(key: &Vec<u8>, nonce: &Vec<u8>, plaintext: &[u8]) -> (r: Vec<u8>)
    requires
        key@.len() == 32,
        nonce@.len() == 12,
        plaintext@.len() <= 0xffff_ffff,
    ensures
        r@ == chacha_seal(key@, nonce@, plaintext@),
        r@.len() == plaintext@.len() + 16,
        chacha_open(key@, nonce@, r@) == Some(plaintext@),
{
    let cipher = chacha20poly1305::ChaCha20Poly1305::new(
        chacha20poly1305::Key::from_slice(key.as_slice()),
    );
    cipher
        .encrypt(chacha20poly1305::Nonce::from_slice(nonce.as_slice()), plaintext)
        .unwrap()
}

/// Relies on chacha20poly1305's `Aead::decrypt`: it checks the Poly1305
/// tag and returns the decrypted bytes only when the tag verifies; the
/// outcome is fixed by key, nonce and ciphertext alone.
#[verifier::external_body]
fn aead_open(key: &Vec<u8>, nonce: &[u8], ciphertext: &[u8]) -> (r: Option<Vec<u8>>)
    requires
        key@.len() == 32,
        nonce@.len() == 12,
        ciphertext@.len() <= 0xffff_ffff,
    ensures
        r is Some <==> chacha_open(key@, nonce@, ciphertext@) is Some,
        r is Some ==> r.unwrap()@ == chacha_open(key@, nonce@, ciphertext@).unwrap(),
{
    let cipher = chacha20poly1305::ChaCha20Poly1305::new(
        chacha20poly1305::Key::from_slice(key.as_slice()),
    );
    match cipher.decrypt(chacha20poly1305::Nonce::from_slice(nonce), ciphertext) {
        Ok(plaintext) => Some(plaintext),
        Err(_) => None,
    }
}

/// What the standard-alphabet Base64 decoder returns, if it accepts the
/// string at all. Fixed by the characters alone.
pub uninterp spec fn b64_decoded(s: Seq<char>) -> Option<Seq<u8>>;

/// The standard-alphabet, padded Base64 encoding of a byte string. Fixed
/// by the bytes alone.
pub uninterp spec fn b64_encoded(b: Seq<u8>) -> Seq<char>;

/// Relies on base64's standard engine: `encode` is fixed by the bytes
/// alone and `decode` inverts it exactly.
#[verifier::external_body]
fn b64_encode(bytes: &Vec<u8>) -> (r: String)
    ensures
        r@ == b64_encoded(bytes@),
        b64_decoded(r@) == Some(bytes@),
{
    base64::Engine::encode(&base64::engine::general_purpose::STANDARD, bytes)
}

/// Relies on base64's standard engine: `decode` succeeds exactly on
/// well-formed padded Base64, and its result is fixed by the characters
/// alone.
#[verifier::external_body]
fn b64_decode(s: &str) -> (r: Option<Vec<u8>>)
    ensures
        r is Some <==> b64_decoded(s@) is Some,
        r is Some ==> r.unwrap()@ == b64_decoded(s@).unwrap(),
{
    match base64::Engine::decode(&base64::engine::general_purpose::STANDARD, s) {
        Ok(bytes) => Some(bytes),
        Err(_) => None,
    }
}

/// The outcome of decrypting a vault blob: too short to hold a nonce,
/// refused by the tag check, or the sealed plaintext.
pub open spec fn decrypt_spec(blob: Seq<u8>, key: Seq<u8>) -> Result<Seq<u8>, CryptoError> {
    if blob.len() < 12 {
        Err(CryptoError::FileTooSmall)
    } else {
        match chacha_open(key, blob.take(12), blob.skip(12)) {
            Some(plaintext) => Ok(plaintext),
            None => Err(CryptoError::DecryptionFailed),
        }
    }
}

/// Seals `plaintext` under `key` with a fresh random nonce and returns the
/// vault blob `nonce[12] || ciphertext`. Decrypting the result with the
/// same key yields the plaintext back.
pub fn crypto_encrypt_with_key(plaintext: &str, key: &Vec<u8>) -> (blob: Vec<u8>)
    requires
        key@.len() == 32,
        plaintext.spec_bytes().len() <= 0xffff_ffff,
    ensures
        blob@.len() == plaintext.spec_bytes().len() + 28,
        blob@.skip(12) == chacha_seal(key@, blob@.take(12), plaintext.spec_bytes()),
        decrypt_spec(blob@, key@) == Ok::<Seq<u8>, CryptoError>(plaintext.spec_bytes()),
{
    let nonce = gen_nonce();
    let mut sealed = aead_seal(key, &nonce, plaintext.as_bytes());
    let mut blob = nonce;
    blob.append(&mut sealed);
    proof {
        assert(blob@.take(12) =~= blob@.subrange(0, 12));
        assert(blob@.take(12) =~= nonce@);
        assert(blob@.skip(12) =~= chacha_seal(key@, nonce@, plaintext.spec_bytes()));
    }
    blob
}

/// Splits the first 12 bytes as the nonce and opens the remainder.
/// Returns `FileTooSmall` exactly on blobs shorter than a nonce and
/// `DecryptionFailed` exactly when the tag check refuses the remainder:
/// a wrong key and a tampered blob are deliberately indistinguishable.
pub fn crypto_decrypt_with_key(blob: &Vec<u8>, key: &Vec<u8>) -> (r: Result<Vec<u8>, CryptoError>)
    requires
        key@.len() == 32,
        blob@.len() <= 0xffff_ffff,
    ensures
        (match r {
            Ok(plaintext) => decrypt_spec(blob@, key@) == Ok::<Seq<u8>, CryptoError>(plaintext@),
            Err(e) => decrypt_spec(blob@, key@) == Err::<Seq<u8>, CryptoError>(e),
        }),
{
    if blob.len() < 12 {
        return Err(CryptoError::FileTooSmall);
    }
    let whole = blob.as_slice();
    let nonce = slice_subrange(whole, 0, 12);
    let ciphertext = slice_subrange(whole, 12, blob.len());
    match aead_open(key, nonce, ciphertext) {
        Some(plaintext) => Ok(plaintext),
        None => Err(CryptoError::DecryptionFailed),
    }
}

/// Round trip: a blob built as encryption builds one decrypts, under the
/// same key, to the plaintext that was sealed into it.
pub proof fn lemma_encrypt_decrypt_round_trip(blob: Seq<u8>, key: Seq<u8>, plaintext: Seq<u8>)
    requires
        blob.len() >= 12,
        chacha_open(key, blob.take(12), blob.skip(12)) == Some(plaintext),
    ensures
        decrypt_spec(blob, key) == Ok::<Seq<u8>, CryptoError>(plaintext),
{
}

/// The account store's load decision: no file and no decryptable payload
/// both mean "no accounts yet"; only a payload that decrypts is loaded.
pub open spec fn load_decision(file: Option<Seq<u8>>, key: Seq<u8>) -> Option<Seq<u8>> {
    match file {
        None => None,
        Some(blob) => match decrypt_spec(blob, key) {
            Ok(plaintext) => Some(plaintext),
            Err(_) => None,
        },
    }
}

/// Saving then loading: a missing vault file loads as "no accounts yet",
/// never as an error, and a blob that encryption returned for a payload
/// loads back as exactly that payload.
pub proof fn lemma_save_load_round_trip(blob: Seq<u8>, key: Seq<u8>, payload: Seq<u8>)
    requires
        blob.len() >= 12,
        chacha_open(key, blob.take(12), blob.skip(12)) == Some(payload),
    ensures
        load_decision(None, key) == None::<Seq<u8>>,
        load_decision(Some(blob), key) == Some(payload),
{
}

/// Decodes a Base64-encoded master key from the platform secret store.
/// Succeeds exactly when the string is well-formed Base64 of exactly 32
/// bytes; anything else is `InvalidKeyLength`.
pub fn decode_app_store_key(stored_b64: &str) -> (r: Result<Vec<u8>, CryptoError>)
    ensures
        r is Ok <==> (b64_decoded(stored_b64@) is Some && b64_decoded(stored_b64@).unwrap().len()
            == 32),
        r is Ok ==> b64_decoded(stored_b64@) == Some(r.unwrap()@),
        r is Err ==> r.unwrap_err() == CryptoError::InvalidKeyLength,
{
    match b64_decode(stored_b64) {
        Some(key) => {
            if key.len() == 32 {
                Ok(key)
            } else {
                Err(CryptoError::InvalidKeyLength)
            }
        },
        None => Err(CryptoError::InvalidKeyLength),
    }
}

/// Generates a fresh 256-bit master key and the Base64 encoding under
/// which the platform store persists it; decoding that encoding gives the
/// key back.
pub fn make_app_store_key() -> (r: (Vec<u8>, String))
    ensures
        r.0@.len() == 32,
        b64_decoded(r.1@) == Some(r.0@),
{
    let key = gen_key();
    let encoded = b64_encode(&key);
    (key, encoded)
}

/// The master-key decision: what the platform store held (if anything)
/// becomes the vault key. A stored string must decode to exactly 32
/// bytes; when nothing usable was stored, a fresh key is made and its
/// Base64 encoding is handed back for the caller to persist.
pub fn resolve_app_store_key(stored: Option<String>) -> (r: Result<
    (Vec<u8>, Option<String>),
    CryptoError,
>)
    ensures
        (match stored {
            Some(s) => (match r {
                Ok(p) => b64_decoded(s@) == Some(p.0@) && p.0@.len() == 32 && p.1 is None,
                Err(e) => e == CryptoError::InvalidKeyLength && !(b64_decoded(s@) is Some
                    && b64_decoded(s@).unwrap().len() == 32),
            }),
            None => r is Ok && r.unwrap().0@.len() == 32 && r.unwrap().1 is Some && b64_decoded(
                r.unwrap().1.unwrap()@,
            ) == Some(r.unwrap().0@),
        }),
{
    match stored {
        Some(s) => {
            let key = decode_app_store_key(s.as_str())?;
            Ok((key, None))
        },
        None => {
            let (key, encoded) = make_app_store_key();
            Ok((key, Some(encoded)))
        },
    }
}

/// The load decision of the account store: a missing vault file, or one
/// that does not decrypt, means "no accounts yet"; only a successful
/// decryption yields a payload.
pub fn saved_accounts_payload(file: Option<Vec<u8>>, key: &Vec<u8>) -> (r: Option<Vec<u8>>)
    requires
        key@.len() == 32,
        file is Some ==> file.unwrap()@.len() <= 0xffff_ffff,
    ensures
        r is Some <==> load_decision(file.deep_view(), key@) is Some,
        r is Some ==> r.unwrap()@ == load_decision(file.deep_view(), key@).unwrap(),
{
    match file {
        None => None,
        Some(blob) => {
            proof {
                assert(blob.deep_view() =~= blob@);
            }
            match crypto_decrypt_with_key(&blob, key) {
                Ok(plaintext) => Some(plaintext),
                Err(_) => None,
            }
        },
    }
}

} // verus!
