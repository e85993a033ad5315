//! Encryption of stored files, and their checksums.

use aes_gcm::aead::{Aead, KeyInit};
use aes_gcm::Aes256Gcm;
use rand::RngCore;
use sha2::{Digest, Sha256};
use vstd::prelude::*;
use crate::error::{outcome, ApiError, ApiErrorView};

verus! {

/// The length of a nonce.
pub const NONCE_LEN: usize = 12;

/// What AES-256-GCM makes of a plaintext under a key and a nonce.
pub uninterp spec fn gcm_sealed(key: Seq<u8>, nonce: Seq<u8>, plaintext: Seq<u8>) -> Seq<u8>;

/// The plaintext that AES-256-GCM finds in a ciphertext under a key and a nonce, if the ciphertext
/// carries the right tag.
pub uninterp spec fn gcm_opened(key: Seq<u8>, nonce: Seq<u8>, ciphertext: Seq<u8>) -> Option<
    Seq<u8>,
>;

/// The SHA-256 digest of the data.
pub uninterp spec fn sha256_digest(data: Seq<u8>) -> Seq<u8>;

/// The greatest length that AES-GCM encrypts: 2^36 bytes.
pub open spec fn max_plaintext() -> nat {
    0x10_0000_0000
}

/// `RngCore::fill_bytes` of `rand::thread_rng` on twelve bytes: any twelve bytes.
#[verifier::external_body]
fn random_nonce() -> (nonce: [u8; 12]) {
    let mut nonce = [0_u8; 12];
    rand::thread_rng().fill_bytes(&mut nonce);
    nonce
}

/// `Aead::encrypt` of `aes_gcm::Aes256Gcm`: the ciphertext is a function of the key, the nonce and
/// the plaintext, 16 bytes longer than the plaintext, and `Aead::decrypt` gives the plaintext back
/// from it. It fails on a plaintext that is too long, and on no other.
#[verifier::external_body]
fn aes_encrypt(key: &[u8; 32], nonce: &[u8; 12], plaintext: &[u8]) -> (res: Result<Vec<u8>, String>)
    ensures
        match res {
            Ok(ciphertext) => plaintext@.len() <= max_plaintext() && ciphertext@ == gcm_sealed(
                key@,
                nonce@,
                plaintext@,
            ) && ciphertext@.len() == plaintext@.len() + 16 && gcm_opened(
                key@,
                nonce@,
                ciphertext@,
            ) == Some(plaintext@),
            Err(why) => plaintext@.len() > max_plaintext() && why@ == "aead::Error"@,
        },
{
    let cipher = Aes256Gcm::new_from_slice(key).map_err(|e| e.to_string())?;
    cipher.encrypt(aes_gcm::Nonce::from_slice(nonce), plaintext).map_err(|e| e.to_string())
}

/// `Aead::decrypt` of `aes_gcm::Aes256Gcm`: the plaintext where the ciphertext carries the right
/// tag, and a failure where it does not; which of the two depends on the key, the nonce and the
/// ciphertext alone.
#[verifier::external_body]
fn aes_decrypt(key: &[u8; 32], nonce: &[u8], ciphertext: &[u8]) -> (res: Result<Vec<u8>, String>)
    requires
        nonce@.len() == 12,
    ensures
        match (gcm_opened(key@, nonce@, ciphertext@), res) {
            (Some(plaintext), Ok(bytes)) => bytes@ == plaintext && bytes@.len() + 16
                == ciphertext@.len(),
            (None, Err(why)) => why@ == "aead::Error"@,
            _ => false,
        },
{
    let cipher = Aes256Gcm::new_from_slice(key).map_err(|e| e.to_string())?;
    cipher.decrypt(aes_gcm::Nonce::from_slice(nonce), ciphertext).map_err(|e| e.to_string())
}

/// `sha2::Sha256` over the whole data: its digest of 32 bytes, a function of the data.
#[verifier::external_body]
fn sha256_bytes(data: &[u8]) -> (digest: Vec<u8>)
    ensures
        digest@ == sha256_digest(data@),
        digest@.len() == 32,
{
    let mut hasher = Sha256::new();
    hasher.update(data);
    hasher.finalize().to_vec()
}

/// What stored bytes come to when they are decrypted.
pub open spec fn decrypted(key: Seq<u8>, nonce: Seq<u8>, ciphertext: Seq<u8>) -> Result<
    Seq<u8>,
    ApiErrorView,
> {
    if nonce.len() != NONCE_LEN {
        Err(ApiErrorView::Internal("invalid nonce length"@))
    } else {
        match gcm_opened(key, nonce, ciphertext) {
            Some(plaintext) => Ok(plaintext),
            None => Err(ApiErrorView::Internal("decryption failed: aead::Error"@)),
        }
    }
}

/// Encrypts under the given nonce. What comes out decrypts to what went in.
pub fn encrypt_with_nonce(key: &[u8; 32], nonce: &[u8; 12], plaintext: &[u8]) -> (res: Result<
    Vec<u8>,
    ApiError,
>)
    ensures
        match res {
            Ok(ciphertext) => plaintext@.len() <= max_plaintext() && ciphertext@ == gcm_sealed(
                key@,
                nonce@,
                plaintext@,
            ) && ciphertext@.len() == plaintext@.len() + 16 && decrypted(
                key@,
                nonce@,
                ciphertext@,
            ) == Ok::<Seq<u8>, ApiErrorView>(plaintext@),
            Err(error) => plaintext@.len() > max_plaintext() && error@ == ApiErrorView::Internal(
                "encryption failed: aead::Error"@,
            ),
        },
{
    match aes_encrypt(key, nonce, plaintext) {
        Ok(ciphertext) => Ok(ciphertext),
        Err(why) => {
            proof {
                reveal_strlit("encryption failed: aead::Error");
                reveal_strlit("encryption failed: ");
                reveal_strlit("aead::Error");
                assert("encryption failed: "@ + "aead::Error"@ =~= "encryption failed: aead::Error"@);
            }
            Err(ApiError::internal_with("encryption failed: ", &why))
        },
    }
}

/// Encrypts under a fresh nonce and gives both. What comes out decrypts to what went in.
pub fn encrypt_bytes(key: &[u8; 32], plaintext: &[u8]) -> (res: Result<(Vec<u8>, Vec<u8>), ApiError>)
    ensures
        match res {
            Ok((nonce, ciphertext)) => plaintext@.len() <= max_plaintext() && nonce@.len()
                == NONCE_LEN && ciphertext@ == gcm_sealed(key@, nonce@, plaintext@)
                && ciphertext@.len() == plaintext@.len() + 16 && decrypted(
                key@,
                nonce@,
                ciphertext@,
            ) == Ok::<Seq<u8>, ApiErrorView>(plaintext@),
            Err(error) => plaintext@.len() > max_plaintext() && error@ == ApiErrorView::Internal(
                "encryption failed: aead::Error"@,
            ),
        },
{
    let nonce = random_nonce();
    match encrypt_with_nonce(key, &nonce, plaintext) {
        Ok(ciphertext) => Ok((vstd::slice::slice_to_vec(nonce.as_slice()), ciphertext)),
        Err(error) => Err(error),
    }
}

/// Decrypts what was stored.
pub fn decrypt_bytes(key: &[u8; 32], nonce: &[u8], ciphertext: &[u8]) -> (res: Result<
    Vec<u8>,
    ApiError,
>)
    ensures
        outcome(res) == decrypted(key@, nonce@, ciphertext@),
{
    if nonce.len() != NONCE_LEN {
        return Err(ApiError::internal("invalid nonce length"));
    }
    match aes_decrypt(key, nonce, ciphertext) {
        Ok(plaintext) => Ok(plaintext),
        Err(why) => {
            proof {
                reveal_strlit("decryption failed: aead::Error");
                reveal_strlit("decryption failed: ");
                reveal_strlit("aead::Error");
                assert("decryption failed: "@ + "aead::Error"@ =~= "decryption failed: aead::Error"@);
            }
            Err(ApiError::internal_with("decryption failed: ", &why))
        },
    }
}

/// The checksum of stored data.
pub fn sha256(data: &[u8]) -> (digest: Vec<u8>)
    ensures
        digest@ == sha256_digest(data@),
        digest@.len() == 32,
{
    sha256_bytes(data)
}

// What holds of all of this

/// Stored bytes come back as what AES-256-GCM finds in them, all of it; a nonce that has not twelve
/// bytes and bytes without the right tag are refused. Files of up to 64 GiB are encrypted.
pub proof fn lemma_decrypted(key: Seq<u8>, nonce: Seq<u8>, ciphertext: Seq<u8>)
    ensures
        nonce.len() == 12 ==> match gcm_opened(key, nonce, ciphertext) {
            Some(plaintext) => decrypted(key, nonce, ciphertext) == Ok::<Seq<u8>, ApiErrorView>(
                plaintext,
            ),
            None => decrypted(key, nonce, ciphertext) == Err::<Seq<u8>, ApiErrorView>(
                ApiErrorView::Internal("decryption failed: aead::Error"@),
            ),
        },
        nonce.len() != 12 ==> decrypted(key, nonce, ciphertext) == Err::<Seq<u8>, ApiErrorView>(
            ApiErrorView::Internal("invalid nonce length"@),
        ),
        NONCE_LEN == 12,
        max_plaintext() == 68_719_476_736,
{
}

} // verus!
