//! Sealing the secrets kept at rest (pairing records, Apple session plists)
//! with AES-256-GCM from `ring`. A sealed blob is the 12-byte nonce followed by
//! the ciphertext and its tag; and the pairing record's way in and out of the
//! portal: uploaded as Base64, sealed, and exported as Base64 again.

use vstd::prelude::*;
use crate::requests::{base64_decoded, base64_text, decode_base64, encode_base64};
use crate::sideload::{pairing_record_accepted, validate_pairing_bytes};

verus! {

/// The length of an AES-GCM nonce.
pub const NONCE_BYTES: usize = 12;

/// What opening the ciphertext-and-tag `sealed` under `key` and `nonce` gives:
/// the plaintext when the tag authenticates it, else `None`.
pub uninterp spec fn aead_open_result(key: Seq<u8>, nonce: Seq<u8>, sealed: Seq<u8>) -> Option<Seq<u8>>;

/// `ring::aead::LessSafeKey::seal_in_place_append_tag` with `AES_256_GCM`,
/// under a fresh nonce from `ring::rand::SystemRandom`, no associated data.
/// Returns the nonce and the ciphertext with its tag, or `None` when the
/// system's randomness fails. The nonce is random; what holds of every
/// outcome is that opening it with the same key and nonce gives `plain` back.
#[verifier::external_body]
fn aead_seal(key: &[u8; 32], plain: &[u8]) -> (r: Option<(Vec<u8>, Vec<u8>)>)
    ensures
        r matches Some((nonce, sealed)) ==> nonce@.len() == NONCE_BYTES && aead_open_result(key@, nonce@, sealed@) == Some(plain@),
{
    let unbound = ring::aead::UnboundKey::new(&ring::aead::AES_256_GCM, key).ok()?;
    let sealing = ring::aead::LessSafeKey::new(unbound);
    let mut nonce = [0u8; 12];
    ring::rand::SecureRandom::fill(&ring::rand::SystemRandom::new(), &mut nonce).ok()?;
    let mut sealed = plain.to_vec();
    let n = ring::aead::Nonce::assume_unique_for_key(nonce);
    sealing.seal_in_place_append_tag(n, ring::aead::Aad::empty(), &mut sealed).ok()?;
    Some((nonce.to_vec(), sealed))
}

/// `ring::aead::LessSafeKey::open_in_place` with `AES_256_GCM` and no
/// associated data: the plaintext when the tag authenticates `sealed` under
/// `key` and `nonce`. The result depends on its arguments alone.
#[verifier::external_body]
fn aead_open(key: &[u8; 32], nonce: &[u8], sealed: &[u8]) -> (r: Option<Vec<u8>>)
    requires
        nonce@.len() == NONCE_BYTES,
    ensures
        match r {
            Some(p) => aead_open_result(key@, nonce@, sealed@) == Some(p@),
            None => aead_open_result(key@, nonce@, sealed@) is None,
        },
{
    let unbound = ring::aead::UnboundKey::new(&ring::aead::AES_256_GCM, key).ok()?;
    let opening = ring::aead::LessSafeKey::new(unbound);
    let n = ring::aead::Nonce::try_assume_unique_for_key(nonce).ok()?;
    let mut buf = sealed.to_vec();
    let plain = opening.open_in_place(n, ring::aead::Aad::empty(), &mut buf).ok()?;
    Some(plain.to_vec())
}

/// What a sealed blob opens to under `key`: its first 12 bytes are the nonce,
/// the rest the ciphertext and tag.
pub open spec fn opens_to(key: Seq<u8>, blob: Seq<u8>) -> Option<Seq<u8>> {
    if blob.len() < NONCE_BYTES {
        None
    } else {
        aead_open_result(key, blob.take(NONCE_BYTES as int), blob.skip(NONCE_BYTES as int))
    }
}

/// The key that seals the secrets kept at rest.
#[derive(Clone, Copy)]
pub struct Vault {
    key: [u8; 32],
}

impl Vault {
    /// The key's bytes.
    pub closed spec fn key_bytes(&self) -> Seq<u8> {
        self.key@
    }

    /// A vault sealing under `key`.
    pub fn new(key: [u8; 32]) -> (v: Vault)
        ensures
            v.key_bytes() == key@,
    {
        Vault { key }
    }

    /// Seals `plain`: a blob that opens to `plain` under this key; `None` when
    /// the system's randomness fails.
    pub fn seal(&self, plain: &[u8]) -> (r: Option<Vec<u8>>)
        ensures
            r matches Some(blob) ==> opens_to(self.key_bytes(), blob@) == Some(plain@),
    {
        let (nonce, sealed) = match aead_seal(&self.key, plain) {
            Some(p) => p,
            None => return None,
        };
        let mut blob = nonce;
        let mut tail = sealed;
        let ghost n = blob@;
        let ghost t = tail@;
        blob.append(&mut tail);
        assert(blob@.take(NONCE_BYTES as int) =~= n);
        assert(blob@.skip(NONCE_BYTES as int) =~= t);
        Some(blob)
    }

    /// Opens a sealed blob: what it opens to under this key, if anything.
    pub fn open(&self, blob: &[u8]) -> (r: Option<Vec<u8>>)
        ensures
            match r {
                Some(p) => opens_to(self.key_bytes(), blob@) == Some(p@),
                None => opens_to(self.key_bytes(), blob@) is None,
            },
    {
        if blob.len() < NONCE_BYTES {
            return None;
        }
        let nonce = vstd::slice::slice_subrange(blob, 0, NONCE_BYTES);
        let sealed = vstd::slice::slice_subrange(blob, NONCE_BYTES, blob.len());
        assert(nonce@ =~= blob@.take(NONCE_BYTES as int));
        assert(sealed@ =~= blob@.skip(NONCE_BYTES as int));
        aead_open(&self.key, nonce, sealed)
    }
}

/// Why an uploaded pairing record could not be stored.
#[derive(Debug, PartialEq, Eq, Structural, Clone, Copy)]
pub enum PairingUploadError {
    /// The upload is not valid Base64.
    InvalidBase64,
    /// The decoded file is not a valid RemotePairing record.
    InvalidPairingFile,
    /// The system's randomness failed while sealing it.
    SealingFailed,
}

/// `stored` is a sealed copy, under `key`, of the bytes the Base64 `upload`
/// decodes to.
pub open spec fn pairing_sealed(key: Seq<u8>, upload: Seq<char>, stored: Seq<u8>) -> bool {
    match base64_decoded(upload) {
        Some(bytes) => opens_to(key, stored) == Some(bytes),
        None => false,
    }
}

/// Decodes, checks and seals a pairing record uploaded as Base64, to replace
/// a device's stored one.
pub fn seal_pairing_upload(vault: &Vault, upload: &str) -> (r: Result<Vec<u8>, PairingUploadError>)
    ensures
        match base64_decoded(upload@) {
            None => r == Err::<Vec<u8>, PairingUploadError>(PairingUploadError::InvalidBase64),
            Some(bytes) => if !pairing_record_accepted(bytes) {
                r == Err::<Vec<u8>, PairingUploadError>(PairingUploadError::InvalidPairingFile)
            } else {
                match r {
                    Ok(stored) => pairing_sealed(vault.key_bytes(), upload@, stored@),
                    Err(e) => e == PairingUploadError::SealingFailed,
                }
            },
        },
{
    let bytes = match decode_base64(upload) {
        Some(b) => b,
        None => return Err(PairingUploadError::InvalidBase64),
    };
    if validate_pairing_bytes(bytes.as_slice()).is_err() {
        return Err(PairingUploadError::InvalidPairingFile);
    }
    match vault.seal(bytes.as_slice()) {
        Some(stored) => Ok(stored),
        None => Err(PairingUploadError::SealingFailed),
    }
}

/// `exported` is what exporting the sealed record `stored` under `key` gives:
/// the Base64 text of what it opens to, or nothing when it does not open.
pub open spec fn pairing_exported(key: Seq<u8>, stored: Seq<u8>, exported: Option<Seq<char>>) -> bool {
    match opens_to(key, stored) {
        None => exported is None,
        Some(bytes) => exported == Some(base64_text(bytes)) && base64_decoded(base64_text(bytes)) == Some(bytes),
    }
}

/// The stored pairing record of a device, opened and given as Base64 for
/// download; `None` when it does not open under this key.
pub fn export_pairing_text(vault: &Vault, stored: &[u8]) -> (r: Option<String>)
    ensures
        pairing_exported(vault.key_bytes(), stored@, match r {
            Some(t) => Some(t@),
            None => None,
        }),
{
    match vault.open(stored) {
        Some(bytes) => Some(encode_base64(bytes.as_slice())),
        None => None,
    }
}

/// Exporting a pairing record gives back exactly the bytes that were uploaded
/// for it: the exported Base64 decodes to what the upload decoded to.
pub proof fn lemma_pairing_export_round_trip(key: Seq<u8>, upload: Seq<char>, stored: Seq<u8>, exported: Seq<char>)
    requires
        pairing_sealed(key, upload, stored),
        pairing_exported(key, stored, Some(exported)),
    ensures
        base64_decoded(upload) is Some,
        base64_decoded(exported) == base64_decoded(upload),
        exported == base64_text(base64_decoded(upload)->0),
{
}

} // verus!
