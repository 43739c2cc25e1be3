//! Purpose-bound subkeys and authenticated encryption of blobs, with the
//! fallback from the current key-purpose scheme to the legacy one.

use vstd::prelude::*;
use vstd::string::StringSliceAdditionalSpecFns;
use crate::bytes::{append_bytes, copy_range};
use crate::error::Error;
use crate::kdf::{random_bytes, KEY_SIZE};
use crate::migrate::HkdfVersion;

verus! {

/// Bytes of a nonce.
pub const NONCE_LEN: usize = 12;

/// Bytes of an authentication tag.
pub const TAG_LEN: usize = 16;

/// Largest plaintext sealed at once.
pub const MAX_SEAL_LEN: usize = 4294967295;

/// What HKDF-SHA256 expands to 32 bytes from a secret, a salt and an info string.
pub uninterp spec fn hkdf_sha256(secret: Seq<u8>, salt: Seq<u8>, info: Seq<u8>) -> Seq<u8>;

/// What ChaCha20-Poly1305 seals: ciphertext followed by the tag.
pub uninterp spec fn aead_seal(key: Seq<u8>, nonce: Seq<u8>, plaintext: Seq<u8>, aad: Seq<u8>) -> Seq<u8>;

/// What ChaCha20-Poly1305 opens: the plaintext, or nothing when the tag does
/// not authenticate the ciphertext under the key, nonce and associated data.
pub uninterp spec fn aead_open(key: Seq<u8>, nonce: Seq<u8>, sealed: Seq<u8>, aad: Seq<u8>) -> Option<Seq<u8>>;

/// Relies on ring::hkdf (Salt::new with HKDF_SHA256, Salt::extract,
/// Prk::expand, Okm::fill): 32 bytes that depend on the inputs alone. Expand
/// refuses only lengths over 255 hash blocks and fill only a buffer of
/// another length, neither of which happens here.
#[verifier::external_body]
fn hkdf(secret: &[u8], salt: &[u8], info: &[u8]) -> (r: Vec<u8>)
    ensures
        r@ == hkdf_sha256(secret@, salt@, info@),
        r@.len() == KEY_SIZE,
{
    let prk = ring::hkdf::Salt::new(ring::hkdf::HKDF_SHA256, salt).extract(secret);
    let mut out = vec![0u8; KEY_SIZE];
    let parts = [info];
    if let Ok(okm) = prk.expand(&parts, ring::hkdf::HKDF_SHA256) {
        let _ = okm.fill(&mut out);
    }
    out
}

/// Relies on ring::aead (UnboundKey::new with CHACHA20_POLY1305,
/// LessSafeKey::seal_in_place_append_tag): the sealed bytes depend on the
/// inputs alone, carry a 16-byte tag, and open again to the plaintext. A
/// 32-byte key and a plaintext within the cipher's limit are not refused.
#[verifier::external_body]
fn seal(key: &[u8], nonce: &[u8], plaintext: &[u8], aad: &[u8]) -> (r: Vec<u8>)
    requires
        key@.len() == KEY_SIZE,
        nonce@.len() == NONCE_LEN,
        plaintext@.len() <= MAX_SEAL_LEN,
    ensures
        r@ == aead_seal(key@, nonce@, plaintext@, aad@),
        r@.len() == plaintext@.len() + TAG_LEN,
        aead_open(key@, nonce@, r@, aad@) == Some(plaintext@),
{
    let k = ring::aead::LessSafeKey::new(ring::aead::UnboundKey::new(&ring::aead::CHACHA20_POLY1305, key).unwrap());
    let n = ring::aead::Nonce::try_assume_unique_for_key(nonce).unwrap();
    let mut in_out = plaintext.to_vec();
    k.seal_in_place_append_tag(n, ring::aead::Aad::from(aad), &mut in_out).unwrap();
    in_out
}

/// Relies on ring::aead (UnboundKey::new with CHACHA20_POLY1305,
/// LessSafeKey::open_in_place): the plaintext when the tag authenticates,
/// else nothing.
#[verifier::external_body]
fn open(key: &[u8], nonce: &[u8], sealed: &[u8], aad: &[u8]) -> (r: Option<Vec<u8>>)
    requires
        key@.len() == KEY_SIZE,
        nonce@.len() == NONCE_LEN,
    ensures
        r.is_some() == aead_open(key@, nonce@, sealed@, aad@).is_some(),
        r.is_some() ==> r.unwrap()@ == aead_open(key@, nonce@, sealed@, aad@).unwrap(),
{
    let k = ring::aead::LessSafeKey::new(ring::aead::UnboundKey::new(&ring::aead::CHACHA20_POLY1305, key).unwrap());
    let n = ring::aead::Nonce::try_assume_unique_for_key(nonce).unwrap();
    let mut in_out = sealed.to_vec();
    match k.open_in_place(n, ring::aead::Aad::from(aad), &mut in_out) {
        Ok(p) => Some(p.to_vec()),
        Err(_) => None,
    }
}

/// What a blob (nonce, then sealed bytes) opens to under `key`.
pub open spec fn blob_opens(key: Seq<u8>, blob: Seq<u8>, aad: Seq<u8>) -> Option<Seq<u8>> {
    if blob.len() < NONCE_LEN + TAG_LEN {
        None
    } else {
        aead_open(key, blob.subrange(0, NONCE_LEN as int), blob.subrange(NONCE_LEN as int, blob.len() as int), aad)
    }
}

/// The working key for `purpose`, expanded from the master key and salt.
pub fn derive_subkey(master: &[u8], salt: &[u8], purpose: &[u8]) -> (r: Vec<u8>)
    ensures
        r@ == hkdf_sha256(master@, salt@, purpose@),
        r@.len() == KEY_SIZE,
{
    hkdf(master, salt, purpose)
}

/// Seals `plaintext` under `key` with a fresh random nonce: the blob is the
/// nonce followed by ciphertext and tag, and opens again to the plaintext.
pub fn encrypt(key: &[u8], plaintext: &[u8], aad: &[u8]) -> (r: Vec<u8>)
    requires
        key@.len() == KEY_SIZE,
        plaintext@.len() <= MAX_SEAL_LEN,
    ensures
        r@.len() == NONCE_LEN + plaintext@.len() + TAG_LEN,
        blob_opens(key@, r@, aad@) == Some(plaintext@),
{
    let nonce = random_bytes(NONCE_LEN);
    let sealed = seal(key, nonce.as_slice(), plaintext, aad);
    let mut blob = copy_range(nonce.as_slice(), 0, NONCE_LEN);
    append_bytes(&mut blob, sealed.as_slice());
    proof {
        assert(nonce@.subrange(0, NONCE_LEN as int) =~= nonce@);
        assert(blob@.subrange(0, NONCE_LEN as int) =~= nonce@);
        assert(blob@.subrange(NONCE_LEN as int, blob@.len() as int) =~= sealed@);
    }
    blob
}

/// Opens a blob made by `encrypt`; a wrong key or altered bytes give
/// `Decryption`.
pub fn decrypt(key: &[u8], blob: &[u8], aad: &[u8]) -> (r: Result<Vec<u8>, Error>)
    requires
        key@.len() == KEY_SIZE,
    ensures
        blob_opens(key@, blob@, aad@).is_some() ==> r.is_ok() && r.unwrap()@ == blob_opens(key@, blob@, aad@).unwrap(),
        blob_opens(key@, blob@, aad@).is_none() ==> r == Err::<Vec<u8>, Error>(Error::Decryption),
{
    if blob.len() < NONCE_LEN + TAG_LEN {
        return Err(Error::Decryption);
    }
    let nonce = copy_range(blob, 0, NONCE_LEN);
    let sealed = copy_range(blob, NONCE_LEN, blob.len());
    match open(key, nonce.as_slice(), sealed.as_slice(), aad) {
        Some(p) => Ok(p),
        None => Err(Error::Decryption),
    }
}

/// Opens a blob with the current-scheme key, else with the legacy one, and
/// says which opened it; the caller seals it again under the current key on
/// its next write. A blob neither opens is a decryption failure, tried once.
pub fn decrypt_migrating(new_key: &[u8], old_key: &[u8], blob: &[u8], aad: &[u8]) -> (r: Result<(Vec<u8>, HkdfVersion), Error>)
    requires
        new_key@.len() == KEY_SIZE,
        old_key@.len() == KEY_SIZE,
    ensures
        blob_opens(new_key@, blob@, aad@).is_some() ==> r.is_ok() && r.unwrap().1 == HkdfVersion::New
            && r.unwrap().0@ == blob_opens(new_key@, blob@, aad@).unwrap(),
        blob_opens(new_key@, blob@, aad@).is_none() && blob_opens(old_key@, blob@, aad@).is_some()
            ==> r.is_ok() && r.unwrap().1 == HkdfVersion::Old && r.unwrap().0@ == blob_opens(old_key@, blob@, aad@).unwrap(),
        blob_opens(new_key@, blob@, aad@).is_none() && blob_opens(old_key@, blob@, aad@).is_none()
            ==> r == Err::<(Vec<u8>, HkdfVersion), Error>(Error::Decryption),
{
    match decrypt(new_key, blob, aad) {
        Ok(p) => Ok((p, HkdfVersion::New)),
        Err(_) => match decrypt(old_key, blob, aad) {
            Ok(p) => Ok((p, HkdfVersion::Old)),
            Err(_) => Err(Error::Decryption),
        },
    }
}

/// A blob sealed under `old_key`, sealed again under `new_key`: the bulk
/// pass of a key-purpose migration.
pub fn re_encrypt(raw: &[u8], old_key: &[u8], new_key: &[u8]) -> (r: Result<Vec<u8>, Error>)
    requires
        old_key@.len() == KEY_SIZE,
        new_key@.len() == KEY_SIZE,
    ensures
        blob_opens(old_key@, raw@, Seq::<u8>::empty()).is_none() ==> r == Err::<Vec<u8>, Error>(Error::Decryption),
        blob_opens(old_key@, raw@, Seq::<u8>::empty()).is_some()
            && blob_opens(old_key@, raw@, Seq::<u8>::empty()).unwrap().len() <= MAX_SEAL_LEN
            ==> r.is_ok() && blob_opens(new_key@, r.unwrap()@, Seq::<u8>::empty()) == blob_opens(old_key@, raw@, Seq::<u8>::empty()),
        r.is_ok() ==> blob_opens(new_key@, r.unwrap()@, Seq::<u8>::empty()) == blob_opens(old_key@, raw@, Seq::<u8>::empty()),
{
    let no_aad: Vec<u8> = Vec::new();
    assert(no_aad@ =~= Seq::<u8>::empty());
    let plain = decrypt(old_key, raw, no_aad.as_slice())?;
    if plain.len() > MAX_SEAL_LEN {
        return Err(Error::Decryption);
    }
    Ok(encrypt(new_key, plain.as_slice(), no_aad.as_slice()))
}

/// The purpose string of chunk `chunk_id` under the scheme with `prefix`.
pub fn chunk_purpose(prefix: &[u8], chunk_id: &str) -> (r: Vec<u8>)
    ensures
        r@ == prefix@ + chunk_id.spec_bytes(),
{
    let mut v = copy_range(prefix, 0, prefix.len());
    assert(prefix@.subrange(0, prefix@.len() as int) =~= prefix@);
    append_bytes(&mut v, chunk_id.as_bytes());
    v
}

/// The old and new subkeys of one purpose pair, from the master key.
pub fn migration_keys(master: &[u8], salt: &[u8], old_purpose: &[u8], new_purpose: &[u8]) -> (r: (Vec<u8>, Vec<u8>))
    ensures
        r.0@ == hkdf_sha256(master@, salt@, old_purpose@),
        r.1@ == hkdf_sha256(master@, salt@, new_purpose@),
        r.0@.len() == KEY_SIZE,
        r.1@.len() == KEY_SIZE,
{
    (derive_subkey(master, salt, old_purpose), derive_subkey(master, salt, new_purpose))
}

} // verus!
