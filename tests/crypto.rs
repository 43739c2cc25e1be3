use telegramfs::config::EncryptionConfig;
use telegramfs::crypto::{decrypt, decrypt_migrating, derive_subkey, encrypt};
use telegramfs::error::Error;
use telegramfs::kdf::{derive_key, KEY_SIZE};
use telegramfs::migrate::HkdfVersion;

fn master() -> (Vec<u8>, Vec<u8>) {
    let config = EncryptionConfig { argon2_memory_kib: 1024, argon2_iterations: 1, argon2_parallelism: 1, salt: Vec::new() };
    let k = derive_key(b"correct horse", Some(&[3u8; 32]), &config).unwrap();
    (k.key().to_vec(), k.salt().to_vec())
}

#[test]
fn subkeys_are_bound_to_their_purpose() {
    let (m, salt) = master();
    let a = derive_subkey(&m, &salt, b"tgcryptfs-metadata-v1");
    let b = derive_subkey(&m, &salt, b"tgcryptfs-metadata-v1");
    let c = derive_subkey(&m, &salt, b"telegramfs-metadata-v1");
    assert_eq!(a.len(), KEY_SIZE);
    assert_eq!(a, b);
    assert_ne!(a, c);
    assert_ne!(a, m);
}

#[test]
fn encrypt_then_decrypt_round_trips_and_detects_tampering() {
    let (m, salt) = master();
    let key = derive_subkey(&m, &salt, b"tgcryptfs-chunk-v1:abc");
    let blob = encrypt(&key, b"plaintext chunk", b"");
    assert_eq!(blob.len(), 12 + 15 + 16);
    assert_eq!(decrypt(&key, &blob, b"").unwrap(), b"plaintext chunk");
    let other = derive_subkey(&m, &salt, b"tgcryptfs-chunk-v1:abd");
    assert_eq!(decrypt(&other, &blob, b""), Err(Error::Decryption));
    let mut altered = blob.clone();
    altered[20] ^= 1;
    assert_eq!(decrypt(&key, &altered, b""), Err(Error::Decryption));
    assert_eq!(decrypt(&key, &blob, b"other aad"), Err(Error::Decryption));
    assert_eq!(decrypt(&key, &blob[..10], b""), Err(Error::Decryption));
    // fresh nonces: sealing twice gives different blobs
    assert_ne!(encrypt(&key, b"x", b""), encrypt(&key, b"x", b""));
}

#[test]
fn metadata_migrates_from_old_purpose_to_new() {
    let (m, salt) = master();
    let old_key = derive_subkey(&m, &salt, b"telegramfs-metadata-v1");
    let new_key = derive_subkey(&m, &salt, b"tgcryptfs-metadata-v1");
    let stored = encrypt(&old_key, b"inode table", b"");
    // reads succeed through the legacy key
    let (plain, scheme) = decrypt_migrating(&new_key, &old_key, &stored, b"").unwrap();
    assert_eq!(plain, b"inode table");
    assert_eq!(scheme, HkdfVersion::Old);
    // the next write seals it under the new key
    let rewritten = encrypt(&new_key, &plain, b"");
    let (plain2, scheme2) = decrypt_migrating(&new_key, &old_key, &rewritten, b"").unwrap();
    assert_eq!(plain2, b"inode table");
    assert_eq!(scheme2, HkdfVersion::New);
    // and opens without the old key at all
    assert_eq!(decrypt(&new_key, &rewritten, b"").unwrap(), b"inode table");
    let unrelated = derive_subkey(&m, &salt, b"something-else");
    assert_eq!(decrypt_migrating(&unrelated, &unrelated, &stored, b""), Err(Error::Decryption));
}

#[test]
fn bulk_re_encryption_moves_blobs_to_the_new_subkey() {
    let (m, salt) = master();
    let (old_key, new_key) = telegramfs::crypto::migration_keys(&m, &salt, b"telegramfs-metadata-v1", b"tgcryptfs-metadata-v1");
    assert_eq!(old_key, derive_subkey(&m, &salt, b"telegramfs-metadata-v1"));
    let stored = encrypt(&old_key, b"entry", b"");
    let moved = telegramfs::crypto::re_encrypt(&stored, &old_key, &new_key).unwrap();
    assert_eq!(decrypt(&new_key, &moved, b"").unwrap(), b"entry");
    assert_eq!(decrypt(&old_key, &moved, b""), Err(Error::Decryption));
    assert_eq!(telegramfs::crypto::re_encrypt(&moved, &old_key, &new_key), Err(Error::Decryption));
}

#[test]
fn chunk_purpose_is_prefix_then_id() {
    assert_eq!(telegramfs::crypto::chunk_purpose(b"tgcryptfs-chunk-v1:", "ab12"), b"tgcryptfs-chunk-v1:ab12".to_vec());
}
