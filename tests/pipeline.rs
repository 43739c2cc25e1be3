use telegramfs::chunk::Chunk;
use telegramfs::crypto::derive_subkey;
use telegramfs::error::Error;
use telegramfs::pipeline::{open_chunk, seal_chunk};

fn key() -> Vec<u8> {
    derive_subkey(&[9u8; 32], &[1u8; 32], b"tgcryptfs-chunk-v1:test")
}

#[test]
fn stored_chunks_open_to_bytes_that_hash_to_their_id() {
    let k = key();
    let compressible = Chunk::new(vec![b'A'; 4096], 0);
    let (blob, compressed) = seal_chunk(&compressible, &k, 1024);
    assert!(compressed);
    assert!(blob.len() < 4096);
    assert_eq!(open_chunk(compressible.id(), &k, &blob, compressed).unwrap(), compressible.data);

    let small = Chunk::new(b"tiny".to_vec(), 0);
    let (blob, compressed) = seal_chunk(&small, &k, 1024);
    assert!(!compressed);
    assert_eq!(blob.len(), 12 + 4 + 16);
    assert_eq!(open_chunk(small.id(), &k, &blob, compressed).unwrap(), b"tiny");
}

#[test]
fn wrong_id_key_or_flag_is_refused() {
    let k = key();
    let c = Chunk::new(vec![7u8; 2048], 0);
    let (blob, compressed) = seal_chunk(&c, &k, 16);
    let other = Chunk::new(vec![8u8; 2048], 0);
    assert_eq!(open_chunk(other.id(), &k, &blob, compressed), Err(Error::ChunkHashMismatch));
    let wrong = derive_subkey(&[9u8; 32], &[1u8; 32], b"tgcryptfs-chunk-v1:other");
    assert_eq!(open_chunk(c.id(), &wrong, &blob, compressed), Err(Error::Decryption));
    assert!(open_chunk(c.id(), &k, &blob, !compressed).is_err());
}
