//! The per-chunk storage path: compress when it pays, then seal; and back:
//! open, decompress as recorded, and check the bytes against the chunk id.

use vstd::prelude::*;
use crate::chunk::{content_id, hash_hex, Chunk};
use crate::compression::{compress_or_original, compression_pays, lz4_block, restore_plaintext};
use crate::crypto::{blob_opens, decrypt, encrypt, MAX_SEAL_LEN};
use crate::error::Error;
use crate::kdf::KEY_SIZE;

verus! {

/// The stored form of a chunk: the blob to upload and whether its sealed
/// bytes are compressed.
pub fn seal_chunk(chunk: &Chunk, key: &[u8], threshold: usize) -> (r: (Vec<u8>, bool))
    requires
        key@.len() == KEY_SIZE,
        chunk.data@.len() <= MAX_SEAL_LEN,
    ensures
        r.1 == compression_pays(chunk.data@, threshold as nat),
        r.1 ==> blob_opens(key@, r.0@, Seq::<u8>::empty()) == Some(lz4_block(chunk.data@)),
        !r.1 ==> blob_opens(key@, r.0@, Seq::<u8>::empty()) == Some(chunk.data@),
{
    let (stored, compressed) = compress_or_original(chunk.data.as_slice(), threshold);
    let no_aad: Vec<u8> = Vec::new();
    assert(no_aad@ =~= Seq::<u8>::empty());
    (encrypt(key, stored.as_slice(), no_aad.as_slice()), compressed)
}

/// The plaintext of a stored chunk, checked against its id: it opens under
/// `key`, decompresses as `compressed` says, and hashes to `id`.
pub fn open_chunk(id: &str, key: &[u8], blob: &[u8], compressed: bool) -> (r: Result<Vec<u8>, Error>)
    requires
        key@.len() == KEY_SIZE,
    ensures
        r.is_ok() ==> content_id(r.unwrap()@) == id@,
        blob_opens(key@, blob@, Seq::<u8>::empty()).is_none() ==> r == Err::<Vec<u8>, Error>(Error::Decryption),
        forall|x: Seq<u8>| #[trigger] content_id(x) == id@ && (compressed ==> x.len() <= u32::MAX)
            && blob_opens(key@, blob@, Seq::<u8>::empty()) == Some(if compressed { lz4_block(x) } else { x })
            ==> r.is_ok() && r.unwrap()@ == x,
{
    let no_aad: Vec<u8> = Vec::new();
    assert(no_aad@ =~= Seq::<u8>::empty());
    let stored = decrypt(key, blob, no_aad.as_slice())?;
    let plain = restore_plaintext(stored.as_slice(), compressed)?;
    let h = hash_hex(plain.as_slice());
    let want = id.to_owned();
    if h != want {
        return Err(Error::ChunkHashMismatch);
    }
    Ok(plain)
}

} // verus!
