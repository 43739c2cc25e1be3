//! LZ4 compression of chunks, applied only where it pays.

use vstd::prelude::*;
use crate::bytes::copy_range;
use crate::error::Error;

verus! {

/// What the LZ4 block compressor yields for `data`, length prefix included.
pub uninterp spec fn lz4_block(data: Seq<u8>) -> Seq<u8>;

/// Relies on lz4_flex::compress_prepend_size: the output depends on the bytes alone.
#[verifier::external_body]
fn lz4_compress(data: &[u8]) -> (r: Vec<u8>)
    ensures
        r@ == lz4_block(data@),
{
    lz4_flex::compress_prepend_size(data)
}

/// Relies on lz4_flex::decompress_size_prepended: it inverts
/// compress_prepend_size for inputs whose length fits the u32 size prefix
/// that compress_prepend_size writes, and fails (rather than panics) on
/// other input.
#[verifier::external_body]
fn lz4_decompress(data: &[u8]) -> (r: Option<Vec<u8>>)
    ensures
        forall|x: Seq<u8>| #[trigger] lz4_block(x) == data@ && x.len() <= u32::MAX ==> r.is_some() && r.unwrap()@ == x,
{
    match lz4_flex::decompress_size_prepended(data) {
        Ok(v) => Some(v),
        Err(_) => None,
    }
}

/// Whether compression is used for `data`: it is long enough, short enough
/// for the u32 length prefix, and shrinks.
pub open spec fn compression_pays(data: Seq<u8>, threshold: nat) -> bool {
    data.len() >= threshold && data.len() <= u32::MAX && lz4_block(data).len() < data.len()
}

/// The compressed form of `data`, when it is at least `threshold` bytes, at
/// most u32::MAX bytes, and compression makes it smaller.
pub fn compress(data: &[u8], threshold: usize) -> (r: Option<Vec<u8>>)
    ensures
        r.is_some() == compression_pays(data@, threshold as nat),
        r.is_some() ==> r.unwrap()@ == lz4_block(data@),
{
    if data.len() < threshold || data.len() as u64 > 0xffff_ffffu64 {
        return None;
    }
    let compressed = lz4_compress(data);
    if compressed.len() < data.len() {
        Some(compressed)
    } else {
        None
    }
}

/// Undoes `compress`.
pub fn decompress(data: &[u8]) -> (r: Result<Vec<u8>, Error>)
    ensures
        forall|x: Seq<u8>| #[trigger] lz4_block(x) == data@ && x.len() <= u32::MAX ==> r.is_ok() && r.unwrap()@ == x,
        r.is_err() ==> r == Err::<Vec<u8>, Error>(Error::Decompression),
{
    match lz4_decompress(data) {
        Some(v) => Ok(v),
        None => Err(Error::Decompression),
    }
}

/// The bytes to store for `data` and whether they are compressed.
pub fn compress_or_original(data: &[u8], threshold: usize) -> (r: (Vec<u8>, bool))
    ensures
        r.1 == compression_pays(data@, threshold as nat),
        r.1 ==> r.0@ == lz4_block(data@),
        !r.1 ==> r.0@ == data@,
{
    match compress(data, threshold) {
        Some(c) => (c, true),
        None => {
            let copy = copy_range(data, 0, data.len());
            assert(data@.subrange(0, data@.len() as int) =~= data@);
            (copy, false)
        },
    }
}

/// The plaintext of stored chunk bytes: `compressed` says how they were stored.
pub fn restore_plaintext(stored: &[u8], compressed: bool) -> (r: Result<Vec<u8>, Error>)
    ensures
        !compressed ==> r.is_ok() && r.unwrap()@ == stored@,
        compressed ==> forall|x: Seq<u8>| #[trigger] lz4_block(x) == stored@ && x.len() <= u32::MAX ==> r.is_ok() && r.unwrap()@ == x,
{
    if compressed {
        decompress(stored)
    } else {
        let copy = copy_range(stored, 0, stored.len());
        assert(stored@.subrange(0, stored@.len() as int) =~= stored@);
        Ok(copy)
    }
}

} // verus!
