use telegramfs::compression::{compress, compress_or_original, decompress, restore_plaintext};

#[test]
fn test_compress_decompress() {
    let data = b"Hello, World! Hello, World! Hello, World!";

    if let Some(compressed) = compress(data, 10) {
        let decompressed = decompress(&compressed).unwrap();
        assert_eq!(decompressed, data);
    }
}

#[test]
fn test_compress_threshold() {
    let small_data = b"Hi";
    assert!(compress(small_data, 10).is_none());
}

#[test]
fn test_incompressible_data() {
    let data: Vec<u8> = (0..1000).map(|i| (i * 17 + 31) as u8).collect();
    let result = compress(&data, 10);

    if let Some(compressed) = result {
        let decompressed = decompress(&compressed).unwrap();
        assert_eq!(decompressed, data);
    }
}

#[test]
fn test_compress_or_original() {
    let compressible = vec![0x42u8; 1000];
    let (result, compressed) = compress_or_original(&compressible, 10);

    assert!(compressed);
    assert!(result.len() < compressible.len());

    let decompressed = decompress(&result).unwrap();
    assert_eq!(decompressed, compressible);
}

#[test]
fn test_large_data() {
    let data = vec![0x42u8; 1024 * 1024];

    if let Some(compressed) = compress(&data, 1024) {
        let decompressed = decompress(&compressed).unwrap();
        assert_eq!(decompressed, data);
    }
}

#[test]
fn uncompressed_chunks_are_stored_and_restored_as_is() {
    let data = b"short".to_vec();
    let (stored, compressed) = compress_or_original(&data, 1024);
    assert!(!compressed);
    assert_eq!(stored, data);
    assert_eq!(restore_plaintext(&stored, compressed).unwrap(), data);
    let big = vec![1u8; 4096];
    let (stored, compressed) = compress_or_original(&big, 1024);
    assert!(compressed);
    assert_ne!(stored, big);
    assert_eq!(restore_plaintext(&stored, compressed).unwrap(), big);
}

#[test]
fn garbage_is_a_decompression_error() {
    assert!(decompress(&[0xff, 0xff, 0xff, 0x7f, 1, 2, 3]).is_err());
}
