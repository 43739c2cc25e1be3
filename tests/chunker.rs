use telegramfs::chunk::{Chunk, Chunker, DedupTracker};
use telegramfs::config::ChunkConfig;

fn test_chunker() -> Chunker {
    Chunker::with_size(1024)
}

#[test]
fn test_chunk_creation() {
    let data = b"Hello, World!";
    let chunk = Chunk::new(data.to_vec(), 0);

    assert_eq!(chunk.data, data);
    assert_eq!(chunk.info.size, data.len());
    assert_eq!(chunk.info.offset, 0);
    assert!(!chunk.info.content_hash.is_empty());
}

#[test]
fn test_chunk_id_deterministic() {
    let data = b"Same content";
    let chunk1 = Chunk::new(data.to_vec(), 0);
    let chunk2 = Chunk::new(data.to_vec(), 100);

    assert_eq!(chunk1.info.content_hash, chunk2.info.content_hash);
}

#[test]
fn test_chunker_small_data() {
    let chunker = test_chunker();
    let data = b"Small data";

    let chunks = chunker.chunk_data(data);

    assert_eq!(chunks.len(), 1);
    assert_eq!(chunks[0].data, data);
}

#[test]
fn test_chunker_large_data() {
    let chunker = test_chunker();
    let data = vec![0x42u8; 3000];

    let chunks = chunker.chunk_data(&data);

    assert_eq!(chunks.len(), 3);
    assert_eq!(chunks[0].data.len(), 1024);
    assert_eq!(chunks[1].data.len(), 1024);
    assert_eq!(chunks[2].data.len(), 952);
}

#[test]
fn test_reassemble() {
    let chunker = test_chunker();
    let original = vec![0x42u8; 3000];

    let chunks = chunker.chunk_data(&original);
    let reassembled = chunker.reassemble(&chunks);

    assert_eq!(reassembled, original);
}

#[test]
fn test_reassemble_unordered() {
    let chunker = test_chunker();
    let original = vec![0x42u8; 3000];

    let mut chunks = chunker.chunk_data(&original);
    chunks.reverse();

    let reassembled = chunker.reassemble(&chunks);
    assert_eq!(reassembled, original);
}

#[test]
fn test_dedup_tracker() {
    let mut tracker = DedupTracker::new();

    let chunk1 = Chunk::new(b"data1".to_vec(), 0);
    let chunk2 = Chunk::new(b"data2".to_vec(), 0);
    let chunk3 = Chunk::new(b"data1".to_vec(), 100);

    assert!(!tracker.is_known(&chunk1.info.id));

    tracker.register(chunk1.info.id.clone());
    assert!(tracker.is_known(&chunk1.info.id));
    assert!(!tracker.is_known(&chunk2.info.id));
    assert!(tracker.is_known(&chunk3.info.id));
}

#[test]
fn test_filter_new() {
    let mut tracker = DedupTracker::new();

    let existing = Chunk::new(b"existing".to_vec(), 0);
    tracker.register(existing.info.id.clone());

    let new_chunk = Chunk::new(b"new".to_vec(), 0);
    let dup_chunk = Chunk::new(b"existing".to_vec(), 100);

    let chunks = vec![new_chunk.clone(), dup_chunk];
    let (new_ones, existing_ids) = tracker.filter_new(chunks);

    assert_eq!(new_ones.len(), 1);
    assert_eq!(existing_ids.len(), 1);
    assert_eq!(new_ones[0].info.id, new_chunk.info.id);
}

#[test]
fn test_file_hash() {
    let chunker = test_chunker();
    let data = b"Test data for hashing";

    let hash1 = chunker.file_hash(data);
    let hash2 = chunker.file_hash(data);

    assert_eq!(hash1, hash2);
    assert!(!hash1.is_empty());
}

#[test]
fn chunk_id_is_lowercase_hex_of_64_digits_and_differs_from_input() {
    let chunk = Chunk::new(b"abc".to_vec(), 0);
    assert_eq!(chunk.id().len(), 64);
    assert!(chunk.id().chars().all(|c| c.is_ascii_hexdigit() && !c.is_ascii_uppercase()));
    assert_ne!(chunk.id(), "abc");
    assert_eq!(chunk.info.id, chunk.info.content_hash);
}

#[test]
fn empty_file_has_no_chunks_and_hash_of_empty() {
    let chunker = test_chunker();
    let chunks = chunker.chunk_data(&[]);
    assert!(chunks.is_empty());
    assert_eq!(chunker.reassemble(&chunks), Vec::<u8>::new());
    assert_eq!(chunker.file_hash(&[]).len(), 64);
}

#[test]
fn file_of_exactly_chunk_size_is_one_chunk() {
    let chunker = test_chunker();
    let data = vec![7u8; 1024];
    let chunks = chunker.chunk_data(&data);
    assert_eq!(chunks.len(), 1);
    assert_eq!(chunks[0].data.len(), 1024);
}

#[test]
fn file_of_chunk_size_plus_one_is_two_chunks() {
    let chunker = test_chunker();
    let data = vec![7u8; 1025];
    let chunks = chunker.chunk_data(&data);
    assert_eq!(chunks.len(), 2);
    assert_eq!(chunks[1].data.len(), 1);
    assert_eq!(chunks[1].info.offset, 1024);
}

#[test]
fn chunker_from_config_uses_its_size() {
    let config = ChunkConfig {
        chunk_size: 4096,
        compression_enabled: true,
        compression_threshold: 1024,
        dedup_enabled: true,
    };
    assert_eq!(Chunker::new(&config).chunk_size(), 4096);
}

#[test]
fn round_trip_for_lengths_up_to_three_chunks_and_one() {
    let chunker = Chunker::with_size(16);
    for len in [0usize, 1, 15, 16, 17, 31, 32, 33, 48, 49] {
        let data: Vec<u8> = (0..len).map(|i| (i * 7 + 3) as u8).collect();
        let chunks = chunker.chunk_data(&data);
        assert_eq!(chunker.reassemble(&chunks), data);
    }
}

#[test]
fn write_read_five_mib_with_one_mib_chunks() {
    let chunker = Chunker::with_size(1024 * 1024);
    let mut state: u64 = 0x9e3779b97f4a7c15;
    let data: Vec<u8> = (0..5 * 1024 * 1024u32)
        .map(|_| {
            state ^= state << 13;
            state ^= state >> 7;
            state ^= state << 17;
            (state >> 24) as u8
        })
        .collect();
    let chunks = chunker.chunk_data(&data);
    assert_eq!(chunks.len(), 5);
    let total: usize = chunks.iter().map(|c| c.info.size).sum();
    assert_eq!(total, 5242880);
    for i in 0..chunks.len() {
        for j in (i + 1)..chunks.len() {
            assert_ne!(chunks[i].info.id, chunks[j].info.id);
        }
    }
    let back = chunker.reassemble(&chunks);
    assert_eq!(back, data);
    assert_eq!(chunker.file_hash(&back), chunker.file_hash(&data));
}

#[test]
fn dedup_of_two_identical_files_uploads_one_chunk() {
    let chunker = Chunker::with_size(1024 * 1024);
    let mut tracker = DedupTracker::new();
    let a = vec![b'A'; 1024 * 1024];
    let b = vec![b'A'; 1024 * 1024];
    let (new_a, existing_a) = tracker.filter_new(chunker.chunk_data(&a));
    let (new_b, existing_b) = tracker.filter_new(chunker.chunk_data(&b));
    assert_eq!(new_a.len() + new_b.len(), 1);
    assert!(existing_a.is_empty());
    assert_eq!(existing_b, vec![new_a[0].info.id.clone()]);
    assert_eq!(tracker.len(), 1);
}

#[test]
fn filter_new_treats_repeats_within_one_batch_as_existing() {
    let mut tracker = DedupTracker::new();
    let c1 = Chunk::new(b"x".to_vec(), 0);
    let c2 = Chunk::new(b"x".to_vec(), 1);
    let (new_ones, existing) = tracker.filter_new(vec![c1.clone(), c2]);
    assert_eq!(new_ones.len(), 1);
    assert_eq!(new_ones[0].info.offset, 0);
    assert_eq!(existing, vec![c1.info.id.clone()]);
    assert!(!tracker.is_empty());
}

#[test]
fn read_range_returns_window_or_short_read() {
    let chunker = Chunker::with_size(4);
    let data: Vec<u8> = (0..10u8).collect();
    let mut chunks = chunker.chunk_data(&data);
    chunks.reverse();
    assert_eq!(chunker.read_range(&chunks, 2, 5), vec![2, 3, 4, 5, 6]);
    assert_eq!(chunker.read_range(&chunks, 8, 5), vec![8, 9]);
    assert_eq!(chunker.read_range(&chunks, 12, 5), Vec::<u8>::new());
    assert_eq!(chunker.read_range(&chunks, 0, u64::MAX), data);
}
