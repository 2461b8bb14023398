use data::realtime_ingester::chunk_index::{ChunkIndex, ChunkIndexEntry, sort_by_key};

fn entry(key_hash: u64, start_offset: usize, length: u32) -> ChunkIndexEntry {
    ChunkIndexEntry { key_hash, start_offset, length }
}

#[test]
fn sorting_keeps_equal_keys_in_order() {
    let mut v = vec![entry(30, 0, 1), entry(10, 1, 1), entry(30, 2, 1), entry(20, 3, 1), entry(10, 4, 1)];
    sort_by_key(&mut v);
    let order: Vec<(u64, usize)> = v.iter().map(|e| (e.key_hash, e.start_offset)).collect();
    assert_eq!(order, vec![(10, 1), (10, 4), (20, 3), (30, 0), (30, 2)]);
}

#[test]
fn opening_takes_over_a_usable_index() {
    let entries = vec![entry(60_000_000, 0, 100), entry(120_000_000, 100, 50)];
    let (idx, last) = ChunkIndex::open(true, entries.clone(), 1_000 + 150, 1_000);
    assert_eq!(idx.entries, entries);
    assert_eq!(idx.current_payload_offset, 150);
    assert_eq!(last, Some(120_000));
}

#[test]
fn opening_scales_down_nanosecond_keys() {
    let entries = vec![entry(1_700_000_000_000_000_000, 0, 10)];
    let (_, last) = ChunkIndex::open(true, entries, 100, 50);
    assert_eq!(last, Some(1_700_000_000_000));
}

#[test]
fn opening_discards_a_broken_index() {
    let entries = vec![entry(60_000_000, 0, 100)];
    // The file is too short for the payload the index points to.
    let (idx, last) = ChunkIndex::open(true, entries.clone(), 1_050, 1_000);
    assert!(idx.entries.is_empty());
    assert_eq!(last, None);
    // A bad header.
    let (idx, last) = ChunkIndex::open(false, entries, 10_000, 1_000);
    assert!(idx.entries.is_empty() && last.is_none());
    // No chunk with payload.
    let (idx, _) = ChunkIndex::open(true, vec![entry(1, 0, 0)], 10_000, 1_000);
    assert!(idx.entries.is_empty());
    assert_eq!(idx.payload_start_offset, 1_000);
}

#[test]
fn recording_chunks_keeps_the_index_sorted() {
    let mut idx = ChunkIndex::new(4_096);
    assert!(idx.has_room(2));
    assert!(!idx.record_chunk(200, 10, 0));
    assert!(!idx.record_chunk(100, 20, 0));
    assert_eq!(idx.next_payload_file_offset(), 4_096 + 30);
    assert_eq!(idx.entries, vec![entry(100, 10, 20), entry(200, 0, 10)]);
    assert!(!idx.has_room(2));
    // A chunk with a known key replaces its entry.
    assert!(!idx.record_chunk(200, 5, 0));
    assert_eq!(idx.entries, vec![entry(100, 10, 20), entry(200, 30, 5)]);
    assert_eq!(idx.pending_index_updates, 3);
}

#[test]
fn the_index_is_written_every_ten_chunks_or_each_second() {
    let mut idx = ChunkIndex::new(0);
    for k in 0..9u64 {
        assert!(!idx.record_chunk(k, 1, 0));
    }
    assert!(idx.record_chunk(9, 1, 0));
    assert_eq!(idx.pending_index_updates, 0);
    assert!(idx.record_chunk(10, 1, 1));
    assert!(!idx.take_pending());
    idx.record_chunk(11, 1, 0);
    assert!(idx.take_pending());
    assert_eq!(idx.pending_index_updates, 0);
}

#[test]
fn offsets_that_fit() {
    assert!(ChunkIndex::offsets_fit(&vec![], usize::MAX));
    assert!(ChunkIndex::offsets_fit(&vec![entry(1, 100, 20)], 1_000));
    assert!(!ChunkIndex::offsets_fit(&vec![entry(1, usize::MAX - 5, 20)], 0));
    assert!(!ChunkIndex::offsets_fit(&vec![entry(1, 100, 20)], usize::MAX - 50));
}

#[test]
fn the_nanosecond_store_opens_its_index() {
    let entries = vec![entry(60_000_000_000, 0, 10), entry(120_000_000_000, 10, 5)];
    let (index, last) = ChunkIndex::open_ns_store(true, entries.clone(), 4_800_072);
    assert_eq!(index.entries, entries);
    assert_eq!(index.current_payload_offset, 15);
    assert_eq!(last, Some(120_000));
    let (index, last) = ChunkIndex::open_ns_store(true, vec![], 4_800_072);
    assert!(index.entries.is_empty());
    assert_eq!((index.current_payload_offset, last), (0, None));
    let (index, last) = ChunkIndex::open_ns_store(false, entries, 4_800_072);
    assert!(index.entries.is_empty());
    assert_eq!(last, None);
}
