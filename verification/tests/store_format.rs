use data::realtime_ingester::chunk_index::ChunkIndexEntry;
use data::realtime_ingester::store_format::{
    ENTRY_SIZE, HEADER_SIZE, INDEX_CAPACITY, PAYLOAD_START, decode_entry, decode_header, encode_entry,
    encode_header,
};

#[test]
fn header_reads_back_as_written() {
    let b = encode_header(1234, PAYLOAD_START as u64);
    assert_eq!(b.len(), HEADER_SIZE);
    assert_eq!(&b[0..8], b"ZEROCPY!");
    assert_eq!(&b[8..10], &[1, 0]);
    assert_eq!(&b[16..24], &1234u64.to_le_bytes());
    assert_eq!(&b[24..32], &(PAYLOAD_START as u64).to_le_bytes());
    let h = decode_header(&b);
    assert!(h.magic_ok && h.version_ok);
    assert_eq!(h.index_count, 1234);
    let mut bad = b.clone();
    bad[0] = b'X';
    assert!(!decode_header(&bad).magic_ok);
    bad[8] = 2;
    assert!(!decode_header(&bad).version_ok);
}

#[test]
fn entries_read_back_as_written() {
    assert_eq!(PAYLOAD_START, HEADER_SIZE + INDEX_CAPACITY * ENTRY_SIZE);
    let e = ChunkIndexEntry { key_hash: 1_700_000_000_000_000, start_offset: 4_800_072 + 999, length: 70_000 };
    let b = encode_entry(&e);
    assert_eq!(b.len(), ENTRY_SIZE);
    assert_eq!(&b[0..8], &e.key_hash.to_le_bytes());
    assert_eq!(&b[16..20], &e.length.to_le_bytes());
    assert_eq!(&b[20..24], &[0, 0, 0, 0]);
    let d = decode_entry(&b);
    assert_eq!((d.key_hash, d.start_offset, d.length), (e.key_hash, e.start_offset, e.length));
}
