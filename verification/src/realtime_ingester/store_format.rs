//! Byte layout of the trade store file: a header, a fixed-capacity chunk
//! index, then the chunks' payloads.
//!
//! Header (72 bytes): magic number (8), data version (u16), 6 bytes of
//! padding, index count (u64), payload start offset (u64), 38 reserved
//! bytes, 2 bytes of padding. Index entry (24 bytes): key (u64), payload
//! offset (u64), payload length (u32), reserved (u32). Integers are
//! little-endian; padding and reserved bytes are written as zero.

use vstd::prelude::*;

use crate::realtime_ingester::chunk_index::ChunkIndexEntry;

verus! {

/// Version of the layout written in the header.
pub const DATA_VERSION: u16 = 1;

/// Number of entries the index region has room for.
pub const INDEX_CAPACITY: usize = 200_000;

/// Bytes of the header.
pub const HEADER_SIZE: usize = 72;

/// Bytes of one index entry.
pub const ENTRY_SIZE: usize = 24;

/// Where the payload region starts: after the header and a full index.
pub const PAYLOAD_START: usize = 4_800_072;

/// The magic number "ZEROCPY!" as bytes.
pub open spec fn magic() -> Seq<u8> {
    seq![0x5Au8, 0x45u8, 0x52u8, 0x4Fu8, 0x43u8, 0x50u8, 0x59u8, 0x21u8]
}

/// 256 to the power `n`.
pub open spec fn pow256(n: nat) -> nat
    decreases n,
{
    if n == 0 {
        1
    } else {
        256 * pow256((n - 1) as nat)
    }
}

/// The `n` little-endian bytes of `v` (its low `n` bytes).
pub open spec fn le_bytes(v: nat, n: nat) -> Seq<u8>
    decreases n,
{
    if n == 0 {
        Seq::empty()
    } else {
        seq![(v % 256) as u8] + le_bytes(v / 256, (n - 1) as nat)
    }
}

/// The number little-endian bytes write.
pub open spec fn le_value(b: Seq<u8>) -> nat
    decreases b.len(),
{
    if b.len() == 0 {
        0
    } else {
        b[0] as nat + 256 * le_value(b.drop_first())
    }
}

/// `n` zero bytes.
pub open spec fn zeros(n: nat) -> Seq<u8> {
    Seq::new(n, |i: int| 0u8)
}

/// The header for an index of `index_count` entries whose payloads start
/// at `payload_start`.
pub open spec fn header_bytes(index_count: u64, payload_start: u64) -> Seq<u8> {
    magic() + le_bytes(DATA_VERSION as nat, 2) + zeros(6) + le_bytes(index_count as nat, 8) + le_bytes(
        payload_start as nat,
        8,
    ) + zeros(40)
}

/// The bytes of one index entry.
pub open spec fn entry_bytes(key: u64, offset: u64, length: u32) -> Seq<u8> {
    le_bytes(key as nat, 8) + le_bytes(offset as nat, 8) + le_bytes(length as nat, 4) + zeros(4)
}

/// The header's fields that the store reads back.
#[derive(Debug, Clone, Copy, PartialEq, Eq, Structural)]
pub struct HeaderInfo {
    pub magic_ok: bool,
    pub version_ok: bool,
    pub index_count: u64,
}

/// What a header's bytes say: whether the magic number and the version are
/// this layout's, and the index count.
pub open spec fn header_info_of(b: Seq<u8>) -> HeaderInfo {
    HeaderInfo {
        magic_ok: b.subrange(0, 8) == magic(),
        version_ok: le_value(b.subrange(8, 10)) == DATA_VERSION,
        index_count: le_value(b.subrange(16, 24)) as u64,
    }
}

/// What an index entry's bytes say: key, payload offset and length.
pub open spec fn entry_of(b: Seq<u8>) -> (u64, nat, u32) {
    (
        le_value(b.subrange(0, 8)) as u64,
        le_value(b.subrange(8, 16)),
        le_value(b.subrange(16, 20)) as u32,
    )
}

proof fn lemma_le_round_trip(v: nat, n: nat)
    requires
        v < pow256(n),
    ensures
        le_bytes(v, n).len() == n,
        le_value(le_bytes(v, n)) == v,
    decreases n,
{
    if n > 0 {
        assert(v / 256 < pow256((n - 1) as nat)) by (nonlinear_arith)
            requires
                v < 256 * pow256((n - 1) as nat),
        ;
        lemma_le_round_trip(v / 256, (n - 1) as nat);
        let b = le_bytes(v, n);
        assert(b.drop_first() =~= le_bytes(v / 256, (n - 1) as nat));
        assert(v == v % 256 + 256 * (v / 256)) by (nonlinear_arith);
    }
}

proof fn lemma_le_value_bound(b: Seq<u8>)
    ensures
        le_value(b) < pow256(b.len()),
    decreases b.len(),
{
    if b.len() > 0 {
        lemma_le_value_bound(b.drop_first());
        let r = le_value(b.drop_first());
        let p = pow256((b.len() - 1) as nat);
        assert(b[0] + 256 * r < 256 * p) by (nonlinear_arith)
            requires
                r < p,
                b[0] < 256,
        ;
    }
}

proof fn lemma_pow256_small()
    ensures
        pow256(2) == 0x1_0000,
        pow256(4) == 0x1_0000_0000,
        pow256(8) == 0x1_0000_0000_0000_0000,
{
    reveal_with_fuel(pow256, 9);
}

/// Appends the `n` little-endian bytes of `v`.
fn push_le(out: &mut Vec<u8>, v: u64, n: usize)
    ensures
        final(out)@ == old(out)@ + le_bytes(v as nat, n as nat),
    decreases n,
{
    if n == 0 {
        proof {
            assert(old(out)@ + le_bytes(v as nat, 0) =~= old(out)@);
        }
        return;
    }
    out.push((v % 256) as u8);
    push_le(out, v / 256, n - 1);
    proof {
        assert(final(out)@ =~= old(out)@ + le_bytes(v as nat, n as nat));
    }
}

/// Appends `n` zero bytes.
fn push_zeros(out: &mut Vec<u8>, n: usize)
    ensures
        final(out)@ == old(out)@ + zeros(n as nat),
{
    let ghost start = out@;
    let mut k: usize = 0;
    while k < n
        invariant
            k <= n,
            out@ == start + zeros(k as nat),
        decreases n - k,
    {
        out.push(0u8);
        k = k + 1;
        proof {
            assert(out@ =~= start + zeros(k as nat));
        }
    }
}

/// The number the `n` little-endian bytes of `b` from `off` write.
fn read_le(b: &[u8], off: usize, n: usize) -> (r: u64)
    requires
        off + n <= b@.len(),
        n <= 8,
    ensures
        r == le_value(b@.subrange(off as int, off + n)),
    decreases n,
{
    proof {
        lemma_le_value_bound(b@.subrange(off as int, off + n));
        lemma_pow256_small();
        lemma_pow256_mono(n as nat, 8);
    }
    if n == 0 {
        return 0;
    }
    assert(off + 1 <= b.len());
    let rest = read_le(b, off + 1, n - 1);
    proof {
        let s = b@.subrange(off as int, off + n);
        assert(s.drop_first() =~= b@.subrange(off + 1, off + n));
    }
    b[off] as u64 + 256 * rest
}

proof fn lemma_pow256_mono(a: nat, b: nat)
    requires
        a <= b,
    ensures
        pow256(a) <= pow256(b),
    decreases b,
{
    if a < b {
        lemma_pow256_mono(a, (b - 1) as nat);
    }
}

/// The header for an index of `index_count` entries whose payloads start
/// at `payload_start`.
pub fn encode_header(index_count: u64, payload_start: u64) -> (b: Vec<u8>)
    ensures
        b@ == header_bytes(index_count, payload_start),
        b@.len() == HEADER_SIZE,
{
    let mut b: Vec<u8> = Vec::new();
    b.push(0x5A);
    b.push(0x45);
    b.push(0x52);
    b.push(0x4F);
    b.push(0x43);
    b.push(0x50);
    b.push(0x59);
    b.push(0x21);
    proof {
        assert(b@ =~= magic());
    }
    push_le(&mut b, DATA_VERSION as u64, 2);
    push_zeros(&mut b, 6);
    push_le(&mut b, index_count, 8);
    push_le(&mut b, payload_start, 8);
    push_zeros(&mut b, 40);
    proof {
        lemma_pow256_small();
        lemma_le_round_trip(DATA_VERSION as nat, 2);
        lemma_le_round_trip(index_count as nat, 8);
        lemma_le_round_trip(payload_start as nat, 8);
    }
    b
}

/// Reads a header: whether its magic number and version are this
/// layout's, and its index count.
pub fn decode_header(b: &[u8]) -> (h: HeaderInfo)
    requires
        b@.len() >= HEADER_SIZE,
    ensures
        h == header_info_of(b@),
{
    let magic_ok = b[0] == 0x5A && b[1] == 0x45 && b[2] == 0x52 && b[3] == 0x4F && b[4] == 0x43
        && b[5] == 0x50 && b[6] == 0x59 && b[7] == 0x21;
    proof {
        if magic_ok {
            assert(b@.subrange(0, 8) =~= magic());
        } else if b@.subrange(0, 8) == magic() {
            assert(b@.subrange(0, 8)[0] == b@[0]);
            assert(b@.subrange(0, 8)[1] == b@[1]);
            assert(b@.subrange(0, 8)[2] == b@[2]);
            assert(b@.subrange(0, 8)[3] == b@[3]);
            assert(b@.subrange(0, 8)[4] == b@[4]);
            assert(b@.subrange(0, 8)[5] == b@[5]);
            assert(b@.subrange(0, 8)[6] == b@[6]);
            assert(b@.subrange(0, 8)[7] == b@[7]);
        }
    }
    let version = read_le(b, 8, 2);
    let index_count = read_le(b, 16, 8);
    HeaderInfo { magic_ok, version_ok: version == DATA_VERSION as u64, index_count }
}

/// The bytes of one index entry.
pub fn encode_entry(e: &ChunkIndexEntry) -> (b: Vec<u8>)
    ensures
        b@ == entry_bytes(e.key_hash, e.start_offset as u64, e.length),
        b@.len() == ENTRY_SIZE,
{
    let mut b: Vec<u8> = Vec::new();
    push_le(&mut b, e.key_hash, 8);
    push_le(&mut b, e.start_offset as u64, 8);
    push_le(&mut b, e.length as u64, 4);
    push_zeros(&mut b, 4);
    proof {
        lemma_pow256_small();
        lemma_le_round_trip(e.key_hash as nat, 8);
        lemma_le_round_trip(e.start_offset as nat, 8);
        lemma_le_round_trip(e.length as nat, 4);
    }
    b
}

/// Reads an index entry from the first `ENTRY_SIZE` bytes of `b`; an
/// offset beyond `usize` is cut to its low bits.
pub fn decode_entry(b: &[u8]) -> (e: ChunkIndexEntry)
    requires
        b@.len() >= ENTRY_SIZE,
    ensures
        e.key_hash == entry_of(b@).0,
        e.start_offset == entry_of(b@).1 as usize,
        e.length == entry_of(b@).2,
{
    let key_hash = read_le(b, 0, 8);
    let offset = read_le(b, 8, 8);
    let length = read_le(b, 16, 4);
    proof {
        lemma_le_value_bound(b@.subrange(16, 20));
        lemma_pow256_small();
    }
    ChunkIndexEntry { key_hash, start_offset: offset as usize, length: length as u32 }
}

/// A header reads back as written: magic number and version are this
/// layout's and the index count is the one written.
pub proof fn law_header_round_trip(index_count: u64, payload_start: u64)
    ensures
        header_info_of(header_bytes(index_count, payload_start)) == (HeaderInfo {
            magic_ok: true,
            version_ok: true,
            index_count,
        }),
        header_bytes(index_count, payload_start).len() == HEADER_SIZE,
{
    lemma_pow256_small();
    lemma_le_round_trip(DATA_VERSION as nat, 2);
    lemma_le_round_trip(index_count as nat, 8);
    lemma_le_round_trip(payload_start as nat, 8);
    let b = header_bytes(index_count, payload_start);
    assert(b.subrange(0, 8) =~= magic());
    assert(b.subrange(8, 10) =~= le_bytes(DATA_VERSION as nat, 2));
    assert(b.subrange(16, 24) =~= le_bytes(index_count as nat, 8));
}

/// An index entry reads back as written.
pub proof fn law_entry_round_trip(key: u64, offset: u64, length: u32)
    ensures
        entry_of(entry_bytes(key, offset, length)) == (key, offset as nat, length),
        entry_bytes(key, offset, length).len() == ENTRY_SIZE,
{
    lemma_pow256_small();
    lemma_le_round_trip(key as nat, 8);
    lemma_le_round_trip(offset as nat, 8);
    lemma_le_round_trip(length as nat, 4);
    let b = entry_bytes(key, offset, length);
    assert(b.subrange(0, 8) =~= le_bytes(key as nat, 8));
    assert(b.subrange(8, 16) =~= le_bytes(offset as nat, 8));
    assert(b.subrange(16, 20) =~= le_bytes(length as nat, 4));
}

} // verus!
