//! The index of the trade store's chunks: where each chunk's payload lies,
//! how an existing index is taken over or discarded when the store is
//! opened, and how an appended chunk enters it.

use vstd::prelude::*;

use crate::realtime_data_service::{normalize_key_hash_to_us, spec_normalize_key};

verus! {

/// One chunk of the store: its key (the chunk's start time in
/// microseconds), and the offset and length of its payload, counted from
/// the start of the payload region.
#[derive(Debug, Clone, Copy, PartialEq, Eq, Structural)]
pub struct ChunkIndexEntry {
    pub key_hash: u64,
    pub start_offset: usize,
    pub length: u32,
}

/// Number of leading entries of `t` to keep before an entry with key `k`
/// when inserting it after every entry of a key at most `k` (counted from
/// the back).
pub open spec fn insert_pos(t: Seq<ChunkIndexEntry>, k: u64) -> int
    decreases t.len(),
{
    if t.len() == 0 {
        0
    } else if t.last().key_hash <= k {
        t.len() as int
    } else {
        insert_pos(t.drop_last(), k)
    }
}

/// The entries ordered by key, entries of equal keys keeping their order
/// (a stable sort by key).
pub open spec fn sorted_by_key(s: Seq<ChunkIndexEntry>) -> Seq<ChunkIndexEntry>
    decreases s.len(),
{
    if s.len() == 0 {
        s
    } else {
        let t = sorted_by_key(s.drop_last());
        t.insert(insert_pos(t, s.last().key_hash), s.last())
    }
}

/// Whether the keys never decrease.
pub open spec fn keys_ascending(s: Seq<ChunkIndexEntry>) -> bool {
    forall|i: int, j: int| 0 <= i <= j < s.len() ==> #[trigger] s[i].key_hash <= #[trigger] s[j].key_hash
}

/// Index of the first entry at or after `i` with key `k`, or -1.
pub open spec fn entry_with_key(s: Seq<ChunkIndexEntry>, k: u64, i: int) -> int
    decreases s.len() - i,
{
    if i < 0 || i >= s.len() {
        -1
    } else if s[i].key_hash == k {
        i
    } else {
        entry_with_key(s, k, i + 1)
    }
}

/// The index after recording entry `e`: it replaces the first entry with its
/// key, or is appended, and the entries are then sorted by key.
pub open spec fn index_with(s: Seq<ChunkIndexEntry>, e: ChunkIndexEntry) -> Seq<ChunkIndexEntry> {
    let i = entry_with_key(s, e.key_hash, 0);
    sorted_by_key(if i >= 0 { s.update(i, e) } else { s.push(e) })
}

/// Position at which an entry with key `k` is inserted into `t`.
fn find_insert_pos(t: &Vec<ChunkIndexEntry>, k: u64) -> (r: usize)
    ensures
        r == insert_pos(t@, k),
        r <= t@.len(),
{
    let mut j = t.len();
    proof {
        assert(t@.take(j as int) =~= t@);
    }
    while j > 0 && t[j - 1].key_hash > k
        invariant
            j <= t@.len(),
            insert_pos(t@, k) == insert_pos(t@.take(j as int), k),
        decreases j,
    {
        proof {
            assert(t@.take(j as int).drop_last() =~= t@.take(j - 1));
        }
        j = j - 1;
    }
    proof {
        if j > 0 {
            assert(t@.take(j as int).last() == t@[j - 1]);
        }
        if j == t@.len() {
            assert(t@.take(j as int) =~= t@);
        }
    }
    j
}

/// Sorts the entries by key, keeping entries of equal keys in their order.
pub fn sort_by_key(v: &mut Vec<ChunkIndexEntry>)
    ensures
        final(v)@ == sorted_by_key(old(v)@),
{
    let mut src: Vec<ChunkIndexEntry> = Vec::new();
    std::mem::swap(&mut src, v);
    let mut out: Vec<ChunkIndexEntry> = Vec::new();
    let mut i: usize = 0;
    while i < src.len()
        invariant
            i <= src@.len(),
            out@ == sorted_by_key(src@.take(i as int)),
        decreases src.len() - i,
    {
        proof {
            assert(src@.take(i as int + 1).drop_last() =~= src@.take(i as int));
        }
        let e = src[i];
        let p = find_insert_pos(&out, e.key_hash);
        out.insert(p, e);
        i = i + 1;
    }
    proof {
        assert(src@.take(src@.len() as int) =~= src@);
    }
    *v = out;
}

/// Sorting by key leaves the keys ascending.
pub proof fn law_sorted_by_key_ascending(s: Seq<ChunkIndexEntry>)
    ensures
        keys_ascending(sorted_by_key(s)),
        sorted_by_key(s).len() == s.len(),
    decreases s.len(),
{
    if s.len() > 0 {
        let t = sorted_by_key(s.drop_last());
        law_sorted_by_key_ascending(s.drop_last());
        let e = s.last();
        lemma_insert_pos(t, e.key_hash);
        let p = insert_pos(t, e.key_hash);
        let r = t.insert(p, e);
        assert forall|i: int, j: int| 0 <= i <= j < r.len() implies #[trigger] r[i].key_hash
            <= #[trigger] r[j].key_hash by {
            if j < p {
                assert(r[i] == t[i] && r[j] == t[j]);
            } else if j == p {
                if i < p {
                    assert(r[i] == t[i]);
                }
            } else if i < p {
                assert(r[i] == t[i] && r[j] == t[j - 1]);
            } else if i == p {
                assert(r[j] == t[j - 1]);
            } else {
                assert(r[i] == t[i - 1] && r[j] == t[j - 1]);
            }
        }
    }
}

/// For ascending keys, the insertion position splits the entries into those
/// with a key at most `k` and those with a larger key.
proof fn lemma_insert_pos(t: Seq<ChunkIndexEntry>, k: u64)
    requires
        keys_ascending(t),
    ensures
        0 <= insert_pos(t, k) <= t.len(),
        forall|j: int| 0 <= j < insert_pos(t, k) ==> #[trigger] t[j].key_hash <= k,
        forall|j: int| insert_pos(t, k) <= j < t.len() ==> #[trigger] t[j].key_hash > k,
    decreases t.len(),
{
    if t.len() > 0 {
        let d = t.drop_last();
        assert(keys_ascending(d));
        lemma_insert_pos(d, k);
        if t.last().key_hash <= k {
            assert forall|j: int| 0 <= j < t.len() implies #[trigger] t[j].key_hash <= k by {
                assert(t[j].key_hash <= t[t.len() - 1].key_hash);
            }
        } else {
            assert forall|j: int| insert_pos(t, k) <= j < t.len() implies #[trigger] t[j].key_hash
                > k by {
                if j < t.len() - 1 {
                    assert(d[j] == t[j]);
                }
            }
            assert forall|j: int| 0 <= j < insert_pos(t, k) implies #[trigger] t[j].key_hash <= k by {
                assert(d[j] == t[j]);
            }
        }
    }
}

/// Chunks appended between two writes of the index to disk.
pub const INDEX_UPDATE_BATCH_SIZE: usize = 10;

/// Seconds after which the index is written to disk at the latest.
pub const INDEX_UPDATE_INTERVAL_SECS: u64 = 1;

/// The chunk index of an open store: its entries, where the payload region
/// starts in the file, how much payload is stored, and how many appended
/// chunks the index on disk does not show yet.
#[derive(Debug, Clone)]
pub struct ChunkIndex {
    pub entries: Vec<ChunkIndexEntry>,
    pub payload_start_offset: usize,
    pub current_payload_offset: usize,
    pub pending_index_updates: usize,
}

/// Whether some entry has payload.
pub open spec fn any_payload(s: Seq<ChunkIndexEntry>) -> bool {
    exists|i: int| 0 <= i < s.len() && #[trigger] s[i].length > 0
}

/// End of the last entry's payload, 0 without entries.
pub open spec fn payload_end(s: Seq<ChunkIndexEntry>) -> int {
    if s.len() == 0 {
        0
    } else {
        s.last().start_offset + s.last().length
    }
}

/// Whether a stored index can be taken over: the header is valid, the file
/// holds the payload the index points to, and some chunk has payload.
pub open spec fn index_usable(
    header_ok: bool,
    s: Seq<ChunkIndexEntry>,
    file_len: u64,
    payload_start: usize,
) -> bool {
    header_ok && file_len >= payload_start + payload_end(s) && any_payload(s)
}

impl ChunkIndex {
    /// An empty index for a new file whose payload region starts at
    /// `payload_start`.
    pub fn new(payload_start: usize) -> (r: Self)
        ensures
            r.entries@ == Seq::<ChunkIndexEntry>::empty(),
            r.payload_start_offset == payload_start,
            r.current_payload_offset == 0,
            r.pending_index_updates == 0,
    {
        ChunkIndex {
            entries: Vec::new(),
            payload_start_offset: payload_start,
            current_payload_offset: 0,
            pending_index_updates: 0,
        }
    }

    /// Whether the payload offsets of `entries` fit in memory addresses, as
    /// opening requires.
    pub fn offsets_fit(entries: &Vec<ChunkIndexEntry>, payload_start: usize) -> (b: bool)
        ensures
            b == (payload_end(entries@) <= usize::MAX && payload_start + payload_end(entries@)
                <= usize::MAX),
    {
        let n = entries.len();
        if n == 0 {
            return true;
        }
        let last = entries[n - 1];
        match last.start_offset.checked_add(last.length as usize) {
            Some(end) => payload_start.checked_add(end).is_some(),
            None => false,
        }
    }

    /// Opens a store from what its file holds: the index read from it
    /// (`header_ok` telling whether the header's magic number and version
    /// matched and the index could be read) and the file's length. A usable
    /// index is taken over, with the time of its last chunk in milliseconds;
    /// otherwise the store starts over, empty.
    pub fn open(
        header_ok: bool,
        entries: Vec<ChunkIndexEntry>,
        file_len: u64,
        payload_start: usize,
    ) -> (r: (ChunkIndex, Option<u64>))
        requires
            payload_end(entries@) <= usize::MAX,
            payload_start + payload_end(entries@) <= usize::MAX,
        ensures
            index_usable(header_ok, entries@, file_len, payload_start) ==> {
                &&& r.0.entries@ == entries@
                &&& r.0.payload_start_offset == payload_start
                &&& r.0.current_payload_offset == payload_end(entries@)
                &&& r.0.pending_index_updates == 0
                &&& r.1 == Some((spec_normalize_key(entries@.last().key_hash) / 1000) as u64)
            },
            !index_usable(header_ok, entries@, file_len, payload_start) ==> {
                &&& r.0.entries@ == Seq::<ChunkIndexEntry>::empty()
                &&& r.0.payload_start_offset == payload_start
                &&& r.0.current_payload_offset == 0
                &&& r.0.pending_index_updates == 0
                &&& r.1 is None
            },
    {
        if !header_ok {
            return (ChunkIndex::new(payload_start), None);
        }
        let n = entries.len();
        let mut last_timestamp: Option<u64> = None;
        let mut end: usize = 0;
        if n > 0 {
            let last = entries[n - 1];
            last_timestamp = Some(normalize_key_hash_to_us(last.key_hash) / 1000);
            end = last.start_offset + last.length as usize;
        }
        let min_file_size = payload_start + end;
        let mut has_payload = false;
        let mut i: usize = 0;
        while i < n
            invariant
                n == entries@.len(),
                i <= n,
                has_payload == exists|j: int| 0 <= j < i && #[trigger] entries@[j].length > 0,
            decreases n - i,
        {
            if entries[i].length > 0 {
                has_payload = true;
            }
            i = i + 1;
        }
        if !(file_len >= min_file_size as u64 && has_payload) {
            return (ChunkIndex::new(payload_start), None);
        }
        let r = ChunkIndex {
            entries,
            payload_start_offset: payload_start,
            current_payload_offset: end,
            pending_index_updates: 0,
        };
        (r, last_timestamp)
    }

    /// Opens a nanosecond-keyed store from what its file holds: with a valid
    /// header and a readable index (`header_ok`), the index is taken over,
    /// with the time of its last chunk in milliseconds (its key divided by
    /// 10^6); otherwise the store starts over, empty.
    pub fn open_ns_store(header_ok: bool, entries: Vec<ChunkIndexEntry>, payload_start: usize) -> (r: (
        ChunkIndex,
        Option<u64>,
    ))
        requires
            header_ok ==> payload_end(entries@) <= usize::MAX,
        ensures
            header_ok ==> {
                &&& r.0.entries@ == entries@
                &&& r.0.payload_start_offset == payload_start
                &&& r.0.current_payload_offset == payload_end(entries@)
                &&& r.0.pending_index_updates == 0
                &&& r.1 == if entries@.len() == 0 {
                    None
                } else {
                    Some((entries@.last().key_hash / 1_000_000) as u64)
                }
            },
            !header_ok ==> {
                &&& r.0.entries@ == Seq::<ChunkIndexEntry>::empty()
                &&& r.0.payload_start_offset == payload_start
                &&& r.0.current_payload_offset == 0
                &&& r.0.pending_index_updates == 0
                &&& r.1 is None
            },
    {
        if !header_ok {
            return (ChunkIndex::new(payload_start), None);
        }
        let n = entries.len();
        let mut last_timestamp: Option<u64> = None;
        let mut end: usize = 0;
        if n > 0 {
            let last = entries[n - 1];
            last_timestamp = Some(last.key_hash / 1_000_000);
            end = last.start_offset + last.length as usize;
        }
        let r = ChunkIndex {
            entries,
            payload_start_offset: payload_start,
            current_payload_offset: end,
            pending_index_updates: 0,
        };
        (r, last_timestamp)
    }

    /// Whether another chunk fits in an index of `capacity` entries.
    pub fn has_room(&self, capacity: usize) -> (b: bool)
        ensures
            b == (self.entries@.len() < capacity),
    {
        self.entries.len() < capacity
    }

    /// File offset at which the next chunk's payload is written.
    pub fn next_payload_file_offset(&self) -> (r: usize)
        requires
            self.payload_start_offset + self.current_payload_offset <= usize::MAX,
        ensures
            r == self.payload_start_offset + self.current_payload_offset,
    {
        self.payload_start_offset + self.current_payload_offset
    }

    /// Records a chunk keyed `key` whose payload of `payload_len` bytes was
    /// written at the current payload offset: the entry replaces the first
    /// one with its key or is added, the entries are sorted by key and the
    /// payload offset advances. Returns whether the index must be written to
    /// disk now (every ten chunks, or when `secs_since_write` seconds have
    /// passed since the last write); the count of chunks pending is then
    /// reset.
    pub fn record_chunk(&mut self, key: u64, payload_len: usize, secs_since_write: u64) -> (write_now: bool)
        requires
            old(self).current_payload_offset + payload_len <= usize::MAX,
            old(self).pending_index_updates < usize::MAX,
        ensures
            final(self).entries@ == index_with(
                old(self).entries@,
                ChunkIndexEntry {
                    key_hash: key,
                    start_offset: old(self).current_payload_offset,
                    length: payload_len as u32,
                },
            ),
            final(self).current_payload_offset == old(self).current_payload_offset + payload_len,
            final(self).payload_start_offset == old(self).payload_start_offset,
            write_now == (old(self).pending_index_updates + 1 >= INDEX_UPDATE_BATCH_SIZE
                || secs_since_write >= INDEX_UPDATE_INTERVAL_SECS),
            final(self).pending_index_updates == if write_now {
                0
            } else {
                old(self).pending_index_updates + 1
            },
    {
        #[verifier::truncate]
        let length = payload_len as u32;
        let e = ChunkIndexEntry { key_hash: key, start_offset: self.current_payload_offset, length };
        let ghost s0 = self.entries@;
        let mut i: usize = 0;
        let mut found = false;
        while i < self.entries.len() && !found
            invariant
                s0 == self.entries@,
                i <= s0.len(),
                !found ==> entry_with_key(s0, key, 0) == entry_with_key(s0, key, i as int),
                found ==> i > 0 && entry_with_key(s0, key, 0) == i - 1,
            decreases s0.len() - i, if found { 0int } else { 1int },
        {
            if self.entries[i].key_hash == key {
                found = true;
            }
            i = i + 1;
        }
        if found {
            self.entries.set(i - 1, e);
        } else {
            proof {
                lemma_entry_with_key_end(s0, key, i as int);
            }
            self.entries.push(e);
        }
        sort_by_key(&mut self.entries);
        self.current_payload_offset = self.current_payload_offset + payload_len;
        self.pending_index_updates = self.pending_index_updates + 1;
        let write_now = self.pending_index_updates >= INDEX_UPDATE_BATCH_SIZE || secs_since_write
            >= INDEX_UPDATE_INTERVAL_SECS;
        if write_now {
            self.pending_index_updates = 0;
        }
        write_now
    }

    /// Whether appended chunks wait for the index to be written; the count is
    /// reset when they do, as the index is then written.
    pub fn take_pending(&mut self) -> (write_now: bool)
        ensures
            write_now == (old(self).pending_index_updates > 0),
            final(self).pending_index_updates == 0,
            final(self).entries@ == old(self).entries@,
            final(self).current_payload_offset == old(self).current_payload_offset,
            final(self).payload_start_offset == old(self).payload_start_offset,
    {
        let w = self.pending_index_updates > 0;
        self.pending_index_updates = 0;
        w
    }
}

proof fn lemma_entry_with_key_end(s: Seq<ChunkIndexEntry>, k: u64, i: int)
    requires
        i >= s.len(),
    ensures
        entry_with_key(s, k, i) == -1,
{
}

/// Whether the keys strictly increase.
pub open spec fn keys_strictly_ascending(s: Seq<ChunkIndexEntry>) -> bool {
    forall|i: int, j: int| 0 <= i < j < s.len() ==> #[trigger] s[i].key_hash < #[trigger] s[j].key_hash
}

/// Sorting entries whose keys already ascend changes nothing.
proof fn lemma_sorted_by_key_of_ascending(s: Seq<ChunkIndexEntry>)
    requires
        keys_ascending(s),
    ensures
        sorted_by_key(s) == s,
    decreases s.len(),
{
    if s.len() > 0 {
        let d = s.drop_last();
        assert(keys_ascending(d));
        lemma_sorted_by_key_of_ascending(d);
        if d.len() > 0 {
            assert(d.last().key_hash <= s.last().key_hash);
        }
        assert(d.insert(d.len() as int, s.last()) =~= s);
    }
}

/// An index kept by this store has one entry per key, in increasing key
/// order; recording a chunk keeps it so, and the chunk's entry is then the
/// one found under its key: the entry count grows by one for a new key and
/// stays for a known one.
pub proof fn law_recorded_chunk_is_found(s: Seq<ChunkIndexEntry>, e: ChunkIndexEntry)
    requires
        keys_strictly_ascending(s),
    ensures
        keys_strictly_ascending(index_with(s, e)),
        entry_with_key(index_with(s, e), e.key_hash, 0) >= 0,
        index_with(s, e)[entry_with_key(index_with(s, e), e.key_hash, 0)] == e,
        index_with(s, e).len() == if entry_with_key(s, e.key_hash, 0) >= 0 {
            s.len()
        } else {
            s.len() + 1
        },
{
    let i = entry_with_key(s, e.key_hash, 0);
    lemma_entry_with_key(s, e.key_hash, 0);
    let r = index_with(s, e);
    if i >= 0 {
        let u = s.update(i, e);
        assert forall|a: int, b: int| 0 <= a <= b < u.len() implies #[trigger] u[a].key_hash
            <= #[trigger] u[b].key_hash by {
            if a < b {
                assert(s[a].key_hash < s[b].key_hash);
            }
        }
        lemma_sorted_by_key_of_ascending(u);
        assert(r == u);
        assert forall|a: int, b: int| 0 <= a < b < r.len() implies #[trigger] r[a].key_hash
            < #[trigger] r[b].key_hash by {
            assert(s[a].key_hash < s[b].key_hash);
        }
        lemma_entry_with_key_first(r, e.key_hash, i);
    } else {
        let u = s.push(e);
        assert forall|a: int, b: int| 0 <= a <= b < s.len() implies #[trigger] s[a].key_hash
            <= #[trigger] s[b].key_hash by {
            if a < b {
                assert(s[a].key_hash < s[b].key_hash);
            }
        }
        lemma_sorted_by_key_of_ascending(s);
        assert(u.drop_last() =~= s);
        lemma_insert_pos(s, e.key_hash);
        let p = insert_pos(s, e.key_hash);
        assert(r == s.insert(p, e));
        assert forall|j: int| 0 <= j < s.len() implies #[trigger] s[j].key_hash != e.key_hash by {
            lemma_entry_with_key_none(s, e.key_hash, 0, j);
        }
        assert forall|a: int, b: int| 0 <= a < b < r.len() implies #[trigger] r[a].key_hash
            < #[trigger] r[b].key_hash by {
            if b < p {
                assert(r[a] == s[a] && r[b] == s[b]);
            } else if b == p {
                assert(r[a] == s[a]);
            } else if a < p {
                assert(r[a] == s[a] && r[b] == s[b - 1]);
            } else if a == p {
                assert(r[b] == s[b - 1]);
            } else {
                assert(r[a] == s[a - 1] && r[b] == s[b - 1]);
            }
        }
        lemma_entry_with_key_first(r, e.key_hash, p);
    }
}

proof fn lemma_entry_with_key(s: Seq<ChunkIndexEntry>, k: u64, i: int)
    requires
        0 <= i,
    ensures
        entry_with_key(s, k, i) == -1 || (i <= entry_with_key(s, k, i) < s.len()
            && s[entry_with_key(s, k, i)].key_hash == k),
    decreases s.len() - i,
{
    if i < s.len() && s[i].key_hash != k {
        lemma_entry_with_key(s, k, i + 1);
    }
}

proof fn lemma_entry_with_key_none(s: Seq<ChunkIndexEntry>, k: u64, i: int, j: int)
    requires
        0 <= i <= j < s.len(),
        entry_with_key(s, k, i) == -1,
    ensures
        s[j].key_hash != k,
    decreases j - i,
{
    if i < j {
        lemma_entry_with_key_none(s, k, i + 1, j);
    }
}

/// In strictly ascending keys, the entry at `p` is the first with its key.
proof fn lemma_entry_with_key_first(s: Seq<ChunkIndexEntry>, k: u64, p: int)
    requires
        keys_strictly_ascending(s),
        0 <= p < s.len(),
        s[p].key_hash == k,
    ensures
        entry_with_key(s, k, 0) == p,
{
    lemma_entry_with_key_walk(s, k, 0, p);
}

proof fn lemma_entry_with_key_walk(s: Seq<ChunkIndexEntry>, k: u64, i: int, p: int)
    requires
        keys_strictly_ascending(s),
        0 <= i <= p < s.len(),
        s[p].key_hash == k,
    ensures
        entry_with_key(s, k, i) == p,
    decreases p - i,
{
    if i < p {
        assert(s[i].key_hash < s[p].key_hash);
        lemma_entry_with_key_walk(s, k, i + 1, p);
    }
}

} // verus!
