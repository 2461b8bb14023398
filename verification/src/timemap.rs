//! An ordered map from `u64` keys (timestamps) to values, kept as a vector of
//! entries sorted by strictly increasing key.

use vstd::prelude::*;

verus! {

/// Whether the keys of `s` increase strictly.
pub open spec fn sorted_keys<D>(s: Seq<(u64, D)>) -> bool {
    forall|i: int, j: int| 0 <= i < j < s.len() ==> #[trigger] s[i].0 < #[trigger] s[j].0
}

/// Number of entries whose key is below `k`; for sorted keys, the index at
/// which `k` sits or would be inserted.
pub open spec fn lower_bound<D>(s: Seq<(u64, D)>, k: u64) -> nat
    decreases s.len(),
{
    if s.len() == 0 {
        0
    } else if s.last().0 < k {
        s.len()
    } else {
        lower_bound(s.drop_last(), k)
    }
}

/// Number of entries whose key is at most `k`.
pub open spec fn upper_bound<D>(s: Seq<(u64, D)>, k: u64) -> nat
    decreases s.len(),
{
    if s.len() == 0 {
        0
    } else if s.last().0 <= k {
        s.len()
    } else {
        upper_bound(s.drop_last(), k)
    }
}

/// Whether some entry has key `k`.
pub open spec fn has_key<D>(s: Seq<(u64, D)>, k: u64) -> bool {
    exists|i: int| 0 <= i < s.len() && #[trigger] s[i].0 == k
}

/// The value stored under `k`, if any.
pub open spec fn seq_get<D>(s: Seq<(u64, D)>, k: u64) -> Option<D> {
    let i = lower_bound(s, k) as int;
    if i < s.len() && s[i].0 == k {
        Some(s[i].1)
    } else {
        None
    }
}

/// `s` with `v` stored under `k`: the entry with key `k` is replaced, or a new
/// entry is inserted where it keeps the keys sorted.
pub open spec fn seq_set<D>(s: Seq<(u64, D)>, k: u64, v: D) -> Seq<(u64, D)> {
    let i = lower_bound(s, k) as int;
    if i < s.len() && s[i].0 == k {
        s.update(i, (k, v))
    } else {
        s.insert(i, (k, v))
    }
}

/// The keys of `s`, in order.
pub open spec fn seq_keys<D>(s: Seq<(u64, D)>) -> Seq<u64> {
    s.map_values(|e: (u64, D)| e.0)
}

/// For sorted keys, `lower_bound` splits the entries into those below `k`
/// and those at or above it.
pub proof fn lemma_lower_bound<D>(s: Seq<(u64, D)>, k: u64)
    requires
        sorted_keys(s),
    ensures
        lower_bound(s, k) <= s.len(),
        forall|j: int| 0 <= j < lower_bound(s, k) ==> #[trigger] s[j].0 < k,
        forall|j: int| lower_bound(s, k) <= j < s.len() ==> #[trigger] s[j].0 >= k,
    decreases s.len(),
{
    if s.len() > 0 {
        let t = s.drop_last();
        assert(sorted_keys(t));
        lemma_lower_bound(t, k);
        if s.last().0 < k {
            assert forall|j: int| 0 <= j < s.len() implies #[trigger] s[j].0 < k by {
                if j < s.len() - 1 {
                    assert(s[j].0 < s[s.len() - 1].0);
                }
            }
        } else {
            assert forall|j: int| lower_bound(s, k) <= j < s.len() implies #[trigger] s[j].0
                >= k by {
                if j < s.len() - 1 {
                    assert(t[j] == s[j]);
                }
            }
            assert forall|j: int| 0 <= j < lower_bound(s, k) implies #[trigger] s[j].0 < k by {
                assert(t[j] == s[j]);
            }
        }
    }
}

/// An index that splits the entries around `k` is the lower bound.
pub proof fn lemma_lower_bound_unique<D>(s: Seq<(u64, D)>, k: u64, i: int)
    requires
        sorted_keys(s),
        0 <= i <= s.len(),
        forall|j: int| 0 <= j < i ==> #[trigger] s[j].0 < k,
        forall|j: int| i <= j < s.len() ==> #[trigger] s[j].0 >= k,
    ensures
        lower_bound(s, k) == i,
{
    lemma_lower_bound(s, k);
    let lb = lower_bound(s, k) as int;
    if lb < i {
        assert(s[lb].0 < k);
    }
    if i < lb {
        assert(s[i].0 < k);
    }
}

/// For sorted keys, `upper_bound` splits the entries into those at most `k`
/// and those above it.
pub proof fn lemma_upper_bound<D>(s: Seq<(u64, D)>, k: u64)
    requires
        sorted_keys(s),
    ensures
        upper_bound(s, k) <= s.len(),
        forall|j: int| 0 <= j < upper_bound(s, k) ==> #[trigger] s[j].0 <= k,
        forall|j: int| upper_bound(s, k) <= j < s.len() ==> #[trigger] s[j].0 > k,
    decreases s.len(),
{
    if s.len() > 0 {
        let t = s.drop_last();
        assert(sorted_keys(t));
        lemma_upper_bound(t, k);
        if s.last().0 <= k {
            assert forall|j: int| 0 <= j < s.len() implies #[trigger] s[j].0 <= k by {
                if j < s.len() - 1 {
                    assert(s[j].0 < s[s.len() - 1].0);
                }
            }
        } else {
            assert forall|j: int| upper_bound(s, k) <= j < s.len() implies #[trigger] s[j].0
                > k by {
                if j < s.len() - 1 {
                    assert(t[j] == s[j]);
                }
            }
            assert forall|j: int| 0 <= j < upper_bound(s, k) implies #[trigger] s[j].0 <= k by {
                assert(t[j] == s[j]);
            }
        }
    }
}

/// An index that splits the entries around `k` is the upper bound.
pub proof fn lemma_upper_bound_unique<D>(s: Seq<(u64, D)>, k: u64, i: int)
    requires
        sorted_keys(s),
        0 <= i <= s.len(),
        forall|j: int| 0 <= j < i ==> #[trigger] s[j].0 <= k,
        forall|j: int| i <= j < s.len() ==> #[trigger] s[j].0 > k,
    ensures
        upper_bound(s, k) == i,
{
    lemma_upper_bound(s, k);
    let ub = upper_bound(s, k) as int;
    if ub < i {
        assert(s[ub].0 > k);
    }
    if i < ub {
        assert(s[i].0 <= k);
    }
}

/// Whether `k` is absent from sorted `s` or sits at its lower bound.
pub proof fn lemma_key_at_lower_bound<D>(s: Seq<(u64, D)>, k: u64)
    requires
        sorted_keys(s),
    ensures
        has_key(s, k) <==> (lower_bound(s, k) < s.len() && s[lower_bound(s, k) as int].0 == k),
{
    lemma_lower_bound(s, k);
    let i = lower_bound(s, k) as int;
    if has_key(s, k) {
        let w = choose|w: int| 0 <= w < s.len() && #[trigger] s[w].0 == k;
        if w < i {
            assert(s[w].0 < k);
        } else if w > i {
            assert(s[i].0 < s[w].0);
        }
    }
}

/// Storing a value keeps the keys sorted and puts the entry at the key's
/// lower bound.
pub proof fn lemma_seq_set_sorted<D>(s: Seq<(u64, D)>, k: u64, v: D)
    requires
        sorted_keys(s),
    ensures
        sorted_keys(seq_set(s, k, v)),
        lower_bound(seq_set(s, k, v), k) == lower_bound(s, k),
        seq_set(s, k, v)[lower_bound(s, k) as int] == (k, v),
        has_key(s, k) ==> seq_set(s, k, v).len() == s.len(),
        !has_key(s, k) ==> seq_set(s, k, v).len() == s.len() + 1,
{
    lemma_lower_bound(s, k);
    lemma_key_at_lower_bound(s, k);
    let i = lower_bound(s, k) as int;
    let r = seq_set(s, k, v);
    if i < s.len() && s[i].0 == k {
        assert forall|a: int, b: int| 0 <= a < b < r.len() implies #[trigger] r[a].0
            < #[trigger] r[b].0 by {
            assert(s[a].0 < s[b].0);
        }
    } else {
        assert forall|a: int, b: int| 0 <= a < b < r.len() implies #[trigger] r[a].0
            < #[trigger] r[b].0 by {
            if b < i {
                assert(s[a].0 < s[b].0);
            } else if b == i {
                assert(s[a].0 < k);
            } else if a < i {
                assert(s[b - 1].0 >= k);
                assert(s[a].0 < k);
            } else if a == i {
                assert(s[b - 1].0 >= k);
                assert(s[b - 1].0 != k) by {
                    if b - 1 > i {
                        assert(s[i].0 < s[b - 1].0);
                    }
                }
            } else {
                assert(s[a - 1].0 < s[b - 1].0);
            }
        }
    }
    lemma_lower_bound(r, k);
    assert(r[i].0 == k);
    assert forall|j: int| 0 <= j < i implies #[trigger] r[j].0 < k by {
        assert(r[j] == s[j]);
    }
    assert forall|j: int| i <= j < r.len() implies #[trigger] r[j].0 >= k by {
        if j > i {
            assert(r[i].0 < r[j].0);
        }
    }
    lemma_lower_bound_unique(r, k, i);
}

/// Storing under `k` leaves the value under any other key unchanged.
pub proof fn lemma_seq_set_other<D>(s: Seq<(u64, D)>, k: u64, v: D, k2: u64)
    requires
        sorted_keys(s),
        k2 != k,
    ensures
        seq_get(seq_set(s, k, v), k2) == seq_get(s, k2),
{
    lemma_seq_set_sorted(s, k, v);
    lemma_seq_get(s, k2);
    let r = seq_set(s, k, v);
    lemma_seq_get(r, k2);
    let i = lower_bound(s, k) as int;
    lemma_lower_bound(s, k);
    if has_key(s, k2) {
        let w = choose|w: int| 0 <= w < s.len() && #[trigger] s[w].0 == k2;
        if i < s.len() && s[i].0 == k {
            assert(r[w] == s[w]);
        } else if w < i {
            assert(r[w] == s[w]);
        } else {
            assert(r[w + 1] == s[w]);
        }
    } else if has_key(r, k2) {
        let w = choose|w: int| 0 <= w < r.len() && #[trigger] r[w].0 == k2;
        if i < s.len() && s[i].0 == k {
            assert(s[w].0 == k2);
        } else if w < i {
            assert(s[w].0 == k2);
        } else if w > i {
            assert(s[w - 1].0 == k2);
        }
    }
}

/// Storing under `k` adds `k` to the keys and keeps the others.
pub proof fn lemma_seq_set_has_key<D>(s: Seq<(u64, D)>, k: u64, v: D, k2: u64)
    requires
        sorted_keys(s),
    ensures
        has_key(seq_set(s, k, v), k2) <==> (has_key(s, k2) || k2 == k),
{
    lemma_seq_set_sorted(s, k, v);
    let r = seq_set(s, k, v);
    let i = lower_bound(s, k) as int;
    lemma_lower_bound(s, k);
    if k2 == k {
        assert(r[i].0 == k);
    } else {
        lemma_seq_set_other(s, k, v, k2);
        lemma_seq_get(s, k2);
        lemma_seq_get(r, k2);
    }
}

/// Storing a value keeps the keys sorted; the stored value is then found
/// under its key, and every other key keeps its value.
pub proof fn lemma_seq_set<D>(s: Seq<(u64, D)>, k: u64, v: D)
    requires
        sorted_keys(s),
    ensures
        sorted_keys(seq_set(s, k, v)),
        seq_get(seq_set(s, k, v), k) == Some(v),
        forall|k2: u64| k2 != k ==> seq_get(seq_set(s, k, v), k2) == #[trigger] seq_get(s, k2),
        has_key(s, k) ==> seq_set(s, k, v).len() == s.len(),
        !has_key(s, k) ==> seq_set(s, k, v).len() == s.len() + 1,
        forall|k2: u64| #[trigger] has_key(seq_set(s, k, v), k2) <==> (has_key(s, k2) || k2 == k),
{
    lemma_seq_set_sorted(s, k, v);
    lemma_lower_bound(s, k);
    assert forall|k2: u64| k2 != k implies seq_get(seq_set(s, k, v), k2) == #[trigger] seq_get(
        s,
        k2,
    ) by {
        lemma_seq_set_other(s, k, v, k2);
    }
    assert forall|k2: u64| #[trigger] has_key(seq_set(s, k, v), k2) <==> (has_key(s, k2) || k2
        == k) by {
        lemma_seq_set_has_key(s, k, v, k2);
    }
}

/// For sorted keys, the value found under `k` exists exactly when `k` is a key.
pub proof fn lemma_seq_get<D>(s: Seq<(u64, D)>, k: u64)
    requires
        sorted_keys(s),
    ensures
        seq_get(s, k) is Some <==> has_key(s, k),
        forall|i: int| 0 <= i < s.len() && #[trigger] s[i].0 == k ==> seq_get(s, k) == Some(
            s[i].1,
        ),
{
    lemma_lower_bound(s, k);
    let i = lower_bound(s, k) as int;
    assert forall|w: int| 0 <= w < s.len() && #[trigger] s[w].0 == k implies w == i by {
        if w < i {
            assert(s[w].0 < k);
        } else if w > i {
            assert(s[i].0 < s[w].0);
        }
    }
    if has_key(s, k) {
        let w = choose|w: int| 0 <= w < s.len() && #[trigger] s[w].0 == k;
        assert(w == i);
    }
}

/// Whether `s` and `t` hold the same keys at the same positions.
pub open spec fn same_keys<A, B>(s: Seq<(u64, A)>, t: Seq<(u64, B)>) -> bool {
    s.len() == t.len() && forall|i: int| 0 <= i < s.len() ==> #[trigger] s[i].0 == t[i].0
}

/// Sequences with the same keys at the same positions agree on every
/// key-only question: bounds, membership and sortedness.
pub proof fn lemma_same_keys<A, B>(s: Seq<(u64, A)>, t: Seq<(u64, B)>, k: u64)
    requires
        same_keys(s, t),
    ensures
        lower_bound(s, k) == lower_bound(t, k),
        upper_bound(s, k) == upper_bound(t, k),
        has_key(s, k) == has_key(t, k),
        sorted_keys(s) == sorted_keys(t),
    decreases s.len(),
{
    if s.len() > 0 {
        let s2 = s.drop_last();
        let t2 = t.drop_last();
        assert forall|i: int| 0 <= i < s2.len() implies #[trigger] s2[i].0 == t2[i].0 by {
            assert(s[i].0 == t[i].0);
        }
        lemma_same_keys(s2, t2, k);
        assert(s.last().0 == t[t.len() - 1].0);
    }
    if has_key(s, k) {
        let w = choose|w: int| 0 <= w < s.len() && #[trigger] s[w].0 == k;
        assert(t[w].0 == k);
    }
    if has_key(t, k) {
        let w = choose|w: int| 0 <= w < t.len() && #[trigger] t[w].0 == k;
        assert(s[w].0 == k);
    }
    if sorted_keys(s) {
        assert forall|i: int, j: int| 0 <= i < j < t.len() implies #[trigger] t[i].0
            < #[trigger] t[j].0 by {
            assert(s[i].0 < s[j].0);
        }
    }
    if sorted_keys(t) {
        assert forall|i: int, j: int| 0 <= i < j < s.len() implies #[trigger] s[i].0
            < #[trigger] s[j].0 by {
            assert(t[i].0 < t[j].0);
        }
    }
}

/// Storing twice under one key keeps only the second value.
pub proof fn lemma_seq_set_twice<D>(s: Seq<(u64, D)>, k: u64, v1: D, v2: D)
    requires
        sorted_keys(s),
    ensures
        seq_set(seq_set(s, k, v1), k, v2) == seq_set(s, k, v2),
{
    lemma_seq_set_sorted(s, k, v1);
    let i = lower_bound(s, k) as int;
    let r = seq_set(s, k, v1);
    lemma_lower_bound(s, k);
    assert(i < r.len() && r[i].0 == k);
    if i < s.len() && s[i].0 == k {
        assert(r.update(i, (k, v2)) =~= s.update(i, (k, v2)));
    } else {
        assert(r.update(i, (k, v2)) =~= s.insert(i, (k, v2)));
    }
}

/// In sorted entries the entry at index `i` is the only one with its key,
/// and `i` is that key's lower bound.
pub proof fn lemma_index_is_lower_bound<D>(s: Seq<(u64, D)>, i: int)
    requires
        sorted_keys(s),
        0 <= i < s.len(),
    ensures
        lower_bound(s, s[i].0) == i,
        has_key(s, s[i].0),
        seq_get(s, s[i].0) == Some(s[i].1),
        seq_set(s, s[i].0, s[i].1) == s,
        forall|v: D| #[trigger] seq_set(s, s[i].0, v) == s.update(i, (s[i].0, v)),
{
    let k = s[i].0;
    assert forall|j: int| 0 <= j < i implies #[trigger] s[j].0 < k by {}
    assert forall|j: int| i <= j < s.len() implies #[trigger] s[j].0 >= k by {
        if j > i {
            assert(s[i].0 < s[j].0);
        }
    }
    lemma_lower_bound_unique(s, k, i);
    assert(s.update(i, (k, s[i].1)) =~= s);
}

/// An ordered map from timestamps to values, kept as entries sorted by
/// time. The aggregation walks key ranges, looks up neighbouring keys and
/// updates values in place; vstd specifies `BTreeMap`'s insert, get and
/// iteration but none of `range`, `range_mut`, `get_mut` or the first and
/// last entries, so the map is held here with those operations proved.
#[derive(Debug)]
pub struct TimeMap<D> {
    pub entries: Vec<(u64, D)>,
}

impl<D> TimeMap<D> {
    /// The entries, in key order.
    pub open spec fn spec_entries(&self) -> Seq<(u64, D)> {
        self.entries@
    }

    /// Whether the keys increase strictly.
    pub open spec fn wf(&self) -> bool {
        sorted_keys(self.entries@)
    }

    pub fn new() -> (m: Self)
        ensures
            m.entries@ == Seq::<(u64, D)>::empty(),
            m.wf(),
    {
        TimeMap { entries: Vec::new() }
    }

    pub fn len(&self) -> (n: usize)
        ensures
            n == self.entries@.len(),
    {
        self.entries.len()
    }

    pub fn is_empty(&self) -> (b: bool)
        ensures
            b == (self.entries@.len() == 0),
    {
        self.entries.len() == 0
    }

    /// Index of the first entry whose key is at least `k`.
    pub fn lower_bound(&self, k: u64) -> (i: usize)
        requires
            self.wf(),
        ensures
            i == lower_bound(self.entries@, k),
    {
        let mut lo: usize = 0;
        let mut hi: usize = self.entries.len();
        while lo < hi
            invariant
                self.wf(),
                0 <= lo <= hi <= self.entries@.len(),
                forall|j: int| 0 <= j < lo ==> #[trigger] self.entries@[j].0 < k,
                forall|j: int| hi <= j < self.entries@.len() ==> #[trigger] self.entries@[j].0 >= k,
            decreases hi - lo,
        {
            let mid = lo + (hi - lo) / 2;
            if self.entries[mid].0 < k {
                proof {
                    assert forall|j: int| 0 <= j < mid + 1 implies #[trigger] self.entries@[j].0
                        < k by {
                        if j < mid {
                            assert(self.entries@[j].0 < self.entries@[mid as int].0);
                        }
                    }
                }
                lo = mid + 1;
            } else {
                proof {
                    assert forall|j: int|
                        mid <= j < self.entries@.len() implies #[trigger] self.entries@[j].0
                        >= k by {
                        if j > mid {
                            assert(self.entries@[mid as int].0 < self.entries@[j].0);
                        }
                    }
                }
                hi = mid;
            }
        }
        proof {
            lemma_lower_bound_unique(self.entries@, k, lo as int);
        }
        lo
    }

    /// Index of the first entry whose key is above `k`.
    pub fn upper_bound(&self, k: u64) -> (i: usize)
        requires
            self.wf(),
        ensures
            i == upper_bound(self.entries@, k),
    {
        let mut lo: usize = 0;
        let mut hi: usize = self.entries.len();
        while lo < hi
            invariant
                self.wf(),
                0 <= lo <= hi <= self.entries@.len(),
                forall|j: int| 0 <= j < lo ==> #[trigger] self.entries@[j].0 <= k,
                forall|j: int| hi <= j < self.entries@.len() ==> #[trigger] self.entries@[j].0 > k,
            decreases hi - lo,
        {
            let mid = lo + (hi - lo) / 2;
            if self.entries[mid].0 <= k {
                proof {
                    assert forall|j: int| 0 <= j < mid + 1 implies #[trigger] self.entries@[j].0
                        <= k by {
                        if j < mid {
                            assert(self.entries@[j].0 < self.entries@[mid as int].0);
                        }
                    }
                }
                lo = mid + 1;
            } else {
                proof {
                    assert forall|j: int|
                        mid <= j < self.entries@.len() implies #[trigger] self.entries@[j].0
                        > k by {
                        if j > mid {
                            assert(self.entries@[mid as int].0 < self.entries@[j].0);
                        }
                    }
                }
                hi = mid;
            }
        }
        proof {
            lemma_upper_bound_unique(self.entries@, k, lo as int);
        }
        lo
    }

    /// Index of the entry with key `k`, if any.
    pub fn find(&self, k: u64) -> (r: Option<usize>)
        requires
            self.wf(),
        ensures
            r matches Some(i) ==> i == lower_bound(self.entries@, k) && i
                < self.entries@.len() && self.entries@[i as int].0 == k,
            r is None <==> !has_key(self.entries@, k),
            r is None <==> seq_get(self.entries@, k) is None,
    {
        let i = self.lower_bound(k);
        proof {
            lemma_lower_bound(self.entries@, k);
            lemma_seq_get(self.entries@, k);
        }
        if i < self.entries.len() && self.entries[i].0 == k {
            Some(i)
        } else {
            None
        }
    }

    pub fn contains_key(&self, k: u64) -> (b: bool)
        requires
            self.wf(),
        ensures
            b == has_key(self.entries@, k),
    {
        self.find(k).is_some()
    }

    /// The value stored under `k`, if any.
    pub fn get(&self, k: u64) -> (r: Option<&D>)
        requires
            self.wf(),
        ensures
            r matches Some(v) ==> seq_get(self.entries@, k) == Some(*v),
            r is None ==> seq_get(self.entries@, k) is None,
    {
        match self.find(k) {
            Some(i) => Some(&self.entries[i].1),
            None => None,
        }
    }

    /// Smallest key, if any.
    pub fn first_key(&self) -> (r: Option<u64>)
        ensures
            r == if self.entries@.len() == 0 {
                None::<u64>
            } else {
                Some(self.entries@[0].0)
            },
    {
        if self.entries.len() == 0 {
            None
        } else {
            Some(self.entries[0].0)
        }
    }

    /// Largest key, if any.
    pub fn last_key(&self) -> (r: Option<u64>)
        ensures
            r == if self.entries@.len() == 0 {
                None::<u64>
            } else {
                Some(self.entries@.last().0)
            },
    {
        let n = self.entries.len();
        if n == 0 {
            None
        } else {
            Some(self.entries[n - 1].0)
        }
    }

    /// Stores `v` under `k`, replacing the value already there.
    pub fn insert(&mut self, k: u64, v: D)
        requires
            old(self).wf(),
        ensures
            final(self).wf(),
            final(self).entries@ == seq_set(old(self).entries@, k, v),
    {
        proof {
            lemma_seq_set(self.entries@, k, v);
        }
        match self.find(k) {
            Some(i) => {
                self.entries.set(i, (k, v));
            },
            None => {
                let i = self.lower_bound(k);
                proof {
                    lemma_lower_bound(self.entries@, k);
                }
                self.entries.insert(i, (k, v));
            },
        }
    }
}

} // verus!
