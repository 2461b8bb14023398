//! Availability of historical data per symbol and day: what was recorded,
//! when it was last checked, and what a lookup answers.

use vstd::prelude::*;

use crate::event_bus::DataAvailability;
use crate::text::str_eq;

verus! {

/// Availability of the data of one symbol and day, as stored.
#[derive(Debug, Clone, Copy, PartialEq, Eq, Structural, Hash)]
pub enum DataAvailabilityStatus {
    Available,
    Downloading,
    Unavailable,
    Partial,
    Unknown,
}

/// The stored status of an event-level availability.
pub open spec fn status_of(a: DataAvailability) -> DataAvailabilityStatus {
    match a {
        DataAvailability::Available => DataAvailabilityStatus::Available,
        DataAvailability::Downloading => DataAvailabilityStatus::Downloading,
        DataAvailability::Unavailable => DataAvailabilityStatus::Unavailable,
        DataAvailability::Partial => DataAvailabilityStatus::Partial,
        DataAvailability::Unknown => DataAvailabilityStatus::Unknown,
    }
}

/// The event-level availability of a stored status.
pub open spec fn availability_of(s: DataAvailabilityStatus) -> DataAvailability {
    match s {
        DataAvailabilityStatus::Available => DataAvailability::Available,
        DataAvailabilityStatus::Downloading => DataAvailability::Downloading,
        DataAvailabilityStatus::Unavailable => DataAvailability::Unavailable,
        DataAvailabilityStatus::Partial => DataAvailability::Partial,
        DataAvailabilityStatus::Unknown => DataAvailability::Unknown,
    }
}

impl From<DataAvailability> for DataAvailabilityStatus {
    fn from(status: DataAvailability) -> (r: Self) {
        match status {
            DataAvailability::Available => DataAvailabilityStatus::Available,
            DataAvailability::Downloading => DataAvailabilityStatus::Downloading,
            DataAvailability::Unavailable => DataAvailabilityStatus::Unavailable,
            DataAvailability::Partial => DataAvailabilityStatus::Partial,
            DataAvailability::Unknown => DataAvailabilityStatus::Unknown,
        }
    }
}

impl vstd::std_specs::convert::FromSpecImpl<DataAvailability> for DataAvailabilityStatus {
    open spec fn obeys_from_spec() -> bool {
        true
    }

    open spec fn from_spec(v: DataAvailability) -> DataAvailabilityStatus {
        status_of(v)
    }
}

impl From<DataAvailabilityStatus> for DataAvailability {
    fn from(status: DataAvailabilityStatus) -> (r: Self) {
        match status {
            DataAvailabilityStatus::Available => DataAvailability::Available,
            DataAvailabilityStatus::Downloading => DataAvailability::Downloading,
            DataAvailabilityStatus::Unavailable => DataAvailability::Unavailable,
            DataAvailabilityStatus::Partial => DataAvailability::Partial,
            DataAvailabilityStatus::Unknown => DataAvailability::Unknown,
        }
    }
}

impl vstd::std_specs::convert::FromSpecImpl<DataAvailabilityStatus> for DataAvailability {
    open spec fn obeys_from_spec() -> bool {
        true
    }

    open spec fn from_spec(v: DataAvailabilityStatus) -> DataAvailability {
        availability_of(v)
    }
}

/// What is recorded for one symbol and day: its status and when it was last
/// checked, in seconds since the Unix epoch.
#[derive(Debug, Clone, Copy, PartialEq, Eq, Structural)]
pub struct AvailabilityEntry {
    pub status: DataAvailabilityStatus,
    pub last_checked: Option<u64>,
}

/// One row of the availability table.
#[derive(Debug, Clone)]
pub struct AvailabilityRecord {
    pub symbol: String,
    pub date: String,
    pub entry: AvailabilityEntry,
}

/// A row taken by value: symbol, day and entry.
pub type RecordV = (Seq<char>, Seq<char>, AvailabilityEntry);

impl View for AvailabilityRecord {
    type V = RecordV;

    open spec fn view(&self) -> RecordV {
        (self.symbol@, self.date@, self.entry)
    }
}

/// Index of the first row at or after `i` for `symbol` and `date`, or -1.
pub open spec fn row_index(s: Seq<RecordV>, symbol: Seq<char>, date: Seq<char>, i: int) -> int
    decreases s.len() - i,
{
    if i < 0 || i >= s.len() {
        -1
    } else if s[i].0 == symbol && s[i].1 == date {
        i
    } else {
        row_index(s, symbol, date, i + 1)
    }
}

/// The entry recorded for `symbol` and `date`, if any.
pub open spec fn lookup(s: Seq<RecordV>, symbol: Seq<char>, date: Seq<char>) -> Option<
    AvailabilityEntry,
> {
    let i = row_index(s, symbol, date, 0);
    if i >= 0 {
        Some(s[i].2)
    } else {
        None
    }
}

/// Rows after recording `e` for `symbol` and `date`: the row is replaced, or
/// a new one appended.
pub open spec fn record(s: Seq<RecordV>, symbol: Seq<char>, date: Seq<char>, e: AvailabilityEntry) -> Seq<
    RecordV,
> {
    let i = row_index(s, symbol, date, 0);
    if i >= 0 {
        s.update(i, (symbol, date, e))
    } else {
        s.push((symbol, date, e))
    }
}

/// What a lookup answers: the recorded status, `Unknown` without a row.
pub open spec fn answer(s: Seq<RecordV>, symbol: Seq<char>, date: Seq<char>) -> DataAvailability {
    match lookup(s, symbol, date) {
        Some(e) => availability_of(e.status),
        None => DataAvailability::Unknown,
    }
}

/// Symbols of the rows, each once, in order of first appearance.
pub open spec fn distinct_symbols(s: Seq<RecordV>) -> Seq<Seq<char>>
    decreases s.len(),
{
    if s.len() == 0 {
        Seq::empty()
    } else {
        let rest = distinct_symbols(s.drop_last());
        if rest.contains(s.last().0) {
            rest
        } else {
            rest.push(s.last().0)
        }
    }
}

/// Days recorded for `symbol`, in row order.
pub open spec fn dates_of(s: Seq<RecordV>, symbol: Seq<char>) -> Seq<Seq<char>>
    decreases s.len(),
{
    if s.len() == 0 {
        Seq::empty()
    } else {
        let rest = dates_of(s.drop_last(), symbol);
        if s.last().0 == symbol {
            rest.push(s.last().1)
        } else {
            rest
        }
    }
}

/// The views of a sequence of strings.
pub open spec fn strings_view(v: Seq<String>) -> Seq<Seq<char>> {
    v.map_values(|s: String| s@)
}

/// Availability of historical data per symbol and day, as rows with no
/// (symbol, day) twice. The key is made of strings: vstd's `HashMap`
/// contracts hold only for key types whose hashing and equality it trusts,
/// so nothing of the calls could be proved with this key.
#[derive(Debug, Clone)]
pub struct AvailabilityTable {
    pub records: Vec<AvailabilityRecord>,
}

impl View for AvailabilityTable {
    type V = Seq<RecordV>;

    open spec fn view(&self) -> Seq<RecordV> {
        self.records@.map_values(|r: AvailabilityRecord| r@)
    }
}

proof fn lemma_row_index_skip(s: Seq<RecordV>, symbol: Seq<char>, date: Seq<char>, i: int)
    requires
        0 <= i < s.len(),
        !(s[i].0 == symbol && s[i].1 == date),
    ensures
        row_index(s, symbol, date, i) == row_index(s, symbol, date, i + 1),
{
}

proof fn lemma_row_index_range(s: Seq<RecordV>, symbol: Seq<char>, date: Seq<char>, i: int)
    requires
        0 <= i,
    ensures
        row_index(s, symbol, date, i) == -1 || (i <= row_index(s, symbol, date, i) < s.len()
            && s[row_index(s, symbol, date, i)].0 == symbol && s[row_index(
            s,
            symbol,
            date,
            i,
        )].1 == date),
    decreases s.len() - i,
{
    if i < s.len() && !(s[i].0 == symbol && s[i].1 == date) {
        lemma_row_index_range(s, symbol, date, i + 1);
    }
}

impl AvailabilityTable {
    /// A table without rows.
    pub fn new() -> (t: Self)
        ensures
            t@ == Seq::<RecordV>::empty(),
    {
        let t = AvailabilityTable { records: Vec::new() };
        assert(t@ =~= Seq::<RecordV>::empty());
        t
    }

    /// Index of the row for `symbol` and `date`.
    fn find(&self, symbol: &str, date: &str) -> (r: Option<usize>)
        ensures
            r matches Some(i) ==> i as int == row_index(self@, symbol@, date@, 0) && i
                < self@.len(),
            r is None ==> row_index(self@, symbol@, date@, 0) == -1,
    {
        let mut i: usize = 0;
        while i < self.records.len()
            invariant
                i <= self@.len(),
                self@.len() == self.records@.len(),
                row_index(self@, symbol@, date@, 0) == row_index(self@, symbol@, date@, i as int),
            decreases self.records.len() - i,
        {
            let rec = &self.records[i];
            if str_eq(rec.symbol.as_str(), symbol) && str_eq(rec.date.as_str(), date) {
                return Some(i);
            }
            proof {
                lemma_row_index_skip(self@, symbol@, date@, i as int);
            }
            i = i + 1;
        }
        None
    }

    /// Availability recorded for `symbol` and `date`; `Unknown` when
    /// nothing is recorded.
    pub fn check_availability(&self, symbol: &str, date: &str) -> (r: DataAvailability)
        ensures
            r == answer(self@, symbol@, date@),
    {
        match self.find(symbol, date) {
            Some(i) => DataAvailability::from(self.records[i].entry.status),
            None => DataAvailability::Unknown,
        }
    }

    /// Records `status` for `symbol` and `date`, checked at `now_secs`
    /// (seconds since the Unix epoch).
    pub fn update_availability(
        &mut self,
        symbol: &str,
        date: &str,
        status: DataAvailability,
        now_secs: u64,
    )
        ensures
            final(self)@ == record(
                old(self)@,
                symbol@,
                date@,
                AvailabilityEntry { status: status_of(status), last_checked: Some(now_secs) },
            ),
    {
        let entry = AvailabilityEntry {
            status: DataAvailabilityStatus::from(status),
            last_checked: Some(now_secs),
        };
        proof {
            lemma_row_index_range(self@, symbol@, date@, 0);
        }
        match self.find(symbol, date) {
            Some(i) => {
                self.records[i].entry = entry;
                proof {
                    assert(self@ =~= record(
                        old(self)@,
                        symbol@,
                        date@,
                        AvailabilityEntry { status: status_of(status), last_checked: Some(now_secs) },
                    ));
                }
            },
            None => {
                let rec = AvailabilityRecord {
                    symbol: symbol.to_owned(),
                    date: date.to_owned(),
                    entry,
                };
                self.records.push(rec);
                proof {
                    assert(self@ =~= record(
                        old(self)@,
                        symbol@,
                        date@,
                        AvailabilityEntry { status: status_of(status), last_checked: Some(now_secs) },
                    ));
                }
            },
        }
    }

    /// Availability of each given day for `symbol`, in the order given.
    pub fn check_date_range(&self, symbol: &str, dates: &Vec<String>) -> (r: Vec<
        (String, DataAvailability),
    >)
        ensures
            r@.len() == dates@.len(),
            forall|i: int|
                0 <= i < dates@.len() ==> (#[trigger] r@[i]).0@ == dates@[i]@ && r@[i].1 == answer(
                    self@,
                    symbol@,
                    dates@[i]@,
                ),
    {
        let mut out: Vec<(String, DataAvailability)> = Vec::new();
        let mut i: usize = 0;
        while i < dates.len()
            invariant
                i <= dates@.len(),
                out@.len() == i,
                forall|j: int|
                    0 <= j < i ==> (#[trigger] out@[j]).0@ == dates@[j]@ && out@[j].1 == answer(
                        self@,
                        symbol@,
                        dates@[j]@,
                    ),
            decreases dates.len() - i,
        {
            let d = dates[i].as_str();
            let a = self.check_availability(symbol, d);
            out.push((dates[i].clone(), a));
            i = i + 1;
        }
        out
    }

    /// Every symbol with a row, once each, in order of first appearance.
    pub fn get_all_symbols(&self) -> (r: Vec<String>)
        ensures
            strings_view(r@) == distinct_symbols(self@),
    {
        let mut out: Vec<String> = Vec::new();
        let mut i: usize = 0;
        while i < self.records.len()
            invariant
                i <= self.records@.len(),
                self@.len() == self.records@.len(),
                strings_view(out@) == distinct_symbols(self@.take(i as int)),
            decreases self.records.len() - i,
        {
            let sym = self.records[i].symbol.as_str();
            let mut seen = false;
            let mut j: usize = 0;
            while j < out.len()
                invariant
                    j <= out@.len(),
                    seen == (exists|k: int| 0 <= k < j && #[trigger] strings_view(out@)[k] == sym@),
                decreases out.len() - j,
            {
                if str_eq(out[j].as_str(), sym) {
                    seen = true;
                    assert(strings_view(out@)[j as int] == sym@);
                }
                j = j + 1;
            }
            proof {
                assert(self@.take(i as int + 1).drop_last() =~= self@.take(i as int));
                assert(seen == strings_view(out@).contains(sym@));
            }
            if !seen {
                out.push(self.records[i].symbol.clone());
                proof {
                    assert(strings_view(out@) =~= distinct_symbols(self@.take(i as int)).push(sym@));
                }
            }
            i = i + 1;
        }
        proof {
            assert(self@.take(self@.len() as int) =~= self@);
        }
        out
    }

    /// The days recorded for `symbol`, in row order.
    pub fn get_dates_for_symbol(&self, symbol: &str) -> (r: Vec<String>)
        ensures
            strings_view(r@) == dates_of(self@, symbol@),
    {
        let mut out: Vec<String> = Vec::new();
        let mut i: usize = 0;
        while i < self.records.len()
            invariant
                i <= self.records@.len(),
                self@.len() == self.records@.len(),
                strings_view(out@) == dates_of(self@.take(i as int), symbol@),
            decreases self.records.len() - i,
        {
            proof {
                assert(self@.take(i as int + 1).drop_last() =~= self@.take(i as int));
            }
            if str_eq(self.records[i].symbol.as_str(), symbol) {
                out.push(self.records[i].date.clone());
                proof {
                    assert(strings_view(out@) =~= dates_of(self@.take(i as int), symbol@).push(
                        self@[i as int].1,
                    ));
                }
            }
            i = i + 1;
        }
        proof {
            assert(self@.take(self@.len() as int) =~= self@);
        }
        out
    }

    /// When `symbol` and `date` were last checked, in seconds since the Unix
    /// epoch.
    pub fn get_last_checked(&self, symbol: &str, date: &str) -> (r: Option<u64>)
        ensures
            r == match lookup(self@, symbol@, date@) {
                Some(e) => e.last_checked,
                None => None,
            },
    {
        match self.find(symbol, date) {
            Some(i) => self.records[i].entry.last_checked,
            None => None,
        }
    }
}

/// Whether row `j` of `s` is the row of `symbol` and `date`.
pub open spec fn row_matches(s: Seq<RecordV>, symbol: Seq<char>, date: Seq<char>, j: int) -> bool {
    s[j].0 == symbol && s[j].1 == date
}

/// Two row sequences whose rows match `symbol` and `date` at the same
/// positions (the longer one holding no further match) find the same row.
proof fn lemma_row_index_same(
    s: Seq<RecordV>,
    t: Seq<RecordV>,
    symbol: Seq<char>,
    date: Seq<char>,
    i: int,
)
    requires
        0 <= i,
        s.len() <= t.len(),
        forall|j: int|
            i <= j < s.len() ==> (row_matches(s, symbol, date, j) <==> row_matches(
                t,
                symbol,
                date,
                j,
            )),
        forall|j: int| s.len() <= j < t.len() && i <= j ==> !row_matches(t, symbol, date, j),
    ensures
        row_index(s, symbol, date, i) == row_index(t, symbol, date, i),
    decreases t.len() - i,
{
    if i < t.len() {
        if i < s.len() {
            assert(row_matches(s, symbol, date, i) <==> row_matches(t, symbol, date, i));
        } else {
            assert(!row_matches(t, symbol, date, i));
        }
        lemma_row_index_same(s, t, symbol, date, i + 1);
    }
}

/// The answer for a stored status round-trips through the stored form.
pub proof fn law_status_roundtrip(a: DataAvailability)
    ensures
        availability_of(status_of(a)) == a,
{
}

/// After recording a status for a symbol and day, looking them up answers
/// exactly that status, checked at the recorded time.
pub proof fn law_update_then_check(
    s: Seq<RecordV>,
    symbol: Seq<char>,
    date: Seq<char>,
    status: DataAvailability,
    now_secs: u64,
)
    ensures
        ({
            let e = AvailabilityEntry { status: status_of(status), last_checked: Some(now_secs) };
            let t = record(s, symbol, date, e);
            &&& lookup(t, symbol, date) == Some(e)
            &&& answer(t, symbol, date) == status
        }),
{
    let e = AvailabilityEntry { status: status_of(status), last_checked: Some(now_secs) };
    let t = record(s, symbol, date, e);
    let i = row_index(s, symbol, date, 0);
    lemma_row_index_range(s, symbol, date, 0);
    if i >= 0 {
        lemma_row_index_first(s, symbol, date, 0);
        assert forall|j: int| 0 <= j < i implies !row_matches(t, symbol, date, j) by {
            assert(!row_matches(s, symbol, date, j));
            assert(t[j] == s[j]);
        }
        lemma_row_index_is(t, symbol, date, i);
    } else {
        lemma_row_index_first(s, symbol, date, 0);
        assert forall|j: int| 0 <= j < s.len() implies !row_matches(t, symbol, date, j) by {
            assert(!row_matches(s, symbol, date, j));
            assert(t[j] == s[j]);
        }
        lemma_row_index_is(t, symbol, date, s.len() as int);
    }
}

/// Recording a status for one symbol and day leaves what is recorded for
/// every other symbol or day unchanged.
pub proof fn law_update_keeps_others(
    s: Seq<RecordV>,
    symbol: Seq<char>,
    date: Seq<char>,
    e: AvailabilityEntry,
    symbol2: Seq<char>,
    date2: Seq<char>,
)
    requires
        !(symbol2 == symbol && date2 == date),
    ensures
        lookup(record(s, symbol, date, e), symbol2, date2) == lookup(s, symbol2, date2),
        answer(record(s, symbol, date, e), symbol2, date2) == answer(s, symbol2, date2),
{
    let t = record(s, symbol, date, e);
    let i = row_index(s, symbol, date, 0);
    lemma_row_index_range(s, symbol, date, 0);
    assert forall|j: int|
        0 <= j < s.len() implies (row_matches(s, symbol2, date2, j) <==> row_matches(
            t,
            symbol2,
            date2,
            j,
        )) by {
        if j != i {
            assert(t[j] == s[j]);
        }
    }
    lemma_row_index_same(s, t, symbol2, date2, 0);
    let k = row_index(s, symbol2, date2, 0);
    lemma_row_index_range(s, symbol2, date2, 0);
    if k >= 0 {
        assert(k != i);
        assert(t[k] == s[k]);
    }
}

/// Before the first matching row no row matches; without one, none does.
proof fn lemma_row_index_first(s: Seq<RecordV>, symbol: Seq<char>, date: Seq<char>, i: int)
    requires
        0 <= i,
    ensures
        row_index(s, symbol, date, i) >= 0 ==> forall|j: int|
            i <= j < row_index(s, symbol, date, i) ==> !row_matches(s, symbol, date, j),
        row_index(s, symbol, date, i) < 0 ==> forall|j: int|
            i <= j < s.len() ==> !row_matches(s, symbol, date, j),
    decreases s.len() - i,
{
    if i < s.len() && !row_matches(s, symbol, date, i) {
        lemma_row_index_first(s, symbol, date, i + 1);
    }
}

/// A matching row with no match before it is the row found.
proof fn lemma_row_index_is(s: Seq<RecordV>, symbol: Seq<char>, date: Seq<char>, r: int)
    requires
        0 <= r <= s.len(),
        forall|j: int| 0 <= j < r ==> !row_matches(s, symbol, date, j),
        r < s.len() ==> row_matches(s, symbol, date, r),
    ensures
        row_index(s, symbol, date, 0) == if r < s.len() {
            r
        } else {
            -1
        },
{
    lemma_row_index_walk(s, symbol, date, 0, r);
}

proof fn lemma_row_index_walk(s: Seq<RecordV>, symbol: Seq<char>, date: Seq<char>, i: int, r: int)
    requires
        0 <= i <= r <= s.len(),
        forall|j: int| 0 <= j < r ==> !row_matches(s, symbol, date, j),
        r < s.len() ==> row_matches(s, symbol, date, r),
    ensures
        row_index(s, symbol, date, i) == if r < s.len() {
            r
        } else {
            -1
        },
    decreases r - i,
{
    if i < r {
        assert(!row_matches(s, symbol, date, i));
        lemma_row_index_walk(s, symbol, date, i + 1, r);
    }
}

} // verus!
