//! Scheduling of historical downloads: the tasks, the order in which they are
//! taken, which submissions are accepted, how many run at once, and how long
//! to wait before a retry.

use vstd::prelude::*;

use crate::event_bus::{DataAvailability, DataType, DownloadPriority, priority_rank};
use crate::text::{append_str, chars_of, str_eq, to_lowercase, spec_to_lowercase};

verus! {

/// Microseconds since the Unix epoch on the system clock, at most
/// `u64::MAX`.
pub(crate) fn now_micros() -> u64 {
    crate::time_utils::utc_now_micros()
}

/// A download of one symbol's data for one day.
#[derive(Debug, Clone)]
pub struct DownloadTask {
    pub symbol: String,
    pub date: String,
    pub data_type: DataType,
    pub timeframe: Option<String>,
    pub priority: DownloadPriority,
    pub retry_count: u32,
    /// When the task was created, in microseconds on the system clock.
    pub created_at: u64,
}

/// The key of a task: "ticks:{symbol}_{date}" for trades,
/// "kline:{symbol}_{date}_{timeframe}" for candles, the timeframe of the data
/// type defaulting to "1m".
pub open spec fn task_key(t: DownloadTask) -> Seq<char> {
    match t.data_type {
        DataType::Tick => "ticks:"@ + t.symbol@ + "_"@ + t.date@,
        DataType::Kline { timeframe } => "kline:"@ + t.symbol@ + "_"@ + t.date@ + "_"@ + match timeframe {
            Some(tf) => tf@,
            None => "1m"@,
        },
    }
}

impl DownloadTask {
    /// A task created now, not yet retried.
    pub fn new(
        symbol: String,
        date: String,
        data_type: DataType,
        timeframe: Option<String>,
        priority: DownloadPriority,
    ) -> (t: Self)
        ensures
            t.symbol == symbol,
            t.date == date,
            t.data_type == data_type,
            t.timeframe == timeframe,
            t.priority == priority,
            t.retry_count == 0,
    {
        let now = now_micros();
        Self::new_at(symbol, date, data_type, timeframe, priority, now)
    }

    /// A task created at `created_at`, not yet retried.
    pub fn new_at(
        symbol: String,
        date: String,
        data_type: DataType,
        timeframe: Option<String>,
        priority: DownloadPriority,
        created_at: u64,
    ) -> (t: Self)
        ensures
            t.symbol == symbol,
            t.date == date,
            t.data_type == data_type,
            t.timeframe == timeframe,
            t.priority == priority,
            t.retry_count == 0,
            t.created_at == created_at,
    {
        DownloadTask { symbol, date, data_type, timeframe, priority, retry_count: 0, created_at }
    }

    /// The key that identifies the task's data.
    pub fn key(&self) -> (r: String)
        ensures
            r@ == task_key(*self),
    {
        let mut s = String::new();
        match &self.data_type {
            DataType::Tick => {
                append_str(&mut s, "ticks:");
                append_str(&mut s, self.symbol.as_str());
                append_str(&mut s, "_");
                append_str(&mut s, self.date.as_str());
            },
            DataType::Kline { timeframe } => {
                append_str(&mut s, "kline:");
                append_str(&mut s, self.symbol.as_str());
                append_str(&mut s, "_");
                append_str(&mut s, self.date.as_str());
                append_str(&mut s, "_");
                match timeframe {
                    Some(tf) => append_str(&mut s, tf.as_str()),
                    None => append_str(&mut s, "1m"),
                }
            },
        }
        s
    }
}

/// Whether task `a` is taken before task `b`: a more urgent priority first,
/// then the earlier creation time.
pub open spec fn precedes(a: DownloadTask, b: DownloadTask) -> bool {
    priority_rank(a.priority) < priority_rank(b.priority) || (priority_rank(a.priority)
        == priority_rank(b.priority) && a.created_at < b.created_at)
}

/// Index of the first task of `s[0..n]` that no task of it precedes.
pub open spec fn best_index(s: Seq<DownloadTask>, n: int) -> int
    decreases n,
{
    if n <= 1 {
        0
    } else {
        let b = best_index(s, n - 1);
        if precedes(s[n - 1], s[b]) {
            n - 1
        } else {
            b
        }
    }
}

proof fn lemma_best_index(s: Seq<DownloadTask>, n: int)
    requires
        1 <= n <= s.len(),
    ensures
        0 <= best_index(s, n) < n,
        forall|j: int| 0 <= j < n ==> !precedes(#[trigger] s[j], s[best_index(s, n)]),
    decreases n,
{
    if n > 1 {
        lemma_best_index(s, n - 1);
    }
}

/// Pending downloads, taken most urgent and oldest first. Held as a vector:
/// std's `BinaryHeap` has an allocator parameter, so Verus cannot declare
/// it, and vstd does not specify it.
#[derive(Debug)]
pub struct TaskQueue {
    pub tasks: Vec<DownloadTask>,
}

impl TaskQueue {
    pub fn new() -> (q: Self)
        ensures
            q.tasks@ == Seq::<DownloadTask>::empty(),
    {
        TaskQueue { tasks: Vec::new() }
    }

    pub fn len(&self) -> (n: usize)
        ensures
            n == self.tasks@.len(),
    {
        self.tasks.len()
    }

    /// Adds a task.
    pub fn push(&mut self, task: DownloadTask)
        ensures
            final(self).tasks@ == old(self).tasks@.push(task),
    {
        self.tasks.push(task);
    }

    /// Takes out the first task that no other pending task precedes; `None`
    /// when nothing is pending.
    pub fn pop(&mut self) -> (r: Option<DownloadTask>)
        ensures
            old(self).tasks@.len() == 0 ==> r is None && final(self).tasks@ == old(self).tasks@,
            old(self).tasks@.len() > 0 ==> ({
                let i = best_index(old(self).tasks@, old(self).tasks@.len() as int);
                &&& r == Some(old(self).tasks@[i])
                &&& final(self).tasks@ == old(self).tasks@.remove(i)
            }),
            r matches Some(t) ==> forall|j: int|
                0 <= j < old(self).tasks@.len() ==> !precedes(#[trigger] old(self).tasks@[j], t),
    {
        let n = self.tasks.len();
        if n == 0 {
            return None;
        }
        let ghost s = self.tasks@;
        let mut best: usize = 0;
        let mut i: usize = 1;
        while i < n
            invariant
                s == self.tasks@,
                n == s.len(),
                1 <= i <= n,
                best as int == best_index(s, i as int),
            decreases n - i,
        {
            proof {
                lemma_best_index(s, i as int);
            }
            let a = &self.tasks[i];
            let b = &self.tasks[best];
            let ra = a.priority.rank();
            let rb = b.priority.rank();
            if ra < rb || (ra == rb && a.created_at < b.created_at) {
                best = i;
            }
            i = i + 1;
        }
        proof {
            lemma_best_index(s, n as int);
        }
        let t = self.tasks.remove(best);
        Some(t)
    }
}

/// What happens to a submitted task.
#[derive(Debug, Clone, Copy, PartialEq, Eq, Structural)]
pub enum SubmitOutcome {
    /// Its data is being downloaded already.
    AlreadyRunning,
    /// Its data is in the cache already.
    AlreadyAvailable,
    /// It was queued: its data is now marked as downloading.
    Queued,
}

/// The scheduling state of the coordinator: pending tasks, keys of the
/// downloads in flight, and how many may run at once.
#[derive(Debug)]
pub struct Scheduler {
    pub queue: TaskQueue,
    pub running: Vec<String>,
    pub max_concurrent: usize,
}

/// The keys of the downloads in flight.
pub open spec fn running_keys(v: Seq<String>) -> Seq<Seq<char>> {
    v.map_values(|s: String| s@)
}

impl Scheduler {
    /// Nothing pending or running, one download at a time.
    pub fn new() -> (s: Self)
        ensures
            s.queue.tasks@ == Seq::<DownloadTask>::empty(),
            s.running@ == Seq::<String>::empty(),
            s.max_concurrent == 1,
    {
        Scheduler { queue: TaskQueue::new(), running: Vec::new(), max_concurrent: 1 }
    }

    pub fn set_max_concurrent_downloads(&mut self, max: usize)
        ensures
            final(self).max_concurrent == max,
            final(self).queue.tasks@ == old(self).queue.tasks@,
            final(self).running@ == old(self).running@,
    {
        self.max_concurrent = max;
    }

    /// Whether a download with key `key` is in flight.
    pub fn is_running(&self, key: &str) -> (b: bool)
        ensures
            b == running_keys(self.running@).contains(key@),
    {
        let mut i: usize = 0;
        while i < self.running.len()
            invariant
                i <= self.running@.len(),
                forall|j: int| 0 <= j < i ==> (#[trigger] self.running@[j])@ != key@,
            decreases self.running.len() - i,
        {
            if str_eq(self.running[i].as_str(), key) {
                assert(running_keys(self.running@)[i as int] == key@);
                return true;
            }
            i = i + 1;
        }
        proof {
            if running_keys(self.running@).contains(key@) {
                let w = choose|w: int|
                    0 <= w < running_keys(self.running@).len() && running_keys(self.running@)[w]
                        == key@;
                assert(self.running@[w]@ == key@);
            }
        }
        false
    }

    /// Accepts a task unless its data is in flight or, as `availability`
    /// reports, already cached; an accepted task is queued.
    pub fn submit(&mut self, task: DownloadTask, availability: DataAvailability) -> (r: SubmitOutcome)
        ensures
            r == if running_keys(old(self).running@).contains(task_key(task)) {
                SubmitOutcome::AlreadyRunning
            } else if availability == DataAvailability::Available {
                SubmitOutcome::AlreadyAvailable
            } else {
                SubmitOutcome::Queued
            },
            r == SubmitOutcome::Queued ==> final(self).queue.tasks@ == old(self).queue.tasks@.push(
                task,
            ),
            r != SubmitOutcome::Queued ==> final(self).queue.tasks@ == old(self).queue.tasks@,
            final(self).running@ == old(self).running@,
            final(self).max_concurrent == old(self).max_concurrent,
    {
        let key = task.key();
        if self.is_running(key.as_str()) {
            return SubmitOutcome::AlreadyRunning;
        }
        if availability == DataAvailability::Available {
            return SubmitOutcome::AlreadyAvailable;
        }
        self.queue.push(task);
        SubmitOutcome::Queued
    }

    /// Starts the next download when fewer than the maximum are in flight:
    /// the task taken from the queue, its key marked as in flight.
    pub fn next_download(&mut self) -> (r: Option<DownloadTask>)
        ensures
            old(self).running@.len() >= old(self).max_concurrent ==> r is None && final(self).queue.tasks@ == old(self).queue.tasks@ && final(self).running@ == old(self).running@,
            old(self).running@.len() < old(self).max_concurrent ==> ({
                let q = old(self).queue.tasks@;
                if q.len() == 0 {
                    r is None && final(self).queue.tasks@ == q && final(self).running@ == old(self).running@
                } else {
                    let i = best_index(q, q.len() as int);
                    &&& r == Some(q[i])
                    &&& final(self).queue.tasks@ == q.remove(i)
                    &&& running_keys(final(self).running@) == running_keys(old(self).running@).push(
                        task_key(q[i]),
                    )
                }
            }),
            final(self).max_concurrent == old(self).max_concurrent,
            old(self).running@.len() <= old(self).max_concurrent ==> final(self).running@.len()
                <= final(self).max_concurrent,
    {
        if self.running.len() >= self.max_concurrent {
            return None;
        }
        let t = self.queue.pop();
        match t {
            Some(task) => {
                let key = task.key();
                self.running.push(key);
                proof {
                    assert(running_keys(self.running@) =~= running_keys(old(self).running@).push(
                        task_key(task),
                    ));
                }
                Some(task)
            },
            None => None,
        }
    }

    /// Marks the download with key `key` as no longer in flight.
    pub fn finish(&mut self, key: &str)
        ensures
            running_keys(final(self).running@) == running_keys(old(self).running@).filter(
                |k: Seq<char>| k != key@,
            ),
            final(self).queue.tasks@ == old(self).queue.tasks@,
            final(self).max_concurrent == old(self).max_concurrent,
            final(self).running@.len() <= old(self).running@.len(),
    {
        let mut kept: Vec<String> = Vec::new();
        let mut i: usize = 0;
        let ghost rk = running_keys(self.running@);
        while i < self.running.len()
            invariant
                i <= self.running@.len(),
                rk == running_keys(self.running@),
                running_keys(kept@) == rk.take(i as int).filter(|k: Seq<char>| k != key@),
                kept@.len() <= i,
            decreases self.running.len() - i,
        {
            proof {
                assert(rk.take(i as int + 1).drop_last() =~= rk.take(i as int));
                reveal(Seq::filter);
                assert(rk.take(i as int + 1).last() == rk[i as int]);
            }
            if !str_eq(self.running[i].as_str(), key) {
                kept.push(self.running[i].clone());
                proof {
                    assert(running_keys(kept@) =~= running_keys(kept@.drop_last()).push(
                        rk[i as int],
                    ));
                }
            }
            i = i + 1;
        }
        proof {
            assert(rk.take(rk.len() as int) =~= rk);
        }
        self.running = kept;
    }
}

/// How a failed download goes on.
#[derive(Debug, Clone, Copy, PartialEq, Eq, Structural)]
pub enum RetryDecision {
    /// Out of retries: mark the data unavailable.
    GiveUp,
    /// Wait this many seconds, then try again.
    RetryAfter(u64),
}

/// Retries after the first attempt.
pub const MAX_RETRIES: u32 = 3;

/// Whether `pat` occurs in `s`.
pub open spec fn contains_seq(s: Seq<char>, pat: Seq<char>) -> bool {
    exists|i: int| 0 <= i && i + pat.len() <= s.len() && #[trigger] s.subrange(i, i + pat.len()) == pat
}

/// 2 to the power `e`.
pub open spec fn pow2(e: nat) -> nat
    decreases e,
{
    if e == 0 {
        1
    } else {
        2 * pow2((e - 1) as nat)
    }
}

/// Seconds to wait before attempt `attempt` after an error with text
/// `error_text`: an hour doubling per attempt when the data is not found,
/// one second when access is forbidden, else a second doubling per attempt.
pub open spec fn retry_delay(error_text: Seq<char>, attempt: u32) -> int {
    let lower = spec_to_lowercase(error_text);
    let e = if attempt == 0 {
        0nat
    } else {
        (attempt - 1) as nat
    };
    if contains_seq(lower, "404"@) || contains_seq(lower, "not found"@) {
        (3600 * pow2(e)) as int
    } else if contains_seq(lower, "403"@) || contains_seq(lower, "forbidden"@) {
        1
    } else {
        pow2(e) as int
    }
}

/// Whether `pat` occurs in `s`.
pub fn contains_chars(s: &Vec<char>, pat: &Vec<char>) -> (b: bool)
    ensures
        b == contains_seq(s@, pat@),
{
    if pat.len() == 0 {
        assert(s@.subrange(0int, 0int + pat@.len()) =~= pat@);
        return true;
    }
    if pat.len() > s.len() {
        proof {
            assert forall|i: int| 0 <= i && i + pat@.len() <= s@.len() implies #[trigger] s@.subrange(i, i + pat@.len()) != pat@ by {}
        }
        return false;
    }
    let last = s.len() - pat.len();
    let mut i: usize = 0;
    while i <= last
        invariant
            last == s@.len() - pat@.len(),
            pat@.len() >= 1,
            s@.len() == s.len(),
            i <= last + 1,
            forall|k: int| 0 <= k < i ==> #[trigger] s@.subrange(k, k + pat@.len()) != pat@,
        decreases last + 1 - i,
    {
        let mut j: usize = 0;
        let mut ok = true;
        while j < pat.len() && ok
            invariant
                i <= last,
                last == s@.len() - pat@.len(),
                s@.len() == s.len(),
                j <= pat@.len(),
                ok ==> forall|k: int| 0 <= k < j ==> s@[i + k] == pat@[k],
                !ok ==> s@.subrange(i as int, i + pat@.len()) != pat@,
            decreases pat.len() - j, if ok { 1int } else { 0int },
        {
            if s[i + j] != pat[j] {
                assert(s@.subrange(i as int, i + pat@.len())[j as int] != pat@[j as int]);
                ok = false;
            } else {
                j = j + 1;
            }
        }
        if ok {
            assert(s@.subrange(i as int, i + pat@.len()) =~= pat@);
            return true;
        }
        i = i + 1;
    }
    proof {
        assert forall|k: int| 0 <= k && k + pat@.len() <= s@.len() implies #[trigger] s@.subrange(k, k + pat@.len()) != pat@ by {}
    }
    false
}

/// Seconds to wait before attempt `attempt` after an error described by
/// `error_text`.
pub fn calculate_retry_delay(error_text: &str, attempt: u32) -> (secs: u64)
    requires
        attempt <= 64,
        not_found_text(error_text@) ==> attempt <= 53,
    ensures
        secs == retry_delay(error_text@, attempt),
{
    let lower_s = to_lowercase(error_text);
    let lower = chars_of(lower_s.as_str());
    let e: u32 = if attempt == 0 {
        0
    } else {
        attempt - 1
    };
    let p404 = chars_of("404");
    let pnf = chars_of("not found");
    let p403 = chars_of("403");
    let pfb = chars_of("forbidden");
    let mut p: u64 = 1;
    let mut k: u32 = 0;
    while k < e
        invariant
            k <= e,
            e <= 63,
            p == pow2(k as nat),
            p <= 0x8000_0000_0000_0000u64,
        decreases e - k,
    {
        proof {
            lemma_pow2_bound(k as nat + 1, 63);
        }
        p = p * 2;
        k = k + 1;
    }
    if contains_chars(&lower, &p404) || contains_chars(&lower, &pnf) {
        proof {
            lemma_pow2_bound(e as nat, 52);
        }
        return 3600 * p;
    }
    if contains_chars(&lower, &p403) || contains_chars(&lower, &pfb) {
        return 1;
    }
    p
}

/// Whether an error text reports missing data ("404" or "not found", in
/// any case).
pub open spec fn not_found_text(error_text: Seq<char>) -> bool {
    contains_seq(spec_to_lowercase(error_text), "404"@) || contains_seq(
        spec_to_lowercase(error_text),
        "not found"@,
    )
}

proof fn lemma_pow2_bound(a: nat, b: nat)
    requires
        a <= b,
    ensures
        pow2(a) <= pow2(b),
        pow2(52) == 0x10_0000_0000_0000,
        pow2(63) == 0x8000_0000_0000_0000,
    decreases b,
{
    if a < b {
        lemma_pow2_bound(a, (b - 1) as nat);
    }
    reveal_with_fuel(pow2, 64);
}

/// What happens after attempt number `retry_count + 1` failed with
/// `error_text`: give up past three retries, else wait before the next one.
pub fn retry_decision(retry_count: u32, error_text: &str) -> (d: RetryDecision)
    requires
        retry_count < u32::MAX,
    ensures
        retry_count + 1 > 3 ==> d == RetryDecision::GiveUp,
        retry_count + 1 <= 3 ==> d == RetryDecision::RetryAfter(
            retry_delay(error_text@, (retry_count + 1) as u32) as u64,
        ),
{
    let attempt = retry_count + 1;
    if attempt > MAX_RETRIES {
        RetryDecision::GiveUp
    } else {
        RetryDecision::RetryAfter(calculate_retry_delay(error_text, attempt))
    }
}

} // verus!
