//! Symbol normalisation for the exchange's REST and stream endpoints, and the
//! commands that steer live ingestion.

pub mod chunk_index;
pub mod store_format;

use vstd::prelude::*;

use crate::text::{
    all_ascii, lemma_ascii_upper_all, lemma_remove_all_absent, lemma_remove_all_keeps,
    lemma_remove_char_gone, lemma_remove_char_keeps_suffix, lemma_upper_fixed, upper_ascii,
    all_alphabetic, append_str, chars_of, ends_with, ends_with_chars, remove_all, remove_all_chars,
    spec_to_lowercase, str_eq, to_lowercase,
    spec_is_alphabetic, spec_to_uppercase, string_of, to_uppercase, utf8_len, utf8_len_at_most,
};

verus! {

pub open spec fn lit_usdt() -> Seq<char> {
    seq!['U', 'S', 'D', 'T']
}

pub open spec fn lit_usd() -> Seq<char> {
    seq!['U', 'S', 'D']
}

pub open spec fn lit_busd() -> Seq<char> {
    seq!['B', 'U', 'S', 'D']
}

pub open spec fn lit_dash() -> Seq<char> {
    seq!['-']
}

pub open spec fn lit_underscore() -> Seq<char> {
    seq!['_']
}

/// The separators and quote suffixes stripped from a coin name, in the order
/// they are removed.
pub open spec fn strip_suffixes(s: Seq<char>) -> Seq<char> {
    let a = remove_all(s, seq!['-', 'U', 'S', 'D', 'T', '-', 'S', 'W', 'A', 'P']);
    let b = remove_all(a, seq!['-', 'U', 'S', 'D', 'T']);
    let c = remove_all(b, seq!['-', 'U', 'S', 'D']);
    let d = remove_all(c, seq!['_', 'P', 'E', 'R', 'P']);
    remove_all(remove_all(d, lit_dash()), lit_underscore())
}

/// The exchange symbol for a ticker in any of the usual spellings: upper
/// case; a symbol already quoted in USDT, USD or BUSD loses its separators;
/// otherwise the quote suffixes and separators are stripped, and a short
/// alphabetic coin name (at most ten bytes) gets the USDT quote.
pub open spec fn spec_normalize_binance(ticker: Seq<char>) -> Seq<char> {
    let up = spec_to_uppercase(ticker);
    if ends_with(up, lit_usdt()) || ends_with(up, lit_usd()) || ends_with(up, lit_busd()) {
        remove_all(remove_all(up, lit_dash()), lit_underscore())
    } else {
        let n = strip_suffixes(up);
        if utf8_len(n) <= 10 && (forall|i: int|
            0 <= i < n.len() ==> spec_is_alphabetic(#[trigger] n[i])) {
            n + lit_usdt()
        } else {
            n
        }
    }
}

/// The characters of a literal, as a vector.
fn lit(s: &str) -> (v: Vec<char>)
    ensures
        v@ == s@,
{
    chars_of(s)
}

/// Converts a ticker in any of the usual spellings (such as "ETH-USDT-SWAP",
/// "eth_usdt" or "BTC") to the exchange's symbol ("ETHUSDT", "ETHUSDT",
/// "BTCUSDT").
pub fn normalize_binance_symbol(ticker: &str) -> (r: String)
    ensures
        r@ == spec_normalize_binance(ticker@),
{
    let up_s = to_uppercase(ticker);
    let up = chars_of(up_s.as_str());
    let usdt = lit("USDT");
    let usd = lit("USD");
    let busd = lit("BUSD");
    let dash = lit("-");
    let underscore = lit("_");
    proof {
        reveal_strlit("USDT");
        reveal_strlit("USD");
        reveal_strlit("BUSD");
        reveal_strlit("-");
        reveal_strlit("_");
        assert(usdt@ == lit_usdt());
        assert(usd@ == lit_usd());
        assert(busd@ == lit_busd());
        assert(dash@ == lit_dash());
        assert(underscore@ == lit_underscore());
    }
    if ends_with_chars(&up, &usdt) || ends_with_chars(&up, &usd) || ends_with_chars(&up, &busd) {
        let a = remove_all_chars(&up, &dash);
        let b = remove_all_chars(&a, &underscore);
        return string_of(&b);
    }
    let p1 = lit("-USDT-SWAP");
    let p2 = lit("-USDT");
    let p3 = lit("-USD");
    let p4 = lit("_PERP");
    proof {
        reveal_strlit("-USDT-SWAP");
        reveal_strlit("-USDT");
        reveal_strlit("-USD");
        reveal_strlit("_PERP");
        assert(p1@ == seq!['-', 'U', 'S', 'D', 'T', '-', 'S', 'W', 'A', 'P']);
        assert(p2@ == seq!['-', 'U', 'S', 'D', 'T']);
        assert(p3@ == seq!['-', 'U', 'S', 'D']);
        assert(p4@ == seq!['_', 'P', 'E', 'R', 'P']);
    }
    let a = remove_all_chars(&up, &p1);
    let b = remove_all_chars(&a, &p2);
    let c = remove_all_chars(&b, &p3);
    let d = remove_all_chars(&c, &p4);
    let e = remove_all_chars(&d, &dash);
    let n = remove_all_chars(&e, &underscore);
    // Every '-' is gone by now, so there is nothing left to split a base and
    // a quote on.
    let ns = string_of(&n);
    if utf8_len_at_most(&n, 10) && all_alphabetic(&n) {
        let mut out = ns;
        append_str(&mut out, "USDT");
        proof {
            reveal_strlit("USDT");
        }
        return out;
    }
    ns
}

/// Whether a text holds neither '-' nor '_'.
pub open spec fn no_separators(s: Seq<char>) -> bool {
    forall|i: int| 0 <= i < s.len() ==> #[trigger] s[i] != '-' && s[i] != '_'
}

/// Whether every character is one upper-casing keeps.
pub open spec fn all_upper_ascii(s: Seq<char>) -> bool {
    forall|i: int| 0 <= i < s.len() ==> upper_ascii(#[trigger] s[i])
}

proof fn lemma_remove_keeps_upper(s: Seq<char>, pat: Seq<char>)
    requires
        all_upper_ascii(s),
    ensures
        all_upper_ascii(remove_all(s, pat)),
{
    lemma_remove_all_keeps(s, pat, |c: char| upper_ascii(c));
}

proof fn lemma_strip_separators(s: Seq<char>)
    requires
        all_upper_ascii(s),
    ensures
        no_separators(remove_all(remove_all(s, lit_dash()), lit_underscore())),
        all_upper_ascii(remove_all(remove_all(s, lit_dash()), lit_underscore())),
{
    let a = remove_all(s, lit_dash());
    assert(lit_dash() == seq!['-']);
    assert(lit_underscore() == seq!['_']);
    lemma_remove_char_gone(s, '-');
    lemma_remove_all_keeps(s, lit_dash(), |c: char| upper_ascii(c));
    lemma_remove_char_gone(a, '_');
    lemma_remove_all_keeps(a, lit_underscore(), |c: char| upper_ascii(c) && c != '-');
    let r = remove_all(a, lit_underscore());
    assert forall|i: int| 0 <= i < r.len() implies #[trigger] r[i] != '-' && r[i] != '_' by {
        assert(upper_ascii(r[i]) && r[i] != '-');
    }
}

proof fn lemma_separator_free_fixed(s: Seq<char>)
    requires
        no_separators(s),
    ensures
        strip_suffixes(s) == s,
        remove_all(remove_all(s, lit_dash()), lit_underscore()) == s,
{
    assert forall|i: int| 0 <= i < s.len() implies #[trigger] s[i] != '-' by {}
    assert forall|i: int| 0 <= i < s.len() implies #[trigger] s[i] != '_' by {}
    lemma_remove_all_absent(s, seq!['-', 'U', 'S', 'D', 'T', '-', 'S', 'W', 'A', 'P'], 0);
    lemma_remove_all_absent(s, seq!['-', 'U', 'S', 'D', 'T'], 0);
    lemma_remove_all_absent(s, seq!['-', 'U', 'S', 'D'], 0);
    lemma_remove_all_absent(s, seq!['_', 'P', 'E', 'R', 'P'], 0);
    lemma_remove_all_absent(s, lit_dash(), 0);
    lemma_remove_all_absent(s, lit_underscore(), 0);
}

proof fn lemma_quote_kept(up: Seq<char>, suf: Seq<char>)
    requires
        ends_with(up, suf),
        forall|i: int| 0 <= i < suf.len() ==> #[trigger] suf[i] != '-' && suf[i] != '_',
    ensures
        ends_with(remove_all(remove_all(up, lit_dash()), lit_underscore()), suf),
{
    assert(lit_dash() == seq!['-']);
    assert(lit_underscore() == seq!['_']);
    lemma_remove_char_keeps_suffix(up, suf, '-');
    lemma_remove_char_keeps_suffix(remove_all(up, lit_dash()), suf, '_');
}

/// Normalising an ASCII ticker is idempotent and gives an upper-case symbol
/// without '-' or '_'; a ticker already quoted in USDT, USD or BUSD only
/// loses its separators and is upper-cased.
pub proof fn law_normalize_binance_idempotent(s: Seq<char>)
    requires
        all_ascii(s),
    ensures
        spec_normalize_binance(spec_normalize_binance(s)) == spec_normalize_binance(s),
        no_separators(spec_normalize_binance(s)),
        spec_to_uppercase(spec_normalize_binance(s)) == spec_normalize_binance(s),
        (ends_with(spec_to_uppercase(s), lit_usdt()) || ends_with(spec_to_uppercase(s), lit_usd())
            || ends_with(spec_to_uppercase(s), lit_busd())) ==> spec_normalize_binance(s) == remove_all(
            remove_all(spec_to_uppercase(s), lit_dash()),
            lit_underscore(),
        ),
{
    let up = spec_to_uppercase(s);
    lemma_ascii_upper_all(s);
    assert(all_upper_ascii(up));
    let r = spec_normalize_binance(s);
    if ends_with(up, lit_usdt()) || ends_with(up, lit_usd()) || ends_with(up, lit_busd()) {
        lemma_strip_separators(up);
        if ends_with(up, lit_usdt()) {
            lemma_quote_kept(up, lit_usdt());
        } else if ends_with(up, lit_usd()) {
            lemma_quote_kept(up, lit_usd());
        } else {
            lemma_quote_kept(up, lit_busd());
        }
        lemma_upper_fixed(r);
        lemma_separator_free_fixed(r);
    } else {
        let p1 = seq!['-', 'U', 'S', 'D', 'T', '-', 'S', 'W', 'A', 'P'];
        let p2 = seq!['-', 'U', 'S', 'D', 'T'];
        let p3 = seq!['-', 'U', 'S', 'D'];
        let p4 = seq!['_', 'P', 'E', 'R', 'P'];
        let a = remove_all(up, p1);
        let b = remove_all(a, p2);
        let c = remove_all(b, p3);
        let d = remove_all(c, p4);
        lemma_remove_keeps_upper(up, p1);
        lemma_remove_keeps_upper(a, p2);
        lemma_remove_keeps_upper(b, p3);
        lemma_remove_keeps_upper(c, p4);
        lemma_strip_separators(d);
        let n = strip_suffixes(up);
        assert(n == remove_all(remove_all(d, lit_dash()), lit_underscore()));
        lemma_separator_free_fixed(n);
        if utf8_len(n) <= 10 && (forall|i: int| 0 <= i < n.len() ==> spec_is_alphabetic(#[trigger] n[i])) {
            assert(r == n + lit_usdt());
            assert(all_upper_ascii(r)) by {
                assert forall|i: int| 0 <= i < r.len() implies upper_ascii(#[trigger] r[i]) by {
                    if i < n.len() {
                        assert(r[i] == n[i]);
                    } else {
                        assert(r[i] == lit_usdt()[i - n.len()]);
                    }
                }
            }
            assert(no_separators(r)) by {
                assert forall|i: int| 0 <= i < r.len() implies #[trigger] r[i] != '-' && r[i] != '_' by {
                    if i < n.len() {
                        assert(r[i] == n[i]);
                    } else {
                        assert(r[i] == lit_usdt()[i - n.len()]);
                    }
                }
            }
            lemma_upper_fixed(r);
            assert(r.subrange(r.len() - 4, r.len() as int) =~= lit_usdt());
            lemma_separator_free_fixed(r);
        } else {
            assert(r == n);
            lemma_upper_fixed(n);
        }
    }
}

/// Commands that steer live ingestion.
#[derive(Debug, Clone)]
pub enum IngestCommand {
    /// Symbol and an optional candle timeframe such as "1m".
    Subscribe(String, Option<String>),
    Unsubscribe(String),
    Shutdown,
}

/// What the ingestion service does on a command.
#[derive(Debug, Clone, PartialEq, Eq)]
pub enum IngestAction {
    /// Nothing: the symbol is already being ingested, or another one is.
    Keep,
    /// Stop the running task, if any, and start ingesting this symbol with
    /// this optional timeframe.
    Switch(String, Option<String>),
    /// Stop the running task.
    Stop,
    /// Stop the running task and end the service.
    Exit,
}

/// The symbol being ingested, if any.
#[derive(Debug, Clone)]
pub struct IngestState {
    pub active_symbol: Option<String>,
}

/// The active symbol taken by value.
pub open spec fn active_view(s: Option<String>) -> Option<Seq<char>> {
    match s {
        Some(x) => Some(x@),
        None => None,
    }
}

impl IngestState {
    pub fn new() -> (s: Self)
        ensures
            s.active_symbol is None,
    {
        IngestState { active_symbol: None }
    }

    fn is_active(&self, symbol: &str) -> (b: bool)
        ensures
            b == (active_view(self.active_symbol) == Some(symbol@)),
    {
        match &self.active_symbol {
            Some(a) => str_eq(a.as_str(), symbol),
            None => false,
        }
    }

    /// Decides what a command does and moves to the state after it:
    /// subscribing to the active symbol keeps everything, subscribing to
    /// another switches to it; unsubscribing from the active symbol stops it
    /// (another symbol is ignored); shutting down stops and exits.
    pub fn handle(&mut self, cmd: IngestCommand) -> (a: IngestAction)
        ensures
            match cmd {
                IngestCommand::Subscribe(sym, tf) => if active_view(old(self).active_symbol) == Some(sym@) {
                    a == IngestAction::Keep && active_view(final(self).active_symbol) == active_view(old(self).active_symbol)
                } else {
                    a == IngestAction::Switch(sym, tf) && active_view(final(self).active_symbol) == Some(sym@)
                },
                IngestCommand::Unsubscribe(sym) => if active_view(old(self).active_symbol) == Some(sym@) {
                    a == IngestAction::Stop && final(self).active_symbol is None
                } else {
                    a == IngestAction::Keep && active_view(final(self).active_symbol) == active_view(old(self).active_symbol)
                },
                IngestCommand::Shutdown => a == IngestAction::Exit && final(self).active_symbol is None,
            },
    {
        match cmd {
            IngestCommand::Subscribe(sym, tf) => {
                if self.is_active(sym.as_str()) {
                    IngestAction::Keep
                } else {
                    self.active_symbol = Some(sym.clone());
                    IngestAction::Switch(sym, tf)
                }
            },
            IngestCommand::Unsubscribe(sym) => {
                if self.is_active(sym.as_str()) {
                    self.active_symbol = None;
                    IngestAction::Stop
                } else {
                    IngestAction::Keep
                }
            },
            IngestCommand::Shutdown => {
                self.active_symbol = None;
                IngestAction::Exit
            },
        }
    }
}

/// Length of a history chunk, in microseconds: one minute.
pub open spec fn chunk_interval_us() -> u64 {
    60_000_000
}

/// History length fetched when nothing was ingested yet: 24 hours, in
/// milliseconds.
pub open spec fn default_history_ms() -> u64 {
    86_400_000
}

/// Millisecond time at which ingestion resumes: just after the last stored
/// timestamp, else 24 hours before `now_ms`.
pub fn resume_start_ms(last_timestamp_ms: Option<u64>, now_ms: u64) -> (r: u64)
    requires
        last_timestamp_ms matches Some(t) ==> t < u64::MAX,
        last_timestamp_ms is None ==> now_ms >= 86_400_000,
    ensures
        r == match last_timestamp_ms {
            Some(t) => (t + 1) as u64,
            None => (now_ms - 86_400_000) as u64,
        },
{
    match last_timestamp_ms {
        Some(t) => t + 1,
        None => now_ms - 86_400_000,
    }
}

/// A trade time in milliseconds as microseconds; `None` when that overflows.
pub fn ms_to_us(ms: u64) -> (r: Option<u64>)
    ensures
        r == if ms * 1000 <= u64::MAX {
            Some((ms * 1000) as u64)
        } else {
            None::<u64>
        },
{
    ms.checked_mul(1000)
}

/// The live trade stream of a symbol on the spot market.
pub fn live_trade_stream_url(api_symbol: &str) -> (r: String)
    ensures
        r@ == "wss://stream.binance.com:9443/ws/"@ + spec_to_lowercase(api_symbol@) + "@aggTrade"@,
{
    let lower = to_lowercase(api_symbol);
    let mut url = String::new();
    append_str(&mut url, "wss://stream.binance.com:9443/ws/");
    append_str(&mut url, lower.as_str());
    append_str(&mut url, "@aggTrade");
    url
}

/// One chunk of the history to append: its start time and the range of
/// trade indices it holds.
#[derive(Debug, Clone, Copy, PartialEq, Eq, Structural)]
pub struct ChunkSpan {
    pub chunk_start: u64,
    pub first: usize,
    pub end: usize,
}

/// `t` rounded down to the grid of chunks `len` long.
pub open spec fn chunk_floor(t: u64, len: u64) -> u64 {
    (t - t % len) as u64
}

/// The chunk start that holds time `t` when moving on from chunk start `cur`:
/// `cur` advanced by whole chunk lengths as far as `t` reaches.
pub open spec fn advance_to(cur: u64, t: u64, len: u64) -> u64 {
    (cur + ((t - cur) / (len as int)) * len) as u64
}

/// The chunks, `len` long, of trades with times `ts[i..]`, while the open
/// chunk starts at `cur` and holds `ts[first..i]`: a trade at or past the
/// next chunk boundary closes the open chunk and opens the one holding it;
/// when the boundary itself would overflow, the remaining trades are
/// dropped. The open chunk is emitted at the end when it holds trades.
pub open spec fn chunks_from(ts: Seq<u64>, i: int, cur: u64, first: int, len: u64) -> Seq<ChunkSpan>
    decreases ts.len() - i,
{
    if i >= ts.len() || cur as int + len > u64::MAX {
        if first < i {
            seq![ChunkSpan { chunk_start: cur, first: first as usize, end: i as usize }]
        } else {
            Seq::empty()
        }
    } else if ts[i] >= cur + len {
        seq![ChunkSpan { chunk_start: cur, first: first as usize, end: i as usize }] + chunks_from(
            ts,
            i + 1,
            advance_to(cur, ts[i], len),
            i,
            len,
        )
    } else {
        chunks_from(ts, i + 1, cur, first, len)
    }
}

/// The chunks, `len` long, that trades with times `ts` are appended in,
/// the first one holding the first trade.
pub open spec fn chunks_of(ts: Seq<u64>, len: u64) -> Seq<ChunkSpan> {
    if ts.len() == 0 {
        Seq::empty()
    } else {
        chunks_from(ts, 0, chunk_floor(ts[0], len), 0, len)
    }
}

/// The chunks history trades are appended in, given their times in
/// microseconds: one-minute chunks, the first one holding the first trade.
pub open spec fn history_chunks(ts: Seq<u64>) -> Seq<ChunkSpan> {
    chunks_of(ts, 60_000_000)
}

/// Splits trades, by their times, into the chunks of length `interval`
/// (in the times' unit) they are appended in.
pub fn plan_chunks(times: &Vec<u64>, interval: u64) -> (r: Vec<ChunkSpan>)
    requires
        interval > 0,
    ensures
        r@ == chunks_of(times@, interval),
{
    let mut out: Vec<ChunkSpan> = Vec::new();
    let n = times.len();
    if n == 0 {
        return out;
    }
    let t0 = times[0];
    assert(t0 % interval <= t0) by (nonlinear_arith)
        requires
            interval > 0,
    ;
    let mut cur: u64 = t0 - t0 % interval;
    let mut first: usize = 0;
    let mut i: usize = 0;
    let mut stopped = false;
    while i < n && !stopped
        invariant
            n == times@.len(),
            interval > 0,
            first <= i <= n,
            !stopped ==> out@ + chunks_from(times@, i as int, cur, first as int, interval) == chunks_of(
                times@,
                interval,
            ),
            stopped ==> out@ + (if first < i {
                seq![ChunkSpan { chunk_start: cur, first: first, end: i }]
            } else {
                Seq::<ChunkSpan>::empty()
            }) == chunks_of(times@, interval),
        decreases n - i, if stopped { 0int } else { 1int },
    {
        let t = times[i];
        if cur <= u64::MAX - interval {
            let next = cur + interval;
            if t >= next {
                proof {
                    let x = ChunkSpan { chunk_start: cur, first: first, end: i };
                    let rest = chunks_from(times@, i + 1, advance_to(cur, t, interval), i as int, interval);
                    assert(chunks_from(times@, i as int, cur, first as int, interval) == seq![x] + rest);
                    assert(out@.push(x) + rest =~= out@ + (seq![x] + rest));
                }
                out.push(ChunkSpan { chunk_start: cur, first, end: i });
                let k = (t - cur) / interval;
                proof {
                    let d: int = t - cur;
                    assert(k * interval <= d) by (nonlinear_arith)
                        requires
                            k == d / (interval as int),
                            interval > 0,
                            d >= 0,
                    ;
                }
                cur = cur + k * interval;
                first = i;
            }
            i = i + 1;
        } else {
            proof {
                assert(chunks_from(times@, i as int, cur, first as int, interval) == (if first < i {
                    seq![ChunkSpan { chunk_start: cur, first: first, end: i }]
                } else {
                    Seq::<ChunkSpan>::empty()
                }));
            }
            stopped = true;
        }
    }
    if !stopped {
        proof {
            assert(chunks_from(times@, i as int, cur, first as int, interval) == (if first < i {
                seq![ChunkSpan { chunk_start: cur, first: first, end: i }]
            } else {
                Seq::<ChunkSpan>::empty()
            }));
        }
    }
    if first < i {
        proof {
            assert(out@.push(ChunkSpan { chunk_start: cur, first: first, end: i }) =~= out@ + seq![ChunkSpan { chunk_start: cur, first: first, end: i }]);
        }
        out.push(ChunkSpan { chunk_start: cur, first, end: i });
    } else {
        proof {
            assert(out@ + Seq::<ChunkSpan>::empty() =~= out@);
        }
    }
    out
}

/// Splits history trades, by their times in microseconds, into the
/// one-minute chunks they are appended in.
pub fn plan_history_chunks(times: &Vec<u64>) -> (r: Vec<ChunkSpan>)
    ensures
        r@ == history_chunks(times@),
{
    plan_chunks(times, 60_000_000)
}

/// Splits history trades, by their times in nanoseconds, into the
/// one-minute chunks the nanosecond store appends them in.
pub fn plan_history_chunks_ns(times: &Vec<u64>) -> (r: Vec<ChunkSpan>)
    ensures
        r@ == chunks_of(times@, 60_000_000_000),
{
    plan_chunks(times, 60_000_000_000)
}

/// Millisecond time at which the nanosecond store resumes: just after the
/// last stored timestamp, else two hours before `now_ms`.
pub fn resume_start_ms_ns_store(last_timestamp_ms: Option<u64>, now_ms: u64) -> (r: u64)
    requires
        last_timestamp_ms matches Some(t) ==> t < u64::MAX,
        last_timestamp_ms is None ==> now_ms >= 7_200_000,
    ensures
        r == match last_timestamp_ms {
            Some(t) => (t + 1) as u64,
            None => (now_ms - 7_200_000) as u64,
        },
{
    match last_timestamp_ms {
        Some(t) => t + 1,
        None => now_ms - 7_200_000,
    }
}

/// A trade time in milliseconds as nanoseconds; `None` when that overflows.
pub fn ms_to_ns(ms: u64) -> (r: Option<u64>)
    ensures
        r == (if ms * 1_000_000 <= u64::MAX { Some((ms * 1_000_000) as u64) } else { None }),
{
    ms.checked_mul(1_000_000)
}

/// Failures in a row after which fetching history gives up.
pub const MAX_CONSECUTIVE_FAILURES: u32 = 3;

/// What one request for a page of history trades brought.
#[derive(Debug, Clone)]
pub enum FetchEvent {
    /// A page of trades, given by their times in milliseconds, in order.
    Page(Vec<u64>),
    /// The server answered with an error status.
    HttpError,
    /// The answer did not parse.
    JsonError,
    /// The request did not reach the server.
    ConnError,
}

/// What fetching history does next.
#[derive(Debug, Clone, PartialEq, Eq)]
pub enum FetchStep {
    /// Stop fetching.
    Done,
    /// Wait a second, then ask for the same page again.
    Retry,
    /// Keep the trades at these positions of the page, then ask for the
    /// next page while the start is before the end.
    Keep(Vec<usize>),
}

/// Paging through history trades from a start time up to an end time (in
/// milliseconds), with the count of failures in a row.
#[derive(Debug, Clone, Copy, PartialEq, Eq, Structural)]
pub struct HistoryFetch {
    pub current_start: u64,
    pub end_time_ms: u64,
    pub consecutive_failures: u32,
}

/// Positions of the trade times `ts[0..n]` that are kept: at most the end
/// time, and representable in microseconds.
pub open spec fn kept_trades(ts: Seq<u64>, end_ms: u64, n: int) -> Seq<usize>
    decreases n,
{
    if n <= 0 {
        Seq::empty()
    } else {
        let rest = kept_trades(ts, end_ms, n - 1);
        if ts[n - 1] <= end_ms && ts[n - 1] * 1000 <= u64::MAX {
            rest.push((n - 1) as usize)
        } else {
            rest
        }
    }
}

impl HistoryFetch {
    /// Fetching from `start_ms` up to `end_ms`, without failures yet.
    pub fn new(start_ms: u64, end_ms: u64) -> (f: Self)
        ensures
            f == (HistoryFetch { current_start: start_ms, end_time_ms: end_ms, consecutive_failures: 0 }),
    {
        HistoryFetch { current_start: start_ms, end_time_ms: end_ms, consecutive_failures: 0 }
    }

    /// Whether another page is to be asked for.
    pub fn wants_more(&self) -> (b: bool)
        ensures
            b == (self.current_start < self.end_time_ms),
    {
        self.current_start < self.end_time_ms
    }

    /// Takes in what a request brought: a page resets the failures; an empty
    /// page ends the fetch, else the start moves past the page's last trade
    /// (by one at least) and the trades up to the end time are kept. A
    /// failure is retried after a second, until the third in a row ends the
    /// fetch.
    pub fn step(&mut self, ev: FetchEvent) -> (r: FetchStep)
        requires
            old(self).current_start < old(self).end_time_ms,
            ev matches FetchEvent::Page(ts) ==> (ts@.len() > 0 ==> ts@.last() < u64::MAX),
        ensures
            final(self).end_time_ms == old(self).end_time_ms,
            match ev {
                FetchEvent::Page(ts) => {
                    &&& final(self).consecutive_failures == 0
                    &&& if ts@.len() == 0 {
                        r is Done && final(self).current_start == old(self).current_start
                    } else {
                        &&& r matches FetchStep::Keep(k) && k@ == kept_trades(ts@, old(self).end_time_ms, ts@.len() as int)
                        &&& final(self).current_start == if ts@.last() <= old(self).current_start {
                            old(self).current_start + 1
                        } else {
                            ts@.last() + 1
                        }
                    }
                },
                _ => {
                    let f = old(self).consecutive_failures + 1;
                    &&& final(self).current_start == old(self).current_start
                    &&& final(self).consecutive_failures == if old(self).consecutive_failures < u32::MAX {
                        f
                    } else {
                        u32::MAX as int
                    }
                    &&& if f >= MAX_CONSECUTIVE_FAILURES {
                        r is Done
                    } else {
                        r is Retry
                    }
                },
            },
    {
        match ev {
            FetchEvent::Page(ts) => {
                self.consecutive_failures = 0;
                let n = ts.len();
                if n == 0 {
                    return FetchStep::Done;
                }
                let last = ts[n - 1];
                if last <= self.current_start {
                    self.current_start = self.current_start + 1;
                } else {
                    self.current_start = last + 1;
                }
                let mut keep: Vec<usize> = Vec::new();
                let mut i: usize = 0;
                while i < n
                    invariant
                        n == ts@.len(),
                        i <= n,
                        keep@ == kept_trades(ts@, self.end_time_ms, i as int),
                    decreases n - i,
                {
                    let t = ts[i];
                    if t <= self.end_time_ms && ms_to_us(t).is_some() {
                        keep.push(i);
                    }
                    i = i + 1;
                }
                FetchStep::Keep(keep)
            },
            _ => {
                let f = self.consecutive_failures.saturating_add(1);
                self.consecutive_failures = f;
                if self.consecutive_failures >= MAX_CONSECUTIVE_FAILURES {
                    FetchStep::Done
                } else {
                    FetchStep::Retry
                }
            },
        }
    }
}

/// The key of a chunk of live trades flushed after a second: the time of its
/// first trade; `None` when nothing is buffered or the second has not
/// passed.
pub fn live_flush_key(buffered_times_us: &Vec<u64>, secs_since_flush: u64) -> (r: Option<u64>)
    ensures
        r == if secs_since_flush >= 1 && buffered_times_us@.len() > 0 {
            Some(buffered_times_us@[0])
        } else {
            None::<u64>
        },
{
    if secs_since_flush >= 1 && buffered_times_us.len() > 0 {
        Some(buffered_times_us[0])
    } else {
        None
    }
}

} // verus!
