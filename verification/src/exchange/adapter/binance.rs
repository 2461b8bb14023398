//! Binance specifics: endpoints per market, stream names, the depth
//! snapshot replies, and when a depth update may be applied to the local
//! book.

use vstd::prelude::*;

use crate::exchange::{Price, Timeframe};
use crate::realtime_data_service::spec_parse_timeframe;
use crate::exchange::adapter::{Exchange, MarketKind};
use crate::text::{append_str, chars_of, spec_to_lowercase, str_eq, to_lowercase};

verus! {

/// The exchange of a Binance market.
pub fn exchange_from_market_type(market: MarketKind) -> (e: Exchange)
    ensures
        e == match market {
            MarketKind::Spot => Exchange::BinanceSpot,
            MarketKind::LinearPerps => Exchange::BinanceLinear,
            MarketKind::InversePerps => Exchange::BinanceInverse,
        },
{
    match market {
        MarketKind::Spot => Exchange::BinanceSpot,
        MarketKind::LinearPerps => Exchange::BinanceLinear,
        MarketKind::InversePerps => Exchange::BinanceInverse,
    }
}

/// The websocket host of a Binance market.
pub open spec fn spec_ws_domain(market: MarketKind) -> Seq<char> {
    match market {
        MarketKind::Spot => "stream.binance.com"@,
        MarketKind::LinearPerps => "fstream.binance.com"@,
        MarketKind::InversePerps => "dstream.binance.com"@,
    }
}

/// The websocket host of a Binance market.
pub fn ws_domain_from_market_type(market: MarketKind) -> (d: &'static str)
    ensures
        d@ == spec_ws_domain(market),
{
    match market {
        MarketKind::Spot => "stream.binance.com",
        MarketKind::LinearPerps => "fstream.binance.com",
        MarketKind::InversePerps => "dstream.binance.com",
    }
}

/// The combined trade and depth stream of a symbol:
/// "wss://{domain}/stream?streams={s}@aggTrade/{s}@depth@100ms" with the
/// symbol `s` lower-cased.
pub open spec fn spec_market_stream_url(symbol: Seq<char>, market: MarketKind) -> Seq<char> {
    let s = spec_to_lowercase(symbol);
    "wss://"@ + spec_ws_domain(market) + "/stream?streams="@ + s + "@aggTrade/"@ + s
        + "@depth@100ms"@
}

/// The websocket address of a symbol's trade and depth streams.
pub fn market_stream_url(symbol: &str, market: MarketKind) -> (r: String)
    ensures
        r@ == spec_market_stream_url(symbol@, market),
{
    let lower = to_lowercase(symbol);
    let mut url = String::new();
    append_str(&mut url, "wss://");
    append_str(&mut url, ws_domain_from_market_type(market));
    append_str(&mut url, "/stream?streams=");
    append_str(&mut url, lower.as_str());
    append_str(&mut url, "@aggTrade/");
    append_str(&mut url, lower.as_str());
    append_str(&mut url, "@depth@100ms");
    url
}

/// Whether a timeframe is one of candles (a minute or longer).
pub open spec fn is_candle_timeframe(tf: Timeframe) -> bool {
    !(tf == Timeframe::MS100 || tf == Timeframe::MS200 || tf == Timeframe::MS300 || tf
        == Timeframe::MS500 || tf == Timeframe::MS1000)
}

/// The interval name of a candle timeframe in stream names and messages.
pub open spec fn spec_kline_interval(tf: Timeframe) -> Seq<char> {
    match tf {
        Timeframe::M1 => "1m"@,
        Timeframe::M3 => "3m"@,
        Timeframe::M5 => "5m"@,
        Timeframe::M15 => "15m"@,
        Timeframe::M30 => "30m"@,
        Timeframe::H1 => "1h"@,
        Timeframe::H2 => "2h"@,
        Timeframe::H4 => "4h"@,
        Timeframe::H6 => "6h"@,
        Timeframe::H12 => "12h"@,
        Timeframe::D1 => "1d"@,
        _ => Seq::empty(),
    }
}

/// The interval name of a candle timeframe.
pub fn kline_interval(tf: Timeframe) -> (r: &'static str)
    requires
        is_candle_timeframe(tf),
    ensures
        r@ == spec_kline_interval(tf),
{
    match tf {
        Timeframe::M1 => "1m",
        Timeframe::M3 => "3m",
        Timeframe::M5 => "5m",
        Timeframe::M15 => "15m",
        Timeframe::M30 => "30m",
        Timeframe::H1 => "1h",
        Timeframe::H2 => "2h",
        Timeframe::H4 => "4h",
        Timeframe::H6 => "6h",
        Timeframe::H12 => "12h",
        _ => "1d",
    }
}

/// Reading an interval name back gives the candle timeframe it names.
pub proof fn law_kline_interval_parses_back(tf: Timeframe)
    requires
        is_candle_timeframe(tf),
    ensures
        spec_parse_timeframe(spec_kline_interval(tf)) == Some(tf),
{
    reveal_strlit("1m");
    reveal_strlit("3m");
    reveal_strlit("5m");
    reveal_strlit("15m");
    reveal_strlit("30m");
    reveal_strlit("1h");
    reveal_strlit("2h");
    reveal_strlit("4h");
    reveal_strlit("6h");
    reveal_strlit("12h");
    reveal_strlit("1d");
    let names = seq!["1m"@, "3m"@, "5m"@, "15m"@, "30m"@, "1h"@, "2h"@, "4h"@, "6h"@, "12h"@, "1d"@];
    assert forall|a: int, b: int| 0 <= a < b < 11 implies #[trigger] names[a] != #[trigger] names[b] by {
        if names[a].len() == names[b].len() {
            if names[a].len() == 2 {
                assert(names[a][0] != names[b][0] || names[a][1] != names[b][1]);
            } else {
                assert(names[a][0] != names[b][0] || names[a][1] != names[b][1] || names[a][2] != names[b][2]);
            }
        }
    }
    assert(names[0] != names[1]);
    assert(names[0] != names[2]);
    assert(names[0] != names[3]);
    assert(names[0] != names[4]);
    assert(names[0] != names[5]);
    assert(names[0] != names[6]);
    assert(names[0] != names[7]);
    assert(names[0] != names[8]);
    assert(names[0] != names[9]);
    assert(names[0] != names[10]);
    assert(names[1] != names[2] && names[1] != names[3] && names[1] != names[4] && names[1] != names[5]);
    assert(names[1] != names[6] && names[1] != names[7] && names[1] != names[8] && names[1] != names[9] && names[1] != names[10]);
    assert(names[2] != names[3] && names[2] != names[4] && names[2] != names[5] && names[2] != names[6]);
    assert(names[2] != names[7] && names[2] != names[8] && names[2] != names[9] && names[2] != names[10]);
    assert(names[3] != names[4] && names[3] != names[5] && names[3] != names[6] && names[3] != names[7]);
    assert(names[3] != names[8] && names[3] != names[9] && names[3] != names[10]);
    assert(names[4] != names[5] && names[4] != names[6] && names[4] != names[7] && names[4] != names[8]);
    assert(names[4] != names[9] && names[4] != names[10]);
    assert(names[5] != names[6] && names[5] != names[7] && names[5] != names[8] && names[5] != names[9] && names[5] != names[10]);
    assert(names[6] != names[7] && names[6] != names[8] && names[6] != names[9] && names[6] != names[10]);
    assert(names[7] != names[8] && names[7] != names[9] && names[7] != names[10]);
    assert(names[8] != names[9] && names[8] != names[10]);
    assert(names[9] != names[10]);
}

/// One candle stream's name: "{symbol}@kline_{interval}", the symbol
/// lower-cased.
pub open spec fn kline_stream_name(symbol: Seq<char>, tf: Timeframe) -> Seq<char> {
    spec_to_lowercase(symbol) + "@kline_"@ + spec_kline_interval(tf)
}

/// The names of the first `n` candle streams, joined by "/".
pub open spec fn joined_kline_streams(streams: Seq<(Seq<char>, Timeframe)>, n: int) -> Seq<char>
    decreases n,
{
    if n <= 0 {
        Seq::empty()
    } else if n == 1 {
        kline_stream_name(streams[0].0, streams[0].1)
    } else {
        joined_kline_streams(streams, n - 1) + "/"@ + kline_stream_name(streams[n - 1].0, streams[n - 1].1)
    }
}

/// The views of (symbol, timeframe) pairs.
pub open spec fn symbol_timeframes(v: Seq<(String, Timeframe)>) -> Seq<(Seq<char>, Timeframe)> {
    v.map_values(|x: (String, Timeframe)| (x.0@, x.1))
}

/// The candle streams of several symbols:
/// "wss://{domain}/stream?streams={s1}@kline_{i1}/{s2}@kline_{i2}/...".
pub open spec fn spec_kline_stream_url(streams: Seq<(Seq<char>, Timeframe)>, market: MarketKind) -> Seq<char> {
    "wss://"@ + spec_ws_domain(market) + "/stream?streams="@ + joined_kline_streams(
        streams,
        streams.len() as int,
    )
}

/// The websocket address of the candle streams of (symbol, timeframe)
/// pairs.
pub fn kline_stream_url(streams: &Vec<(String, Timeframe)>, market: MarketKind) -> (r: String)
    requires
        forall|i: int| 0 <= i < streams@.len() ==> is_candle_timeframe(#[trigger] streams@[i].1),
    ensures
        r@ == spec_kline_stream_url(symbol_timeframes(streams@), market),
{
    let ghost v = symbol_timeframes(streams@);
    let mut url = String::new();
    append_str(&mut url, "wss://");
    append_str(&mut url, ws_domain_from_market_type(market));
    append_str(&mut url, "/stream?streams=");
    let ghost head = url@;
    let mut i: usize = 0;
    while i < streams.len()
        invariant
            i <= streams@.len(),
            v == symbol_timeframes(streams@),
            forall|j: int| 0 <= j < streams@.len() ==> is_candle_timeframe(#[trigger] streams@[j].1),
            url@ == head + joined_kline_streams(v, i as int),
        decreases streams.len() - i,
    {
        if i > 0 {
            append_str(&mut url, "/");
        }
        let lower = to_lowercase(streams[i].0.as_str());
        append_str(&mut url, lower.as_str());
        append_str(&mut url, "@kline_");
        append_str(&mut url, kline_interval(streams[i].1));
        proof {
            assert(v[i as int] == (streams@[i as int].0@, streams@[i as int].1));
            if i > 0 {
                assert(url@ =~= head + (joined_kline_streams(v, i as int) + "/"@ + kline_stream_name(
                    v[i as int].0,
                    v[i as int].1,
                )));
            } else {
                assert(url@ =~= head + kline_stream_name(v[0].0, v[0].1));
            }
        }
        i = i + 1;
    }
    url
}

/// The timeframe of the first stream whose interval name is `interval`.
pub open spec fn stream_timeframe_of(streams: Seq<Timeframe>, interval: Seq<char>, i: int) -> Option<Timeframe>
    decreases streams.len() - i,
{
    if i < 0 || i >= streams.len() {
        None
    } else if spec_kline_interval(streams[i]) == interval {
        Some(streams[i])
    } else {
        stream_timeframe_of(streams, interval, i + 1)
    }
}

/// The timeframe a candle message belongs to: that of the first subscribed
/// stream whose interval name is the message's interval.
pub fn find_stream_timeframe(timeframes: &Vec<Timeframe>, interval: &str) -> (r: Option<Timeframe>)
    requires
        forall|i: int| 0 <= i < timeframes@.len() ==> is_candle_timeframe(#[trigger] timeframes@[i]),
    ensures
        r == stream_timeframe_of(timeframes@, interval@, 0),
{
    let mut i: usize = 0;
    while i < timeframes.len()
        invariant
            i <= timeframes@.len(),
            forall|j: int| 0 <= j < timeframes@.len() ==> is_candle_timeframe(#[trigger] timeframes@[j]),
            stream_timeframe_of(timeframes@, interval@, 0) == stream_timeframe_of(timeframes@, interval@, i as int),
        decreases timeframes.len() - i,
    {
        if str_eq(kline_interval(timeframes[i]), interval) {
            return Some(timeframes[i]);
        }
        i = i + 1;
    }
    None
}

/// Contracts per unit for inverse perpetuals: 100 for BTCUSD_PERP, 10 for
/// the others; none for spot and linear markets.
pub fn contract_size(full_symbol: &str, market: MarketKind) -> (r: Option<u64>)
    ensures
        r == match market {
            MarketKind::Spot | MarketKind::LinearPerps => None::<u64>,
            MarketKind::InversePerps => if full_symbol@ == "BTCUSD_PERP"@ {
                Some(100u64)
            } else {
                Some(10u64)
            },
        },
{
    match market {
        MarketKind::Spot | MarketKind::LinearPerps => None,
        MarketKind::InversePerps => {
            if str_eq(full_symbol, "BTCUSD_PERP") {
                Some(100)
            } else {
                Some(10)
            }
        },
    }
}

/// The kind of a combined-stream message, told by the stream name.
#[derive(Debug, Clone, Copy, PartialEq, Eq, Structural)]
pub enum StreamWrapper {
    Trade,
    Depth,
    Kline,
}

/// The part of a stream name between the first and the second '@' (to the
/// end when there is no second one); `None` without an '@'.
pub open spec fn second_field(s: Seq<char>) -> Option<Seq<char>> {
    if exists|i: int| 0 <= i < s.len() && s[i] == '@' {
        let i = choose|i: int|
            0 <= i < s.len() && s[i] == '@' && forall|j: int| 0 <= j < i ==> s[j] != '@';
        let rest = s.subrange(i + 1, s.len() as int);
        if exists|k: int| 0 <= k < rest.len() && rest[k] == '@' {
            let k = choose|k: int|
                0 <= k < rest.len() && rest[k] == '@' && forall|j: int| 0 <= j < k ==> rest[j] != '@';
            Some(rest.subrange(0, k))
        } else {
            Some(rest)
        }
    } else {
        None
    }
}

/// Index of the first '@' at or after `from`, or the length.
fn next_at(s: &Vec<char>, from: usize) -> (r: usize)
    requires
        from <= s@.len(),
    ensures
        from <= r <= s@.len(),
        r < s@.len() ==> s@[r as int] == '@',
        forall|j: int| from <= j < r ==> s@[j] != '@',
{
    let mut i = from;
    while i < s.len()
        invariant
            from <= i <= s@.len(),
            forall|j: int| from <= j < i ==> s@[j] != '@',
        decreases s.len() - i,
    {
        if s[i] == '@' {
            return i;
        }
        i = i + 1;
    }
    i
}

/// Whether `s` starts with the two characters `a`, `b`.
pub open spec fn starts_with2(s: Seq<char>, a: char, b: char) -> bool {
    s.len() >= 2 && s[0] == a && s[1] == b
}

impl StreamWrapper {
    /// The kind of stream a name such as "btcusdt@depth@100ms" names, by the
    /// start of its second '@'-separated field: "de" depth, "ag" trades,
    /// "kl" candles.
    pub fn from_stream_type(stream_type: &str) -> (r: Option<StreamWrapper>)
        ensures
            r == match second_field(stream_type@) {
                None => None,
                Some(f) => if starts_with2(f, 'd', 'e') {
                    Some(StreamWrapper::Depth)
                } else if starts_with2(f, 'a', 'g') {
                    Some(StreamWrapper::Trade)
                } else if starts_with2(f, 'k', 'l') {
                    Some(StreamWrapper::Kline)
                } else {
                    None
                },
            },
    {
        let s = chars_of(stream_type);
        let i = next_at(&s, 0);
        if i >= s.len() {
            proof {
                assert(!(exists|j: int| 0 <= j < s@.len() && s@[j] == '@'));
            }
            return None;
        }
        let k = next_at(&s, i + 1);
        let ghost rest = s@.subrange(i + 1, s@.len() as int);
        let ghost field = s@.subrange(i + 1, k as int);
        proof {
            let ci = choose|c: int|
                0 <= c < s@.len() && s@[c] == '@' && forall|j: int| 0 <= j < c ==> s@[j] != '@';
            assert(ci == i) by {
                if ci < i {
                    assert(s@[ci] != '@');
                } else if ci > i {
                    assert(s@[i as int] != '@');
                }
            }
            if k < s.len() {
                assert(rest[k - i - 1] == '@');
                let ck = choose|c: int|
                    0 <= c < rest.len() && rest[c] == '@' && forall|j: int| 0 <= j < c ==> rest[j]
                        != '@';
                assert(ck == k - i - 1) by {
                    if ck < k - i - 1 {
                        assert(s@[i + 1 + ck] != '@');
                    } else if ck > k - i - 1 {
                        assert(rest[k - i - 1] != '@');
                    }
                }
                assert(rest.subrange(0, k - i - 1) =~= field);
            } else {
                assert forall|c: int| 0 <= c < rest.len() implies rest[c] != '@' by {
                    assert(s@[i + 1 + c] != '@');
                }
                assert(rest =~= field);
            }
            assert(second_field(s@) == Some(field));
        }
        let len = k - (i + 1);
        if len >= 2 {
            let a = s[i + 1];
            let b = s[i + 2];
            if a == 'd' && b == 'e' {
                return Some(StreamWrapper::Depth);
            }
            if a == 'a' && b == 'g' {
                return Some(StreamWrapper::Trade);
            }
            if a == 'k' && b == 'l' {
                return Some(StreamWrapper::Kline);
            }
        }
        None
    }
}

/// Update ids carried by one depth message.
#[derive(Debug, Clone, Copy, PartialEq, Eq, Structural)]
pub enum DepthEventIds {
    Spot { first_id: u64, final_id: u64 },
    Perp { first_id: u64, final_id: u64, prev_final_id: u64 },
}

/// What the market stream does with a depth message.
#[derive(Debug, Clone, Copy, PartialEq, Eq, Structural)]
pub enum DepthAction {
    /// Ignore it: a snapshot is being fetched, the book has no snapshot yet,
    /// or the message is older than the book.
    Skip,
    /// Resync the book from a fresh snapshot first when `resync` holds; then
    /// apply the message when `apply` holds, else drop the connection as out
    /// of sync.
    Process { resync: bool, apply: bool },
}

/// First and final update id of a message.
pub open spec fn ids_of(ev: DepthEventIds) -> (u64, u64) {
    match ev {
        DepthEventIds::Spot { first_id, final_id } => (first_id, final_id),
        DepthEventIds::Perp { first_id, final_id, .. } => (first_id, final_id),
    }
}

/// The decision for a depth message, given whether a snapshot fetch is in
/// flight, the book's last update id and the final id of the last message
/// applied since the snapshot (0 for none).
pub open spec fn spec_depth_action(
    already_fetching: bool,
    last_update_id: u64,
    prev_id: u64,
    ev: DepthEventIds,
) -> DepthAction {
    let (first_id, final_id) = ids_of(ev);
    if already_fetching || final_id <= last_update_id || last_update_id == 0 {
        DepthAction::Skip
    } else {
        let resync = (prev_id == 0 && first_id > last_update_id + 1) || last_update_id + 1 > final_id;
        let apply = prev_id == 0 || match ev {
            DepthEventIds::Perp { prev_final_id, .. } => prev_id == prev_final_id,
            DepthEventIds::Spot { first_id, .. } => prev_id == first_id - 1,
        };
        DepthAction::Process { resync, apply }
    }
}

/// Decides what the market stream does with a depth message.
pub fn depth_sync_action(
    already_fetching: bool,
    last_update_id: u64,
    prev_id: u64,
    ev: DepthEventIds,
) -> (r: DepthAction)
    requires
        prev_id != 0 ==> (ev matches DepthEventIds::Spot { first_id, .. } ==> first_id > 0),
    ensures
        r == spec_depth_action(already_fetching, last_update_id, prev_id, ev),
{
    let (first_id, final_id) = match ev {
        DepthEventIds::Spot { first_id, final_id } => (first_id, final_id),
        DepthEventIds::Perp { first_id, final_id, .. } => (first_id, final_id),
    };
    if already_fetching {
        return DepthAction::Skip;
    }
    if final_id <= last_update_id || last_update_id == 0 {
        return DepthAction::Skip;
    }
    let resync = (prev_id == 0 && first_id > last_update_id + 1) || last_update_id + 1 > final_id;
    let apply = prev_id == 0 || match ev {
        DepthEventIds::Perp { prev_final_id, .. } => prev_id == prev_final_id,
        DepthEventIds::Spot { first_id, .. } => prev_id == first_id - 1,
    };
    DepthAction::Process { resync, apply }
}

/// What the market stream keeps between messages: whether it is connected,
/// and the final update id of the last depth message applied since the
/// snapshot (0 for none).
#[derive(Debug, Clone, Copy, PartialEq, Eq, Structural)]
pub struct MarketSync {
    pub connected: bool,
    pub prev_id: u64,
}

/// What happens to the market stream.
#[derive(Debug, Clone, Copy, PartialEq, Eq, Structural)]
pub enum MarketEvent {
    /// The websocket opened and the depth snapshot was fetched.
    Opened,
    /// The websocket opened but the depth snapshot could not be fetched.
    SnapshotFailed,
    /// The websocket did not open.
    ConnectFailed,
    /// A depth message arrived, while a snapshot fetch is or is not in
    /// flight and the book's last update id is `last_update_id`.
    Depth { already_fetching: bool, last_update_id: u64, ids: DepthEventIds },
    /// The server closed the connection.
    Closed,
    /// A frame could not be read.
    ReadFailed,
}

/// What the market stream does next.
#[derive(Debug, Clone, Copy, PartialEq, Eq, Structural)]
pub enum MarketAction {
    /// Report the connection and read messages.
    ReportConnected,
    /// Report that the snapshot fetch failed, and connect again.
    ReportSnapshotFailed,
    /// Wait a second, report that the websocket did not open, and connect
    /// again.
    PauseAndReportConnectFailed,
    /// Nothing: the depth message is skipped.
    Ignore,
    /// Resync the book from a fresh snapshot first when `resync`; then apply
    /// the depth message and send the book with the trades buffered since.
    Apply { resync: bool },
    /// Resync the book first when `resync`; then report the stream out of
    /// sync, naming the id `expected` and the last applied id `got`, and
    /// connect again.
    OutOfSync { resync: bool, expected: u64, got: u64 },
    /// Report that the server closed the connection, and connect again.
    ReportClosed,
    /// Report that a frame could not be read, and connect again.
    ReportReadError,
}

/// The update id an out-of-sync report names: the previous final id a
/// perpetual message carries, or a spot message's final id.
pub open spec fn reported_expected_id(ids: DepthEventIds) -> u64 {
    match ids {
        DepthEventIds::Perp { prev_final_id, .. } => prev_final_id,
        DepthEventIds::Spot { final_id, .. } => final_id,
    }
}

/// The next state and action of the market stream on an event.
pub open spec fn spec_market_step(s: MarketSync, ev: MarketEvent) -> (MarketSync, MarketAction) {
    match ev {
        MarketEvent::Opened => (MarketSync { connected: true, prev_id: 0 }, MarketAction::ReportConnected),
        MarketEvent::SnapshotFailed => (
            MarketSync { connected: false, prev_id: s.prev_id },
            MarketAction::ReportSnapshotFailed,
        ),
        MarketEvent::ConnectFailed => (
            MarketSync { connected: false, prev_id: s.prev_id },
            MarketAction::PauseAndReportConnectFailed,
        ),
        MarketEvent::Depth { already_fetching, last_update_id, ids } => match spec_depth_action(
            already_fetching,
            last_update_id,
            s.prev_id,
            ids,
        ) {
            DepthAction::Skip => (s, MarketAction::Ignore),
            DepthAction::Process { resync, apply } => if apply {
                (MarketSync { connected: s.connected, prev_id: ids_of(ids).1 }, MarketAction::Apply { resync })
            } else {
                (
                    MarketSync { connected: false, prev_id: s.prev_id },
                    MarketAction::OutOfSync { resync, expected: reported_expected_id(ids), got: s.prev_id },
                )
            },
        },
        MarketEvent::Closed => (MarketSync { connected: false, prev_id: s.prev_id }, MarketAction::ReportClosed),
        MarketEvent::ReadFailed => (
            MarketSync { connected: false, prev_id: s.prev_id },
            MarketAction::ReportReadError,
        ),
    }
}

impl MarketSync {
    /// A stream not yet connected, with no depth message applied.
    pub fn new() -> (r: MarketSync)
        ensures
            r == (MarketSync { connected: false, prev_id: 0 }),
    {
        MarketSync { connected: false, prev_id: 0 }
    }

    /// Moves the market stream on by one event and says what to do.
    pub fn step(&mut self, ev: MarketEvent) -> (a: MarketAction)
        requires
            old(self).prev_id != 0 ==> (ev matches MarketEvent::Depth { ids, .. } ==> (ids matches DepthEventIds::Spot {
                first_id,
                ..
            } ==> first_id > 0)),
        ensures
            (*final(self), a) == spec_market_step(*old(self), ev),
    {
        match ev {
            MarketEvent::Opened => {
                self.connected = true;
                self.prev_id = 0;
                MarketAction::ReportConnected
            },
            MarketEvent::SnapshotFailed => {
                self.connected = false;
                MarketAction::ReportSnapshotFailed
            },
            MarketEvent::ConnectFailed => {
                self.connected = false;
                MarketAction::PauseAndReportConnectFailed
            },
            MarketEvent::Depth { already_fetching, last_update_id, ids } => {
                match depth_sync_action(already_fetching, last_update_id, self.prev_id, ids) {
                    DepthAction::Skip => MarketAction::Ignore,
                    DepthAction::Process { resync, apply } => {
                        if apply {
                            self.prev_id = match ids {
                                DepthEventIds::Spot { final_id, .. } => final_id,
                                DepthEventIds::Perp { final_id, .. } => final_id,
                            };
                            MarketAction::Apply { resync }
                        } else {
                            self.connected = false;
                            let expected = match ids {
                                DepthEventIds::Perp { prev_final_id, .. } => prev_final_id,
                                DepthEventIds::Spot { final_id, .. } => final_id,
                            };
                            MarketAction::OutOfSync { resync, expected, got: self.prev_id }
                        }
                    },
                }
            },
            MarketEvent::Closed => {
                self.connected = false;
                MarketAction::ReportClosed
            },
            MarketEvent::ReadFailed => {
                self.connected = false;
                MarketAction::ReportReadError
            },
        }
    }
}

/// A depth snapshot of a perpetual market: last update id, time, and the
/// bid and ask levels as (price, quantity).
#[derive(Debug, Clone)]
pub struct FetchedPerpDepth {
    pub update_id: u64,
    pub time: u64,
    pub bids: Vec<(Price, u64)>,
    pub asks: Vec<(Price, u64)>,
}

/// A depth snapshot of a spot market: last update id and the bid and ask
/// levels as (price, quantity).
#[derive(Debug, Clone)]
pub struct FetchedSpotDepth {
    pub update_id: u64,
    pub bids: Vec<(Price, u64)>,
    pub asks: Vec<(Price, u64)>,
}

/// The archive interval name of a candle timeframe label; unsupported
/// labels fall back to "1m".
pub open spec fn spec_archive_interval(tf: Seq<char>) -> Seq<char> {
    if tf == "1m"@ || tf == "3m"@ || tf == "5m"@ || tf == "15m"@ || tf == "30m"@ || tf == "1h"@
        || tf == "2h"@ || tf == "4h"@ || tf == "6h"@ || tf == "8h"@ || tf == "12h"@ || tf == "1d"@
        || tf == "3d"@ || tf == "1w"@ {
        tf
    } else if tf == "1M"@ {
        "1mo"@
    } else {
        "1m"@
    }
}

/// The archive interval name of a candle timeframe label.
pub fn archive_interval(timeframe: &str) -> (r: &str)
    ensures
        r@ == spec_archive_interval(timeframe@),
{
    if str_eq(timeframe, "1m") || str_eq(timeframe, "3m") || str_eq(timeframe, "5m") || str_eq(
        timeframe,
        "15m",
    ) || str_eq(timeframe, "30m") || str_eq(timeframe, "1h") || str_eq(timeframe, "2h") || str_eq(
        timeframe,
        "4h",
    ) || str_eq(timeframe, "6h") || str_eq(timeframe, "8h") || str_eq(timeframe, "12h") || str_eq(
        timeframe,
        "1d",
    ) || str_eq(timeframe, "3d") || str_eq(timeframe, "1w") {
        timeframe
    } else if str_eq(timeframe, "1M") {
        "1mo"
    } else {
        "1m"
    }
}

/// The archive file of a day of candles:
/// "https://data.binance.vision/data/spot/daily/klines/{S}/{I}/{S}-{I}-{D}.zip".
pub fn archive_kline_url(symbol: &str, date: &str, timeframe: &str) -> (r: String)
    ensures
        r@ == "https://data.binance.vision/data/spot/daily/klines/"@ + symbol@ + "/"@
            + spec_archive_interval(timeframe@) + "/"@ + symbol@ + "-"@ + spec_archive_interval(
            timeframe@,
        ) + "-"@ + date@ + ".zip"@,
{
    let interval = archive_interval(timeframe);
    let mut url = String::new();
    append_str(&mut url, "https://data.binance.vision/data/spot/daily/klines/");
    append_str(&mut url, symbol);
    append_str(&mut url, "/");
    append_str(&mut url, interval);
    append_str(&mut url, "/");
    append_str(&mut url, symbol);
    append_str(&mut url, "-");
    append_str(&mut url, interval);
    append_str(&mut url, "-");
    append_str(&mut url, date);
    append_str(&mut url, ".zip");
    url
}

/// The archive file of a day of aggregated trades:
/// "https://data.binance.vision/data/spot/daily/aggTrades/{S}/{S}-aggTrades-{D}.zip".
pub fn archive_trades_url(symbol: &str, date: &str) -> (r: String)
    ensures
        r@ == "https://data.binance.vision/data/spot/daily/aggTrades/"@ + symbol@ + "/"@ + symbol@
            + "-aggTrades-"@ + date@ + ".zip"@,
{
    let mut url = String::new();
    append_str(&mut url, "https://data.binance.vision/data/spot/daily/aggTrades/");
    append_str(&mut url, symbol);
    append_str(&mut url, "/");
    append_str(&mut url, symbol);
    append_str(&mut url, "-aggTrades-");
    append_str(&mut url, date);
    append_str(&mut url, ".zip");
    url
}

/// What an archive download does with the HTTP status of its reply.
#[derive(Debug, Clone, Copy, PartialEq, Eq, Structural)]
pub enum ArchiveReply {
    /// 2xx: read the archive.
    Read,
    /// 404: the day is not published yet; the result is empty.
    NotPublished,
    /// Any other status: the download failed.
    Failed,
}

/// Classifies the HTTP status of an archive download's reply.
pub fn archive_reply(status: u16) -> (r: ArchiveReply)
    ensures
        r == if 200 <= status <= 299 {
            ArchiveReply::Read
        } else if status == 404 {
            ArchiveReply::NotPublished
        } else {
            ArchiveReply::Failed
        },
{
    if 200 <= status && status <= 299 {
        ArchiveReply::Read
    } else if status == 404 {
        ArchiveReply::NotPublished
    } else {
        ArchiveReply::Failed
    }
}

} // verus!
