//! Exchanges, market kinds and the stream descriptions that the data layer
//! subscribes to.

pub mod archive;
pub mod binance;
pub mod unique_streams;

use vstd::prelude::*;

use crate::exchange::{
    Kline, Price, PushFrequency, TickMultiplier, Ticker, TickerInfo, Timeframe, Trade,
};
use crate::text::{append_str, str_eq};

verus! {

/// Kind of market an exchange venue trades.
#[derive(Debug, Clone, Copy, PartialEq, Eq, Structural, Hash)]
pub enum MarketKind {
    Spot,
    LinearPerps,
    InversePerps,
}

impl MarketKind {
    /// Display name of the market kind.
    pub fn name(&self) -> (s: &'static str)
        ensures
            s@ == market_kind_name(*self),
    {
        match self {
            MarketKind::Spot => "Spot",
            MarketKind::LinearPerps => "Linear",
            MarketKind::InversePerps => "Inverse",
        }
    }
}

pub open spec fn market_kind_name(m: MarketKind) -> Seq<char> {
    match m {
        MarketKind::Spot => "Spot"@,
        MarketKind::LinearPerps => "Linear"@,
        MarketKind::InversePerps => "Inverse"@,
    }
}

/// Supported exchange venues.
#[derive(Debug, Clone, Copy, PartialEq, Eq, Structural, Hash)]
pub enum Exchange {
    BinanceLinear,
    BinanceInverse,
    BinanceSpot,
    BybitLinear,
    BybitInverse,
    BybitSpot,
    HyperliquidLinear,
    HyperliquidSpot,
    OkexLinear,
    OkexInverse,
    OkexSpot,
}

/// Exchange families, regardless of market kind.
#[derive(Debug, Clone, Copy, PartialEq, Eq, Structural, Hash)]
pub enum ExchangeInclusive {
    Bybit,
    Binance,
    Hyperliquid,
    Okex,
}

pub open spec fn spec_market_type(e: Exchange) -> MarketKind {
    match e {
        Exchange::BinanceLinear | Exchange::BybitLinear | Exchange::HyperliquidLinear
        | Exchange::OkexLinear => MarketKind::LinearPerps,
        Exchange::BinanceInverse | Exchange::BybitInverse | Exchange::OkexInverse =>
            MarketKind::InversePerps,
        Exchange::BinanceSpot | Exchange::BybitSpot | Exchange::HyperliquidSpot
        | Exchange::OkexSpot => MarketKind::Spot,
    }
}

pub open spec fn spec_family(e: Exchange) -> ExchangeInclusive {
    match e {
        Exchange::BybitLinear | Exchange::BybitInverse | Exchange::BybitSpot =>
            ExchangeInclusive::Bybit,
        Exchange::BinanceLinear | Exchange::BinanceInverse | Exchange::BinanceSpot =>
            ExchangeInclusive::Binance,
        Exchange::HyperliquidLinear | Exchange::HyperliquidSpot => ExchangeInclusive::Hyperliquid,
        Exchange::OkexLinear | Exchange::OkexInverse | Exchange::OkexSpot => ExchangeInclusive::Okex,
    }
}

pub open spec fn spec_is_depth_client_aggr(e: Exchange) -> bool {
    !(e == Exchange::HyperliquidLinear || e == Exchange::HyperliquidSpot)
}

pub open spec fn spec_supports_heatmap_timeframe(e: Exchange, tf: Timeframe) -> bool {
    match e {
        Exchange::BybitSpot => tf != Timeframe::MS100,
        Exchange::BybitLinear | Exchange::BybitInverse => tf != Timeframe::MS200,
        Exchange::HyperliquidLinear | Exchange::HyperliquidSpot => tf != Timeframe::MS100 && tf
            != Timeframe::MS200 && tf != Timeframe::MS300,
        _ => true,
    }
}

pub open spec fn exchange_name(e: Exchange) -> Seq<char> {
    match e {
        Exchange::BinanceLinear => "Binance Linear"@,
        Exchange::BinanceInverse => "Binance Inverse"@,
        Exchange::BinanceSpot => "Binance Spot"@,
        Exchange::BybitLinear => "Bybit Linear"@,
        Exchange::BybitInverse => "Bybit Inverse"@,
        Exchange::BybitSpot => "Bybit Spot"@,
        Exchange::HyperliquidLinear => "Hyperliquid Linear"@,
        Exchange::HyperliquidSpot => "Hyperliquid Spot"@,
        Exchange::OkexLinear => "Okex Linear"@,
        Exchange::OkexInverse => "Okex Inverse"@,
        Exchange::OkexSpot => "Okex Spot"@,
    }
}

/// All exchanges in declaration order.
pub open spec fn all_exchanges() -> Seq<Exchange> {
    seq![
        Exchange::BinanceLinear,
        Exchange::BinanceInverse,
        Exchange::BinanceSpot,
        Exchange::BybitLinear,
        Exchange::BybitInverse,
        Exchange::BybitSpot,
        Exchange::HyperliquidLinear,
        Exchange::HyperliquidSpot,
        Exchange::OkexLinear,
        Exchange::OkexInverse,
        Exchange::OkexSpot,
    ]
}

impl ExchangeInclusive {
    pub fn of(ex: Exchange) -> (r: Self)
        ensures
            r == spec_family(ex),
    {
        match ex {
            Exchange::BybitLinear | Exchange::BybitInverse | Exchange::BybitSpot => Self::Bybit,
            Exchange::BinanceLinear | Exchange::BinanceInverse | Exchange::BinanceSpot => {
                Self::Binance
            },
            Exchange::HyperliquidLinear | Exchange::HyperliquidSpot => Self::Hyperliquid,
            Exchange::OkexLinear | Exchange::OkexInverse | Exchange::OkexSpot => Self::Okex,
        }
    }
}

impl Exchange {
    /// All exchanges in declaration order.
    pub fn all() -> (v: Vec<Exchange>)
        ensures
            v@ == all_exchanges(),
    {
        let v = vec![
            Exchange::BinanceLinear,
            Exchange::BinanceInverse,
            Exchange::BinanceSpot,
            Exchange::BybitLinear,
            Exchange::BybitInverse,
            Exchange::BybitSpot,
            Exchange::HyperliquidLinear,
            Exchange::HyperliquidSpot,
            Exchange::OkexLinear,
            Exchange::OkexInverse,
            Exchange::OkexSpot,
        ];
        assert(v@ == all_exchanges());
        v
    }

    /// Display name of the exchange.
    pub fn name(&self) -> (s: &'static str)
        ensures
            s@ == exchange_name(*self),
    {
        match self {
            Exchange::BinanceLinear => "Binance Linear",
            Exchange::BinanceInverse => "Binance Inverse",
            Exchange::BinanceSpot => "Binance Spot",
            Exchange::BybitLinear => "Bybit Linear",
            Exchange::BybitInverse => "Bybit Inverse",
            Exchange::BybitSpot => "Bybit Spot",
            Exchange::HyperliquidLinear => "Hyperliquid Linear",
            Exchange::HyperliquidSpot => "Hyperliquid Spot",
            Exchange::OkexLinear => "Okex Linear",
            Exchange::OkexInverse => "Okex Inverse",
            Exchange::OkexSpot => "Okex Spot",
        }
    }

    /// Parses a display name back into an exchange.
    pub fn parse(s: &str) -> (r: Result<Exchange, String>)
        ensures
            r matches Ok(e) ==> exchange_name(e) == s@,
            r is Err ==> (forall|e: Exchange| exchange_name(e) != s@),
            r matches Err(msg) ==> msg@ == "Invalid exchange: "@ + s@,
    {
        let all = Exchange::all();
        let mut i: usize = 0;
        while i < all.len()
            invariant
                all@ == all_exchanges(),
                i <= all.len(),
                forall|j: int| 0 <= j < i ==> exchange_name(all@[j]) != s@,
            decreases all.len() - i,
        {
            let e = all[i];
            if str_eq(e.name(), s) {
                return Ok(e);
            }
            i = i + 1;
        }
        proof {
            assert forall|e: Exchange| exchange_name(e) != s@ by {
                assert(all_exchanges().contains(e)) by {
                    match e {
                        Exchange::BinanceLinear => assert(all_exchanges()[0] == e),
                        Exchange::BinanceInverse => assert(all_exchanges()[1] == e),
                        Exchange::BinanceSpot => assert(all_exchanges()[2] == e),
                        Exchange::BybitLinear => assert(all_exchanges()[3] == e),
                        Exchange::BybitInverse => assert(all_exchanges()[4] == e),
                        Exchange::BybitSpot => assert(all_exchanges()[5] == e),
                        Exchange::HyperliquidLinear => assert(all_exchanges()[6] == e),
                        Exchange::HyperliquidSpot => assert(all_exchanges()[7] == e),
                        Exchange::OkexLinear => assert(all_exchanges()[8] == e),
                        Exchange::OkexInverse => assert(all_exchanges()[9] == e),
                        Exchange::OkexSpot => assert(all_exchanges()[10] == e),
                    }
                }
            }
        }
        let mut msg = String::new();
        append_str(&mut msg, "Invalid exchange: ");
        append_str(&mut msg, s);
        proof {
            reveal_strlit("Invalid exchange: ");
        }
        Err(msg)
    }

    pub fn market_type(&self) -> (m: MarketKind)
        ensures
            m == spec_market_type(*self),
    {
        match self {
            Exchange::BinanceLinear | Exchange::BybitLinear | Exchange::HyperliquidLinear
            | Exchange::OkexLinear => MarketKind::LinearPerps,
            Exchange::BinanceInverse | Exchange::BybitInverse | Exchange::OkexInverse => {
                MarketKind::InversePerps
            },
            Exchange::BinanceSpot | Exchange::BybitSpot | Exchange::HyperliquidSpot
            | Exchange::OkexSpot => MarketKind::Spot,
        }
    }

    /// Whether depth is aggregated on the client (every venue but Hyperliquid).
    pub fn is_depth_client_aggr(&self) -> (b: bool)
        ensures
            b == spec_is_depth_client_aggr(*self),
    {
        match self {
            Exchange::HyperliquidLinear | Exchange::HyperliquidSpot => false,
            _ => true,
        }
    }

    /// Whether the venue accepts a custom push frequency (the Bybit venues).
    pub fn is_custom_push_freq(&self) -> (b: bool)
        ensures
            b == (*self == Exchange::BybitLinear || *self == Exchange::BybitInverse || *self
                == Exchange::BybitSpot),
    {
        match self {
            Exchange::BybitLinear | Exchange::BybitInverse | Exchange::BybitSpot => true,
            _ => false,
        }
    }

    /// Push frequencies the venue accepts.
    pub fn allowed_push_freqs(&self) -> (v: Vec<PushFrequency>)
        ensures
            v@ == match *self {
                Exchange::BybitLinear | Exchange::BybitInverse => seq![
                    PushFrequency::Custom(Timeframe::MS100),
                    PushFrequency::Custom(Timeframe::MS300),
                ],
                Exchange::BybitSpot => seq![
                    PushFrequency::Custom(Timeframe::MS200),
                    PushFrequency::Custom(Timeframe::MS300),
                ],
                _ => seq![PushFrequency::ServerDefault],
            },
    {
        let v = match self {
            Exchange::BybitLinear | Exchange::BybitInverse => vec![
                PushFrequency::Custom(Timeframe::MS100),
                PushFrequency::Custom(Timeframe::MS300),
            ],
            Exchange::BybitSpot => vec![
                PushFrequency::Custom(Timeframe::MS200),
                PushFrequency::Custom(Timeframe::MS300),
            ],
            _ => vec![PushFrequency::ServerDefault],
        };
        proof {
            match *self {
                Exchange::BybitLinear | Exchange::BybitInverse => {
                    assert(v@ =~= seq![
                        PushFrequency::Custom(Timeframe::MS100),
                        PushFrequency::Custom(Timeframe::MS300),
                    ]);
                },
                Exchange::BybitSpot => {
                    assert(v@ =~= seq![
                        PushFrequency::Custom(Timeframe::MS200),
                        PushFrequency::Custom(Timeframe::MS300),
                    ]);
                },
                _ => {
                    assert(v@ =~= seq![PushFrequency::ServerDefault]);
                },
            }
        }
        v
    }

    pub fn supports_heatmap_timeframe(&self, tf: Timeframe) -> (b: bool)
        ensures
            b == spec_supports_heatmap_timeframe(*self, tf),
    {
        match self {
            Exchange::BybitSpot => tf != Timeframe::MS100,
            Exchange::BybitLinear | Exchange::BybitInverse => tf != Timeframe::MS200,
            Exchange::HyperliquidLinear | Exchange::HyperliquidSpot => {
                tf != Timeframe::MS100 && tf != Timeframe::MS200 && tf != Timeframe::MS300
            },
            _ => true,
        }
    }

    /// Whether the venue trades perpetual contracts.
    pub fn is_perps(&self) -> (b: bool)
        ensures
            b == !(*self == Exchange::BinanceSpot || *self == Exchange::BybitSpot || *self
                == Exchange::HyperliquidSpot || *self == Exchange::OkexSpot),
    {
        match self {
            Exchange::BinanceLinear | Exchange::BinanceInverse | Exchange::BybitLinear
            | Exchange::BybitInverse | Exchange::HyperliquidLinear | Exchange::OkexLinear
            | Exchange::OkexInverse => true,
            _ => false,
        }
    }

    /// Depth aggregation to request: client side where the venue aggregates
    /// on the client, otherwise server side with the given multiplier or
    /// the fallback.
    pub fn stream_ticksize(
        &self,
        multiplier: Option<TickMultiplier>,
        server_fallback: TickMultiplier,
    ) -> (t: StreamTicksize)
        ensures
            t == if spec_is_depth_client_aggr(*self) {
                StreamTicksize::Client
            } else {
                StreamTicksize::ServerSide(
                    match multiplier {
                        Some(m) => m,
                        None => server_fallback,
                    },
                )
            },
    {
        if self.is_depth_client_aggr() {
            StreamTicksize::Client
        } else {
            StreamTicksize::ServerSide(
                match multiplier {
                    Some(m) => m,
                    None => server_fallback,
                },
            )
        }
    }
}

/// Where depth is aggregated to ticks.
#[derive(Debug, Clone, Copy, PartialEq, Eq, Structural, Hash)]
pub enum StreamTicksize {
    ServerSide(TickMultiplier),
    Client,
}

impl StreamTicksize {
    /// Depth aggregation assumed when none was persisted.
    pub fn default_depth_aggr() -> (t: StreamTicksize)
        ensures
            t == StreamTicksize::Client,
    {
        StreamTicksize::Client
    }
}

/// Push frequency assumed when none was persisted.
pub fn default_push_freq() -> (p: PushFrequency)
    ensures
        p == PushFrequency::ServerDefault,
{
    PushFrequency::ServerDefault
}

/// A live market-data stream.
#[derive(Debug, Clone)]
pub enum StreamKind {
    Kline { ticker_info: TickerInfo, timeframe: Timeframe },
    DepthAndTrades {
        ticker_info: TickerInfo,
        depth_aggr: StreamTicksize,
        push_freq: PushFrequency,
    },
}

/// Value of a stream: its kind with the ticker info by value.
pub enum StreamKindView {
    Kline {
        ticker_info: ((Seq<char>, Exchange), crate::exchange::PriceStep, u64, Option<u64>),
        timeframe: Timeframe,
    },
    DepthAndTrades {
        ticker_info: ((Seq<char>, Exchange), crate::exchange::PriceStep, u64, Option<u64>),
        depth_aggr: StreamTicksize,
        push_freq: PushFrequency,
    },
}

impl View for StreamKind {
    type V = StreamKindView;

    open spec fn view(&self) -> StreamKindView {
        match self {
            StreamKind::Kline { ticker_info, timeframe } => StreamKindView::Kline {
                ticker_info: ticker_info@,
                timeframe: *timeframe,
            },
            StreamKind::DepthAndTrades { ticker_info, depth_aggr, push_freq } =>
                StreamKindView::DepthAndTrades {
                ticker_info: ticker_info@,
                depth_aggr: *depth_aggr,
                push_freq: *push_freq,
            },
        }
    }
}

impl StreamKind {
    pub open spec fn spec_ticker_info(&self) -> TickerInfo {
        match self {
            StreamKind::Kline { ticker_info, .. } => *ticker_info,
            StreamKind::DepthAndTrades { ticker_info, .. } => *ticker_info,
        }
    }

    pub fn ticker_info(&self) -> (t: TickerInfo)
        ensures
            t@ == self.spec_ticker_info()@,
    {
        match self {
            StreamKind::Kline { ticker_info, .. } => copy_ticker_info(ticker_info),
            StreamKind::DepthAndTrades { ticker_info, .. } => copy_ticker_info(ticker_info),
        }
    }

    pub fn as_depth_stream(&self) -> (r: Option<(TickerInfo, StreamTicksize, PushFrequency)>)
        ensures
            match self {
                StreamKind::DepthAndTrades { ticker_info, depth_aggr, push_freq } => r is Some
                    && r.unwrap().0@ == ticker_info@ && r.unwrap().1 == *depth_aggr && r.unwrap().2 == *push_freq,
                _ => r is None,
            },
    {
        match self {
            StreamKind::DepthAndTrades { ticker_info, depth_aggr, push_freq } => Some(
                (copy_ticker_info(ticker_info), *depth_aggr, *push_freq),
            ),
            _ => None,
        }
    }

    pub fn as_kline_stream(&self) -> (r: Option<(TickerInfo, Timeframe)>)
        ensures
            match self {
                StreamKind::Kline { ticker_info, timeframe } => r is Some && r.unwrap().0@
                    == ticker_info@ && r.unwrap().1 == *timeframe,
                _ => r is None,
            },
    {
        match self {
            StreamKind::Kline { ticker_info, timeframe } => Some(
                (copy_ticker_info(ticker_info), *timeframe),
            ),
            _ => None,
        }
    }

    /// Whether two streams are the same stream.
    pub fn same_as(&self, other: &StreamKind) -> (b: bool)
        ensures
            b == (self@ == other@),
    {
        match (self, other) {
            (
                StreamKind::Kline { ticker_info: a, timeframe: ta },
                StreamKind::Kline { ticker_info: b, timeframe: tb },
            ) => a.same_as(b) && *ta == *tb,
            (
                StreamKind::DepthAndTrades { ticker_info: a, depth_aggr: da, push_freq: pa },
                StreamKind::DepthAndTrades { ticker_info: b, depth_aggr: db, push_freq: pb },
            ) => a.same_as(b) && *da == *db && *pa == *pb,
            _ => false,
        }
    }

    /// An owned copy with the same value.
    pub fn duplicate(&self) -> (s: StreamKind)
        ensures
            s@ == self@,
    {
        match self {
            StreamKind::Kline { ticker_info, timeframe } => StreamKind::Kline {
                ticker_info: copy_ticker_info(ticker_info),
                timeframe: *timeframe,
            },
            StreamKind::DepthAndTrades { ticker_info, depth_aggr, push_freq } =>
                StreamKind::DepthAndTrades {
                ticker_info: copy_ticker_info(ticker_info),
                depth_aggr: *depth_aggr,
                push_freq: *push_freq,
            },
        }
    }
}

/// An owned copy of a ticker with the same value.
pub fn copy_ticker(t: &Ticker) -> (r: Ticker)
    ensures
        r@ == t@,
{
    Ticker { symbol: t.symbol.clone(), exchange: t.exchange }
}

/// An owned copy of a ticker info with the same value.
pub fn copy_ticker_info(t: &TickerInfo) -> (r: TickerInfo)
    ensures
        r@ == t@,
{
    TickerInfo {
        ticker: copy_ticker(&t.ticker),
        min_ticksize: t.min_ticksize,
        min_qty: t.min_qty,
        contract_size: t.contract_size,
    }
}

/// Persisted form of a depth stream: the ticker without its trading rules.
#[derive(Debug, Clone)]
pub struct PersistDepth {
    pub ticker: Ticker,
    pub depth_aggr: StreamTicksize,
    pub push_freq: PushFrequency,
}

/// Persisted form of a kline stream.
#[derive(Debug, Clone)]
pub struct PersistKline {
    pub ticker: Ticker,
    pub timeframe: Timeframe,
}

/// Persisted form of a stream.
#[derive(Debug, Clone)]
pub enum PersistStreamKind {
    Kline(PersistKline),
    DepthAndTrades(PersistDepth),
}

/// Value of a persisted stream.
pub enum PersistStreamKindView {
    Kline { ticker: (Seq<char>, Exchange), timeframe: Timeframe },
    DepthAndTrades {
        ticker: (Seq<char>, Exchange),
        depth_aggr: StreamTicksize,
        push_freq: PushFrequency,
    },
}

impl View for PersistStreamKind {
    type V = PersistStreamKindView;

    open spec fn view(&self) -> PersistStreamKindView {
        match self {
            PersistStreamKind::Kline(k) => PersistStreamKindView::Kline {
                ticker: k.ticker@,
                timeframe: k.timeframe,
            },
            PersistStreamKind::DepthAndTrades(d) => PersistStreamKindView::DepthAndTrades {
                ticker: d.ticker@,
                depth_aggr: d.depth_aggr,
                push_freq: d.push_freq,
            },
        }
    }
}

/// The persisted form of a live stream: the same stream, keeping only the
/// ticker of its ticker info.
pub open spec fn persist_of(s: StreamKindView) -> PersistStreamKindView {
    match s {
        StreamKindView::Kline { ticker_info, timeframe } => PersistStreamKindView::Kline {
            ticker: ticker_info.0,
            timeframe,
        },
        StreamKindView::DepthAndTrades { ticker_info, depth_aggr, push_freq } =>
            PersistStreamKindView::DepthAndTrades { ticker: ticker_info.0, depth_aggr, push_freq },
    }
}

/// The live stream a persisted stream resolves to with the given ticker info.
pub open spec fn resolved_stream(
    p: PersistStreamKindView,
    info: ((Seq<char>, Exchange), crate::exchange::PriceStep, u64, Option<u64>),
) -> StreamKindView {
    match p {
        PersistStreamKindView::Kline { timeframe, .. } => StreamKindView::Kline {
            ticker_info: info,
            timeframe,
        },
        PersistStreamKindView::DepthAndTrades { depth_aggr, push_freq, .. } =>
            StreamKindView::DepthAndTrades { ticker_info: info, depth_aggr, push_freq },
    }
}

impl PersistStreamKind {
    /// The persisted form of a live stream.
    pub fn from_stream(s: &StreamKind) -> (p: PersistStreamKind)
        ensures
            p@ == persist_of(s@),
    {
        match s {
            StreamKind::Kline { ticker_info, timeframe } => PersistStreamKind::Kline(
                PersistKline { ticker: copy_ticker(&ticker_info.ticker), timeframe: *timeframe },
            ),
            StreamKind::DepthAndTrades { ticker_info, depth_aggr, push_freq } =>
                PersistStreamKind::DepthAndTrades(
                PersistDepth {
                    ticker: copy_ticker(&ticker_info.ticker),
                    depth_aggr: *depth_aggr,
                    push_freq: *push_freq,
                },
            ),
        }
    }

    pub open spec fn spec_ticker(&self) -> Ticker {
        match self {
            PersistStreamKind::Kline(k) => k.ticker,
            PersistStreamKind::DepthAndTrades(d) => d.ticker,
        }
    }

    /// Resolves a persisted stream into a live one, looking its ticker up with
    /// `resolver`; fails with a message naming the ticker's symbol when the
    /// resolver finds nothing.
    pub fn into_stream_kind<F>(self, resolver: F) -> (r: Result<StreamKind, String>)
        where
            F: Fn(&Ticker) -> Option<TickerInfo>,
        requires
            resolver.requires((&self.spec_ticker(),)),
        ensures
            r matches Ok(s) ==> exists|info: TickerInfo|
                #![trigger resolver.ensures((&self.spec_ticker(),), Some(info))]
                resolver.ensures((&self.spec_ticker(),), Some(info)) && s@ == resolved_stream(
                    self@,
                    info@,
                ),
            r matches Err(msg) ==> resolver.ensures((&self.spec_ticker(),), None)
                && msg@ == "TickerInfo not found for "@ + self.spec_ticker().symbol@,
    {
        proof {
            reveal_strlit("TickerInfo not found for ");
        }
        match self {
            PersistStreamKind::Kline(k) => {
                let found = resolver(&k.ticker);
                match found {
                    Some(ti) => Ok(StreamKind::Kline { ticker_info: ti, timeframe: k.timeframe }),
                    None => {
                        let mut msg = String::new();
                        append_str(&mut msg, "TickerInfo not found for ");
                        append_str(&mut msg, k.ticker.symbol.as_str());
                        Err(msg)
                    },
                }
            },
            PersistStreamKind::DepthAndTrades(d) => {
                let found = resolver(&d.ticker);
                match found {
                    Some(ti) => Ok(
                        StreamKind::DepthAndTrades {
                            ticker_info: ti,
                            depth_aggr: d.depth_aggr,
                            push_freq: d.push_freq,
                        },
                    ),
                    None => {
                        let mut msg = String::new();
                        append_str(&mut msg, "TickerInfo not found for ");
                        append_str(&mut msg, d.ticker.symbol.as_str());
                        Err(msg)
                    },
                }
            },
        }
    }
}

/// The ticker a persisted stream names.
pub open spec fn persisted_ticker(p: PersistStreamKindView) -> (Seq<char>, Exchange) {
    match p {
        PersistStreamKindView::Kline { ticker, .. } => ticker,
        PersistStreamKindView::DepthAndTrades { ticker, .. } => ticker,
    }
}

/// A persisted stream resolves back to the stream it was made from: its
/// ticker is the stream's ticker, and resolving it with the stream's ticker
/// info gives the stream again.
pub proof fn law_persisted_stream_resolves_back(s: StreamKind)
    ensures
        persisted_ticker(persist_of(s@)) == s.spec_ticker_info().ticker@,
        resolved_stream(persist_of(s@), s.spec_ticker_info()@) == s@,
{
}

impl PersistStreamKind {
    /// The ticker of a persisted stream is the one its value names.
    pub proof fn lemma_ticker_view(&self)
        ensures
            self.spec_ticker()@ == persisted_ticker(self@),
    {
    }
}

/// Streams of a pane: persisted ones waiting to be resolved, or live ones.
#[derive(Debug, Clone)]
pub enum ResolvedStream {
    Waiting(Vec<PersistStreamKind>),
    Ready(Vec<StreamKind>),
}

#[verifier::loop_isolation(false)]
impl ResolvedStream {
    /// Whether `stream` is among the ready streams.
    pub fn matches_stream(&self, stream: &StreamKind) -> (b: bool)
        ensures
            b == match self {
                ResolvedStream::Ready(existing) => exists|i: int|
                    0 <= i < existing@.len() && #[trigger] existing@[i]@ == stream@,
                _ => false,
            },
    {
        match self {
            ResolvedStream::Ready(existing) => {
                let mut i: usize = 0;
                while i < existing.len()
                    invariant
                        i <= existing@.len(),
                        forall|j: int| 0 <= j < i ==> #[trigger] existing@[j]@ != stream@,
                    decreases existing.len() - i,
                {
                    if existing[i].same_as(stream) {
                        assert(existing@[i as int]@ == stream@);
                        return true;
                    }
                    i = i + 1;
                }
                false
            },
            _ => false,
        }
    }

    /// The ready streams, if the streams are ready.
    pub fn ready_iter(&self) -> (r: Option<&Vec<StreamKind>>)
        ensures
            match self {
                ResolvedStream::Ready(streams) => r == Some(streams),
                _ => r is None,
            },
    {
        match self {
            ResolvedStream::Ready(streams) => Some(streams),
            _ => None,
        }
    }

    /// Mutable access to the ready streams, if the streams are ready.
    pub fn ready_iter_mut(&mut self) -> (r: Option<&mut Vec<StreamKind>>)
        ensures
            match *old(self) {
                ResolvedStream::Ready(streams) => r is Some && *r->0 == streams
                    && *final(self) == ResolvedStream::Ready(*final(r->0)),
                _ => r is None && *final(self) == *old(self),
            },
    {
        match self {
            ResolvedStream::Ready(streams) => Some(streams),
            _ => None,
        }
    }

    /// The first `Some` that `f` gives on the ready streams, in order.
    pub fn find_ready_map<F, T>(&self, f: F) -> (r: Option<T>)
        where
            F: Fn(&StreamKind) -> Option<T>,
        requires
            self matches ResolvedStream::Ready(streams) ==> forall|i: int|
                0 <= i < streams@.len() ==> f.requires((&#[trigger] streams@[i],)),
        ensures
            match self {
                ResolvedStream::Ready(streams) => {
                    &&& r is Some ==> exists|i: int|
                        0 <= i < streams@.len() && f.ensures((&#[trigger] streams@[i],), r) && forall|j: int|
                            0 <= j < i ==> f.ensures((&#[trigger] streams@[j],), None)
                    &&& r is None ==> forall|i: int|
                        0 <= i < streams@.len() ==> f.ensures((&#[trigger] streams@[i],), None)
                },
                _ => r is None,
            },
    {
        match self {
            ResolvedStream::Ready(streams) => {
                let mut i: usize = 0;
                while i < streams.len()
                    invariant
                        i <= streams@.len(),
                        forall|j: int|
                            0 <= j < streams@.len() ==> f.requires((&#[trigger] streams@[j],)),
                        forall|j: int|
                            0 <= j < i ==> f.ensures((&#[trigger] streams@[j],), None),
                    decreases streams.len() - i,
                {
                    let found = f(&streams[i]);
                    assert(f.ensures((&streams@[i as int],), found));
                    if found.is_some() {
                        return found;
                    }
                    i = i + 1;
                }
                None
            },
            _ => None,
        }
    }

    /// The persisted form of every stream, in order.
    pub fn into_waiting(self) -> (v: Vec<PersistStreamKind>)
        ensures
            match self {
                ResolvedStream::Waiting(streams) => v@ == streams@,
                ResolvedStream::Ready(streams) => v@.len() == streams@.len() && forall|i: int|
                    0 <= i < v@.len() ==> #[trigger] v@[i]@ == persist_of(streams@[i]@),
            },
    {
        match self {
            ResolvedStream::Waiting(streams) => streams,
            ResolvedStream::Ready(streams) => {
                let mut out: Vec<PersistStreamKind> = Vec::new();
                let mut i: usize = 0;
                while i < streams.len()
                    invariant
                        i <= streams@.len(),
                        out@.len() == i,
                        forall|j: int|
                            0 <= j < i ==> #[trigger] out@[j]@ == persist_of(streams@[j]@),
                    decreases streams.len() - i,
                {
                    out.push(PersistStreamKind::from_stream(&streams[i]));
                    i = i + 1;
                }
                out
            },
        }
    }

    /// The persisted streams, if they still wait to be resolved.
    pub fn waiting_to_resolve(&self) -> (r: Option<&Vec<PersistStreamKind>>)
        ensures
            match self {
                ResolvedStream::Waiting(streams) => r == Some(streams),
                _ => r is None,
            },
    {
        match self {
            ResolvedStream::Waiting(streams) => Some(streams),
            _ => None,
        }
    }

    /// The ticker info of every ready stream, in order.
    pub fn ready_tickers(&self) -> (r: Option<Vec<TickerInfo>>)
        ensures
            match self {
                ResolvedStream::Ready(streams) => r is Some && r->0@.len() == streams@.len()
                    && forall|i: int|
                    0 <= i < streams@.len() ==> #[trigger] r->0@[i]@
                        == streams@[i].spec_ticker_info()@,
                _ => r is None,
            },
    {
        match self {
            ResolvedStream::Ready(streams) => {
                let mut out: Vec<TickerInfo> = Vec::new();
                let mut i: usize = 0;
                while i < streams.len()
                    invariant
                        i <= streams@.len(),
                        out@.len() == i,
                        forall|j: int|
                            0 <= j < i ==> #[trigger] out@[j]@ == streams@[j].spec_ticker_info()@,
                    decreases streams.len() - i,
                {
                    out.push(streams[i].ticker_info());
                    i = i + 1;
                }
                Some(out)
            },
            ResolvedStream::Waiting(_) => None,
        }
    }

    /// The ready streams, copied; nothing while they wait to be resolved.
    pub fn ready_streams(&self) -> (v: Vec<StreamKind>)
        ensures
            match self {
                ResolvedStream::Ready(streams) => v@.len() == streams@.len() && forall|i: int|
                    0 <= i < v@.len() ==> #[trigger] v@[i]@ == streams@[i]@,
                _ => v@.len() == 0,
            },
    {
        match self {
            ResolvedStream::Ready(streams) => {
                let mut out: Vec<StreamKind> = Vec::new();
                let mut i: usize = 0;
                while i < streams.len()
                    invariant
                        i <= streams@.len(),
                        out@.len() == i,
                        forall|j: int| 0 <= j < i ==> #[trigger] out@[j]@ == streams@[j]@,
                    decreases streams.len() - i,
                {
                    out.push(streams[i].duplicate());
                    i = i + 1;
                }
                out
            },
            ResolvedStream::Waiting(_) => Vec::new(),
        }
    }
}

/// The depth and kline streams opened on one exchange.
#[derive(Debug, Clone)]
pub struct StreamSpecs {
    pub depth: Vec<(TickerInfo, StreamTicksize, PushFrequency)>,
    pub kline: Vec<(TickerInfo, Timeframe)>,
}

/// Connection settings of a stream subscription.
#[derive(Debug, Clone)]
pub struct StreamConfig<I> {
    pub id: I,
    pub market_type: MarketKind,
    pub tick_mltp: Option<TickMultiplier>,
    pub push_freq: PushFrequency,
}

impl<I> StreamConfig<I> {
    pub fn new(
        id: I,
        exchange: Exchange,
        tick_mltp: Option<TickMultiplier>,
        push_freq: PushFrequency,
    ) -> (c: Self)
        ensures
            c.id == id,
            c.market_type == spec_market_type(exchange),
            c.tick_mltp == tick_mltp,
            c.push_freq == push_freq,
    {
        let market_type = exchange.market_type();
        Self { id, market_type, tick_mltp, push_freq }
    }
}

/// An order book: price levels with quantities, bids and asks.
#[derive(Debug, Clone)]
pub struct Depth {
    pub bids: Vec<(Price, u64)>,
    pub asks: Vec<(Price, u64)>,
}

/// What a live connection reports.
#[derive(Debug, Clone)]
pub enum Event {
    Connected(Exchange),
    Disconnected(Exchange, String),
    DepthReceived(StreamKind, u64, Depth, Vec<Trade>),
    KlineReceived(StreamKind, Kline),
}

/// Kind of historical data to fetch from an exchange's data archive.
#[derive(Debug, Clone)]
pub enum HistoricalDataType {
    Kline { timeframe: String },
    Tick,
}

/// Historical data fetched from an exchange.
pub enum HistoricalData {
    Klines(Vec<Kline>),
    Ticks(Vec<Trade>),
}

/// An error of reading a zip archive.
#[verifier::external_type_specification]
#[verifier::external_body]
pub struct ExZipError(zip::result::ZipError);

/// Failures of talking to an exchange. A failed HTTP request is held by the
/// text of the client's error.
#[derive(Debug)]
pub enum AdapterError {
    FetchError(String),
    ParseError(String),
    WebsocketError(String),
    InvalidRequest(String),
    IoError(std::io::Error),
    ZipError(zip::result::ZipError),
}

impl AdapterError {
    /// The message shown to a user for this kind of failure.
    pub fn to_user_message(&self) -> (r: &'static str)
        ensures
            r@ == match self {
                AdapterError::InvalidRequest(_) => "Invalid request made to the exchange. Check logs for details."@,
                AdapterError::FetchError(_) => "Network error while contacting the exchange."@,
                AdapterError::ParseError(_) => "Unexpected response from the exchange. Check logs for details."@,
                AdapterError::WebsocketError(_) => "Realtime connection error. Trying to reconnect..."@,
                AdapterError::IoError(_) => "IO error occurred. Check logs for details."@,
                AdapterError::ZipError(_) => "Error processing ZIP archive. Check logs for details."@,
            },
    {
        match self {
            AdapterError::InvalidRequest(_) => "Invalid request made to the exchange. Check logs for details.",
            AdapterError::FetchError(_) => "Network error while contacting the exchange.",
            AdapterError::ParseError(_) => "Unexpected response from the exchange. Check logs for details.",
            AdapterError::WebsocketError(_) => "Realtime connection error. Trying to reconnect...",
            AdapterError::IoError(_) => "IO error occurred. Check logs for details.",
            AdapterError::ZipError(_) => "Error processing ZIP archive. Check logs for details.",
        }
    }
}

} // verus!
