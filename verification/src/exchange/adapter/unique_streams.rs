//! The distinct live streams the application subscribes to, and per
//! exchange the depth and candle streams they ask for.

use vstd::prelude::*;

use crate::exchange::adapter::{
    Exchange, StreamKind, StreamKindView, StreamTicksize, all_exchanges,
};
use crate::exchange::{PushFrequency, TickerInfo, Timeframe};

verus! {

/// A ticker info taken by value.
pub type TickerInfoV = ((Seq<char>, Exchange), crate::exchange::PriceStep, u64, Option<u64>);

/// A depth stream taken by value.
pub type DepthSpecV = (TickerInfoV, StreamTicksize, PushFrequency);

/// A candle stream taken by value.
pub type KlineSpecV = (TickerInfoV, Timeframe);

/// The exchange of a stream.
pub open spec fn stream_exchange(v: StreamKindView) -> Exchange {
    match v {
        StreamKindView::Kline { ticker_info, .. } => ticker_info.0.1,
        StreamKindView::DepthAndTrades { ticker_info, .. } => ticker_info.0.1,
    }
}

/// The views of the streams.
pub open spec fn views_of(s: Seq<StreamKind>) -> Seq<StreamKindView> {
    s.map_values(|k: StreamKind| k@)
}

/// The streams with `x` added unless it is there already.
pub open spec fn with_stream(s: Seq<StreamKindView>, x: StreamKindView) -> Seq<StreamKindView> {
    if s.contains(x) {
        s
    } else {
        s.push(x)
    }
}

/// The streams with each of `xs` added in turn.
pub open spec fn with_streams(s: Seq<StreamKindView>, xs: Seq<StreamKindView>) -> Seq<StreamKindView>
    decreases xs.len(),
{
    if xs.len() == 0 {
        s
    } else {
        with_stream(with_streams(s, xs.drop_last()), xs.last())
    }
}

/// A stream added is among the streams, and adding it again changes
/// nothing.
pub proof fn law_add_stream_idempotent(s: Seq<StreamKindView>, x: StreamKindView)
    ensures
        with_stream(s, x).contains(x),
        with_stream(with_stream(s, x), x) == with_stream(s, x),
{
    if !s.contains(x) {
        assert(s.push(x)[s.len() as int] == x);
    }
}

/// The depth streams of exchange `e`, in order.
pub open spec fn depth_for(s: Seq<StreamKindView>, e: Exchange) -> Seq<DepthSpecV>
    decreases s.len(),
{
    if s.len() == 0 {
        Seq::empty()
    } else {
        let rest = depth_for(s.drop_last(), e);
        match s.last() {
            StreamKindView::DepthAndTrades { ticker_info, depth_aggr, push_freq } => if ticker_info.0.1
                == e {
                rest.push((ticker_info, depth_aggr, push_freq))
            } else {
                rest
            },
            _ => rest,
        }
    }
}

/// The candle streams of exchange `e`, in order.
pub open spec fn kline_for(s: Seq<StreamKindView>, e: Exchange) -> Seq<KlineSpecV>
    decreases s.len(),
{
    if s.len() == 0 {
        Seq::empty()
    } else {
        let rest = kline_for(s.drop_last(), e);
        match s.last() {
            StreamKindView::Kline { ticker_info, timeframe } => if ticker_info.0.1 == e {
                rest.push((ticker_info, timeframe))
            } else {
                rest
            },
            _ => rest,
        }
    }
}

/// The depth streams of the exchanges `exs`, exchange by exchange.
pub open spec fn depth_across(s: Seq<StreamKindView>, exs: Seq<Exchange>) -> Seq<DepthSpecV>
    decreases exs.len(),
{
    if exs.len() == 0 {
        Seq::empty()
    } else {
        depth_across(s, exs.drop_last()) + depth_for(s, exs.last())
    }
}

/// The candle streams of the exchanges `exs`, exchange by exchange.
pub open spec fn kline_across(s: Seq<StreamKindView>, exs: Seq<Exchange>) -> Seq<KlineSpecV>
    decreases exs.len(),
{
    if exs.len() == 0 {
        Seq::empty()
    } else {
        kline_across(s, exs.drop_last()) + kline_for(s, exs.last())
    }
}

/// Whether some stream is of exchange `e`.
pub open spec fn uses_exchange(s: Seq<StreamKindView>, e: Exchange) -> bool {
    exists|i: int| 0 <= i < s.len() && stream_exchange(#[trigger] s[i]) == e
}

/// The exchanges of `exs` with streams, each with its depth and candle
/// streams.
pub open spec fn specs_across(s: Seq<StreamKindView>, exs: Seq<Exchange>) -> Seq<
    (Exchange, Seq<DepthSpecV>, Seq<KlineSpecV>),
>
    decreases exs.len(),
{
    if exs.len() == 0 {
        Seq::empty()
    } else {
        let rest = specs_across(s, exs.drop_last());
        let e = exs.last();
        if uses_exchange(s, e) {
            rest.push((e, depth_for(s, e), kline_for(s, e)))
        } else {
            rest
        }
    }
}

/// The depth streams as values.
pub open spec fn depth_views(v: Seq<(TickerInfo, StreamTicksize, PushFrequency)>) -> Seq<DepthSpecV> {
    v.map_values(|d: (TickerInfo, StreamTicksize, PushFrequency)| (d.0@, d.1, d.2))
}

/// The candle streams as values.
pub open spec fn kline_views(v: Seq<(TickerInfo, Timeframe)>) -> Seq<KlineSpecV> {
    v.map_values(|k: (TickerInfo, Timeframe)| (k.0@, k.1))
}

/// The depth and candle streams one exchange asks for.
#[derive(Debug, Clone)]
pub struct StreamSpecs {
    pub depth: Vec<(TickerInfo, StreamTicksize, PushFrequency)>,
    pub kline: Vec<(TickerInfo, Timeframe)>,
}

/// The distinct streams in use, in the order they were first added.
#[derive(Debug, Clone)]
pub struct UniqueStreams {
    pub streams: Vec<StreamKind>,
}

impl UniqueStreams {
    /// Whether no stream occurs twice.
    pub open spec fn wf(&self) -> bool {
        forall|i: int, j: int|
            0 <= i < j < self.streams@.len() ==> (#[trigger] self.streams@[i])@ != (
            #[trigger] self.streams@[j])@
    }

    /// No streams.
    pub fn new() -> (u: Self)
        ensures
            u.wf(),
            views_of(u.streams@) == Seq::<StreamKindView>::empty(),
    {
        let u = UniqueStreams { streams: Vec::new() };
        assert(views_of(u.streams@) =~= Seq::<StreamKindView>::empty());
        u
    }

    /// Adds a stream unless it is there already.
    pub fn add(&mut self, stream: StreamKind)
        requires
            old(self).wf(),
        ensures
            final(self).wf(),
            views_of(final(self).streams@) == with_stream(views_of(old(self).streams@), stream@),
    {
        let ghost s0 = views_of(self.streams@);
        let mut i: usize = 0;
        let mut found = false;
        while i < self.streams.len() && !found
            invariant
                s0 == views_of(self.streams@),
                i <= self.streams@.len(),
                !found ==> forall|j: int| 0 <= j < i ==> s0[j] != stream@,
                found ==> s0.contains(stream@),
            decreases self.streams.len() - i, if found { 0int } else { 1int },
        {
            if self.streams[i].same_as(&stream) {
                assert(s0[i as int] == stream@);
                found = true;
            }
            i = i + 1;
        }
        if !found {
            proof {
                assert(!s0.contains(stream@));
            }
            let ghost v = stream@;
            self.streams.push(stream);
            proof {
                assert(views_of(self.streams@) =~= s0.push(v));
                assert forall|a: int, b: int| 0 <= a < b < self.streams@.len() implies (
                #[trigger] self.streams@[a])@ != (#[trigger] self.streams@[b])@ by {
                    if b == self.streams@.len() - 1 {
                        assert(s0[a] == self.streams@[a]@);
                    }
                }
            }
        }
    }

    /// Adds each stream in turn.
    pub fn extend(&mut self, streams: &Vec<StreamKind>)
        requires
            old(self).wf(),
        ensures
            final(self).wf(),
            views_of(final(self).streams@) == with_streams(
                views_of(old(self).streams@),
                views_of(streams@),
            ),
    {
        let mut k: usize = 0;
        while k < streams.len()
            invariant
                self.wf(),
                k <= streams@.len(),
                views_of(self.streams@) == with_streams(
                    views_of(old(self).streams@),
                    views_of(streams@).take(k as int),
                ),
            decreases streams.len() - k,
        {
            proof {
                assert(views_of(streams@).take(k as int + 1).drop_last() =~= views_of(streams@).take(
                    k as int,
                ));
            }
            self.add(streams[k].duplicate());
            k = k + 1;
        }
        proof {
            assert(views_of(streams@).take(streams@.len() as int) =~= views_of(streams@));
        }
    }

    fn depth_of_exchange(&self, e: Exchange, out: &mut Vec<(TickerInfo, StreamTicksize, PushFrequency)>)
        ensures
            depth_views(final(out)@) == depth_views(old(out)@) + depth_for(views_of(self.streams@), e),
    {
        let ghost s = views_of(self.streams@);
        let ghost base = depth_views(out@);
        let mut i: usize = 0;
        while i < self.streams.len()
            invariant
                s == views_of(self.streams@),
                i <= self.streams@.len(),
                depth_views(out@) == base + depth_for(s.take(i as int), e),
            decreases self.streams.len() - i,
        {
            proof {
                assert(s.take(i as int + 1).drop_last() =~= s.take(i as int));
                assert(s.take(i as int + 1).last() == self.streams@[i as int]@);
            }
            let ghost before = out@;
            match &self.streams[i] {
                StreamKind::DepthAndTrades { ticker_info, depth_aggr, push_freq } => {
                    if ticker_info.exchange() == e {
                        let t = crate::exchange::adapter::copy_ticker_info(ticker_info);
                        out.push((t, *depth_aggr, *push_freq));
                        proof {
                            assert(depth_views(out@) =~= depth_views(before).push(
                                (ticker_info@, *depth_aggr, *push_freq),
                            ));
                        }
                    }
                },
                _ => {},
            }
            i = i + 1;
        }
        proof {
            assert(s.take(s.len() as int) =~= s);
        }
    }

    fn kline_of_exchange(&self, e: Exchange, out: &mut Vec<(TickerInfo, Timeframe)>)
        ensures
            kline_views(final(out)@) == kline_views(old(out)@) + kline_for(views_of(self.streams@), e),
    {
        let ghost s = views_of(self.streams@);
        let ghost base = kline_views(out@);
        let mut i: usize = 0;
        while i < self.streams.len()
            invariant
                s == views_of(self.streams@),
                i <= self.streams@.len(),
                kline_views(out@) == base + kline_for(s.take(i as int), e),
            decreases self.streams.len() - i,
        {
            proof {
                assert(s.take(i as int + 1).drop_last() =~= s.take(i as int));
                assert(s.take(i as int + 1).last() == self.streams@[i as int]@);
            }
            let ghost before = out@;
            match &self.streams[i] {
                StreamKind::Kline { ticker_info, timeframe } => {
                    if ticker_info.exchange() == e {
                        let t = crate::exchange::adapter::copy_ticker_info(ticker_info);
                        out.push((t, *timeframe));
                        proof {
                            assert(kline_views(out@) =~= kline_views(before).push(
                                (ticker_info@, *timeframe),
                            ));
                        }
                    }
                },
                _ => {},
            }
            i = i + 1;
        }
        proof {
            assert(s.take(s.len() as int) =~= s);
        }
    }

    /// The depth streams of one exchange, or of every exchange in turn.
    pub fn depth_streams(&self, exchange_filter: Option<Exchange>) -> (r: Vec<
        (TickerInfo, StreamTicksize, PushFrequency),
    >)
        ensures
            depth_views(r@) == match exchange_filter {
                Some(e) => depth_for(views_of(self.streams@), e),
                None => depth_across(views_of(self.streams@), all_exchanges()),
            },
    {
        let mut out: Vec<(TickerInfo, StreamTicksize, PushFrequency)> = Vec::new();
        proof {
            assert(depth_views(out@) =~= Seq::<DepthSpecV>::empty());
        }
        match exchange_filter {
            Some(e) => {
                self.depth_of_exchange(e, &mut out);
                proof {
                    assert(Seq::<DepthSpecV>::empty() + depth_for(views_of(self.streams@), e)
                        =~= depth_for(views_of(self.streams@), e));
                }
            },
            None => {
                let exs = Exchange::all();
                let mut k: usize = 0;
                while k < exs.len()
                    invariant
                        exs@ == all_exchanges(),
                        k <= exs@.len(),
                        depth_views(out@) == depth_across(views_of(self.streams@), exs@.take(k as int)),
                    decreases exs.len() - k,
                {
                    proof {
                        assert(exs@.take(k as int + 1).drop_last() =~= exs@.take(k as int));
                    }
                    self.depth_of_exchange(exs[k], &mut out);
                    k = k + 1;
                }
                proof {
                    assert(exs@.take(exs@.len() as int) =~= exs@);
                }
            },
        }
        out
    }

    /// The candle streams of one exchange, or of every exchange in turn.
    pub fn kline_streams(&self, exchange_filter: Option<Exchange>) -> (r: Vec<(TickerInfo, Timeframe)>)
        ensures
            kline_views(r@) == match exchange_filter {
                Some(e) => kline_for(views_of(self.streams@), e),
                None => kline_across(views_of(self.streams@), all_exchanges()),
            },
    {
        let mut out: Vec<(TickerInfo, Timeframe)> = Vec::new();
        proof {
            assert(kline_views(out@) =~= Seq::<KlineSpecV>::empty());
        }
        match exchange_filter {
            Some(e) => {
                self.kline_of_exchange(e, &mut out);
                proof {
                    assert(Seq::<KlineSpecV>::empty() + kline_for(views_of(self.streams@), e)
                        =~= kline_for(views_of(self.streams@), e));
                }
            },
            None => {
                let exs = Exchange::all();
                let mut k: usize = 0;
                while k < exs.len()
                    invariant
                        exs@ == all_exchanges(),
                        k <= exs@.len(),
                        kline_views(out@) == kline_across(views_of(self.streams@), exs@.take(k as int)),
                    decreases exs.len() - k,
                {
                    proof {
                        assert(exs@.take(k as int + 1).drop_last() =~= exs@.take(k as int));
                    }
                    self.kline_of_exchange(exs[k], &mut out);
                    k = k + 1;
                }
                proof {
                    assert(exs@.take(exs@.len() as int) =~= exs@);
                }
            },
        }
        out
    }
    /// Whether some stream is of exchange `e`.
    fn uses(&self, e: Exchange) -> (b: bool)
        ensures
            b == uses_exchange(views_of(self.streams@), e),
    {
        let ghost s = views_of(self.streams@);
        let mut i: usize = 0;
        while i < self.streams.len()
            invariant
                s == views_of(self.streams@),
                i <= self.streams@.len(),
                forall|j: int| 0 <= j < i ==> stream_exchange(#[trigger] s[j]) != e,
            decreases self.streams.len() - i,
        {
            let ex = match &self.streams[i] {
                StreamKind::Kline { ticker_info, .. } => ticker_info.exchange(),
                StreamKind::DepthAndTrades { ticker_info, .. } => ticker_info.exchange(),
            };
            assert(ex == stream_exchange(s[i as int]));
            if ex == e {
                return true;
            }
            i = i + 1;
        }
        false
    }

    /// Each exchange with streams, in exchange order, with the depth and
    /// candle streams it asks for.
    pub fn combined_used(&self) -> (r: Vec<(Exchange, StreamSpecs)>)
        ensures
            r@.map_values(
                |x: (Exchange, StreamSpecs)| (x.0, depth_views(x.1.depth@), kline_views(x.1.kline@)),
            ) == specs_across(views_of(self.streams@), all_exchanges()),
    {
        let ghost s = views_of(self.streams@);
        let exs = Exchange::all();
        let mut out: Vec<(Exchange, StreamSpecs)> = Vec::new();
        let mut k: usize = 0;
        while k < exs.len()
            invariant
                s == views_of(self.streams@),
                exs@ == all_exchanges(),
                k <= exs@.len(),
                out@.map_values(
                    |x: (Exchange, StreamSpecs)| (x.0, depth_views(x.1.depth@), kline_views(x.1.kline@)),
                ) == specs_across(s, exs@.take(k as int)),
            decreases exs.len() - k,
        {
            proof {
                assert(exs@.take(k as int + 1).drop_last() =~= exs@.take(k as int));
            }
            let e = exs[k];
            if self.uses(e) {
                let depth = self.depth_streams(Some(e));
                let kline = self.kline_streams(Some(e));
                let ghost before = out@;
                out.push((e, StreamSpecs { depth, kline }));
                proof {
                    assert(out@.map_values(
                        |x: (Exchange, StreamSpecs)| (x.0, depth_views(x.1.depth@), kline_views(x.1.kline@)),
                    ) =~= before.map_values(
                        |x: (Exchange, StreamSpecs)| (x.0, depth_views(x.1.depth@), kline_views(x.1.kline@)),
                    ).push((e, depth_for(s, e), kline_for(s, e))));
                }
            }
            k = k + 1;
        }
        proof {
            assert(exs@.take(exs@.len() as int) =~= exs@);
        }
        out
    }
}

} // verus!
