//! Commands of the trade ingestion service and how it reacts to them.

use vstd::prelude::*;

use crate::realtime_ingester::{FetchEvent, FetchStep};
use crate::text::str_eq;

verus! {

/// Commands that steer trade ingestion.
#[derive(Debug, Clone)]
pub enum IngestCommand {
    Subscribe(String),
    Unsubscribe(String),
    Shutdown,
}

/// What the ingestion service does on a command.
#[derive(Debug, Clone, PartialEq, Eq)]
pub enum IngestionAction {
    /// Nothing.
    Keep,
    /// Stop the running task, if any, and start ingesting this symbol.
    Switch(String),
    /// Stop the running task.
    Stop,
    /// Stop the running task and end the service.
    Exit,
}

/// The symbol being ingested, if any.
#[derive(Debug, Clone)]
pub struct IngestionState {
    pub active_symbol: Option<String>,
}

/// The active symbol taken by value.
pub open spec fn active_of(s: Option<String>) -> Option<Seq<char>> {
    match s {
        Some(x) => Some(x@),
        None => None,
    }
}

impl IngestionState {
    pub fn new() -> (s: Self)
        ensures
            s.active_symbol is None,
    {
        IngestionState { active_symbol: None }
    }

    /// Decides what a command does and moves to the state after it:
    /// subscribing to the active symbol keeps everything, to another one
    /// switches; unsubscribing from the active symbol stops it; shutting down
    /// stops and exits.
    pub fn handle(&mut self, cmd: IngestCommand) -> (a: IngestionAction)
        ensures
            match cmd {
                IngestCommand::Subscribe(sym) => if active_of(old(self).active_symbol) == Some(sym@) {
                    a == IngestionAction::Keep && active_of(final(self).active_symbol) == active_of(old(self).active_symbol)
                } else {
                    a == IngestionAction::Switch(sym) && active_of(final(self).active_symbol) == Some(sym@)
                },
                IngestCommand::Unsubscribe(sym) => if active_of(old(self).active_symbol) == Some(sym@) {
                    a == IngestionAction::Stop && final(self).active_symbol is None
                } else {
                    a == IngestionAction::Keep && active_of(final(self).active_symbol) == active_of(old(self).active_symbol)
                },
                IngestCommand::Shutdown => a == IngestionAction::Exit && final(self).active_symbol is None,
            },
    {
        let active = match &self.active_symbol {
            Some(x) => match &cmd {
                IngestCommand::Subscribe(sym) => str_eq(x.as_str(), sym.as_str()),
                IngestCommand::Unsubscribe(sym) => str_eq(x.as_str(), sym.as_str()),
                IngestCommand::Shutdown => false,
            },
            None => false,
        };
        match cmd {
            IngestCommand::Subscribe(sym) => {
                if active {
                    IngestionAction::Keep
                } else {
                    self.active_symbol = Some(sym.clone());
                    IngestionAction::Switch(sym)
                }
            },
            IngestCommand::Unsubscribe(_) => {
                if active {
                    self.active_symbol = None;
                    IngestionAction::Stop
                } else {
                    IngestionAction::Keep
                }
            },
            IngestCommand::Shutdown => {
                self.active_symbol = None;
                IngestionAction::Exit
            },
        }
    }
}

/// Positions of the trade times `ts[0..n]` at most the end time.
pub open spec fn trades_up_to(ts: Seq<u64>, end_ms: u64, n: int) -> Seq<usize>
    decreases n,
{
    if n <= 0 {
        Seq::empty()
    } else {
        let rest = trades_up_to(ts, end_ms, n - 1);
        if ts[n - 1] <= end_ms {
            rest.push((n - 1) as usize)
        } else {
            rest
        }
    }
}

/// Paging through history trades for the nanosecond store, from a start
/// time up to an end time (in milliseconds); failed requests are retried
/// without limit.
#[derive(Debug, Clone, Copy, PartialEq, Eq, Structural)]
pub struct NsHistoryFetch {
    pub current_start: u64,
    pub end_time_ms: u64,
}

impl NsHistoryFetch {
    /// Fetching from `start_ms` up to `end_ms`.
    pub fn new(start_ms: u64, end_ms: u64) -> (f: Self)
        ensures
            f == (NsHistoryFetch { current_start: start_ms, end_time_ms: end_ms }),
    {
        NsHistoryFetch { current_start: start_ms, end_time_ms: end_ms }
    }

    /// Whether another page is to be asked for.
    pub fn wants_more(&self) -> (b: bool)
        ensures
            b == (self.current_start < self.end_time_ms),
    {
        self.current_start < self.end_time_ms
    }

    /// Takes in what a request brought: an empty page ends the fetch, else
    /// the start moves past the page's last trade (by one at least) and the
    /// trades up to the end time are kept; a failure is retried after a
    /// second.
    pub fn step(&mut self, ev: FetchEvent) -> (r: FetchStep)
        requires
            old(self).current_start < old(self).end_time_ms,
            ev matches FetchEvent::Page(ts) ==> (ts@.len() > 0 ==> ts@.last() < u64::MAX),
        ensures
            final(self).end_time_ms == old(self).end_time_ms,
            match ev {
                FetchEvent::Page(ts) => if ts@.len() == 0 {
                    r is Done && final(self).current_start == old(self).current_start
                } else {
                    &&& r matches FetchStep::Keep(k) && k@ == trades_up_to(ts@, old(self).end_time_ms, ts@.len() as int)
                    &&& final(self).current_start == if ts@.last() <= old(self).current_start {
                        old(self).current_start + 1
                    } else {
                        ts@.last() + 1
                    }
                },
                _ => r is Retry && final(self).current_start == old(self).current_start,
            },
    {
        match ev {
            FetchEvent::Page(ts) => {
                let n = ts.len();
                if n == 0 {
                    return FetchStep::Done;
                }
                let last = ts[n - 1];
                if last <= self.current_start {
                    self.current_start = self.current_start + 1;
                } else {
                    self.current_start = last + 1;
                }
                let mut keep: Vec<usize> = Vec::new();
                let mut i: usize = 0;
                while i < n
                    invariant
                        n == ts@.len(),
                        i <= n,
                        keep@ == trades_up_to(ts@, self.end_time_ms, i as int),
                    decreases n - i,
                {
                    if ts[i] <= self.end_time_ms {
                        keep.push(i);
                    }
                    i = i + 1;
                }
                FetchStep::Keep(keep)
            },
            _ => FetchStep::Retry,
        }
    }
}

} // verus!
