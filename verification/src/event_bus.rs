//! Vocabulary of the data layer's events: what kind of data moves, how
//! urgently, and how available it is.

use vstd::prelude::*;

verus! {

/// Kind of data being downloaded or updated.
#[derive(Debug, Clone, PartialEq, Eq)]
pub enum DataType {
    Tick,
    Kline { timeframe: Option<String> },
}

impl DataType {
    /// Short name of the kind: "tick" or "kline".
    pub fn as_str(&self) -> (r: &'static str)
        ensures
            r@ == match self {
                DataType::Tick => "tick"@,
                DataType::Kline { .. } => "kline"@,
            },
    {
        match self {
            DataType::Tick => "tick",
            DataType::Kline { .. } => "kline",
        }
    }
}

/// Urgency of a download, most urgent first.
#[derive(Debug, Clone, Copy, PartialEq, Eq, Structural, PartialOrd, Ord, Hash)]
pub enum DownloadPriority {
    /// Requested by the user.
    UserRequest,
    /// Fetched ahead of need.
    Preload,
    /// Background work.
    Background,
}

/// Rank of a priority: 0 for the most urgent.
pub open spec fn priority_rank(p: DownloadPriority) -> u8 {
    match p {
        DownloadPriority::UserRequest => 0,
        DownloadPriority::Preload => 1,
        DownloadPriority::Background => 2,
    }
}

impl DownloadPriority {
    /// Rank of the priority: 0 for a user request, 1 for a preload, 2 for
    /// background work.
    pub fn rank(&self) -> (r: u8)
        ensures
            r == priority_rank(*self),
    {
        match self {
            DownloadPriority::UserRequest => 0,
            DownloadPriority::Preload => 1,
            DownloadPriority::Background => 2,
        }
    }
}

/// How available the data of one symbol and day is.
#[derive(Debug, Clone, Copy, PartialEq, Eq, Structural, Hash)]
pub enum DataAvailability {
    /// In the cache.
    Available,
    /// Being downloaded.
    Downloading,
    /// Not published, or not yet.
    Unavailable,
    /// Cached in part only.
    Partial,
    /// Never checked.
    Unknown,
}

} // verus!
