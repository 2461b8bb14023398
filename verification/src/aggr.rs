//! Aggregation of trades and candles into time buckets.

pub mod time;
