//! The shared-data chart architecture: what a chart needs, which charts have
//! moved to the shared data path, and how requests for the same data are
//! served once.

pub mod sharing;
pub mod unified;
