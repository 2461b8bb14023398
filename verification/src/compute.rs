//! Volume-profile computation: the dispatch plan of the histogram pass and
//! the reduction of its dense histogram to sparse bars, point of control and
//! value area.

pub mod vp;
