//! Today's usage: the calls that finished, what they add up to, and whether one
//! is running now.

pub mod aggregate;
pub mod call;
pub mod engine;
pub mod figure_laws;
pub mod inflight;
pub mod laws;
