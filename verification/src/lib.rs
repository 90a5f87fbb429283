//! The logic of a token-speed panel for the ZCode CLI: today's usage, the live
//! speed measured from the bytes its processes write, the window and its
//! remembered places, the snapshot guard and the updater.
//!
//! Every amount is held as an integer or as an exact fraction, so that each
//! decision has an exact contract. Reading the clock of the machine, the disk,
//! the processes and the network is left to the program around this library.

pub mod exact;
pub mod clock;
pub mod debug_log;
pub mod guard_laws;
pub mod json;
pub mod liveio;
pub mod metrics;
pub mod order;
pub mod panel;
pub mod paths;
pub mod snapshot_guard;
pub mod speed;
pub mod sums;
pub mod text;
pub mod text_laws;
pub mod updater;
pub mod updater_laws;
pub mod window;
pub mod window_laws;
