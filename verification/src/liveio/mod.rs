//! Live speed, measured from the bytes that the CLI processes write.
//!
//! Each poll samples the bytes a process has written since it started. The
//! samples become ticks with the growth of tracked files and a noise floor taken
//! off; the ticks of a finished call tell how many bytes stand for a token; the
//! ticks of the last half minute, divided by that, are the speed shown. Both
//! sides read the same ticks, so what is taken off systematically cancels out.
//!
//! Amounts of bytes are held in thousandths of a byte.

pub mod calibration;
pub mod laws;
pub mod measure_laws;
pub mod params;
pub mod platform;
pub mod rings;
pub mod rows;
pub mod series_laws;
pub mod sessions;
pub mod state;
