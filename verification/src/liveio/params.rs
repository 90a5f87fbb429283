//! What is taken off a tick and which calibration samples are let in.

use vstd::prelude::*;

verus! {

/// Settings for cleaning and calibration, which differ by platform.
#[derive(Clone, Copy, Debug, PartialEq, Eq, Structural)]
pub struct CleanParams {
    /// A tick that writes more bytes than this is dropped whole.
    pub burst_tick_bytes: u64,
    /// Bytes per second that an idle process is expected to write.
    pub base_noise_bps: u16,
    /// The most that the adaptive noise floor may take off one tick, in bytes.
    pub floor_cap_bytes: u32,
    /// Fewest bytes per token that a calibration sample may show.
    pub cal_min: u32,
    /// Most bytes per token that a calibration sample may show.
    pub cal_max: u32,
    /// Fewest tokens that a call must have to be a calibration sample.
    pub cal_min_tokens: u64,
    /// Bytes per token before any call has been measured.
    pub default_bpt: u32,
    /// Length of the window in which the first streamed bytes are looked for.
    pub detect_ms: i64,
    /// How long after its end a call is still being written to disk.
    pub cal_grace_ms: i64,
    /// How many times above or below the current coefficient a sample may lie;
    /// 0 lets every sample in.
    pub cal_outlier_ratio: u32,
}

impl CleanParams {
    /// Where write counters are synchronous: request bodies are bursts to drop,
    /// and a call is calibrated as soon as it ends.
    pub open spec fn windows_params() -> CleanParams {
        CleanParams {
            burst_tick_bytes: 100_000,
            base_noise_bps: 3_000,
            floor_cap_bytes: 2_000,
            cal_min: 100,
            cal_max: 6_000,
            cal_min_tokens: 300,
            default_bpt: 600,
            detect_ms: 2_500,
            cal_grace_ms: 0,
            cal_outlier_ratio: 0,
        }
    }

    /// Where bytes are counted when dirty pages reach the disk: bursts are the
    /// signal, idle processes write nothing, and a call is calibrated late.
    pub open spec fn macos_params() -> CleanParams {
        CleanParams {
            burst_tick_bytes: u64::MAX,
            base_noise_bps: 0,
            floor_cap_bytes: 2_000,
            cal_min: 100,
            cal_max: 12_000,
            cal_min_tokens: 300,
            default_bpt: 700,
            detect_ms: 2_500,
            cal_grace_ms: 15_000,
            cal_outlier_ratio: 3,
        }
    }

    /// The settings keep their windows within a day, and the prior in the range
    /// that samples are held to.
    pub open spec fn sound(self) -> bool {
        &&& 0 < self.cal_min <= self.default_bpt <= self.cal_max
        &&& 0 <= self.detect_ms <= 86_400_000
        &&& 0 <= self.cal_grace_ms <= 86_400_000
    }

    pub fn windows() -> (p: Self)
        ensures
            p == Self::windows_params(),
            p.sound(),
    {
        CleanParams {
            burst_tick_bytes: 100_000,
            base_noise_bps: 3_000,
            floor_cap_bytes: 2_000,
            cal_min: 100,
            cal_max: 6_000,
            cal_min_tokens: 300,
            default_bpt: 600,
            detect_ms: 2_500,
            cal_grace_ms: 0,
            cal_outlier_ratio: 0,
        }
    }

    pub fn macos() -> (p: Self)
        ensures
            p == Self::macos_params(),
            p.sound(),
    {
        CleanParams {
            burst_tick_bytes: u64::MAX,
            base_noise_bps: 0,
            floor_cap_bytes: 2_000,
            cal_min: 100,
            cal_max: 12_000,
            cal_min_tokens: 300,
            default_bpt: 700,
            detect_ms: 2_500,
            cal_grace_ms: 15_000,
            cal_outlier_ratio: 3,
        }
    }

    /// The settings for macOS, or those for every other system.
    pub fn platform(macos: bool) -> (p: Self)
        ensures
            p == (if macos {
                Self::macos_params()
            } else {
                Self::windows_params()
            }),
            p.sound(),
    {
        if macos {
            Self::macos()
        } else {
            Self::windows()
        }
    }
}

} // verus!
