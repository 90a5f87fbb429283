//! The debug log: when it is started over, what is cleaned up and when a line is
//! due.

use vstd::prelude::*;

use crate::text;
use crate::text_laws;

verus! {

/// A log longer than this is put aside and started over.
pub const DEBUG_LOG_MAX: u64 = 8_388_608;

/// How long a log that was put aside is kept, in nanoseconds.
pub const DEBUG_LOG_KEEP_NS: i128 = 604_800_000_000_000;

/// While nothing happens, a line is due this often, in nanoseconds.
pub const HEARTBEAT_NS: u64 = 30_000_000_000;

/// How much stands in the log, and when a line was last due.
#[derive(Clone, Copy, Debug, PartialEq, Eq, Structural)]
pub struct DebugLog {
    pub written: u64,
    /// On the monotonic clock, in nanoseconds.
    pub last_heartbeat: u64,
}

/// Whether a file is a log that was put aside longer ago than such are kept.
pub open spec fn outdated(name: Seq<char>, modified_ns: int, now_ns: int) -> bool {
    text::begins(name, "speed-panel-debug.jsonl."@) && modified_ns < now_ns - DEBUG_LOG_KEEP_NS
}

impl DebugLog {
    /// A log of which nothing is known yet.
    pub fn new(now_ns: u64) -> (l: Self)
        ensures
            l == (DebugLog { written: 0, last_heartbeat: now_ns }),
    {
        DebugLog { written: 0, last_heartbeat: now_ns }
    }

    /// Whether a file beside the log is to be removed: its name, when it was last
    /// changed and the present time, in nanoseconds.
    pub fn cleanup_rotated(name: &str, modified_ns: i128, now_ns: i128) -> (r: bool)
        ensures
            r == outdated(name@, modified_ns as int, now_ns as int),
    {
        now_ns >= i128::MIN + DEBUG_LOG_KEEP_NS && modified_ns < now_ns - DEBUG_LOG_KEEP_NS
            && text::starts_with(name, "speed-panel-debug.jsonl.")
    }

    /// Takes in how long the log is, where that could be read.
    pub fn reopen(&mut self, len: Option<u64>)
        ensures
            *final(self) == (DebugLog {
                written: (match len {
                    Some(n) => n,
                    None => old(self).written,
                }),
                ..*old(self)
            }),
    {
        if let Some(n) = len {
            self.written = n;
        }
    }

    /// Whether the log is to be put aside before the next line. If so it counts
    /// as empty from then on.
    pub fn rotate(&mut self) -> (r: bool)
        ensures
            r == (old(self).written > DEBUG_LOG_MAX),
            r <==> old(self).written > 8 * 1024 * 1024,
            *final(self) == (DebugLog {
                written: if r {
                    0
                } else {
                    old(self).written
                },
                ..*old(self)
            }),
    {
        if self.written > DEBUG_LOG_MAX {
            self.written = 0;
            true
        } else {
            false
        }
    }

    /// Counts a line of `len` bytes that was written, with its end.
    pub fn count(&mut self, len: u64)
        requires
            old(self).written + len + 1 <= u64::MAX,
        ensures
            *final(self) == (DebugLog { written: (old(self).written + len + 1) as u64, ..*old(self) }),
    {
        self.written = self.written + len + 1;
    }

    /// Whether a line on the present state is due: always while something happens,
    /// and now and then while nothing does.
    pub fn tick_due(&mut self, active: bool, now_ns: u64) -> (r: bool)
        ensures
            r == (active || now_ns - old(self).last_heartbeat > HEARTBEAT_NS),
            !active ==> (r <==> now_ns > old(self).last_heartbeat + 30_000_000_000),
            *final(self) == (DebugLog {
                last_heartbeat: if r {
                    now_ns
                } else {
                    old(self).last_heartbeat
                },
                ..*old(self)
            }),
    {
        let due: bool = active || now_ns.saturating_sub(self.last_heartbeat) > HEARTBEAT_NS;
        if due {
            self.last_heartbeat = now_ns;
        }
        due
    }
}

/// The log itself is never cleaned up, only what was put aside.
pub proof fn log_itself_is_kept(modified_ns: int, now_ns: int)
    ensures
        !outdated("speed-panel-debug.jsonl"@, modified_ns, now_ns),
{
    reveal_strlit("speed-panel-debug.jsonl");
    reveal_strlit("speed-panel-debug.jsonl.");
}

/// A log that was put aside, whatever its name ends in, is cleaned up once it was left
/// alone for more than a week.
pub proof fn old_logs_are_cleaned_up(end: Seq<char>, modified_ns: int, now_ns: int)
    ensures
        outdated("speed-panel-debug.jsonl."@ + end, modified_ns, now_ns) <==> modified_ns + 7 * 24 * 3_600 * 1_000_000_000
            < now_ns,
{
    text_laws::ends_of_a_text_are_its_parts(
        "speed-panel-debug.jsonl."@ + end,
        "speed-panel-debug.jsonl."@,
    );
}

/// No other file is.
pub proof fn other_files_are_kept(name: Seq<char>, modified_ns: int, now_ns: int)
    requires
        outdated(name, modified_ns, now_ns),
    ensures
        exists|end: Seq<char>| name == #[trigger] ("speed-panel-debug.jsonl."@ + end),
{
    text_laws::ends_of_a_text_are_its_parts(name, "speed-panel-debug.jsonl."@);
}

} // verus!
