//! The live measurement: what it keeps from poll to poll, and what each poll
//! shows.

use std::collections::VecDeque;
use vstd::hash_set::StringHashSet;
use vstd::prelude::*;

use crate::exact;
use crate::exact::Amount;
use crate::metrics::call::Call;
use crate::metrics::inflight;
use crate::speed;
use crate::speed::{ByteRate, Speed};

use super::calibration;
use super::calibration::Bpt;
use super::params::CleanParams;
use super::rings;
use super::rings::{ProcRing, Ring};
use super::rows;
use super::rows::TickRow;
use super::sessions;
use super::sessions::SessionTable;

verus! {

/// The window over which the current speed is taken.
pub const WINDOW_MS: i64 = 30_000;

/// How often the processes are looked up again, in nanoseconds.
pub const REFRESH_EVERY_NS: u64 = 30_000_000_000;

/// How often they are looked up while none is known, in nanoseconds.
pub const QUICK_REFRESH_NS: u64 = 2_000_000_000;

/// From this many bytes per second on a process streams.
pub const STREAMING_BPS: i128 = 4_000;

/// The most milliseconds that the ticks of all processes may add up to.
const SPAN_LIMIT_MS: i128 = 0x1000_0000_0000_0000_0000_0000_0000;

/// A finished call that could not be calibrated in this time is given up.
pub const PENDING_LIMIT_MS: i64 = 120_000;

/// No more of a call's generation than this is looked back at.
pub const LOOK_BACK_MS: i64 = 300_000;

/// A call must have seen more raw bytes than this to tell its process.
pub const OWNER_BYTES: u128 = 20_000;

/// How many calibration samples the coefficient is the median of.
pub const CAL_SAMPLES: usize = 5;

/// How many finished calls may wait for calibration.
pub const PENDING_CALLS: usize = 8;

/// How many calls are remembered as attributed before starting over.
pub const ATTRIBUTED_LIMIT: usize = 4_000;

/// A generation time below this counts as this.
pub const MIN_GEN_MS: i64 = 50;

/// What is shown of the live measurement.
#[derive(Debug, PartialEq, Eq)]
pub struct LiveNow {
    /// Whether there is any process to measure.
    pub available: bool,
    pub streaming: bool,
    /// Streaming, but for less than the whole window yet.
    pub ramping: bool,
    /// Running, but without its first byte, for no longer than the hint lasts.
    pub awaiting: bool,
    pub tps: Speed,
    /// The cleaned rate of the pipe.
    pub pipe: ByteRate,
}

/// What is shown, in tokens and bytes per second.
pub struct Shown {
    pub available: bool,
    pub streaming: bool,
    pub ramping: bool,
    pub awaiting: bool,
    pub tps: real,
    pub pipe: real,
}

impl View for LiveNow {
    type V = Shown;

    open spec fn view(&self) -> Shown {
        Shown {
            available: self.available,
            streaming: self.streaming,
            ramping: self.ramping,
            awaiting: self.awaiting,
            tps: self.tps.value(),
            pipe: self.pipe.value(),
        }
    }
}

/// How the calibration of one finished call went.
#[derive(Debug)]
pub struct CalEvent {
    pub id: String,
    pub session: String,
    pub completed_ms: i64,
    /// Tokens over generation time, as the call itself tells.
    pub true_tps: Speed,
    pub gen_ms: i64,
    pub eff: u64,
    /// Bytes that all processes wrote meanwhile.
    pub raw_bytes: u128,
    /// Cleaned bytes of the call, in thousandths.
    pub clean_millibytes: Amount,
    /// The sample of the call, 0 where it was not taken.
    pub bpt_sample: Bpt,
    /// The coefficient afterwards.
    pub bpt_now: Bpt,
    pub cal_skipped: bool,
    /// The process whose bytes were taken, where it was a single one.
    pub attr_pid: Option<u32>,
    /// The process that wrote most.
    pub top_pid: Option<u32>,
}

/// How a calibration went, in tokens per second, thousandths of a byte and bytes
/// per token.
pub struct Calibration {
    pub id: Seq<char>,
    pub session: Seq<char>,
    pub completed_ms: i64,
    pub true_tps: real,
    pub gen_ms: i64,
    pub eff: u64,
    pub raw_bytes: int,
    pub clean_millibytes: real,
    pub bpt_sample: real,
    pub bpt_now: real,
    pub cal_skipped: bool,
    pub attr_pid: Option<u32>,
    pub top_pid: Option<u32>,
}

impl View for CalEvent {
    type V = Calibration;

    open spec fn view(&self) -> Calibration {
        Calibration {
            id: self.id@,
            session: self.session@,
            completed_ms: self.completed_ms,
            true_tps: self.true_tps.value(),
            gen_ms: self.gen_ms,
            eff: self.eff,
            raw_bytes: self.raw_bytes as int,
            clean_millibytes: self.clean_millibytes.value(),
            bpt_sample: self.bpt_sample.value(),
            bpt_now: self.bpt_now.value(),
            cal_skipped: self.cal_skipped,
            attr_pid: self.attr_pid,
            top_pid: self.top_pid,
        }
    }
}

pub open spec fn event_of(e: Option<CalEvent>) -> Option<Calibration> {
    match e {
        Some(e) => Some(e@),
        None => None,
    }
}

/// What the measurement keeps, as a value of specifications.
pub struct LiveState {
    pub rings: Seq<Ring>,
    pub last_refresh: Option<u64>,
    pub files: Seq<(i64, u64)>,
    pub pending: Seq<Call>,
    /// The samples, in bytes per token.
    pub cal: Seq<real>,
    pub params: CleanParams,
    /// The coefficient, in bytes per token.
    pub bpt: real,
    /// The process of each session.
    pub owners: Map<Seq<char>, u32>,
    /// The session of the call that finished last.
    pub current: Option<Seq<char>>,
    /// The calls whose process has been looked for.
    pub attributed: Set<Seq<char>>,
    pub history_done: bool,
    /// The running call: its session, and when it began.
    pub inflight: Option<(Seq<char>, i64)>,
    /// When the running call was first seen to stream.
    pub active_since: Option<i64>,
    /// The process that `active_since` is about.
    pub active_pid: Option<u32>,
    pub event: Option<Calibration>,
    pub ever_saw_procs: bool,
}

/// The live measurement.
pub struct LiveIo {
    procs: Vec<ProcRing>,
    last_refresh: Option<u64>,
    files_hist: Vec<(i64, u64)>,
    pending: VecDeque<Call>,
    cal: VecDeque<Bpt>,
    params: CleanParams,
    bytes_per_token: Bpt,
    session_pid: SessionTable,
    current_session: Option<String>,
    attributed: StringHashSet,
    history_done: bool,
    inflight: Option<(String, i64)>,
    active_since: Option<i64>,
    active_pid: Option<u32>,
    pending_cal: Option<CalEvent>,
    ever_saw_procs: bool,
}

pub open spec fn text_of(s: Option<String>) -> Option<Seq<char>> {
    match s {
        Some(s) => Some(s@),
        None => None,
    }
}

impl View for LiveIo {
    type V = LiveState;

    closed spec fn view(&self) -> LiveState {
        LiveState {
            rings: rings::rings_of(self.procs@),
            last_refresh: self.last_refresh,
            files: self.files_hist@,
            pending: self.pending@,
            cal: calibration::values_of(self.cal@),
            params: self.params,
            bpt: self.bytes_per_token.value(),
            owners: self.session_pid@,
            current: text_of(self.current_session),
            attributed: self.attributed@,
            history_done: self.history_done,
            inflight: inflight::inflight_view(self.inflight),
            active_since: self.active_since,
            active_pid: self.active_pid,
            event: event_of(self.pending_cal),
            ever_saw_procs: self.ever_saw_procs,
        }
    }
}

impl LiveState {
    /// What holds of the samples and the coefficient at all times: the prior comes
    /// first until two samples stand beside it, and every sample is in range.
    pub open spec fn calibration_ok(self) -> bool {
        &&& 0 < self.cal.len() <= CAL_SAMPLES
        &&& self.cal.len() <= 2 ==> self.cal[0] == prior_of(self.params)
        &&& forall|i: int|
            0 <= i < self.cal.len() ==> calibration::bounded(#[trigger] self.cal[i], self.params)
        &&& self.bpt == calibration::coefficient(self.cal)
    }

    /// What holds of the measurement at all times.
    pub open spec fn valid(self) -> bool {
        &&& rings::rings_ok(self.rings)
        &&& rings::kept_series(self.files)
        &&& self.params.sound()
        &&& self.calibration_ok()
        &&& self.pending.len() <= PENDING_CALLS
        &&& forall|i: int|
            0 <= i < self.pending.len() ==> (#[trigger] self.pending[i]).effective() <= u64::MAX
    }

    /// A measurement that has seen nothing yet.
    pub open spec fn fresh(p: CleanParams) -> LiveState {
        LiveState {
            rings: Seq::empty(),
            last_refresh: None,
            files: Seq::empty(),
            pending: Seq::empty(),
            cal: seq![prior_of(p)],
            params: p,
            bpt: prior_of(p),
            owners: Map::empty(),
            current: None,
            attributed: Set::empty(),
            history_done: false,
            inflight: None,
            active_since: None,
            active_pid: None,
            event: None,
            ever_saw_procs: false,
        }
    }
}

/// The coefficient that the settings start from.
pub open spec fn prior_of(p: CleanParams) -> real {
    p.default_bpt as real
}

/// The nearest value of 64 bits.
pub open spec fn to_i64(x: int) -> i64 {
    if x > i64::MAX {
        i64::MAX
    } else if x < i64::MIN {
        i64::MIN
    } else {
        x as i64
    }
}

fn clamp_i64(x: i128) -> (r: i64)
    ensures
        r == to_i64(x as int),
{
    if x > i64::MAX as i128 {
        i64::MAX
    } else if x < i64::MIN as i128 {
        i64::MIN
    } else {
        x as i64
    }
}

/// When the output of a call was streamed: from its first token on.
pub open spec fn stream_start(c: Call) -> i64 {
    to_i64(rows::max_int(c.completed_ms - rows::min_int(c.gen_ms as int, LOOK_BACK_MS as int), 0))
}

/// Until when the output of a call was written.
pub open spec fn stream_end(c: Call, p: CleanParams) -> i64 {
    to_i64(c.completed_ms + p.cal_grace_ms)
}

/// The processes of the sessions after call `c` has been looked at for the first
/// time: its session belongs to the process that wrote most, if enough was
/// written.
pub open spec fn owners_after(s: LiveState, c: Call) -> Map<Seq<char>, u32> {
    let (from, to) = (stream_start(c), stream_end(c, s.params));
    let top = rings::top_pid(s.rings, from, to);
    if !s.attributed.contains(c.id@) && rings::raw_total(s.rings, from, to) > OWNER_BYTES && top is Some {
        s.owners.insert(c.session@, top->0)
    } else {
        s.owners
    }
}

/// The calls that have been looked at, with `c`; too many are forgotten.
pub open spec fn attributed_after(s: LiveState, c: Call) -> Set<Seq<char>> {
    if s.attributed.contains(c.id@) {
        s.attributed
    } else if s.attributed.insert(c.id@).len() > ATTRIBUTED_LIMIT {
        Set::empty()
    } else {
        s.attributed.insert(c.id@)
    }
}

/// The single process whose bytes are taken for a call of `session`, where its
/// owner still runs.
pub open spec fn owner_running(rings: Seq<Ring>, owners: Map<Seq<char>, u32>, session: Seq<char>) -> Option<u32> {
    if owners.contains_key(session) && rings::has_pid(rings, owners[session]) {
        Some(owners[session])
    } else {
        None
    }
}

/// The cleaned bytes of call `c`: those of its process, or of all of them.
pub open spec fn clean_of(s: LiveState, c: Call, owner: Option<u32>) -> real {
    let (from, to) = (stream_start(c), stream_end(c, s.params));
    match owner {
        Some(pid) => rings::pid_span(s.rings, s.files, s.params, pid, from, to).0,
        None => rings::total_span(s.rings, s.files, s.params, from, to).0,
    }
}

/// The measurement after the first waiting call has been calibrated.
pub open spec fn settled(s: LiveState) -> LiveState {
    let c = s.pending[0];
    let (from, to) = (stream_start(c), stream_end(c, s.params));
    let owners = owners_after(s, c);
    let owner = owner_running(s.rings, owners, c.session@);
    let clean = clean_of(s, c, owner);
    let raw = rings::raw_total(s.rings, from, to);
    let eff = c.effective() as u64;
    let taken = calibration::sample_taken(eff, clean, raw, s.bpt, s.params);
    let sample = if taken {
        calibration::per_token(clean, eff)
    } else {
        0 as real
    };
    let cal = if taken {
        calibration::slid(s.cal, sample, CAL_SAMPLES as int)
    } else {
        s.cal
    };
    let bpt = if taken {
        calibration::coefficient(cal)
    } else {
        s.bpt
    };
    LiveState {
        pending: s.pending.drop_first(),
        owners,
        attributed: attributed_after(s, c),
        cal,
        bpt,
        event: Some(
            Calibration {
                id: c.id@,
                session: c.session@,
                completed_ms: c.completed_ms,
                true_tps: exact::ratio(
                    1000 * eff,
                    rows::max_int(c.gen_ms as int, MIN_GEN_MS as int),
                ),
                gen_ms: c.gen_ms,
                eff,
                raw_bytes: raw,
                clean_millibytes: clean,
                bpt_sample: sample,
                bpt_now: bpt,
                cal_skipped: !taken,
                attr_pid: owner,
                top_pid: rings::top_pid(s.rings, from, to),
            },
        ),
        ..s
    }
}

/// The measurement after every waiting call that is due has been calibrated: one
/// that has waited too long is dropped, and one that is still being written to
/// disk holds up those behind it.
pub open spec fn calibrated(s: LiveState, now_ms: i64) -> LiveState
    decreases s.pending.len(),
{
    if s.pending.len() == 0 {
        s
    } else {
        let waited = now_ms - s.pending[0].completed_ms;
        if waited > PENDING_LIMIT_MS {
            calibrated(LiveState { pending: s.pending.drop_first(), ..s }, now_ms)
        } else if s.params.cal_grace_ms > 0 && waited < s.params.cal_grace_ms {
            s
        } else {
            calibrated(settled(s), now_ms)
        }
    }
}

/// The session of the running call.
pub open spec fn running_session(s: LiveState) -> Option<Seq<char>> {
    match s.inflight {
        Some((session, _)) => Some(session),
        None => None,
    }
}

/// The measurement after a round of readings of the processes and of the tracked
/// files. Sessions of processes that are gone are forgotten, save that of the
/// running call.
pub open spec fn observed(
    s: LiveState,
    now_ms: i64,
    readings: Seq<(u32, u64)>,
    files_total: u64,
) -> LiveState {
    let now_rings = rings::sampled(s.rings, readings, now_ms);
    LiveState {
        rings: now_rings,
        files: rings::extended(s.files, (now_ms, files_total)),
        owners: sessions::surviving(
            s.owners,
            rings::pids_of(now_rings).to_set(),
            running_session(s),
        ),
        ..s
    }
}

/// The process of the running call's session, where it is known; while no call
/// runs, that of the session of the call that finished last.
pub open spec fn live_pid(s: LiveState) -> Option<u32> {
    match s.inflight {
        Some((session, _)) => s.owners.get(session),
        None => match s.current {
            Some(session) => s.owners.get(session),
            None => None,
        },
    }
}

/// Bytes and time of the shown stream since `from_ms`: of the live process, or of
/// all processes where none is known.
pub open spec fn live_span(s: LiveState, from_ms: i64, now_ms: i64) -> (real, int) {
    match live_pid(s) {
        Some(pid) => rings::pid_span(s.rings, s.files, s.params, pid, from_ms, now_ms),
        None => rings::total_span(s.rings, s.files, s.params, from_ms, now_ms),
    }
}

/// Whether more than [`STREAMING_BPS`] came in just now.
pub open spec fn flowing(s: LiveState, now_ms: i64) -> bool {
    let (bytes, ms) = live_span(s, (now_ms - s.params.detect_ms) as i64, now_ms);
    ms > 0 && bytes > (STREAMING_BPS * ms) as real
}

/// Whether the process of the running call is known and gone.
pub open spec fn process_gone(s: LiveState) -> bool {
    match s.inflight {
        Some((session, _)) => s.owners.contains_key(session) && !rings::has_pid(s.rings, s.owners[session]),
        None => false,
    }
}

/// Whether a call is being generated: one runs and its process is there; or,
/// before any call is known, bytes come in.
pub open spec fn generating(s: LiveState, now_ms: i64) -> bool {
    &&& !process_gone(s)
    &&& s.inflight is Some || (s.current is None && flowing(s, now_ms))
}

/// Since when the call has been seen to stream by the polls before; another
/// process starts over.
pub open spec fn held_anchor(s: LiveState) -> Option<i64> {
    if live_pid(s) == s.active_pid {
        s.active_since
    } else {
        None
    }
}

/// Whether this is the poll that first sees the call stream.
pub open spec fn first_seen(s: LiveState, now_ms: i64) -> bool {
    generating(s, now_ms) && held_anchor(s) is None && flowing(s, now_ms)
}

/// Since when the running call is seen to stream.
pub open spec fn anchor(s: LiveState, now_ms: i64) -> Option<i64> {
    if !generating(s, now_ms) {
        None
    } else if first_seen(s, now_ms) {
        Some(now_ms)
    } else {
        held_anchor(s)
    }
}

/// The bytes per second of a span; never less than nothing.
pub open spec fn rate_of(span: (real, int)) -> real {
    if span.1 > 0 {
        Amount::max_zero(span.0) / (span.1 as real)
    } else {
        0 as real
    }
}

/// When the poll before this one was, or now where there was none.
pub open spec fn poll_before(s: LiveState, now_ms: i64) -> i64 {
    if s.files.len() >= 2 {
        s.files[s.files.len() - 2].0
    } else {
        now_ms
    }
}

/// What is read in the poll that first sees the call stream: the tick since the
/// poll before, which brought the first bytes. Where they came earlier, while no
/// call was known to run, it is the span in which they were found.
pub open spec fn first_span(s: LiveState, now_ms: i64) -> (real, int) {
    let tick = live_span(s, poll_before(s, now_ms), now_ms);
    if tick.0 > 0 as real && tick.1 > 0 {
        tick
    } else {
        live_span(s, (now_ms - s.params.detect_ms) as i64, now_ms)
    }
}

/// The rate of the pipe over the part of the window that the call has streamed.
/// The first bytes are read in the very poll that sees them.
pub open spec fn pipe_rate(s: LiveState, now_ms: i64) -> real {
    if first_seen(s, now_ms) {
        rate_of(first_span(s, now_ms))
    } else {
        match anchor(s, now_ms) {
            Some(a) => rate_of(
                live_span(s, rows::max_int(a as int, now_ms - WINDOW_MS) as i64, now_ms),
            ),
            None => 0 as real,
        }
    }
}

/// What is shown of a measurement.
pub open spec fn shown(s: LiveState, now_ms: i64) -> Shown {
    let streaming = generating(s, now_ms);
    let since = anchor(s, now_ms);
    let pipe = pipe_rate(s, now_ms);
    Shown {
        available: s.rings.len() > 0,
        streaming,
        ramping: streaming && (since is None || now_ms - since->0 < WINDOW_MS),
        awaiting: streaming && since is None && (match s.inflight {
            Some((_, began)) => now_ms - began <= calibration::TTFT_HINT_MS,
            None => false,
        }),
        tps: if streaming {
            speed::tokens_per_second(pipe, s.bpt)
        } else {
            0 as real
        },
        pipe,
    }
}

/// What one poll makes of the measurement.
pub open spec fn measured(
    s: LiveState,
    now_ms: i64,
    readings: Seq<(u32, u64)>,
    files_total: u64,
) -> (LiveState, Shown) {
    let t = calibrated(observed(s, now_ms, readings, files_total), now_ms);
    (
        LiveState { active_since: anchor(t, now_ms), active_pid: live_pid(t), ..t },
        shown(t, now_ms),
    )
}

fn rate(span: &(Amount, i128)) -> (r: ByteRate)
    ensures
        r.value() == rate_of((span.0.value(), span.1 as int)),
{
    if span.1 > 0 {
        ByteRate { millibytes: span.0.or_zero(), ms: span.1 as u128 }
    } else {
        ByteRate::none()
    }
}

impl LiveIo {
    /// The measurement for macOS, or for every other system.
    pub fn new(macos: bool) -> (io: Self)
        ensures
            io@ == LiveState::fresh(
                if macos {
                    CleanParams::macos_params()
                } else {
                    CleanParams::windows_params()
                },
            ),
            io@.valid(),
    {
        let params: CleanParams = CleanParams::platform(macos);
        let prior: Bpt = Bpt::prior(&params);
        let mut cal: VecDeque<Bpt> = VecDeque::new();
        cal.push_back(prior.clone());
        let io = LiveIo {
            procs: Vec::new(),
            last_refresh: None,
            files_hist: Vec::new(),
            pending: VecDeque::new(),
            cal,
            params,
            bytes_per_token: prior,
            session_pid: SessionTable::new(),
            current_session: None,
            attributed: StringHashSet::new(),
            history_done: false,
            inflight: None,
            active_since: None,
            active_pid: None,
            pending_cal: None,
            ever_saw_procs: false,
        };
        proof {
            assert(io@.rings =~= Seq::empty());
            assert(io@.files =~= Seq::empty());
            assert(io@.pending =~= Seq::empty());
            assert(io@.cal =~= seq![prior.value()]);
        }
        io
    }

    /// Whether the processes are to be looked up again at `now_ns` on the
    /// monotonic clock.
    pub fn refresh_due(&self, now_ns: u64) -> (r: bool)
        ensures
            r == (match self@.last_refresh {
                Some(t) => now_ns - t > REFRESH_EVERY_NS || (self@.rings.len() == 0 && now_ns - t
                    > QUICK_REFRESH_NS),
                None => true,
            }),
            self@.last_refresh matches Some(t) ==> {
                &&& now_ns > t + 30_000_000_000 ==> r
                &&& now_ns <= t + 30_000_000_000 && self@.rings.len() > 0 ==> !r
                &&& self@.rings.len() == 0 ==> (r <==> now_ns > t + 2_000_000_000)
            },
    {
        match self.last_refresh {
            Some(t) => {
                let passed: u64 = now_ns.saturating_sub(t);
                passed > REFRESH_EVERY_NS || (self.procs.len() == 0 && passed > QUICK_REFRESH_NS)
            },
            None => true,
        }
    }

    /// Takes in a look at the system: the processes that were found, and those of
    /// them that could be opened.
    pub fn refresh(&mut self, now_ns: u64, found: &[u32], opened: &[u32])
        requires
            old(self)@.valid(),
        ensures
            final(self)@.valid(),
            ({
                let now_rings = rings::refreshed(old(self)@.rings, found@, opened@);
                final(self)@ == (LiveState {
                    rings: now_rings,
                    last_refresh: Some(now_ns),
                    ever_saw_procs: old(self)@.ever_saw_procs || now_rings.len() > 0,
                    ..old(self)@
                })
            }),
    {
        let mut procs: Vec<ProcRing> = Vec::new();
        std::mem::swap(&mut procs, &mut self.procs);
        let procs: Vec<ProcRing> = rings::refresh(procs, found, opened);
        if procs.len() > 0 {
            self.ever_saw_procs = true;
        }
        self.procs = procs;
        self.last_refresh = Some(now_ns);
    }

    /// The processes that are measured.
    pub fn pids(&self) -> (v: Vec<u32>)
        ensures
            v@ == rings::pids_of(self@.rings),
    {
        rings::pids(&self.procs)
    }

    /// Calibrates the first waiting call.
    fn settle(&mut self, all: &Vec<Vec<TickRow>>)
        requires
            old(self)@.valid(),
            old(self)@.pending.len() > 0,
            rings::cleaned(all@, old(self)@.rings, old(self)@.files, old(self)@.params),
        ensures
            final(self)@ == settled(old(self)@),
            final(self)@.valid(),
    {
        let ghost before = self@;
        let call: Call = match self.pending.pop_front() {
            Some(c) => c,
            None => {
                return;
            },
        };
        let ghost c = before.pending[0];
        assert(call == c);
        assert(c.effective() <= u64::MAX);
        let back: i64 = if call.gen_ms < LOOK_BACK_MS {
            call.gen_ms
        } else {
            LOOK_BACK_MS
        };
        let began: i128 = call.completed_ms as i128 - back as i128;
        let from_ms: i64 = clamp_i64(if began > 0 { began } else { 0 });
        let to_ms: i64 = clamp_i64(call.completed_ms as i128 + self.params.cal_grace_ms as i128);
        let (raw, top_pid): (u128, Option<u32>) = rings::raw_written(&self.procs, from_ms, to_ms);
        if !self.attributed.contains(call.id.as_str()) {
            let _ = self.attributed.insert(call.id.clone());
            if self.attributed.len() > ATTRIBUTED_LIMIT {
                self.attributed.clear();
            }
            if raw > OWNER_BYTES {
                if let Some(pid) = top_pid {
                    self.session_pid.insert(call.session.clone(), pid);
                }
            }
        }
        assert(self@.owners == owners_after(before, c));
        assert(self@.attributed == attributed_after(before, c));
        let attr_pid: Option<u32> = match self.session_pid.get(call.session.as_str()) {
            Some(pid) => if rings::find(&self.procs, pid).is_some() {
                Some(pid)
            } else {
                None
            },
            None => None,
        };
        assert(attr_pid == owner_running(before.rings, owners_after(before, c), c.session@));
        let clean: Amount = match attr_pid {
            Some(pid) => rings::span_pid(
                &self.procs,
                all,
                Ghost(self.files_hist@),
                &self.params,
                pid,
                from_ms,
                to_ms,
            ).0,
            None => rings::span_all(
                &self.procs,
                all,
                Ghost(self.files_hist@),
                &self.params,
                from_ms,
                to_ms,
            ).0,
        };
        let eff: u64 = call.effective_out();
        let gen: i64 = if call.gen_ms > MIN_GEN_MS {
            call.gen_ms
        } else {
            MIN_GEN_MS
        };
        let true_tps: Speed = Speed::from_tokens(eff, gen as u64);
        let (taken, found): (bool, Bpt) = calibration::cal_sample(
            eff,
            &clean,
            raw,
            &self.bytes_per_token,
            &self.params,
        );
        let sample: Bpt = if taken {
            found
        } else {
            Bpt::nothing()
        };
        if taken {
            let median: Bpt = calibration::median_bpt(&mut self.cal, sample.clone(), CAL_SAMPLES);
            self.bytes_per_token = if self.cal.len() <= 2 {
                self.cal[0].clone()
            } else {
                median
            };
        }
        self.pending_cal =
        Some(
            CalEvent {
                id: call.id,
                session: call.session,
                completed_ms: call.completed_ms,
                true_tps,
                gen_ms: call.gen_ms,
                eff,
                raw_bytes: raw,
                clean_millibytes: clean,
                bpt_sample: sample,
                bpt_now: self.bytes_per_token.clone(),
                cal_skipped: !taken,
                attr_pid,
                top_pid,
            },
        );
        proof {
            assert(self@.pending =~= before.pending.drop_first());
        }
    }

    /// Calibrates every waiting call that is due.
    fn calibrate(&mut self, now_ms: i64, all: &Vec<Vec<TickRow>>)
        requires
            old(self)@.valid(),
            rings::cleaned(all@, old(self)@.rings, old(self)@.files, old(self)@.params),
        ensures
            final(self)@ == calibrated(old(self)@, now_ms),
            final(self)@.valid(),
    {
        let ghost goal = calibrated(self@, now_ms);
        while self.pending.len() > 0
            invariant_except_break
                calibrated(self@, now_ms) == goal,
            invariant
                self@.valid(),
                rings::cleaned(all@, self@.rings, self@.files, self@.params),
            ensures
                self@ == goal,
            decreases self.pending.len(),
        {
            let ghost before = self@;
            assert(self.pending@ == before.pending);
            let waited: i128 = now_ms as i128 - self.pending[0].completed_ms as i128;
            if waited > PENDING_LIMIT_MS as i128 {
                let _ = self.pending.pop_front();
                assert(self@.pending =~= before.pending.drop_first());
                assert(self@ == (LiveState { pending: before.pending.drop_first(), ..before }));
            } else if self.params.cal_grace_ms > 0 && waited < self.params.cal_grace_ms as i128 {
                break;
            } else {
                self.settle(all);
            }
        }
    }

    /// Takes in a round of readings: see [`observed`].
    fn take_readings(&mut self, now_ms: i64, readings: &[(u32, u64)], files_total: u64)
        requires
            old(self)@.valid(),
            rows::time_ok(now_ms),
        ensures
            final(self)@ == observed(old(self)@, now_ms, readings@, files_total),
            final(self)@.valid(),
    {
        let mut procs: Vec<ProcRing> = Vec::new();
        std::mem::swap(&mut procs, &mut self.procs);
        self.procs = rings::sample(procs, readings, now_ms);
        rings::extend(&mut self.files_hist, (now_ms, files_total));
        let alive: Vec<u32> = rings::pids(&self.procs);
        match &self.inflight {
            Some((session, _)) => {
                self.session_pid.retain(&alive, Some(session.as_str()));
            },
            None => {
                self.session_pid.retain(&alive, None);
            },
        }
    }

    fn live_process(&self) -> (r: Option<u32>)
        ensures
            r == live_pid(self@),
    {
        match &self.inflight {
            Some((session, _)) => self.session_pid.get(session.as_str()),
            None => match &self.current_session {
                Some(session) => self.session_pid.get(session.as_str()),
                None => None,
            },
        }
    }

    fn span(&self, all: &Vec<Vec<TickRow>>, from_ms: i64, now_ms: i64) -> (sum: (Amount, i128))
        requires
            self@.valid(),
            rings::cleaned(all@, self@.rings, self@.files, self@.params),
        ensures
            (sum.0.value(), sum.1 as int) == live_span(self@, from_ms, now_ms),
            sum.1 >= 0,
            sum.1 <= SPAN_LIMIT_MS,
    {
        match self.live_process() {
            Some(pid) => rings::span_pid(
                &self.procs,
                all,
                Ghost(self.files_hist@),
                &self.params,
                pid,
                from_ms,
                now_ms,
            ),
            None => rings::span_all(
                &self.procs,
                all,
                Ghost(self.files_hist@),
                &self.params,
                from_ms,
                now_ms,
            ),
        }
    }

    fn is_gone(&self) -> (r: bool)
        ensures
            r == process_gone(self@),
    {
        match &self.inflight {
            Some((session, _)) => match self.session_pid.get(session.as_str()) {
                Some(pid) => rings::find(&self.procs, pid).is_none(),
                None => false,
            },
            None => false,
        }
    }

    /// One poll: takes in what was read of the processes and of the tracked files
    /// at `now_ms`, calibrates the calls that are due and tells what to show.
    pub fn measure(&mut self, now_ms: i64, readings: &[(u32, u64)], files_total: u64) -> (r: LiveNow)
        requires
            old(self)@.valid(),
            rows::time_ok(now_ms),
        ensures
            (final(self)@, r@) == measured(old(self)@, now_ms, readings@, files_total),
            final(self)@.valid(),
    {
        self.take_readings(now_ms, readings, files_total);
        let all: Vec<Vec<TickRow>> = rings::clean(&self.procs, &self.files_hist, &self.params);
        proof {
            lemma_calibrated_keeps(self@, now_ms);
        }
        self.calibrate(now_ms, &all);
        let ghost t = self@;
        let pid: Option<u32> = self.live_process();
        if pid != self.active_pid {
            self.active_pid = pid;
            self.active_since = None;
        }
        let lately: (Amount, i128) = self.span(&all, now_ms - self.params.detect_ms, now_ms);
        let flows: bool = lately.1 > 0 && lately.0.above((STREAMING_BPS * lately.1) as u128);
        assert(flows == flowing(t, now_ms));
        let streaming: bool = !self.is_gone() && (self.inflight.is_some() || (self.current_session.is_none()
            && flows));
        assert(streaming == generating(t, now_ms));
        let first: bool = streaming && self.active_since.is_none() && flows;
        assert(first == first_seen(t, now_ms));
        if first {
            self.active_since = Some(now_ms);
        }
        if !streaming {
            self.active_since = None;
        }
        assert(self.active_since == anchor(t, now_ms));
        let pipe: ByteRate = if first {
            let n: usize = self.files_hist.len();
            let before: i64 = if n >= 2 {
                self.files_hist[n - 2].0
            } else {
                now_ms
            };
            let tick: (Amount, i128) = self.span(&all, before, now_ms);
            if tick.0.above(0) && tick.1 > 0 {
                rate(&tick)
            } else {
                rate(&lately)
            }
        } else {
            match self.active_since {
                Some(a) => {
                    let from_ms: i64 = if a >= now_ms - WINDOW_MS {
                        a
                    } else {
                        now_ms - WINDOW_MS
                    };
                    rate(&self.span(&all, from_ms, now_ms))
                },
                None => ByteRate::none(),
            }
        };
        assert(pipe.value() == pipe_rate(t, now_ms));
        let ramping: bool = streaming && match self.active_since {
            Some(a) => (now_ms as i128 - a as i128) < WINDOW_MS as i128,
            None => true,
        };
        let began: Option<i64> = match &self.inflight {
            Some((_, b)) => Some(*b),
            None => None,
        };
        let awaiting: bool = streaming && calibration::awaiting_hint(began, self.active_since, now_ms);
        let tps: Speed = if streaming {
            Speed::Stream { pipe: pipe.clone(), bpt: self.bytes_per_token.clone() }
        } else {
            Speed::Zero
        };
        LiveNow { available: self.procs.len() > 0, streaming, ramping, awaiting, tps, pipe }
    }
}

/// The call that finished last; of several at once, the last of them.
pub open spec fn latest(calls: Seq<Call>) -> Option<Call>
    decreases calls.len(),
{
    if calls.len() == 0 {
        None
    } else {
        match latest(calls.drop_last()) {
            Some(c) => if c.completed_ms > calls.last().completed_ms {
                Some(c)
            } else {
                Some(calls.last())
            },
            None => Some(calls.last()),
        }
    }
}

/// The newest [`PENDING_CALLS`] calls.
pub open spec fn newest(calls: Seq<Call>) -> Seq<Call> {
    if calls.len() > PENDING_CALLS {
        calls.skip(calls.len() - PENDING_CALLS)
    } else {
        calls
    }
}

impl LiveIo {
    /// Takes in the calls that finished before the start, to know the current
    /// session.
    pub fn ingest_history(&mut self, calls: &[Call])
        ensures
            final(self)@ == (LiveState {
                current: (match latest(calls@) {
                    Some(c) => Some(c.session@),
                    None => old(self)@.current,
                }),
                history_done: true,
                ..old(self)@
            }),
    {
        let mut best: Option<usize> = None;
        let mut i: usize = 0;
        assert(calls@.take(0) =~= Seq::empty());
        while i < calls.len()
            invariant
                i <= calls@.len(),
                latest(calls@.take(i as int)) == (match best {
                    Some(k) => Some(calls@[k as int]),
                    None => None,
                }),
                best is Some ==> best->0 < calls@.len(),
            decreases calls.len() - i,
        {
            assert(calls@.take(i + 1).drop_last() =~= calls@.take(i as int));
            match best {
                Some(k) => {
                    if calls[k].completed_ms <= calls[i].completed_ms {
                        best = Some(i);
                    }
                },
                None => {
                    best = Some(i);
                },
            }
            i = i + 1;
        }
        assert(calls@.take(calls@.len() as int) =~= calls@);
        if let Some(k) = best {
            self.current_session = Some(calls[k].session.clone());
        }
        self.history_done = true;
    }

    /// Whether the calls from before the start have been taken in.
    pub fn history_done(&self) -> (r: bool)
        ensures
            r == self@.history_done,
    {
        self.history_done
    }

    /// Takes in calls that have just finished, to be calibrated by later polls.
    pub fn observe(&mut self, new_calls: &[Call])
        requires
            old(self)@.valid(),
            forall|i: int| 0 <= i < new_calls@.len() ==> (#[trigger] new_calls@[i]).effective() <= u64::MAX,
        ensures
            final(self)@ == (LiveState {
                pending: newest(old(self)@.pending + new_calls@),
                current: if new_calls@.len() > 0 {
                    Some(new_calls@.last().session@)
                } else {
                    old(self)@.current
                },
                ..old(self)@
            }),
            final(self)@.valid(),
    {
        let ghost before = self@;
        let mut i: usize = 0;
        while i < new_calls.len()
            invariant
                i <= new_calls@.len(),
                before == old(self)@,
                before.valid(),
                forall|j: int|
                    0 <= j < new_calls@.len() ==> (#[trigger] new_calls@[j]).effective() <= u64::MAX,
                self@ == (LiveState {
                    pending: newest(before.pending + new_calls@.take(i as int)),
                    current: if i > 0 {
                        Some(new_calls@[i - 1].session@)
                    } else {
                        before.current
                    },
                    ..before
                }),
                self@.valid(),
            decreases new_calls.len() - i,
        {
            self.pending.push_back(new_calls[i].clone());
            self.current_session = Some(new_calls[i].session.clone());
            if self.pending.len() > PENDING_CALLS {
                let _ = self.pending.pop_front();
            }
            proof {
                let old_all = before.pending + new_calls@.take(i as int);
                let now_all = before.pending + new_calls@.take(i + 1);
                assert(now_all =~= old_all.push(new_calls@[i as int]));
                assert(self@.pending =~= newest(now_all));
                assert forall|j: int| 0 <= j < self@.pending.len() implies (#[trigger] self@.pending[j]).effective()
                    <= u64::MAX by {
                    let k = j + now_all.len() - self@.pending.len();
                    assert(self@.pending[j] == now_all[k]);
                    if k < before.pending.len() {
                        assert(now_all[k] == before.pending[k]);
                    } else {
                        assert(now_all[k] == new_calls@[k - before.pending.len()]);
                    }
                }
            }
            i = i + 1;
        }
        assert(new_calls@.take(new_calls@.len() as int) =~= new_calls@);
    }

    /// Says whether a call runs now: its session, and when it began.
    pub fn set_inflight(&mut self, inflight: Option<(String, i64)>)
        ensures
            final(self)@ == (LiveState { inflight: inflight::inflight_view(inflight), ..old(self)@ }),
    {
        self.inflight = inflight;
    }

    /// The coefficient that is in force.
    pub fn bytes_per_token(&self) -> (b: Bpt)
        ensures
            b.value() == self@.bpt,
    {
        self.bytes_per_token.clone()
    }

    /// Whether any process was ever found.
    pub fn ever_saw_procs(&self) -> (r: bool)
        ensures
            r == self@.ever_saw_procs,
    {
        self.ever_saw_procs
    }

    /// Hands out the latest calibration, once.
    pub fn take_calibration(&mut self) -> (r: Option<CalEvent>)
        ensures
            event_of(r) == old(self)@.event,
            final(self)@ == (LiveState { event: None, ..old(self)@ }),
    {
        self.pending_cal.take()
    }
}

/// Calibration leaves the samples and the settings alone.
pub proof fn lemma_calibrated_keeps(s: LiveState, now_ms: i64)
    ensures
        calibrated(s, now_ms).rings == s.rings,
        calibrated(s, now_ms).files == s.files,
        calibrated(s, now_ms).params == s.params,
        calibrated(s, now_ms).inflight == s.inflight,
        calibrated(s, now_ms).current == s.current,
        calibrated(s, now_ms).active_since == s.active_since,
        calibrated(s, now_ms).active_pid == s.active_pid,
    decreases s.pending.len(),
{
    if s.pending.len() > 0 {
        let waited = now_ms - s.pending[0].completed_ms;
        if waited > PENDING_LIMIT_MS {
            lemma_calibrated_keeps(LiveState { pending: s.pending.drop_first(), ..s }, now_ms);
        } else if s.params.cal_grace_ms > 0 && waited < s.params.cal_grace_ms {
        } else {
            lemma_calibrated_keeps(settled(s), now_ms);
        }
    }
}

/// The latest call is one of the calls, and none finished after it; of several that
/// finished last, it is the last in the list.
pub proof fn latest_call_finished_last(calls: Seq<Call>)
    ensures
        latest(calls) is None <==> calls.len() == 0,
        latest(calls) matches Some(c) ==> exists|i: int|
            0 <= i < calls.len() && #[trigger] calls[i] == c && forall|j: int|
                0 <= j < calls.len() ==> (#[trigger] calls[j]).completed_ms <= c.completed_ms && (j > i
                    ==> calls[j].completed_ms < c.completed_ms),
    decreases calls.len(),
{
    if calls.len() > 0 {
        let front = calls.drop_last();
        latest_call_finished_last(front);
        let c = latest(calls)->0;
        let n = calls.len() - 1;
        if front.len() > 0 {
            let b = latest(front)->0;
            let k = choose|k: int|
                0 <= k < front.len() && #[trigger] front[k] == b && forall|j: int|
                    0 <= j < front.len() ==> (#[trigger] front[j]).completed_ms <= b.completed_ms && (j > k
                        ==> front[j].completed_ms < b.completed_ms);
            let i = if b.completed_ms > calls.last().completed_ms {
                k
            } else {
                n
            };
            assert(calls[i] == c);
            assert forall|j: int| 0 <= j < calls.len() implies (#[trigger] calls[j]).completed_ms
                <= c.completed_ms && (j > i ==> calls[j].completed_ms < c.completed_ms) by {
                if j < n {
                    assert(front[j] == calls[j]);
                }
            }
        } else {
            assert(calls[n] == c);
        }
    }
}

/// Of the calls that wait, the newest eight are kept, in their order.
pub proof fn newest_calls_wait(calls: Seq<Call>)
    ensures
        newest(calls).len() <= 8,
        calls.len() <= 8 ==> newest(calls) == calls,
        calls.len() > 8 ==> newest(calls) == calls.subrange(calls.len() - 8, calls.len() as int),
        calls.len() > 0 ==> newest(calls).len() > 0 && newest(calls).last() == calls.last(),
{
    if calls.len() > 8 {
        assert(newest(calls) =~= calls.subrange(calls.len() - 8, calls.len() as int));
    }
}

} // verus!
