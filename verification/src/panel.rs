//! What the panel shows: the figures of the day, with the live measurement laid
//! over them.

use vstd::prelude::*;

use crate::clock;
use crate::liveio::calibration::Bpt;
use crate::liveio::rows;
use crate::liveio::state;
use crate::liveio::state::{CalEvent, LiveIo, LiveNow, LiveState};
use crate::metrics::aggregate;
use crate::metrics::aggregate::{LiveSource, Snapshot};
use crate::metrics::call::Call;
use crate::metrics::engine;
use crate::metrics::engine::{Engine, UsageRow};
use crate::metrics::inflight;
use crate::metrics::inflight::SessionMessages;
use crate::speed::Speed;

verus! {

/// The curve with its last point replaced.
pub open spec fn with_tail(spark: Seq<Speed>, tail: Speed) -> Seq<Speed> {
    if spark.len() > 0 {
        spark.update(spark.len() - 1, tail)
    } else {
        spark
    }
}

/// What the live measurement decides of a snapshot.
pub struct Reading {
    pub current_tps: Speed,
    pub is_live: bool,
    pub is_estimating: bool,
    pub ramping: bool,
    pub is_starting: bool,
    pub live_source: LiveSource,
    /// The last point of the curve, where it is replaced.
    pub tail: Option<Speed>,
}

/// A call streams and is measured. Before its first byte it shows nothing; where
/// the pipe is silent and calls finished lately, it shows their speed as an
/// estimate; or else what is measured.
pub open spec fn streaming_reading(s: Snapshot, live: LiveNow) -> Reading {
    let silent = !live.awaiting && live.tps.value() < 1 as real && s.window_tps.value() > 0 as real;
    let current = if live.awaiting {
        Speed::Zero
    } else if silent {
        s.window_tps
    } else {
        live.tps
    };
    Reading {
        current_tps: current,
        is_live: true,
        is_estimating: silent,
        ramping: live.ramping,
        is_starting: live.awaiting,
        live_source: if silent {
            LiveSource::Window
        } else {
            LiveSource::Io
        },
        tail: Some(current),
    }
}

/// Nothing is generated.
pub open spec fn idle_reading(s: Snapshot, is_live: bool) -> Reading {
    Reading {
        current_tps: Speed::Zero,
        is_live,
        is_estimating: false,
        ramping: false,
        is_starting: s.is_starting,
        live_source: LiveSource::Idle,
        tail: Some(Speed::Zero),
    }
}

/// A call runs and no process was ever found: an estimate stays, and without one
/// the call is shown as starting.
pub open spec fn unmeasured_reading(s: Snapshot) -> Reading {
    if s.is_estimating && s.current_tps.value() > 0 as real {
        Reading {
            current_tps: s.current_tps,
            is_live: s.is_live,
            is_estimating: true,
            ramping: s.ramping,
            is_starting: s.is_starting,
            live_source: s.live_source,
            tail: None,
        }
    } else {
        Reading {
            current_tps: Speed::Zero,
            is_live: s.is_live,
            is_estimating: false,
            ramping: s.ramping,
            is_starting: true,
            live_source: LiveSource::Window,
            tail: Some(Speed::Zero),
        }
    }
}

/// What the live measurement makes of a snapshot: `running` says whether a call
/// runs, `ever_saw` whether any process was ever found.
pub open spec fn reading(s: Snapshot, live: LiveNow, running: bool, ever_saw: bool) -> Reading {
    if live.available {
        if live.streaming {
            streaming_reading(s, live)
        } else {
            idle_reading(s, s.is_live)
        }
    } else if running && !ever_saw {
        unmeasured_reading(s)
    } else {
        idle_reading(s, false)
    }
}

/// `after` is `before` with what the measurement decided.
pub open spec fn overlaid(before: Snapshot, after: Snapshot, r: Reading) -> bool {
    &&& after.current_tps == r.current_tps
    &&& after.is_live == r.is_live
    &&& after.is_estimating == r.is_estimating
    &&& after.ramping == r.ramping
    &&& after.is_starting == r.is_starting
    &&& after.live_source == r.live_source
    &&& after.spark@ == (match r.tail {
        Some(tail) => with_tail(before.spark@, tail),
        None => before.spark@,
    })
    &&& after == (Snapshot {
        current_tps: after.current_tps,
        is_live: after.is_live,
        is_estimating: after.is_estimating,
        ramping: after.ramping,
        is_starting: after.is_starting,
        live_source: after.live_source,
        spark: after.spark,
        ..before
    })
}

fn set_tail(spark: &mut Vec<Speed>, tail: Speed)
    ensures
        final(spark)@ == with_tail(old(spark)@, tail),
{
    let n: usize = spark.len();
    if n > 0 {
        spark.set(n - 1, tail);
    }
}

/// Lays the live measurement over a snapshot.
pub fn overlay(snapshot: Snapshot, live: &LiveNow, running: bool, ever_saw: bool) -> (s: Snapshot)
    ensures
        overlaid(snapshot, s, reading(snapshot, *live, running, ever_saw)),
{
    let mut s: Snapshot = snapshot;
    if live.available {
        if live.streaming {
            s.is_live = true;
            s.is_estimating = false;
            s.ramping = live.ramping;
            s.is_starting = live.awaiting;
            s.live_source = LiveSource::Io;
            if live.awaiting {
                s.current_tps = Speed::Zero;
            } else if live.tps.below_one() && s.window_tps.is_positive() {
                s.current_tps = s.window_tps.clone();
                s.is_estimating = true;
                s.live_source = LiveSource::Window;
            } else {
                s.current_tps = live.tps.clone();
            }
            let tail: Speed = s.current_tps.clone();
            set_tail(&mut s.spark, tail);
        } else {
            s.is_estimating = false;
            s.ramping = false;
            s.current_tps = Speed::Zero;
            s.live_source = LiveSource::Idle;
            set_tail(&mut s.spark, Speed::Zero);
        }
    } else if running && !ever_saw {
        if !(s.is_estimating && s.current_tps.is_positive()) {
            s.is_estimating = false;
            s.is_starting = true;
            s.current_tps = Speed::Zero;
            s.live_source = LiveSource::Window;
            set_tail(&mut s.spark, Speed::Zero);
        }
    } else {
        s.is_live = false;
        s.is_estimating = false;
        s.ramping = false;
        s.current_tps = Speed::Zero;
        s.live_source = LiveSource::Idle;
        set_tail(&mut s.spark, Speed::Zero);
    }
    s
}

/// The measurement after it was told of the day's calls, of those that have just
/// finished and of the one that runs.
pub open spec fn fed(
    s: LiveState,
    calls: Seq<Call>,
    new_calls: Seq<Call>,
    running: Option<(Seq<char>, i64)>,
) -> LiveState {
    let known = if s.history_done {
        s.current
    } else {
        match state::latest(calls) {
            Some(c) => Some(c.session@),
            None => s.current,
        }
    };
    LiveState {
        history_done: true,
        pending: state::newest(s.pending + new_calls),
        current: if new_calls.len() > 0 {
            Some(new_calls.last().session@)
        } else {
            known
        },
        inflight: running,
        ..s
    }
}

/// Tells the measurement of the calls and polls it.
pub fn advance(
    live: &mut LiveIo,
    calls: &[Call],
    new_calls: &[Call],
    running: Option<(String, i64)>,
    now_ms: i64,
    readings: &[(u32, u64)],
    files_total: u64,
) -> (r: LiveNow)
    requires
        old(live)@.valid(),
        rows::time_ok(now_ms),
        forall|i: int| 0 <= i < new_calls@.len() ==> (#[trigger] new_calls@[i]).effective() <= u64::MAX,
    ensures
        (final(live)@, r@) == state::measured(
            fed(old(live)@, calls@, new_calls@, inflight::inflight_view(running)),
            now_ms,
            readings@,
            files_total,
        ),
        final(live)@.valid(),
{
    if !live.history_done() {
        live.ingest_history(calls);
    }
    live.observe(new_calls);
    live.set_inflight(running);
    live.measure(now_ms, readings, files_total)
}

/// What one poll gives.
pub struct Payload {
    pub snapshot: Snapshot,
    /// The calls that were not known before.
    pub new_calls: Vec<Call>,
    /// The call that runs: its session, and when it began.
    pub running: Option<(String, i64)>,
    pub live: LiveNow,
    /// How the latest calibration went, where there was one.
    pub cal_event: Option<CalEvent>,
    /// The coefficient that is in force.
    pub bpt: Bpt,
}

/// One poll of everything: takes in the rows of the usage database, the newest
/// messages of the sessions, and what was read of the processes and the tracked
/// files; measures, and lays the measurement over the figures of the day.
pub fn build_payload(
    engine: &mut Engine,
    live: &mut LiveIo,
    today_start_ms: i64,
    usage: &[UsageRow],
    sessions: &[SessionMessages],
    readings: &[(u32, u64)],
    files_total: u64,
) -> (p: Payload)
    requires
        engine::rows_fit(old(engine).agg.calls@, old(engine).ingested@, usage@),
        old(live)@.valid(),
    ensures
        p.new_calls@ == engine::fresh_calls(old(engine).ingested@, usage@),
        final(engine).ingested@ == engine::known(old(engine).ingested@, usage@),
        final(engine).agg.calls@ == engine::finished_since(
            old(engine).agg.calls@ + p.new_calls@,
            today_start_ms,
        ),
        final(engine).agg.today_ymd == old(engine).agg.today_ymd,
        final(engine).db_path == old(engine).db_path,
        aggregate::totals_fit(final(engine).agg.calls@),
        0 <= p.snapshot.now_ms <= clock::CLOCK_LIMIT,
        exists|t: i64|
            0 <= t <= clock::CLOCK_LIMIT && #[trigger] inflight::is_latest_running(
                inflight::candidates_of(sessions@),
                t,
                inflight::inflight_view(p.running),
            ),
        ({
            let (after, shown) = state::measured(
                fed(
                    old(live)@,
                    final(engine).agg.calls@,
                    p.new_calls@,
                    inflight::inflight_view(p.running),
                ),
                p.snapshot.now_ms,
                readings@,
                files_total,
            );
            &&& p.live@ == shown
            &&& state::event_of(p.cal_event) == after.event
            &&& p.bpt.value() == after.bpt
            &&& final(live)@ == (LiveState { event: None, ..after })
            &&& exists|s: Snapshot|
                aggregate::shows(s, final(engine).agg.calls@, p.snapshot.now_ms) && s.rollout_dir@ == old(
                    engine,
                ).label() && #[trigger] overlaid(
                    s,
                    p.snapshot,
                    reading(s, p.live, p.running is Some, after.ever_saw_procs),
                )
        }),
        final(live)@.valid(),
{
    let new_calls: Vec<Call> = engine.poll(today_start_ms, usage);
    let figures: Snapshot = engine.snapshot();
    let running: Option<(String, i64)> = engine.call_in_flight(sessions);
    let told: Option<(String, i64)> = match &running {
        Some((session, began)) => Some((session.clone(), *began)),
        None => None,
    };
    let now: LiveNow = advance(
        live,
        engine.calls(),
        &new_calls,
        told,
        figures.now_ms,
        readings,
        files_total,
    );
    let cal_event: Option<CalEvent> = live.take_calibration();
    let ghost base = figures;
    let snapshot: Snapshot = overlay(figures, &now, running.is_some(), live.ever_saw_procs());
    assert(overlaid(base, snapshot, reading(base, now, running is Some, live@.ever_saw_procs)));
    Payload { snapshot, new_calls, running, live: now, cal_event, bpt: live.bytes_per_token() }
}

/// What the tray tells in one word.
#[derive(Clone, Copy, Debug, PartialEq, Eq, Structural)]
pub enum TrayState {
    Generating,
    Estimating,
    Idle,
}

impl TrayState {
    /// A call that runs is generating, with or without a first byte; an estimate
    /// comes next.
    pub open spec fn of_flags(is_live: bool, is_starting: bool, is_estimating: bool) -> TrayState {
        if is_live || is_starting {
            TrayState::Generating
        } else if is_estimating {
            TrayState::Estimating
        } else {
            TrayState::Idle
        }
    }

    pub fn of(s: &Snapshot) -> (t: TrayState)
        ensures
            t == TrayState::of_flags(s.is_live, s.is_starting, s.is_estimating),
    {
        if s.is_live || s.is_starting {
            TrayState::Generating
        } else if s.is_estimating {
            TrayState::Estimating
        } else {
            TrayState::Idle
        }
    }

    pub open spec fn name(self) -> Seq<char> {
        match self {
            TrayState::Generating => "生成中"@,
            TrayState::Estimating => "估算中"@,
            TrayState::Idle => "待机"@,
        }
    }

    pub fn word(self) -> (s: &'static str)
        ensures
            s@ == self.name(),
    {
        match self {
            TrayState::Generating => "生成中",
            TrayState::Estimating => "估算中",
            TrayState::Idle => "待机",
        }
    }
}

/// The text that the tray shows.
pub struct TrayText {
    pub last: String,
}

impl TrayText {
    pub fn new() -> (t: Self)
        ensures
            t.last@ == ""@,
    {
        TrayText { last: "".to_owned() }
    }

    /// Takes in a text and tells whether it is another one than before.
    pub fn update(&mut self, text: String) -> (changed: bool)
        ensures
            changed == (old(self).last@ != text@),
            final(self).last@ == text@,
    {
        if crate::text::same(self.last.as_str(), text.as_str()) {
            return false;
        }
        self.last = text;
        true
    }
}

/// A snapshot of the day on its own is neither live nor starting.
pub open spec fn unlit(s: Snapshot) -> bool {
    !s.is_live && !s.is_starting
}

/// Where processes are found and no call is generated, the panel is idle: no
/// estimate covers up what is measured.
pub proof fn measured_idle_is_shown_as_idle(s: Snapshot, live: LiveNow, running: bool, ever_saw: bool)
    requires
        unlit(s),
        live.available,
        !live.streaming,
    ensures
        ({
            let r = reading(s, live, running, ever_saw);
            &&& r.current_tps == Speed::Zero
            &&& !r.is_estimating
            &&& r.live_source == LiveSource::Idle
            &&& TrayState::of_flags(r.is_live, r.is_starting, r.is_estimating) == TrayState::Idle
        }),
{
}

/// Once the CLI has run and all of its processes are gone, the panel is idle.
pub proof fn closed_cli_is_shown_as_idle(s: Snapshot, live: LiveNow, running: bool)
    requires
        unlit(s),
        !live.available,
    ensures
        ({
            let r = reading(s, live, running, true);
            &&& r.current_tps == Speed::Zero
            &&& r.live_source == LiveSource::Idle
            &&& TrayState::of_flags(r.is_live, r.is_starting, r.is_estimating) == TrayState::Idle
        }),
{
}

/// Where no process was ever found, a call that runs is shown as an estimate or
/// as starting, and nothing is shown while none runs.
pub proof fn unmeasured_panel_follows_the_call(s: Snapshot, live: LiveNow)
    requires
        unlit(s),
        !live.available,
    ensures
        reading(s, live, false, false).current_tps == Speed::Zero,
        reading(s, live, false, false).live_source == LiveSource::Idle,
        reading(s, live, true, false).is_starting || (reading(s, live, true, false).is_estimating && reading(
            s,
            live,
            true,
            false,
        ).current_tps.value() > 0 as real),
{
}

/// A call that waits for its first byte is shown as starting, with no speed and
/// no estimate.
pub proof fn awaiting_call_shows_no_estimate(s: Snapshot, live: LiveNow, running: bool, ever_saw: bool)
    requires
        live.available,
        live.streaming,
        live.awaiting,
    ensures
        ({
            let r = reading(s, live, running, ever_saw);
            &&& r.is_starting
            &&& !r.is_estimating
            &&& r.current_tps == Speed::Zero
            &&& r.live_source == LiveSource::Io
        }),
{
}

/// A speed is marked as an estimate exactly where it does not come from the
/// stream.
pub proof fn estimates_are_marked(s: Snapshot, live: LiveNow, running: bool, ever_saw: bool)
    requires
        live.available,
        live.streaming,
    ensures
        ({
            let r = reading(s, live, running, ever_saw);
            r.is_estimating <==> r.live_source == LiveSource::Window
        }),
{
}

/// Laying the measurement over a snapshot leaves the curve as long as it was and
/// every point but the last where it was. The last point becomes the tail, where one
/// is given.
pub proof fn only_the_last_point_is_replaced(before: Snapshot, after: Snapshot, r: Reading)
    requires
        overlaid(before, after, r),
    ensures
        after.spark@.len() == before.spark@.len(),
        forall|k: int|
            0 <= k < before.spark@.len() - 1 ==> #[trigger] after.spark@[k] == before.spark@[k],
        before.spark@.len() > 0 && r.tail is Some ==> after.spark@.last() == r.tail->0,
        r.tail is None ==> after.spark@ == before.spark@,
{
}

/// The last point of the curve is what is shown as the current speed, save where an
/// estimate stands that nothing was measured against.
pub proof fn last_point_is_the_current_speed(
    before: Snapshot,
    after: Snapshot,
    live: LiveNow,
    running: bool,
    ever_saw: bool,
)
    requires
        overlaid(before, after, reading(before, live, running, ever_saw)),
        before.spark@.len() > 0,
    ensures
        live.available || !running || ever_saw || !before.is_estimating ==> after.spark@.last()
            == after.current_tps,
{
}

/// The measurement changes nothing of what the calls add up to.
pub proof fn measurement_leaves_the_totals(before: Snapshot, after: Snapshot, r: Reading)
    requires
        overlaid(before, after, r),
    ensures
        after.avg_tps == before.avg_tps,
        after.window_tps == before.window_tps,
        after.total_tokens == before.total_tokens,
        after.output_tokens == before.output_tokens,
        after.reasoning_tokens == before.reasoning_tokens,
        after.input_tokens == before.input_tokens,
        after.cache_creation_tokens == before.cache_creation_tokens,
        after.cache_read_tokens == before.cache_read_tokens,
        after.calls_today == before.calls_today,
        after.sessions_today == before.sessions_today,
        after.last_activity_ms == before.last_activity_ms,
        after.now_ms == before.now_ms,
        after.rollout_dir == before.rollout_dir,
{
}

/// What is measured of a stream is shown, unless it is less than a token per second
/// while calls finished lately: then their speed stands for it, as an estimate.
pub proof fn stream_is_shown_or_estimated(s: Snapshot, live: LiveNow, running: bool, ever_saw: bool)
    requires
        live.available,
        live.streaming,
        !live.awaiting,
    ensures
        ({
            let r = reading(s, live, running, ever_saw);
            &&& r.is_live && !r.is_starting && r.ramping == live.ramping
            &&& live.tps.value() >= 1 as real || s.window_tps.value() <= 0 as real ==> r.current_tps == live.tps
                && !r.is_estimating && r.live_source == LiveSource::Io
            &&& live.tps.value() < 1 as real && s.window_tps.value() > 0 as real ==> r.current_tps
                == s.window_tps && r.is_estimating && r.live_source == LiveSource::Window
        }),
{
}

/// Where no process was ever found, an estimate that stands is left as it is.
pub proof fn standing_estimate_is_left(s: Snapshot, after: Snapshot, live: LiveNow)
    requires
        !live.available,
        s.is_estimating,
        s.current_tps.value() > 0 as real,
        overlaid(s, after, reading(s, live, true, false)),
    ensures
        after.current_tps == s.current_tps,
        after.is_estimating,
        after.live_source == s.live_source,
        after.spark@ == s.spark@,
        after.is_starting == s.is_starting,
{
}

/// The measurement is told of the call that runs and of the calls that have just
/// finished, and of the day's calls once: the session of the newest one is the
/// current one.
pub proof fn measurement_is_told_of_the_calls(
    s: LiveState,
    calls: Seq<Call>,
    new_calls: Seq<Call>,
    running: Option<(Seq<char>, i64)>,
)
    ensures
        ({
            let t = fed(s, calls, new_calls, running);
            &&& t.inflight == running
            &&& t.history_done
            &&& new_calls.len() > 0 ==> t.current == Some(new_calls.last().session@)
            &&& s.pending.len() + new_calls.len() <= 8 ==> t.pending == s.pending + new_calls
            &&& s.pending.len() + new_calls.len() > 8 ==> t.pending.len() == 8 && t.pending == (s.pending
                + new_calls).skip(s.pending.len() + new_calls.len() - 8)
            &&& new_calls.len() == 0 && s.history_done ==> t.current == s.current
            &&& new_calls.len() == 0 && !s.history_done && calls.len() == 0 ==> t.current == s.current
            &&& new_calls.len() == 0 && !s.history_done && calls.len() > 0 ==> exists|i: int|
                0 <= i < calls.len() && t.current == Some((#[trigger] calls[i]).session@) && forall|j: int|
                    0 <= j < calls.len() ==> (#[trigger] calls[j]).completed_ms <= calls[i].completed_ms && (j > i
                        ==> calls[j].completed_ms < calls[i].completed_ms)
            &&& t == (LiveState {
                inflight: t.inflight,
                history_done: t.history_done,
                current: t.current,
                pending: t.pending,
                ..s
            })
        }),
{
    state::latest_call_finished_last(calls);
    state::newest_calls_wait(s.pending + new_calls);
}

/// The tray tells of a call that runs before it tells of an estimate, and of either
/// before it tells of none.
pub proof fn tray_tells_what_runs_first(is_live: bool, is_starting: bool, is_estimating: bool)
    ensures
        ({
            let t = TrayState::of_flags(is_live, is_starting, is_estimating);
            &&& t == TrayState::Generating <==> is_live || is_starting
            &&& t == TrayState::Estimating <==> !is_live && !is_starting && is_estimating
            &&& t == TrayState::Idle <==> !is_live && !is_starting && !is_estimating
        }),
{
}

/// While a stream is measured, the panel is live, and it tells whether the stream has
/// filled its window and whether it waits for its first byte. Its speed is shown, or
/// none while it waits, or that of the calls of late while it is silent.
pub proof fn measured_stream_is_what_is_shown(
    before: Snapshot,
    after: Snapshot,
    live: LiveNow,
    running: bool,
    ever_saw: bool,
)
    requires
        overlaid(before, after, reading(before, live, running, ever_saw)),
        live.available,
        live.streaming,
    ensures
        after.is_live,
        after.ramping == live.ramping,
        after.is_starting == live.awaiting,
        after.current_tps == (if live.awaiting {
            Speed::Zero
        } else if live.tps.value() < 1 as real && before.window_tps.value() > 0 as real {
            before.window_tps
        } else {
            live.tps
        }),
        after.is_estimating <==> !live.awaiting && live.tps.value() < 1 as real && before.window_tps.value()
            > 0 as real,
        after.is_estimating ==> after.live_source == LiveSource::Window,
        !after.is_estimating ==> after.live_source == LiveSource::Io,
{
}

/// Where no stream runs, no speed is shown and none is estimated. The panel stays live
/// only where the processes are there and it was.
pub proof fn idle_panel_shows_no_speed(
    before: Snapshot,
    after: Snapshot,
    live: LiveNow,
    running: bool,
    ever_saw: bool,
)
    requires
        overlaid(before, after, reading(before, live, running, ever_saw)),
        (live.available && !live.streaming) || (!live.available && (!running || ever_saw)),
    ensures
        after.current_tps == Speed::Zero,
        !after.is_estimating,
        !after.ramping,
        after.live_source == LiveSource::Idle,
        after.is_starting == before.is_starting,
        live.available ==> after.is_live == before.is_live,
        !live.available ==> !after.is_live,
        before.spark@.len() > 0 ==> after.spark@.last() == Speed::Zero,
{
}

/// A call that runs where no process was ever found is shown to start, unless an
/// estimate stands for it.
pub proof fn unmeasured_call_is_shown_to_start(before: Snapshot, after: Snapshot, live: LiveNow)
    requires
        overlaid(before, after, reading(before, live, true, false)),
        !live.available,
        !(before.is_estimating && before.current_tps.value() > 0 as real),
    ensures
        after.current_tps == Speed::Zero,
        after.is_starting,
        !after.is_estimating,
        after.is_live == before.is_live,
        after.ramping == before.ramping,
        after.live_source == LiveSource::Window,
        before.spark@.len() > 0 ==> after.spark@.last() == Speed::Zero,
{
}

} // verus!
