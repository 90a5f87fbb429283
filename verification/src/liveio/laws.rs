//! What holds of the measurement as a whole.

use vstd::prelude::*;

use crate::exact;
use crate::speed;

use super::calibration;
use super::params::CleanParams;
use super::rings;
use super::rings::Ring;
use super::rows;
use super::rows::TickRow;
use super::state;
use super::state::{LiveState, WINDOW_MS};

verus! {

/// What the ticks hold, whatever their signs.
pub open spec fn sum_of(r: Seq<TickRow>) -> (int, int)
    decreases r.len(),
{
    if r.len() == 0 {
        (0, 0)
    } else {
        let before = sum_of(r.drop_last());
        (before.0 + r.last().millibytes, before.1 + r.last().dt_ms)
    }
}

/// Over a span that covers all ticks the integral is their plain sum: a tick
/// below zero is set off against the others and never cut off at zero.
pub proof fn covering_span_sums_every_tick(r: Seq<TickRow>, from_ms: i64, to_ms: i64)
    requires
        forall|i: int|
            0 <= i < r.len() ==> (#[trigger] r[i]).dt_ms > 0 && from_ms <= r[i].end_ms - r[i].dt_ms
                && r[i].end_ms <= to_ms,
    ensures
        rows::integral(r, from_ms, to_ms) == (sum_of(r).0 as real, sum_of(r).1),
    decreases r.len(),
{
    if r.len() > 0 {
        let front = r.drop_last();
        assert forall|i: int| 0 <= i < front.len() implies (#[trigger] front[i]).dt_ms > 0 && from_ms
            <= front[i].end_ms - front[i].dt_ms && front[i].end_ms <= to_ms by {
            assert(front[i] == r[i]);
        }
        covering_span_sums_every_tick(front, from_ms, to_ms);
        let last = r[r.len() - 1];
        assert(last.dt_ms > 0);
        let (m, dt) = (last.millibytes as int, last.dt_ms as int);
        exact::lemma_ratio_less(m * dt, dt, m, 1);
        exact::lemma_ratio_whole(m);
        assert((m * dt) * 1 == m * dt) by (nonlinear_arith);
    }
}

proof fn lemma_shares_add_up(r: TickRow, a: i64, b: i64, c: i64)
    requires
        a <= b <= c,
    ensures
        rows::row_share(r, a, c).0 == rows::row_share(r, a, b).0 + rows::row_share(r, b, c).0,
        rows::row_share(r, a, c).1 == rows::row_share(r, a, b).1 + rows::row_share(r, b, c).1,
{
    let start = r.end_ms - r.dt_ms;
    if start < b < r.end_ms && a < b < c {
        let x = b - rows::max_int(start, a as int);
        let y = rows::min_int(r.end_ms as int, c as int) - b;
        let m = r.millibytes as int;
        exact::lemma_ratio_same_per(m * x, m * y, r.dt_ms as int);
        assert(m * (x + y) == m * x + m * y) by (nonlinear_arith);
    }
}

/// Adjoining spans add up to their union, bytes and time alike: a tick that is cut
/// loses nothing.
pub proof fn adjoining_spans_add_up(r: Seq<TickRow>, a: i64, b: i64, c: i64)
    requires
        a <= b <= c,
    ensures
        rows::integral(r, a, c).0 == rows::integral(r, a, b).0 + rows::integral(r, b, c).0,
        rows::integral(r, a, c).1 == rows::integral(r, a, b).1 + rows::integral(r, b, c).1,
    decreases r.len(),
{
    if r.len() > 0 {
        adjoining_spans_add_up(r.drop_last(), a, b, c);
        lemma_shares_add_up(r.last(), a, b, c);
    }
}

/// The ticks of two lists one after the other have what each list has.
pub proof fn joined_ticks_add_up(r: Seq<TickRow>, q: Seq<TickRow>, from_ms: i64, to_ms: i64)
    ensures
        rows::integral(r + q, from_ms, to_ms).0 == rows::integral(r, from_ms, to_ms).0 + rows::integral(
            q,
            from_ms,
            to_ms,
        ).0,
        rows::integral(r + q, from_ms, to_ms).1 == rows::integral(r, from_ms, to_ms).1 + rows::integral(
            q,
            from_ms,
            to_ms,
        ).1,
    decreases q.len(),
{
    if q.len() == 0 {
        assert(r + q =~= r);
    } else {
        assert((r + q).drop_last() =~= r + q.drop_last());
        joined_ticks_add_up(r, q.drop_last(), from_ms, to_ms);
    }
}

/// A span that ends before it begins, or as it begins, has nothing in it.
pub proof fn reversed_span_is_empty(r: Seq<TickRow>, from_ms: i64, to_ms: i64)
    requires
        to_ms <= from_ms,
    ensures
        rows::integral(r, from_ms, to_ms) == (0 as real, 0int),
    decreases r.len(),
{
    if r.len() > 0 {
        reversed_span_is_empty(r.drop_last(), from_ms, to_ms);
    }
}

/// No span has less than no time in it.
pub proof fn time_is_never_negative(r: Seq<TickRow>, from_ms: i64, to_ms: i64)
    ensures
        rows::integral(r, from_ms, to_ms).1 >= 0,
    decreases r.len(),
{
    if r.len() > 0 {
        time_is_never_negative(r.drop_last(), from_ms, to_ms);
    }
}

/// What the kept ticks of a series gained, less what cleaning takes off each.
pub open spec fn net_gain(
    samples: Seq<(i64, u64)>,
    files: Seq<(i64, u64)>,
    min_delta: int,
    p: CleanParams,
) -> int
    decreases samples.len(),
{
    if samples.len() < 2 {
        0
    } else {
        let a = samples[samples.len() - 2];
        let b = samples[samples.len() - 1];
        net_gain(samples.drop_last(), files, min_delta, p) + (if rows::tick_kept(a, b, p) {
            1000 * rows::gained(a, b) - rows::deduction(a, b, files, min_delta, p)
        } else {
            0
        })
    }
}

/// The ticks of a series add up to what was written, less the growth of the
/// tracked files, the noise floor and the idle noise, for the ticks that are no
/// bursts.
pub proof fn ticks_add_up(
    samples: Seq<(i64, u64)>,
    files: Seq<(i64, u64)>,
    min_delta: int,
    p: CleanParams,
)
    requires
        rows::series_ok(samples),
        files.len() <= rows::MAX_SERIES,
        min_delta >= 0,
    ensures
        sum_of(rows::rows_of(samples, files, min_delta, p)).0 == net_gain(samples, files, min_delta, p),
    decreases samples.len(),
{
    if samples.len() >= 2 {
        let a = samples[samples.len() - 2];
        let b = samples[samples.len() - 1];
        let front = samples.drop_last();
        assert(rows::series_ok(front));
        ticks_add_up(front, files, min_delta, p);
        if rows::tick_kept(a, b, p) {
            assert(rows::time_ok(a.0) && rows::time_ok(b.0));
            rows::lemma_row_bound(a, b, files, min_delta, p);
            let before = rows::rows_of(front, files, min_delta, p);
            let row = rows::tick_row(a, b, files, min_delta, p);
            assert(before.push(row).drop_last() =~= before);
        }
    }
}

/// However much a process has streamed, the adaptive floor takes no more than
/// its cap off a tick.
pub proof fn noise_floor_is_capped(
    a: (i64, u64),
    b: (i64, u64),
    files: Seq<(i64, u64)>,
    min_delta: int,
    p: CleanParams,
)
    ensures
        rows::deduction(a, b, files, min_delta, p) <= 1000 * rows::file_growth(files, a.0, b.0) + 1000
            * p.floor_cap_bytes + p.base_noise_bps * (b.0 - a.0),
{
}

/// A burst leaves no trace: with it or without it the ticks before it are the
/// same.
pub proof fn burst_leaves_no_tick(
    samples: Seq<(i64, u64)>,
    burst: (i64, u64),
    files: Seq<(i64, u64)>,
    min_delta: int,
    p: CleanParams,
)
    requires
        samples.len() > 0,
        rows::gained(samples.last(), burst) > p.burst_tick_bytes,
    ensures
        rows::rows_of(samples.push(burst), files, min_delta, p) == rows::rows_of(
            samples,
            files,
            min_delta,
            p,
        ),
{
    assert(samples.push(burst).drop_last() =~= samples);
}

/// The median is one of the samples, and lies between the lowest and the highest.
pub proof fn median_lies_among_the_samples(s: Seq<real>, low: real, high: real)
    requires
        s.len() > 0,
        forall|i: int| 0 <= i < s.len() ==> low <= #[trigger] s[i] <= high,
    ensures
        s.contains(calibration::upper_median(s)),
        low <= calibration::upper_median(s) <= high,
{
    calibration::lemma_median_stands(s);
}

/// Of two samples the median is the upper one.
pub proof fn median_of_two_is_the_upper(a: real, b: real)
    requires
        b < a,
    ensures
        calibration::upper_median(seq![a, b]) == a,
{
    calibration::lemma_upper_of_two(a, b);
}

/// The coefficient stays where the settings put it until two calls have been taken
/// as samples: one alone does not move it, on whichever side of the prior it lies.
pub proof fn one_sample_leaves_the_prior(s: LiveState)
    requires
        s.valid(),
        s.pending.len() > 0,
        s.cal.len() == 1,
    ensures
        state::settled(s).bpt == state::prior_of(s.params),
{
}

/// While the prior and at most one sample are held, the prior is the coefficient.
pub proof fn prior_stands_until_two_samples(s: LiveState)
    requires
        s.valid(),
        s.cal.len() <= 2,
    ensures
        s.bpt == state::prior_of(s.params),
{
}

/// The coefficient lies in the range that samples are held to, so that there is
/// always something to divide by.
pub proof fn coefficient_is_in_range(s: LiveState)
    requires
        s.params.sound(),
        s.calibration_ok(),
    ensures
        calibration::bounded(s.bpt, s.params),
        s.bpt > 0 as real,
{
    calibration::lemma_median_stands(s.cal);
    let i = if s.cal.len() <= 2 {
        0
    } else {
        choose|i: int| 0 <= i < s.cal.len() && s.cal[i] == s.bpt
    };
    assert(s.cal[i] == s.bpt);
}

proof fn lemma_settled_calibration(s: LiveState)
    requires
        s.params.sound(),
        s.calibration_ok(),
        s.pending.len() > 0,
    ensures
        state::settled(s).calibration_ok(),
{
    let c = s.pending[0];
    let owner = state::owner_running(s.rings, state::owners_after(s, c), c.session@);
    let clean = state::clean_of(s, c, owner);
    let eff = c.effective() as u64;
    let t = state::settled(s);
    if t.event matches Some(e) && !e.cal_skipped {
        let sample = calibration::per_token(clean, eff);
        let all = s.cal.push(sample);
        assert(calibration::bounded(sample, s.params));
        assert forall|i: int| 0 <= i < t.cal.len() implies calibration::bounded(#[trigger] t.cal[i], s.params) by {
            let k = i + all.len() - t.cal.len();
            assert(t.cal[i] == all[k]);
            if k < s.cal.len() {
                assert(all[k] == s.cal[k]);
            }
        }
    }
}

proof fn lemma_calibrated_calibration(s: LiveState, now_ms: i64)
    requires
        s.params.sound(),
        s.calibration_ok(),
    ensures
        state::calibrated(s, now_ms).calibration_ok(),
    decreases s.pending.len(),
{
    if s.pending.len() > 0 {
        let waited = now_ms - s.pending[0].completed_ms;
        if waited > state::PENDING_LIMIT_MS {
            lemma_calibrated_calibration(LiveState { pending: s.pending.drop_first(), ..s }, now_ms);
        } else if s.params.cal_grace_ms > 0 && waited < s.params.cal_grace_ms {
        } else {
            lemma_settled_calibration(s);
            lemma_calibrated_calibration(state::settled(s), now_ms);
        }
    }
}

proof fn lemma_nothing_over(x: real)
    ensures
        x > 0 as real ==> (0 as real) / x == 0 as real,
{
    assert(x > 0 as real ==> (0 as real) / x == 0 as real) by (nonlinear_arith);
}

/// What holds of every poll. Nothing is shown of a call that is not generating; one
/// that waits for its first byte is generating, still ramps up and has no speed yet;
/// the speed of one that generates is the rate of the pipe over the coefficient,
/// which stays in its range.
pub proof fn every_poll_is_consistent(
    s: LiveState,
    now_ms: i64,
    readings: Seq<(u32, u64)>,
    files_total: u64,
)
    requires
        s.valid(),
    ensures
        ({
            let (t, r) = state::measured(s, now_ms, readings, files_total);
            &&& r.available == (t.rings.len() > 0)
            &&& r.pipe >= 0 as real
            &&& !r.streaming ==> r.tps == 0 as real && r.pipe == 0 as real && !r.ramping && !r.awaiting
                && t.active_since is None
            &&& r.awaiting ==> r.streaming && r.ramping && r.tps == 0 as real && t.inflight is Some
            &&& r.streaming ==> r.tps == r.pipe / t.bpt
            &&& r.streaming && t.active_since is None ==> r.tps == 0 as real
            &&& calibration::bounded(t.bpt, t.params)
            &&& t.bpt > 0 as real
        }),
{
    let o = state::observed(s, now_ms, readings, files_total);
    state::lemma_calibrated_keeps(o, now_ms);
    lemma_calibrated_calibration(o, now_ms);
    coefficient_is_in_range(state::measured(s, now_ms, readings, files_total).0);
    let t = state::calibrated(o, now_ms);
    lemma_nothing_over(t.bpt);
    assert forall|span: (real, int)| #[trigger] state::rate_of(span) >= 0 as real by {
        let (x, y) = (exact::Amount::max_zero(span.0), span.1 as real);
        if span.1 > 0 {
            assert(x / y >= 0 as real) by (nonlinear_arith)
                requires
                    x >= 0 as real,
                    y > 0 as real,
            ;
        }
    }
}

/// The poll that first sees bytes of a call has a speed for it: there is no poll
/// between waiting and reading.
pub proof fn first_bytes_are_read_at_once(
    s: LiveState,
    now_ms: i64,
    readings: Seq<(u32, u64)>,
    files_total: u64,
)
    requires
        s.valid(),
        rows::time_ok(now_ms),
        state::first_seen(
            state::calibrated(state::observed(s, now_ms, readings, files_total), now_ms),
            now_ms,
        ),
    ensures
        ({
            let r = state::measured(s, now_ms, readings, files_total).1;
            &&& r.streaming
            &&& !r.awaiting
            &&& r.pipe > 0 as real
            &&& r.tps > 0 as real
        }),
{
    let o = state::observed(s, now_ms, readings, files_total);
    let t = state::calibrated(o, now_ms);
    rings::lemma_sampled_ok(s.rings, readings, now_ms);
    state::lemma_calibrated_keeps(o, now_ms);
    lemma_calibrated_calibration(o, now_ms);
    coefficient_is_in_range(t);
    let span = state::first_span(t, now_ms);
    assert(span.0 > 0 as real && span.1 > 0);
    let (x, y, z) = (span.0, span.1 as real, t.bpt);
    assert(x / y > 0 as real) by (nonlinear_arith)
        requires
            x > 0 as real,
            y > 0 as real,
    ;
    assert((x / y) / z > 0 as real) by (nonlinear_arith)
        requires
            x / y > 0 as real,
            z > 0 as real,
    ;
}

/// A call whose bytes are less than a fifth of all that was written meanwhile
/// was written at its end and not streamed: it leaves the coefficient alone.
pub proof fn silent_call_leaves_the_coefficient(s: LiveState)
    requires
        s.pending.len() > 0,
        ({
            let c = s.pending[0];
            let owner = state::owner_running(s.rings, state::owners_after(s, c), c.session@);
            let raw = rings::raw_total(s.rings, state::stream_start(c), state::stream_end(c, s.params));
            (5 as real) * state::clean_of(s, c, owner) < (1000 * raw) as real
        }),
    ensures
        state::settled(s).bpt == s.bpt,
        state::settled(s).cal == s.cal,
        state::settled(s).event matches Some(e) && e.cal_skipped,
{
}

/// Once the process of the shown session is known, what other processes write
/// does not matter.
pub proof fn other_processes_do_not_count(s: LiveState, t: LiveState, i: int, j: int, from_ms: i64, now_ms: i64)
    requires
        rings::rings_ok(s.rings),
        rings::rings_ok(t.rings),
        0 <= i < s.rings.len(),
        0 <= j < t.rings.len(),
        s.rings[i] == t.rings[j],
        s.files == t.files,
        s.params == t.params,
        state::live_pid(s) == Some(s.rings[i].pid),
        state::live_pid(t) == Some(s.rings[i].pid),
    ensures
        state::live_span(s, from_ms, now_ms) == state::live_span(t, from_ms, now_ms),
{
    rings::lemma_pid_span(s.rings, s.files, s.params, i, from_ms, now_ms);
    rings::lemma_pid_span(t.rings, t.files, t.params, j, from_ms, now_ms);
}

/// A running call is shown as generating from the first poll on, whatever its
/// session and however few bytes came in, unless its process is gone.
pub proof fn running_call_streams(s: LiveState, now_ms: i64)
    requires
        s.inflight is Some,
        !state::process_gone(s),
    ensures
        state::shown(s, now_ms).streaming,
{
}

/// A running call whose process is known and gone is not shown as generating.
pub proof fn vanished_process_stops_the_call(s: LiveState, now_ms: i64)
    requires
        state::process_gone(s),
    ensures
        !state::shown(s, now_ms).streaming,
        state::shown(s, now_ms).tps == 0 as real,
{
}

/// Once calls are known, nothing is shown while none runs: the end of a call sets
/// the speed to zero in the same poll, whatever the processes write.
pub proof fn finished_call_shows_nothing(s: LiveState, now_ms: i64)
    requires
        s.inflight is None,
        s.current is Some,
    ensures
        !state::shown(s, now_ms).streaming,
        !state::shown(s, now_ms).awaiting,
        state::shown(s, now_ms).tps == 0 as real,
        state::shown(s, now_ms).pipe == 0 as real,
        state::anchor(s, now_ms) is None,
{
}

/// A call whose process is not gone is not stopped by calibration: where that finds
/// a process for its session, it is one of those that are there.
proof fn lemma_calibrated_stays(s: LiveState, now_ms: i64)
    requires
        !state::process_gone(s),
    ensures
        !state::process_gone(state::calibrated(s, now_ms)),
    decreases s.pending.len(),
{
    if s.pending.len() > 0 {
        let c = s.pending[0];
        let waited = now_ms - c.completed_ms;
        if waited > state::PENDING_LIMIT_MS {
            lemma_calibrated_stays(LiveState { pending: s.pending.drop_first(), ..s }, now_ms);
        } else if s.params.cal_grace_ms > 0 && waited < s.params.cal_grace_ms {
        } else {
            lemma_top_is_there(s.rings, state::stream_start(c), state::stream_end(c, s.params));
            lemma_calibrated_stays(state::settled(s), now_ms);
        }
    }
}

/// The first call of a session that nothing is known of is shown as generating in
/// the very poll that finds it running.
pub proof fn new_session_streams_at_once(
    s: LiveState,
    now_ms: i64,
    readings: Seq<(u32, u64)>,
    files_total: u64,
    session: Seq<char>,
    began: i64,
)
    requires
        s.inflight == Some((session, began)),
        !s.owners.contains_key(session),
    ensures
        state::measured(s, now_ms, readings, files_total).1.streaming,
{
    let o = state::observed(s, now_ms, readings, files_total);
    state::lemma_calibrated_keeps(o, now_ms);
    lemma_calibrated_stays(o, now_ms);
}

/// A poll that finds no call running shows nothing, whatever was written and
/// whatever was calibrated in it.
pub proof fn ended_call_is_zero_at_once(
    s: LiveState,
    now_ms: i64,
    readings: Seq<(u32, u64)>,
    files_total: u64,
)
    requires
        s.inflight is None,
        s.current is Some,
    ensures
        !state::measured(s, now_ms, readings, files_total).1.streaming,
        state::measured(s, now_ms, readings, files_total).1.tps == 0 as real,
        state::measured(s, now_ms, readings, files_total).0.active_since is None,
{
    state::lemma_calibrated_keeps(state::observed(s, now_ms, readings, files_total), now_ms);
}

proof fn lemma_sampled_was_read(r: Seq<Ring>, readings: Seq<(u32, u64)>, now_ms: i64, pid: u32)
    requires
        rings::has_pid(rings::sampled(r, readings, now_ms), pid),
    ensures
        rings::reading(readings, pid) is Some,
    decreases r.len(),
{
    let out = rings::sampled(r, readings, now_ms);
    let i = choose|i: int| 0 <= i < out.len() && (#[trigger] out[i]).pid == pid;
    if r.len() > 0 {
        let before = rings::sampled(r.drop_last(), readings, now_ms);
        if i < before.len() {
            assert(before[i] == out[i]);
            lemma_sampled_was_read(r.drop_last(), readings, now_ms, pid);
        }
    }
}

/// Calibration finds no process for a session that no waiting call belongs to.
proof fn lemma_calibrated_owner(s: LiveState, now_ms: i64, session: Seq<char>)
    requires
        forall|i: int| 0 <= i < s.pending.len() ==> (#[trigger] s.pending[i]).session@ != session,
    ensures
        state::calibrated(s, now_ms).owners.get(session) == s.owners.get(session),
    decreases s.pending.len(),
{
    if s.pending.len() > 0 {
        let c = s.pending[0];
        let waited = now_ms - c.completed_ms;
        let rest = s.pending.drop_first();
        assert forall|i: int| 0 <= i < rest.len() implies (#[trigger] rest[i]).session@ != session by {
            assert(rest[i] == s.pending[i + 1]);
        }
        if waited > state::PENDING_LIMIT_MS {
            lemma_calibrated_owner(LiveState { pending: rest, ..s }, now_ms, session);
        } else if s.params.cal_grace_ms > 0 && waited < s.params.cal_grace_ms {
        } else {
            lemma_calibrated_owner(state::settled(s), now_ms, session);
        }
    }
}

/// A poll in which the process of the running call cannot be read any more shows
/// the call as stopped, though nothing has marked it as completed. A call of the
/// same session that still waits for calibration could tell of another process.
pub proof fn unread_process_stops_its_call(
    s: LiveState,
    now_ms: i64,
    readings: Seq<(u32, u64)>,
    files_total: u64,
    session: Seq<char>,
    began: i64,
)
    requires
        s.inflight == Some((session, began)),
        s.owners.contains_key(session),
        rings::reading(readings, s.owners[session]) is None,
        forall|i: int| 0 <= i < s.pending.len() ==> (#[trigger] s.pending[i]).session@ != session,
    ensures
        !state::measured(s, now_ms, readings, files_total).1.streaming,
{
    let o = state::observed(s, now_ms, readings, files_total);
    assert(o.owners.contains_key(session) && o.owners[session] == s.owners[session]);
    if rings::has_pid(o.rings, o.owners[session]) {
        lemma_sampled_was_read(s.rings, readings, now_ms, o.owners[session]);
    }
    state::lemma_calibrated_keeps(o, now_ms);
    lemma_calibrated_owner(o, now_ms, session);
}

/// A call that waits for its first byte is running, still ramps up and shows no
/// speed.
pub proof fn awaiting_call_has_no_speed(s: LiveState, now_ms: i64)
    requires
        state::shown(s, now_ms).awaiting,
    ensures
        s.inflight is Some,
        state::shown(s, now_ms).streaming,
        state::shown(s, now_ms).ramping,
        state::shown(s, now_ms).tps == 0 as real,
{
    lemma_nothing_over(s.bpt);
}

/// A call that has streamed for the whole window is read over all of it and no
/// more.
pub proof fn steady_call_is_read_over_the_window(s: LiveState, now_ms: i64, since: i64)
    requires
        rows::time_ok(now_ms),
        state::anchor(s, now_ms) == Some(since),
        now_ms - since >= WINDOW_MS,
    ensures
        !state::shown(s, now_ms).ramping,
        ({
            let (bytes, ms) = state::live_span(s, (now_ms - WINDOW_MS) as i64, now_ms);
            ms > 0 && bytes > 0 as real ==> state::shown(s, now_ms).pipe == bytes / (ms as real)
        }),
{
}

/// Where the sample of a call has become the coefficient, the bytes of that call
/// are turned back into its own speed: calibration and display read the same
/// ticks, so that whatever cleaning takes off does not matter.
pub proof fn calibration_reproduces_the_call(s: LiveState)
    requires
        s.valid(),
        s.pending.len() > 0,
        state::settled(s).event matches Some(e) && !e.cal_skipped && e.bpt_now == e.bpt_sample,
    ensures
        state::settled(s).event matches Some(e) && speed::tokens_per_second(
            e.clean_millibytes / (rows::max_int(e.gen_ms as int, state::MIN_GEN_MS as int) as real),
            state::settled(s).bpt,
        ) == e.true_tps,
{
    let c = s.pending[0];
    let e = state::settled(s).event->0;
    let ms = rows::max_int(c.gen_ms as int, state::MIN_GEN_MS as int);
    speed::calibrated_speed_is_true_speed(e.clean_millibytes, ms, e.eff as int);
}

/// Every session but the running one belongs to a process that is there.
pub open spec fn owners_alive(s: LiveState) -> bool {
    forall|session: Seq<char>| #[trigger]
        s.owners.contains_key(session) ==> rings::has_pid(s.rings, s.owners[session]) || state::running_session(s)
            == Some(session)
}

proof fn lemma_top_is_there(r: Seq<Ring>, from_ms: i64, to_ms: i64)
    ensures
        rings::top_writer(r, from_ms, to_ms) matches Some(best) ==> rings::has_pid(r, best.pid),
    decreases r.len(),
{
    if r.len() > 0 {
        lemma_top_is_there(r.drop_last(), from_ms, to_ms);
        assert(r[r.len() - 1].pid == r.last().pid);
        if let Some(best) = rings::top_writer(r.drop_last(), from_ms, to_ms) {
            let i = choose|i: int|
                0 <= i < r.drop_last().len() && (#[trigger] r.drop_last()[i]).pid == best.pid;
            assert(r[i].pid == best.pid);
        }
    }
}

proof fn lemma_calibrated_owners(s: LiveState, now_ms: i64)
    requires
        owners_alive(s),
    ensures
        owners_alive(state::calibrated(s, now_ms)),
    decreases s.pending.len(),
{
    if s.pending.len() > 0 {
        let c = s.pending[0];
        let waited = now_ms - c.completed_ms;
        if waited > state::PENDING_LIMIT_MS {
            lemma_calibrated_owners(LiveState { pending: s.pending.drop_first(), ..s }, now_ms);
        } else if s.params.cal_grace_ms > 0 && waited < s.params.cal_grace_ms {
        } else {
            lemma_top_is_there(s.rings, state::stream_start(c), state::stream_end(c, s.params));
            assert(owners_alive(state::settled(s)));
            lemma_calibrated_owners(state::settled(s), now_ms);
        }
    }
}

/// After every poll no session is kept for a process that is gone, save that of
/// the running call, by which it is seen to have stopped.
pub proof fn owners_follow_the_processes(
    s: LiveState,
    now_ms: i64,
    readings: Seq<(u32, u64)>,
    files_total: u64,
)
    ensures
        owners_alive(state::measured(s, now_ms, readings, files_total).0),
{
    let o = state::observed(s, now_ms, readings, files_total);
    assert forall|session: Seq<char>| #[trigger] o.owners.contains_key(session) implies rings::has_pid(
        o.rings,
        o.owners[session],
    ) || state::running_session(o) == Some(session) by {
        if rings::pids_of(o.rings).to_set().contains(o.owners[session]) {
            let pids = rings::pids_of(o.rings);
            let i = choose|i: int| 0 <= i < pids.len() && pids[i] == o.owners[session];
            assert(o.rings[i].pid == o.owners[session]);
        }
    }
    lemma_calibrated_owners(o, now_ms);
}

} // verus!
