//! What calibration and the shown speed say of the bytes that were read.

use vstd::prelude::*;

use crate::metrics::call::Call;
use crate::order;

use super::calibration;
use super::params::CleanParams;
use super::rings;
use super::rows;
use super::sessions;
use super::state;
use super::state::LiveState;

verus! {

proof fn lemma_over(a: real, d: real, x: real)
    requires
        d > 0 as real,
    ensures
        (a / d) * d == a,
        a / d < x <==> a < x * d,
        a / d > x <==> a > x * d,
{
    let q = a / d;
    assert(q * d == a) by (nonlinear_arith)
        requires
            q == a / d,
            d != 0 as real,
    ;
    assert(q < x ==> q * d < x * d) by (nonlinear_arith)
        requires
            d > 0 as real,
    ;
    assert(q > x ==> q * d > x * d) by (nonlinear_arith)
        requires
            d > 0 as real,
    ;
}

/// The bytes per token of a call, times its tokens, are its bytes. A call without
/// tokens is taken as one with a single token.
pub proof fn tokens_share_the_bytes(millibytes: real, tokens: u64)
    ensures
        tokens > 0 ==> calibration::per_token(millibytes, tokens) * ((1000 * tokens) as real) == millibytes,
        tokens == 0 ==> calibration::per_token(millibytes, tokens) * (1000 as real) == millibytes,
{
    lemma_over(millibytes, (1000 * calibration::spread(tokens)) as real, 0 as real);
}

/// The median is what stands in the middle once the samples are put in order; of an
/// even number of them, it is the upper one.
pub proof fn median_is_found_by_sorting(s: Seq<real>, t: Seq<real>)
    requires
        s.len() > 0,
        s.to_multiset() == t.to_multiset(),
        forall|i: int, j: int| 0 <= i <= j < t.len() ==> #[trigger] t[i] <= #[trigger] t[j],
    ensures
        calibration::upper_median(s) == t[s.len() as int / 2],
{
    s.to_multiset_ensures();
    t.to_multiset_ensures();
    let leq = calibration::real_leq();
    order::kth_is_where_sorting_puts_it(s, t, leq, s.len() as int / 2);
    calibration::lemma_median_stands(s);
    let v = calibration::upper_median(s);
    assert(order::is_kth(s, leq, s.len() as int / 2, v));
    assert(leq(v, t[s.len() as int / 2]) && leq(t[s.len() as int / 2], v));
}

/// Up to one sample beside the prior leaves the coefficient at the prior; from two on,
/// it is the median of all.
pub proof fn coefficient_moves_with_two_samples(s: Seq<real>, t: Seq<real>)
    requires
        s.len() > 0,
        s.to_multiset() == t.to_multiset(),
        forall|i: int, j: int| 0 <= i <= j < t.len() ==> #[trigger] t[i] <= #[trigger] t[j],
    ensures
        s.len() < 3 ==> calibration::coefficient(s) == s[0],
        s.len() >= 3 ==> calibration::coefficient(s) == t[s.len() as int / 2],
{
    median_is_found_by_sorting(s, t);
}

/// One more sample comes last. The others stay in their order, and of these the oldest
/// go where there are more than fit.
pub proof fn newest_samples_are_kept(s: Seq<real>, x: real, cap: int)
    requires
        cap > 0,
    ensures
        ({
            let t = calibration::slid(s, x, cap);
            &&& t.last() == x
            &&& t.len() == (if s.len() < cap {
                s.len() as int + 1
            } else {
                cap
            })
            &&& t.drop_last() == s.subrange(s.len() - (t.len() - 1), s.len() as int)
        }),
{
    let t = calibration::slid(s, x, cap);
    assert(t.drop_last() =~= s.subrange(s.len() - (t.len() - 1), s.len() as int));
}

/// A call is taken as a sample if it has enough tokens and bytes, if at least a fifth
/// of all that was written is its own, if its bytes per token are in range, and if
/// they are not too many times below or above the coefficient.
pub proof fn fitting_calls_are_taken(eff: u64, clean: real, raw: int, now: real, p: CleanParams)
    ensures
        ({
            let d = (1000 * eff) as real;
            calibration::sample_taken(eff, clean, raw, now, p) <==> {
                &&& eff > 0 && eff >= p.cal_min_tokens
                &&& clean > 0 as real
                &&& raw > 0
                &&& (5 as real) * clean >= (1000 * raw) as real
                &&& (p.cal_min as real) * d <= clean <= (p.cal_max as real) * d
                &&& p.cal_outlier_ratio > 0 && now > 0 as real ==> now * d <= clean * (p.cal_outlier_ratio as real)
                    && clean <= now * (p.cal_outlier_ratio as real) * d
            }
        }),
{
    if eff > 0 {
        let d = (1000 * eff) as real;
        let sample = calibration::per_token(clean, eff);
        assert(sample == clean / d);
        lemma_over(clean, d, p.cal_min as real);
        lemma_over(clean, d, p.cal_max as real);
        if p.cal_outlier_ratio > 0 {
            let k = p.cal_outlier_ratio as real;
            lemma_over(clean, d, now * k);
            lemma_over(now, k, sample);
            assert(sample * k < now <==> clean * k < now * d) by (nonlinear_arith)
                requires
                    sample * d == clean,
                    d > 0 as real,
            ;
        }
    }
}

/// What each tick of a series wrote is how much its total rose; one that fell back
/// wrote nothing.
pub proof fn ticks_write_what_the_total_rose(samples: Seq<(i64, u64)>, i: int)
    requires
        0 <= i < samples.len() - 1,
    ensures
        calibration::deltas_of(samples).len() == samples.len() - 1,
        samples[i + 1].1 >= samples[i].1 ==> calibration::deltas_of(samples)[i] == samples[i + 1].1
            - samples[i].1,
        samples[i + 1].1 < samples[i].1 ==> calibration::deltas_of(samples)[i] == 0,
{
}

/// The noise floor is twice the tick that stands a tenth from below, once the ticks
/// are put in order; there is none before twenty ticks.
pub proof fn noise_floor_is_found_by_sorting(samples: Seq<(i64, u64)>, t: Seq<i128>)
    requires
        calibration::deltas_of(samples).to_multiset() == t.to_multiset(),
        forall|i: int, j: int| 0 <= i <= j < t.len() ==> #[trigger] t[i] <= #[trigger] t[j],
    ensures
        t.len() < 20 ==> calibration::adaptive_floor(samples) == 0,
        t.len() >= 20 ==> calibration::adaptive_floor(samples) == 2 * t[t.len() as int / 10],
{
    let d = calibration::deltas_of(samples);
    d.to_multiset_ensures();
    t.to_multiset_ensures();
    if t.len() >= 20 {
        order::smallest_are_found_by_sorting(d, t, t.len() as int / 10);
    }
}

/// The settings for other systems than macOS: ticks above a hundred thousand bytes are
/// dropped, three bytes a millisecond are taken off, and samples are from 100 to 6000
/// bytes a token, whatever the coefficient.
pub proof fn settings_elsewhere(
    a: (i64, u64),
    b: (i64, u64),
    files: Seq<(i64, u64)>,
    floor: int,
    eff: u64,
    clean: real,
    raw: int,
    now: real,
)
    ensures
        ({
            let p = CleanParams::windows_params();
            &&& rows::tick_kept(a, b, p) <==> b.0 > a.0 && rows::gained(a, b) <= 100_000
            &&& 0 <= floor <= 2_000 ==> rows::deduction(a, b, files, floor, p) == 1000 * rows::file_growth(
                files,
                a.0,
                b.0,
            ) + 1000 * floor + 3_000 * (b.0 - a.0)
            &&& floor > 2_000 ==> rows::deduction(a, b, files, floor, p) == 1000 * rows::file_growth(
                files,
                a.0,
                b.0,
            ) + 2_000_000 + 3_000 * (b.0 - a.0)
            &&& calibration::sample_taken(eff, clean, raw, now, p) <==> eff >= 300 && clean > 0 as real && raw > 0
                && (5 as real) * clean >= (1000 * raw) as real && (100_000 * eff) as real <= clean <= (6_000_000
                * eff) as real
            &&& state::prior_of(p) == 600 as real
            &&& p.cal_grace_ms == 0 && p.detect_ms == 2_500
        }),
{
    let p = CleanParams::windows_params();
    fitting_calls_are_taken(eff, clean, raw, now, p);
    let (low, high, d) = (p.cal_min as real, p.cal_max as real, (1000 * eff) as real);
    assert(low * d == (100_000 * eff) as real) by (nonlinear_arith)
        requires
            low == 100 as real,
            d == (1000 * eff) as real,
    ;
    assert(high * d == (6_000_000 * eff) as real) by (nonlinear_arith)
        requires
            high == 6_000 as real,
            d == (1000 * eff) as real,
    ;
    assert(p.base_noise_bps * (b.0 - a.0) == 3_000 * (b.0 - a.0)) by (nonlinear_arith)
        requires
            p.base_noise_bps == 3_000,
    ;
}

/// The settings for macOS: no tick is dropped for its size, no noise is taken off, and
/// samples are from 100 to 12000 bytes a token, no more than three times below or above
/// the coefficient.
pub proof fn settings_on_macos(
    a: (i64, u64),
    b: (i64, u64),
    files: Seq<(i64, u64)>,
    floor: int,
    eff: u64,
    clean: real,
    raw: int,
    now: real,
)
    requires
        now > 0 as real,
    ensures
        ({
            let p = CleanParams::macos_params();
            let d = (1000 * eff) as real;
            &&& rows::tick_kept(a, b, p) <==> b.0 > a.0
            &&& 0 <= floor <= 2_000 ==> rows::deduction(a, b, files, floor, p) == 1000 * rows::file_growth(
                files,
                a.0,
                b.0,
            ) + 1000 * floor
            &&& floor > 2_000 ==> rows::deduction(a, b, files, floor, p) == 1000 * rows::file_growth(
                files,
                a.0,
                b.0,
            ) + 2_000_000
            &&& calibration::sample_taken(eff, clean, raw, now, p) <==> eff >= 300 && clean > 0 as real && raw > 0
                && (5 as real) * clean >= (1000 * raw) as real && (100_000 * eff) as real <= clean <= (12_000_000
                * eff) as real && now * d <= clean * (3 as real) && clean <= now * (3 as real) * d
            &&& state::prior_of(p) == 700 as real
            &&& p.cal_grace_ms == 15_000 && p.detect_ms == 2_500
        }),
{
    let p = CleanParams::macos_params();
    fitting_calls_are_taken(eff, clean, raw, now, p);
    let (low, high, d) = (p.cal_min as real, p.cal_max as real, (1000 * eff) as real);
    assert(low * d == (100_000 * eff) as real) by (nonlinear_arith)
        requires
            low == 100 as real,
            d == (1000 * eff) as real,
    ;
    assert(high * d == (12_000_000 * eff) as real) by (nonlinear_arith)
        requires
            high == 12_000 as real,
            d == (1000 * eff) as real,
    ;
    assert(p.base_noise_bps * (b.0 - a.0) == 0 * (b.0 - a.0)) by (nonlinear_arith)
        requires
            p.base_noise_bps == 0,
    ;
}

/// A call streamed while it generated, of which the last five minutes are looked at,
/// but nothing before 1970; its bytes may be written for as long afterwards as the
/// settings say.
pub proof fn call_streams_while_it_generates(c: Call, p: CleanParams)
    requires
        c.gen_ms >= 0,
        0 <= c.completed_ms + p.cal_grace_ms <= i64::MAX,
    ensures
        c.gen_ms <= 300_000 && c.completed_ms >= c.gen_ms ==> state::stream_start(c) + c.gen_ms == c.completed_ms,
        c.gen_ms > 300_000 && c.completed_ms >= 300_000 ==> state::stream_start(c) + 300_000 == c.completed_ms,
        c.completed_ms < c.gen_ms && c.completed_ms < 300_000 ==> state::stream_start(c) == 0,
        state::stream_end(c, p) == c.completed_ms + p.cal_grace_ms,
{
}

/// A call that is looked at for the first time tells the process of its session, if
/// more than twenty thousand bytes were written meanwhile: it is the process that wrote
/// most of them. No other session changes.
pub proof fn call_tells_its_process(s: LiveState, c: Call, session: Seq<char>)
    ensures
        ({
            let (from, to) = (state::stream_start(c), state::stream_end(c, s.params));
            let owners = state::owners_after(s, c);
            let tells = !s.attributed.contains(c.id@) && rings::raw_total(s.rings, from, to) > 20_000
                && s.rings.len() > 0;
            &&& tells ==> owners.contains_key(c.session@) && exists|i: int|
                0 <= i < s.rings.len() && owners[c.session@] == (#[trigger] s.rings[i]).pid && forall|j: int|
                    0 <= j < s.rings.len() ==> rings::raw_between((#[trigger] s.rings[j]).samples, from, to)
                        <= rings::raw_between(s.rings[i].samples, from, to)
            &&& !tells ==> owners == s.owners
            &&& session != c.session@ ==> owners.contains_key(session) == s.owners.contains_key(session)
                && owners[session] == s.owners[session]
        }),
{
    super::series_laws::told_process_wrote_most(s.rings, state::stream_start(c), state::stream_end(c, s.params));
}

/// A call is looked at once: afterwards it is remembered, until four thousand are, and
/// then all are forgotten.
pub proof fn call_is_remembered(s: LiveState, c: Call)
    requires
        s.attributed.finite(),
    ensures
        s.attributed.contains(c.id@) ==> state::attributed_after(s, c) == s.attributed,
        !s.attributed.contains(c.id@) && s.attributed.len() < 4_000 ==> state::attributed_after(s, c)
            == s.attributed.insert(c.id@),
        !s.attributed.contains(c.id@) && s.attributed.len() >= 4_000 ==> state::attributed_after(s, c).is_empty(),
{
}

/// A call that is calibrated leaves the queue from the front, and what is told of it
/// is its own: its key, its session, its times and tokens, and its true speed, which
/// makes its tokens in the time that it generated.
pub proof fn calibration_tells_of_the_call(s: LiveState)
    requires
        s.valid(),
        s.pending.len() > 0,
    ensures
        ({
            let c = s.pending[0];
            let t = state::settled(s);
            &&& s.pending == seq![c] + t.pending
            &&& t.event matches Some(e) && {
                &&& e.id == c.id@ && e.session == c.session@
                &&& e.completed_ms == c.completed_ms && e.gen_ms == c.gen_ms
                &&& e.eff == c.output + c.reasoning
                &&& c.gen_ms >= 50 ==> e.true_tps * (c.gen_ms as real) == (1000 * (c.output + c.reasoning)) as real
                &&& c.gen_ms < 50 ==> e.true_tps * (50 as real) == (1000 * (c.output + c.reasoning)) as real
                &&& e.raw_bytes == rings::raw_total(s.rings, state::stream_start(c), state::stream_end(c, s.params))
                &&& e.bpt_now == t.bpt
            }
        }),
{
    let c = s.pending[0];
    let t = state::settled(s);
    assert(s.pending =~= seq![c] + t.pending);
    let ms = if c.gen_ms >= 50 {
        c.gen_ms as int
    } else {
        50
    };
    lemma_over((1000 * (c.output + c.reasoning)) as real, ms as real, 0 as real);
}

/// A sample that is taken makes the cleaned bytes of its call out of its tokens and
/// comes last among the newest five, of which the coefficient is made. Where none is
/// taken, samples and coefficient stay as they were.
pub proof fn taken_sample_comes_last(s: LiveState)
    requires
        s.valid(),
        s.pending.len() > 0,
    ensures
        ({
            let t = state::settled(s);
            &&& t.event matches Some(e) && {
                &&& !e.cal_skipped ==> {
                    &&& e.bpt_sample * ((1000 * e.eff) as real) == e.clean_millibytes
                    &&& t.cal.len() <= 5 && t.cal.last() == e.bpt_sample
                    &&& t.cal.len() == s.cal.len() + 1 || (s.cal.len() == 5 && t.cal.len() == 5)
                    &&& t.cal.drop_last() == s.cal.subrange(
                        s.cal.len() - (t.cal.len() - 1),
                        s.cal.len() as int,
                    )
                    &&& t.bpt == calibration::coefficient(t.cal)
                }
                &&& e.cal_skipped ==> t.cal == s.cal && t.bpt == s.bpt && e.bpt_sample == 0 as real
            }
        }),
{
    let t = state::settled(s);
    let e = t.event->0;
    if !e.cal_skipped {
        tokens_share_the_bytes(e.clean_millibytes, e.eff);
        newest_samples_are_kept(s.cal, e.bpt_sample, 5);
    }
}

/// The bytes of a call are those of the process of its session, where that runs, or
/// else those of all processes; they are what was cleaned while it streamed.
pub proof fn bytes_are_those_of_the_process(s: LiveState)
    requires
        s.pending.len() > 0,
    ensures
        ({
            let c = s.pending[0];
            let (from, to) = (state::stream_start(c), state::stream_end(c, s.params));
            let t = state::settled(s);
            let known = t.owners.contains_key(c.session@) && exists|i: int|
                0 <= i < s.rings.len() && (#[trigger] s.rings[i]).pid == t.owners[c.session@];
            t.event matches Some(e) && {
                &&& known ==> e.attr_pid == Some(t.owners[c.session@]) && e.clean_millibytes == rings::pid_span(
                    s.rings,
                    s.files,
                    s.params,
                    t.owners[c.session@],
                    from,
                    to,
                ).0
                &&& !known ==> e.attr_pid is None && e.clean_millibytes == rings::total_span(
                    s.rings,
                    s.files,
                    s.params,
                    from,
                    to,
                ).0
            }
        }),
{
}

/// Calls that have waited for more than two minutes are given up, and nothing else
/// changes.
pub proof fn late_calls_are_given_up(s: LiveState, now_ms: i64)
    requires
        forall|i: int|
            0 <= i < s.pending.len() ==> now_ms - (#[trigger] s.pending[i]).completed_ms > 120_000,
    ensures
        state::calibrated(s, now_ms) == (LiveState { pending: Seq::empty(), ..s }),
    decreases s.pending.len(),
{
    if s.pending.len() > 0 {
        let rest = s.pending.drop_first();
        assert(now_ms - s.pending[0].completed_ms > 120_000);
        assert forall|i: int| 0 <= i < rest.len() implies now_ms - (#[trigger] rest[i]).completed_ms > 120_000 by {
            assert(rest[i] == s.pending[i + 1]);
        }
        late_calls_are_given_up(LiveState { pending: rest, ..s }, now_ms);
    } else {
        assert(s.pending =~= Seq::empty());
    }
}

/// A call that may still be written to disk waits, and holds up those behind it.
pub proof fn unwritten_call_waits(s: LiveState, now_ms: i64)
    requires
        s.pending.len() > 0,
        now_ms - s.pending[0].completed_ms <= 120_000,
        now_ms - s.pending[0].completed_ms < s.params.cal_grace_ms,
        s.params.cal_grace_ms > 0,
    ensures
        state::calibrated(s, now_ms) == s,
{
}

/// A single call that is due is calibrated.
pub proof fn due_call_is_calibrated(s: LiveState, now_ms: i64)
    requires
        s.pending.len() == 1,
        s.params.cal_grace_ms >= 0,
        s.params.cal_grace_ms <= now_ms - s.pending[0].completed_ms <= 120_000 || (s.params.cal_grace_ms == 0
            && now_ms - s.pending[0].completed_ms <= 120_000),
    ensures
        state::calibrated(s, now_ms) == state::settled(s),
{
    assert(state::settled(s).pending.len() == 0);
    reveal_with_fuel(state::calibrated, 2);
}

/// Sessions keep their process while it runs. That of the running call keeps it in any
/// case.
pub proof fn sessions_keep_running_processes(
    owners: Map<Seq<char>, u32>,
    alive: Set<u32>,
    kept: Option<Seq<char>>,
    session: Seq<char>,
)
    ensures
        ({
            let left = sessions::surviving(owners, alive, kept);
            &&& left.contains_key(session) ==> owners.contains_key(session) && left[session] == owners[session]
            &&& owners.contains_key(session) && alive.contains(owners[session]) ==> left.contains_key(session)
            &&& owners.contains_key(session) && kept == Some(session) ==> left.contains_key(session)
            &&& owners.contains_key(session) && !alive.contains(owners[session]) && kept != Some(session)
                ==> !left.contains_key(session)
        }),
{
}

/// What is shown is the process of the running call's session. Only while no call runs
/// is it that of the session whose call finished last.
pub proof fn running_call_names_the_process(s: LiveState, session: Seq<char>, began: i64)
    ensures
        s.inflight == Some((session, began)) && s.owners.contains_key(session) ==> state::live_pid(s) == Some(
            s.owners[session],
        ),
        s.inflight == Some((session, began)) && !s.owners.contains_key(session) ==> state::live_pid(s) is None,
        s.inflight is None && s.current == Some(session) && s.owners.contains_key(session) ==> state::live_pid(s)
            == Some(s.owners[session]),
        s.inflight is None && s.current == Some(session) && !s.owners.contains_key(session) ==> state::live_pid(s)
            is None,
        s.inflight is None && s.current is None ==> state::live_pid(s) is None,
{
}

/// The shown stream is that of the live process, or of all processes where none is
/// known.
pub proof fn stream_is_that_of_the_live_process(s: LiveState, from_ms: i64, now_ms: i64)
    ensures
        state::live_pid(s) matches Some(pid) ==> state::live_span(s, from_ms, now_ms) == rings::pid_span(
            s.rings,
            s.files,
            s.params,
            pid,
            from_ms,
            now_ms,
        ),
        state::live_pid(s) is None ==> state::live_span(s, from_ms, now_ms) == rings::total_span(
            s.rings,
            s.files,
            s.params,
            from_ms,
            now_ms,
        ),
{
}

/// A rate carries the bytes of its span in the time of its span; a span that lost bytes
/// has no rate, nor has one without time.
pub proof fn rate_carries_the_bytes(bytes: real, ms: int)
    ensures
        ms > 0 && bytes >= 0 as real ==> state::rate_of((bytes, ms)) * (ms as real) == bytes,
        ms > 0 && bytes < 0 as real ==> state::rate_of((bytes, ms)) == 0 as real,
        ms <= 0 ==> state::rate_of((bytes, ms)) == 0 as real,
{
    if ms > 0 {
        lemma_over(bytes, ms as real, 0 as real);
        lemma_over(0 as real, ms as real, 0 as real);
    }
}

/// Before any call is known, a stream is shown while more than four thousand bytes a
/// second come in.
pub proof fn unknown_stream_is_shown_while_it_flows(s: LiveState, now_ms: i64)
    requires
        s.inflight is None,
        s.current is None,
    ensures
        ({
            let (bytes, ms) = state::live_span(s, (now_ms - s.params.detect_ms) as i64, now_ms);
            state::shown(s, now_ms).streaming <==> ms > 0 && bytes > (4_000 * ms) as real
        }),
{
}

/// From the poll that first sees it stream on, a call is taken to stream since then,
/// while its process stays the same. Another process starts over.
pub proof fn stream_is_held_from_poll_to_poll(
    s: LiveState,
    now_ms: i64,
    readings: Seq<(u32, u64)>,
    files_total: u64,
)
    ensures
        ({
            let (t, r) = state::measured(s, now_ms, readings, files_total);
            let began = s.active_since;
            &&& !r.streaming ==> t.active_since is None
            &&& r.streaming && t.active_pid == s.active_pid && began is Some ==> t.active_since == began
            &&& r.streaming && (t.active_pid != s.active_pid || began is None) ==> t.active_since is None
                || t.active_since == Some(now_ms)
            &&& t.active_pid == state::live_pid(t)
        }),
{
    lemma_calibrated_keeps_the_stream(state::observed(s, now_ms, readings, files_total), now_ms);
}

proof fn lemma_calibrated_keeps_the_stream(s: LiveState, now_ms: i64)
    ensures
        state::calibrated(s, now_ms).active_since == s.active_since,
        state::calibrated(s, now_ms).active_pid == s.active_pid,
    decreases s.pending.len(),
{
    if s.pending.len() > 0 {
        let waited = now_ms - s.pending[0].completed_ms;
        if waited > state::PENDING_LIMIT_MS {
            lemma_calibrated_keeps_the_stream(LiveState { pending: s.pending.drop_first(), ..s }, now_ms);
        } else if s.params.cal_grace_ms > 0 && waited < s.params.cal_grace_ms {
        } else {
            lemma_calibrated_keeps_the_stream(state::settled(s), now_ms);
        }
    }
}

/// A call that first streams now is taken to stream since now; one that streams since
/// earlier is read over the last half minute, or since then where that is less.
pub proof fn stream_is_read_over_half_a_minute(s: LiveState, now_ms: i64, since: i64)
    requires
        rows::time_ok(now_ms),
        state::shown(s, now_ms).streaming,
        s.active_since == Some(since),
        s.active_pid == state::live_pid(s),
    ensures
        now_ms - since <= 30_000 ==> state::shown(s, now_ms).pipe == state::rate_of(
            state::live_span(s, since, now_ms),
        ),
        now_ms - since >= 30_000 ==> state::shown(s, now_ms).pipe == state::rate_of(
            state::live_span(s, (now_ms - 30_000) as i64, now_ms),
        ),
        state::shown(s, now_ms).ramping <==> now_ms - since < 30_000,
        !state::shown(s, now_ms).awaiting,
{
}

/// A running call that has not been seen to stream, and does not stream now, has no
/// rate yet. It is told to wait for its first byte for twenty seconds.
pub proof fn silent_call_waits_for_its_first_byte(s: LiveState, now_ms: i64, session: Seq<char>, began: i64)
    requires
        s.inflight == Some((session, began)),
        state::shown(s, now_ms).streaming,
        s.active_since is None || s.active_pid != state::live_pid(s),
        ({
            let (bytes, ms) = state::live_span(s, (now_ms - s.params.detect_ms) as i64, now_ms);
            ms <= 0 || bytes <= (4_000 * ms) as real
        }),
    ensures
        state::shown(s, now_ms).pipe == 0 as real,
        state::shown(s, now_ms).ramping,
        state::shown(s, now_ms).awaiting <==> now_ms - began <= 20_000,
        state::anchor(s, now_ms) is None,
{
}

/// The poll that first sees a call stream reads what came in since the poll before, or
/// where that is nothing, the span in which the stream was found.
pub proof fn first_bytes_are_those_since_the_poll_before(s: LiveState, now_ms: i64, before: int)
    requires
        s.inflight is Some,
        state::shown(s, now_ms).streaming,
        s.active_since is None || s.active_pid != state::live_pid(s),
        ({
            let (bytes, ms) = state::live_span(s, (now_ms - s.params.detect_ms) as i64, now_ms);
            ms > 0 && bytes > (4_000 * ms) as real
        }),
        s.files.len() >= 2,
        before == s.files.len() - 2,
    ensures
        ({
            let (bytes, ms) = state::live_span(s, s.files[before].0, now_ms);
            let found = state::live_span(s, (now_ms - s.params.detect_ms) as i64, now_ms);
            &&& bytes > 0 as real && ms > 0 ==> state::shown(s, now_ms).pipe == state::rate_of((bytes, ms))
            &&& bytes <= 0 as real || ms <= 0 ==> state::shown(s, now_ms).pipe == state::rate_of(found)
            &&& state::anchor(s, now_ms) == Some(now_ms)
            &&& state::shown(s, now_ms).ramping
            &&& !state::shown(s, now_ms).awaiting
        }),
{
}

/// The shown speed, times the bytes of a token, is the shown rate.
pub proof fn shown_speed_makes_the_shown_rate(s: LiveState, now_ms: i64)
    requires
        s.bpt > 0 as real,
    ensures
        state::shown(s, now_ms).streaming ==> state::shown(s, now_ms).tps * s.bpt == state::shown(s, now_ms).pipe,
        !state::shown(s, now_ms).streaming ==> state::shown(s, now_ms).tps == 0 as real,
        state::shown(s, now_ms).available <==> s.rings.len() > 0,
{
    lemma_over(state::pipe_rate(s, now_ms), s.bpt, 0 as real);
}

/// A poll reads the processes and files and leaves alone what runs, what is known of
/// history and the settings.
pub proof fn poll_leaves_the_rest(s: LiveState, now_ms: i64, readings: Seq<(u32, u64)>, files_total: u64)
    requires
        s.valid(),
    ensures
        ({
            let t = state::measured(s, now_ms, readings, files_total).0;
            &&& t.inflight == s.inflight && t.current == s.current && t.history_done == s.history_done
            &&& t.params == s.params && t.last_refresh == s.last_refresh && t.ever_saw_procs == s.ever_saw_procs
            &&& t.rings == rings::sampled(s.rings, readings, now_ms)
            &&& t.files.len() > 0 && t.files.last() == (now_ms, files_total)
        }),
{
    let o = state::observed(s, now_ms, readings, files_total);
    lemma_calibrated_leaves_the_rest(o, now_ms);
    super::series_laws::newest_sample_is_kept(s.files, (now_ms, files_total));
}

proof fn lemma_calibrated_leaves_the_rest(s: LiveState, now_ms: i64)
    ensures
        ({
            let t = state::calibrated(s, now_ms);
            t == (LiveState {
                pending: t.pending,
                cal: t.cal,
                bpt: t.bpt,
                owners: t.owners,
                attributed: t.attributed,
                event: t.event,
                ..s
            })
        }),
    decreases s.pending.len(),
{
    if s.pending.len() > 0 {
        let waited = now_ms - s.pending[0].completed_ms;
        if waited > state::PENDING_LIMIT_MS {
            lemma_calibrated_leaves_the_rest(LiveState { pending: s.pending.drop_first(), ..s }, now_ms);
        } else if s.params.cal_grace_ms > 0 && waited < s.params.cal_grace_ms {
        } else {
            lemma_calibrated_leaves_the_rest(state::settled(s), now_ms);
        }
    }
}

/// A call is looked at if it has enough tokens, and if bytes were written, its own among
/// them.
pub proof fn calls_with_bytes_are_looked_at(eff: u64, clean: real, raw: int, p: CleanParams)
    ensures
        calibration::measurable(eff, clean, raw, p) <==> p.cal_min_tokens <= eff && clean > 0 as real && raw > 0,
{
}

/// A poll calibrates with what it has read itself: the bytes of a call that is due are
/// those that stand in the series after the poll.
pub proof fn poll_calibrates_with_what_it_read(
    s: LiveState,
    now_ms: i64,
    readings: Seq<(u32, u64)>,
    files_total: u64,
)
    requires
        s.pending.len() == 1,
        s.params.cal_grace_ms >= 0,
        s.params.cal_grace_ms == 0 || now_ms - s.pending[0].completed_ms >= s.params.cal_grace_ms,
        now_ms - s.pending[0].completed_ms <= 120_000,
    ensures
        ({
            let c = s.pending[0];
            let t = state::measured(s, now_ms, readings, files_total).0;
            &&& t.pending.len() == 0
            &&& t.event matches Some(e) && e.id == c.id@ && e.raw_bytes == rings::raw_total(
                t.rings,
                state::stream_start(c),
                state::stream_end(c, s.params),
            ) && e.bpt_now == t.bpt
        }),
{
    let o = state::observed(s, now_ms, readings, files_total);
    due_call_is_calibrated(o, now_ms);
}

} // verus!
