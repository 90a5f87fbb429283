use zcode_speed_panel::exact::{Natural, Ratio};
use zcode_speed_panel::liveio::calibration::Bpt;
use zcode_speed_panel::liveio::state::{LiveIo, LiveNow};
use zcode_speed_panel::metrics::call::Call;
use zcode_speed_panel::speed::{ByteRate, Speed};

const TICK: i64 = 700;
const SECOND: u64 = 1_000_000_000;

fn call(id: &str, session: &str, completed_ms: i64, gen_ms: i64, output: u64) -> Call {
    Call {
        id: id.to_string(),
        started_ms: completed_ms - gen_ms,
        first_token_ms: Some(completed_ms - gen_ms),
        completed_ms,
        gen_ms,
        output,
        reasoning: 0,
        input: 0,
        cache_creation: 0,
        cache_read: 0,
        session: session.to_string(),
    }
}

fn float(n: &Natural) -> f64 {
    match n {
        Natural::Zero => 0.0,
        Natural::Digit { low, high } => *low as f64 + 4_294_967_296.0 * float(high),
    }
}

fn number(r: &Ratio) -> f64 {
    let (num, den) = r.parts();
    float(num) / float(den)
}

fn per_second(s: &Speed) -> f64 {
    match s {
        Speed::Zero => 0.0,
        Speed::Tokens { tokens, ms } => *tokens as f64 * 1000.0 / *ms as f64,
        Speed::Stream { pipe, bpt } => number(&pipe.per_second()) / number(&bpt.per_token()),
    }
}

/// The same number as `n / d`.
fn is(r: &Ratio, n: u128, d: u128) -> bool {
    let other = Ratio::new(n, d);
    !r.less(&other) && !other.less(r)
}

/// So many bytes, in thousandths, in so many milliseconds.
fn rate_is(pipe: &ByteRate, millibytes: u128, ms: u128) -> bool {
    pipe.ms == ms && is(&pipe.millibytes, millibytes, 1)
}

/// So many thousandths of a byte for so many tokens.
fn coefficient_is(b: &Bpt, millibytes: u128, tokens: u64) -> bool {
    b.tokens == tokens && is(&b.millibytes, millibytes, 1)
}

fn running(session: &str, began: i64) -> Option<(String, i64)> {
    Some((session.to_string(), began))
}

/// A measurement of one process, with the total it has written.
struct Stream {
    io: LiveIo,
    now: i64,
    total: u64,
}

impl Stream {
    fn new(macos: bool) -> Self {
        let mut io = LiveIo::new(macos);
        io.refresh(0, &[7], &[7]);
        Stream { io, now: 1_000_000, total: 0 }
    }

    fn tick(&mut self, bytes: u64) -> LiveNow {
        self.now += TICK;
        self.total += bytes;
        let now = self.io.measure(self.now, &[(7, self.total)], 0);
        assert_consistent(&self.io, &now);
        now
    }
}

/// What every poll keeps to.
fn assert_consistent(io: &LiveIo, now: &LiveNow) {
    let c = io.bytes_per_token();
    assert!(!c.per_token().less(&Ratio::whole(100)) && !Ratio::whole(12_000).less(&c.per_token()));
    if now.streaming {
        assert_eq!(now.tps, Speed::Stream { pipe: now.pipe.clone(), bpt: c });
    } else {
        assert_eq!(now.tps, Speed::Zero);
        assert!(is(&now.pipe.per_second(), 0, 1));
        assert!(!now.ramping && !now.awaiting);
    }
    if now.awaiting {
        assert!(now.streaming && now.ramping && per_second(&now.tps) == 0.0);
    }
}

#[test]
fn fresh_measurement() {
    let mut io = LiveIo::new(false);
    assert!(!io.history_done());
    assert!(!io.ever_saw_procs());
    assert!(coefficient_is(&io.bytes_per_token(), 600_000, 1));
    assert!(coefficient_is(&LiveIo::new(true).bytes_per_token(), 700_000, 1));
    assert!(io.take_calibration().is_none());
    assert!(io.pids().is_empty());
    let now = io.measure(0, &[], 0);
    assert!(!now.available && !now.streaming && !now.ramping && !now.awaiting);
    assert_eq!(now.tps, Speed::Zero);
    assert!(rate_is(&now.pipe, 0, 0));
}

#[test]
fn processes_are_looked_up_in_time() {
    let mut io = LiveIo::new(false);
    assert!(io.refresh_due(0));
    io.refresh(10 * SECOND, &[], &[]);
    assert!(!io.ever_saw_procs());
    assert!(!io.refresh_due(12 * SECOND));
    assert!(io.refresh_due(12 * SECOND + 1));
    io.refresh(13 * SECOND, &[3, 4], &[4]);
    assert!(io.ever_saw_procs());
    assert_eq!(io.pids(), vec![4]);
    assert!(!io.refresh_due(43 * SECOND));
    assert!(io.refresh_due(43 * SECOND + 1));
    io.refresh(44 * SECOND, &[5, 4, 6], &[6, 5, 4, 6]);
    assert_eq!(io.pids(), vec![4, 6, 5]);
    io.refresh(45 * SECOND, &[], &[]);
    assert!(io.pids().is_empty());
    assert!(io.ever_saw_procs());
}

#[test]
fn unread_process_is_dropped() {
    let mut io = LiveIo::new(false);
    io.refresh(0, &[1, 2, 3], &[1, 2, 3]);
    let now = io.measure(0, &[(3, 9), (1, 5)], 0);
    assert!(now.available);
    assert_eq!(io.pids(), vec![1, 3]);
    assert!(!io.measure(TICK, &[], 0).available);
}

#[test]
fn running_call_streams_from_the_first_poll() {
    let mut s = Stream::new(false);
    s.io.ingest_history(&[call("x", "old", 500_000, 1_000, 10)]);
    assert!(s.io.history_done());
    let began = s.now;
    s.io.set_inflight(running("new", began));
    let now = s.tick(0);
    assert!(now.streaming && now.ramping && now.awaiting);
    assert_eq!(per_second(&now.tps), 0.0);
    // Still silent when the hint is over.
    while s.now + TICK - began <= 20_000 {
        assert!(s.tick(0).awaiting);
    }
    let now = s.tick(0);
    assert!(now.streaming && now.ramping && !now.awaiting);
    // The end of the call sets it to zero at once, whatever is written.
    s.io.set_inflight(None);
    let now = s.tick(50_000);
    assert!(!now.streaming && !now.ramping && !now.awaiting);
    assert_eq!(now.tps, Speed::Zero);
    assert!(is(&now.pipe.per_second(), 0, 1));
}

#[test]
fn bytes_alone_stream_before_any_call() {
    let mut s = Stream::new(false);
    s.tick(0);
    assert!(!s.tick(2_000).streaming);
    // 20000 B in 2.1 s less 2100 B of noise in each tick.
    let mut now = s.tick(20_000);
    assert!(now.streaming && now.ramping && !now.awaiting);
    now = s.tick(20_000);
    assert!(now.streaming);
    s.io.observe(&[call("x", "a", s.now, 1_000, 10)]);
    assert!(!s.tick(20_000).streaming);
}

#[test]
fn streaming_threshold_is_exact() {
    // On macOS nothing is taken off: 4000 B/s over the 2.1 s that are known.
    let mut s = Stream::new(true);
    s.tick(0);
    s.tick(0);
    s.tick(0);
    assert!(!s.tick(8_400).streaming);
    let mut s = Stream::new(true);
    s.tick(0);
    s.tick(0);
    s.tick(0);
    assert!(s.tick(8_401).streaming);
}

#[test]
fn calibrated_stream_shows_the_true_speed() {
    let mut s = Stream::new(false);
    s.tick(0);
    // Three calls of 30 s at 50 t/s, 700 B for each token.
    for n in 0..3 {
        let began = s.now;
        s.io.set_inflight(running("a", began));
        for _ in 0..43 {
            s.tick(24_500);
        }
        let done = s.now;
        s.io.set_inflight(None);
        s.io.observe(&[call(&format!("c{n}"), "a", done, done - began, 1_505)]);
        s.tick(0);
        let e = s.io.take_calibration().unwrap();
        assert_eq!(e.id, format!("c{n}"));
        assert_eq!(e.session, "a");
        assert_eq!((e.completed_ms, e.gen_ms, e.eff), (done, 30_100, 1_505));
        assert_eq!(e.true_tps, Speed::Tokens { tokens: 1_505, ms: 30_100 });
        assert!(!e.cal_skipped);
        assert_eq!((e.attr_pid, e.top_pid), (Some(7), Some(7)));
        // The tick after the end touches the call.
        assert_eq!(e.raw_bytes, 43 * 24_500);
        assert!(s.io.take_calibration().is_none());
    }
    let coefficient = s.io.bytes_per_token();
    assert!(coefficient.tokens == 1_505);
    s.io.set_inflight(running("a", s.now));
    let mut now = s.tick(24_500);
    for _ in 0..60 {
        now = s.tick(24_500);
    }
    assert!(now.streaming && !now.ramping && !now.awaiting);
    let shown = per_second(&now.tps);
    assert!((shown - 50.0).abs() / 50.0 < 0.05, "{shown}");
    // 22400 B in each tick once the noise is taken off, over exactly 30 s.
    assert_eq!(now.pipe.ms, 30_000);
}

#[test]
fn silent_call_is_skipped() {
    let mut s = Stream::new(false);
    s.tick(0);
    let began = s.now;
    for _ in 0..43 {
        s.tick(0);
    }
    s.tick(90_000);
    s.io.observe(&[call("c", "a", s.now, s.now - began, 1_000)]);
    s.tick(0);
    let e = s.io.take_calibration().unwrap();
    assert!(e.cal_skipped);
    assert!(coefficient_is(&e.bpt_sample, 0, 1));
    assert_eq!(e.bpt_now, s.io.bytes_per_token());
    assert!(coefficient_is(&s.io.bytes_per_token(), 600_000, 1));
    // It still tells whose session it is.
    assert_eq!((e.attr_pid, e.top_pid), (Some(7), Some(7)));
}

#[test]
fn late_disk_writes_are_waited_for() {
    let mut s = Stream::new(true);
    for _ in 0..10 {
        s.tick(70_000);
    }
    let done = s.now;
    s.io.observe(&[call("c", "a", done, 7_000, 2_000)]);
    s.tick(700_000);
    assert!(s.io.take_calibration().is_none());
    while s.now + TICK - done < 15_000 {
        s.tick(0);
        assert!(s.io.take_calibration().is_none());
    }
    s.tick(0);
    let e = s.io.take_calibration().unwrap();
    assert!(is(&e.clean_millibytes.or_zero(), 9 * 70_000_000 + 700_000_000, 1));
    assert!(!e.cal_skipped);
    assert!(coefficient_is(&e.bpt_sample, 1_330_000_000, 2_000));
}

#[test]
fn overdue_calls_are_given_up() {
    let mut s = Stream::new(false);
    s.tick(0);
    let calls: Vec<Call> = (0..10)
        .map(|i| call(&format!("c{i}"), "a", if i < 9 { s.now - 200_000 } else { s.now }, 100, 10))
        .collect();
    s.io.observe(&calls);
    s.tick(0);
    assert_eq!(s.io.take_calibration().unwrap().id, "c9");
    s.tick(0);
    assert!(s.io.take_calibration().is_none());
}

/// Two processes; the first one belongs to session `a`.
fn owned() -> LiveIo {
    let mut io = LiveIo::new(false);
    io.refresh(0, &[1, 2], &[1, 2]);
    io.measure(0, &[(1, 0), (2, 0)], 0);
    io.measure(TICK, &[(1, 60_000), (2, 10_000)], 0);
    io.observe(&[call("c", "a", TICK, TICK, 10)]);
    io.measure(2 * TICK, &[(1, 60_000), (2, 10_000)], 0);
    let e = io.take_calibration().unwrap();
    assert_eq!((e.attr_pid, e.top_pid, e.raw_bytes), (Some(1), Some(1), 70_000));
    io
}

#[test]
fn other_processes_are_left_out() {
    let mut io = owned();
    for n in 3..7 {
        assert!(!io.measure(n * TICK, &[(1, 60_000), (2, 10_000)], 0).streaming);
    }
    io.set_inflight(running("a", 6 * TICK));
    let now = io.measure(7 * TICK, &[(1, 60_000), (2, 90_000)], 0);
    assert!(now.streaming && now.awaiting);
    let now = io.measure(8 * TICK, &[(1, 100_000), (2, 90_000)], 0);
    assert!(now.streaming && !now.awaiting);
    // The tick that brought the first bytes is read at once.
    assert!(rate_is(&now.pipe, 37_900_000, 700));
    let now = io.measure(9 * TICK, &[(1, 140_000), (2, 90_000)], 0);
    // 40000 B less 2100 B of noise in the one tick since the stream was seen.
    assert!(rate_is(&now.pipe, 37_900_000, 700));
}

#[test]
fn call_of_an_unknown_session_reads_every_process() {
    let mut io = owned();
    io.set_inflight(running("b", 2 * TICK));
    let now = io.measure(3 * TICK, &[(1, 60_000), (2, 60_000)], 0);
    assert!(now.streaming && !now.awaiting);
    let now = io.measure(4 * TICK, &[(1, 70_000), (2, 90_000)], 0);
    // 10000 B and 30000 B, each less its noise.
    assert!(rate_is(&now.pipe, 35_800_000, 1_400));
}

#[test]
fn vanished_process_ends_the_call() {
    let mut io = owned();
    io.set_inflight(running("a", 2 * TICK));
    assert!(io.measure(3 * TICK, &[(1, 60_000), (2, 10_000)], 0).streaming);
    assert!(!io.measure(4 * TICK, &[(2, 10_000)], 0).streaming);
    assert!(!io.measure(5 * TICK, &[(2, 50_000)], 0).streaming);
    // Once it has ended nothing ties the session to the process any more.
    io.set_inflight(None);
    io.measure(6 * TICK, &[(2, 50_000)], 0);
    io.set_inflight(running("a", 7 * TICK));
    assert!(io.measure(7 * TICK, &[(2, 50_000)], 0).streaming);
}

#[test]
fn small_calls_tell_no_process() {
    let mut io = LiveIo::new(false);
    io.refresh(0, &[1], &[1]);
    io.measure(0, &[(1, 0)], 0);
    io.measure(TICK, &[(1, 20_000)], 0);
    io.observe(&[call("c", "a", TICK, TICK, 10)]);
    io.measure(2 * TICK, &[(1, 20_000)], 0);
    let e = io.take_calibration().unwrap();
    assert_eq!((e.attr_pid, e.top_pid), (None, Some(1)));
}

#[test]
fn steady_stream_is_read_over_the_window() {
    let mut s = Stream::new(true);
    s.io.set_inflight(running("a", s.now));
    let mut now = s.tick(7_000);
    for _ in 0..100 {
        now = s.tick(7_000);
    }
    assert!(!now.ramping);
    // A floor of 2000 B is taken off each tick: 42 whole ones and 600 ms of another,
    // of whose 5000 B the first 100 ms hold a seventh.
    assert_eq!(now.pipe.ms, 30_000);
    assert!(is(&now.pipe.millibytes, 7 * 43 * 5_000_000 - 5_000_000, 7));
    assert!(matches!(&now.tps, Speed::Stream { bpt, .. } if coefficient_is(bpt, 700_000, 1)));
}

#[test]
fn history_takes_the_latest_session() {
    let mut io = LiveIo::new(false);
    io.ingest_history(&[]);
    assert!(io.history_done());
    // Nothing is known yet, so bytes alone decide.
    io.refresh(0, &[1], &[1]);
    io.measure(0, &[(1, 0)], 0);
    assert!(io.measure(TICK, &[(1, 60_000)], 0).streaming);
    io.ingest_history(&[call("a", "s", 5, 1, 1), call("b", "t", 5, 1, 1), call("c", "u", 4, 1, 1)]);
    assert!(!io.measure(2 * TICK, &[(1, 120_000)], 0).streaming);
}

#[test]
fn first_bytes_show_a_speed_at_once() {
    let mut io = LiveIo::new(false);
    io.refresh(0, &[7], &[7]);
    io.set_inflight(running("a", 0));
    let now = io.measure(0, &[(7, 0)], 0);
    assert!(now.streaming && now.awaiting);
    let now = io.measure(1_000, &[(7, 33_000)], 0);
    assert!(now.streaming && now.ramping && !now.awaiting);
    // 33000 B less 3000 B of noise in one second, 600 B for each token.
    assert!(rate_is(&now.pipe, 30_000_000, 1_000));
    assert_eq!(per_second(&now.tps), 50.0);
    // From then on it is read since that poll.
    let now = io.measure(2_000, &[(7, 39_000)], 0);
    assert!(rate_is(&now.pipe, 3_000_000, 1_000));
}

#[test]
fn bytes_before_a_call_is_known_are_read() {
    let mut io = LiveIo::new(false);
    io.refresh(0, &[7], &[7]);
    io.ingest_history(&[call("x", "old", 0, 1_000, 10)]);
    io.measure(0, &[(7, 0)], 0);
    assert!(!io.measure(1_000, &[(7, 33_000)], 0).streaming);
    // Found running only after its first bytes: less than nothing came since.
    io.set_inflight(running("a", 0));
    let now = io.measure(2_000, &[(7, 33_000)], 0);
    assert!(now.streaming && !now.awaiting);
    assert!(rate_is(&now.pipe, 27_000_000, 2_000));
}

/// Streams a call of 30 s with so many bytes in each tick, and has it calibrated.
fn calibrate_one(s: &mut Stream, id: &str, bytes: u64) {
    let began = s.now;
    for _ in 0..43 {
        s.tick(bytes);
    }
    s.io.observe(&[call(id, "a", s.now, s.now - began, 1_505)]);
    s.tick(0);
    assert!(!s.io.take_calibration().unwrap().cal_skipped);
}

#[test]
fn one_sample_does_not_move_the_coefficient() {
    for bytes in [60_000, 12_000] {
        let mut s = Stream::new(false);
        s.tick(0);
        calibrate_one(&mut s, "first", bytes);
        assert!(coefficient_is(&s.io.bytes_per_token(), 600_000, 1));
        calibrate_one(&mut s, "second", bytes);
        assert_eq!(s.io.bytes_per_token().tokens, 1_505);
    }
}

#[test]
fn new_session_streams_while_calls_wait() {
    let mut io = LiveIo::new(true);
    io.refresh(0, &[1], &[1]);
    io.measure(0, &[(1, 0)], 0);
    io.measure(TICK, &[(1, 60_000)], 0);
    io.observe(&[call("c", "a", TICK, TICK, 10), call("d", "b", TICK, TICK, 10)]);
    io.set_inflight(running("b", TICK));
    assert!(io.measure(2 * TICK, &[(1, 60_000)], 0).streaming);
    // The call of the same session has been calibrated by now.
    assert!(io.measure(20_000, &[(1, 60_000)], 0).streaming);
    assert!(io.take_calibration().is_some());
}

#[test]
fn vanished_process_ends_the_call_while_others_wait() {
    let mut io = owned();
    io.set_inflight(running("a", 2 * TICK));
    io.observe(&[call("d", "b", 2 * TICK, TICK, 10)]);
    assert!(!io.measure(3 * TICK, &[(2, 10_000)], 0).streaming);
}
