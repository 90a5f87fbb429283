use zcode_speed_panel::debug_log::{DebugLog, DEBUG_LOG_MAX};
use zcode_speed_panel::exact::Ratio;
use zcode_speed_panel::liveio::calibration::Bpt;
use zcode_speed_panel::liveio::state::{LiveIo, LiveNow};
use zcode_speed_panel::metrics::aggregate::{snapshot_at, LiveSource, Snapshot};
use zcode_speed_panel::metrics::call::Call;
use zcode_speed_panel::metrics::engine::{Engine, UsageRow};
use zcode_speed_panel::metrics::inflight::SessionMessages;
use zcode_speed_panel::panel::{advance, build_payload, overlay, TrayState, TrayText};
use zcode_speed_panel::speed::{ByteRate, Speed};

const SECOND: u64 = 1_000_000_000;

fn call(completed_ms: i64) -> Call {
    Call {
        id: "c".to_string(),
        started_ms: completed_ms - 2_000,
        first_token_ms: Some(completed_ms - 1_000),
        completed_ms,
        gen_ms: 1_000,
        output: 40,
        reasoning: 0,
        input: 0,
        cache_creation: 0,
        cache_read: 0,
        session: "s".to_string(),
    }
}

/// A snapshot right after a call of 40 t/s.
fn busy() -> Snapshot {
    snapshot_at(&[call(1_000_000)], 1_000_500)
}

fn quiet() -> Snapshot {
    snapshot_at(&[], 1_000_500)
}

fn stream(millibytes: u128) -> Speed {
    Speed::Stream {
        pipe: ByteRate { millibytes: Ratio::whole(millibytes), ms: 1_000 },
        bpt: Bpt { millibytes: Ratio::whole(600_000), tokens: 1 },
    }
}

fn live(available: bool, streaming: bool, awaiting: bool, tps: Speed) -> LiveNow {
    LiveNow {
        available,
        streaming,
        ramping: streaming,
        awaiting,
        tps,
        pipe: ByteRate::none(),
    }
}

const FORTY: Speed = Speed::Tokens { tokens: 40, ms: 1_000 };

#[test]
fn measured_stream_is_shown() {
    let fast = stream(30_000_000);
    let s = overlay(busy(), &live(true, true, false, fast.clone()), true, true);
    assert_eq!((&s.current_tps, s.live_source), (&fast, LiveSource::Io));
    assert!(s.is_live && s.ramping && !s.is_estimating && !s.is_starting);
    assert_eq!(*s.spark.last().unwrap(), fast);
    assert_eq!(TrayState::of(&s).word(), "生成中");
}

#[test]
fn silent_stream_shows_an_estimate() {
    // Just below one token per second.
    let slow = stream(599_999);
    let s = overlay(busy(), &live(true, true, false, slow.clone()), true, true);
    assert_eq!((&s.current_tps, s.live_source), (&FORTY, LiveSource::Window));
    assert!(s.is_live && s.is_estimating && !s.is_starting);
    assert_eq!(*s.spark.last().unwrap(), FORTY);
    // Exactly one is measured.
    let one = stream(600_000);
    assert_eq!(overlay(busy(), &live(true, true, false, one.clone()), true, true).current_tps, one);
    // Without a call to go by, what is measured is shown.
    let s = overlay(quiet(), &live(true, true, false, slow.clone()), true, true);
    assert_eq!((s.current_tps, s.live_source, s.is_estimating), (slow, LiveSource::Io, false));
}

#[test]
fn awaited_stream_shows_nothing_yet() {
    let s = overlay(busy(), &live(true, true, true, stream(0)), true, true);
    assert_eq!((&s.current_tps, s.live_source), (&Speed::Zero, LiveSource::Io));
    assert!(s.is_live && s.is_starting && !s.is_estimating);
    assert_eq!(*s.spark.last().unwrap(), Speed::Zero);
}

#[test]
fn measured_idle_is_idle() {
    assert!(busy().is_estimating);
    let s = overlay(busy(), &live(true, false, false, Speed::Zero), false, true);
    assert_eq!((&s.current_tps, s.live_source), (&Speed::Zero, LiveSource::Idle));
    assert!(!s.is_live && !s.is_estimating && !s.is_starting && !s.ramping);
    assert_eq!(*s.spark.last().unwrap(), Speed::Zero);
    assert_eq!(TrayState::of(&s).word(), "待机");
}

#[test]
fn unmeasured_call_is_estimated_or_starting() {
    let s = overlay(busy(), &live(false, true, true, Speed::Zero), true, false);
    assert_eq!((&s.current_tps, s.live_source, s.is_estimating), (&FORTY, LiveSource::Window, true));
    assert_eq!(TrayState::of(&s).word(), "估算中");
    let s = overlay(quiet(), &live(false, true, true, Speed::Zero), true, false);
    assert_eq!((&s.current_tps, s.live_source), (&Speed::Zero, LiveSource::Window));
    assert!(s.is_starting && !s.is_estimating && !s.is_live);
    // No call runs, or the CLI was closed.
    for (running, ever_saw) in [(false, false), (true, true), (false, true)] {
        let s = overlay(busy(), &live(false, false, false, Speed::Zero), running, ever_saw);
        assert_eq!((&s.current_tps, s.live_source), (&Speed::Zero, LiveSource::Idle));
        assert!(!s.is_live && !s.is_estimating && !s.is_starting);
    }
}

#[test]
fn tray_text_changes() {
    let mut t = TrayText::new();
    assert!(!t.update(String::new()));
    assert!(t.update("待机".to_string()));
    assert!(!t.update("待机".to_string()));
    assert_eq!(t.last, "待机");
    assert_eq!(TrayState::Idle.word(), "待机");
}

#[test]
fn measurement_is_fed() {
    let mut io = LiveIo::new(false);
    io.refresh(0, &[1], &[1]);
    let calls = [call(1_000)];
    let now = advance(&mut io, &calls, &[], Some(("s".to_string(), 2_000)), 2_500, &[(1, 0)], 0);
    assert!(now.available && now.streaming && now.awaiting);
    assert!(io.history_done());
    let now = advance(&mut io, &calls, &calls, None, 3_200, &[(1, 0)], 0);
    assert!(now.available && !now.streaming);
    assert_eq!(io.take_calibration().unwrap().id, "c");
}

fn now_ms() -> i64 {
    std::time::SystemTime::now().duration_since(std::time::UNIX_EPOCH).unwrap().as_millis() as i64
}

#[test]
fn poll_of_everything() {
    let now = now_ms();
    let row = UsageRow {
        id: "r".to_string(),
        started_at: now - 9_000,
        first_token_at: Some(now - 3_000),
        completed_at: now - 2_000,
        duration_ms: None,
        output_tokens: Some(40),
        reasoning_tokens: Some(0),
        input_tokens: Some(5),
        cache_creation_tokens: Some(0),
        cache_read_tokens: Some(0),
        session_id: "s".to_string(),
    };
    let sessions = [SessionMessages {
        session: "s".to_string(),
        messages: vec![(now - 1_000, "{\"role\":\"assistant\"}".to_string())],
    }];
    let mut engine = Engine::new(Some("db".to_string()));
    let mut io = LiveIo::new(false);
    io.refresh(0, &[1], &[1]);
    let p = build_payload(&mut engine, &mut io, now - 100_000, &[row], &sessions, &[(1, 7)], 0);
    assert_eq!(p.new_calls.len(), 1);
    assert_eq!(p.running, Some(("s".to_string(), now - 1_000)));
    assert!(p.live.streaming && p.live.awaiting);
    assert!(p.snapshot.is_live && p.snapshot.is_starting);
    assert_eq!((p.snapshot.total_tokens, p.snapshot.calls_today), (45, 1));
    assert_eq!(p.snapshot.rollout_dir, "db");
    assert_eq!(p.snapshot.avg_tps, FORTY);
    assert_eq!(p.cal_event.unwrap().id, "r");
    assert_eq!(p.bpt, Bpt { millibytes: Ratio::whole(600_000), tokens: 1 });
    let p = build_payload(&mut engine, &mut io, now - 100_000, &[], &[], &[(1, 7)], 0);
    assert!(p.new_calls.is_empty() && p.running.is_none() && p.cal_event.is_none());
    assert_eq!(p.snapshot.live_source, LiveSource::Idle);
}

#[test]
fn log_is_started_over() {
    let mut log = DebugLog::new(0);
    assert!(!log.rotate());
    log.reopen(Some(DEBUG_LOG_MAX));
    assert!(!log.rotate());
    log.reopen(None);
    log.count(0);
    assert_eq!(log.written, 8 * 1024 * 1024 + 1);
    assert!(log.rotate());
    assert_eq!(log.written, 0);
    log.count(9);
    assert_eq!(log.written, 10);
}

#[test]
fn log_has_a_heartbeat() {
    let mut log = DebugLog::new(SECOND);
    assert!(!log.tick_due(false, 31 * SECOND));
    assert!(log.tick_due(false, 31 * SECOND + 1));
    assert!(!log.tick_due(false, 40 * SECOND));
    assert!(log.tick_due(true, 40 * SECOND));
    assert_eq!(log.last_heartbeat, 40 * SECOND);
}

#[test]
fn old_logs_are_cleaned_up() {
    let day: i128 = 86_400_000_000_000;
    assert!(DebugLog::cleanup_rotated("speed-panel-debug.jsonl.1", 0, 7 * day + 1));
    assert!(!DebugLog::cleanup_rotated("speed-panel-debug.jsonl.1", 0, 7 * day));
    assert!(!DebugLog::cleanup_rotated("speed-panel-debug.jsonl", 0, 8 * day));
    assert!(!DebugLog::cleanup_rotated("other.jsonl.1", 0, 8 * day));
}
