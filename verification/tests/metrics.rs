use zcode_speed_panel::metrics::aggregate::{snapshot_at, sums_fit, Aggregator, LiveSource, SPARK_BUCKETS};
use zcode_speed_panel::metrics::call::Call;
use zcode_speed_panel::metrics::engine::{Engine, UsageRow};
use zcode_speed_panel::metrics::inflight::{candidates, inflight_from_rows, session_candidate, SessionMessages};
use zcode_speed_panel::speed::Speed;

fn now_ms() -> i64 {
    std::time::SystemTime::now().duration_since(std::time::UNIX_EPOCH).unwrap().as_millis() as i64
}

fn per_second(s: &Speed) -> f64 {
    match *s {
        Speed::Tokens { tokens, ms } if ms > 0 => tokens as f64 * 1000.0 / ms as f64,
        _ => 0.0,
    }
}

#[test]
fn inflight_from_rows_gating() {
    let now = 1_000_000i64;
    let r = inflight_from_rows(&[("new".into(), now - 3_000, false)], now);
    assert_eq!(r, Some(("new".to_string(), now - 3_000)));
    assert_eq!(
        inflight_from_rows(
            &[
                ("a".into(), now - 60_000, false),
                ("a".into(), now - 30_000, true),
            ],
            now
        ),
        None
    );
    let r = inflight_from_rows(
        &[
            ("a".into(), now - 40_000, true),
            ("b".into(), now - 5_000, false),
        ],
        now,
    );
    assert_eq!(r, Some(("b".to_string(), now - 5_000)));
    assert_eq!(
        inflight_from_rows(&[("z".into(), now - 601_000, false)], now),
        None
    );
    assert_eq!(inflight_from_rows(&[], now), None);
}

fn call(completed: i64, gen_ms: i64, out: u64, reason: u64, input: u64, session: &str) -> Call {
    Call {
        id: format!("{}-{}", completed, out),
        started_ms: completed - gen_ms - 1000,
        first_token_ms: Some(completed - gen_ms),
        completed_ms: completed,
        gen_ms,
        output: out,
        reasoning: reason,
        input,
        cache_creation: 0,
        cache_read: 0,
        session: session.into(),
    }
}

#[test]
fn snapshot_computes_speeds() {
    let now = now_ms();
    let mut agg = Aggregator::new();
    agg.ingest(call(now - 10_000, 10_000, 500, 40, 100, "a"));
    agg.ingest(call(now - 1_000, 8_000, 240, 60, 100, "a"));
    let s = agg.snapshot();
    assert!((per_second(&s.avg_tps) - 840.0 / 18.0).abs() < 1e-9);
    assert!((per_second(&s.current_tps) - 840.0 / 18.0).abs() < 1e-9);
    assert!(!s.is_live);
    assert_eq!(s.total_tokens, 1040);
    assert_eq!(s.output_tokens, 740);
    assert_eq!(s.reasoning_tokens, 100);
    assert_eq!(s.sessions_today, 1);
    assert_eq!(s.spark.len(), SPARK_BUCKETS);
    assert_eq!(s.live_source.as_str(), "window");
}

#[test]
fn speed_excludes_time_before_first_token() {
    let now = now_ms();
    let mut agg = Aggregator::new();
    agg.ingest(call(now - 5_000, 5_000, 500, 0, 0, "a"));
    let s1 = agg.snapshot();
    assert!((per_second(&s1.avg_tps) - 100.0).abs() < 1e-9);
    agg.ingest(Call {
        id: "b".into(),
        started_ms: now - 30_000,
        first_token_ms: Some(now - 6_000),
        completed_ms: now - 1_000,
        gen_ms: 5_000,
        output: 500,
        reasoning: 0,
        input: 0,
        cache_creation: 0,
        cache_read: 0,
        session: "b".into(),
    });
    let s2 = agg.snapshot();
    assert!((per_second(&s2.avg_tps) - 100.0).abs() < 1e-9);
}

#[test]
fn effective_tokens_are_output_and_reasoning() {
    assert_eq!(call(0, 0, 5, 7, 9, "").effective_out(), 12);
}

#[test]
fn figures_at_a_moment() {
    let now = 1_000_000_000i64;
    let mut c = call(now - 25_000, 10, 30, 20, 100, "a");
    c.cache_creation = 7;
    c.cache_read = 90;
    let s = snapshot_at(&[c, call(now - 700_000, 1_000, 10, 0, 5, "")], now);
    assert_eq!(s.total_tokens, 30 + 20 + 100 + 7 + 10 + 5);
    assert_eq!(s.cache_read_tokens, 90);
    assert_eq!(s.cache_creation_tokens, 7);
    assert_eq!(s.input_tokens, 105);
    assert_eq!((s.calls_today, s.sessions_today), (2, 1));
    assert_eq!(s.avg_tps, Speed::Tokens { tokens: 60, ms: 1_050 });
    assert_eq!(s.window_tps, Speed::Tokens { tokens: 50, ms: 50 });
    assert!(s.is_estimating);
    assert_eq!(s.current_tps, s.window_tps);
    assert_eq!(s.live_source, LiveSource::Window);
    assert_eq!((s.now_ms, s.last_activity_ms), (now, now - 25_000));
    // 25 s ago is three steps back, or two.
    assert_eq!(s.spark[SPARK_BUCKETS - 1 - 3], Speed::Tokens { tokens: 50, ms: 50 });
    assert_eq!(s.spark[SPARK_BUCKETS - 1], s.window_tps);
    assert_eq!(s.spark[0], Speed::Zero);
    assert_eq!(s.rollout_dir, "");
}

#[test]
fn nothing_to_show() {
    let s = snapshot_at(&[], 5);
    assert_eq!((s.avg_tps, s.current_tps, s.window_tps), (Speed::Zero, Speed::Zero, Speed::Zero));
    assert_eq!((s.total_tokens, s.calls_today, s.last_activity_ms), (0, 0, 0));
    assert!(!s.is_estimating && !s.is_live && !s.is_starting && !s.ramping);
    assert_eq!(s.live_source, LiveSource::Idle);
    assert!(s.spark.iter().all(|v| *v == Speed::Zero));
}

#[test]
fn estimate_lasts_for_the_usual_gap() {
    let t = 2_000_000_000i64;
    // Without enough gaps an estimate lasts a minute.
    let two = [call(t, 1_000, 10, 0, 0, "a")];
    assert!(snapshot_at(&two, t + 60_000).is_estimating);
    assert!(!snapshot_at(&two, t + 60_001).is_estimating);
    // Gaps of 30 s, 40 s and 50 s: the middle one.
    let times = [t - 120_000, t - 90_000, t - 50_000, t];
    let calls: Vec<Call> = times.iter().map(|x| call(*x, 1_000, 10, 0, 0, "a")).collect();
    assert!(snapshot_at(&calls, t + 40_000).is_estimating);
    assert!(!snapshot_at(&calls, t + 40_001).is_estimating);
    // Short gaps count as 20 s.
    let quick: Vec<Call> = (0..5).map(|i| call(t - 1_000 * i, 100, 10, 0, 0, "a")).collect();
    assert!(snapshot_at(&quick, t + 20_000).is_estimating);
    assert!(!snapshot_at(&quick, t + 20_001).is_estimating);
    // Long ones as 240 s.
    let slow: Vec<Call> = (0..5).map(|i| call(t - 500_000 * i, 100, 10, 0, 0, "a")).collect();
    assert!(snapshot_at(&slow, t + 240_000).is_estimating);
    assert!(!snapshot_at(&slow, t + 240_001).is_estimating);
}

#[test]
fn cache_reads_leave_the_total() {
    let now = 1_000_000_000i64;
    let a = call(now, 100, 1, 2, 3, "s");
    let mut b = a.clone();
    b.cache_read = 1_000;
    assert_eq!(snapshot_at(&[a], now).total_tokens, snapshot_at(&[b], now).total_tokens);
}

#[test]
fn sums_too_large_are_told() {
    assert!(sums_fit(&[call(0, 100, u64::MAX, 0, 0, "")]));
    assert!(!sums_fit(&[call(0, 100, u64::MAX, 1, 0, "")]));
    assert!(!sums_fit(&[call(0, i64::MAX, 0, 0, 0, ""), call(0, 1, 0, 0, 0, "")]));
}

#[test]
fn another_day_starts_over() {
    let mut a = Aggregator::on_day((2026, 9, 17));
    a.ingest(call(0, 100, 1, 0, 0, "s"));
    a.roll_to((2026, 9, 17));
    assert_eq!(a.calls().len(), 1);
    a.roll_to((2026, 9, 18));
    assert_eq!(a.calls().len(), 0);
    assert_eq!(a.today_ymd, (2026, 9, 18));
    // The date of the machine is another one.
    a.ingest(call(0, 100, 1, 0, 0, "s"));
    a.today_ymd = (1, 1, 1);
    a.rollover_if_needed();
    assert_eq!(a.calls().len(), 0);
    assert!(a.today_ymd.0 > 2000);
    assert_eq!(Aggregator::new().today_ymd, a.today_ymd);
}

fn row(id: &str, completed_at: i64, output: i64) -> UsageRow {
    UsageRow {
        id: id.to_string(),
        started_at: completed_at - 5_000,
        first_token_at: Some(completed_at - 2_000),
        completed_at,
        duration_ms: Some(5_000),
        output_tokens: Some(output),
        reasoning_tokens: None,
        input_tokens: Some(-4),
        cache_creation_tokens: Some(6),
        cache_read_tokens: Some(8),
        session_id: "s".to_string(),
    }
}

#[test]
fn rows_become_calls() {
    let c = Call::from_row(&row("r", 10_000, 11));
    assert_eq!(c.id, "r");
    assert_eq!((c.started_ms, c.first_token_ms, c.completed_ms, c.gen_ms), (5_000, Some(8_000), 10_000, 2_000));
    assert_eq!((c.output, c.reasoning, c.input, c.cache_creation, c.cache_read), (11, 0, 0, 6, 8));
    assert_eq!(c.session, "s");
    let mut r = row("r", 10_000, 11);
    r.first_token_at = None;
    assert_eq!(Call::from_row(&r).gen_ms, 5_000);
    r.first_token_at = Some(10_000);
    r.duration_ms = Some(0);
    assert_eq!(Call::from_row(&r).gen_ms, 50);
    r.duration_ms = None;
    assert_eq!(Call::from_row(&r).gen_ms, 50);
}

#[test]
fn rows_count_once() {
    let mut e = Engine::new(None);
    assert_eq!(e.data_source_label(), "(未找到 ~/.zcode/cli/db/db.sqlite)");
    assert_eq!(Engine::new(Some("p".to_string())).data_source_label(), "p");
    let rows = [row("a", 100, 1), row("b", 200, 2), row("a", 300, 3)];
    assert!(e.fits(&rows));
    let new = e.poll(150, &rows);
    assert_eq!(new.iter().map(|c| c.id.as_str()).collect::<Vec<_>>(), vec!["a", "b"]);
    // Only what finished since the day began is held.
    assert_eq!(e.calls().iter().map(|c| c.id.as_str()).collect::<Vec<_>>(), vec!["b"]);
    assert!(e.poll(150, &rows).is_empty());
    assert_eq!(e.calls().len(), 1);
    assert_eq!(e.poll(150, &[row("d", 400, 1)]).len(), 1);
    assert_eq!(e.calls().len(), 2);
    assert!(!e.fits(&[row("x", 1, i64::MAX), row("y", 1, i64::MAX), row("z", 1, i64::MAX)]));
    // A call that began yesterday and finished today counts.
    let mut late = row("late", 500, 1);
    late.started_at = 100;
    e.poll(150, &[late]);
    assert_eq!(e.calls().len(), 3);
}

#[test]
fn known_rows_need_no_room() {
    let mut e = Engine::new(None);
    let mut large = row("a", 100, i64::MAX);
    large.reasoning_tokens = Some(i64::MAX - 6);
    // What stands on a row that is known is not looked at.
    let mut twin = row("a", i64::MAX, 1);
    twin.first_token_at = Some(i64::MIN);
    let rows = [large, twin];
    assert!(e.fits(&rows));
    assert_eq!(e.poll(0, &rows).len(), 1);
    assert!(e.fits(&rows));
    assert!(e.poll(0, &rows).is_empty());
    assert_eq!(e.calls().len(), 1);
    let mut odd = row("odd", i64::MAX, 1);
    odd.first_token_at = Some(i64::MIN);
    assert!(!e.fits(&[odd]));
    assert!(!e.fits(&[row("b", 100, i64::MAX)]));
}

#[test]
fn second_poll_of_a_day_changes_nothing() {
    let mut e = Engine::new(None);
    e.agg.today_ymd = (2026, 9, 17);
    let rows = [row("a", 100, 1), row("b", 200, 2)];
    assert_eq!(e.poll(50, &rows).len(), 2);
    e.prepare((2026, 9, 17));
    assert!(e.poll(50, &rows).is_empty());
    assert_eq!(e.calls().iter().map(|c| c.id.as_str()).collect::<Vec<_>>(), vec!["a", "b"]);
}

#[test]
fn order_of_calls_leaves_the_figures() {
    let now = 1_000_000_000i64;
    let times = [100_000, 70_000, 45_000, 30_000, 12_000, 1_000];
    let calls: Vec<Call> = times
        .iter()
        .enumerate()
        .map(|(i, t)| call(now - t, 1_000 + i as i64, 10 + i as u64, i as u64, 5, if i % 2 == 0 { "a" } else { "b" }))
        .collect();
    let a = snapshot_at(&calls, now);
    let mut turned: Vec<Call> = calls.iter().rev().cloned().collect();
    turned.swap(1, 4);
    turned[0].id = "other".to_string();
    turned[2].started_ms = 0;
    turned[3].first_token_ms = None;
    let b = snapshot_at(&turned, now);
    assert!(a.is_estimating);
    assert_eq!(format!("{a:?}"), format!("{b:?}"));
}

#[test]
fn order_of_messages_leaves_the_running_call() {
    let now = 1_000_000i64;
    let rows: Vec<(String, i64, bool)> = vec![
        ("a".into(), now - 60_000, false),
        ("a".into(), now - 30_000, true),
        ("b".into(), now - 9_000, false),
        ("b".into(), now - 20_000, true),
        ("c".into(), now - 10_000, false),
    ];
    let expected = Some(("b".to_string(), now - 9_000));
    for turn in 0..rows.len() {
        let mut turned = rows.clone();
        turned.rotate_left(turn);
        assert_eq!(inflight_from_rows(&turned, now), expected);
        turned.reverse();
        assert_eq!(inflight_from_rows(&turned, now), expected);
    }
    // Rows that are not the newest of their session can be left out.
    let newest = vec![rows[1].clone(), rows[2].clone(), rows[4].clone()];
    assert_eq!(inflight_from_rows(&newest, now), expected);
    assert_eq!(inflight_from_rows(&newest[..1], now), None);
}

#[test]
fn another_day_forgets_the_keys() {
    let mut e = Engine::new(None);
    e.agg.today_ymd = (2026, 9, 17);
    e.poll(0, &[row("a", 100, 1)]);
    e.prepare((2026, 9, 17));
    assert!(e.poll(0, &[row("a", 100, 1)]).is_empty());
    e.prepare((2026, 9, 18));
    assert_eq!(e.poll(0, &[row("a", 100, 1)]).len(), 1);
}

#[test]
fn poll_begins_at_midnight() {
    let mut e = Engine::new(None);
    e.agg.today_ymd = (1, 1, 1);
    e.agg.ingest(call(0, 100, 1, 0, 0, "s"));
    let start = e.begin_poll();
    assert!(e.calls().is_empty());
    let now = now_ms();
    assert!(start <= now && now - start <= 2 * 86_400_000);
    let (_, month, day) = e.agg.today_ymd;
    assert!((1..=12).contains(&month) && (1..=31).contains(&day));
    assert_eq!(e.agg.today_ymd, Engine::new(None).agg.today_ymd);
    let s = e.snapshot();
    assert!((s.now_ms - now).abs() < 60_000);
    assert_eq!(s.rollout_dir, e.data_source_label());
}

fn messages(rows: &[(i64, &str)]) -> Vec<(i64, String)> {
    rows.iter().map(|(t, s)| (*t, s.to_string())).collect()
}

#[test]
fn newest_assistant_message_decides() {
    assert_eq!(session_candidate(&messages(&[(3, "{\"role\":\"user\"}")])), None);
    assert_eq!(
        session_candidate(&messages(&[
            (3, "{\"role\":\"user\"}"),
            (2, "{\"role\":\"assistant\",\"time\":{\"created\":2}}"),
            (1, "{\"role\":\"assistant\",\"time\":{\"created\":1,\"completed\":2}}"),
        ])),
        Some((2, false))
    );
    assert_eq!(
        session_candidate(&messages(&[(1, "{\"role\":\"assistant\",\"time\":{\"completed\":2}}")])),
        Some((1, true))
    );
}

#[test]
fn sessions_are_looked_through() {
    let open = "{\"role\":\"assistant\"}";
    let now = now_ms();
    let sessions = vec![
        SessionMessages { session: "a".to_string(), messages: messages(&[(now - 10, "{}")]) },
        SessionMessages { session: "b".to_string(), messages: messages(&[(now - 900_000, open)]) },
        SessionMessages { session: "c".to_string(), messages: messages(&[(now - 2_000, open)]) },
    ];
    assert_eq!(
        candidates(&sessions),
        vec![("b".to_string(), now - 900_000, false), ("c".to_string(), now - 2_000, false)]
    );
    let e = Engine::new(None);
    assert_eq!(e.call_in_flight(&sessions), Some(("c".to_string(), now - 2_000)));
    assert_eq!(e.call_in_flight(&sessions[..2]), None);
}

#[test]
fn gating_edges() {
    let now = 1_000_000i64;
    // Ten minutes to the millisecond.
    assert!(inflight_from_rows(&[("z".into(), now - 600_000, false)], now).is_some());
    assert!(inflight_from_rows(&[("z".into(), now - 600_001, false)], now).is_none());
    // Of two rows as new as each other, the first one counts.
    assert!(inflight_from_rows(&[("z".into(), 5, false), ("z".into(), 5, true)], 6).is_some());
    assert!(inflight_from_rows(&[("z".into(), 5, true), ("z".into(), 5, false)], 6).is_none());
    // The call that began last.
    assert_eq!(
        inflight_from_rows(&[("a".into(), 5, false), ("b".into(), 7, false), ("c".into(), 6, false)], 8),
        Some(("b".to_string(), 7))
    );
}
