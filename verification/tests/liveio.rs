use std::collections::VecDeque;

use zcode_speed_panel::exact::{Amount, Natural, Ratio};
use zcode_speed_panel::liveio::calibration::{awaiting_hint, cal_sample, median_bpt, noise_floor, Bpt};
use zcode_speed_panel::liveio::params::CleanParams;
use zcode_speed_panel::liveio::rows::{build_rows, integrate, TickRow};
use zcode_speed_panel::liveio::state::WINDOW_MS;

const TICK: i64 = 700;
const FLOOR_CAP_BYTES: f64 = 2_000.0;
const BASE_NOISE_BPS: f64 = 3_000.0;
const DEFAULT_BPT: f64 = 600.0;
const CAL_MIN: f64 = 100.0;
const CAL_MAX: f64 = 6_000.0;

/// Samples (time, running total), one per tick, with the given gains.
fn series(start_ms: i64, deltas: &[f64]) -> Vec<(i64, u64)> {
    let mut out = Vec::with_capacity(deltas.len() + 1);
    let mut acc = 0u64;
    out.push((start_ms, acc));
    for (i, d) in deltas.iter().enumerate() {
        acc += *d as u64;
        out.push((start_ms + (i as i64 + 1) * TICK, acc));
    }
    out
}

fn bytes(row: &TickRow) -> f64 {
    row.millibytes as f64 / 1000.0
}

fn float(n: &Natural) -> f64 {
    match n {
        Natural::Zero => 0.0,
        Natural::Digit { low, high } => *low as f64 + 4_294_967_296.0 * float(high),
    }
}

/// The integral in bytes and seconds.
fn integral(rows: &[TickRow], from_ms: i64, to_ms: i64) -> (f64, f64) {
    let (b, ms) = integrate(rows, from_ms, to_ms);
    let (gain, loss, per) = b.parts();
    ((float(gain) - float(loss)) / float(per) / 1000.0, ms as f64 / 1000.0)
}

fn bpt(v: f64) -> Bpt {
    Bpt { millibytes: Ratio::whole((v * 1000.0).round() as u128), tokens: 1 }
}

fn per_token(b: &Bpt) -> f64 {
    let v = b.per_token();
    let (num, den) = v.parts();
    float(num) / float(den)
}

/// Whether a call with so many thousandths of a byte becomes a sample, and which.
fn exact_sample(eff: u64, clean: i128, raw: u128, now: f64, p: &CleanParams) -> (bool, Bpt) {
    cal_sample(eff, &Amount::new(clean, 1), raw, &bpt(now), p)
}

fn sample(eff: u64, clean: f64, raw: f64, now: f64, p: &CleanParams) -> (bool, f64) {
    let (ok, v) = exact_sample(eff, (clean * 1000.0).round() as i128, raw as u128, now, p);
    (ok, per_token(&v))
}

/// The integral is exactly `n / d` thousandths of a byte in `ms`.
fn integral_is(rows: &[TickRow], span: (i64, i64), n: i128, d: u128, ms: i128) -> bool {
    let (b, time) = integrate(rows, span.0, span.1);
    let rest = b.plus(&Amount::new(-n, d));
    let (gain, loss, _) = rest.parts();
    time == ms && !gain.less(loss) && !loss.less(gain)
}

#[test]
fn burst_tick_dropped_entirely() {
    let s = series(0, &[190_000.0, 52_000.0, 52_000.0]);
    let files = s.iter().map(|(t, _)| (*t, 0u64)).collect::<Vec<_>>();
    let rows = build_rows(&s, &files, 0, &CleanParams::windows());
    assert_eq!(rows.len(), 2);
    assert!(rows.iter().all(|r| bytes(r) < 52_000.0));
    let secs = integral(&rows, i64::MIN, i64::MAX).1;
    assert!((secs - 1.4).abs() < 1e-9);
}

#[test]
fn floor_capped_against_ring_poisoning() {
    let s = series(0, &[52_000.0; 4]);
    let files = s.iter().map(|(t, _)| (*t, 0u64)).collect::<Vec<_>>();
    let rows = build_rows(&s, &files, 50_000, &CleanParams::windows());
    let floor = FLOOR_CAP_BYTES + BASE_NOISE_BPS * (TICK as f64 / 1000.0);
    assert_eq!(rows.len(), 4);
    for r in &rows {
        assert!((bytes(r) - (52_000.0 - floor)).abs() < 1e-6);
    }
}

#[test]
fn flush_mismatch_yields_negative_not_clamped() {
    let s = series(0, &[20_000.0, 60_000.0, 20_000.0]);
    let files = vec![
        (s[0].0, 0u64),
        (s[1].0, 0u64),
        (s[2].0, 60_000u64),
        (s[3].0, 60_000u64),
    ];
    let rows = build_rows(&s, &files, 0, &CleanParams::windows());
    let floor = BASE_NOISE_BPS * (TICK as f64 / 1000.0);
    assert!(bytes(&rows[1]) < 0.0, "flush 拍应为负: {}", bytes(&rows[1]));
    let (b, _) = integral(&rows, i64::MIN, i64::MAX);
    assert!((b - (100_000.0 - 60_000.0 - 3.0 * floor)).abs() < 1e-6);
}

#[test]
fn integrate_prorates_boundary_ticks() {
    let rows = vec![TickRow { dt_ms: 1000, millibytes: 1_000_000, end_ms: 10_000 }];
    let (b, s) = integral(&rows, 9_500, 10_000);
    assert!((b - 500.0).abs() < 1e-9);
    assert!((s - 0.5).abs() < 1e-9);
    let (b, _) = integral(&rows, 10_500, 11_000);
    assert_eq!(b, 0.0);
}

#[test]
fn median_bpt_sliding() {
    let mut s = VecDeque::new();
    assert!((per_token(&median_bpt(&mut s, bpt(600.0), 5)) - 600.0).abs() < 1e-9);
    median_bpt(&mut s, bpt(800.0), 5);
    median_bpt(&mut s, bpt(400.0), 5);
    assert_eq!(s.len(), 3);
    assert!((per_token(&median_bpt(&mut s, bpt(500.0), 5)) - 600.0).abs() < 1e-9);
}

#[test]
fn prior_sample_prevents_single_sample_takeover() {
    let mut s = VecDeque::new();
    s.push_back(bpt(DEFAULT_BPT));
    let b1 = per_token(&median_bpt(&mut s, bpt(179.0), 5));
    assert!((b1 - DEFAULT_BPT).abs() < 1e-9, "单个样本不应撼动先验: {b1}");
    let b2 = per_token(&median_bpt(&mut s, bpt(552.0), 5));
    assert!((b2 - 552.0).abs() < 1e-9);
}

#[test]
fn awaiting_hint_window() {
    assert!(awaiting_hint(Some(1_000), None, 5_000));
    assert!(awaiting_hint(Some(1_000), None, 21_000));
    assert!(!awaiting_hint(Some(1_000), None, 21_001));
    assert!(!awaiting_hint(Some(1_000), Some(2_000), 5_000));
    assert!(!awaiting_hint(None, None, 5_000));
    assert!(!awaiting_hint(None, Some(1_000), 5_000));
}

#[test]
fn cal_sample_rejects_silent_pipe_calls() {
    let (ok, _) = sample(887, 5_939.0, 1_048_576.0, DEFAULT_BPT, &CleanParams::windows());
    assert!(!ok);
    let (ok, v) = sample(1028, 526.5 * 1024.0, 900.0 * 1024.0, DEFAULT_BPT, &CleanParams::windows());
    assert!(ok);
    assert!((v - 524.0).abs() < 15.0);
    assert!(!sample(64, 50_000.0, 80_000.0, DEFAULT_BPT, &CleanParams::windows()).0);
    let (ok, v) = sample(449, 67.5 * 1024.0, 130.0 * 1024.0, DEFAULT_BPT, &CleanParams::windows());
    assert!(ok);
    assert!((v - 150.0).abs() < 5.0);
    assert!(
        !sample(
            500,
            500.0 * 6000.0 * 1.1,
            500.0 * 6000.0 * 1.2,
            DEFAULT_BPT,
            &CleanParams::windows()
        )
        .0
    );
}

fn mac_params() -> CleanParams {
    CleanParams {
        burst_tick_bytes: u64::MAX,
        base_noise_bps: 0,
        floor_cap_bytes: 2_000,
        cal_min: 100,
        cal_max: 12_000,
        cal_min_tokens: 300,
        default_bpt: 700,
        detect_ms: 2_500,
        cal_grace_ms: 15_000,
        cal_outlier_ratio: 3,
    }
}

#[test]
fn mac_outlier_sample_rejected() {
    let mac = mac_params();
    let (ok, v) = sample(1_000, 650_000.0, 900_000.0, 700.0, &mac);
    assert!(ok);
    assert!((v - 650.0).abs() < 1e-6);
    let (ok, v) = sample(1_000, 186_000.0, 300_000.0, 700.0, &mac);
    assert!(!ok);
    assert_eq!(v, 0.0);
    assert!(!sample(1_000, 2_500_000.0, 3_000_000.0, 700.0, &mac).0);
    assert!(sample(1_000, 186_000.0, 300_000.0, DEFAULT_BPT, &CleanParams::windows()).0);
}

#[test]
fn mac_grace_window_captures_delayed_disk_writes() {
    const TRUE_TPS: f64 = 50.0;
    const BPT_TRUE: f64 = 3_900.0;
    let gen_ms = 30_000i64;
    let n = (gen_ms / TICK) as usize;
    let total = TRUE_TPS * BPT_TRUE * (gen_ms as f64 / 1000.0);
    let t0 = 1_000_000i64;
    let mut deltas = vec![0.0; n];
    deltas.extend(std::iter::repeat(0.0).take(10));
    let chunk = total / 4.0;
    deltas.extend(std::iter::repeat(chunk).take(4));
    let samples = series(t0, &deltas);
    let files = samples.iter().map(|(t, _)| (*t, 0u64)).collect::<Vec<_>>();
    let rows = build_rows(&samples, &files, 0, &mac_params());
    let call_end = t0 + (n as i64) * TICK;
    let stream_start = call_end - gen_ms;
    let eff = (TRUE_TPS * (gen_ms as f64 / 1000.0)) as u64;

    let (no_grace, _) = integral(&rows, stream_start, call_end);
    assert!(no_grace < total * 0.5, "无宽限窗口不应看到大部分字节: {no_grace}");
    let (clean, _) = integral(&rows, stream_start, call_end + mac_params().cal_grace_ms);
    let bpt = clean / eff as f64;
    assert!(
        (bpt - BPT_TRUE).abs() / BPT_TRUE < 0.05,
        "宽限窗口样本 {bpt:.0} 应接近真值 {BPT_TRUE:.0}"
    );
}

#[test]
fn synthetic_call_converges_to_true_tps() {
    const TRUE_TPS: f64 = 50.0;
    const BPT_TRUE: f64 = 600.0;
    const FLUSH_RATIO: f64 = 0.5;
    const NOISE: f64 = 1_500.0;

    let gen_ms = 30_000i64;
    let n = (gen_ms / TICK) as usize;
    let stream_per_tick = TRUE_TPS * BPT_TRUE * (TICK as f64 / 1000.0);
    let mut deltas = Vec::with_capacity(n + 1);
    deltas.push(190_000.0);
    for _ in 0..n {
        deltas.push(stream_per_tick + NOISE);
    }
    let t0 = 1_000_000i64;
    let samples = series(t0, &deltas);
    let mut files = vec![(samples[0].0, 0u64)];
    for (i, d) in deltas.iter().enumerate() {
        let prev = files[i].1;
        files.push((samples[i + 1].0, prev + (*d * FLUSH_RATIO) as u64));
    }

    let rows = build_rows(&samples, &files, 40_000, &CleanParams::windows());
    let call_end = t0 + (deltas.len() as i64) * TICK;
    let stream_start = call_end - gen_ms;

    let (clean, cov_s) = integral(&rows, stream_start, call_end);
    let eff = (TRUE_TPS * (gen_ms as f64 / 1000.0)) as u64;
    let bpt = (clean / eff as f64).clamp(CAL_MIN, CAL_MAX);
    assert!(cov_s > (gen_ms as f64 / 1000.0) * 0.9, "积分应覆盖调用区间: {cov_s}");

    let (wb, ws) = integral(&rows, call_end - WINDOW_MS, call_end);
    let pipe_bps = (wb / ws).max(0.0);
    let shown = pipe_bps / bpt;
    assert!(
        (shown - TRUE_TPS).abs() / TRUE_TPS < 0.05,
        "校准后显示 {shown:.1} 应接近真值 {TRUE_TPS}"
    );
}

#[test]
fn delayed_flush_still_converges() {
    const TRUE_TPS: f64 = 50.0;
    const BPT_TRUE: f64 = 600.0;
    let gen_ms = 30_000i64;
    let n = (gen_ms / TICK) as usize;
    let stream_per_tick = TRUE_TPS * BPT_TRUE * (TICK as f64 / 1000.0);
    let deltas: Vec<f64> = std::iter::once(190_000.0)
        .chain(std::iter::repeat(stream_per_tick).take(n))
        .collect();
    let t0 = 1_000_000i64;
    let samples = series(t0, &deltas);
    let total_flush: u64 = (deltas.iter().sum::<f64>() * 0.5) as u64;
    let mut files = Vec::with_capacity(deltas.len() + 1);
    for (i, (t, _)) in samples.iter().enumerate() {
        let v = if i == samples.len() - 1 { total_flush } else { 0 };
        files.push((*t, v));
    }
    let rows = build_rows(&samples, &files, 0, &CleanParams::windows());
    let call_end = t0 + (deltas.len() as i64) * TICK;
    let (clean, _) = integral(&rows, call_end - gen_ms, call_end);
    let eff = (TRUE_TPS * (gen_ms as f64 / 1000.0)) as u64;
    let bpt = (clean / eff as f64).clamp(CAL_MIN, CAL_MAX);
    let (wb, ws) = integral(&rows, call_end - WINDOW_MS, call_end);
    let shown = ((wb / ws).max(0.0)) / bpt;
    assert!(
        (shown - TRUE_TPS).abs() / TRUE_TPS < 0.05,
        "延迟 flush 场景显示 {shown:.1} 应接近真值 {TRUE_TPS}"
    );
}

#[test]
fn platform_settings() {
    assert_eq!(CleanParams::platform(true), mac_params());
    assert_eq!(CleanParams::platform(true), CleanParams::macos());
    assert_eq!(CleanParams::platform(false), CleanParams::windows());
    assert_eq!(CleanParams::windows().burst_tick_bytes, 100_000);
    assert_eq!(CleanParams::windows().default_bpt, 600);
    assert_eq!(CleanParams::windows().cal_grace_ms, 0);
}

#[test]
fn rows_take_off_files_floor_and_noise() {
    // 30000 written in 500 ms, 7000 grown, a floor of 400, 3000 B/s of noise.
    let rows = build_rows(
        &[(0, 1_000), (500, 31_000)],
        &[(0, 0), (500, 7_000)],
        400,
        &CleanParams::windows(),
    );
    assert_eq!(
        rows,
        vec![TickRow { dt_ms: 500, millibytes: 30_000_000 - 7_000_000 - 400_000 - 1_500_000, end_ms: 500 }]
    );
}

#[test]
fn rows_skip_ticks_without_time_and_falling_totals() {
    let p = CleanParams::macos();
    let rows = build_rows(&[(0, 500), (0, 900), (100, 100), (200, 150)], &[], 0, &p);
    assert_eq!(
        rows,
        vec![
            TickRow { dt_ms: 100, millibytes: 0, end_ms: 100 },
            TickRow { dt_ms: 100, millibytes: 50_000, end_ms: 200 },
        ]
    );
    assert!(build_rows(&[(0, 500)], &[], 0, &p).is_empty());
    assert!(build_rows(&[], &[], 0, &p).is_empty());
}

#[test]
fn cut_ticks_keep_the_fraction() {
    let rows = [TickRow { dt_ms: 3, millibytes: 10, end_ms: 3 }];
    assert!(integral_is(&rows, (0, 1), 10, 3, 1));
    assert!(integral_is(&rows, (1, 3), 20, 3, 2));
    let rows = [TickRow { dt_ms: 3, millibytes: -10, end_ms: 3 }];
    assert!(integral_is(&rows, (0, 1), -10, 3, 1));
    assert!(integral_is(&rows, (0, 3), -10, 1, 3));
    // A third of one tick and a seventh of another.
    let rows = [
        TickRow { dt_ms: 3, millibytes: 1, end_ms: 3 },
        TickRow { dt_ms: 7, millibytes: 1, end_ms: 10 },
    ];
    assert!(integral_is(&rows, (2, 4), 1 * 7 + 1 * 3, 21, 2));
}

#[test]
fn adjoining_spans_add_up_exactly() {
    let rows = [
        TickRow { dt_ms: 700, millibytes: -12_345_678, end_ms: 700 },
        TickRow { dt_ms: 300, millibytes: 33_333_333, end_ms: 1_000 },
    ];
    for cut in 0..=1_000 {
        let (a, b) = (integrate(&rows, 0, cut), integrate(&rows, cut, 1_000));
        let rest = a.0.plus(&b.0).plus(&Amount::new(-20_987_655, 1));
        let (gain, loss, _) = rest.parts();
        assert!(!gain.less(loss) && !loss.less(gain));
        assert_eq!(a.1 + b.1, 1_000);
    }
    // Ticks of two lists together have what each list has: 600 ms of the one, and
    // 200 ms of the other.
    assert!(integral_is(&rows[..1], (100, 900), -12_345_678 * 6, 7, 600));
    assert!(integral_is(&rows[1..], (100, 900), 33_333_333 * 2, 3, 200));
    assert!(integral_is(&rows, (100, 900), -12_345_678 * 6 * 3 + 33_333_333 * 2 * 7, 21, 800));
    // A span the wrong way round is empty.
    assert!(integral_is(&rows, (900, 100), 0, 1, 0));
    assert!(integral_is(&rows, (500, 500), 0, 1, 0));
}

#[test]
fn call_without_tokens_is_no_sample() {
    let p = CleanParams { cal_min_tokens: 0, ..CleanParams::windows() };
    assert!(!exact_sample(0, 600_000, 1_000, 600.0, &p).0);
    assert!(exact_sample(1, 600_000, 1_000, 600.0, &p).0);
}

#[test]
fn covering_span_gives_plain_sums() {
    let rows = [
        TickRow { dt_ms: 700, millibytes: 21_000_000, end_ms: 700 },
        TickRow { dt_ms: 700, millibytes: -40_000_000, end_ms: 1_400 },
        TickRow { dt_ms: 300, millibytes: 33_333_333, end_ms: 1_700 },
    ];
    assert!(integral_is(&rows, (0, 1_700), 14_333_333, 1, 1_700));
}

#[test]
fn noise_floor_is_twice_the_low_tenth() {
    let mut samples = vec![(0i64, 0u64)];
    for i in 1..=19u64 {
        samples.push((i as i64 * 700, samples[i as usize - 1].1 + 100));
    }
    assert_eq!(noise_floor(&samples), 0);
    samples.push((20 * 700, samples[19].1 + 100));
    assert_eq!(noise_floor(&samples), 200);
    let mut rising = vec![(0i64, 0u64)];
    for i in 1..=20u64 {
        rising.push((i as i64 * 700, rising[i as usize - 1].1 + i));
    }
    // Gains 1..=20: the one at place 2 is 3.
    assert_eq!(noise_floor(&rising), 6);
}

#[test]
fn median_keeps_the_newest_samples() {
    let mut s = VecDeque::new();
    for v in [100.0, 200.0, 300.0, 400.0, 500.0, 600.0] {
        median_bpt(&mut s, bpt(v), 5);
    }
    assert_eq!(s.len(), 5);
    assert_eq!(s[0], bpt(200.0));
    assert_eq!(median_bpt(&mut s, bpt(1.0), 5), bpt(400.0));
}

#[test]
fn sample_borders_are_exact() {
    let p = CleanParams::windows();
    // Exactly a fifth of what was written, and exactly the least per token.
    assert_eq!(exact_sample(300, 30_000_000, 150_000, 600.0, &p).0, true);
    assert_eq!(exact_sample(300, 30_000_000, 150_001, 600.0, &p).0, false);
    assert_eq!(exact_sample(300, 29_999_999, 1, 600.0, &p).0, false);
    assert_eq!(exact_sample(300, 1_800_000_000, 1, 600.0, &p).0, true);
    assert_eq!(exact_sample(300, 1_800_000_001, 1, 600.0, &p).0, false);
    assert_eq!(exact_sample(299, 30_000_000, 1, 600.0, &p).0, false);
    let (ok, none) = exact_sample(300, 0, 1, 600.0, &p);
    assert_eq!((ok, per_token(&none)), (false, 0.0));
    assert_eq!(exact_sample(300, 30_000_000, 0, 600.0, &p).0, false);
    // Three times above is still let in on macOS.
    assert!(exact_sample(1_000, 2_100_000_000, 3_000_000, 700.0, &CleanParams::macos()).0);
    assert!(!exact_sample(1_000, 2_100_000_001, 3_000_000, 700.0, &CleanParams::macos()).0);
}
