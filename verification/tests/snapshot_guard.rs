use zcode_speed_panel::snapshot_guard::{
    parse_state_summary, scan_workspace, summarize_scans, try_summarize, ApplyStep, GuardError, GuardFile,
    ScanSummary, SnapshotGuard, StateSummary,
};

#[test]
fn state_summary_parse_and_aggregate() {
    let ok = parse_state_summary(
        r#"{"workspacePath":"/Users/x/proj","failureCount":3,
            "lastCompressedSize":{"encryptedSizeBytes":100,"workspaceSizeBytes":200}}"#,
    )
    .expect("应解析成功");
    assert_eq!(ok.failure_count, 3);
    assert_eq!(parse_state_summary(r#"{"workspacePath":"x"}"#).unwrap().failure_count, 0);
    assert!(parse_state_summary("{oops").is_none());
    assert!(parse_state_summary("[]").is_none());

    let scans = vec![
        (Some(ok), vec![100, 50]),
        (None, vec![549_000_000]),
        (Some(StateSummary { failure_count: 7 }), vec![]),
    ];
    let s = summarize_scans(&scans);
    assert_eq!(s.workspace_count, 3);
    assert_eq!(s.artifact_count, 3);
    assert_eq!(s.artifact_bytes, 549_000_150);
    assert_eq!(s.failure_count, 10);
    assert_eq!(summarize_scans(&[]), ScanSummary::default());
}

#[test]
fn sums_beyond_64_bits_are_told() {
    assert!(try_summarize(&[(None, vec![u64::MAX, 1])]).is_none());
    assert_eq!(try_summarize(&[(None, vec![u64::MAX])]).unwrap().artifact_bytes, u64::MAX);
    let full = Some(StateSummary { failure_count: u64::MAX });
    assert!(try_summarize(&[(full, vec![]), (full, vec![])]).is_none());
}

#[test]
fn only_snapshots_are_counted() {
    let files = vec![
        ("a.tar.gz.enc".to_string(), Some(10)),
        ("a.tar.gz".to_string(), Some(20)),
        (".enc".to_string(), Some(30)),
        ("b.enc".to_string(), None),
    ];
    let (state, sizes) = scan_workspace(Some(r#"{"failureCount": 4}"#), &files);
    assert_eq!(state, Some(StateSummary { failure_count: 4 }));
    assert_eq!(sizes, vec![10, 30]);
    assert_eq!(scan_workspace(None, &[]), (None, vec![]));
    assert_eq!(scan_workspace(Some("3"), &[]).0, None);
    // A count that is no plain number is taken for 0.
    assert_eq!(
        scan_workspace(Some(r#"{"failureCount": -1}"#), &[]).0,
        Some(StateSummary { failure_count: 0 })
    );
}

const SECOND: u64 = 1_000_000_000;

fn locked_guard() -> SnapshotGuard {
    let mut g = SnapshotGuard::new(GuardFile::default(), true);
    g.apply(10, 1_000, 0, Ok(())).unwrap();
    g
}

#[test]
fn rounds_are_counted_while_locked() {
    let mut g = locked_guard();
    assert_eq!(g.last_calls_seen(), 10);
    let (s, save) = g.tick(13, 2_000, true, SECOND, None);
    assert_eq!((s.blocked_rounds, s.locked_since_ms, save), (3, Some(1_000), true));
    let (s, save) = g.tick(13, 3_000, true, SECOND, None);
    assert_eq!((s.blocked_rounds, save), (3, false));
    // A new day starts over without counting.
    let (s, save) = g.tick(2, 4_000, true, SECOND, None);
    assert_eq!((s.blocked_rounds, save), (3, false));
    let (s, save) = g.tick(5, 5_000, true, SECOND, None);
    assert_eq!((s.blocked_rounds, save), (6, true));
    assert!(s.supported && s.locked);
    assert!(g.can_count(u64::MAX - 1, true));
    assert!(!g.can_count(u64::MAX, true));
    // Where no round is counted, there is always room.
    assert!(g.can_count(u64::MAX, false));
}

#[test]
fn two_polls_count_like_one() {
    let (mut a, mut b) = (locked_guard(), locked_guard());
    a.tick(12, 2_000, true, SECOND, None);
    a.tick(17, 3_000, true, SECOND, None);
    b.tick(17, 3_000, true, SECOND, None);
    assert_eq!(a.file, b.file);
}

#[test]
fn lock_from_outside_is_recorded() {
    let mut g = SnapshotGuard::new(GuardFile::default(), true);
    let (s, save) = g.tick(8, 500, true, 0, None);
    assert_eq!((s.locked, s.locked_since_ms, s.blocked_rounds, save), (true, Some(500), 0, true));
    assert_eq!(g.file.calls_baseline, Some(8));
    let (s, save) = g.tick(9, 600, false, 0, None);
    assert_eq!((s.locked, s.locked_since_ms, save), (false, None, true));
    assert_eq!(g.file, GuardFile::default());
    let (_, save) = g.tick(9, 700, false, 0, None);
    assert!(!save);
}

#[test]
fn restart_counts_no_round() {
    let file = GuardFile { locked_since_ms: Some(1_000), calls_baseline: Some(0), blocked_rounds: 5 };
    let mut g = SnapshotGuard::new(file, true);
    assert_eq!(g.last_calls_seen(), 0);
    let (s, save) = g.tick(5, 2_000, true, 0, None);
    assert_eq!((s.blocked_rounds, s.locked_since_ms, save), (5, Some(1_000), false));
    assert_eq!(g.last_calls_seen(), 5);
    let (s, save) = g.tick(7, 3_000, true, 0, None);
    assert_eq!((s.blocked_rounds, save), (7, true));
    // Started once more, with nothing new.
    let (s, save) = SnapshotGuard::new(g.file, true).tick(7, 4_000, true, 0, None);
    assert_eq!((s.blocked_rounds, save), (7, false));
}

#[test]
fn full_count_stops_only_a_locked_folder() {
    let file = GuardFile { locked_since_ms: Some(1), calls_baseline: Some(0), blocked_rounds: u64::MAX };
    let mut g = SnapshotGuard::new(file, true);
    assert!(g.can_count(3, true));
    g.tick(3, 2, true, 0, None);
    assert!(!g.can_count(4, true) && g.can_count(3, true));
    assert!(g.can_count(4, false));
    let (s, save) = g.tick(4, 3, false, 0, None);
    assert_eq!((s.blocked_rounds, s.locked_since_ms, save), (0, None, true));
}

#[test]
fn scans_are_throttled() {
    let found = ScanSummary { artifact_count: 1, artifact_bytes: 2, workspace_count: 3, failure_count: 4 };
    let mut g = SnapshotGuard::new(GuardFile::default(), false);
    assert!(g.scan_due(0));
    let (s, _) = g.tick(0, 0, false, SECOND, Some(found));
    assert_eq!((s.artifact_count, s.artifact_bytes, s.workspace_count, s.failure_count), (1, 2, 3, 4));
    assert!(!s.supported);
    assert!(!g.scan_due(6 * SECOND));
    assert!(g.scan_due(6 * SECOND + 1));
    let (s, _) = g.tick(0, 0, false, 6 * SECOND, Some(ScanSummary::default()));
    assert_eq!(s.workspace_count, 3);
    let (s, _) = g.tick(0, 0, false, 6 * SECOND + 1, Some(ScanSummary::default()));
    assert_eq!(s.workspace_count, 0);
    assert_eq!(g.status_without_home().workspace_count, 0);
}

#[test]
fn locking_goes_step_by_step() {
    let mut step = ApplyStep::Probe;
    let mut seen = vec![step];
    while step != ApplyStep::Finished {
        step = step.next(true).unwrap();
        seen.push(step);
    }
    assert_eq!(
        seen,
        vec![
            ApplyStep::Probe,
            ApplyStep::Unlock,
            ApplyStep::LookUp,
            ApplyStep::Clear,
            ApplyStep::Create,
            ApplyStep::Lock,
            ApplyStep::Verify,
            ApplyStep::Finished,
        ]
    );
    assert_eq!(ApplyStep::Probe.next(false), Ok(ApplyStep::LookUp));
    assert_eq!(ApplyStep::LookUp.next(false), Ok(ApplyStep::Create));
    assert_eq!(ApplyStep::Unlock.next(false), Err(GuardError::Unlock));
    assert_eq!(ApplyStep::Clear.next(false), Err(GuardError::Clear));
    assert_eq!(ApplyStep::Create.next(false), Err(GuardError::Create));
    assert_eq!(ApplyStep::Lock.next(false), Err(GuardError::Lock));
    assert_eq!(ApplyStep::Verify.next(false), Err(GuardError::NoEffect));
    assert_eq!(ApplyStep::Finished.next(false), Ok(ApplyStep::Finished));
}

#[test]
fn guard_refuses_what_it_cannot_do() {
    let mut g = SnapshotGuard::new(GuardFile::default(), false);
    assert_eq!(g.ready(true), Err(GuardError::Unsupported));
    assert_eq!(g.apply(1, 2, 3, Ok(())), Err(GuardError::Unsupported));
    assert_eq!(g.release(1, true), Err(GuardError::Unsupported));
    assert_eq!(g, SnapshotGuard::new(GuardFile::default(), false));
    let mut g = locked_guard();
    assert_eq!(g.ready(false), Err(GuardError::NoHome));
    assert_eq!(g.ready(true), Ok(()));
    assert_eq!(g.apply(1, 2, 3, Err(GuardError::NoEffect)), Err(GuardError::NoEffect));
    assert_eq!(g.release(1, false), Err(GuardError::Unlock));
    assert_eq!(g, locked_guard());
    assert_eq!(g.release(12, true), Ok(()));
    assert_eq!((g.file, g.last_calls), (GuardFile::default(), Some(12)));
    assert_eq!(g.status(false).locked_since_ms, None);
}
