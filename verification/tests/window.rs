use zcode_speed_panel::paths;
use zcode_speed_panel::window::{
    centre, clamp_to_screen, click_hides, load_persisted, plan, FloatStyle, MaximizeAction, Mode, Persisted, Rect,
    WindowSize, WindowState,
};

const SECOND: u64 = 1_000_000_000;

#[test]
fn modes_have_names() {
    for m in [Mode::Full, Mode::Float] {
        assert_eq!(Mode::parse(m.as_str()), m);
        assert_eq!(m.toggled().toggled(), m);
        assert_ne!(m.toggled(), m);
    }
    assert_eq!(Mode::parse(" float\n"), Mode::Float);
    assert_eq!(Mode::parse("Float"), Mode::Full);
    assert_eq!(Mode::parse(""), Mode::Full);
    assert_eq!((Mode::Full.as_str(), Mode::Float.as_str()), ("full", "float"));
}

#[test]
fn styles_have_names() {
    for f in [FloatStyle::Gauge, FloatStyle::Pill, FloatStyle::Pet] {
        assert_eq!(FloatStyle::parse(f.as_str()), f);
    }
    assert_eq!(FloatStyle::parse("\tpill "), FloatStyle::Pill);
    assert_eq!(FloatStyle::parse("pet"), FloatStyle::Pet);
    assert_eq!(FloatStyle::parse("nothing"), FloatStyle::Gauge);
}

#[test]
fn remembered_window() {
    let p = Persisted {
        mode: "float".to_string(),
        style: "pet".to_string(),
        full_pos: Some((1, 2)),
        float_pos: None,
    };
    let p = load_persisted(Some("{}".to_string()), Some(p));
    let mut s = WindowState::new(false);
    s.restore(&p);
    assert_eq!((s.mode, s.style, s.full_pos, s.float_pos), (Mode::Float, FloatStyle::Pet, Some((1, 2)), None));
    // A bare name is a mode.
    let p = load_persisted(Some("float\n".to_string()), None);
    assert_eq!((p.mode.as_str(), p.style.as_str(), p.full_pos), ("float\n", "", None));
    s.restore(&p);
    assert_eq!((s.mode, s.style), (Mode::Float, FloatStyle::Gauge));
    assert_eq!(load_persisted(None, None).mode, "");
}

const SCREEN: Rect = Rect { x: -1920, y: 100, w: 1920, h: 1080 };

#[test]
fn windows_are_kept_on_screen() {
    assert_eq!(clamp_to_screen(Some(SCREEN), -1000, 500, 200, 200), (-1000, 500));
    assert_eq!(clamp_to_screen(Some(SCREEN), -5000, 0, 200, 200), (-1920, 100));
    assert_eq!(clamp_to_screen(Some(SCREEN), 50, 5000, 200, 200), (-200, 980));
    // Larger than the screen: its corner is the corner of the screen.
    assert_eq!(clamp_to_screen(Some(SCREEN), 50, 5000, 4000, 4000), (-1920, 100));
    assert_eq!(clamp_to_screen(None, 50, 5000, 4000, 4000), (50, 5000));
    let (x, y) = clamp_to_screen(Some(SCREEN), 50, 5000, 300, 300);
    assert_eq!(clamp_to_screen(Some(SCREEN), x, y, 300, 300), (x, y));
}

#[test]
fn modes_are_set_up() {
    let full = plan(Mode::Full, FloatStyle::Pet);
    assert_eq!(full.size, WindowSize::Fixed { w: 1000, h: 700 });
    assert_eq!(full.min_size, Some((720, 520)));
    assert!(full.resizable && full.shadow && !full.always_on_top && !full.skip_taskbar);
    let gauge = plan(Mode::Float, FloatStyle::Gauge);
    assert_eq!(gauge.size, WindowSize::Fixed { w: 116, h: 116 });
    assert_eq!(gauge.min_size, None);
    assert!(!gauge.resizable && !gauge.shadow && gauge.always_on_top && gauge.skip_taskbar);
    assert_eq!(plan(Mode::Float, FloatStyle::Pill).size, WindowSize::Fixed { w: 224, h: 78 });
    assert_eq!(plan(Mode::Float, FloatStyle::Pet).size, WindowSize::Pet);
}

#[test]
fn each_mode_keeps_its_place() {
    let mut s = WindowState::new(false);
    let here = Rect { x: 100, y: 200, w: 1001, h: 700 };
    assert_eq!(s.wanted_position(&here, 116, 116), None);
    assert!(s.collapse_switches());
    s.switch_mode(Mode::Float, Some((100, 200)));
    assert!(!s.collapse_switches());
    // Never stood anywhere: centred on the panel.
    assert_eq!(s.wanted_position(&here, 116, 117), Some((100 + 500 - 58, 200 + 350 - 58)));
    s.switch_mode(Mode::Full, Some((7, 8)));
    assert_eq!(s.wanted_position(&here, 1000, 700), Some((100, 200)));
    s.switch_mode(Mode::Float, None);
    assert_eq!(s.wanted_position(&here, 116, 116), Some((7, 8)));
    assert_eq!(centre(&here), (600, 550));
    assert_eq!(centre(&Rect { x: i32::MAX, y: 0, w: 10, h: 0 }).0, i32::MAX);
}

#[test]
fn moves_are_written_down_now_and_then() {
    let mut s = WindowState::new(false);
    assert!(s.on_window_moved((1, 1), 5 * SECOND));
    assert!(!s.on_window_moved((2, 2), 7 * SECOND));
    assert_eq!((s.full_pos, s.float_pos), (Some((2, 2)), None));
    assert!(s.on_window_moved((3, 3), 7 * SECOND + 1));
    s.switch_mode(Mode::Float, None);
    s.on_window_moved((4, 4), 8 * SECOND);
    assert_eq!((s.full_pos, s.float_pos), (Some((3, 3)), Some((4, 4))));
}

#[test]
fn styles_change_the_floating_window_only() {
    let mut s = WindowState::new(false);
    assert!(!s.set_float_style(FloatStyle::Pet));
    assert!(!s.pet_is_shown());
    s.switch_mode(Mode::Float, None);
    assert!(s.pet_is_shown());
    assert!(s.set_float_style(FloatStyle::Pill));
    assert!(!s.pet_is_shown());
}

#[test]
fn maximizing_comes_back() {
    let mut s = WindowState::new(true);
    let at = Rect { x: -500, y: 300, w: 400, h: 300 };
    assert_eq!(
        s.toggle_maximize_safe(true, at, Some(SCREEN), 56),
        MaximizeAction::Fill { to: Rect { x: -1920, y: 156, w: 1920, h: 1024 } }
    );
    let before = s;
    assert_eq!(s.toggle_maximize_safe(true, SCREEN, None, 56), MaximizeAction::Restore { to: at });
    assert_eq!(s.saved_max, None);
    // A floating window is not restored.
    let mut s = before;
    s.switch_mode(Mode::Float, None);
    assert_eq!(s.saved_max, None);
    assert_eq!(s.toggle_maximize_safe(true, at, None, 56), MaximizeAction::System);
    assert_eq!(s.saved_max, Some(at));
    // Elsewhere the system does it.
    let mut s = WindowState::new(false);
    assert_eq!(s.toggle_maximize_safe(false, at, Some(SCREEN), 56), MaximizeAction::System);
    assert_eq!(s.saved_max, None);
    let low = Rect { x: 0, y: 0, w: 10, h: 20 };
    assert_eq!(
        s.toggle_maximize_safe(true, at, Some(low), 28),
        MaximizeAction::Fill { to: Rect { x: 0, y: 28, w: 10, h: 0 } }
    );
}

#[test]
fn hint_is_given_once() {
    let mut s = WindowState::new(true);
    assert!(s.tray_hint_once());
    assert!(!s.tray_hint_once());
    assert!(!WindowState::new(false).tray_hint_once());
    assert!(click_hides(true, false));
    assert!(!click_hides(true, true));
    assert!(!click_hides(false, false));
}

#[test]
fn places_below_home() {
    assert_eq!(paths::home_dir(Some("u"), Some("h")), Some("u"));
    assert_eq!(paths::home_dir(None, Some("h")), Some("h"));
    assert_eq!(paths::home_dir::<&str>(None, None), None);
    let p = paths::usage_db_path(Some("h")).unwrap();
    assert_eq!((p.home, p.below), ("h", vec![".zcode", "cli", "db", "db.sqlite"]));
    assert!(paths::usage_db_path::<&str>(None).is_none());
    assert_eq!(paths::checkpoints_dir(Some(1)).unwrap().below, vec![".zcode", "v2", "checkpoints"]);
    assert_eq!(paths::guard_file_path(Some(1)).unwrap().below, vec![".zcode", "speed-panel-guard.json"]);
    assert_eq!(paths::mode_file(Some(1)).unwrap().below, vec![".zcode", "speed-panel-mode.txt"]);
    assert_eq!(paths::debug_log_path(Some(1)).unwrap().below, vec![".zcode", "speed-panel-debug.jsonl"]);
}
