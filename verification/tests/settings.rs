use toolshot::session::{log_needs_reset, prevents_exit, suggested_file_name, ui_mode, UiMode};
use toolshot::session::{check_screen_permission, settle_delay_ms, Busy, CaptureState, OverlayKind, OverlayMode, PickerState};
use toolshot::settings::{check_url, Settings, SettingsState, ShortcutChange, ShortcutKind};
use toolshot::windows::{select_windows, WindowCandidate, WindowInfo};

fn state(capture: Option<&str>) -> SettingsState {
    SettingsState {
        settings: Settings { capture_shortcut: capture.map(|s| s.to_string()), ..Settings::default() },
    }
}

#[test]
fn shortcut_change_plans() {
    let s = state(Some("Cmd+KeyC"));
    assert_eq!(s.plan_shortcut_change("capture", &Some("Cmd+KeyC".to_string())), Ok(ShortcutChange::SaveNow));
    assert_eq!(s.plan_shortcut_change("capture", &Some("Cmd+KeyD".to_string())), Ok(ShortcutChange::ProbeFirst));
    assert_eq!(s.plan_shortcut_change("picker", &Some("Cmd+KeyC".to_string())), Ok(ShortcutChange::ProbeFirst));
    assert_eq!(s.plan_shortcut_change("capture", &None), Ok(ShortcutChange::SaveNow));
    assert_eq!(s.plan_shortcut_change("pick", &None), Err("unknown shortcut kind".to_string()));
}

#[test]
fn apply_shortcut_change_sets_one_kind() {
    let mut s = state(Some("Cmd+KeyC"));
    s.apply_shortcut_change("fullscreen", Some("Ctrl+KeyF".to_string()));
    assert_eq!(s.settings.shortcut(ShortcutKind::Fullscreen), Some("Ctrl+KeyF".to_string()));
    assert_eq!(s.settings.shortcut(ShortcutKind::Capture), Some("Cmd+KeyC".to_string()));
    s.apply_shortcut_change("capture", None);
    assert_eq!(s.settings.capture_shortcut, None);
    s.apply_shortcut_change("bogus", Some("X".to_string()));
    assert_eq!(s.settings.picker_shortcut, None);
    assert_eq!(ShortcutKind::named("picker"), Some(ShortcutKind::Picker));
}

#[test]
fn only_project_urls_open() {
    assert!(check_url("https://deekahy.github.io/toolshot/").is_ok());
    assert!(check_url("https://github.com/DeeKahy/toolshot/releases").is_ok());
    assert_eq!(check_url("https://example.com"), Err("refusing to open unexpected url".to_string()));
    assert!(check_url("https://github.com/DeeKahy").is_err());
}

#[test]
fn session_state() {
    let mut c = CaptureState::new();
    assert_eq!(c.capture_png().unwrap_err(), "no capture available");
    c.store(vec![1, 2]);
    assert_eq!(c.capture_png().unwrap(), &vec![1, 2]);
    c.clear();
    assert!(c.png.is_none());

    let mut m = OverlayMode::new();
    assert_eq!(m.overlay_mode(), "capture");
    m.set(OverlayKind::Pick);
    assert_eq!(m.overlay_mode(), "pick");

    let mut p = PickerState::new();
    assert_eq!(p.picked_color(), Err("no color picked".to_string()));
    p.pick(1, 2, 3);
    assert_eq!(p.picked_color(), Ok((1, 2, 3)));

    let mut b = Busy::new();
    assert!(!b.keeps_alive());
    b.enter();
    b.enter();
    b.leave();
    assert!(b.keeps_alive());
    b.leave();
    assert!(!b.keeps_alive());

    assert!(check_screen_permission());
    assert_eq!(settle_delay_ms(true), 250);
    assert_eq!(settle_delay_ms(false), 150);
}

fn cand(id: u32, app: &str, title: &str, w: u32, h: u32, z: i32, minimized: bool) -> WindowCandidate {
    WindowCandidate {
        info: WindowInfo {
            id,
            app_name: app.to_string(),
            title: title.to_string(),
            x: 0,
            y: 0,
            width: w,
            height: h,
            z,
        },
        minimized,
    }
}

#[test]
fn windows_filtered_and_topmost_first() {
    let cands = vec![
        cand(1, "Editor", "a.rs", 800, 600, 3, false),
        cand(2, "Dock", "", 1000, 80, 9, false),
        cand(3, "ToolShot", "x", 500, 500, 8, false),
        cand(4, "Term", "toolshot overlay", 500, 500, 7, false),
        cand(5, "Term", "shell", 39, 500, 6, false),
        cand(6, "Term", "min", 500, 500, 5, true),
        cand(7, "Browser", "docs", 900, 700, 10, false),
        cand(8, "Chat", "team", 400, 400, 3, false),
    ];
    let ids: Vec<u32> = select_windows(&cands).iter().map(|w| w.id).collect();
    // Equal depth keeps the reported order.
    assert_eq!(ids, vec![7, 1, 8]);
    assert!(select_windows(&Vec::new()).is_empty());
}

#[test]
fn ui_modes_and_exit_rule() {
    assert_eq!(ui_mode(""), UiMode::LaunchDaemon);
    assert_eq!(ui_mode("capture"), UiMode::Capture);
    assert_eq!(ui_mode("pick"), UiMode::Pick);
    assert_eq!(ui_mode("fullscreen"), UiMode::Fullscreen);
    assert_eq!(ui_mode("settings"), UiMode::Settings);
    assert_eq!(ui_mode("Capture"), UiMode::Unknown);
    let mut b = Busy::new();
    assert!(!prevents_exit(false, &b));
    b.enter();
    assert!(prevents_exit(false, &b));
    assert!(!prevents_exit(true, &b));
}

#[test]
fn save_name_and_log_cap() {
    assert_eq!(suggested_file_name(None), "toolshot.png");
    assert_eq!(suggested_file_name(Some("shot 1.png")), "shot 1.png");
    assert!(log_needs_reset(true, 512 * 1024 + 1));
    assert!(!log_needs_reset(true, 512 * 1024));
    assert!(!log_needs_reset(false, 10 * 1024 * 1024));
}
