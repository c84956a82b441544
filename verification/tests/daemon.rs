use toolshot::daemon::{settings_from_json, tray_menu, MenuEntry};
use global_hotkey::hotkey::{Code, HotKey, Modifiers};
use toolshot::daemon::{
    desired_shortcuts, hotkey_command, menu_command, plan_step, Action, Bindings, DaemonCommand,
    DaemonStep, Spawn,
};
use toolshot::settings::Settings;

fn settings(capture: Option<&str>, fullscreen: Option<&str>, picker: Option<&str>) -> Settings {
    Settings {
        capture_shortcut: capture.map(|s| s.to_string()),
        fullscreen_shortcut: fullscreen.map(|s| s.to_string()),
        picker_shortcut: picker.map(|s| s.to_string()),
    }
}

#[test]
fn action_names() {
    assert_eq!(Action::Capture.arg(), "capture");
    assert_eq!(Action::Fullscreen.arg(), "fullscreen");
    assert_eq!(Action::Picker.arg(), "pick");
    assert_eq!(Action::Capture.settings_key(), "capture_shortcut");
    assert_eq!(Action::Fullscreen.settings_key(), "fullscreen_shortcut");
    assert_eq!(Action::Picker.settings_key(), "picker_shortcut");
}

#[test]
fn desired_follows_settings_order() {
    let d = desired_shortcuts(&settings(Some("Cmd+KeyA"), None, Some("Ctrl+KeyP")));
    assert_eq!(
        d,
        vec![(Action::Capture, "Cmd+KeyA".to_string()), (Action::Picker, "Ctrl+KeyP".to_string())]
    );
    assert!(desired_shortcuts(&Settings::default()).is_empty());
}

#[test]
fn bindings_retry_only_missing() {
    let mut b = Bindings::new();
    let old = HotKey::new(Some(Modifiers::ALT), Code::KeyZ);
    b.record(old.id(), Action::Fullscreen, old);
    let dropped = b.reload(&settings(Some("Cmd+KeyA"), Some("Cmd+KeyF"), None));
    assert_eq!(dropped, vec![old]);
    assert!(b.registered.is_empty());
    assert_eq!(b.missing().len(), 2);
    let hk = HotKey::new(Some(Modifiers::META), Code::KeyA);
    b.record(hk.id(), Action::Capture, hk);
    assert_eq!(b.missing(), vec![(Action::Fullscreen, "Cmd+KeyF".to_string())]);
    assert_eq!(b.action_for(hk.id()), Some(Action::Capture));
    assert_eq!(b.action_for(hk.id() + 1), None);
}

#[test]
fn menu_and_hotkey_commands() {
    assert_eq!(menu_command("capture"), Some(DaemonCommand::Toggle(Action::Capture)));
    assert_eq!(menu_command("capture_fullscreen"), Some(DaemonCommand::Fullscreen));
    assert_eq!(menu_command("color_picker"), Some(DaemonCommand::Toggle(Action::Picker)));
    assert_eq!(menu_command("settings"), Some(DaemonCommand::OpenSettings));
    assert_eq!(menu_command("quit"), Some(DaemonCommand::Quit));
    assert_eq!(menu_command("presenting"), None);

    let mut b = Bindings::new();
    let hk = HotKey::new(Some(Modifiers::META), Code::KeyF);
    b.record(hk.id(), Action::Fullscreen, hk);
    assert_eq!(hotkey_command(&b, hk.id(), true), Some(DaemonCommand::Fullscreen));
    assert_eq!(hotkey_command(&b, hk.id(), false), None);
    assert_eq!(hotkey_command(&b, 7, true), None);
}

#[test]
fn session_steps() {
    let spawn_capture = plan_step(DaemonCommand::Toggle(Action::Capture), false, false);
    assert_eq!(
        spawn_capture,
        DaemonStep { kill_session: false, kill_settings: false, spawn: Some(Spawn::Session(Action::Capture)), exit: false }
    );
    let dismiss = plan_step(DaemonCommand::Toggle(Action::Picker), true, true);
    assert_eq!(dismiss, DaemonStep { kill_session: true, kill_settings: false, spawn: None, exit: false });
    let full = plan_step(DaemonCommand::Fullscreen, true, false);
    assert!(full.kill_session);
    assert_eq!(full.spawn.map(|s| s.arg()), Some("fullscreen"));
    assert_eq!(plan_step(DaemonCommand::OpenSettings, false, true).spawn, None);
    assert_eq!(plan_step(DaemonCommand::OpenSettings, true, false).spawn.map(|s| s.arg()), Some("settings"));
    let quit = plan_step(DaemonCommand::Quit, false, false);
    assert!(quit.kill_session && quit.kill_settings && quit.exit);
}

#[test]
fn tray_menu_items_lead_to_commands() {
    let menu = tray_menu();
    assert_eq!(menu.len(), 8);
    let mut ids = Vec::new();
    for entry in &menu {
        if let MenuEntry::Item { id, enabled, .. } = entry {
            assert_eq!(*enabled, menu_command(id).is_some());
            ids.push(*id);
        }
    }
    assert_eq!(ids, vec!["capture", "capture_fullscreen", "color_picker", "presenting", "settings", "quit"]);
    assert!(matches!(menu[2], MenuEntry::Separator));
    assert!(matches!(menu[5], MenuEntry::Separator));
}

#[test]
fn settings_read_from_json_text() {
    let s = settings_from_json(r#"{"capture_shortcut":"Cmd+KeyA","fullscreen_shortcut":7,"picker_shortcut":null,"other":"x"}"#);
    assert_eq!(s.capture_shortcut, Some("Cmd+KeyA".to_string()));
    assert_eq!(s.fullscreen_shortcut, None);
    assert_eq!(s.picker_shortcut, None);
    let empty = settings_from_json("not json");
    assert!(empty.capture_shortcut.is_none() && empty.fullscreen_shortcut.is_none() && empty.picker_shortcut.is_none());
    let all = settings_from_json(r#"{"picker_shortcut":"Alt+KeyP","fullscreen_shortcut":"Ctrl+KeyF"}"#);
    assert_eq!(all.fullscreen_shortcut, Some("Ctrl+KeyF".to_string()));
    assert_eq!(all.picker_shortcut, Some("Alt+KeyP".to_string()));
}

#[test]
fn encode_png_error_is_reported() {
    let e = toolshot::imaging::encode_png(&[], 0, 3).unwrap_err();
    assert!(!e.is_empty());
}
