use global_hotkey::hotkey::{Code, HotKey, Modifiers};
use toolshot::accel::{parse_accel, parse_accel_parts, ModifierSet};

#[test]
fn parses_modifiers_and_key() {
    let hk = parse_accel("Cmd+Shift+KeyC").unwrap();
    assert_eq!(hk, HotKey::new(Some(Modifiers::META | Modifiers::SHIFT), Code::KeyC));
}

#[test]
fn parses_every_modifier_name() {
    let hk = parse_accel("Cmd+Ctrl+Alt+Shift+F12").unwrap();
    let all = Modifiers::META | Modifiers::CONTROL | Modifiers::ALT | Modifiers::SHIFT;
    assert_eq!(hk, HotKey::new(Some(all), Code::F12));
}

#[test]
fn rejects_missing_modifier() {
    assert!(parse_accel("KeyC").is_err());
}

#[test]
fn rejects_unknown_modifier_and_key() {
    assert!(parse_accel("Hyper+KeyC").is_err());
    assert!(parse_accel("Cmd+NotAKey").is_err());
}

#[test]
fn rejects_empty_accelerator() {
    assert!(parse_accel("").is_err());
}

#[test]
fn accel_error_messages() {
    assert_eq!(parse_accel("KeyC").unwrap_err(), "shortcut needs at least one modifier");
    assert_eq!(parse_accel("Cmd+Hyper+Bogus+KeyC").unwrap_err(), "unknown modifier: Hyper");
    assert_eq!(parse_accel("Cmd+NotAKey").unwrap_err(), "unknown key: NotAKey");
    assert_eq!(parse_accel("").unwrap_err(), "shortcut needs at least one modifier");
    assert_eq!(parse_accel("Cmd++KeyC").unwrap_err(), "unknown modifier: ");
}

#[test]
fn modifier_parts_are_read_left_to_right() {
    let (set, key) = parse_accel_parts("Shift+Alt+Shift+Digit1").unwrap();
    assert_eq!(set, ModifierSet { meta: false, control: false, alt: true, shift: true });
    assert_eq!(key, "Digit1");
    assert_eq!(set.to_modifiers(), Modifiers::ALT | Modifiers::SHIFT);
    // The key part may be empty; it is then refused as a key.
    assert_eq!(parse_accel("Ctrl+").unwrap_err(), "unknown key: ");
}

#[test]
fn modifier_order_and_repetition_do_not_matter() {
    let a = parse_accel("Shift+Cmd+KeyC").unwrap();
    let b = parse_accel("Cmd+Shift+Cmd+KeyC").unwrap();
    let c = parse_accel("Cmd+Shift+KeyC").unwrap();
    assert_eq!(a, b);
    assert_eq!(b, c);
    assert_eq!(parse_accel("Alt+Alt+Bogus"), parse_accel("Alt+Bogus"));
}

#[test]
fn modifier_sets_map_to_keyboard_types_flags() {

    let all = ModifierSet { meta: true, control: true, alt: true, shift: true };
    assert_eq!(all.to_modifiers(), Modifiers::META | Modifiers::CONTROL | Modifiers::ALT | Modifiers::SHIFT);
    let meta = ModifierSet { meta: true, control: false, alt: false, shift: false };
    assert_eq!(meta.to_modifiers(), Modifiers::META);
    let none = ModifierSet { meta: false, control: false, alt: false, shift: false };
    assert_eq!(none.to_modifiers(), Modifiers::empty());
}

#[test]
fn modifier_order_does_not_matter_with_plus_in_the_rest() {
    assert_eq!(parse_accel("Cmd+Shift+Ctrl+KeyC"), parse_accel("Shift+Cmd+Shift+Ctrl+KeyC"));
    assert_eq!(parse_accel("Cmd+Shift+X+KeyC").unwrap_err(), "unknown modifier: X");
    assert_eq!(parse_accel("Shift+Cmd+X+KeyC").unwrap_err(), "unknown modifier: X");
}
