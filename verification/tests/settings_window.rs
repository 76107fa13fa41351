use beckon::config::Config;
use beckon::settings_window::{
    accel_to_label, arm_capture, initial_models, is_modifier_key, merge_models, on_key,
    still_capturing, KeyAction, ShortcutTarget, KEY_ESCAPE,
};

fn strings(v: &[&str]) -> Vec<String> {
    v.iter().map(|s| s.to_string()).collect()
}

#[test]
fn modifiers() {
    for key in [
        65505, 65506, 65507, 65508, 65509, 65511, 65512, 65513, 65514, 65515, 65516, 65517, 65518,
        65027, 65407,
    ] {
        assert!(is_modifier_key(key));
    }
    for key in [65504, 65510, 65519, 65307, 32, 115] {
        assert!(!is_modifier_key(key));
    }
}

#[test]
fn one_shortcut_is_recorded_at_a_time() {
    let a = arm_capture(None, ShortcutTarget::Open);
    assert!(a.capturing == ShortcutTarget::Open && a.restore.is_none());
    let a = arm_capture(Some(ShortcutTarget::Open), ShortcutTarget::Screenshot);
    assert!(a.capturing == ShortcutTarget::Screenshot && a.restore == Some(ShortcutTarget::Open));
    let a = arm_capture(Some(ShortcutTarget::Open), ShortcutTarget::Open);
    assert!(a.restore.is_none());
}

#[test]
fn keys() {
    let open = Some(ShortcutTarget::Open);
    assert!(on_key(None, 32, true) == KeyAction::Proceed);
    assert!(on_key(open, KEY_ESCAPE, true) == KeyAction::Cancel(ShortcutTarget::Open));
    assert!(on_key(open, 65507, true) == KeyAction::Wait);
    assert!(on_key(open, 32, false) == KeyAction::Wait);
    assert!(on_key(open, 32, true) == KeyAction::Record(ShortcutTarget::Open));
    assert!(still_capturing(open, KeyAction::Wait) == open);
    assert!(still_capturing(open, KeyAction::Record(ShortcutTarget::Open)).is_none());
    assert!(still_capturing(open, KeyAction::Cancel(ShortcutTarget::Open)).is_none());
    assert!(still_capturing(None, KeyAction::Proceed).is_none());
}

#[test]
fn accelerators() {
    let mut c = Config::default();
    c.set_accel(ShortcutTarget::Screenshot, "<Super>s".to_string());
    assert_eq!(c.accel(ShortcutTarget::Screenshot), "<Super>s");
    assert_eq!(c.accel(ShortcutTarget::Open), "<Control><Shift>space");
    assert_eq!(accel_to_label("<Super>s", Some("Super+S".to_string())), "Super+S");
    assert_eq!(accel_to_label("???", None), "???");
}

#[test]
fn models_to_choose_from() {
    assert_eq!(initial_models("m"), strings(&["m"]));
    assert!(initial_models("").is_empty());
    assert!(merge_models(&Vec::new(), "m").is_none());
    let c = merge_models(&strings(&["a", "m"]), "m").unwrap();
    assert_eq!((c.models, c.selected), (strings(&["a", "m"]), Some(1)));
    let c = merge_models(&strings(&["a", "b"]), "m").unwrap();
    assert_eq!((c.models, c.selected), (strings(&["m", "a", "b"]), Some(0)));
    let c = merge_models(&strings(&["a"]), "").unwrap();
    assert_eq!((c.models, c.selected), (strings(&["a"]), None));
}
