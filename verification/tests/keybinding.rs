use beckon::config::Config;
use beckon::keybinding::{apply, command, RELAY_PATH, SCREENSHOT_RELAY_PATH};

#[test]
fn commands() {
    assert_eq!(command(Some("/usr/bin/beckon"), "--spotlight"), "/usr/bin/beckon --spotlight");
    assert_eq!(command(None, "--x"), "elementary-intelligence --x");
}

#[test]
fn both_shortcuts_are_registered() {
    let mut c = Config::default();
    let r = apply(&c, Some("/b"), vec!["/user/".to_string()]);
    assert_eq!(r.open.path, RELAY_PATH);
    assert_eq!(r.open.name, "Elementary Intelligence");
    assert_eq!(r.open.command, "/b --spotlight");
    assert_eq!(r.open.binding, "<Control><Shift>space");
    assert_eq!(r.screenshot.path, SCREENSHOT_RELAY_PATH);
    assert_eq!(r.screenshot.name, "Elementary Intelligence (Screenshot)");
    assert_eq!(r.screenshot.command, "/b --spotlight --screenshot");
    assert_eq!(r.screenshot.binding, "<Control><Shift>s");
    let paths = r.paths.unwrap();
    assert_eq!(paths, vec!["/user/", RELAY_PATH, SCREENSHOT_RELAY_PATH]);
    // Once listed, nothing changes any more.
    assert!(apply(&c, Some("/b"), paths).paths.is_none());
    assert_eq!(
        apply(&c, None, vec![SCREENSHOT_RELAY_PATH.to_string()]).paths.unwrap(),
        vec![SCREENSHOT_RELAY_PATH, RELAY_PATH]
    );
    c.enabled = false;
    let r = apply(&c, None, Vec::new());
    assert_eq!(r.open.binding, "");
    assert_eq!(r.screenshot.binding, "");
}
