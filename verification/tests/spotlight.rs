use beckon::app::{on_command_line, prefers_dark, stylesheet, toggle_spotlight, Launch, Toggled};
use beckon::fade::{FadeState, FADE};
use beckon::spotlight::{
    base64_payload, clean, closes_on_focus_change, end_grace, Guard, CORNER_RADIUS, WINDOW_WIDTH,
};

#[test]
fn cleaning() {
    let slow = |text: &str| {
        let mut text = text.trim().to_string();
        while text.contains("\n\n\n") {
            text = text.replace("\n\n\n", "\n\n");
        }
        text
    };
    for s in [
        "", "  ", "a", " a\n\n\n\nb ", "a\n\nb", "\n\n\n\na\n\n\n\n\n\n\nb\n\n\nc\n", "a\n \n\n\n\n", "x\r\n\n\n\ny",
    ] {
        assert_eq!(clean(s), slow(s), "{s:?}");
        assert_eq!(clean(&clean(s)), clean(s));
        assert!(!clean(s).contains("\n\n\n"));
    }
    assert_eq!(clean(" a\n\n\n\nb "), "a\n\nb");
}

#[test]
fn payloads_of_data_urls() {
    assert_eq!(base64_payload("data:image/png;base64,QUJD"), Some("QUJD".to_string()));
    assert_eq!(base64_payload("a;base64,b;base64,c"), Some("b;base64,c".to_string()));
    assert_eq!(base64_payload("data:text/plain,x"), None);
}

#[test]
fn focus() {
    let g = end_grace(Guard::Fresh, true, false);
    assert!(g.guard == Guard::Renewed && g.present_again);
    let g = end_grace(Guard::Renewed, true, false);
    assert!(g.guard == Guard::Armed && !g.present_again);
    let g = end_grace(Guard::Fresh, true, true);
    assert!(g.guard == Guard::Armed && !g.present_again);
    let g = end_grace(Guard::Fresh, false, false);
    assert!(g.guard == Guard::Armed && !g.present_again);
    assert!(closes_on_focus_change(Guard::Armed, false));
    assert!(!closes_on_focus_change(Guard::Armed, true));
    assert!(!closes_on_focus_change(Guard::Fresh, false));
    assert!(!closes_on_focus_change(Guard::Renewed, false));
}

#[test]
fn fading() {
    let mut f = FadeState::new();
    assert_eq!(f.to_markup(&Vec::new()), "");
    f.push("**a".to_string(), 0);
    f.push("b** <".to_string(), 10);
    assert_eq!(
        f.to_markup(&vec![50, 1]),
        "<span alpha=\"50%\">**a</span><span alpha=\"1%\">b** &lt;</span>"
    );
    f.settle(FADE - 1);
    assert_eq!(f.settled, "");
    f.settle(FADE);
    assert_eq!(f.settled, "**a");
    assert_eq!(f.to_markup(&vec![99]), "**a<span alpha=\"99%\">b** &lt;</span>");
    f.settle(FADE + 10);
    assert_eq!(f.settled, "**ab** <");
    assert!(f.pending.is_empty());
    assert_eq!(f.to_markup(&Vec::new()), "<b>ab</b> &lt;");
    assert!(!f.tick(2 * FADE, false));
    // A chunk from the future has not faded yet.
    f.push("x".to_string(), 10 * FADE);
    f.settle(FADE);
    assert_eq!(f.pending.len(), 1);
    assert!(f.tick(10 * FADE, false));
    assert!(!f.tick(11 * FADE, true));
    assert_eq!(f.pending.len(), 1);
    assert!(!f.tick(11 * FADE, false));
    assert_eq!(f.settled, "**ab** <x");
}

fn strings(v: &[&str]) -> Vec<String> {
    v.iter().map(|s| s.to_string()).collect()
}

#[test]
fn launches() {
    assert!(on_command_line(&strings(&["beckon"]), false) == Launch::Nothing);
    assert!(on_command_line(&strings(&["beckon"]), true) == Launch::Settings);
    assert!(
        on_command_line(&strings(&["beckon", "--spotlight"]), true)
            == Launch::Toggle { screenshot: false }
    );
    assert!(
        on_command_line(&strings(&["beckon", "--screenshot", "--spotlight"]), false)
            == Launch::Toggle { screenshot: true }
    );
    assert!(on_command_line(&strings(&["beckon", "--screenshot"]), true) == Launch::Settings);
}

#[test]
fn toggling() {
    assert!(toggle_spotlight(false, true, false, true) == Toggled::Ignore);
    assert!(toggle_spotlight(true, true, true, true) == Toggled::Close);
    assert!(toggle_spotlight(true, false, true, true) == Toggled::Ignore);
    assert!(toggle_spotlight(true, false, false, true) == Toggled::Present { capture: true });
    assert!(toggle_spotlight(true, false, false, false) == Toggled::Present { capture: false });
}

#[test]
fn looks() {
    assert!(prefers_dark("prefer-dark"));
    assert!(!prefers_dark("default"));
    assert!(!prefers_dark("prefer-light"));
    assert_eq!(stylesheet("a { border-radius: {corner_radius}px; }"), "a { border-radius: 8px; }");
    assert_eq!((CORNER_RADIUS, WINDOW_WIDTH), (8, 620));
}
