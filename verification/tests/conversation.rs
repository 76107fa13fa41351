use beckon::api::{ChatEvent, Content, InputItem, Role, ToolCall};
use beckon::conversation::{Conversation, Escaped, Shown};

fn describe(items: &[InputItem]) -> Vec<String> {
    items
        .iter()
        .map(|i| match i {
            InputItem::Message { role, content } => {
                let role = match role {
                    Role::System => "system",
                    Role::User => "user",
                    Role::Assistant => "assistant",
                };
                match content {
                    Content::Text(t) => format!("{role}: {t}"),
                    Content::Parts { text, images } => format!("{role}: {text} + {images:?}"),
                }
            }
            InputItem::FunctionCall(c) => format!("call {}", c.call_id),
            InputItem::FunctionCallOutput { call_id, output } => format!("{call_id}: {output}"),
        })
        .collect()
}

#[test]
fn an_exchange() {
    let mut c = Conversation::new(None);
    assert_eq!(c.placeholder(), "Ask anything…");
    assert!(c.send("  \n ").is_none());
    let sent = c.send(" hi\n\n\n\nthere ").unwrap();
    assert_eq!(sent.message, "hi\n\nthere");
    assert!(sent.images.is_empty() && sent.hidden && !sent.follows && !sent.show_first);
    assert!(c.streaming && c.revealed);
    assert_eq!(c.placeholder(), "Follow up…");
    assert!(c.send("again").is_none());
    assert_eq!(describe(&c.payload(" be short ")), vec!["system: be short", "user: hi\n\nthere"]);
    assert_eq!(describe(&c.payload("  ")), vec!["user: hi\n\nthere"]);

    assert!(matches!(c.receive(ChatEvent::Reasoning("hm".to_string())), Shown::Reasoning(_)));
    let call = InputItem::FunctionCall(ToolCall {
        name: "t".to_string(),
        call_id: "1".to_string(),
        arguments: "{}".to_string(),
    });
    match c.receive(ChatEvent::ToolCall { name: "t".to_string(), item: call }) {
        Shown::Running(name) => assert_eq!(name, "t"),
        _ => panic!("expected a running tool"),
    }
    let output = InputItem::FunctionCallOutput { call_id: "1".to_string(), output: "o".to_string() };
    assert!(matches!(c.receive(ChatEvent::ToolResult { item: output }), Shown::Ran));
    assert!(matches!(c.receive(ChatEvent::Delta("**he".to_string())), Shown::Answer(_)));
    assert!(matches!(c.receive(ChatEvent::Delta("llo** ".to_string())), Shown::Answer(_)));
    assert!(matches!(c.receive(ChatEvent::Done), Shown::Complete));
    assert_eq!(c.answer_markup(), "<b>hello</b>");
    assert!(!c.streaming);
    assert_eq!(
        describe(&c.history),
        vec!["user: hi\n\nthere", "call 1", "1: o", "assistant: **hello** "]
    );

    let sent = c.send("more").unwrap();
    assert!(!sent.hidden && sent.follows && sent.show_first);
    assert!(matches!(c.receive(ChatEvent::Done), Shown::Nothing));
    let sent = c.send("and more").unwrap();
    assert!(sent.follows && !sent.show_first);
}

#[test]
fn a_screenshot_goes_along_once() {
    let mut c = Conversation::new(Some("data:x".to_string()));
    assert!(c.has_attachment());
    let sent = c.send("look").unwrap();
    assert_eq!(sent.images, vec!["data:x"]);
    assert!(!sent.hidden);
    assert!(!c.has_attachment());
    assert_eq!(describe(&c.history), vec!["user: look + [\"data:x\"]"]);
}

#[test]
fn a_failed_reply() {
    let mut c = Conversation::new(None);
    assert!(c.send("q").is_some());
    match c.receive(ChatEvent::Error("a < b".to_string())) {
        Shown::Failed(m) => assert_eq!(c.error_markup(&m), "<i>a &lt; b</i>"),
        _ => panic!("expected a failure"),
    }
    assert!(c.send("q").is_some());
    c.receive(ChatEvent::Delta("*half* ".to_string()));
    match c.receive(ChatEvent::Error("cut".to_string())) {
        Shown::Failed(m) => assert_eq!(c.error_markup(&m), "<i>half</i>\n\n<i>cut</i>"),
        _ => panic!("expected a failure"),
    }
    assert_eq!(describe(&c.history), vec!["user: q", "user: q"]);
}

#[test]
fn escape_clears_and_then_closes() {
    let mut c = Conversation::new(None);
    assert!(c.escape() == Escaped::Close);
    assert!(c.send("q").is_some());
    c.receive(ChatEvent::Delta("x".to_string()));
    assert!(c.escape() == Escaped::Clear);
    assert!(c.history.is_empty() && !c.streaming && !c.revealed && c.answer.is_empty());
    assert_eq!(c.placeholder(), "Ask anything…");
    assert!(c.escape() == Escaped::Close);
    assert!(c.send("q").unwrap().hidden);
}
