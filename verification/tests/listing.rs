use beckon::calendar::CalSource;
use beckon::ical::parse_events;
use beckon::listing::{
    list_events, list_window, render_event, time_range_query, wanted_sources, SourceReply,
};

fn source(uid: &str, name: &str) -> CalSource {
    CalSource { uid: uid.to_string(), name: name.to_string() }
}

#[test]
fn windows() {
    assert_eq!(list_window(None, None, 1_000), Ok((1_000, 605_800)));
    assert_eq!(list_window(Some("1970-01-02"), None, 5), Ok((86_400, 691_200)));
    assert_eq!(list_window(Some("1970-01-02"), Some("1970-01-01T00:00:07"), 5), Ok((86_400, 7)));
    assert_eq!(list_window(None, Some("1970-01-02"), 5), Ok((5, 86_400)));
    assert_eq!(
        list_window(Some("x"), Some("y"), 5),
        Err("not an ISO 8601 date or time: x".to_string())
    );
    assert_eq!(list_window(None, Some("y"), 5), Err("not an ISO 8601 date or time: y".to_string()));
}

#[test]
fn queries() {
    assert_eq!(
        time_range_query(0, 86_400),
        "(occur-in-time-range? (make-time \"19700101T000000Z\") (make-time \"19700102T000000Z\"))"
    );
}

#[test]
fn wanted_by_name() {
    let sources = vec![source("a", "Work"), source("b", "HOMEWORK"), source("c", "Play")];
    let names = |f: Option<&str>| -> Vec<String> {
        wanted_sources(&sources, f).into_iter().map(|s| s.uid).collect()
    };
    assert_eq!(names(None), vec!["a", "b", "c"]);
    assert_eq!(names(Some("work")), vec!["a", "b"]);
    assert_eq!(names(Some("WORK")), vec!["a", "b"]);
    assert!(names(Some("none")).is_empty());
}

#[test]
fn rendered_events() {
    let mut events = parse_events(
        "BEGIN:VEVENT\nUID:u\nSUMMARY:Lunch\nDTSTART:20260620T120000Z\nDTEND:20260620T130000Z\nLOCATION:Bar\nEND:VEVENT\nBEGIN:VEVENT\nDTSTART;VALUE=DATE:20260621\nLOCATION:\nEND:VEVENT\nBEGIN:VEVENT\nDTEND:20260621\nEND:VEVENT",
    );
    for ev in events.iter_mut() {
        ev.calendar = "Work".to_string();
    }
    assert_eq!(
        render_event(&events[0]),
        "• Lunch  [Work]\n    2026-06-20 12:00 UTC – 2026-06-20 13:00 UTC\n    Location: Bar\n    uid: u\n"
    );
    assert_eq!(render_event(&events[1]), "• (no title)  [Work]\n    2026-06-21\n");
    assert_eq!(render_event(&events[2]), "• (no title)  [Work]\n");
}

#[test]
fn listings_by_time_with_notes() {
    let event = |uid: &str, start: &str| {
        format!("BEGIN:VEVENT\nUID:{uid}\nSUMMARY:{uid}\nDTSTART:{start}\nEND:VEVENT")
    };
    let replies = vec![
        SourceReply {
            source: source("a", "A"),
            result: Ok(vec![event("late", "20260622T000000Z"), event("tie1", "20260621T000000Z")]),
        },
        SourceReply { source: source("b", "B"), result: Err("gone".to_string()) },
        SourceReply {
            source: source("c", "C"),
            result: Ok(vec![format!("{}\n{}", event("early", "20260620T000000Z"), event("tie2", "20260621T000000Z"))]),
        },
    ];
    let text = list_events(&replies, 0, 0, 100_000);
    assert_eq!(
        text,
        "• early  [C]\n    2026-06-20 00:00 UTC\n    uid: early\n• tie1  [A]\n    2026-06-21 00:00 UTC\n    uid: tie1\n• tie2  [C]\n    2026-06-21 00:00 UTC\n    uid: tie2\n• late  [A]\n    2026-06-22 00:00 UTC\n    uid: late\n\nNotes (calendars that could not be read):\n- B (b): gone"
    );
    // A bullet takes three bytes.
    assert_eq!(list_events(&replies, 0, 0, 10), "• early ");
}

#[test]
fn nothing_to_list() {
    assert_eq!(
        list_events(&Vec::new(), 0, 604_800, 1_000),
        "No events found between 1970-01-01 00:00 UTC and 1970-01-08 00:00 UTC."
    );
}
