use beckon::ical::{
    build_vevent, build_vevent_at, dt_property, escape, format_dt, is_date_only, parse_events,
    set_property, sort_key, split_property, unescape, unfold,
};

#[test]
fn format_dt_variants() {
    assert_eq!(format_dt("20260613", true), "2026-06-13");
    assert_eq!(format_dt("20260613T143000Z", false), "2026-06-13 14:30 UTC");
    assert_eq!(format_dt("20260613T143000", false), "2026-06-13 14:30");
}

#[test]
fn parse_events_handles_folding() {
    // A folded DESCRIPTION (continuation line begins with a space).
    // RFC 5545 unfolding removes the CRLF *and* the continuation's leading
    // space, so a fold split mid-word rejoins with no gap.
    let ics = "BEGIN:VEVENT\r\nUID:abc\r\nSUMMARY:Team sy\r\n nc\r\nDTSTART:20260615T090000Z\r\nDTEND:20260615T093000Z\r\nLOCATION:Room 4\r\nEND:VEVENT\r\n";
    let events = parse_events(ics);
    assert_eq!(events.len(), 1);
    let ev = &events[0];
    assert_eq!(ev.summary, "Team sync");
    assert_eq!(ev.uid.as_deref(), Some("abc"));
    assert_eq!(ev.location.as_deref(), Some("Room 4"));
    assert!(!ev.all_day);
    assert_eq!(ev.sort_key, "20260615090000");
}

#[test]
fn all_day_detection() {
    let ics = "BEGIN:VEVENT\r\nUID:x\r\nDTSTART;VALUE=DATE:20260620\r\nSUMMARY:Holiday\r\nEND:VEVENT\r\n";
    let ev = &parse_events(ics)[0];
    assert!(ev.all_day);
}

#[test]
fn build_vevent_timed_and_all_day() {
    let timed = build_vevent("u1", "2026-06-20T15:00:00", false, None, "Meet; greet", None, None).unwrap();
    assert!(timed.contains("DTSTART:20260620T150000Z\r\n"));
    assert!(timed.contains("DTEND:20260620T160000Z\r\n")); // +1h default
    assert!(timed.contains("SUMMARY:Meet\\; greet\r\n")); // escaped semicolon

    let allday = build_vevent("u2", "2026-06-20", true, None, "Trip", None, None).unwrap();
    assert!(allday.contains("DTSTART;VALUE=DATE:20260620\r\n"));
    assert!(allday.contains("DTEND;VALUE=DATE:20260621\r\n")); // next day default
}

#[test]
fn set_property_replaces_in_place() {
    let mut lines = unfold("BEGIN:VEVENT\r\nUID:u\r\nSUMMARY:Old\r\nEND:VEVENT\r\n");
    set_property(&mut lines, "SUMMARY", Some("SUMMARY:New".to_string()));
    let out = lines.join("\r\n");
    assert!(out.contains("SUMMARY:New"));
    assert!(!out.contains("SUMMARY:Old"));
    assert!(out.contains("UID:u")); // untouched
    // The new line lands before END:VEVENT.
    assert!(out.find("SUMMARY:New").unwrap() < out.find("END:VEVENT").unwrap());
}

#[test]
fn whole_event_is_written() {
    let text = build_vevent_at(
        1_781_967_600,
        "u",
        "2026-06-20T15:00:00",
        false,
        Some("2026-06-20T15:30:00"),
        "a\\b,c",
        Some("Room\n4"),
        Some("x\r\ny"),
    )
    .unwrap();
    assert_eq!(
        text,
        "BEGIN:VEVENT\r\nUID:u\r\nDTSTAMP:20260620T150000Z\r\nDTSTART:20260620T150000Z\r\nDTEND:20260620T153000Z\r\nSUMMARY:a\\\\b\\,c\r\nLOCATION:Room\\n4\r\nDESCRIPTION:x\\ny\r\nEND:VEVENT\r\n"
    );
    let events = parse_events(&text);
    assert_eq!(events.len(), 1);
    assert_eq!(events[0].summary, "a\\b,c");
    assert_eq!(events[0].location.as_deref(), Some("Room\n4"));
    assert_eq!(events[0].end_raw.as_deref(), Some("20260620T153000Z"));
    assert_eq!(events[0].uid.as_deref(), Some("u"));
}

#[test]
fn empty_texts_are_not_written() {
    let text =
        build_vevent_at(0, "u", "2026-06-20", true, None, "", Some(""), Some("")).unwrap();
    assert!(!text.contains("LOCATION"));
    assert!(!text.contains("DESCRIPTION"));
    assert!(text.contains("SUMMARY:\r\n"));
}

#[test]
fn times_that_cannot_be_read() {
    assert_eq!(
        build_vevent("u", "soon", false, Some("later"), "s", None, None),
        Err("not an ISO 8601 date or time: soon".to_string())
    );
    assert_eq!(
        build_vevent("u", "2026-06-20", true, Some("later"), "s", None, None),
        Err("not an ISO 8601 date or time: later".to_string())
    );
    assert_eq!(
        dt_property("DTEND", "later"),
        Err("not an ISO 8601 date or time: later".to_string())
    );
}

#[test]
fn properties_are_split() {
    let p = split_property("dtstart;TZID=\"a:b\";X=1:2026:06").unwrap();
    assert_eq!(p, ("DTSTART".to_string(), "TZID=\"a:b\";X=1".to_string(), "2026:06".to_string()));
    let p = split_property("SUMMARY:x").unwrap();
    assert_eq!(p, ("SUMMARY".to_string(), String::new(), "x".to_string()));
    assert!(split_property("no colon").is_none());
    assert!(split_property("\"a:b").is_none());
}

#[test]
fn escapes_are_undone() {
    let s = "a\\b;c,d\ne";
    assert_eq!(escape(s), "a\\\\b\\;c\\,d\\ne");
    assert_eq!(unescape(&escape(s)), s);
    assert_eq!(unescape(&escape("a\r\nb")), "a\nb");
    assert_eq!(unescape("a\\Nb\\x\\"), "a\nbx");
}

#[test]
fn folds_are_undone() {
    assert_eq!(unfold("SUMMARY:ab\r\n c"), unfold("SUMMARY:abc"));
    assert_eq!(unfold("a\r\n\tb\n c"), vec!["abc".to_string()]);
    // There is nothing that the first line could continue.
    assert_eq!(unfold(" a"), vec![" a".to_string()]);
    assert_eq!(unfold("a\r\n"), vec!["a".to_string(), String::new()]);
}

#[test]
fn dates_alone() {
    assert!(is_date_only("value=date", "x"));
    assert!(is_date_only("TZID=x;VALUE=DATE", ""));
    assert!(is_date_only("", "20260620"));
    assert!(!is_date_only("", "2026062"));
    assert!(!is_date_only("VALUE=DATE-TIME", "20260620T150000Z"));
}

#[test]
fn sort_keys_have_fourteen_digits() {
    assert_eq!(sort_key(&None), "00000000000000");
    assert_eq!(sort_key(&Some("20260620".to_string())), "20260620000000");
    assert_eq!(sort_key(&Some("20260620T1500009999Z".to_string())), "20260620150000");
    assert!(sort_key(&Some("20260620T150000Z".to_string())) < sort_key(&Some("20260620T150001Z".to_string())));
}

#[test]
fn all_day_events_come_first_on_their_day() {
    let key = |s: &str| sort_key(&Some(s.to_string()));
    assert!(key("20260619T235959Z") < key("20260620"));
    assert!(key("20260620") < key("20260620T000001Z"));
    assert_eq!(key("20260620"), key("20260620T000000Z"));
}

#[test]
fn times_with_few_digits_are_shown_as_they_are() {
    assert_eq!(format_dt("2026", true), "2026");
    assert_eq!(format_dt("T12", false), "T12");
    assert_eq!(format_dt("20260613", false), "2026-06-13");
    assert_eq!(format_dt("20260613T143000Z", true), "2026-06-13");
}

#[test]
fn property_lines() {
    assert_eq!(dt_property("DTSTART", "2026-06-20").unwrap(), "DTSTART;VALUE=DATE:20260620");
    assert_eq!(dt_property("DTEND", "2026-06-20T01:02:03").unwrap(), "DTEND:20260620T010203Z");
}

#[test]
fn events_among_other_things() {
    let text = "BEGIN:VCALENDAR\nEND:VEVENT\nbegin:vevent\nUID:1\nBEGIN:VEVENT\nUID:2\n end\nEND:VEVENT \nUID:3\nBEGIN:VEVENT\nUID:4";
    let events = parse_events(text);
    assert_eq!(events.len(), 1);
    assert_eq!(events[0].uid.as_deref(), Some("2end"));
    assert_eq!(events[0].summary, "");
    assert_eq!(events[0].sort_key, "00000000000000");
}

#[test]
fn a_property_is_set_once() {
    let mut lines = unfold("BEGIN:VEVENT\nsummary;LANGUAGE=de:Alt\nSUMMARY:Old\nUID:u\nEND:VEVENT\n");
    set_property(&mut lines, "SUMMARY", Some("SUMMARY:New".to_string()));
    set_property(&mut lines, "SUMMARY", Some("SUMMARY:Newer".to_string()));
    assert_eq!(lines, vec!["BEGIN:VEVENT", "UID:u", "SUMMARY:Newer", "END:VEVENT", ""]);
    set_property(&mut lines, "SUMMARY", None);
    assert_eq!(lines, vec!["BEGIN:VEVENT", "UID:u", "END:VEVENT", ""]);
    let mut lines = vec!["UID:u".to_string()];
    set_property(&mut lines, "SUMMARY", Some("SUMMARY:x".to_string()));
    assert_eq!(lines, vec!["UID:u", "SUMMARY:x"]);
}

#[test]
fn folds_with_spaces_and_tabs() {
    for (a, b) in [("SUMM", "ARY:x"), ("A:1\r\nB:", "2\r\nC:3"), ("", "A:1"), ("A:1\r\n", "B:2"), ("A\r", "B")] {
        let plain = unfold(&format!("{a}{b}"));
        assert_eq!(unfold(&format!("{a}\r\n {b}")), plain);
        assert_eq!(unfold(&format!("{a}\r\n\t{b}")), plain);
    }
    // A fold in front of a continuation starts a line.
    assert_eq!(unfold("A:1\r\n 2"), vec!["A:12"]);
    assert_eq!(unfold("A:1\r\n\r\n  2"), vec!["A:1", " 2"]);
}

#[test]
fn keys_are_ordered_as_times_are() {
    let key = |s: &str| sort_key(&Some(s.to_string()));
    let groups = [
        vec!["00010101"],
        vec!["20260619T235959", "20260619T235959Z"],
        vec!["20260620", "20260620T000000", "20260620T000000Z"],
        vec!["20260620T000001"],
        vec!["20260621"],
        vec!["20270101T000000Z", "20270101"],
        vec!["99991231T235959Z"],
    ];
    for (i, a) in groups.iter().enumerate() {
        for (j, b) in groups.iter().enumerate() {
            for x in a {
                for y in b {
                    assert_eq!(key(x).cmp(&key(y)), i.cmp(&j));
                }
            }
        }
    }
}

#[test]
fn texts_are_read_in_turn() {
    let a = "BEGIN:VEVENT\r\nUID:a\r\nEND:VEVENT\r\n";
    let b = "BEGIN:VCALENDAR\nBEGIN:VEVENT\nUID:b\nEND:VEVENT\nBEGIN:VEVENT\nUID:c\nEND:VEVENT\nEND:VCALENDAR";
    let uids = |s: &str| -> Vec<String> {
        parse_events(s).into_iter().map(|e| e.uid.unwrap_or_default()).collect()
    };
    assert_eq!(uids(&format!("{a}\n{b}")), vec!["a", "b", "c"]);
    assert_eq!(uids(&format!("{b}\n{a}")), vec!["b", "c", "a"]);
}
