use beckon::calendar_tools::{calendar_registry, dispatch, tool_of, tools, CalendarTool};
use beckon::ical::parse_events;
use beckon::requests::{
    check_create, check_delete, check_modify, create_args, created_message, delete_args,
    deleted_message, event_uid, list_args, modified_message, modify_args,
};
use beckon::tools::argument_error;

#[test]
fn arguments_of_a_listing() {
    let args = list_args("{\"start\":\"2026-06-20\",\"end\":7,\"calendar\":\"Work\"}").ok().unwrap();
    assert_eq!(args.start.as_deref(), Some("2026-06-20"));
    assert_eq!(args.end, None);
    assert_eq!(args.calendar.as_deref(), Some("Work"));
    let args = list_args("{}").ok().unwrap();
    assert!(args.start.is_none() && args.end.is_none() && args.calendar.is_none());
    let args = list_args("[1]").ok().unwrap();
    assert!(args.start.is_none() && args.end.is_none() && args.calendar.is_none());
}

#[test]
fn malformed_arguments_are_told() {
    for text in ["not json", "{", "", "{\"uid\":}"] {
        let err = serde_json::from_str::<serde_json::Value>(text).unwrap_err();
        let told = format!("malformed arguments: {err}");
        assert_eq!(list_args(text).err(), Some(told.clone()));
        assert_eq!(create_args(text).err(), Some(told.clone()));
        assert_eq!(modify_args(text).err(), Some(told.clone()));
        assert_eq!(delete_args(text), Err(told.clone()));
        assert_eq!(argument_error(text), Some(told));
    }
    assert_eq!(
        delete_args("{"),
        Err("malformed arguments: EOF while parsing an object at line 1 column 1".to_string())
    );
    assert_eq!(argument_error("{}"), None);
}

#[test]
fn creating_an_event() {
    let args = create_args(
        "{\"summary\":\"Lunch\",\"start\":\"2026-06-20T12:00:00\",\"location\":\"Bar\",\"calendar\":\"work\"}",
    )
    .ok()
    .unwrap();
    let creation = check_create(args).ok().unwrap();
    assert!(!creation.all_day);
    assert_eq!(creation.named(), Some("work"));
    let text = creation.ics("u@x").unwrap();
    let events = parse_events(&text);
    assert_eq!(events.len(), 1);
    assert_eq!(events[0].summary, "Lunch");
    assert_eq!(events[0].start_raw.as_deref(), Some("20260620T120000Z"));
    assert_eq!(events[0].end_raw.as_deref(), Some("20260620T130000Z"));
    assert_eq!(events[0].location.as_deref(), Some("Bar"));
    assert_eq!(events[0].uid.as_deref(), Some("u@x"));

    let creation =
        check_create(create_args("{\"summary\":\"Trip\",\"start\":\"2026-06-20\"}").ok().unwrap()).ok().unwrap();
    assert!(creation.all_day);
    assert_eq!(creation.named(), None);
}

#[test]
fn what_creating_needs() {
    let error = |args: &str| check_create(create_args(args).ok().unwrap()).err();
    assert_eq!(error("{}"), Some("`summary` must be a string".to_string()));
    assert_eq!(error("{\"summary\":1,\"start\":\"2026-06-20\"}"), Some("`summary` must be a string".to_string()));
    assert_eq!(error("{\"summary\":\"x\"}"), Some("`start` must be a string".to_string()));
    assert_eq!(
        error("{\"summary\":\"x\",\"start\":\"soon\"}"),
        Some("not an ISO 8601 date or time: soon".to_string())
    );
}

#[test]
fn only_given_fields_change() {
    let before = "BEGIN:VEVENT\r\nUID:u\r\nSUMMARY:Old\r\nLOCATION:Here\r\nDTSTART:20260620T120000Z\r\nDTEND:20260620T130000Z\r\nEND:VEVENT\r\n";
    let m = check_modify(modify_args("{\"uid\":\"u\",\"summary\":\"New, better\",\"start\":\"2026-06-21\"}").ok().unwrap())
        .ok()
        .unwrap();
    assert_eq!(m.uid, "u");
    let after = m.apply(before).unwrap();
    let ev = &parse_events(&after)[0];
    assert_eq!(ev.summary, "New, better");
    assert_eq!(ev.start_raw.as_deref(), Some("20260621"));
    assert!(ev.all_day);
    assert_eq!(ev.end_raw.as_deref(), Some("20260620T130000Z"));
    assert_eq!(ev.location.as_deref(), Some("Here"));
    assert_eq!(ev.uid.as_deref(), Some("u"));
    assert_eq!(
        after,
        "BEGIN:VEVENT\r\nUID:u\r\nLOCATION:Here\r\nDTEND:20260620T130000Z\r\nSUMMARY:New\\, better\r\nDTSTART;VALUE=DATE:20260621\r\nEND:VEVENT\r\n"
    );
}

#[test]
fn an_event_inside_a_calendar_changes() {
    let before = "BEGIN:VCALENDAR\nVERSION:2.0\n BEGIN:VEVENT\nUID:u\nSUMM\n ARY:Old\nBEGIN:VEVENT\nUID:v\nSUMM\n ARY:Old\nX-A:b\nend:vevent\nEND:VCALENDAR\n";
    let m = check_modify(modify_args("{\"uid\":\"v\",\"summary\":\"New\",\"location\":\"\"}").ok().unwrap()).ok().unwrap();
    let after = m.apply(before).unwrap();
    assert_eq!(
        after,
        "BEGIN:VCALENDAR\r\nVERSION:2.0BEGIN:VEVENT\r\nUID:u\r\nBEGIN:VEVENT\r\nUID:v\r\nX-A:b\r\nSUMMARY:New\r\nLOCATION:\r\nend:vevent\r\nEND:VCALENDAR\r\n"
    );
    let events = parse_events(&after);
    assert_eq!(events.len(), 1);
    assert_eq!(events[0].summary, "New");
    assert_eq!(events[0].location.as_deref(), Some(""));
    assert_eq!(events[0].uid.as_deref(), Some("v"));
}

#[test]
fn what_changing_needs() {
    let error = |args: &str| check_modify(modify_args(args).ok().unwrap()).err();
    assert_eq!(error("{}"), Some("`uid` must be a string".to_string()));
    assert_eq!(
        error("{\"uid\":\"u\",\"color\":\"red\"}"),
        Some("nothing to modify: provide at least one field to change".to_string())
    );
    let m = check_modify(modify_args("{\"uid\":\"u\",\"end\":\"x\",\"start\":\"y\"}").ok().unwrap()).ok().unwrap();
    assert_eq!(m.apply("BEGIN:VEVENT"), Err("not an ISO 8601 date or time: y".to_string()));
    let m = check_modify(modify_args("{\"uid\":\"u\",\"end\":\"x\"}").ok().unwrap()).ok().unwrap();
    assert_eq!(m.apply("BEGIN:VEVENT"), Err("not an ISO 8601 date or time: x".to_string()));
    let m = check_modify(modify_args("{\"uid\":\"u\",\"description\":\"d\"}").ok().unwrap()).ok().unwrap();
    assert_eq!(m.apply("UID:u"), Ok("UID:u\r\nDESCRIPTION:d".to_string()));
}

#[test]
fn deleting_an_event() {
    assert_eq!(check_delete(delete_args("{\"uid\":\"u\"}").unwrap()), Ok("u".to_string()));
    assert_eq!(check_delete(delete_args("[]").unwrap()), Err("`uid` must be a string".to_string()));
}

#[test]
fn messages() {
    assert_eq!(created_message("Lunch", "Work", "u"), "Created \"Lunch\" in Work (uid: u).");
    assert_eq!(modified_message("u", "Work"), "Modified event u in Work.");
    assert_eq!(deleted_message("u", "Work"), "Deleted event u from Work.");
}

#[test]
fn uids() {
    assert_eq!(event_uid(1_781_967_600, 42, 0), "beckon-1781967600-42-0@beckon");
    assert_ne!(event_uid(1, 11, 1), event_uid(11, 1, 1));
}

#[test]
fn the_calendar_tools() {
    let all = tools();
    let names: Vec<&str> = all.iter().map(|t| t.name.as_str()).collect();
    assert_eq!(
        names,
        vec![
            "calendar_list_events",
            "calendar_create_event",
            "calendar_modify_event",
            "calendar_delete_event"
        ]
    );
    let required: Vec<&str> =
        all[1].params.iter().filter(|p| p.required).map(|p| p.name.as_str()).collect();
    assert_eq!(required, vec!["summary", "start"]);
    assert_eq!(calendar_registry(&vec!["calendar".to_string()]).tools.len(), 4);
    assert_eq!(calendar_registry(&vec!["calendar".to_string()]).find("calendar_delete_event"), Some(3));
    assert_eq!(calendar_registry(&Vec::new()).find("calendar_delete_event"), None);
}

#[test]
fn calls_name_their_tools() {
    let named = [
        ("calendar_list_events", CalendarTool::List),
        ("calendar_create_event", CalendarTool::Create),
        ("calendar_modify_event", CalendarTool::Modify),
        ("calendar_delete_event", CalendarTool::Delete),
    ];
    let offered = calendar_registry(&vec!["calendar".to_string()]);
    let none = calendar_registry(&Vec::new());
    for (name, tool) in named {
        assert_eq!(tool_of(name), Some(tool));
        assert_eq!(dispatch(&offered, name), Ok(tool));
        assert_eq!(dispatch(&none, name), Err(format!("unknown tool: {name}")));
    }
    for name in ["", "calendar", "calendar_list_event", "Calendar_list_events"] {
        assert_eq!(tool_of(name), None);
        assert_eq!(dispatch(&offered, name), Err(format!("unknown tool: {name}")));
    }
}

#[test]
fn events_with_strays_around_them_change() {
    let m = check_modify(modify_args("{\"uid\":\"u\",\"summary\":\"New\"}").ok().unwrap()).ok().unwrap();
    for before in [
        // Carriage returns at the ends of lines, the last one among them.
        "BEGIN:VEVENT\r\r\nUID:u\r\r\nSUMMARY:Old\r\r\nEND:VEVENT\r\r",
        "BEGIN:VEVENT\nUID:u\r\r\nEND:VEVENT\r\r\nSUMMARY:x",
        // An event that is never closed in front, and one behind.
        "BEGIN:VEVENT\nUID:x\nBEGIN:VEVENT\nUID:u\r\r\nEND:VEVENT\nBEGIN:VEVENT\nUID:y",
        // Closed once more.
        "BEGIN:VEVENT\nUID:u\r\r\nEND:VEVENT\nEND:VEVENT\n",
    ] {
        let old = parse_events(before);
        assert_eq!(old.len(), 1);
        let new = parse_events(&m.apply(before).unwrap());
        assert_eq!(new.len(), 1);
        assert_eq!(new[0].summary, "New");
        assert_eq!(new[0].uid, old[0].uid);
        assert_eq!(new[0].uid.as_deref(), Some("u\r"));
    }
}
