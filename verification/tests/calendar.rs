use beckon::calendar::{
    find_event, find_event_next, ini_value, list_calendar_sources, match_source, prop_string,
    resolve_target, CalSource, Prop, Search,
};

fn source(uid: &str, name: &str) -> CalSource {
    CalSource { uid: uid.to_string(), name: name.to_string() }
}

fn prop(key: &str, value: Option<&str>) -> Prop {
    Prop { key: key.to_string(), value: value.map(|v| v.to_string()) }
}

#[test]
fn properties_of_objects() {
    let ifaces = vec![
        vec![prop("Other", Some("x"))],
        vec![prop("UID", None), prop("UID", Some("second"))],
        vec![prop("UID", Some("third")), prop("Data", Some("d"))],
    ];
    // The first one counts, though it is no string.
    assert_eq!(prop_string(&ifaces, "UID"), None);
    assert_eq!(prop_string(&ifaces, "Data"), Some("d".to_string()));
    assert_eq!(prop_string(&ifaces, "None"), None);
}

#[test]
fn bare_keys_only() {
    let ini = "[Data Source]\nDisplayName[de]=Persönlich\r\nDisplayName=Personal\nDisplayName=Other\n";
    assert_eq!(ini_value(ini, "DisplayName"), Some("Personal".to_string()));
    assert_eq!(ini_value(ini, "Display"), None);
    assert_eq!(ini_value("A=\n", "A"), Some(String::new()));
}

#[test]
fn calendars_among_sources() {
    let objects = vec![
        vec![vec![prop("UID", Some("a")), prop("Data", Some("[Calendar]\nDisplayName=Work\n"))]],
        vec![vec![prop("UID", Some("b")), prop("Data", Some("[Mail]\n"))]],
        vec![vec![prop("UID", Some("c"))]],
        vec![vec![prop("Data", Some("[Calendar]"))]],
        vec![vec![prop("UID", Some("d")), prop("Data", Some("[Calendar]"))]],
        // An address book whose name holds the header.
        vec![vec![
            prop("UID", Some("e")),
            prop("Data", Some("[Address Book]\nDisplayName=Not a [Calendar]\n")),
        ]],
        vec![vec![
            prop("UID", Some("f")),
            prop("Data", Some("[Data Source]\r\nDisplayName=Home\r\n\r\n [Calendar]\t\r\n")),
        ]],
    ];
    let found: Vec<(String, String)> =
        list_calendar_sources(&objects).into_iter().map(|s| (s.uid, s.name)).collect();
    assert_eq!(
        found,
        vec![
            ("a".to_string(), "Work".to_string()),
            ("d".to_string(), "d".to_string()),
            ("f".to_string(), "Home".to_string()),
        ]
    );
}

#[test]
fn targets() {
    let sources = vec![source("w", "Work ÄRGER"), source("system-calendar", "Personal"), source("x", "personal 2")];
    assert_eq!(resolve_target(&sources, None).ok().unwrap().uid, "system-calendar");
    assert_eq!(resolve_target(&sources, Some("PERSON")).ok().unwrap().uid, "system-calendar");
    assert_eq!(resolve_target(&sources, Some("x")).ok().unwrap().uid, "x");
    // The name is looked for in lower case, beyond ASCII too.
    assert_eq!(resolve_target(&sources, Some("äRG")).ok().unwrap().uid, "w");
    assert_eq!(
        resolve_target(&sources, Some("Home")).err(),
        Some("no calendar matching \"Home\"".to_string())
    );
    assert_eq!(resolve_target(&vec![source("q", "Q")], None).ok().unwrap().uid, "q");
    assert_eq!(resolve_target(&Vec::new(), None).err(), Some("no calendars available".to_string()));
}

#[test]
fn matching_lowered_names() {
    let sources = vec![source("a", "A"), source("b", "B")];
    let lowered = vec!["one".to_string(), "two".to_string()];
    assert_eq!(match_source(&sources, &lowered, "zz", "tw"), Some(1));
    assert_eq!(match_source(&sources, &lowered, "a", "tw"), Some(0));
    assert_eq!(match_source(&sources, &lowered, "zz", "three"), None);
}

#[test]
fn the_first_calendar_that_holds_an_event() {
    let sources = vec![source("a", "A"), source("b", "B"), source("c", "C")];
    assert!(matches!(find_event(&sources, "u"), Search::Try(0)));
    assert!(matches!(find_event_next(&sources, "u", 0, None), Search::Try(1)));
    assert!(matches!(find_event_next(&sources, "u", 1, Some("")), Search::Try(2)));
    assert!(matches!(find_event_next(&sources, "u", 1, Some("BEGIN")), Search::Found(1)));
    match find_event_next(&sources, "u", 2, None) {
        Search::Missing(e) => assert_eq!(e, "no event with uid \"u\" found in any calendar"),
        _ => panic!("expected the search to end"),
    }
    assert!(matches!(find_event(&Vec::new(), "u"), Search::Missing(_)));
}
