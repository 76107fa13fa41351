//! What is asked of the calendar tools, and what the model is told.

use crate::ascii::decimal;
use crate::calendar_tools::{
    calendar_tools, create_event_data, delete_event_data, dispatched, list_events_data,
    modify_event_data, offered, tool_named, CalendarTool,
};
use crate::datetime::parsed;
use crate::ical::new_vevent;
use crate::json::Json;
use crate::requests::{
    asked_change, create_asked, create_check, created_text, creation_of, creation_text,
    delete_check, deleted_text, list_asked, modified_text, modify_asked, modify_error, uid_asked,
    uid_text, ChangeData, CreateData, ListData, Modification, ModifyArgs,
};
use crate::text::opt_view;
use crate::tools::{malformed, Tool, ToolData};
use vstd::prelude::*;

verus! {

// ---------------------------------------------------------------------------
// Arguments
// ---------------------------------------------------------------------------

/// Arguments with one of them given anew.
pub open spec fn with_argument(m: Map<Seq<char>, Json>, name: Seq<char>, value: Json) -> Json {
    Json::Object(m.insert(name, value))
}

/// The text of an argument; none if it is no text.
pub open spec fn text_given(value: Json) -> Option<Seq<char>> {
    match value {
        Json::Text(s) => Some(s),
        _ => None,
    }
}

proof fn lemma_names()
    ensures
        "summary"@ != "start"@,
        "summary"@ != "end"@,
        "summary"@ != "location"@,
        "summary"@ != "description"@,
        "summary"@ != "calendar"@,
        "summary"@ != "uid"@,
        "start"@ != "end"@,
        "start"@ != "location"@,
        "start"@ != "description"@,
        "start"@ != "calendar"@,
        "start"@ != "uid"@,
        "end"@ != "location"@,
        "end"@ != "description"@,
        "end"@ != "calendar"@,
        "end"@ != "uid"@,
        "location"@ != "description"@,
        "location"@ != "calendar"@,
        "location"@ != "uid"@,
        "description"@ != "calendar"@,
        "description"@ != "uid"@,
        "calendar"@ != "uid"@,
{
    reveal_strlit("summary");
    reveal_strlit("start");
    reveal_strlit("end");
    reveal_strlit("location");
    reveal_strlit("description");
    reveal_strlit("calendar");
    reveal_strlit("uid");
    assert("summary"@.len() == 7 && "start"@.len() == 5 && "end"@.len() == 3);
    assert("location"@.len() == 8 && "description"@.len() == 11 && "calendar"@.len() == 8);
    assert("uid"@.len() == 3);
    assert("location"@[0] == 'l' && "calendar"@[0] == 'c');
    assert("end"@[0] == 'e' && "uid"@[0] == 'u');
}

/// Each argument of a listing is read under its own name, whatever the others are. One
/// that is no text counts as not given.
pub proof fn law_list_arguments_are_read(m: Map<Seq<char>, Json>, v: Json)
    ensures
        ({
            let a = list_asked(Json::Object(m));
            &&& list_asked(with_argument(m, "start"@, v)) == (ListData {
                start: text_given(v),
                ..a
            })
            &&& list_asked(with_argument(m, "end"@, v)) == (ListData { end: text_given(v), ..a })
            &&& list_asked(with_argument(m, "calendar"@, v)) == (ListData {
                calendar: text_given(v),
                ..a
            })
            &&& list_asked(Json::Object(Map::empty())) == (ListData {
                start: None,
                end: None,
                calendar: None,
            })
        }),
{
    lemma_names();
}

/// Each argument of a new event is read under its own name, whatever the others are.
pub proof fn law_create_arguments_are_read(m: Map<Seq<char>, Json>, v: Json)
    ensures
        ({
            let a = create_asked(Json::Object(m));
            let t = text_given(v);
            &&& create_asked(with_argument(m, "summary"@, v)) == (CreateData { summary: t, ..a })
            &&& create_asked(with_argument(m, "start"@, v)) == (CreateData { start: t, ..a })
            &&& create_asked(with_argument(m, "end"@, v)) == (CreateData { end: t, ..a })
            &&& create_asked(with_argument(m, "location"@, v)) == (CreateData { location: t, ..a })
            &&& create_asked(with_argument(m, "description"@, v)) == (CreateData {
                description: t,
                ..a
            })
            &&& create_asked(with_argument(m, "calendar"@, v)) == (CreateData { calendar: t, ..a })
            &&& create_asked(Json::Object(Map::empty())) == (CreateData {
                summary: None,
                start: None,
                end: None,
                location: None,
                description: None,
                calendar: None,
            })
        }),
{
    lemma_names();
}

/// Each argument of a change is read under its own name, whatever the others are.
pub proof fn law_modify_arguments_are_read(m: Map<Seq<char>, Json>, v: Json)
    ensures
        ({
            let a = modify_asked(Json::Object(m));
            let t = text_given(v);
            &&& modify_asked(with_argument(m, "summary"@, v)) == (ChangeData { summary: t, ..a })
            &&& modify_asked(with_argument(m, "start"@, v)) == (ChangeData { start: t, ..a })
            &&& modify_asked(with_argument(m, "end"@, v)) == (ChangeData { end: t, ..a })
            &&& modify_asked(with_argument(m, "location"@, v)) == (ChangeData { location: t, ..a })
            &&& modify_asked(with_argument(m, "description"@, v)) == (ChangeData {
                description: t,
                ..a
            })
            &&& modify_asked(with_argument(m, "uid"@, v)) == a
            &&& uid_asked(with_argument(m, "uid"@, v)) == t
            &&& modify_asked(Json::Object(Map::empty())) == (ChangeData {
                summary: None,
                start: None,
                end: None,
                location: None,
                description: None,
            })
            &&& uid_asked(Json::Object(Map::empty())) is None
        }),
{
    lemma_names();
}

/// A new event needs a title, and a start that can be read, by which it is an all-day
/// event unless it has a time. What is missing is told, the title first.
pub proof fn law_new_event_needs_title_and_start(
    summary: Option<Seq<char>>,
    start: Option<Seq<char>>,
)
    ensures
        ({
            let r = create_check(summary, start);
            &&& r is Ok <==> summary is Some && start is Some && parsed(start->0) is Some
            &&& r matches Ok(all_day) ==> all_day == !(parsed(start->0)->0).1
            &&& summary is None ==> r == Err::<bool, Seq<char>>("`summary` must be a string"@)
            &&& (summary is Some && start is None) ==> r == Err::<bool, Seq<char>>(
                "`start` must be a string"@,
            )
            &&& (summary is Some && start is Some && parsed(start->0) is None) ==> r == Err::<
                bool,
                Seq<char>,
            >("not an ISO 8601 date or time: "@ + start->0)
        }),
{
}

/// A change needs the uid of an event, and at least one field to change.
pub proof fn law_change_needs_uid_and_field(uid: Option<Seq<char>>, c: ChangeData)
    ensures
        ({
            let some = c.summary is Some || c.start is Some || c.end is Some || c.location is Some
                || c.description is Some;
            let r = modify_error(uid, c);
            &&& r is None <==> uid is Some && some
            &&& uid is None ==> r == Some("`uid` must be a string"@)
            &&& (uid is Some && !some) ==> r == Some(
                "nothing to modify: provide at least one field to change"@,
            )
        }),
{
}

/// Arguments are malformed where they are no JSON, and that is told as it was found.
pub proof fn law_malformed_arguments_are_told(arguments: Seq<char>)
    ensures
        crate::json::json_parse(arguments) is Ok <==> malformed(arguments) is None,
        crate::json::json_parse(arguments) matches Err(e) ==> malformed(arguments) == Some(
            "malformed arguments: "@ + e,
        ),
{
}

// ---------------------------------------------------------------------------
// What is told
// ---------------------------------------------------------------------------

/// What was done is told with the title or the uid of the event, and the calendar.
pub proof fn law_outcomes_are_told(summary: Seq<char>, calendar: Seq<char>, uid: Seq<char>)
    ensures
        created_text(summary, calendar, uid) == "Created \""@ + summary + ("\" in "@ + calendar + (
        " (uid: "@ + uid + ")."@)),
        modified_text(uid, calendar) == "Modified event "@ + uid + (" in "@ + calendar + seq!['.']),
        deleted_text(uid, calendar) == "Deleted event "@ + uid + (" from "@ + calendar + seq!['.']),
{
    reveal_strlit(".");
    assert("."@ =~= seq!['.']);
    assert(created_text(summary, calendar, uid) =~= "Created \""@ + summary + ("\" in "@ + calendar
        + (" (uid: "@ + uid + ")."@)));
    assert(modified_text(uid, calendar) =~= "Modified event "@ + uid + (" in "@ + calendar + seq![
        '.',
    ]));
    assert(deleted_text(uid, calendar) =~= "Deleted event "@ + uid + (" from "@ + calendar + seq![
        '.',
    ]));
}

/// The uid of an event is made of the time, the process and a number, all in decimal.
pub proof fn law_uid_is_made_of_its_parts(now: nat, pid: nat, n: nat)
    ensures
        uid_text(now, pid, n) == "beckon-"@ + (decimal(now) + (seq!['-'] + decimal(pid) + (seq![
            '-',
        ] + decimal(n))) + "@beckon"@),
{
    assert(uid_text(now, pid, n) =~= "beckon-"@ + (decimal(now) + (seq!['-'] + decimal(pid) + (seq![
        '-',
    ] + decimal(n))) + "@beckon"@));
}

// ---------------------------------------------------------------------------
// What is offered
// ---------------------------------------------------------------------------

/// The names of the arguments of a tool.
pub open spec fn names(t: ToolData) -> Seq<Seq<char>> {
    Seq::new(t.params.len(), |i: int| t.params[i].name)
}

/// Whether exactly the first arguments of a tool have to be given.
pub open spec fn needs_first(t: ToolData, n: nat) -> bool {
    n <= t.params.len() && forall|i: int|
        0 <= i < t.params.len() ==> (#[trigger] t.params[i]).required == (i < n)
}

/// A tool is offered with the arguments that are read of it, and those have to be given
/// without which it is refused.
pub proof fn law_tools_ask_for_what_is_read()
    ensures
        names(list_events_data()) == seq!["start"@, "end"@, "calendar"@],
        needs_first(list_events_data(), 0),
        names(create_event_data()) == seq![
            "summary"@,
            "start"@,
            "end"@,
            "location"@,
            "description"@,
            "calendar"@,
        ],
        needs_first(create_event_data(), 2),
        names(modify_event_data()) == seq![
            "uid"@,
            "summary"@,
            "start"@,
            "end"@,
            "location"@,
            "description"@,
        ],
        needs_first(modify_event_data(), 1),
        names(delete_event_data()) == seq!["uid"@],
        needs_first(delete_event_data(), 1),
{
    assert(names(list_events_data()) =~= seq!["start"@, "end"@, "calendar"@]);
    assert(names(create_event_data()) =~= seq![
        "summary"@,
        "start"@,
        "end"@,
        "location"@,
        "description"@,
        "calendar"@,
    ]);
    assert(names(modify_event_data()) =~= seq![
        "uid"@,
        "summary"@,
        "start"@,
        "end"@,
        "location"@,
        "description"@,
    ]);
    assert(names(delete_event_data()) =~= seq!["uid"@]);
}

/// The calendar tools are offered, all four of them, where the toolset is switched on,
/// wherever it stands among others; else none is.
pub proof fn law_calendar_tools_are_switched_on(
    a: Seq<Seq<char>>,
    b: Seq<Seq<char>>,
    others: Seq<Seq<char>>,
)
    requires
        forall|i: int| 0 <= i < others.len() ==> #[trigger] others[i] != "calendar"@,
    ensures
        offered(a + seq!["calendar"@] + b) == seq![
            list_events_data(),
            create_event_data(),
            modify_event_data(),
            delete_event_data(),
        ],
        offered(others).len() == 0,
{
    let all = a + seq!["calendar"@] + b;
    assert(all[a.len() as int] == "calendar"@);
    assert(all.contains("calendar"@));
}

/// A name stands for a tool only if it is the whole name of it.
pub proof fn law_tools_go_by_their_names(name: Seq<char>)
    ensures
        tool_named(name) is Some <==> name == "calendar_list_events"@ || name
            == "calendar_create_event"@ || name == "calendar_modify_event"@ || name
            == "calendar_delete_event"@,
        tool_named("calendar_list_events"@) == Some(CalendarTool::List),
        tool_named("calendar_create_event"@) == Some(CalendarTool::Create),
        tool_named("calendar_modify_event"@) == Some(CalendarTool::Modify),
        tool_named("calendar_delete_event"@) == Some(CalendarTool::Delete),
{
    reveal_strlit("calendar_list_events");
    reveal_strlit("calendar_create_event");
    reveal_strlit("calendar_modify_event");
    reveal_strlit("calendar_delete_event");
    let list = "calendar_list_events"@;
    let create = "calendar_create_event"@;
    let modify = "calendar_modify_event"@;
    let delete = "calendar_delete_event"@;
    assert(list[9] == 'l' && create[9] == 'c' && modify[9] == 'm' && delete[9] == 'd');
}

/// A call runs the tool of its name where that is offered. Any other call is answered
/// with its name, and runs nothing.
pub proof fn law_only_offered_tools_run(tools: Seq<Tool>, name: Seq<char>, i: int)
    ensures
        0 <= i < tools.len() && tools[i].name@ == name && tool_named(name) is Some ==> dispatched(
            tools,
            name,
        ) == Ok::<CalendarTool, Seq<char>>(tool_named(name)->0),
        (forall|j: int| 0 <= j < tools.len() ==> (#[trigger] tools[j]).name@ != name) ==> dispatched(
            tools,
            name,
        ) == Err::<CalendarTool, Seq<char>>("unknown tool: "@ + name),
        tool_named(name) is None ==> dispatched(tools, name) == Err::<CalendarTool, Seq<char>>(
            "unknown tool: "@ + name,
        ),
{
}

// ---------------------------------------------------------------------------
// What becomes of a request
// ---------------------------------------------------------------------------

/// A new event is created with all that was asked for, and nothing else.
pub proof fn law_creation_is_what_was_asked(a: CreateData, now: int, uid: Seq<char>)
    ensures
        creation_of(a) is Ok <==> create_check(a.summary, a.start) is Ok,
        creation_of(a) matches Err(e) ==> create_check(a.summary, a.start) == Err::<
            bool,
            Seq<char>,
        >(e),
        creation_of(a) matches Ok(c) ==> {
            &&& Some(c.summary) == a.summary
            &&& Some(c.start) == a.start
            &&& c.all_day == !(parsed(c.start)->0).1
            &&& c.end == a.end
            &&& c.location == a.location
            &&& c.description == a.description
            &&& c.calendar == a.calendar
            &&& creation_text(now, uid, c) == new_vevent(
                now,
                uid,
                a.start->0,
                !(parsed(a.start->0)->0).1,
                a.end,
                a.summary->0,
                a.location,
                a.description,
            )
        },
{
}

/// A change is made of exactly the fields that were asked to be changed.
pub proof fn law_change_is_what_was_asked(m: Modification, args: ModifyArgs)
    ensures
        m.change().summary == opt_view(m.summary),
        m.change().start == opt_view(m.start),
        m.change().end == opt_view(m.end),
        m.change().location == opt_view(m.location),
        m.change().description == opt_view(m.description),
        asked_change(args).summary == opt_view(args.summary),
        asked_change(args).start == opt_view(args.start),
        asked_change(args).end == opt_view(args.end),
        asked_change(args).location == opt_view(args.location),
        asked_change(args).description == opt_view(args.description),
{
}

/// The event that is named is the one that is deleted; without a name that is an error.
pub proof fn law_named_event_is_deleted(uid: Seq<char>)
    ensures
        delete_check(Some(uid)) == Ok::<Seq<char>, Seq<char>>(uid),
        delete_check(None) == Err::<Seq<char>, Seq<char>>("`uid` must be a string"@),
{
}

/// Whether an argument of a tool is described beyond its name.
pub open spec fn described(t: ToolData) -> Seq<bool> {
    Seq::new(t.params.len(), |i: int| t.params[i].description is Some)
}

/// Every tool says what it does, and every argument that does not speak for itself is
/// described.
pub proof fn law_tools_are_explained()
    ensures
        forall|i: int|
            0 <= i < calendar_tools().len() ==> (#[trigger] calendar_tools()[i]).description.len()
                > 0,
        described(list_events_data()) == seq![true, true, true],
        described(create_event_data()) == seq![true, true, true, false, false, true],
        described(modify_event_data()) == seq![true, false, true, true, false, false],
        described(delete_event_data()) == seq![true],
{
    reveal_strlit(
        "List calendar events in a time range across all the user's calendars. Returns each event's title, time, location, calendar, and uid (use the uid to modify or delete an event).",
    );
    reveal_strlit("Create a new calendar event. Writes to the user's real calendar.");
    reveal_strlit(
        "Modify an existing event, identified by its uid (from calendar_list_events). Only the fields you provide are changed. Writes to the user's real calendar.",
    );
    reveal_strlit(
        "Delete an event, identified by its uid (from calendar_list_events). Permanently removes it from the user's real calendar.",
    );
    assert(described(list_events_data()) =~= seq![true, true, true]);
    assert(described(create_event_data()) =~= seq![true, true, true, false, false, true]);
    assert(described(modify_event_data()) =~= seq![true, false, true, true, false, false]);
    assert(described(delete_event_data()) =~= seq![true]);
    assert forall|i: int| 0 <= i < calendar_tools().len() implies (
    #[trigger] calendar_tools()[i]).description.len() > 0 by {
        assert(i == 0 || i == 1 || i == 2 || i == 3);
    }
}

} // verus!
