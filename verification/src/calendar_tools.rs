//! How the calendar tools are described to the model.

use crate::text::{has_string, opt_str, own_opt, same_str, views};
use crate::tools::{tool_views, Param, ParamData, Tool, ToolData, ToolRegistry};
use vstd::prelude::*;

verus! {

/// An argument of a tool.
pub open spec fn param_data(
    name: Seq<char>,
    description: Option<Seq<char>>,
    required: bool,
) -> ParamData {
    ParamData { name: name, description: description, required: required }
}

fn param(name: &str, description: Option<&str>, required: bool) -> (r: Param)
    ensures
        r@ == param_data(name@, opt_str(description), required),
{
    Param { name: name.to_owned(), description: own_opt(description), required: required }
}

/// The tool `calendar_list_events`.
pub open spec fn list_events_data() -> ToolData {
    ToolData {
        name: "calendar_list_events"@,
        description: "List calendar events in a time range across all the user's calendars. Returns each event's title, time, location, calendar, and uid (use the uid to modify or delete an event)."@,
        params: seq![
            param_data(
                "start"@,
                Some("Start of range, ISO 8601 (YYYY-MM-DD or YYYY-MM-DDTHH:MM:SSZ). Naive times are UTC. Defaults to now."@),
                false,
            ),
            param_data(
                "end"@,
                Some("End of range, ISO 8601. Defaults to 7 days after start."@),
                false,
            ),
            param_data(
                "calendar"@,
                Some("Optional: only this calendar (case-insensitive name substring)."@),
                false,
            ),
        ],
    }
}

fn list_events_tool() -> (r: Tool)
    ensures
        r@ == list_events_data(),
{
    let mut params: Vec<Param> = Vec::new();
    params.push(
        param(
            "start",
            Some("Start of range, ISO 8601 (YYYY-MM-DD or YYYY-MM-DDTHH:MM:SSZ). Naive times are UTC. Defaults to now."),
            false,
        ),
    );
    params.push(
        param(
            "end",
            Some("End of range, ISO 8601. Defaults to 7 days after start."),
            false,
        ),
    );
    params.push(
        param(
            "calendar",
            Some("Optional: only this calendar (case-insensitive name substring)."),
            false,
        ),
    );
    let t = Tool {
        name: "calendar_list_events".to_owned(),
        description: "List calendar events in a time range across all the user's calendars. Returns each event's title, time, location, calendar, and uid (use the uid to modify or delete an event).".to_owned(),
        params: params,
    };
    assert(t@.params =~= list_events_data().params);
    t
}

/// The tool `calendar_create_event`.
pub open spec fn create_event_data() -> ToolData {
    ToolData {
        name: "calendar_create_event"@,
        description: "Create a new calendar event. Writes to the user's real calendar."@,
        params: seq![
            param_data(
                "summary"@,
                Some("Event title."@),
                true,
            ),
            param_data(
                "start"@,
                Some("Start, ISO 8601. A date only (YYYY-MM-DD) creates an all-day event; include a time for a timed event. Naive times are UTC."@),
                true,
            ),
            param_data(
                "end"@,
                Some("End, ISO 8601. Defaults to 1 hour after a timed start, or the next day for all-day."@),
                false,
            ),
            param_data(
                "location"@,
                None,
                false,
            ),
            param_data(
                "description"@,
                None,
                false,
            ),
            param_data(
                "calendar"@,
                Some("Optional target calendar (name substring or uid). Defaults to the local Personal calendar."@),
                false,
            ),
        ],
    }
}

fn create_event_tool() -> (r: Tool)
    ensures
        r@ == create_event_data(),
{
    let mut params: Vec<Param> = Vec::new();
    params.push(
        param(
            "summary",
            Some("Event title."),
            true,
        ),
    );
    params.push(
        param(
            "start",
            Some("Start, ISO 8601. A date only (YYYY-MM-DD) creates an all-day event; include a time for a timed event. Naive times are UTC."),
            true,
        ),
    );
    params.push(
        param(
            "end",
            Some("End, ISO 8601. Defaults to 1 hour after a timed start, or the next day for all-day."),
            false,
        ),
    );
    params.push(
        param(
            "location",
            None,
            false,
        ),
    );
    params.push(
        param(
            "description",
            None,
            false,
        ),
    );
    params.push(
        param(
            "calendar",
            Some("Optional target calendar (name substring or uid). Defaults to the local Personal calendar."),
            false,
        ),
    );
    let t = Tool {
        name: "calendar_create_event".to_owned(),
        description: "Create a new calendar event. Writes to the user's real calendar.".to_owned(),
        params: params,
    };
    assert(t@.params =~= create_event_data().params);
    t
}

/// The tool `calendar_modify_event`.
pub open spec fn modify_event_data() -> ToolData {
    ToolData {
        name: "calendar_modify_event"@,
        description: "Modify an existing event, identified by its uid (from calendar_list_events). Only the fields you provide are changed. Writes to the user's real calendar."@,
        params: seq![
            param_data(
                "uid"@,
                Some("uid of the event to modify."@),
                true,
            ),
            param_data(
                "summary"@,
                None,
                false,
            ),
            param_data(
                "start"@,
                Some("New start, ISO 8601 (date only = all-day)."@),
                false,
            ),
            param_data(
                "end"@,
                Some("New end, ISO 8601."@),
                false,
            ),
            param_data(
                "location"@,
                None,
                false,
            ),
            param_data(
                "description"@,
                None,
                false,
            ),
        ],
    }
}

fn modify_event_tool() -> (r: Tool)
    ensures
        r@ == modify_event_data(),
{
    let mut params: Vec<Param> = Vec::new();
    params.push(
        param(
            "uid",
            Some("uid of the event to modify."),
            true,
        ),
    );
    params.push(
        param(
            "summary",
            None,
            false,
        ),
    );
    params.push(
        param(
            "start",
            Some("New start, ISO 8601 (date only = all-day)."),
            false,
        ),
    );
    params.push(
        param(
            "end",
            Some("New end, ISO 8601."),
            false,
        ),
    );
    params.push(
        param(
            "location",
            None,
            false,
        ),
    );
    params.push(
        param(
            "description",
            None,
            false,
        ),
    );
    let t = Tool {
        name: "calendar_modify_event".to_owned(),
        description: "Modify an existing event, identified by its uid (from calendar_list_events). Only the fields you provide are changed. Writes to the user's real calendar.".to_owned(),
        params: params,
    };
    assert(t@.params =~= modify_event_data().params);
    t
}

/// The tool `calendar_delete_event`.
pub open spec fn delete_event_data() -> ToolData {
    ToolData {
        name: "calendar_delete_event"@,
        description: "Delete an event, identified by its uid (from calendar_list_events). Permanently removes it from the user's real calendar."@,
        params: seq![
            param_data(
                "uid"@,
                Some("uid of the event to delete."@),
                true,
            ),
        ],
    }
}

fn delete_event_tool() -> (r: Tool)
    ensures
        r@ == delete_event_data(),
{
    let mut params: Vec<Param> = Vec::new();
    params.push(
        param(
            "uid",
            Some("uid of the event to delete."),
            true,
        ),
    );
    let t = Tool {
        name: "calendar_delete_event".to_owned(),
        description: "Delete an event, identified by its uid (from calendar_list_events). Permanently removes it from the user's real calendar.".to_owned(),
        params: params,
    };
    assert(t@.params =~= delete_event_data().params);
    t
}

/// The calendar tools.
pub open spec fn calendar_tools() -> Seq<ToolData> {
    seq![list_events_data(), create_event_data(), modify_event_data(), delete_event_data()]
}

/// Builds the calendar tools exposed to the model. One settings toggle
/// ("calendar") enables this whole set.
pub fn tools() -> (r: Vec<Tool>)
    ensures
        tool_views(r@) == calendar_tools(),
{
    let mut out: Vec<Tool> = Vec::new();
    out.push(list_events_tool());
    out.push(create_event_tool());
    out.push(modify_event_tool());
    out.push(delete_event_tool());
    assert(tool_views(out@) =~= calendar_tools());
    out
}

/// The tools that are offered where the given toolsets are switched on.
pub open spec fn offered(enabled: Seq<Seq<char>>) -> Seq<ToolData> {
    if enabled.contains("calendar"@) {
        calendar_tools()
    } else {
        seq![]
    }
}

/// The calendar tools, where the toolset `calendar` is switched on in the settings;
/// otherwise no tools. Other toolsets have no say in it.
pub fn calendar_registry(enabled: &Vec<String>) -> (r: ToolRegistry)
    ensures
        tool_views(r.tools@) == if views(enabled@).contains("calendar"@) {
            calendar_tools()
        } else {
            seq![]
        },
        tool_views(r.tools@) == offered(views(enabled@)),
{
    if has_string(enabled, "calendar") {
        ToolRegistry { tools: tools() }
    } else {
        let r = ToolRegistry::new();
        assert(tool_views(r.tools@) =~= seq![]);
        r
    }
}

// ---------------------------------------------------------------------------
// Calls
// ---------------------------------------------------------------------------

/// What a calendar tool does.
#[derive(Clone, Copy, Debug, PartialEq, Eq)]
pub enum CalendarTool {
    List,
    Create,
    Modify,
    Delete,
}

/// The tool that a name stands for.
pub open spec fn tool_named(name: Seq<char>) -> Option<CalendarTool> {
    if name == "calendar_list_events"@ {
        Some(CalendarTool::List)
    } else if name == "calendar_create_event"@ {
        Some(CalendarTool::Create)
    } else if name == "calendar_modify_event"@ {
        Some(CalendarTool::Modify)
    } else if name == "calendar_delete_event"@ {
        Some(CalendarTool::Delete)
    } else {
        None
    }
}

/// The calendar tool with the given name.
pub fn tool_of(name: &str) -> (r: Option<CalendarTool>)
    ensures
        r == tool_named(name@),
{
    if same_str(name, "calendar_list_events") {
        Some(CalendarTool::List)
    } else if same_str(name, "calendar_create_event") {
        Some(CalendarTool::Create)
    } else if same_str(name, "calendar_modify_event") {
        Some(CalendarTool::Modify)
    } else if same_str(name, "calendar_delete_event") {
        Some(CalendarTool::Delete)
    } else {
        None
    }
}

/// What the model is told of a call of a tool that it was not offered.
pub fn unknown_tool(name: &str) -> (r: String)
    ensures
        r@ == "unknown tool: "@ + name@,
{
    let mut out = "unknown tool: ".to_owned();
    out.append(name);
    out
}

/// Whether a tool of the given name is offered.
pub open spec fn is_offered(tools: Seq<Tool>, name: Seq<char>) -> bool {
    exists|i: int| 0 <= i < tools.len() && (#[trigger] tools[i]).name@ == name
}

/// The tool that a call by this name runs, or what the model is told instead.
pub open spec fn dispatched(tools: Seq<Tool>, name: Seq<char>) -> Result<CalendarTool, Seq<char>> {
    if tool_named(name) is Some && is_offered(tools, name) {
        Ok(tool_named(name)->0)
    } else {
        Err("unknown tool: "@ + name)
    }
}

/// The tool that a call asks for, where it is one of those that are offered.
pub fn dispatch(offered: &ToolRegistry, name: &str) -> (r: Result<CalendarTool, String>)
    ensures
        match (r, tool_named(name@)) {
            (Ok(t), Some(u)) => t == u && is_offered(offered.tools@, name@),
            (Ok(_), None) => false,
            (Err(e), Some(_)) => !is_offered(offered.tools@, name@) && e@ == "unknown tool: "@
                + name@,
            (Err(e), None) => e@ == "unknown tool: "@ + name@,
        },
        dispatched(offered.tools@, name@) == match r {
            Ok(t) => Ok(t),
            Err(e) => Err(e@),
        },
{
    match (offered.find(name), tool_of(name)) {
        (Some(_), Some(tool)) => Ok(tool),
        _ => Err(unknown_tool(name)),
    }
}

/// Every calendar tool that is offered can be run, each name as the tool that it
/// describes.
pub proof fn law_offered_tools_can_be_run()
    ensures
        tool_named(list_events_data().name) == Some(CalendarTool::List),
        tool_named(create_event_data().name) == Some(CalendarTool::Create),
        tool_named(modify_event_data().name) == Some(CalendarTool::Modify),
        tool_named(delete_event_data().name) == Some(CalendarTool::Delete),
        forall|i: int|
            0 <= i < calendar_tools().len() ==> tool_named((#[trigger] calendar_tools()[i]).name)
                is Some,
{
    reveal_strlit("calendar_list_events");
    reveal_strlit("calendar_create_event");
    reveal_strlit("calendar_modify_event");
    reveal_strlit("calendar_delete_event");
    let list = "calendar_list_events"@;
    let create = "calendar_create_event"@;
    let modify = "calendar_modify_event"@;
    let delete = "calendar_delete_event"@;
    assert(list[9] == 'l' && create[9] == 'c' && modify[9] == 'm' && delete[9] == 'd');
    assert forall|i: int| 0 <= i < calendar_tools().len() implies tool_named(
        (#[trigger] calendar_tools()[i]).name,
    ) is Some by {
        assert(i == 0 || i == 1 || i == 2 || i == 3);
    }
}

} // verus!
