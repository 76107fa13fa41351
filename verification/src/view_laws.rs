//! The views of values tell them apart: what has the same view holds the same.

use crate::api::{
    call_views, event_views, item_views, ChatEvent, Chunk, Content, InputItem, ToolCall,
    TurnOutcome,
};
use crate::calendar::{
    iface_views, object_views, prop_views, source_views, CalSource, Prop,
};
use crate::config::Config;
use crate::conversation::{Conversation, Sent, Shown};
use crate::fade::{chunk_views, FadeState};
use crate::ical::{event_fields, Event};
use crate::keybinding::Relay;
use crate::listing::{reply_views, SourceReply};
use crate::requests::Creation;
use crate::text::{opt_str, opt_view, views};
use crate::tools::{tool_views, Param, Tool};
use vstd::prelude::*;

verus! {

/// A text that may be absent is told from one that is there.
pub proof fn law_absent_texts(s: String)
    ensures
        opt_view(Some(s)) == Some(s@),
        opt_view(None) is None,
        opt_str(None) is None,
{
}

/// A list of texts is seen whole and in order.
pub proof fn law_texts_are_seen(a: Seq<String>, s: String)
    ensures
        views(Seq::<String>::empty()).len() == 0,
        views(a.push(s)) == views(a).push(s@),
{
    assert(views(a.push(s)) =~= views(a).push(s@));
}

/// Calls and contents with the same view are the same.
pub proof fn law_calls_are_seen(a: ToolCall, b: ToolCall, x: Content, y: Content)
    ensures
        a@ == b@ <==> a.name@ == b.name@ && a.call_id@ == b.call_id@ && a.arguments@
            == b.arguments@,
        x@ == y@ <==> match (x, y) {
            (Content::Text(s), Content::Text(t)) => s@ == t@,
            (
                Content::Parts { text: s, images: m },
                Content::Parts { text: t, images: n },
            ) => s@ == t@ && views(m@) == views(n@),
            _ => false,
        },
{
}

/// Items with the same view are the same.
pub proof fn law_items_are_seen(a: InputItem, b: InputItem)
    ensures
        a@ == b@ <==> match (a, b) {
            (
                InputItem::Message { role: r, content: x },
                InputItem::Message { role: s, content: y },
            ) => r == s && x@ == y@,
            (InputItem::FunctionCall(c), InputItem::FunctionCall(d)) => c@ == d@,
            (
                InputItem::FunctionCallOutput { call_id: c, output: x },
                InputItem::FunctionCallOutput { call_id: d, output: y },
            ) => c@ == d@ && x@ == y@,
            _ => false,
        },
{
}

/// Events of a reply with the same view are the same.
pub proof fn law_events_are_seen(a: ChatEvent, b: ChatEvent, x: TurnOutcome, y: TurnOutcome)
    ensures
        a@ == b@ <==> match (a, b) {
            (ChatEvent::Delta(s), ChatEvent::Delta(t)) => s@ == t@,
            (ChatEvent::Reasoning(s), ChatEvent::Reasoning(t)) => s@ == t@,
            (
                ChatEvent::ToolCall { name: m, item: i },
                ChatEvent::ToolCall { name: n, item: j },
            ) => m@ == n@ && i@ == j@,
            (ChatEvent::ToolResult { item: i }, ChatEvent::ToolResult { item: j }) => i@ == j@,
            (ChatEvent::Done, ChatEvent::Done) => true,
            (ChatEvent::Error(s), ChatEvent::Error(t)) => s@ == t@,
            _ => false,
        },
        x@ == y@ <==> match (x, y) {
            (TurnOutcome::Completed, TurnOutcome::Completed) => true,
            (TurnOutcome::ToolCalls(c), TurnOutcome::ToolCalls(d)) => call_views(c@) == call_views(
                d@,
            ),
            _ => false,
        },
{
}

/// Lists of calls, items and events are seen whole and in order.
pub proof fn law_lists_of_a_turn_are_seen(
    calls: Seq<ToolCall>,
    c: ToolCall,
    items: Seq<InputItem>,
    i: InputItem,
    events: Seq<ChatEvent>,
    e: ChatEvent,
)
    ensures
        call_views(Seq::<ToolCall>::empty()).len() == 0,
        item_views(Seq::<InputItem>::empty()).len() == 0,
        event_views(Seq::<ChatEvent>::empty()).len() == 0,
        call_views(calls.push(c)) == call_views(calls).push(c@),
        item_views(items.push(i)) == item_views(items).push(i@),
        event_views(events.push(e)) == event_views(events).push(e@),
{
    assert(call_views(calls.push(c)) =~= call_views(calls).push(c@));
    assert(item_views(items.push(i)) =~= item_views(items).push(i@));
    assert(event_views(events.push(e)) =~= event_views(events).push(e@));
}

/// Chunks of a stream with the same view are the same.
pub proof fn law_chunks_are_seen(a: Chunk, b: Chunk)
    ensures
        a@ == b@ <==> {
            &&& opt_view(a.kind) == opt_view(b.kind)
            &&& opt_view(a.delta) == opt_view(b.delta)
            &&& opt_view(a.error) == opt_view(b.error)
            &&& opt_view(a.reason) == opt_view(b.reason)
            &&& opt_view(a.message) == opt_view(b.message)
            &&& match (a.call, b.call) {
                (Some(c), Some(d)) => c@ == d@,
                (None, None) => true,
                _ => false,
            }
        },
{
}

/// Events of a calendar, and the replies of calendars, with the same view are the same.
pub proof fn law_calendar_values_are_seen(
    a: Event,
    b: Event,
    x: CalSource,
    y: CalSource,
    p: SourceReply,
    q: SourceReply,
)
    ensures
        a@ == b@ <==> {
            &&& a.summary@ == b.summary@
            &&& opt_view(a.start_raw) == opt_view(b.start_raw)
            &&& opt_view(a.end_raw) == opt_view(b.end_raw)
            &&& a.all_day == b.all_day
            &&& opt_view(a.location) == opt_view(b.location)
            &&& opt_view(a.uid) == opt_view(b.uid)
            &&& a.calendar@ == b.calendar@
            &&& a.sort_key@ == b.sort_key@
        },
        x@ == y@ <==> x.uid@ == y.uid@ && x.name@ == y.name@,
        p@ == q@ <==> p.source@ == q.source@ && match (p.result, q.result) {
            (Ok(s), Ok(t)) => views(s@) == views(t@),
            (Err(s), Err(t)) => s@ == t@,
            _ => false,
        },
{
}

/// Lists of events, calendars, replies and properties are seen whole and in order.
pub proof fn law_calendar_lists_are_seen(
    events: Seq<Event>,
    e: Event,
    sources: Seq<CalSource>,
    s: CalSource,
    replies: Seq<SourceReply>,
    r: SourceReply,
    props: Seq<Prop>,
    p: Prop,
)
    ensures
        event_fields(Seq::<Event>::empty()).len() == 0,
        source_views(Seq::<CalSource>::empty()).len() == 0,
        reply_views(Seq::<SourceReply>::empty()).len() == 0,
        prop_views(Seq::<Prop>::empty()).len() == 0,
        event_fields(events.push(e)) == event_fields(events).push(e@),
        source_views(sources.push(s)) == source_views(sources).push(s@),
        reply_views(replies.push(r)) == reply_views(replies).push(r@),
        prop_views(props.push(p)) == prop_views(props).push(p@),
        p@.key == p.key@,
        p@.value == opt_view(p.value),
{
    assert(event_fields(events.push(e)) =~= event_fields(events).push(e@));
    assert(source_views(sources.push(s)) =~= source_views(sources).push(s@));
    assert(reply_views(replies.push(r)) =~= reply_views(replies).push(r@));
    assert(prop_views(props.push(p)) =~= prop_views(props).push(p@));
}

/// Objects and their interfaces are seen whole and in order.
pub proof fn law_objects_are_seen(
    ifaces: Seq<Vec<Prop>>,
    i: Vec<Prop>,
    objects: Seq<Vec<Vec<Prop>>>,
    o: Vec<Vec<Prop>>,
)
    ensures
        iface_views(Seq::<Vec<Prop>>::empty()).len() == 0,
        object_views(Seq::<Vec<Vec<Prop>>>::empty()).len() == 0,
        iface_views(ifaces.push(i)) == iface_views(ifaces).push(prop_views(i@)),
        object_views(objects.push(o)) == object_views(objects).push(iface_views(o@)),
{
    assert(iface_views(ifaces.push(i)) =~= iface_views(ifaces).push(prop_views(i@)));
    assert(object_views(objects.push(o)) =~= object_views(objects).push(iface_views(o@)));
}

/// Settings and keybindings with the same view are the same.
pub proof fn law_settings_are_seen(a: Config, b: Config, x: Relay, y: Relay)
    ensures
        a@ == b@ <==> {
            &&& a.enabled == b.enabled
            &&& a.shortcut@ == b.shortcut@
            &&& a.screenshot_shortcut@ == b.screenshot_shortcut@
            &&& a.start_on_login == b.start_on_login
            &&& a.api_base_url@ == b.api_base_url@
            &&& a.api_key@ == b.api_key@
            &&& a.model@ == b.model@
            &&& a.system_prompt@ == b.system_prompt@
            &&& views(a.enabled_tools@) == views(b.enabled_tools@)
        },
        x@ == y@ <==> x.path@ == y.path@ && x.name@ == y.name@ && x.command@ == y.command@
            && x.binding@ == y.binding@,
{
}

/// Conversations and messages with the same view are the same.
pub proof fn law_conversations_are_seen(a: Conversation, b: Conversation, x: Sent, y: Sent)
    ensures
        a@ == b@ <==> {
            &&& item_views(a.history@) == item_views(b.history@)
            &&& a.streaming == b.streaming
            &&& opt_view(a.screenshot) == opt_view(b.screenshot)
            &&& a.revealed == b.revealed
            &&& a.first_hidden == b.first_hidden
            &&& a.answer@ == b.answer@
        },
        x@ == y@ <==> x.message@ == y.message@ && views(x.images@) == views(y.images@) && x.hidden
            == y.hidden && x.follows == y.follows && x.show_first == y.show_first,
{
}

/// What the window is asked to show, and what fades in, with the same view is the same.
pub proof fn law_shown_values_are_seen(a: Shown, b: Shown, x: FadeState, y: FadeState)
    ensures
        a@ == b@ <==> match (a, b) {
            (Shown::Answer(s), Shown::Answer(t)) => s@ == t@,
            (Shown::Reasoning(s), Shown::Reasoning(t)) => s@ == t@,
            (Shown::Running(s), Shown::Running(t)) => s@ == t@,
            (Shown::Ran, Shown::Ran) => true,
            (Shown::Complete, Shown::Complete) => true,
            (Shown::Nothing, Shown::Nothing) => true,
            (Shown::Failed(s), Shown::Failed(t)) => s@ == t@,
            _ => false,
        },
        x@ == y@ <==> x.settled@ == y.settled@ && chunk_views(x.pending@) == chunk_views(
            y.pending@,
        ),
        forall|c: crate::fade::Chunk, d: crate::fade::Chunk| #[trigger]
            c@ == #[trigger] d@ <==> c.text@ == d.text@ && c.arrival == d.arrival,
{
}

/// What is to be created, and the tools that are offered, with the same view are the same.
pub proof fn law_requests_are_seen(
    a: Creation,
    b: Creation,
    tools: Seq<Tool>,
    t: Tool,
    p: Param,
    i: int,
)
    ensures
        a@ == b@ <==> {
            &&& a.summary@ == b.summary@
            &&& a.start@ == b.start@
            &&& a.all_day == b.all_day
            &&& opt_view(a.end) == opt_view(b.end)
            &&& opt_view(a.location) == opt_view(b.location)
            &&& opt_view(a.description) == opt_view(b.description)
            &&& opt_view(a.calendar) == opt_view(b.calendar)
        },
        tool_views(Seq::<Tool>::empty()).len() == 0,
        tool_views(tools.push(t)) == tool_views(tools).push(t@),
        t@.name == t.name@,
        t@.description == t.description@,
        t@.params.len() == t.params@.len(),
        0 <= i < t.params@.len() ==> t@.params[i] == t.params@[i]@,
        p@.name == p.name@,
        p@.description == opt_view(p.description),
        p@.required == p.required,
{
    assert(tool_views(tools.push(t)) =~= tool_views(tools).push(t@));
}

} // verus!
