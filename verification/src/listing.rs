//! Listing events: the range that is asked for, and the text that the model is
//! shown.

use crate::calendar::{copy_source, source_views, CalSource, SourceData};
use crate::datetime::{epoch_to_make_time, iso_error, parse_iso, parsed, time_stamp};
use crate::ical::{event_fields, events_of, format_dt, parse_events, shown_time, Event, EventFields};
use crate::order::{
    before, is_stable_order, key_views, lemma_before, lemma_no_position_twice, lemma_rearranged,
    lemma_stable_order_exists, less, stable_order, stable_order_of,
};
use crate::split::{join, join_strings};
use crate::text::{chars_of, contains, contains_str, lowercase, lowercased, opt_str, views};
use crate::tools::{truncate, truncated};
use vstd::prelude::*;

verus! {

/// Seconds of the seven days that a listing covers by default.
pub const WEEK: i64 = 604_800;

/// The range of a listing: from the start, or now, to the end, or seven days
/// after the start. The start is looked at first.
pub open spec fn window(
    start: Option<Seq<char>>,
    end: Option<Seq<char>>,
    now: int,
) -> Result<(int, int), Seq<char>> {
    let from = match start {
        Some(s) => match parsed(s) {
            Some((secs, _)) => Ok(secs),
            None => Err(iso_error(s)),
        },
        None => Ok(now),
    };
    match from {
        Err(e) => Err(e),
        Ok(from) => match end {
            Some(s) => match parsed(s) {
                Some((secs, _)) => Ok((from, secs)),
                None => Err(iso_error(s)),
            },
            None => Ok((from, from + WEEK)),
        },
    }
}

/// The range of a listing, in seconds.
pub fn list_window(start: Option<&str>, end: Option<&str>, now: i64) -> (r: Result<
    (i64, i64),
    String,
>)
    requires
        now <= i64::MAX - WEEK,
    ensures
        match (r, window(opt_str(start), opt_str(end), now as int)) {
            (Ok((a, b)), Ok((c, d))) => a == c && b == d,
            (Err(e), Err(f)) => e@ == f,
            _ => false,
        },
{
    let from: i64 = match start {
        Some(s) => match parse_iso(s) {
            Ok((secs, _)) => secs,
            Err(e) => {
                return Err(e);
            },
        },
        None => now,
    };
    match end {
        Some(s) => match parse_iso(s) {
            Ok((secs, _)) => Ok((from, secs)),
            Err(e) => Err(e),
        },
        None => Ok((from, from + WEEK)),
    }
}

/// The query for the events that occur in a range.
pub open spec fn range_query(start: int, end: int) -> Seq<char> {
    "(occur-in-time-range? (make-time \""@ + time_stamp(start) + "\") (make-time \""@ + time_stamp(
        end,
    ) + "\"))"@
}

/// The query for the events that occur in a range.
pub fn time_range_query(start: i64, end: i64) -> (r: String)
    ensures
        r@ == range_query(start as int, end as int),
{
    let mut out = "(occur-in-time-range? (make-time \"".to_owned();
    out.append(epoch_to_make_time(start).as_str());
    out.append("\") (make-time \"");
    out.append(epoch_to_make_time(end).as_str());
    out.append("\"))");
    out
}

/// Whether a calendar is asked for: all are, unless a part of the name is given;
/// letter case does not matter.
pub open spec fn is_wanted(name: Seq<char>, filter: Option<Seq<char>>) -> bool {
    match filter {
        Some(f) => contains(lowercased(name), lowercased(f)),
        None => true,
    }
}

/// The calendars that are asked for.
pub open spec fn wanted(sources: Seq<SourceData>, filter: Option<Seq<char>>) -> Seq<SourceData>
    decreases sources.len(),
{
    if sources.len() == 0 {
        seq![]
    } else if is_wanted(sources.last().name, filter) {
        wanted(sources.drop_last(), filter).push(sources.last())
    } else {
        wanted(sources.drop_last(), filter)
    }
}

fn wants(name: &str, filter: Option<&str>) -> (r: bool)
    ensures
        r == is_wanted(name@, opt_str(filter)),
{
    match filter {
        Some(f) => contains_str(lowercase(name).as_str(), lowercase(f).as_str()),
        None => true,
    }
}

/// The calendars that a listing asks for.
pub fn wanted_sources(sources: &Vec<CalSource>, filter: Option<&str>) -> (r: Vec<CalSource>)
    ensures
        source_views(r@) == wanted(source_views(sources@), opt_str(filter)),
{
    let mut out: Vec<CalSource> = Vec::new();
    let ghost all = source_views(sources@);
    let mut i: usize = 0;
    proof {
        assert(all.take(0) =~= Seq::<SourceData>::empty());
        assert(source_views(out@) =~= wanted(all.take(0), opt_str(filter)));
    }
    while i < sources.len()
        invariant
            i <= sources@.len(),
            all == source_views(sources@),
            source_views(out@) == wanted(all.take(i as int), opt_str(filter)),
        decreases sources@.len() - i,
    {
        let ghost before = source_views(out@);
        proof {
            assert(all.take(i + 1).drop_last() =~= all.take(i as int));
            assert(all.take(i + 1).last() == sources@[i as int]@);
        }
        if wants(sources[i].name.as_str(), filter) {
            out.push(copy_source(&sources[i]));
            assert(source_views(out@) =~= before.push(sources@[i as int]@));
        }
        i = i + 1;
    }
    assert(all.take(i as int) =~= all);
    out
}

/// What a calendar answered to a listing: iCalendar texts, or an error.
pub struct SourceReply {
    pub source: CalSource,
    pub result: Result<Vec<String>, String>,
}

pub struct ReplyData {
    pub source: SourceData,
    pub result: Result<Seq<Seq<char>>, Seq<char>>,
}

impl View for SourceReply {
    type V = ReplyData;

    open spec fn view(&self) -> ReplyData {
        ReplyData {
            source: self.source@,
            result: match self.result {
                Ok(blobs) => Ok(views(blobs@)),
                Err(e) => Err(e@),
            },
        }
    }
}

pub open spec fn reply_views(v: Seq<SourceReply>) -> Seq<ReplyData> {
    Seq::new(v.len(), |i: int| v[i]@)
}

/// The events with the name of their calendar filled in.
pub open spec fn in_calendar(events: Seq<EventFields>, name: Seq<char>) -> Seq<EventFields> {
    Seq::new(events.len(), |i: int| EventFields { calendar: name, ..events[i] })
}

/// The events of the texts of one calendar, in order.
pub open spec fn events_in(blobs: Seq<Seq<char>>, name: Seq<char>) -> Seq<EventFields>
    decreases blobs.len(),
{
    if blobs.len() == 0 {
        seq![]
    } else {
        events_in(blobs.drop_last(), name) + in_calendar(events_of(blobs.last()), name)
    }
}

/// The events that the calendars answered with, in order.
pub open spec fn found_events(replies: Seq<ReplyData>) -> Seq<EventFields>
    decreases replies.len(),
{
    if replies.len() == 0 {
        seq![]
    } else {
        let r = replies.last();
        let before = found_events(replies.drop_last());
        match r.result {
            Ok(blobs) => before + events_in(blobs, r.source.name),
            Err(_) => before,
        }
    }
}

/// What is noted of a calendar that could not be read.
pub open spec fn note(source: SourceData, err: Seq<char>) -> Seq<char> {
    "- "@ + source.name + " ("@ + source.uid + "): "@ + err
}

/// The notes on the calendars that could not be read, in order.
pub open spec fn found_notes(replies: Seq<ReplyData>) -> Seq<Seq<char>>
    decreases replies.len(),
{
    if replies.len() == 0 {
        seq![]
    } else {
        let r = replies.last();
        let before = found_notes(replies.drop_last());
        match r.result {
            Ok(_) => before,
            Err(e) => before.push(note(r.source, e)),
        }
    }
}

/// The keys by which events are sorted.
pub open spec fn sort_keys(events: Seq<EventFields>) -> Seq<Seq<char>> {
    Seq::new(events.len(), |i: int| events[i].sort_key)
}

/// The events by time. Events of one time stay in their order.
pub open spec fn by_time(events: Seq<EventFields>) -> Seq<EventFields> {
    let order = stable_order_of(sort_keys(events));
    Seq::new(order.len(), |i: int| events[order[i] as int])
}

/// The title of an event for display.
pub open spec fn title(summary: Seq<char>) -> Seq<char> {
    if summary.len() == 0 {
        "(no title)"@
    } else {
        summary
    }
}

/// The line that says when an event is.
pub open spec fn when_line(ev: EventFields) -> Seq<char> {
    match (ev.start_raw, ev.end_raw) {
        (Some(start), Some(end)) => "    "@ + shown_time(start, ev.all_day) + " – "@ + shown_time(
            end,
            ev.all_day,
        ) + "\n"@,
        (Some(start), None) => "    "@ + shown_time(start, ev.all_day) + "\n"@,
        _ => seq![],
    }
}

/// The line that says where an event is.
pub open spec fn where_line(ev: EventFields) -> Seq<char> {
    match ev.location {
        Some(l) => if l.len() > 0 {
            "    Location: "@ + l + "\n"@
        } else {
            seq![]
        },
        None => seq![],
    }
}

/// The line that gives the uid of an event.
pub open spec fn uid_line(ev: EventFields) -> Seq<char> {
    match ev.uid {
        Some(u) => "    uid: "@ + u + "\n"@,
        None => seq![],
    }
}

/// An event as the model is shown it.
pub open spec fn rendered(ev: EventFields) -> Seq<char> {
    "• "@ + title(ev.summary) + "  ["@ + ev.calendar + "]\n"@ + when_line(ev) + where_line(ev)
        + uid_line(ev)
}

/// Events one after another.
pub open spec fn rendered_all(events: Seq<EventFields>) -> Seq<char>
    decreases events.len(),
{
    if events.len() == 0 {
        seq![]
    } else {
        rendered_all(events.drop_last()) + rendered(events.last())
    }
}

/// The text of a listing before it is cut to size.
pub open spec fn listing(replies: Seq<ReplyData>, start: int, end: int) -> Seq<char> {
    let events = by_time(found_events(replies));
    let notes = found_notes(replies);
    let body = if events.len() == 0 {
        "No events found between "@ + shown_time(time_stamp(start), false) + " and "@ + shown_time(
            time_stamp(end),
            false,
        ) + "."@
    } else {
        rendered_all(events)
    };
    if notes.len() == 0 {
        body
    } else {
        body + "\nNotes (calendars that could not be read):\n"@ + join(notes, "\n"@)
    }
}

// ---------------------------------------------------------------------------
// Writing the listing
// ---------------------------------------------------------------------------

fn push_when(out: &mut String, ev: &Event)
    ensures
        final(out)@ == old(out)@ + when_line(ev@),
{
    match (&ev.start_raw, &ev.end_raw) {
        (Some(start), Some(end)) => {
            out.append("    ");
            out.append(format_dt(start.as_str(), ev.all_day).as_str());
            out.append(" – ");
            out.append(format_dt(end.as_str(), ev.all_day).as_str());
            out.append("\n");
        },
        (Some(start), None) => {
            out.append("    ");
            out.append(format_dt(start.as_str(), ev.all_day).as_str());
            out.append("\n");
        },
        _ => {},
    }
    assert(out@ =~= old(out)@ + when_line(ev@));
}

/// An event as the model is shown it.
pub fn render_event(ev: &Event) -> (r: String)
    ensures
        r@ == rendered(ev@),
{
    let mut s = "• ".to_owned();
    if chars_of(ev.summary.as_str()).len() == 0 {
        s.append("(no title)");
    } else {
        s.append(ev.summary.as_str());
    }
    s.append("  [");
    s.append(ev.calendar.as_str());
    s.append("]\n");
    let ghost head = s@;
    push_when(&mut s, ev);
    match &ev.location {
        Some(l) => {
            if chars_of(l.as_str()).len() > 0 {
                s.append("    Location: ");
                s.append(l.as_str());
                s.append("\n");
            }
        },
        None => {},
    }
    assert(s@ =~= head + when_line(ev@) + where_line(ev@));
    match &ev.uid {
        Some(u) => {
            s.append("    uid: ");
            s.append(u.as_str());
            s.append("\n");
        },
        None => {},
    }
    assert(s@ =~= head + when_line(ev@) + where_line(ev@) + uid_line(ev@));
    s
}

fn push_events(events: &mut Vec<Event>, blob: &str, name: &str)
    ensures
        event_fields(final(events)@) == event_fields(old(events)@) + in_calendar(
            events_of(blob@),
            name@,
        ),
{
    let mut found = parse_events(blob);
    let ghost parsed = event_fields(found@);
    let mut i: usize = 0;
    while i < found.len()
        invariant
            i <= found@.len(),
            parsed == events_of(blob@),
            parsed.len() == found@.len(),
            forall|j: int|
                0 <= j < i ==> (#[trigger] found@[j])@ == (EventFields {
                    calendar: name@,
                    ..parsed[j]
                }),
            forall|j: int| i <= j < found@.len() ==> (#[trigger] found@[j])@ == parsed[j],
        decreases found@.len() - i,
    {
        assert(found@[i as int]@ == parsed[i as int]);
        found[i].calendar = name.to_owned();
        i = i + 1;
    }
    events.append(&mut found);
    assert(event_fields(events@) =~= event_fields(old(events)@) + in_calendar(
        events_of(blob@),
        name@,
    ));
}

fn push_blobs(events: &mut Vec<Event>, blobs: &Vec<String>, name: &str)
    ensures
        event_fields(final(events)@) == event_fields(old(events)@) + events_in(
            views(blobs@),
            name@,
        ),
{
    let ghost all = views(blobs@);
    let ghost before = event_fields(events@);
    let mut i: usize = 0;
    proof {
        assert(all.take(0) =~= Seq::<Seq<char>>::empty());
        assert(before + events_in(all.take(0), name@) =~= before);
    }
    while i < blobs.len()
        invariant
            i <= blobs@.len(),
            all == views(blobs@),
            event_fields(events@) == before + events_in(all.take(i as int), name@),
        decreases blobs@.len() - i,
    {
        push_events(events, blobs[i].as_str(), name);
        proof {
            assert(all.take(i + 1).drop_last() =~= all.take(i as int));
            assert(all.take(i + 1).last() == blobs@[i as int]@);
            assert(before + events_in(all.take(i as int), name@) + in_calendar(
                events_of(all[i as int]),
                name@,
            ) =~= before + events_in(all.take(i + 1), name@));
        }
        i = i + 1;
    }
    assert(all.take(i as int) =~= all);
}

fn note_of(source: &CalSource, err: &str) -> (r: String)
    ensures
        r@ == note(source@, err@),
{
    let mut out = "- ".to_owned();
    out.append(source.name.as_str());
    out.append(" (");
    out.append(source.uid.as_str());
    out.append("): ");
    out.append(err);
    out
}

/// The events and the notes that the answers of the calendars amount to.
fn collect(replies: &Vec<SourceReply>) -> (r: (Vec<Event>, Vec<String>))
    ensures
        event_fields(r.0@) == found_events(reply_views(replies@)),
        views(r.1@) == found_notes(reply_views(replies@)),
{
    let mut events: Vec<Event> = Vec::new();
    let mut notes: Vec<String> = Vec::new();
    let ghost all = reply_views(replies@);
    let mut i: usize = 0;
    proof {
        assert(all.take(0) =~= Seq::<ReplyData>::empty());
        assert(event_fields(events@) =~= found_events(all.take(0)));
        assert(views(notes@) =~= found_notes(all.take(0)));
    }
    while i < replies.len()
        invariant
            i <= replies@.len(),
            all == reply_views(replies@),
            event_fields(events@) == found_events(all.take(i as int)),
            views(notes@) == found_notes(all.take(i as int)),
        decreases replies@.len() - i,
    {
        let ghost before = views(notes@);
        proof {
            assert(all.take(i + 1).drop_last() =~= all.take(i as int));
            assert(all.take(i + 1).last() == replies@[i as int]@);
        }
        let reply = &replies[i];
        match &reply.result {
            Ok(blobs) => {
                push_blobs(&mut events, blobs, reply.source.name.as_str());
            },
            Err(e) => {
                notes.push(note_of(&reply.source, e.as_str()));
                assert(views(notes@) =~= before.push(note(reply.source@, e@)));
            },
        }
        i = i + 1;
    }
    assert(all.take(i as int) =~= all);
    (events, notes)
}

/// The events one after another, by time.
fn render_by_time(events: &Vec<Event>) -> (r: String)
    ensures
        r@ == rendered_all(by_time(event_fields(events@))),
{
    let ghost all = event_fields(events@);
    let mut keys: Vec<Vec<char>> = Vec::new();
    let mut i: usize = 0;
    while i < events.len()
        invariant
            i <= events@.len(),
            keys@.len() == i,
            forall|j: int| 0 <= j < i ==> (#[trigger] keys@[j])@ == events@[j].sort_key@,
        decreases events@.len() - i,
    {
        keys.push(chars_of(events[i].sort_key.as_str()));
        i = i + 1;
    }
    assert(key_views(keys@) =~= sort_keys(all));
    let order = stable_order(&keys);
    let mut out = String::new();
    let ghost sorted = by_time(all);
    let mut k: usize = 0;
    proof {
        assert(sorted.take(0) =~= Seq::<EventFields>::empty());
    }
    while k < order.len()
        invariant
            k <= order@.len(),
            is_stable_order(order@, sort_keys(all)),
            all == event_fields(events@),
            sorted == by_time(all),
            order@ == stable_order_of(sort_keys(all)),
            out@ == rendered_all(sorted.take(k as int)),
        decreases order@.len() - k,
    {
        let at: usize = order[k];
        proof {
            assert(order@[k as int] < sort_keys(all).len());
            assert(sorted.take(k + 1).drop_last() =~= sorted.take(k as int));
            assert(sorted.take(k + 1).last() == events@[at as int]@);
        }
        out.append(render_event(&events[at]).as_str());
        k = k + 1;
    }
    assert(sorted.take(k as int) =~= sorted);
    out
}

/// A listing cut to a number of bytes.
pub open spec fn cut_listing(
    replies: Seq<ReplyData>,
    start: int,
    end: int,
    limit: nat,
) -> Seq<char> {
    truncated(listing(replies, start, end), limit)
}

/// The text of a listing from the answers of the calendars, cut to at most
/// `limit` bytes.
pub fn list_events(replies: &Vec<SourceReply>, start: i64, end: i64, limit: usize) -> (r: String)
    ensures
        r@ == truncated(listing(reply_views(replies@), start as int, end as int), limit as nat),
        r@ == cut_listing(reply_views(replies@), start as int, end as int, limit as nat),
{
    let (events, notes) = collect(replies);
    let mut out = render_by_time(&events);
    proof {
        assert(events.len() == events@.len());
        lemma_stable_order_exists(sort_keys(event_fields(events@)));
    }
    if events.len() == 0 {
        out = "No events found between ".to_owned();
        out.append(format_dt(epoch_to_make_time(start).as_str(), false).as_str());
        out.append(" and ");
        out.append(format_dt(epoch_to_make_time(end).as_str(), false).as_str());
        out.append(".");
    }
    if notes.len() > 0 {
        out.append("\nNotes (calendars that could not be read):\n");
        out.append(join_strings(&notes, "\n").as_str());
    }
    assert(views(notes@).len() == notes@.len());
    truncate(&mut out, limit);
    out
}

// ---------------------------------------------------------------------------
// Laws
// ---------------------------------------------------------------------------

/// A listing shows every event that was found, as often as it was found, and no
/// other, in the order of their keys.
pub proof fn law_listing_is_by_time(events: Seq<EventFields>)
    requires
        events.len() <= usize::MAX,
    ensures
        by_time(events).len() == events.len(),
        forall|i: int, j: int|
            0 <= i < j < events.len() ==> !less(
                (#[trigger] by_time(events)[j]).sort_key,
                (#[trigger] by_time(events)[i]).sort_key,
            ),
        by_time(events).to_multiset() == events.to_multiset(),
{
    let keys = sort_keys(events);
    let order = stable_order_of(keys);
    lemma_stable_order_exists(keys);
    let out = by_time(events);
    assert forall|i: int, j: int| 0 <= i < j < events.len() implies !less(
        (#[trigger] out[j]).sort_key,
        (#[trigger] out[i]).sort_key,
    ) by {
        let a = order[i] as int;
        let b = order[j] as int;
        assert(before(keys, a, b));
        lemma_before(keys, a, b, a);
        if less(keys[b], keys[a]) {
            assert(before(keys, b, a));
        }
    }
    lemma_no_position_twice(order, keys);
    lemma_rearranged(order, events);
}

/// A calendar that cannot be read hides no event of the others, and is noted.
pub proof fn law_unreadable_calendars_are_noted(
    replies: Seq<ReplyData>,
    source: SourceData,
    err: Seq<char>,
)
    ensures
        found_events(replies.push(ReplyData { source: source, result: Err(err) }))
            == found_events(replies),
        found_notes(replies.push(ReplyData { source: source, result: Err(err) })) == found_notes(
            replies,
        ).push(note(source, err)),
{
    let more = replies.push(ReplyData { source: source, result: Err(err) });
    assert(more.drop_last() =~= replies);
}

} // verus!
