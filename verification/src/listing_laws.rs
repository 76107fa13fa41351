//! What a listing of events shows.

use crate::ascii::{all_digits, digits, is_digit};
use crate::calendar::SourceData;
use crate::datetime::{parsed, time_stamp};
use crate::ical::{dashed_date, events_of, shown_time, EventFields};
use crate::ical_order::{lemma_all_kept, lemma_digits_of_stamp};
use crate::listing::{
    by_time, cut_listing, events_in, found_events, found_notes, in_calendar, listing, note, range_query,
    rendered, rendered_all, sort_keys, title, uid_line, wanted, when_line, where_line, window,
    ReplyData,
};
use crate::order::{before, lemma_stable_order_exists, stable_order_of};
use crate::split::join;
use crate::reading_laws::lemma_same_filter;
use crate::text::lowercased;
use crate::text_laws::{has_part, law_first_occurrence_is_found};
use crate::tools::{byte_len, law_truncated_fits};
use vstd::prelude::*;

verus! {

// ---------------------------------------------------------------------------
// One event
// ---------------------------------------------------------------------------

/// An event of which no time is known.
pub open spec fn untimed(ev: EventFields) -> EventFields {
    EventFields { start_raw: None, end_raw: None, ..ev }
}

/// An event of which no place is known.
pub open spec fn unplaced(ev: EventFields) -> EventFields {
    EventFields { location: None, ..ev }
}

/// An event of which no uid is known.
pub open spec fn unnamed(ev: EventFields) -> EventFields {
    EventFields { uid: None, ..ev }
}

/// An event of which only the summary and the calendar are known is listed in one
/// line that has both.
pub proof fn law_title_and_calendar_are_listed(ev: EventFields)
    ensures
        rendered(untimed(unplaced(unnamed(ev)))) == "• "@ + (if ev.summary.len() == 0 {
            "(no title)"@
        } else {
            ev.summary
        }) + "  ["@ + ev.calendar + "]"@ + seq!['\n'],
{
    reveal_strlit("]\n");
    reveal_strlit("]");
    let e = untimed(unplaced(unnamed(ev)));
    let none = Seq::<char>::empty();
    let head = "• "@ + title(ev.summary) + "  ["@ + ev.calendar;
    assert("]\n"@ =~= "]"@ + seq!['\n']);
    assert(head + "]\n"@ + none + none + none =~= head + "]"@ + seq!['\n']);
}

/// An event is listed with its times: with both where it has a start and an end,
/// with its start where it has no end, and with none where it has no start. The line
/// stands right behind the title, for all-day events as for others.
pub proof fn law_times_are_listed(ev: EventFields)
    ensures
        ({
            let head = rendered(untimed(unplaced(unnamed(ev))));
            let whole = rendered(untimed(ev));
            let tail = whole.skip(head.len() as int);
            &&& whole == head + tail
            &&& ev.start_raw is Some && ev.end_raw is Some ==> rendered(ev) == head
                + "    "@ + shown_time(ev.start_raw->0, ev.all_day) + " – "@ + shown_time(
                ev.end_raw->0,
                ev.all_day,
            ) + seq!['\n'] + tail
            &&& (ev.start_raw is Some && ev.end_raw is None) ==> rendered(ev) == head + "    "@
                + shown_time(ev.start_raw->0, ev.all_day) + seq!['\n'] + tail
            &&& ev.start_raw is None ==> rendered(ev) == whole
        }),
{
    reveal_strlit("\n");
    assert("\n"@ =~= seq!['\n']);
    let none = Seq::<char>::empty();
    let base = "• "@ + title(ev.summary) + "  ["@ + ev.calendar + "]\n"@;
    let head = rendered(untimed(unplaced(unnamed(ev))));
    let whole = rendered(untimed(ev));
    let rest = where_line(ev) + uid_line(ev);
    assert(head =~= base);
    assert(whole =~= base + rest);
    assert(whole.skip(head.len() as int) =~= rest);
    assert(rendered(ev) =~= base + when_line(ev) + rest);
    match (ev.start_raw, ev.end_raw) {
        (Some(s), Some(e)) => {
            assert(base + when_line(ev) + rest =~= head + "    "@ + shown_time(s, ev.all_day)
                + " – "@ + shown_time(e, ev.all_day) + seq!['\n'] + rest);
        },
        (Some(s), None) => {
            assert(base + when_line(ev) + rest =~= head + "    "@ + shown_time(s, ev.all_day)
                + seq!['\n'] + rest);
        },
        _ => {
            assert(base + none + rest =~= base + rest);
        },
    }
}

/// An event is listed with its place, behind its times, where it has one.
pub proof fn law_places_are_listed(ev: EventFields)
    ensures
        ({
            let head = rendered(unplaced(unnamed(ev)));
            let whole = rendered(unplaced(ev));
            let tail = whole.skip(head.len() as int);
            &&& whole == head + tail
            &&& (ev.location is Some && (ev.location->0).len() > 0) ==> rendered(ev) == head
                + "    Location: "@ + ev.location->0 + seq!['\n'] + tail
            &&& (ev.location is None || (ev.location->0).len() == 0) ==> rendered(ev) == whole
        }),
{
    reveal_strlit("\n");
    assert("\n"@ =~= seq!['\n']);
    let none = Seq::<char>::empty();
    let base = "• "@ + title(ev.summary) + "  ["@ + ev.calendar + "]\n"@ + when_line(ev);
    let head = rendered(unplaced(unnamed(ev)));
    let whole = rendered(unplaced(ev));
    assert(head =~= base);
    assert(whole =~= base + uid_line(ev));
    assert(whole.skip(head.len() as int) =~= uid_line(ev));
    assert(rendered(ev) =~= base + where_line(ev) + uid_line(ev));
    if ev.location is Some && (ev.location->0).len() > 0 {
        let l = ev.location->0;
        assert(base + where_line(ev) + uid_line(ev) =~= head + "    Location: "@ + l + seq!['\n']
            + uid_line(ev));
    } else {
        assert(base + none + uid_line(ev) =~= whole);
    }
}

/// An event is listed with its uid, at the end, so that it can be asked for by it.
pub proof fn law_uids_are_listed(ev: EventFields)
    ensures
        ev.uid is Some ==> rendered(ev) == rendered(unnamed(ev)) + "    uid: "@ + ev.uid->0 + seq![
            '\n',
        ],
{
    reveal_strlit("\n");
    assert("\n"@ =~= seq!['\n']);
    if ev.uid is Some {
        let u = ev.uid->0;
        assert(rendered(ev) =~= rendered(unnamed(ev)) + "    uid: "@ + u + seq!['\n']);
    }
}

/// A date is shown as such, and a time by hour and minute behind its date, with a
/// mark where it is in UTC. Of an all-day event only the date is shown.
pub proof fn law_times_are_shown(date: Seq<char>, time: Seq<char>, all_day: bool)
    requires
        date.len() == 8,
        time.len() == 6,
        forall|i: int| 0 <= i < 8 ==> '0' <= #[trigger] date[i] <= '9',
        forall|i: int| 0 <= i < 6 ==> '0' <= #[trigger] time[i] <= '9',
    ensures
        ({
            let day = date.subrange(0, 4) + seq!['-'] + date.subrange(4, 6) + seq!['-']
                + date.subrange(6, 8);
            let clock = time.subrange(0, 2) + seq![':'] + time.subrange(2, 4);
            &&& shown_time(date, all_day) == day
            &&& shown_time(date + seq!['T'] + time, all_day) == if all_day {
                day
            } else {
                day + seq![' '] + clock
            }
            &&& shown_time(date + seq!['T'] + time + seq!['Z'], all_day) == if all_day {
                day
            } else {
                day + seq![' '] + clock + " UTC"@
            }
        }),
{
    assert(all_digits(date));
    assert(all_digits(time));
    lemma_all_kept(date);
    lemma_digits_of_stamp(date, time);
    let both = date + time;
    let local = date + seq!['T'] + time;
    let utc = local + seq!['Z'];
    assert(!date.contains('T')) by {
        assert forall|i: int| 0 <= i < date.len() implies date[i] != 'T' by {
            assert('0' <= date[i] <= '9');
        }
    }
    assert(local[8] == 'T');
    assert(utc[8] == 'T');
    assert(local.contains('T'));
    assert(utc.contains('T'));
    assert(local.last() == time[5]);
    assert('0' <= time[5] <= '9');
    assert(utc.last() == 'Z');
    assert(dashed_date(both) =~= dashed_date(date)) by {
        assert(both.subrange(0, 4) =~= date.subrange(0, 4));
        assert(both.subrange(4, 6) =~= date.subrange(4, 6));
        assert(both.subrange(6, 8) =~= date.subrange(6, 8));
    }
    assert(both.subrange(8, 10) =~= time.subrange(0, 2));
    assert(both.subrange(10, 12) =~= time.subrange(2, 4));
    let day = dashed_date(date);
    let clock = time.subrange(0, 2) + seq![':'] + time.subrange(2, 4);
    assert(day + seq![' '] + time.subrange(0, 2) + seq![':'] + time.subrange(2, 4) =~= day + seq![
        ' ',
    ] + clock);
}

/// A time of any other form is shown by its digits: by the first eight of an all-day event,
/// or by the first twelve of another one, where it has as many. One with fewer is shown as
/// it is.
pub proof fn law_times_are_shown_by_their_digits(raw: Seq<char>)
    ensures
        ({
            let d = raw.filter(|c: char| '0' <= c <= '9');
            let day = d.take(4) + seq!['-'] + d.subrange(4, 6) + seq!['-'] + d.subrange(6, 8);
            let clock = seq![' '] + d.subrange(8, 10) + seq![':'] + d.subrange(10, 12);
            let utc = raw.len() > 0 && raw[raw.len() - 1] == 'Z';
            &&& d.len() >= 8 ==> shown_time(raw, true) == day
            &&& d.len() < 8 ==> shown_time(raw, true) == raw && shown_time(raw, false) == raw
            &&& (d.len() == 8 && !raw.contains('T')) ==> shown_time(raw, false) == day
            &&& (8 <= d.len() < 12 && (d.len() > 8 || raw.contains('T'))) ==> shown_time(raw, false)
                == raw
            &&& (d.len() >= 12 && utc) ==> shown_time(raw, false) == day + clock + " UTC"@
            &&& (d.len() >= 12 && !utc) ==> shown_time(raw, false) == day + clock
        }),
{
    lemma_same_filter(raw);
    let d = digits(raw);
    if d.len() >= 8 {
        assert(d.take(4) =~= d.subrange(0, 4));
    }
    if d.len() >= 12 {
        let clock = seq![' '] + d.subrange(8, 10) + seq![':'] + d.subrange(10, 12);
        assert(dashed_date(d) + seq![' '] + d.subrange(8, 10) + seq![':'] + d.subrange(10, 12)
            =~= dashed_date(d) + clock);
    }
}

/// What does not hold a whole date is shown as it is.
pub proof fn law_odd_times_are_shown_as_they_are(raw: Seq<char>, all_day: bool)
    requires
        forall|i: int| 0 <= i < raw.len() ==> !('0' <= #[trigger] raw[i] <= '9'),
    ensures
        shown_time(raw, all_day) == raw,
{
    let keep = |c: char| is_digit(c);
    assert(digits(raw).len() == 0) by {
        if digits(raw).len() > 0 {
            raw.lemma_filter_pred(keep, 0);
            raw.lemma_filter_contains_rev(keep, digits(raw)[0]);
            let i = choose|i: int| 0 <= i < raw.len() && raw[i] == digits(raw)[0];
            assert(!('0' <= raw[i] <= '9'));
        }
    }
}

// ---------------------------------------------------------------------------
// All events
// ---------------------------------------------------------------------------

/// The events of each calendar follow those of the calendars before it, and the
/// notes likewise.
pub proof fn law_calendars_are_read_one_by_one(a: Seq<ReplyData>, b: Seq<ReplyData>)
    ensures
        found_events(a + b) == found_events(a) + found_events(b),
        found_notes(a + b) == found_notes(a) + found_notes(b),
    decreases b.len(),
{
    if b.len() == 0 {
        assert(a + b =~= a);
        assert(found_events(a) + found_events(b) =~= found_events(a));
        assert(found_notes(a) + found_notes(b) =~= found_notes(a));
    } else {
        law_calendars_are_read_one_by_one(a, b.drop_last());
        assert((a + b).drop_last() =~= a + b.drop_last());
        assert((a + b).last() == b.last());
        assert(found_events(a + b) =~= found_events(a) + found_events(b));
        assert(found_notes(a + b) =~= found_notes(a) + found_notes(b));
    }
}

/// A calendar that can be read gives all events of all its texts, in order, each
/// with the name of the calendar and otherwise as it was read, and no note. One that
/// cannot be read gives no event, and a note of its name, its uid and the error.
pub proof fn law_every_event_is_found(
    source: SourceData,
    texts: Seq<Seq<char>>,
    text: Seq<char>,
    err: Seq<char>,
)
    ensures
        ({
            let all = found_events(seq![ReplyData { source: source, result: Ok(texts.push(text)) }]);
            let some = found_events(seq![ReplyData { source: source, result: Ok(texts) }]);
            let new = events_of(text);
            &&& all.len() == some.len() + new.len()
            &&& forall|i: int| 0 <= i < some.len() ==> #[trigger] all[i] == some[i]
            &&& forall|i: int|
                0 <= i < new.len() ==> #[trigger] all[some.len() + i] == (EventFields {
                    calendar: source.name,
                    ..new[i]
                })
            &&& found_notes(seq![ReplyData { source: source, result: Ok(texts) }]).len() == 0
        }),
        found_events(seq![ReplyData { source: source, result: Ok(seq![]) }]).len() == 0,
        found_events(seq![ReplyData { source: source, result: Err(err) }]).len() == 0,
        found_notes(seq![ReplyData { source: source, result: Err(err) }]) == seq![
            "- "@ + source.name + " ("@ + source.uid + "): "@ + err,
        ],
{
    let one = seq![ReplyData { source: source, result: Ok(texts.push(text)) }];
    let two = seq![ReplyData { source: source, result: Ok(texts) }];
    let three = seq![
        ReplyData { source: source, result: Ok::<Seq<Seq<char>>, Seq<char>>(seq![]) },
    ];
    let four = seq![ReplyData { source: source, result: Err::<Seq<Seq<char>>, Seq<char>>(err) }];
    let none = Seq::<ReplyData>::empty();
    assert(one.drop_last() =~= none);
    assert(two.drop_last() =~= none);
    assert(three.drop_last() =~= none);
    assert(four.drop_last() =~= none);
    reveal_with_fuel(found_events, 2);
    reveal_with_fuel(found_notes, 2);
    assert(texts.push(text).drop_last() =~= texts);
    let nothing = Seq::<EventFields>::empty();
    let some = events_in(texts, source.name);
    let new = in_calendar(events_of(text), source.name);
    assert(found_events(two) =~= some);
    assert(found_events(one) =~= some + new);
    assert(found_notes(four) =~= seq![note(source, err)]);
}

/// What is listed of events one after another is what is listed of each.
pub proof fn law_entries_follow_one_another(a: Seq<EventFields>, b: Seq<EventFields>)
    ensures
        rendered_all(a + b) == rendered_all(a) + rendered_all(b),
        a.len() == 1 ==> rendered_all(a) == rendered(a[0]),
        a.len() == 0 ==> rendered_all(a) == Seq::<char>::empty(),
    decreases b.len(),
{
    if a.len() == 1 {
        assert(a.drop_last() =~= Seq::<EventFields>::empty());
        reveal_with_fuel(rendered_all, 2);
        assert(rendered_all(a) =~= rendered(a[0]));
    }
    if b.len() == 0 {
        assert(a + b =~= a);
        assert(rendered_all(a) + rendered_all(b) =~= rendered_all(a));
    } else {
        law_entries_follow_one_another(a, b.drop_last());
        assert((a + b).drop_last() =~= a + b.drop_last());
        assert((a + b).last() == b.last());
        assert(rendered_all(a + b) =~= rendered_all(a) + rendered_all(b));
    }
}

/// A listing is the entries of all events that were found, by time. Where none was
/// found it says so, with the range of time, which is shown as times are.
pub proof fn law_listing_is_its_entries(replies: Seq<ReplyData>, start: int, end: int)
    requires
        forall|i: int| 0 <= i < replies.len() ==> (#[trigger] replies[i]).result is Ok,
        found_events(replies).len() <= usize::MAX,
    ensures
        found_events(replies).len() > 0 ==> listing(replies, start, end) == rendered_all(
            by_time(found_events(replies)),
        ),
        found_events(replies).len() == 0 ==> listing(replies, start, end)
            == "No events found between "@ + shown_time(time_stamp(start), false) + " and "@
            + shown_time(time_stamp(end), false) + "."@,
{
    lemma_no_notes(replies);
    lemma_stable_order_exists(sort_keys(found_events(replies)));
}

proof fn lemma_no_notes(replies: Seq<ReplyData>)
    requires
        forall|i: int| 0 <= i < replies.len() ==> (#[trigger] replies[i]).result is Ok,
    ensures
        found_notes(replies).len() == 0,
    decreases replies.len(),
{
    if replies.len() > 0 {
        let rest = replies.drop_last();
        assert forall|i: int| 0 <= i < rest.len() implies (#[trigger] rest[i]).result is Ok by {
            assert(rest[i] == replies[i]);
        }
        lemma_no_notes(rest);
        assert(replies[replies.len() - 1].result is Ok);
    }
}

/// A calendar that cannot be read adds a note behind the listing, and leaves the
/// listing as it is.
pub proof fn law_notes_follow_the_listing(
    replies: Seq<ReplyData>,
    source: SourceData,
    err: Seq<char>,
    start: int,
    end: int,
)
    ensures
        ({
            let more = replies.push(ReplyData { source: source, result: Err(err) });
            listing(more, start, end) == listing(replies, start, end) + (if found_notes(
                replies,
            ).len() == 0 {
                "\nNotes (calendars that could not be read):\n"@
            } else {
                seq!['\n']
            }) + ("- "@ + source.name + " ("@ + source.uid + "): "@ + err)
        }),
{
    reveal_strlit("\n");
    assert("\n"@ =~= seq!['\n']);
    let more = replies.push(ReplyData { source: source, result: Err(err) });
    assert(more.drop_last() =~= replies);
    let notes = found_notes(replies);
    let n = note(source, err);
    assert(found_notes(more) == notes.push(n));
    assert(notes.push(n).drop_last() =~= notes);
    assert(listing(more, start, end) =~= listing(replies, start, end) + (if notes.len() == 0 {
        "\nNotes (calendars that could not be read):\n"@
    } else {
        seq!['\n']
    }) + n);
}

/// A listing is the same for the same events and the same notes, whichever calendars they
/// came from, and in whatever order calendars that can be read and others were asked.
pub proof fn law_listing_is_by_events_and_notes(
    a: Seq<ReplyData>,
    b: Seq<ReplyData>,
    start: int,
    end: int,
)
    requires
        found_events(a) == found_events(b),
        found_notes(a) == found_notes(b),
    ensures
        listing(a, start, end) == listing(b, start, end),
{
}

/// Of events with the same key, the one that was found first is listed first.
pub proof fn law_ties_keep_their_order(events: Seq<EventFields>, i: int, j: int)
    requires
        events.len() <= usize::MAX,
        0 <= i < j < events.len(),
        events[i].sort_key == events[j].sort_key,
    ensures
        exists|a: int, b: int|
            0 <= a < b < by_time(events).len() && #[trigger] by_time(events)[a] == events[i]
                && #[trigger] by_time(events)[b] == events[j],
{
    let keys = sort_keys(events);
    let order = stable_order_of(keys);
    lemma_stable_order_exists(keys);
    crate::order::lemma_all_positions(order, keys, i as usize);
    crate::order::lemma_all_positions(order, keys, j as usize);
    let a = choose|a: int| 0 <= a < order.len() && order[a] == i as usize;
    let b = choose|b: int| 0 <= b < order.len() && order[b] == j as usize;
    crate::order::lemma_less_irreflexive(keys[i]);
    if b < a {
        assert(before(keys, order[b] as int, order[a] as int));
    }
    assert(by_time(events)[a] == events[i]);
    assert(by_time(events)[b] == events[j]);
}

// ---------------------------------------------------------------------------
// What is asked for
// ---------------------------------------------------------------------------

/// The range of time starts at the given start, or now, and ends at the given end, or
/// seven days after the start. A time that cannot be read is an error that names it,
/// the start before the end.
pub proof fn law_range_is_as_asked(
    start: Option<Seq<char>>,
    end: Option<Seq<char>>,
    now: int,
)
    ensures
        ({
            let bad_start = start is Some && parsed(start->0) is None;
            let bad_end = end is Some && parsed(end->0) is None;
            let r = window(start, end, now);
            &&& r is Err <==> bad_start || bad_end
            &&& bad_start ==> r == Err::<(int, int), Seq<char>>(
                "not an ISO 8601 date or time: "@ + start->0,
            )
            &&& !bad_start && bad_end ==> r == Err::<(int, int), Seq<char>>(
                "not an ISO 8601 date or time: "@ + end->0,
            )
            &&& r matches Ok((from, to)) ==> {
                &&& start is None ==> from == now
                &&& start is Some ==> from == (parsed(start->0)->0).0
                &&& end is None ==> to == from + 7 * 24 * 60 * 60
                &&& end is Some ==> to == (parsed(end->0)->0).0
            }
        }),
{
}

/// The calendars are asked for what happens from the start to the end of the range.
pub proof fn law_query_holds_the_range(start: int, end: int)
    ensures
        range_query(start, end) == "(occur-in-time-range? (make-time \""@ + time_stamp(start)
            + "\") (make-time \""@ + time_stamp(end) + "\"))"@,
{
}

/// Without a filter every calendar is read; with one those whose name has the filter
/// in it, in any case, and no others, in their order.
pub proof fn law_wanted_calendars_are_read(sources: Seq<SourceData>, filter: Seq<char>)
    ensures
        wanted(sources, None) == sources,
        wanted(sources, Some(filter)) == sources.filter(
            |s: SourceData| has_part(lowercased(s.name), lowercased(filter)),
        ),
    decreases sources.len(),
{
    reveal(Seq::filter);
    let keep = |s: SourceData| has_part(lowercased(s.name), lowercased(filter));
    if sources.len() == 0 {
        assert(wanted(sources, None) =~= sources);
        assert(wanted(sources, Some(filter)) =~= sources.filter(keep));
    } else {
        law_wanted_calendars_are_read(sources.drop_last(), filter);
        law_first_occurrence_is_found(lowercased(sources.last().name), lowercased(filter));
        assert(sources.drop_last().push(sources.last()) =~= sources);
    }
}

/// A listing that is too long is cut: it holds as many characters as fit, from the start,
/// and one that fits is left as it is.
pub proof fn law_long_listings_are_cut(
    replies: Seq<ReplyData>,
    start: int,
    end: int,
    limit: nat,
)
    ensures
        ({
            let whole = listing(replies, start, end);
            let cut = cut_listing(replies, start, end, limit);
            &&& cut.len() <= whole.len()
            &&& cut == whole.take(cut.len() as int)
            &&& byte_len(cut) <= limit
            &&& byte_len(whole) <= limit ==> cut == whole
            &&& cut.len() < whole.len() ==> byte_len(whole.take(cut.len() as int + 1)) > limit
        }),
{
    law_truncated_fits(listing(replies, start, end), limit);
}

} // verus!
