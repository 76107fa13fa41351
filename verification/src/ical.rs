//! iCalendar (RFC 5545): a minimal reader and writer of events.
//!
//! A text is unfolded into logical lines; a line `NAME;PARAM=x:VALUE` is a
//! property; the lines between `BEGIN:VEVENT` and `END:VEVENT` are an event.
//! Times are kept as they are written and never converted between zones.

use crate::ascii::{
    all_digits, digits, digits_of, eq_ignore_case, every_digit, same_ignoring_case, upper,
    uppercase, zeros,
};
use crate::datetime::{
    date_stamp, epoch_to_date, epoch_to_make_time, iso_error, now_epoch, parse_iso, parsed,
    time_stamp,
};
use crate::split::{pieces, split, split_on, strip_cr, without_cr};
use crate::text::{
    chars_of, index_of, lemma_index_of, opt_str, opt_view, position, push_chars, same, same_str,
    string_of, trim, trimmed, views,
};
use vstd::prelude::*;
use vstd::slice::slice_subrange;

verus! {

// ---------------------------------------------------------------------------
// Lines
// ---------------------------------------------------------------------------

/// Whether a line continues the one before it.
pub open spec fn is_continuation(line: Seq<char>) -> bool {
    line.len() > 0 && (line[0] == ' ' || line[0] == '\t')
}

/// The logical lines of a list of physical ones: a line that starts with a space
/// or a tab continues the line before it, without that first character.
pub open spec fn unfolded(raw: Seq<Seq<char>>) -> Seq<Seq<char>>
    decreases raw.len(),
{
    if raw.len() == 0 {
        seq![]
    } else {
        let before = unfolded(raw.drop_last());
        let line = strip_cr(raw.last());
        if is_continuation(line) && before.len() > 0 {
            before.drop_last().push(before.last() + line.skip(1))
        } else {
            before.push(line)
        }
    }
}

/// The logical lines of a text.
pub open spec fn logical_lines(ics: Seq<char>) -> Seq<Seq<char>> {
    unfolded(split(ics, '\n'))
}

/// Unfold logical lines: a line beginning with a space or tab continues the
/// previous one.
pub fn unfold(ics: &str) -> (r: Vec<String>)
    ensures
        views(r@) == logical_lines(ics@),
{
    let chars = chars_of(ics);
    let raw = split_on(chars.as_slice(), '\n');
    let mut lines: Vec<String> = Vec::new();
    let ghost all = pieces(raw@);
    let mut i: usize = 0;
    proof {
        assert(all.take(0) =~= Seq::<Seq<char>>::empty());
        assert(views(lines@) =~= unfolded(all.take(0)));
    }
    while i < raw.len()
        invariant
            i <= raw@.len(),
            all == pieces(raw@),
            views(lines@) == unfolded(all.take(i as int)),
        decreases raw@.len() - i,
    {
        let ghost before = views(lines@);
        proof {
            assert(all.take(i + 1).drop_last() =~= all.take(i as int));
            assert(all.take(i + 1).last() == raw@[i as int]@);
        }
        let line = without_cr(raw[i].as_slice());
        if line.len() > 0 && (line[0] == ' ' || line[0] == '\t') && lines.len() > 0 {
            let last = lines.pop();
            match last {
                Some(l) => {
                    let mut whole = l;
                    proof {
                        assert(before.last() == l@);
                        assert(line@.subrange(1, line@.len() as int) =~= line@.skip(1));
                    }
                    push_chars(&mut whole, slice_subrange(line, 1, line.len()));
                    lines.push(whole);
                    proof {
                        assert(views(lines@) =~= before.drop_last().push(
                            before.last() + line@.skip(1),
                        ));
                    }
                },
                None => {},
            }
        } else {
            lines.push(string_of(line));
            assert(views(lines@) =~= before.push(line@));
        }
        i = i + 1;
    }
    assert(all.take(i as int) =~= all);
    lines
}

// ---------------------------------------------------------------------------
// Properties
// ---------------------------------------------------------------------------

/// A property: its name in upper case, its parameters and its value.
pub struct Property {
    pub name: Seq<char>,
    pub params: Seq<char>,
    pub value: Seq<char>,
}

/// Position of the first colon outside quotes, given whether the text starts
/// inside them.
pub open spec fn colon(s: Seq<char>, quoted: bool) -> Option<int>
    decreases s.len(),
{
    if s.len() == 0 {
        None
    } else if s[0] == ':' && !quoted {
        Some(0)
    } else {
        match colon(s.drop_first(), quoted != (s[0] == '"')) {
            Some(n) => Some(n + 1),
            None => None,
        }
    }
}

/// The name before the first semicolon of the part before the colon.
pub open spec fn head_name(head: Seq<char>) -> Seq<char> {
    head.take(index_of(head, ';'))
}

/// What stands behind the first semicolon of the part before the colon.
pub open spec fn head_params(head: Seq<char>) -> Seq<char> {
    let n = index_of(head, ';');
    if n < head.len() {
        head.skip(n + 1)
    } else {
        seq![]
    }
}

/// The property that a line holds, split at the first colon outside quotes.
pub open spec fn property(line: Seq<char>) -> Option<Property> {
    match colon(line, false) {
        Some(n) => Some(
            Property {
                name: upper(head_name(line.take(n))),
                params: head_params(line.take(n)),
                value: line.skip(n + 1),
            },
        ),
        None => None,
    }
}

pub proof fn lemma_colon_bounds(s: Seq<char>, quoted: bool)
    ensures
        colon(s, quoted) matches Some(n) ==> 0 <= n < s.len() && s[n] == ':',
    decreases s.len(),
{
    if s.len() > 0 && !(s[0] == ':' && !quoted) {
        lemma_colon_bounds(s.drop_first(), quoted != (s[0] == '"'));
    }
}

/// Position of the first colon outside quotes.
fn find_colon(s: &[char]) -> (r: Option<usize>)
    ensures
        match r {
            Some(n) => colon(s@, false) == Some(n as int) && n < s@.len(),
            None => colon(s@, false) is None,
        },
{
    let mut quoted = false;
    let mut i: usize = 0;
    proof {
        assert(s@.skip(0) =~= s@);
    }
    while i < s.len()
        invariant
            i <= s@.len(),
            colon(s@, false) == match colon(s@.skip(i as int), quoted) {
                Some(n) => Some(n + i),
                None => None::<int>,
            },
        decreases s@.len() - i,
    {
        proof {
            assert(s@.skip(i as int).drop_first() =~= s@.skip(i + 1));
            assert(s@.skip(i as int)[0] == s@[i as int]);
        }
        if s[i] == '"' {
            quoted = !quoted;
        } else if s[i] == ':' && !quoted {
            return Some(i);
        }
        i = i + 1;
    }
    None
}

/// How a split property is seen.
pub open spec fn property_view(p: Option<(String, String, String)>) -> Option<Property> {
    match p {
        Some((name, params, value)) => Some(
            Property { name: name@, params: params@, value: value@ },
        ),
        None => None,
    }
}

/// Split `NAME;PARAM=x:VALUE` into (uppercased name, params, value) at the first
/// unquoted colon.
pub fn split_property(line: &str) -> (r: Option<(String, String, String)>)
    ensures
        property_view(r) == property(line@),
{
    let chars = chars_of(line);
    let s = chars.as_slice();
    match find_colon(s) {
        Some(n) => {
            proof {
                assert(s.len() == s@.len());
                assert(s@.subrange(0, n as int) =~= s@.take(n as int));
                assert(s@.subrange(n + 1, s@.len() as int) =~= s@.skip(n + 1));
            }
            let head = slice_subrange(s, 0, n);
            let value = slice_subrange(s, n + 1, s.len());
            let m: usize = position(head, ';');
            proof {
                assert(head@.subrange(0, m as int) =~= head@.take(m as int));
            }
            let name = uppercase(slice_subrange(head, 0, m));
            let params = if m < head.len() {
                proof {
                    assert(head@.subrange(m + 1, head@.len() as int) =~= head@.skip(m + 1));
                }
                string_of(slice_subrange(head, m + 1, head.len()))
            } else {
                String::new()
            };
            assert(params@ =~= head_params(head@));
            Some((string_of(name.as_slice()), params, string_of(value)))
        },
        None => None,
    }
}

// ---------------------------------------------------------------------------
// Values
// ---------------------------------------------------------------------------

/// What an escaped character stands for.
pub open spec fn escape_meaning(c: char) -> char {
    if c == 'n' || c == 'N' {
        '\n'
    } else {
        c
    }
}

/// The text that an escaped value stands for. A backslash at the end stands for
/// nothing.
pub open spec fn unescaped(s: Seq<char>) -> Seq<char>
    decreases s.len(),
{
    if s.len() == 0 {
        seq![]
    } else if s[0] != '\\' {
        seq![s[0]] + unescaped(s.skip(1))
    } else if s.len() == 1 {
        seq![]
    } else {
        seq![escape_meaning(s[1])] + unescaped(s.skip(2))
    }
}

/// Read an escaped value.
pub fn unescape(s: &str) -> (r: String)
    ensures
        r@ == unescaped(s@),
{
    let v = chars_of(s);
    let mut out = String::new();
    let mut i: usize = 0;
    proof {
        assert(s@.skip(0) =~= s@);
        assert(out@ + unescaped(s@) =~= unescaped(s@));
    }
    while i < v.len()
        invariant
            i <= v@.len(),
            v@ == s@,
            out@ + unescaped(s@.skip(i as int)) == unescaped(s@),
        decreases v@.len() - i,
    {
        let ghost rest = s@.skip(i as int);
        let ghost before = out@;
        if v[i] != '\\' {
            out.push(v[i]);
            i = i + 1;
            proof {
                assert(rest.skip(1) =~= s@.skip(i as int));
                let more = unescaped(s@.skip(i as int));
                assert(before + (seq![rest[0]] + more) =~= out@ + more);
            }
        } else if i + 1 == v.len() {
            proof {
                assert(before + Seq::<char>::empty() =~= before);
            }
            return out;
        } else {
            let c = v[i + 1];
            if c == 'n' || c == 'N' {
                out.push('\n');
            } else {
                out.push(c);
            }
            i = i + 2;
            proof {
                assert(rest.skip(2) =~= s@.skip(i as int));
                let more = unescaped(s@.skip(i as int));
                assert(before + (seq![escape_meaning(rest[1])] + more) =~= out@ + more);
            }
        }
    }
    proof {
        assert(out@ + unescaped(s@.skip(i as int)) =~= out@);
    }
    out
}

/// How a character is written in a value. A carriage return is left out.
pub open spec fn escape_char(c: char) -> Seq<char> {
    if c == '\\' || c == ';' || c == ',' {
        seq!['\\', c]
    } else if c == '\n' {
        seq!['\\', 'n']
    } else if c == '\r' {
        seq![]
    } else {
        seq![c]
    }
}

/// A text as it is written in a value.
pub open spec fn escaped(s: Seq<char>) -> Seq<char>
    decreases s.len(),
{
    if s.len() == 0 {
        seq![]
    } else {
        escape_char(s[0]) + escaped(s.skip(1))
    }
}

/// Write a text as a value.
pub fn escape(s: &str) -> (r: String)
    ensures
        r@ == escaped(s@),
{
    let v = chars_of(s);
    let mut out = String::new();
    let mut i: usize = 0;
    proof {
        assert(s@.skip(0) =~= s@);
        assert(out@ + escaped(s@) =~= escaped(s@));
    }
    while i < v.len()
        invariant
            i <= v@.len(),
            v@ == s@,
            out@ + escaped(s@.skip(i as int)) == escaped(s@),
        decreases v@.len() - i,
    {
        let ghost rest = s@.skip(i as int);
        let ghost before = out@;
        let c = v[i];
        if c == '\\' || c == ';' || c == ',' {
            out.push('\\');
            out.push(c);
        } else if c == '\n' {
            out.push('\\');
            out.push('n');
        } else if c != '\r' {
            out.push(c);
        }
        i = i + 1;
        proof {
            assert(rest.skip(1) =~= s@.skip(i as int));
            assert(out@ =~= before + escape_char(c));
            let more = escaped(s@.skip(i as int));
            assert(before + (escape_char(c) + more) =~= out@ + more);
        }
    }
    proof {
        assert(out@ + escaped(s@.skip(i as int)) =~= out@);
    }
    out
}

/// Whether a date-time value is a date alone: by its parameters, or by its form.
pub open spec fn date_only(params: Seq<char>, value: Seq<char>) -> bool {
    ||| exists|i: int|
        0 <= i < split(params, ';').len() && same_ignoring_case(
            #[trigger] split(params, ';')[i],
            "VALUE=DATE"@,
        )
    ||| value.len() == 8 && all_digits(value)
}

/// Whether a date-time value is a date alone.
pub fn is_date_only(params: &str, value: &str) -> (r: bool)
    ensures
        r == date_only(params@, value@),
{
    let p = chars_of(params);
    let parts = split_on(p.as_slice(), ';');
    let wanted = chars_of("VALUE=DATE");
    let ghost all = split(params@, ';');
    let mut i: usize = 0;
    while i < parts.len()
        invariant
            i <= parts@.len(),
            all == split(params@, ';'),
            all == pieces(parts@),
            wanted@ == "VALUE=DATE"@,
            forall|j: int| 0 <= j < i ==> !same_ignoring_case(#[trigger] all[j], "VALUE=DATE"@),
        decreases parts@.len() - i,
    {
        if eq_ignore_case(parts[i].as_slice(), wanted.as_slice()) {
            assert(same_ignoring_case(all[i as int], "VALUE=DATE"@));
            return true;
        }
        i = i + 1;
    }
    let v = chars_of(value);
    v.len() == 8 && every_digit(v.as_slice())
}

/// The text with zeros behind it up to a width.
pub open spec fn filled(s: Seq<char>, width: nat) -> Seq<char> {
    if s.len() < width {
        s + zeros((width - s.len()) as nat)
    } else {
        s
    }
}

/// The first characters of a text, at most `n`.
pub open spec fn at_most(s: Seq<char>, n: int) -> Seq<char> {
    if s.len() > n {
        s.take(n)
    } else {
        s
    }
}

/// Zero-padded 14-digit key (YYYYMMDDHHMMSS) for chronological sorting. Without a
/// start it is all zeros.
pub open spec fn sort_key_of(start: Option<Seq<char>>) -> Seq<char> {
    match start {
        Some(s) => filled(at_most(digits(s), 14), 14),
        None => zeros(14),
    }
}

/// The sort key of a start time.
pub fn sort_key(start_raw: &Option<String>) -> (r: String)
    ensures
        r@ == sort_key_of(opt_view(*start_raw)),
{
    let mut out = String::new();
    let mut n: usize = 0;
    match start_raw {
        Some(s) => {
            let v = chars_of(s.as_str());
            let d = digits_of(v.as_slice());
            n = if d.len() > 14 {
                14
            } else {
                d.len()
            };
            proof {
                assert(d@.subrange(0, n as int) =~= at_most(d@, 14));
            }
            push_chars(&mut out, slice_subrange(d.as_slice(), 0, n));
        },
        None => {},
    }
    let ghost head = out@;
    let filled_from: usize = n;
    while n < 14
        invariant
            filled_from <= n <= 14,
            out@ == head + zeros((n - filled_from) as nat),
        decreases 14 - n,
    {
        out.push('0');
        n = n + 1;
        assert(out@ =~= head + zeros((n - filled_from) as nat));
    }
    assert(out@ =~= sort_key_of(opt_view(*start_raw)));
    out
}

// ---------------------------------------------------------------------------
// Events
// ---------------------------------------------------------------------------

/// An event of a calendar.
pub struct Event {
    pub summary: String,
    pub start_raw: Option<String>,
    pub end_raw: Option<String>,
    pub all_day: bool,
    pub location: Option<String>,
    pub uid: Option<String>,
    /// The name of the calendar that holds it.
    pub calendar: String,
    pub sort_key: String,
}

/// What an event holds.
pub struct EventFields {
    pub summary: Seq<char>,
    pub start_raw: Option<Seq<char>>,
    pub end_raw: Option<Seq<char>>,
    pub all_day: bool,
    pub location: Option<Seq<char>>,
    pub uid: Option<Seq<char>>,
    pub calendar: Seq<char>,
    pub sort_key: Seq<char>,
}

impl View for Event {
    type V = EventFields;

    open spec fn view(&self) -> EventFields {
        EventFields {
            summary: self.summary@,
            start_raw: opt_view(self.start_raw),
            end_raw: opt_view(self.end_raw),
            all_day: self.all_day,
            location: opt_view(self.location),
            uid: opt_view(self.uid),
            calendar: self.calendar@,
            sort_key: self.sort_key@,
        }
    }
}

pub open spec fn event_fields(v: Seq<Event>) -> Seq<EventFields> {
    Seq::new(v.len(), |i: int| v[i]@)
}

/// An event of which nothing is known.
pub open spec fn blank() -> EventFields {
    EventFields {
        summary: seq![],
        start_raw: None,
        end_raw: None,
        all_day: false,
        location: None,
        uid: None,
        calendar: seq![],
        sort_key: seq!['0'],
    }
}

/// What a property says of an event.
pub open spec fn with_field(ev: EventFields, p: Property) -> EventFields {
    if p.name == "SUMMARY"@ {
        EventFields { summary: unescaped(p.value), ..ev }
    } else if p.name == "DTSTART"@ {
        EventFields {
            all_day: date_only(p.params, p.value),
            start_raw: Some(p.value),
            ..ev
        }
    } else if p.name == "DTEND"@ {
        EventFields { end_raw: Some(p.value), ..ev }
    } else if p.name == "LOCATION"@ {
        EventFields { location: Some(unescaped(p.value)), ..ev }
    } else if p.name == "UID"@ {
        EventFields { uid: Some(p.value), ..ev }
    } else {
        ev
    }
}

/// What the lines of an event say of it, the last line for a property winning.
pub open spec fn fields_of(lines: Seq<Seq<char>>) -> EventFields
    decreases lines.len(),
{
    if lines.len() == 0 {
        blank()
    } else {
        match property(lines.last()) {
            Some(p) => with_field(fields_of(lines.drop_last()), p),
            None => fields_of(lines.drop_last()),
        }
    }
}

/// The event that its lines describe.
pub open spec fn event_of(lines: Seq<Seq<char>>) -> EventFields {
    let ev = fields_of(lines);
    EventFields { sort_key: sort_key_of(ev.start_raw), ..ev }
}

fn set_field(ev: &mut Event, name: &str, params: &str, value: String)
    ensures
        final(ev)@ == with_field(
            old(ev)@,
            Property { name: name@, params: params@, value: value@ },
        ),
{
    if same_str(name, "SUMMARY") {
        ev.summary = unescape(value.as_str());
    } else if same_str(name, "DTSTART") {
        ev.all_day = is_date_only(params, value.as_str());
        ev.start_raw = Some(value);
    } else if same_str(name, "DTEND") {
        ev.end_raw = Some(value);
    } else if same_str(name, "LOCATION") {
        ev.location = Some(unescape(value.as_str()));
    } else if same_str(name, "UID") {
        ev.uid = Some(value);
    }
}

/// Parse one VEVENT's inner lines into an [`Event`] (calendar set by caller).
pub fn parse_vevent(lines: &[String]) -> (r: Event)
    ensures
        r@ == event_of(views(lines@)),
{
    let mut ev = Event {
        summary: String::new(),
        start_raw: None,
        end_raw: None,
        all_day: false,
        location: None,
        uid: None,
        calendar: String::new(),
        sort_key: "0".to_owned(),
    };
    let ghost all = views(lines@);
    let mut i: usize = 0;
    proof {
        reveal_strlit("0");
        assert(ev@.sort_key =~= blank().sort_key);
        assert(ev@ == blank());
        assert(all.take(0) =~= Seq::<Seq<char>>::empty());
    }
    while i < lines.len()
        invariant
            i <= lines@.len(),
            all == views(lines@),
            ev@ == fields_of(all.take(i as int)),
        decreases lines@.len() - i,
    {
        proof {
            assert(all.take(i + 1).drop_last() =~= all.take(i as int));
            assert(all.take(i + 1).last() == lines@[i as int]@);
        }
        match split_property(lines[i].as_str()) {
            Some((name, params, value)) => {
                set_field(&mut ev, name.as_str(), params.as_str(), value);
            },
            None => {},
        }
        i = i + 1;
    }
    assert(all.take(i as int) =~= all);
    ev.sort_key = sort_key(&ev.start_raw);
    ev
}

/// Whether a line opens an event.
pub open spec fn is_begin(line: Seq<char>) -> bool {
    same_ignoring_case(trim(line), "BEGIN:VEVENT"@)
}

/// Whether a line closes an event.
pub open spec fn is_end(line: Seq<char>) -> bool {
    same_ignoring_case(trim(line), "END:VEVENT"@)
}

/// The events of the lines read so far, and the lines of the one that is open.
pub struct Scan {
    pub open: Option<Seq<Seq<char>>>,
    pub events: Seq<EventFields>,
}

/// The events of a list of logical lines. An opening line starts an event
/// afresh; a closing line without an opening one is passed over.
pub open spec fn scan(lines: Seq<Seq<char>>) -> Scan
    decreases lines.len(),
{
    if lines.len() == 0 {
        Scan { open: None, events: seq![] }
    } else {
        let s = scan(lines.drop_last());
        let line = lines.last();
        if is_begin(line) {
            Scan { open: Some(seq![]), events: s.events }
        } else if is_end(line) {
            match s.open {
                Some(body) => Scan { open: None, events: s.events.push(event_of(body)) },
                None => s,
            }
        } else {
            match s.open {
                Some(body) => Scan { open: Some(body.push(line)), events: s.events },
                None => s,
            }
        }
    }
}

/// The events of a text.
pub open spec fn events_of(blob: Seq<char>) -> Seq<EventFields> {
    scan(logical_lines(blob)).events
}

fn is_line(line: &str, wanted: &str) -> (r: bool)
    ensures
        r == same_ignoring_case(trim(line@), wanted@),
{
    let v = chars_of(line);
    let w = chars_of(wanted);
    eq_ignore_case(trimmed(v.as_slice()), w.as_slice())
}

/// Parse every VEVENT in a reply element (a bare VEVENT or a VCALENDAR holding
/// one or more).
pub fn parse_events(blob: &str) -> (r: Vec<Event>)
    ensures
        event_fields(r@) == events_of(blob@),
{
    let lines = unfold(blob);
    let mut events: Vec<Event> = Vec::new();
    let mut start: Option<usize> = None;
    let ghost all = views(lines@);
    let mut i: usize = 0;
    proof {
        assert(all.take(0) =~= Seq::<Seq<char>>::empty());
        assert(event_fields(events@) =~= scan(all.take(0)).events);
    }
    while i < lines.len()
        invariant
            i <= lines@.len(),
            all == views(lines@),
            event_fields(events@) == scan(all.take(i as int)).events,
            match (start, scan(all.take(i as int)).open) {
                (Some(s), Some(body)) => s <= i && body == all.subrange(s as int, i as int),
                (None, None) => true,
                _ => false,
            },
        decreases lines@.len() - i,
    {
        let ghost before = event_fields(events@);
        proof {
            assert(all.take(i + 1).drop_last() =~= all.take(i as int));
            assert(all.take(i + 1).last() == lines@[i as int]@);
        }
        if is_line(lines[i].as_str(), "BEGIN:VEVENT") {
            start = Some(i + 1);
            assert(all.subrange(i + 1, i + 1) =~= Seq::<Seq<char>>::empty());
        } else if is_line(lines[i].as_str(), "END:VEVENT") {
            match start {
                Some(s) => {
                    let body = slice_subrange(lines.as_slice(), s, i);
                    proof {
                        assert(views(body@) =~= all.subrange(s as int, i as int));
                    }
                    events.push(parse_vevent(body));
                    assert(event_fields(events@) =~= before.push(
                        event_of(all.subrange(s as int, i as int)),
                    ));
                    start = None;
                },
                None => {},
            }
        } else {
            proof {
                if start is Some {
                    let s = start->0 as int;
                    assert(all.subrange(s, i + 1) =~= all.subrange(s, i as int).push(
                        all[i as int],
                    ));
                }
            }
        }
        i = i + 1;
    }
    assert(all.take(i as int) =~= all);
    events
}

// ---------------------------------------------------------------------------
// Times for display
// ---------------------------------------------------------------------------

/// A date as `YYYY-MM-DD`, of at least eight digits.
pub open spec fn dashed_date(d: Seq<char>) -> Seq<char> {
    d.subrange(0, 4) + seq!['-'] + d.subrange(4, 6) + seq!['-'] + d.subrange(6, 8)
}

/// An iCalendar date or time for display. All-day: `YYYY-MM-DD`; timed:
/// `YYYY-MM-DD HH:MM`, with a `UTC` suffix when the value carries `Z`. What has
/// too few digits is shown as it is.
pub open spec fn shown_time(raw: Seq<char>, all_day: bool) -> Seq<char> {
    let d = digits(raw);
    if all_day || (!raw.contains('T') && d.len() == 8) {
        if d.len() >= 8 {
            dashed_date(d)
        } else {
            raw
        }
    } else if d.len() >= 12 {
        let base = dashed_date(d) + seq![' '] + d.subrange(8, 10) + seq![':'] + d.subrange(10, 12);
        if raw.len() > 0 && raw.last() == 'Z' {
            base + " UTC"@
        } else {
            base
        }
    } else {
        raw
    }
}

fn push_dashed_date(out: &mut String, d: &[char])
    requires
        d@.len() >= 8,
    ensures
        final(out)@ == old(out)@ + dashed_date(d@),
{
    push_chars(out, slice_subrange(d, 0, 4));
    out.push('-');
    push_chars(out, slice_subrange(d, 4, 6));
    out.push('-');
    push_chars(out, slice_subrange(d, 6, 8));
    assert(out@ =~= old(out)@ + dashed_date(d@));
}

/// Render an iCalendar date/time value for display.
pub fn format_dt(raw: &str, all_day: bool) -> (r: String)
    ensures
        r@ == shown_time(raw@, all_day),
{
    let v = chars_of(raw);
    let d = digits_of(v.as_slice());
    let t: usize = position(v.as_slice(), 'T');
    proof {
        lemma_index_of(raw@, 'T');
        assert(raw@.contains('T') <==> t < v@.len());
    }
    if all_day || (t == v.len() && d.len() == 8) {
        if d.len() >= 8 {
            let mut out = String::new();
            push_dashed_date(&mut out, d.as_slice());
            assert(out@ =~= dashed_date(d@));
            return out;
        }
        return raw.to_owned();
    }
    if d.len() >= 12 {
        let mut out = String::new();
        push_dashed_date(&mut out, d.as_slice());
        out.push(' ');
        push_chars(&mut out, slice_subrange(d.as_slice(), 8, 10));
        out.push(':');
        push_chars(&mut out, slice_subrange(d.as_slice(), 10, 12));
        assert(out@ =~= dashed_date(d@) + seq![' '] + d@.subrange(8, 10) + seq![':']
            + d@.subrange(10, 12));
        if v.len() > 0 && v[v.len() - 1] == 'Z' {
            out.append(" UTC");
        }
        return out;
    }
    raw.to_owned()
}

// ---------------------------------------------------------------------------
// Writing
// ---------------------------------------------------------------------------

/// A property as a line.
pub open spec fn prop_line(name: Seq<char>, value: Seq<char>) -> Seq<char> {
    name + seq![':'] + value
}

fn line_of(name: &str, value: &str) -> (r: String)
    ensures
        r@ == prop_line(name@, value@),
{
    let mut out = name.to_owned();
    out.push(':');
    out.append(value);
    assert(out@ =~= prop_line(name@, value@));
    out
}

/// Lines as a text: each ends in a carriage return and a line feed.
pub open spec fn crlf_text(lines: Seq<Seq<char>>) -> Seq<char>
    decreases lines.len(),
{
    if lines.len() == 0 {
        seq![]
    } else {
        lines[0] + seq!['\r', '\n'] + crlf_text(lines.drop_first())
    }
}

fn crlf_of(lines: &Vec<String>) -> (r: String)
    ensures
        r@ == crlf_text(views(lines@)),
{
    let mut out = String::new();
    let mut i: usize = 0;
    let ghost all = views(lines@);
    proof {
        assert(all.skip(0) =~= all);
        assert(out@ + crlf_text(all) =~= crlf_text(all));
    }
    while i < lines.len()
        invariant
            i <= lines@.len(),
            all == views(lines@),
            out@ + crlf_text(all.skip(i as int)) == crlf_text(all),
        decreases lines@.len() - i,
    {
        let ghost before = out@;
        proof {
            assert(all.skip(i as int).drop_first() =~= all.skip(i + 1));
        }
        out.append(lines[i].as_str());
        out.push('\r');
        out.push('\n');
        proof {
            let l = all[i as int];
            let more = crlf_text(all.skip(i + 1));
            assert(before + (l + seq!['\r', '\n'] + more) =~= out@ + more);
        }
        i = i + 1;
    }
    proof {
        assert(out@ + crlf_text(all.skip(i as int)) =~= out@);
    }
    out
}

/// A property line for a text that is there and not empty.
pub open spec fn text_line(name: Seq<char>, text: Option<Seq<char>>) -> Seq<Seq<char>> {
    match text {
        Some(t) => if t.len() > 0 {
            seq![prop_line(name, escaped(t))]
        } else {
            seq![]
        },
        None => seq![],
    }
}

/// When an event ends: as asked for, else a day after an all-day start, an hour
/// after a timed one.
pub open spec fn end_secs(start: int, all_day: bool, end: Option<int>) -> int {
    match end {
        Some(e) => e,
        None => if all_day {
            start + 86_400
        } else {
            start + 3600
        },
    }
}

/// The start or end of an event as a line.
pub open spec fn time_line(name: Seq<char>, secs: int, date_only: bool) -> Seq<char> {
    if date_only {
        prop_line(name + ";VALUE=DATE"@, date_stamp(secs))
    } else {
        prop_line(name, time_stamp(secs))
    }
}

/// The lines between the opening and the closing line of a new event.
pub open spec fn event_body(
    now: int,
    uid: Seq<char>,
    start: int,
    all_day: bool,
    end: Option<int>,
    summary: Seq<char>,
    location: Option<Seq<char>>,
    description: Option<Seq<char>>,
) -> Seq<Seq<char>> {
    seq![
        prop_line("UID"@, uid),
        prop_line("DTSTAMP"@, time_stamp(now)),
        time_line("DTSTART"@, start, all_day),
        time_line("DTEND"@, end_secs(start, all_day, end), all_day),
        prop_line("SUMMARY"@, escaped(summary)),
    ] + text_line("LOCATION"@, location) + text_line("DESCRIPTION"@, description)
}

/// A bare VEVENT with the given lines.
pub open spec fn vevent(body: Seq<Seq<char>>) -> Seq<char> {
    crlf_text(seq!["BEGIN:VEVENT"@] + body + seq!["END:VEVENT"@])
}

/// The VEVENT of a new event that is made at `now`, or what is wrong with its
/// times: the start is looked at first.
pub open spec fn new_vevent(
    now: int,
    uid: Seq<char>,
    start: Seq<char>,
    all_day: bool,
    end: Option<Seq<char>>,
    summary: Seq<char>,
    location: Option<Seq<char>>,
    description: Option<Seq<char>>,
) -> Result<Seq<char>, Seq<char>> {
    match parsed(start) {
        None => Err(iso_error(start)),
        Some((from, _)) => match end {
            None => Ok(
                vevent(event_body(now, uid, from, all_day, None, summary, location, description)),
            ),
            Some(e) => match parsed(e) {
                None => Err(iso_error(e)),
                Some((to, _)) => Ok(
                    vevent(
                        event_body(
                            now,
                            uid,
                            from,
                            all_day,
                            Some(to),
                            summary,
                            location,
                            description,
                        ),
                    ),
                ),
            },
        },
    }
}

/// A text or an error in views.
pub open spec fn text_result(r: Result<String, String>) -> Result<Seq<char>, Seq<char>> {
    match r {
        Ok(s) => Ok(s@),
        Err(s) => Err(s@),
    }
}

fn time_line_of(name: &str, secs: i64, date_only: bool) -> (r: String)
    ensures
        r@ == time_line(name@, secs as int, date_only),
{
    if date_only {
        let mut head = name.to_owned();
        head.append(";VALUE=DATE");
        line_of(head.as_str(), epoch_to_date(secs).as_str())
    } else {
        line_of(name, epoch_to_make_time(secs).as_str())
    }
}

fn push_text_line(lines: &mut Vec<String>, name: &str, text: Option<&str>)
    ensures
        views(final(lines)@) == views(old(lines)@) + text_line(name@, opt_str(text)),
{
    match text {
        Some(t) => {
            let e = chars_of(t);
            if e.len() > 0 {
                lines.push(line_of(name, escape(t).as_str()));
            }
        },
        None => {},
    }
    assert(views(lines@) =~= views(old(lines)@) + text_line(name@, opt_str(text)));
}

/// Build a bare VEVENT for creation, stamped with the time `now`.
pub fn build_vevent_at(
    now: i64,
    uid: &str,
    start: &str,
    all_day: bool,
    end: Option<&str>,
    summary: &str,
    location: Option<&str>,
    description: Option<&str>,
) -> (r: Result<String, String>)
    ensures
        text_result(r) == new_vevent(
            now as int,
            uid@,
            start@,
            all_day,
            opt_str(end),
            summary@,
            opt_str(location),
            opt_str(description),
        ),
{
    let from: i64 = match parse_iso(start) {
        Ok((secs, _)) => secs,
        Err(e) => {
            return Err(e);
        },
    };
    let to: i64 = match end {
        Some(e) => match parse_iso(e) {
            Ok((secs, _)) => secs,
            Err(e) => {
                return Err(e);
            },
        },
        None => if all_day {
            from + 86_400
        } else {
            from + 3600
        },
    };
    let mut lines: Vec<String> = Vec::new();
    lines.push("BEGIN:VEVENT".to_owned());
    lines.push(line_of("UID", uid));
    lines.push(line_of("DTSTAMP", epoch_to_make_time(now).as_str()));
    lines.push(time_line_of("DTSTART", from, all_day));
    lines.push(time_line_of("DTEND", to, all_day));
    lines.push(line_of("SUMMARY", escape(summary).as_str()));
    let ghost asked = match opt_str(end) {
        Some(e) => Some((parsed(e)->0).0),
        None => None,
    };
    let ghost fixed = seq![
        prop_line("UID"@, uid@),
        prop_line("DTSTAMP"@, time_stamp(now as int)),
        time_line("DTSTART"@, from as int, all_day),
        time_line("DTEND"@, end_secs(from as int, all_day, asked), all_day),
        prop_line("SUMMARY"@, escaped(summary@)),
    ];
    assert(views(lines@) =~= seq!["BEGIN:VEVENT"@] + fixed);
    push_text_line(&mut lines, "LOCATION", location);
    push_text_line(&mut lines, "DESCRIPTION", description);
    let ghost before = views(lines@);
    lines.push("END:VEVENT".to_owned());
    proof {
        assert(views(lines@) =~= before.push("END:VEVENT"@));
        let body = event_body(
            now as int,
            uid@,
            from as int,
            all_day,
            asked,
            summary@,
            opt_str(location),
            opt_str(description),
        );
        assert(views(lines@) =~= seq!["BEGIN:VEVENT"@] + body + seq!["END:VEVENT"@]);
    }
    Ok(crlf_of(&lines))
}

/// Build a bare VEVENT for creation, stamped with the current time. An error
/// tells what is wrong with the times; it does not depend on the clock.
pub fn build_vevent(
    uid: &str,
    start: &str,
    all_day: bool,
    end: Option<&str>,
    summary: &str,
    location: Option<&str>,
    description: Option<&str>,
) -> (r: Result<String, String>)
    ensures
        exists|now: int|
            0 <= now <= i64::MAX && text_result(r) == #[trigger] new_vevent(
                now,
                uid@,
                start@,
                all_day,
                opt_str(end),
                summary@,
                opt_str(location),
                opt_str(description),
            ),
{
    let now: i64 = now_epoch();
    build_vevent_at(now, uid, start, all_day, end, summary, location, description)
}

/// A `DTSTART`/`DTEND` property line from ISO input: a date alone for a date, a
/// UTC timestamp otherwise.
pub open spec fn iso_line(name: Seq<char>, iso: Seq<char>) -> Result<Seq<char>, Seq<char>> {
    match parsed(iso) {
        Some((secs, timed)) => Ok(time_line(name, secs, !timed)),
        None => Err(iso_error(iso)),
    }
}

/// A `DTSTART`/`DTEND` property line from ISO input.
pub fn dt_property(name: &str, iso: &str) -> (r: Result<String, String>)
    ensures
        text_result(r) == iso_line(name@, iso@),
{
    match parse_iso(iso) {
        Ok((secs, has_time)) => Ok(time_line_of(name, secs, !has_time)),
        Err(e) => Err(e),
    }
}

// ---------------------------------------------------------------------------
// Changing
// ---------------------------------------------------------------------------

/// Length of the part of a line before its first semicolon or colon.
pub open spec fn name_len(line: Seq<char>) -> int {
    let a = index_of(line, ';');
    let b = index_of(line, ':');
    if a < b {
        a
    } else {
        b
    }
}

/// The name of the property that a line is for, in upper case.
pub open spec fn line_name(line: Seq<char>) -> Seq<char> {
    upper(line.take(name_len(line)))
}

/// The lines that are not for the property `name`.
pub open spec fn without_property(lines: Seq<Seq<char>>, name: Seq<char>) -> Seq<Seq<char>>
    decreases lines.len(),
{
    if lines.len() == 0 {
        seq![]
    } else {
        let before = without_property(lines.drop_last(), name);
        if line_name(lines.last()) == name {
            before
        } else {
            before.push(lines.last())
        }
    }
}

/// Position of the first line that closes an event, or the number of lines.
pub open spec fn end_index(lines: Seq<Seq<char>>) -> int
    decreases lines.len(),
{
    if lines.len() == 0 || is_end(lines[0]) {
        0
    } else {
        1 + end_index(lines.drop_first())
    }
}

/// The lines with all lines for the property `name` taken out, and the new line,
/// if there is one, put in just before the closing line.
pub open spec fn with_property(
    lines: Seq<Seq<char>>,
    name: Seq<char>,
    new_line: Option<Seq<char>>,
) -> Seq<Seq<char>> {
    let kept = without_property(lines, name);
    match new_line {
        Some(line) => kept.insert(end_index(kept), line),
        None => kept,
    }
}

fn is_for(line: &str, name: &str) -> (r: bool)
    ensures
        r == (line_name(line@) == name@),
{
    let v = chars_of(line);
    let a: usize = position(v.as_slice(), ';');
    let b: usize = position(v.as_slice(), ':');
    let n: usize = if a < b {
        a
    } else {
        b
    };
    proof {
        assert(v@.subrange(0, n as int) =~= v@.take(n as int));
    }
    let u = uppercase(slice_subrange(v.as_slice(), 0, n));
    let w = chars_of(name);
    same(u.as_slice(), w.as_slice())
}

pub proof fn lemma_end_index(lines: Seq<Seq<char>>, n: int)
    requires
        0 <= n <= lines.len(),
        n < lines.len() ==> is_end(lines[n]),
        forall|j: int| 0 <= j < n ==> !is_end(#[trigger] lines[j]),
    ensures
        end_index(lines) == n,
    decreases lines.len(),
{
    if n > 0 {
        let rest = lines.drop_first();
        assert(!is_end(lines[0]));
        assert forall|j: int| 0 <= j < n - 1 implies !is_end(#[trigger] rest[j]) by {
            assert(rest[j] == lines[j + 1]);
        }
        lemma_end_index(rest, n - 1);
    }
}

pub proof fn lemma_end_index_bounds(lines: Seq<Seq<char>>)
    ensures
        0 <= end_index(lines) <= lines.len(),
        end_index(lines) < lines.len() ==> is_end(lines[end_index(lines)]),
        forall|j: int| 0 <= j < end_index(lines) ==> !is_end(#[trigger] lines[j]),
    decreases lines.len(),
{
    if lines.len() > 0 && !is_end(lines[0]) {
        let rest = lines.drop_first();
        lemma_end_index_bounds(rest);
        assert forall|j: int| 0 <= j < end_index(lines) implies !is_end(#[trigger] lines[j]) by {
            if j > 0 {
                assert(lines[j] == rest[j - 1]);
            }
        }
    }
}

/// Replace (or remove) all lines of property `name` in an unfolded VEVENT,
/// inserting `new_line` just before `END:VEVENT`.
pub fn set_property(lines: &mut Vec<String>, name: &str, new_line: Option<String>)
    ensures
        views(final(lines)@) == with_property(views(old(lines)@), name@, opt_view(new_line)),
{
    let ghost all = views(lines@);
    let mut kept: Vec<String> = Vec::new();
    let mut i: usize = 0;
    proof {
        assert(all.take(0) =~= Seq::<Seq<char>>::empty());
        assert(views(kept@) =~= without_property(all.take(0), name@));
    }
    while i < lines.len()
        invariant
            i <= lines@.len(),
            all == views(lines@),
            views(kept@) == without_property(all.take(i as int), name@),
        decreases lines@.len() - i,
    {
        let ghost before = views(kept@);
        proof {
            assert(all.take(i + 1).drop_last() =~= all.take(i as int));
            assert(all.take(i + 1).last() == lines@[i as int]@);
        }
        if !is_for(lines[i].as_str(), name) {
            kept.push(lines[i].clone());
            assert(views(kept@) =~= before.push(lines@[i as int]@));
        }
        i = i + 1;
    }
    assert(all.take(i as int) =~= all);
    let ghost rest = views(kept@);
    match new_line {
        Some(line) => {
            let mut at: usize = 0;
            while at < kept.len() && !is_line(kept[at].as_str(), "END:VEVENT")
                invariant
                    at <= kept@.len(),
                    rest == views(kept@),
                    forall|j: int| 0 <= j < at ==> !is_end(#[trigger] rest[j]),
                decreases kept@.len() - at,
            {
                at = at + 1;
            }
            proof {
                if at < kept@.len() {
                    assert(rest[at as int] == kept@[at as int]@);
                }
                lemma_end_index(rest, at as int);
            }
            kept.insert(at, line);
            assert(views(kept@) =~= rest.insert(at as int, line@));
        },
        None => {},
    }
    *lines = kept;
}

} // verus!
