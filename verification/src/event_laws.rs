//! What the text of an event says once it has been written or changed.

use crate::ascii::{upper, upper_char};
use crate::datetime::{date_stamp, parsed, time_stamp};
use crate::ical::{
    crlf_text, end_index, end_secs, escaped, event_body, is_continuation, is_end, lemma_end_index,
    lemma_end_index_bounds, line_name, logical_lines, name_len, new_vevent, prop_line, text_line,
    time_line, unescaped, vevent, with_property, without_property,
};
use crate::ical_changes::{lemma_bracket_name, lemma_without_add};
use crate::ical_laws::{
    are_inner, is_inner, is_plain, law_escaping_is_undone, law_written_lines_are_read_back,
    lemma_brackets, lemma_fixed_fields, lemma_plain_names, lemma_texts, lemma_text_line,
    lemma_time_line,
};
use crate::requests::{modified, modified_lines, with_text, with_time, ChangeData};
use crate::split::join;
use crate::text::lemma_index_of;
use vstd::prelude::*;

verus! {

// ---------------------------------------------------------------------------
// New events
// ---------------------------------------------------------------------------

/// Whether a line begins with the given characters.
pub open spec fn begins(line: Seq<char>, head: Seq<char>) -> bool {
    head.len() <= line.len() && forall|k: int| 0 <= k < head.len() ==> line[k] == #[trigger] head[k]
}

/// Whether one line begins with the head, and it is followed by the value.
pub open spec fn says_once(ls: Seq<Seq<char>>, head: Seq<char>, value: Seq<char>) -> bool {
    exists|i: int|
        0 <= i < ls.len() && #[trigger] ls[i] == head + value && forall|j: int|
            0 <= j < ls.len() && begins(#[trigger] ls[j], head) ==> j == i
}

/// Whether no line begins with the head.
pub open spec fn never_says(ls: Seq<Seq<char>>, head: Seq<char>) -> bool {
    forall|j: int| 0 <= j < ls.len() ==> !begins(#[trigger] ls[j], head)
}

/// Whether the lines say a text under the head, once, or nothing where there is no
/// text.
pub open spec fn says_text(ls: Seq<Seq<char>>, head: Seq<char>, text: Option<Seq<char>>) -> bool {
    match text {
        Some(t) => if t.len() > 0 {
            says_once(ls, head, escaped(t))
        } else {
            never_says(ls, head)
        },
        None => never_says(ls, head),
    }
}

/// Whether the lines give the time of a property: as a date for an all-day event,
/// and as a time in UTC otherwise.
pub open spec fn says_time(
    ls: Seq<Seq<char>>,
    timed: Seq<char>,
    dated: Seq<char>,
    secs: int,
    all_day: bool,
) -> bool {
    if all_day {
        says_once(ls, dated, date_stamp(secs)) && never_says(ls, timed)
    } else {
        says_once(ls, timed, time_stamp(secs)) && never_says(ls, dated)
    }
}

/// When an event ends: as given, or else after an hour, or on the next day if it is
/// an all-day event.
pub open spec fn ends_at(from: int, all_day: bool, end: Option<Seq<char>>) -> int {
    match end {
        Some(e) => (parsed(e)->0).0,
        None => if all_day {
            from + 24 * 60 * 60
        } else {
            from + 60 * 60
        },
    }
}

/// The first characters of the lines of an event.
proof fn lemma_heads()
    ensures
        "UID:"@ == "UID"@ + seq![':'],
        "DTSTAMP:"@ == "DTSTAMP"@ + seq![':'],
        "DTSTART:"@ == "DTSTART"@ + seq![':'],
        "DTSTART;VALUE=DATE:"@ == "DTSTART"@ + ";VALUE=DATE"@ + seq![':'],
        "DTEND:"@ == "DTEND"@ + seq![':'],
        "DTEND;VALUE=DATE:"@ == "DTEND"@ + ";VALUE=DATE"@ + seq![':'],
        "SUMMARY:"@ == "SUMMARY"@ + seq![':'],
        "LOCATION:"@ == "LOCATION"@ + seq![':'],
        "DESCRIPTION:"@ == "DESCRIPTION"@ + seq![':'],
        "UID:"@.len() >= 4 && "UID:"@[0] == 'U',
        "DTSTAMP:"@.len() >= 8 && "DTSTAMP:"@[0] == 'D' && "DTSTAMP:"@[1] == 'T' && "DTSTAMP:"@[2]
            == 'S' && "DTSTAMP:"@[5] == 'M',
        "DTSTART:"@.len() >= 8 && "DTSTART:"@[0] == 'D' && "DTSTART:"@[1] == 'T' && "DTSTART:"@[2]
            == 'S' && "DTSTART:"@[5] == 'R' && "DTSTART:"@[7] == ':',
        "DTSTART;VALUE=DATE:"@.len() >= 8 && "DTSTART;VALUE=DATE:"@[0] == 'D'
            && "DTSTART;VALUE=DATE:"@[1] == 'T' && "DTSTART;VALUE=DATE:"@[2] == 'S'
            && "DTSTART;VALUE=DATE:"@[5] == 'R' && "DTSTART;VALUE=DATE:"@[7] == ';',
        "DTEND:"@.len() >= 6 && "DTEND:"@[0] == 'D' && "DTEND:"@[1] == 'T' && "DTEND:"@[2] == 'E'
            && "DTEND:"@[5] == ':',
        "DTEND;VALUE=DATE:"@.len() >= 6 && "DTEND;VALUE=DATE:"@[0] == 'D' && "DTEND;VALUE=DATE:"@[1]
            == 'T' && "DTEND;VALUE=DATE:"@[2] == 'E' && "DTEND;VALUE=DATE:"@[5] == ';',
        "SUMMARY:"@.len() >= 8 && "SUMMARY:"@[0] == 'S',
        "LOCATION:"@.len() >= 8 && "LOCATION:"@[0] == 'L',
        "DESCRIPTION:"@.len() >= 8 && "DESCRIPTION:"@[0] == 'D' && "DESCRIPTION:"@[1] == 'E',
        "BEGIN:VEVENT"@.len() >= 8 && "BEGIN:VEVENT"@[0] == 'B',
        "END:VEVENT"@.len() >= 8 && "END:VEVENT"@[0] == 'E',
{
    reveal_strlit("UID");
    reveal_strlit("DTSTAMP");
    reveal_strlit("DTSTART");
    reveal_strlit("DTEND");
    reveal_strlit("SUMMARY");
    reveal_strlit("LOCATION");
    reveal_strlit("DESCRIPTION");
    reveal_strlit(";VALUE=DATE");
    reveal_strlit("UID:");
    reveal_strlit("DTSTAMP:");
    reveal_strlit("DTSTART:");
    reveal_strlit("DTSTART;VALUE=DATE:");
    reveal_strlit("DTEND:");
    reveal_strlit("DTEND;VALUE=DATE:");
    reveal_strlit("SUMMARY:");
    reveal_strlit("LOCATION:");
    reveal_strlit("DESCRIPTION:");
    reveal_strlit("BEGIN:VEVENT");
    reveal_strlit("END:VEVENT");
    assert("UID:"@ =~= "UID"@ + seq![':']);
    assert("DTSTAMP:"@ =~= "DTSTAMP"@ + seq![':']);
    assert("DTSTART:"@ =~= "DTSTART"@ + seq![':']);
    assert("DTSTART;VALUE=DATE:"@ =~= "DTSTART"@ + ";VALUE=DATE"@ + seq![':']);
    assert("DTEND:"@ =~= "DTEND"@ + seq![':']);
    assert("DTEND;VALUE=DATE:"@ =~= "DTEND"@ + ";VALUE=DATE"@ + seq![':']);
    assert("SUMMARY:"@ =~= "SUMMARY"@ + seq![':']);
    assert("LOCATION:"@ =~= "LOCATION"@ + seq![':']);
    assert("DESCRIPTION:"@ =~= "DESCRIPTION"@ + seq![':']);
}

/// The text of a new event says everything that was given, each thing once and
/// whatever the others are: the uid, the time of writing, the start and the end, the
/// summary, and the location and the description where they are not empty. It says
/// nothing else.
#[verifier::rlimit(60)]
#[verifier::spinoff_prover]
pub proof fn law_new_event_says_what_is_given(
    now: int,
    uid: Seq<char>,
    start: Seq<char>,
    all_day: bool,
    end: Option<Seq<char>>,
    summary: Seq<char>,
    location: Option<Seq<char>>,
    description: Option<Seq<char>>,
)
    requires
        !uid.contains('\n'),
        parsed(start) is Some,
        end is Some ==> parsed(end->0) is Some,
    ensures
        ({
            let from = (parsed(start)->0).0;
            let to = ends_at(from, all_day, end);
            &&& new_vevent(now, uid, start, all_day, end, summary, location, description)
                matches Ok(text)
            &&& ({
                let ls = logical_lines(text);
                &&& says_once(ls, "UID:"@, uid)
                &&& says_once(ls, "DTSTAMP:"@, time_stamp(now))
                &&& says_time(ls, "DTSTART:"@, "DTSTART;VALUE=DATE:"@, from, all_day)
                &&& says_time(ls, "DTEND:"@, "DTEND;VALUE=DATE:"@, to, all_day)
                &&& says_once(ls, "SUMMARY:"@, escaped(summary))
                &&& says_text(ls, "LOCATION:"@, location)
                &&& says_text(ls, "DESCRIPTION:"@, description)
                &&& ls.len() == 8 + if location is Some && (location->0).len() > 0 {
                    1int
                } else {
                    0
                } + if description is Some && (description->0).len() > 0 {
                    1int
                } else {
                    0
                }
                &&& ls[0] == "BEGIN:VEVENT"@
                &&& ls[ls.len() - 2] == "END:VEVENT"@
                &&& ls[ls.len() - 1] == Seq::<char>::empty()
            })
        }),
{
    let from = (parsed(start)->0).0;
    let to = ends_at(from, all_day, end);
    let asked = match end {
        Some(e) => Some((parsed(e)->0).0),
        None => None,
    };
    assert(end_secs(from, all_day, asked) == to);
    let r = Record { now, uid, from, to, all_day, summary, location, description };
    lemma_written_record(r, asked);
    let body = event_body(now, uid, from, all_day, asked, summary, location, description);
    let ls = logical_lines(vevent(body));
    assert(new_vevent(now, uid, start, all_day, end, summary, location, description) == Ok::<
        Seq<char>,
        Seq<char>,
    >(vevent(body)));
    lemma_record_uid(ls, r);
    lemma_record_stamp(ls, r);
    lemma_record_start(ls, r);
    lemma_record_end(ls, r);
    lemma_record_summary(ls, r);
    lemma_record_location(ls, r);
    lemma_record_description(ls, r);
    assert(ls[ls.len() - 1] =~= Seq::<char>::empty());
}

/// The lines of a new event are inner lines.
proof fn lemma_body_is_inner(r: Record, asked: Option<int>)
    requires
        !r.uid.contains('\n'),
    ensures
        are_inner(
            event_body(
                r.now,
                r.uid,
                r.from,
                r.all_day,
                asked,
                r.summary,
                r.location,
                r.description,
            ),
        ),
{
    let fixed = event_body(r.now, r.uid, r.from, r.all_day, asked, r.summary, None, None);
    let body = event_body(
        r.now,
        r.uid,
        r.from,
        r.all_day,
        asked,
        r.summary,
        r.location,
        r.description,
    );
    lemma_fixed_fields(r.now, r.uid, r.from, r.all_day, asked, r.summary);
    let a = text_line("LOCATION"@, r.location);
    let b = text_line("DESCRIPTION"@, r.description);
    assert(fixed + a + b =~= body);
    lemma_texts(fixed, r.location, r.description);
}

/// The text of an event is read as its lines.
proof fn lemma_vevent_lines(body: Seq<Seq<char>>)
    requires
        are_inner(body),
    ensures
        logical_lines(vevent(body)) == seq!["BEGIN:VEVENT"@] + body + seq![
            "END:VEVENT"@,
            Seq::<char>::empty(),
        ],
{
    lemma_brackets();
    let written = seq!["BEGIN:VEVENT"@] + body + seq!["END:VEVENT"@];
    assert forall|i: int| 0 <= i < written.len() implies !(#[trigger] written[i]).contains('\n')
        && (i > 0 ==> !is_continuation(written[i])) by {
        if 0 < i < written.len() - 1 {
            assert(written[i] == body[i - 1]);
            assert(is_inner(body[i - 1]));
        }
    }
    law_written_lines_are_read_back(written);
    assert(written.push(seq![]) =~= seq!["BEGIN:VEVENT"@] + body + seq![
        "END:VEVENT"@,
        Seq::<char>::empty(),
    ]);
}

proof fn lemma_written_record(r: Record, asked: Option<int>)
    requires
        !r.uid.contains('\n'),
        r.to == end_secs(r.from, r.all_day, asked),
    ensures
        is_record(
            logical_lines(
                vevent(
                    event_body(
                        r.now,
                        r.uid,
                        r.from,
                        r.all_day,
                        asked,
                        r.summary,
                        r.location,
                        r.description,
                    ),
                ),
            ),
            r,
        ),
{
    let body = event_body(
        r.now,
        r.uid,
        r.from,
        r.all_day,
        asked,
        r.summary,
        r.location,
        r.description,
    );
    lemma_body_is_inner(r, asked);
    lemma_vevent_lines(body);
    lemma_heads();
    let ls = logical_lines(vevent(body));
    let a = text_line("LOCATION"@, r.location);
    let b = text_line("DESCRIPTION"@, r.description);
    let la = a.len() as int;
    let lb = b.len() as int;
    assert(body.len() == 5 + la + lb);
    assert(ls[1] == body[0]);
    assert(ls[2] == body[1]);
    assert(ls[3] == body[2]);
    assert(ls[4] == body[3]);
    assert(ls[5] == body[4]);
    if la > 0 {
        assert(ls[6] == body[5]);
        assert(body[5] == a[0]);
    }
    if lb > 0 {
        assert(ls[6 + la] == body[5 + la]);
        assert(body[5 + la] == b[0]);
    }
    assert(ls[6 + la + lb] == "END:VEVENT"@);
    assert(ls[7 + la + lb] == Seq::<char>::empty());
}

/// What is written of an event.
struct Record {
    now: int,
    uid: Seq<char>,
    from: int,
    to: int,
    all_day: bool,
    summary: Seq<char>,
    location: Option<Seq<char>>,
    description: Option<Seq<char>>,
}

/// Whether these are the lines of the event.
spec fn is_record(ls: Seq<Seq<char>>, r: Record) -> bool {
    let a = text_line("LOCATION"@, r.location);
    let b = text_line("DESCRIPTION"@, r.description);
    let la = a.len() as int;
    let lb = b.len() as int;
    &&& ls.len() == 8 + la + lb
    &&& ls[0] == "BEGIN:VEVENT"@
    &&& ls[1] == "UID:"@ + r.uid
    &&& ls[2] == "DTSTAMP:"@ + time_stamp(r.now)
    &&& ls[3] == time_line("DTSTART"@, r.from, r.all_day)
    &&& ls[4] == time_line("DTEND"@, r.to, r.all_day)
    &&& ls[5] == "SUMMARY:"@ + escaped(r.summary)
    &&& la > 0 ==> ls[6] == "LOCATION:"@ + escaped(r.location->0)
    &&& lb > 0 ==> ls[6 + la] == "DESCRIPTION:"@ + escaped(r.description->0)
    &&& ls[6 + la + lb] == "END:VEVENT"@
    &&& ls[7 + la + lb].len() == 0
}

/// The characters by which the lines of an event are told apart.
proof fn lemma_record(ls: Seq<Seq<char>>, r: Record)
    requires
        is_record(ls, r),
    ensures
        ({
            let la = text_line("LOCATION"@, r.location).len() as int;
            let lb = text_line("DESCRIPTION"@, r.description).len() as int;
            &&& la <= 1 && lb <= 1
            &&& forall|j: int|
                0 <= j < ls.len() - 1 ==> (#[trigger] ls[j]).len() >= if j == 1 {
                    4int
                } else {
                    6
                }
            &&& ls[0][0] == 'B'
            &&& ls[1][0] == 'U'
            &&& ls[2].len() >= 8 && ls[2][0] == 'D' && ls[2][1] == 'T' && ls[2][2] == 'S' && ls[2][5]
                == 'M'
            &&& ls[3].len() >= 8 && ls[3][0] == 'D' && ls[3][1] == 'T' && ls[3][2] == 'S' && ls[3][5]
                == 'R' && ls[3][7] == if r.all_day {
                ';'
            } else {
                ':'
            }
            &&& ls[4][0] == 'D' && ls[4][1] == 'T' && ls[4][2] == 'E' && ls[4][5] == if r.all_day {
                ';'
            } else {
                ':'
            }
            &&& ls[5][0] == 'S'
            &&& la > 0 ==> ls[6][0] == 'L'
            &&& lb > 0 ==> ls[6 + la][0] == 'D' && ls[6 + la][1] == 'E'
            &&& ls[6 + la + lb][0] == 'E'
            &&& ls[3] == if r.all_day {
                "DTSTART;VALUE=DATE:"@ + date_stamp(r.from)
            } else {
                "DTSTART:"@ + time_stamp(r.from)
            }
            &&& ls[4] == if r.all_day {
                "DTEND;VALUE=DATE:"@ + date_stamp(r.to)
            } else {
                "DTEND:"@ + time_stamp(r.to)
            }
        }),
{
    lemma_heads();
    let la = text_line("LOCATION"@, r.location).len() as int;
    let lb = text_line("DESCRIPTION"@, r.description).len() as int;
    assert forall|j: int| 0 <= j < ls.len() - 1 implies (#[trigger] ls[j]).len() >= if j == 1 {
        4int
    } else {
        6
    } by {
        assert(j == 0 || j == 1 || j == 2 || j == 3 || j == 4 || j == 5 || (j == 6 && la > 0) || (j
            == 6 + la && lb > 0) || j == 6 + la + lb);
    }
}

proof fn lemma_record_uid(ls: Seq<Seq<char>>, r: Record)
    requires
        is_record(ls, r),
    ensures
        says_once(ls, "UID:"@, r.uid),
{
    lemma_record(ls, r);
    lemma_heads();
    assert(ls[1] == "UID:"@ + r.uid);
    assert forall|j: int| 0 <= j < ls.len() && begins(#[trigger] ls[j], "UID:"@) implies j == 1 by {
        lemma_which(ls, r, j);
        assert("UID:"@[0] == 'U');
    }
}

/// Every line of an event is one of those that are told apart.
proof fn lemma_which(ls: Seq<Seq<char>>, r: Record, j: int)
    requires
        is_record(ls, r),
        0 <= j < ls.len(),
    ensures
        ({
            let la = text_line("LOCATION"@, r.location).len() as int;
            let lb = text_line("DESCRIPTION"@, r.description).len() as int;
            ||| j == 0
            ||| j == 1
            ||| j == 2
            ||| j == 3
            ||| j == 4
            ||| j == 5
            ||| j == 6 && la > 0
            ||| j == 6 + la && lb > 0
            ||| j == 6 + la + lb
            ||| j == 7 + la + lb
        }),
{
}

proof fn lemma_record_stamp(ls: Seq<Seq<char>>, r: Record)
    requires
        is_record(ls, r),
    ensures
        says_once(ls, "DTSTAMP:"@, time_stamp(r.now)),
{
    lemma_record(ls, r);
    lemma_heads();
    let h = "DTSTAMP:"@;
    assert(ls[2] == h + time_stamp(r.now));
    assert forall|j: int| 0 <= j < ls.len() && begins(#[trigger] ls[j], h) implies j == 2 by {
        lemma_which(ls, r, j);
        assert(h[0] == 'D' && h[1] == 'T' && h[2] == 'S' && h[5] == 'M');
    }
}

proof fn lemma_record_start(ls: Seq<Seq<char>>, r: Record)
    requires
        is_record(ls, r),
    ensures
        says_time(ls, "DTSTART:"@, "DTSTART;VALUE=DATE:"@, r.from, r.all_day),
{
    lemma_record(ls, r);
    lemma_heads();
    let h = "DTSTART:"@;
    let g = "DTSTART;VALUE=DATE:"@;
    assert forall|j: int| 0 <= j < ls.len() && begins(#[trigger] ls[j], h) implies j == 3
        && !r.all_day by {
        lemma_which(ls, r, j);
        assert(h[0] == 'D' && h[1] == 'T' && h[2] == 'S' && h[5] == 'R' && h[7] == ':');
    }
    assert forall|j: int| 0 <= j < ls.len() && begins(#[trigger] ls[j], g) implies j == 3
        && r.all_day by {
        lemma_which(ls, r, j);
        assert(g[0] == 'D' && g[1] == 'T' && g[2] == 'S' && g[5] == 'R' && g[7] == ';');
    }
    if r.all_day {
        assert(ls[3] == g + date_stamp(r.from));
    } else {
        assert(ls[3] == h + time_stamp(r.from));
    }
}

proof fn lemma_record_end(ls: Seq<Seq<char>>, r: Record)
    requires
        is_record(ls, r),
    ensures
        says_time(ls, "DTEND:"@, "DTEND;VALUE=DATE:"@, r.to, r.all_day),
{
    lemma_record(ls, r);
    lemma_heads();
    let h = "DTEND:"@;
    let g = "DTEND;VALUE=DATE:"@;
    assert forall|j: int| 0 <= j < ls.len() && begins(#[trigger] ls[j], h) implies j == 4
        && !r.all_day by {
        lemma_which(ls, r, j);
        assert(h[0] == 'D' && h[1] == 'T' && h[2] == 'E' && h[5] == ':');
    }
    assert forall|j: int| 0 <= j < ls.len() && begins(#[trigger] ls[j], g) implies j == 4
        && r.all_day by {
        lemma_which(ls, r, j);
        assert(g[0] == 'D' && g[1] == 'T' && g[2] == 'E' && g[5] == ';');
    }
    if r.all_day {
        assert(ls[4] == g + date_stamp(r.to));
    } else {
        assert(ls[4] == h + time_stamp(r.to));
    }
}

proof fn lemma_record_summary(ls: Seq<Seq<char>>, r: Record)
    requires
        is_record(ls, r),
    ensures
        says_once(ls, "SUMMARY:"@, escaped(r.summary)),
{
    lemma_record(ls, r);
    lemma_heads();
    let h = "SUMMARY:"@;
    assert(ls[5] == h + escaped(r.summary));
    assert forall|j: int| 0 <= j < ls.len() && begins(#[trigger] ls[j], h) implies j == 5 by {
        lemma_which(ls, r, j);
        assert(h[0] == 'S');
    }
}

proof fn lemma_record_location(ls: Seq<Seq<char>>, r: Record)
    requires
        is_record(ls, r),
    ensures
        says_text(ls, "LOCATION:"@, r.location),
{
    lemma_record(ls, r);
    lemma_heads();
    let h = "LOCATION:"@;
    let la = text_line("LOCATION"@, r.location).len() as int;
    assert forall|j: int| 0 <= j < ls.len() && begins(#[trigger] ls[j], h) implies j == 6 && la
        > 0 by {
        lemma_which(ls, r, j);
        assert(h[0] == 'L');
    }
    if la > 0 {
        assert(ls[6] == h + escaped(r.location->0));
    }
}

proof fn lemma_record_description(ls: Seq<Seq<char>>, r: Record)
    requires
        is_record(ls, r),
    ensures
        says_text(ls, "DESCRIPTION:"@, r.description),
{
    lemma_record(ls, r);
    lemma_heads();
    let h = "DESCRIPTION:"@;
    let la = text_line("LOCATION"@, r.location).len() as int;
    let lb = text_line("DESCRIPTION"@, r.description).len() as int;
    assert forall|j: int| 0 <= j < ls.len() && begins(#[trigger] ls[j], h) implies j == 6 + la
        && lb > 0 by {
        lemma_which(ls, r, j);
        assert(h[0] == 'D' && h[1] == 'E');
    }
    if lb > 0 {
        assert(ls[6 + la] == h + escaped(r.description->0));
    }
}

/// A new event fails only for a time that cannot be read, and says which one.
pub proof fn law_new_event_needs_its_times(
    now: int,
    uid: Seq<char>,
    start: Seq<char>,
    all_day: bool,
    end: Option<Seq<char>>,
    summary: Seq<char>,
    location: Option<Seq<char>>,
    description: Option<Seq<char>>,
)
    ensures
        ({
            let r = new_vevent(now, uid, start, all_day, end, summary, location, description);
            &&& r is Err <==> parsed(start) is None || (end is Some && parsed(end->0) is None)
            &&& parsed(start) is None ==> r == Err::<Seq<char>, Seq<char>>(
                "not an ISO 8601 date or time: "@ + start,
            )
            &&& parsed(start) is Some && r is Err ==> r == Err::<Seq<char>, Seq<char>>(
                "not an ISO 8601 date or time: "@ + end->0,
            )
        }),
{
}

/// A line of a text, with its line end.
pub open spec fn ended(line: Seq<char>) -> Seq<char> {
    line + seq!['\r', '\n']
}

/// A line with a text, if there is one that is not empty.
pub open spec fn ended_text(head: Seq<char>, text: Option<Seq<char>>) -> Seq<char> {
    if text is Some && (text->0).len() > 0 {
        ended(head + escaped(text->0))
    } else {
        seq![]
    }
}

/// A line with a time: the date alone for an all-day event.
pub open spec fn ended_time(
    timed: Seq<char>,
    dated: Seq<char>,
    secs: int,
    all_day: bool,
) -> Seq<char> {
    if all_day {
        ended(dated + date_stamp(secs))
    } else {
        ended(timed + time_stamp(secs))
    }
}

proof fn lemma_ended_add(a: Seq<Seq<char>>, b: Seq<Seq<char>>)
    ensures
        crlf_text(a + b) == crlf_text(a) + crlf_text(b),
    decreases a.len(),
{
    if a.len() == 0 {
        assert(a + b =~= b);
        assert(crlf_text(a) + crlf_text(b) =~= crlf_text(b));
    } else {
        lemma_ended_add(a.drop_first(), b);
        assert((a + b).drop_first() =~= a.drop_first() + b);
        assert((a + b)[0] == a[0]);
        assert(crlf_text(a + b) =~= crlf_text(a) + crlf_text(b));
    }
}

proof fn lemma_ended_one(line: Seq<char>)
    ensures
        crlf_text(seq![line]) == ended(line),
{
    let one = seq![line];
    assert(one.drop_first() =~= Seq::<Seq<char>>::empty());
    reveal_with_fuel(crlf_text, 2);
    assert(crlf_text(one) =~= ended(line));
}

proof fn lemma_ended_text(name: Seq<char>, text: Option<Seq<char>>)
    ensures
        crlf_text(text_line(name, text)) == ended_text(name + seq![':'], text),
{
    if text is Some && (text->0).len() > 0 {
        lemma_ended_one(prop_line(name, escaped(text->0)));
    } else {
        assert(text_line(name, text) =~= Seq::<Seq<char>>::empty());
    }
}

/// A new event is written line by line, each line with a carriage return and a line feed
/// at its end, the last one too.
pub proof fn law_new_event_is_written_line_by_line(
    now: int,
    uid: Seq<char>,
    start: Seq<char>,
    all_day: bool,
    end: Option<Seq<char>>,
    summary: Seq<char>,
    location: Option<Seq<char>>,
    description: Option<Seq<char>>,
)
    requires
        parsed(start) is Some,
        end is Some ==> parsed(end->0) is Some,
    ensures
        ({
            let from = (parsed(start)->0).0;
            let to = ends_at(from, all_day, end);
            new_vevent(now, uid, start, all_day, end, summary, location, description) == Ok::<
                Seq<char>,
                Seq<char>,
            >(
                ended("BEGIN:VEVENT"@) + ended("UID:"@ + uid) + ended("DTSTAMP:"@ + time_stamp(now))
                    + ended_time("DTSTART:"@, "DTSTART;VALUE=DATE:"@, from, all_day) + ended_time(
                    "DTEND:"@,
                    "DTEND;VALUE=DATE:"@,
                    to,
                    all_day,
                ) + ended("SUMMARY:"@ + escaped(summary)) + ended_text("LOCATION:"@, location)
                    + ended_text("DESCRIPTION:"@, description) + ended("END:VEVENT"@),
            )
        }),
{
    let from = (parsed(start)->0).0;
    let to = ends_at(from, all_day, end);
    let asked = match end {
        Some(e) => Some((parsed(e)->0).0),
        None => None,
    };
    lemma_heads();
    let begin = seq!["BEGIN:VEVENT"@];
    let l1 = prop_line("UID"@, uid);
    let l2 = prop_line("DTSTAMP"@, time_stamp(now));
    let l3 = time_line("DTSTART"@, from, all_day);
    let l4 = time_line("DTEND"@, to, all_day);
    let l5 = prop_line("SUMMARY"@, escaped(summary));
    let a = text_line("LOCATION"@, location);
    let b = text_line("DESCRIPTION"@, description);
    let last = seq!["END:VEVENT"@];
    let body = event_body(now, uid, from, all_day, asked, summary, location, description);
    let all = begin + body + last;
    let parts = begin + seq![l1] + seq![l2] + seq![l3] + seq![l4] + seq![l5] + a + b + last;
    assert(all =~= parts);
    lemma_ended_add(begin, seq![l1]);
    lemma_ended_add(begin + seq![l1], seq![l2]);
    lemma_ended_add(begin + seq![l1] + seq![l2], seq![l3]);
    lemma_ended_add(begin + seq![l1] + seq![l2] + seq![l3], seq![l4]);
    lemma_ended_add(begin + seq![l1] + seq![l2] + seq![l3] + seq![l4], seq![l5]);
    let five = begin + seq![l1] + seq![l2] + seq![l3] + seq![l4] + seq![l5];
    lemma_ended_add(five, a);
    lemma_ended_add(five + a, b);
    lemma_ended_add(five + a + b, last);
    lemma_ended_one("BEGIN:VEVENT"@);
    lemma_ended_one(l1);
    lemma_ended_one(l2);
    lemma_ended_one(l3);
    lemma_ended_one(l4);
    lemma_ended_one(l5);
    lemma_ended_text("LOCATION"@, location);
    lemma_ended_text("DESCRIPTION"@, description);
    lemma_ended_one("END:VEVENT"@);
}

/// A text that is written for a property says the text, but for carriage returns,
/// which have no place in it.
pub proof fn law_written_text_says_the_text(text: Seq<char>)
    ensures
        unescaped(escaped(text)) == text.filter(|c: char| c != '\r'),
    decreases text.len(),
{
    law_escaping_is_undone(text);
    lemma_without_returns(text);
}

proof fn lemma_without_returns(s: Seq<char>)
    ensures
        crate::ical_laws::without_returns(s) == s.filter(|c: char| c != '\r'),
    decreases s.len(),
{
    let keep = |c: char| c != '\r';
    if s.len() == 0 {
        reveal(Seq::filter);
        assert(crate::ical_laws::without_returns(s) =~= s.filter(keep));
    } else {
        let rest = s.skip(1);
        lemma_without_returns(rest);
        assert(s =~= seq![s[0]] + rest);
        Seq::filter_distributes_over_add(seq![s[0]], rest, keep);
        assert(seq![s[0]].filter(keep) =~= if s[0] == '\r' {
            seq![]
        } else {
            seq![s[0]]
        }) by {
            reveal(Seq::filter);
            assert(seq![s[0]].drop_last() =~= Seq::<char>::empty());
            reveal_with_fuel(Seq::filter, 2);
        }
        assert(Seq::<char>::empty() + rest.filter(keep) =~= rest.filter(keep));
    }
}

// ---------------------------------------------------------------------------
// Changed events
// ---------------------------------------------------------------------------

/// Whether a line is for a property: its name stands in front, in any case, with
/// nothing, a colon or a semicolon behind it.
pub open spec fn is_about(line: Seq<char>, name: Seq<char>) -> bool {
    &&& name.len() <= line.len()
    &&& upper(line.take(name.len() as int)) == name
    &&& name.len() < line.len() ==> line[name.len() as int] == ':' || line[name.len() as int] == ';'
}

/// Whether a line is for one of the fields that are given.
pub open spec fn is_touched(line: Seq<char>, c: ChangeData) -> bool {
    ||| c.summary is Some && is_about(line, "SUMMARY"@)
    ||| c.start is Some && is_about(line, "DTSTART"@)
    ||| c.end is Some && is_about(line, "DTEND"@)
    ||| c.location is Some && is_about(line, "LOCATION"@)
    ||| c.description is Some && is_about(line, "DESCRIPTION"@)
}

/// The lines that are for none of the fields that are given.
pub open spec fn untouched(ls: Seq<Seq<char>>, c: ChangeData) -> Seq<Seq<char>> {
    ls.filter(|l: Seq<char>| !is_touched(l, c))
}

/// The line for a text that is given.
pub open spec fn new_text(head: Seq<char>, text: Option<Seq<char>>) -> Seq<Seq<char>> {
    match text {
        Some(t) => seq![head + escaped(t)],
        None => seq![],
    }
}

/// The line for a time that is given: a date without a time of day is written as a
/// date.
pub open spec fn new_time(timed: Seq<char>, dated: Seq<char>, iso: Option<Seq<char>>) -> Seq<
    Seq<char>,
> {
    match iso {
        Some(t) => if (parsed(t)->0).1 {
            seq![timed + time_stamp((parsed(t)->0).0)]
        } else {
            seq![dated + date_stamp((parsed(t)->0).0)]
        },
        None => seq![],
    }
}

/// The lines for the fields that are given.
pub open spec fn new_lines(c: ChangeData) -> Seq<Seq<char>> {
    new_text("SUMMARY:"@, c.summary) + new_time("DTSTART:"@, "DTSTART;VALUE=DATE:"@, c.start)
        + new_time("DTEND:"@, "DTEND;VALUE=DATE:"@, c.end) + new_text("LOCATION:"@, c.location)
        + new_text("DESCRIPTION:"@, c.description)
}

/// Whether a position is that of the first line that closes an event, or behind all
/// lines if none does.
pub open spec fn is_before_the_end(ls: Seq<Seq<char>>, n: int) -> bool {
    &&& 0 <= n <= ls.len()
    &&& n < ls.len() ==> is_end(ls[n])
    &&& forall|i: int| 0 <= i < n ==> !is_end(#[trigger] ls[i])
}

proof fn lemma_about(line: Seq<char>, name: Seq<char>)
    requires
        is_plain(name),
    ensures
        is_about(line, name) == (line_name(line) == name),
{
    let k = name_len(line);
    lemma_index_of(line, ';');
    lemma_index_of(line, ':');
    let n = name.len() as int;
    if line_name(line) == name {
        assert(upper(line.take(k)).len() == k);
        assert(k == n);
        assert(is_about(line, name));
    }
    if is_about(line, name) {
        let head = line.take(n);
        assert forall|i: int| 0 <= i < n implies line[i] != ';' && line[i] != ':' by {
            assert(upper(head)[i] == upper_char(head[i]));
            assert(65 <= name[i] as int <= 90);
        }
        assert(k == n);
    }
}

/// The lines with the properties of the given fields taken out one after another.
spec fn peeled(ls: Seq<Seq<char>>, c: ChangeData) -> Seq<Seq<char>> {
    let l1 = if c.summary is Some {
        without_property(ls, "SUMMARY"@)
    } else {
        ls
    };
    let l2 = if c.start is Some {
        without_property(l1, "DTSTART"@)
    } else {
        l1
    };
    let l3 = if c.end is Some {
        without_property(l2, "DTEND"@)
    } else {
        l2
    };
    let l4 = if c.location is Some {
        without_property(l3, "LOCATION"@)
    } else {
        l3
    };
    if c.description is Some {
        without_property(l4, "DESCRIPTION"@)
    } else {
        l4
    }
}

proof fn lemma_without_push(ls: Seq<Seq<char>>, line: Seq<char>, name: Seq<char>)
    ensures
        without_property(ls.push(line), name) == if line_name(line) == name {
            without_property(ls, name)
        } else {
            without_property(ls, name).push(line)
        },
{
    assert(ls.push(line).drop_last() =~= ls);
}

proof fn lemma_peeled_push(ls: Seq<Seq<char>>, line: Seq<char>, c: ChangeData)
    ensures
        peeled(ls.push(line), c) == if is_touched(line, c) {
            peeled(ls, c)
        } else {
            peeled(ls, c).push(line)
        },
{
    lemma_plain_names();
    lemma_about(line, "SUMMARY"@);
    lemma_about(line, "DTSTART"@);
    lemma_about(line, "DTEND"@);
    lemma_about(line, "LOCATION"@);
    lemma_about(line, "DESCRIPTION"@);
    let l1 = if c.summary is Some {
        without_property(ls, "SUMMARY"@)
    } else {
        ls
    };
    let l2 = if c.start is Some {
        without_property(l1, "DTSTART"@)
    } else {
        l1
    };
    let l3 = if c.end is Some {
        without_property(l2, "DTEND"@)
    } else {
        l2
    };
    let l4 = if c.location is Some {
        without_property(l3, "LOCATION"@)
    } else {
        l3
    };
    lemma_without_push(ls, line, "SUMMARY"@);
    lemma_without_push(l1, line, "DTSTART"@);
    lemma_without_push(l2, line, "DTEND"@);
    lemma_without_push(l3, line, "LOCATION"@);
    lemma_without_push(l4, line, "DESCRIPTION"@);
}

proof fn lemma_peeled(ls: Seq<Seq<char>>, c: ChangeData)
    ensures
        peeled(ls, c) == untouched(ls, c),
    decreases ls.len(),
{
    let keep = |l: Seq<char>| !is_touched(l, c);
    reveal(Seq::filter);
    if ls.len() == 0 {
        assert(peeled(ls, c) =~= ls);
        assert(untouched(ls, c) =~= ls);
    } else {
        let before = ls.drop_last();
        lemma_peeled(before, c);
        lemma_peeled_push(before, ls.last(), c);
        assert(before.push(ls.last()) =~= ls);
    }
}

/// Whether lines are made of older ones, with new ones right before the end.
spec fn is_made_of(ls: Seq<Seq<char>>, older: Seq<Seq<char>>, new: Seq<Seq<char>>) -> bool {
    let n = end_index(older);
    &&& ls == older.take(n) + new + older.skip(n)
    &&& forall|i: int| 0 <= i < new.len() ==> !is_end(#[trigger] new[i])
}

/// Setting one more property.
proof fn lemma_set_one(
    ls: Seq<Seq<char>>,
    older: Seq<Seq<char>>,
    new: Seq<Seq<char>>,
    name: Seq<char>,
    line: Seq<char>,
)
    requires
        is_made_of(ls, older, new),
        is_plain(name),
        name[0] != 'B',
        name[0] != 'E',
        !is_end(line),
        forall|i: int| 0 <= i < new.len() ==> line_name(#[trigger] new[i]) != name,
    ensures
        is_made_of(
            with_property(ls, name, Some(line)),
            without_property(older, name),
            new.push(line),
        ),
{
    let n = end_index(older);
    lemma_end_index_bounds(older);
    let a = older.take(n);
    let b = older.skip(n);
    assert(a + b =~= older);
    lemma_without_add(a, b, name);
    lemma_without_add(a + new, b, name);
    lemma_without_add(a, new, name);
    lemma_keeps(new, name);
    let wa = without_property(a, name);
    let wb = without_property(b, name);
    let kept = without_property(ls, name);
    assert(kept == wa + new + wb);
    lemma_keeps_no_end(a, name);
    if b.len() > 0 {
        assert(is_end(b[0]));
        lemma_bracket_name(b[0], name);
        lemma_keeps_first(b, name);
    } else {
        assert(wb =~= b);
    }
    let m = wa.len() as int;
    assert forall|j: int| 0 <= j < m implies !is_end(#[trigger] (wa + wb)[j]) by {
        assert((wa + wb)[j] == wa[j]);
    }
    lemma_end_index(wa + wb, m);
    let k = m + new.len();
    assert forall|j: int| 0 <= j < k implies !is_end(#[trigger] kept[j]) by {
        if j < m {
            assert(kept[j] == wa[j]);
        } else {
            assert(kept[j] == new[j - m]);
        }
    }
    assert(k < kept.len() ==> kept[k] == wb[0]);
    lemma_end_index(kept, k);
    let older2 = without_property(older, name);
    assert(older2 == wa + wb);
    assert(older2.take(m) =~= wa);
    assert(older2.skip(m) =~= wb);
    assert(kept.insert(k, line) =~= wa + new.push(line) + wb);
    assert forall|i: int| 0 <= i < new.push(line).len() implies !is_end(
        #[trigger] new.push(line)[i],
    ) by {
        if i < new.len() {
            assert(new.push(line)[i] == new[i]);
        }
    }
}

proof fn lemma_keeps(ls: Seq<Seq<char>>, name: Seq<char>)
    requires
        forall|i: int| 0 <= i < ls.len() ==> line_name(#[trigger] ls[i]) != name,
    ensures
        without_property(ls, name) == ls,
    decreases ls.len(),
{
    if ls.len() > 0 {
        let before = ls.drop_last();
        assert forall|i: int| 0 <= i < before.len() implies line_name(#[trigger] before[i])
            != name by {
            assert(before[i] == ls[i]);
        }
        lemma_keeps(before, name);
        assert(line_name(ls[ls.len() - 1]) != name);
        assert(before.push(ls.last()) =~= ls);
    } else {
        assert(without_property(ls, name) =~= ls);
    }
}

proof fn lemma_keeps_no_end(ls: Seq<Seq<char>>, name: Seq<char>)
    requires
        forall|i: int| 0 <= i < ls.len() ==> !is_end(#[trigger] ls[i]),
    ensures
        forall|i: int|
            0 <= i < without_property(ls, name).len() ==> !is_end(
                #[trigger] without_property(ls, name)[i],
            ),
    decreases ls.len(),
{
    if ls.len() > 0 {
        let before = ls.drop_last();
        assert forall|i: int| 0 <= i < before.len() implies !is_end(#[trigger] before[i]) by {
            assert(before[i] == ls[i]);
        }
        lemma_keeps_no_end(before, name);
        assert(!is_end(ls[ls.len() - 1]));
        let some = without_property(before, name);
        let kept = without_property(ls, name);
        assert forall|i: int| 0 <= i < kept.len() implies !is_end(#[trigger] kept[i]) by {
            if i < some.len() {
                assert(kept[i] == some[i]);
            }
        }
    }
}

proof fn lemma_keeps_first(ls: Seq<Seq<char>>, name: Seq<char>)
    requires
        ls.len() > 0,
        line_name(ls[0]) != name,
    ensures
        without_property(ls, name).len() > 0,
        without_property(ls, name)[0] == ls[0],
    decreases ls.len(),
{
    let before = ls.drop_last();
    if before.len() > 0 {
        lemma_keeps_first(before, name);
    } else {
        assert(without_property(before, name) =~= Seq::<Seq<char>>::empty());
    }
}

/// A line of a plain name is for that name, and closes no event.
proof fn lemma_new_text_line(name: Seq<char>, text: Seq<char>)
    requires
        is_plain(name),
        name[0] != 'B',
        name[0] != 'E',
    ensures
        line_name(prop_line(name, escaped(text))) == name,
        !is_end(prop_line(name, escaped(text))),
{
    lemma_text_line(name, text);
    let line = prop_line(name, escaped(text));
    assert(line.take(name.len() as int) =~= name);
    lemma_upper_plain(name);
    lemma_about(line, name);
}

proof fn lemma_new_time_line(name: Seq<char>, secs: int, dated: bool)
    requires
        is_plain(name),
        name[0] != 'B',
        name[0] != 'E',
    ensures
        line_name(time_line(name, secs, dated)) == name,
        !is_end(time_line(name, secs, dated)),
{
    reveal_strlit(";VALUE=DATE");
    lemma_time_line(name, secs, dated);
    let line = time_line(name, secs, dated);
    assert(line.take(name.len() as int) =~= name);
    lemma_upper_plain(name);
    lemma_about(line, name);
}

proof fn lemma_upper_plain(name: Seq<char>)
    requires
        is_plain(name),
    ensures
        upper(name) == name,
{
    assert forall|i: int| 0 <= i < name.len() implies upper(name)[i] == name[i] by {
        assert(65 <= name[i] as int <= 90);
    }
    assert(upper(name) =~= name);
}

proof fn lemma_names_differ()
    ensures
        "SUMMARY"@ != "DTSTART"@,
        "SUMMARY"@ != "DTEND"@,
        "SUMMARY"@ != "LOCATION"@,
        "SUMMARY"@ != "DESCRIPTION"@,
        "DTSTART"@ != "DTEND"@,
        "DTSTART"@ != "LOCATION"@,
        "DTSTART"@ != "DESCRIPTION"@,
        "DTEND"@ != "LOCATION"@,
        "DTEND"@ != "DESCRIPTION"@,
        "LOCATION"@ != "DESCRIPTION"@,
{
    reveal_strlit("SUMMARY");
    reveal_strlit("DTSTART");
    reveal_strlit("DTEND");
    reveal_strlit("LOCATION");
    reveal_strlit("DESCRIPTION");
    assert("SUMMARY"@[0] == 'S' && "DTSTART"@[0] == 'D' && "LOCATION"@[0] == 'L');
    assert("SUMMARY"@.len() == 7 && "DTSTART"@.len() == 7 && "DTEND"@.len() == 5);
    assert("LOCATION"@.len() == 8 && "DESCRIPTION"@.len() == 11);
}

/// Changing an event changes the given fields and nothing else: every line that is
/// for none of them stays, in its order; those that are for one of them go; and one
/// new line for each of them stands right before the end of the event. No other
/// line comes in.
#[verifier::rlimit(60)]
#[verifier::spinoff_prover]
pub proof fn law_change_touches_only_given_fields(existing: Seq<char>, c: ChangeData)
    requires
        c.start is Some ==> parsed(c.start->0) is Some,
        c.end is Some ==> parsed(c.end->0) is Some,
    ensures
        ({
            let kept = untouched(logical_lines(existing), c);
            exists|n: int| #[trigger]
                is_before_the_end(kept, n) && modified(existing, c) == Ok::<Seq<char>, Seq<char>>(
                    join(kept.take(n) + new_lines(c) + kept.skip(n), seq!['\r', '\n']),
                )
        }),
{
    lemma_plain_names();
    lemma_names_differ();
    lemma_heads();
    reveal_strlit("\r\n");
    assert("\r\n"@ =~= seq!['\r', '\n']);
    let ls = logical_lines(existing);
    let none = Seq::<Seq<char>>::empty();
    lemma_end_index_bounds(ls);
    assert(ls =~= ls.take(end_index(ls)) + none + ls.skip(end_index(ls)));
    assert(is_made_of(ls, ls, none));
    let w1 = if c.summary is Some {
        without_property(ls, "SUMMARY"@)
    } else {
        ls
    };
    let w2 = if c.start is Some {
        without_property(w1, "DTSTART"@)
    } else {
        w1
    };
    let w3 = if c.end is Some {
        without_property(w2, "DTEND"@)
    } else {
        w2
    };
    let w4 = if c.location is Some {
        without_property(w3, "LOCATION"@)
    } else {
        w3
    };
    let w5 = if c.description is Some {
        without_property(w4, "DESCRIPTION"@)
    } else {
        w4
    };
    let t1 = new_text("SUMMARY:"@, c.summary);
    let t2 = new_time("DTSTART:"@, "DTSTART;VALUE=DATE:"@, c.start);
    let t3 = new_time("DTEND:"@, "DTEND;VALUE=DATE:"@, c.end);
    let t4 = new_text("LOCATION:"@, c.location);
    let t5 = new_text("DESCRIPTION:"@, c.description);
    // The summary.
    let l1 = with_text(ls, "SUMMARY"@, c.summary);
    if c.summary is Some {
        let line = prop_line("SUMMARY"@, escaped(c.summary->0));
        lemma_new_text_line("SUMMARY"@, c.summary->0);
        lemma_set_one(ls, ls, none, "SUMMARY"@, line);
        assert(none.push(line) =~= t1);
    }
    assert(is_made_of(l1, w1, t1));
    // The start.
    let l2 = with_time(l1, "DTSTART"@, c.start)->Ok_0;
    let n2 = t1 + t2;
    if c.start is Some {
        let (secs, timed) = parsed(c.start->0)->0;
        let line = time_line("DTSTART"@, secs, !timed);
        lemma_new_time_line("DTSTART"@, secs, !timed);
        lemma_set_one(l1, w1, t1, "DTSTART"@, line);
        assert(t1.push(line) =~= n2);
    } else {
        assert(n2 =~= t1);
    }
    assert(is_made_of(l2, w2, n2));
    // The end.
    let l3 = with_time(l2, "DTEND"@, c.end)->Ok_0;
    let n3 = n2 + t3;
    if c.end is Some {
        let (secs, timed) = parsed(c.end->0)->0;
        let line = time_line("DTEND"@, secs, !timed);
        lemma_new_time_line("DTEND"@, secs, !timed);
        lemma_set_one(l2, w2, n2, "DTEND"@, line);
        assert(n2.push(line) =~= n3);
    } else {
        assert(n3 =~= n2);
    }
    assert(is_made_of(l3, w3, n3));
    // The location.
    let l4 = with_text(l3, "LOCATION"@, c.location);
    let n4 = n3 + t4;
    if c.location is Some {
        let line = prop_line("LOCATION"@, escaped(c.location->0));
        lemma_new_text_line("LOCATION"@, c.location->0);
        lemma_set_one(l3, w3, n3, "LOCATION"@, line);
        assert(n3.push(line) =~= n4);
    } else {
        assert(n4 =~= n3);
    }
    assert(is_made_of(l4, w4, n4));
    // The description.
    let l5 = with_text(l4, "DESCRIPTION"@, c.description);
    let n5 = n4 + t5;
    if c.description is Some {
        let line = prop_line("DESCRIPTION"@, escaped(c.description->0));
        lemma_new_text_line("DESCRIPTION"@, c.description->0);
        lemma_set_one(l4, w4, n4, "DESCRIPTION"@, line);
        assert(n4.push(line) =~= n5);
    } else {
        assert(n5 =~= n4);
    }
    assert(is_made_of(l5, w5, n5));
    assert(w5 == peeled(ls, c));
    lemma_peeled(ls, c);
    lemma_end_index_bounds(w5);
    assert(modified_lines(ls, c) == Ok::<Seq<Seq<char>>, Seq<char>>(l5));
    assert(n5 =~= new_lines(c));
    let n = end_index(w5);
    assert(is_before_the_end(untouched(ls, c), n));
}

/// A change fails only for a time that cannot be read, the start before the end, and
/// says which one.
pub proof fn law_change_needs_its_times(existing: Seq<char>, c: ChangeData)
    ensures
        modified(existing, c) is Err <==> (c.start is Some && parsed(c.start->0) is None) || (c.end
            is Some && parsed(c.end->0) is None),
        c.start is Some && parsed(c.start->0) is None ==> modified(existing, c) == Err::<
            Seq<char>,
            Seq<char>,
        >("not an ISO 8601 date or time: "@ + c.start->0),
        (c.start is None || parsed(c.start->0) is Some) && c.end is Some && parsed(c.end->0) is None
            ==> modified(existing, c) == Err::<Seq<char>, Seq<char>>(
            "not an ISO 8601 date or time: "@ + c.end->0,
        ),
{
}

} // verus!
