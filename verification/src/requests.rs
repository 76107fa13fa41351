//! What the model asks of the calendars, and what it is told of the outcome.

use crate::ascii::{decimal, is_digit, lemma_decimal, lemma_decimal_injective, push_decimal};
use crate::datetime::{iso_error, parse_iso, parsed};
use crate::ical::{
    build_vevent, dt_property, escape, escaped, event_body, events_of, iso_line, logical_lines,
    new_vevent, prop_line, property, set_property, sort_key_of, text_line, text_result, time_line,
    unfold, with_field, with_property, EventFields, Property,
};
use crate::ical_changes::{
    law_one_event_is_read, law_written_event_is_one, lemma_set_line,
    lemma_joined_event_is_read_back, reads,
};
use crate::ical_laws::{
    is_plain, lemma_distinct_names, lemma_fixed_fields, lemma_plain_names, lemma_text_line,
    lemma_texts, lemma_time_line, read_back, without_returns, written_time,
};
use crate::json::{json_parse, str_at, text_at, Json};
use crate::split::{join, join_strings};
use crate::text::{opt_str, opt_view, views};
use crate::tools::read_arguments;
use vstd::prelude::*;

verus! {

// ---------------------------------------------------------------------------
// Arguments
// ---------------------------------------------------------------------------

/// Arguments of `calendar_list_events`.
pub struct ListArgs {
    pub start: Option<String>,
    pub end: Option<String>,
    pub calendar: Option<String>,
}

/// Arguments of `calendar_create_event`.
pub struct CreateArgs {
    pub summary: Option<String>,
    pub start: Option<String>,
    pub end: Option<String>,
    pub location: Option<String>,
    pub description: Option<String>,
    pub calendar: Option<String>,
}

/// Arguments of `calendar_modify_event`.
pub struct ModifyArgs {
    pub uid: Option<String>,
    pub summary: Option<String>,
    pub start: Option<String>,
    pub end: Option<String>,
    pub location: Option<String>,
    pub description: Option<String>,
}

/// What is asked of `calendar_list_events`.
pub struct ListData {
    pub start: Option<Seq<char>>,
    pub end: Option<Seq<char>>,
    pub calendar: Option<Seq<char>>,
}

/// What is asked of `calendar_create_event`.
pub struct CreateData {
    pub summary: Option<Seq<char>>,
    pub start: Option<Seq<char>>,
    pub end: Option<Seq<char>>,
    pub location: Option<Seq<char>>,
    pub description: Option<Seq<char>>,
    pub calendar: Option<Seq<char>>,
}

impl View for ListArgs {
    type V = ListData;

    open spec fn view(&self) -> ListData {
        ListData {
            start: opt_view(self.start),
            end: opt_view(self.end),
            calendar: opt_view(self.calendar),
        }
    }
}

impl View for CreateArgs {
    type V = CreateData;

    open spec fn view(&self) -> CreateData {
        CreateData {
            summary: opt_view(self.summary),
            start: opt_view(self.start),
            end: opt_view(self.end),
            location: opt_view(self.location),
            description: opt_view(self.description),
            calendar: opt_view(self.calendar),
        }
    }
}

/// What the arguments of `calendar_list_events` ask.
pub open spec fn list_asked(t: Json) -> ListData {
    ListData {
        start: text_at(t, "start"@),
        end: text_at(t, "end"@),
        calendar: text_at(t, "calendar"@),
    }
}

/// What the arguments of `calendar_create_event` ask.
pub open spec fn create_asked(t: Json) -> CreateData {
    CreateData {
        summary: text_at(t, "summary"@),
        start: text_at(t, "start"@),
        end: text_at(t, "end"@),
        location: text_at(t, "location"@),
        description: text_at(t, "description"@),
        calendar: text_at(t, "calendar"@),
    }
}

/// What the arguments of `calendar_modify_event` ask to change.
pub open spec fn modify_asked(t: Json) -> ChangeData {
    ChangeData {
        summary: text_at(t, "summary"@),
        start: text_at(t, "start"@),
        end: text_at(t, "end"@),
        location: text_at(t, "location"@),
        description: text_at(t, "description"@),
    }
}

/// The uid of the event that the arguments of `calendar_modify_event` or
/// `calendar_delete_event` name.
pub open spec fn uid_asked(t: Json) -> Option<Seq<char>> {
    text_at(t, "uid"@)
}

/// Read the arguments of `calendar_list_events`.
pub fn list_args(arguments: &str) -> (r: Result<ListArgs, String>)
    ensures
        match (json_parse(arguments@), r) {
            (Ok(t), Ok(a)) => {
                &&& opt_view(a.start) == text_at(t, "start"@)
                &&& opt_view(a.end) == text_at(t, "end"@)
                &&& opt_view(a.calendar) == text_at(t, "calendar"@)
                &&& a@ == list_asked(t)
            },
            (Err(e), Err(m)) => m@ == "malformed arguments: "@ + e,
            _ => false,
        },
{
    match read_arguments(arguments) {
        Ok(v) => Ok(
            ListArgs {
                start: str_at(Some(&v), "start"),
                end: str_at(Some(&v), "end"),
                calendar: str_at(Some(&v), "calendar"),
            },
        ),
        Err(e) => Err(e),
    }
}

/// Read the arguments of `calendar_create_event`.
pub fn create_args(arguments: &str) -> (r: Result<CreateArgs, String>)
    ensures
        match (json_parse(arguments@), r) {
            (Ok(t), Ok(a)) => {
                &&& opt_view(a.summary) == text_at(t, "summary"@)
                &&& opt_view(a.start) == text_at(t, "start"@)
                &&& opt_view(a.end) == text_at(t, "end"@)
                &&& opt_view(a.location) == text_at(t, "location"@)
                &&& opt_view(a.description) == text_at(t, "description"@)
                &&& opt_view(a.calendar) == text_at(t, "calendar"@)
                &&& a@ == create_asked(t)
            },
            (Err(e), Err(m)) => m@ == "malformed arguments: "@ + e,
            _ => false,
        },
{
    match read_arguments(arguments) {
        Ok(v) => Ok(
            CreateArgs {
                summary: str_at(Some(&v), "summary"),
                start: str_at(Some(&v), "start"),
                end: str_at(Some(&v), "end"),
                location: str_at(Some(&v), "location"),
                description: str_at(Some(&v), "description"),
                calendar: str_at(Some(&v), "calendar"),
            },
        ),
        Err(e) => Err(e),
    }
}

/// Read the arguments of `calendar_modify_event`.
pub fn modify_args(arguments: &str) -> (r: Result<ModifyArgs, String>)
    ensures
        match (json_parse(arguments@), r) {
            (Ok(t), Ok(a)) => {
                &&& opt_view(a.uid) == text_at(t, "uid"@)
                &&& opt_view(a.summary) == text_at(t, "summary"@)
                &&& opt_view(a.start) == text_at(t, "start"@)
                &&& opt_view(a.end) == text_at(t, "end"@)
                &&& opt_view(a.location) == text_at(t, "location"@)
                &&& opt_view(a.description) == text_at(t, "description"@)
                &&& opt_view(a.uid) == uid_asked(t)
                &&& asked_change(a) == modify_asked(t)
            },
            (Err(e), Err(m)) => m@ == "malformed arguments: "@ + e,
            _ => false,
        },
{
    match read_arguments(arguments) {
        Ok(v) => Ok(
            ModifyArgs {
                uid: str_at(Some(&v), "uid"),
                summary: str_at(Some(&v), "summary"),
                start: str_at(Some(&v), "start"),
                end: str_at(Some(&v), "end"),
                location: str_at(Some(&v), "location"),
                description: str_at(Some(&v), "description"),
            },
        ),
        Err(e) => Err(e),
    }
}

/// Read the argument of `calendar_delete_event`: the uid of the event.
pub fn delete_args(arguments: &str) -> (r: Result<Option<String>, String>)
    ensures
        match (json_parse(arguments@), r) {
            (Ok(t), Ok(uid)) => opt_view(uid) == text_at(t, "uid"@) && opt_view(uid) == uid_asked(
                t,
            ),
            (Err(e), Err(m)) => m@ == "malformed arguments: "@ + e,
            _ => false,
        },
{
    match read_arguments(arguments) {
        Ok(v) => Ok(str_at(Some(&v), "uid")),
        Err(e) => Err(e),
    }
}

// ---------------------------------------------------------------------------
// Creating
// ---------------------------------------------------------------------------

/// An event that is to be created. Its start has been read; a start without a
/// time is an all-day event.
pub struct Creation {
    pub summary: String,
    pub start: String,
    pub all_day: bool,
    pub end: Option<String>,
    pub location: Option<String>,
    pub description: Option<String>,
    pub calendar: Option<String>,
}

pub struct CreationData {
    pub summary: Seq<char>,
    pub start: Seq<char>,
    pub all_day: bool,
    pub end: Option<Seq<char>>,
    pub location: Option<Seq<char>>,
    pub description: Option<Seq<char>>,
    pub calendar: Option<Seq<char>>,
}

impl View for Creation {
    type V = CreationData;

    open spec fn view(&self) -> CreationData {
        CreationData {
            summary: self.summary@,
            start: self.start@,
            all_day: self.all_day,
            end: opt_view(self.end),
            location: opt_view(self.location),
            description: opt_view(self.description),
            calendar: opt_view(self.calendar),
        }
    }
}

/// Whether the event is an all-day one, or what is wrong with the arguments.
pub open spec fn create_check(
    summary: Option<Seq<char>>,
    start: Option<Seq<char>>,
) -> Result<bool, Seq<char>> {
    match (summary, start) {
        (None, _) => Err("`summary` must be a string"@),
        (Some(_), None) => Err("`start` must be a string"@),
        (Some(_), Some(s)) => match parsed(s) {
            Some((_, timed)) => Ok(!timed),
            None => Err(iso_error(s)),
        },
    }
}

/// The event that the arguments ask for, or what is wrong with them.
pub open spec fn creation_of(a: CreateData) -> Result<CreationData, Seq<char>> {
    match create_check(a.summary, a.start) {
        Ok(all_day) => Ok(
            CreationData {
                summary: a.summary->0,
                start: a.start->0,
                all_day: all_day,
                end: a.end,
                location: a.location,
                description: a.description,
                calendar: a.calendar,
            },
        ),
        Err(e) => Err(e),
    }
}

/// The text of an event that is to be created.
pub open spec fn creation_text(now: int, uid: Seq<char>, c: CreationData) -> Result<
    Seq<char>,
    Seq<char>,
> {
    new_vevent(now, uid, c.start, c.all_day, c.end, c.summary, c.location, c.description)
}

/// Check the arguments of `calendar_create_event`.
pub fn check_create(args: CreateArgs) -> (r: Result<Creation, String>)
    ensures
        match (r, create_check(opt_view(args.summary), opt_view(args.start))) {
            (Ok(c), Ok(all_day)) => {
                &&& Some(c.summary@) == opt_view(args.summary)
                &&& Some(c.start@) == opt_view(args.start)
                &&& c.all_day == all_day
                &&& opt_view(c.end) == opt_view(args.end)
                &&& opt_view(c.location) == opt_view(args.location)
                &&& opt_view(c.description) == opt_view(args.description)
                &&& opt_view(c.calendar) == opt_view(args.calendar)
            },
            (Err(e), Err(f)) => e@ == f,
            _ => false,
        },
        creation_of(args@) == match r {
            Ok(c) => Ok(c@),
            Err(e) => Err(e@),
        },
{
    let summary = match args.summary {
        Some(s) => s,
        None => {
            return Err("`summary` must be a string".to_owned());
        },
    };
    let start = match args.start {
        Some(s) => s,
        None => {
            return Err("`start` must be a string".to_owned());
        },
    };
    match parse_iso(start.as_str()) {
        Ok((_, has_time)) => Ok(
            Creation {
                summary: summary,
                start: start,
                all_day: !has_time,
                end: args.end,
                location: args.location,
                description: args.description,
                calendar: args.calendar,
            },
        ),
        Err(e) => Err(e),
    }
}

fn borrow_opt<'a>(s: &'a Option<String>) -> (r: Option<&'a str>)
    ensures
        opt_str(r) == opt_view(*s),
{
    match s {
        Some(t) => Some(t.as_str()),
        None => None,
    }
}

impl Creation {
    /// The calendar that the event is meant for, if one is named.
    pub fn named(&self) -> (r: Option<&str>)
        ensures
            opt_str(r) == opt_view(self.calendar),
    {
        borrow_opt(&self.calendar)
    }

    /// The VEVENT to create under the given uid, stamped with the current time.
    pub fn ics(&self, uid: &str) -> (r: Result<String, String>)
        ensures
            exists|now: int|
                0 <= now <= i64::MAX && text_result(r) == #[trigger] new_vevent(
                    now,
                    uid@,
                    self.start@,
                    self.all_day,
                    opt_view(self.end),
                    self.summary@,
                    opt_view(self.location),
                    opt_view(self.description),
                ),
            exists|now: int|
                0 <= now <= i64::MAX && text_result(r) == #[trigger] creation_text(now, uid@, self@),
    {
        let r = build_vevent(
            uid,
            self.start.as_str(),
            self.all_day,
            borrow_opt(&self.end),
            self.summary.as_str(),
            borrow_opt(&self.location),
            borrow_opt(&self.description),
        );
        proof {
            let now = choose|now: int|
                0 <= now <= i64::MAX && text_result(r) == #[trigger] new_vevent(
                    now,
                    uid@,
                    self.start@,
                    self.all_day,
                    opt_view(self.end),
                    self.summary@,
                    opt_view(self.location),
                    opt_view(self.description),
                );
            assert(text_result(r) == creation_text(now, uid@, self@));
        }
        r
    }
}

/// The uid of the `n`th event that a process makes at a time.
pub open spec fn uid_text(now: nat, pid: nat, n: nat) -> Seq<char> {
    "beckon-"@ + decimal(now) + seq!['-'] + decimal(pid) + seq!['-'] + decimal(n) + "@beckon"@
}

/// The uid of the `n`th event that the process `pid` makes at the time `now`.
pub fn event_uid(now: u64, pid: u32, n: u64) -> (r: String)
    ensures
        r@ == uid_text(now as nat, pid as nat, n as nat),
{
    let mut out = "beckon-".to_owned();
    push_decimal(&mut out, now);
    out.push('-');
    push_decimal(&mut out, pid as u64);
    out.push('-');
    push_decimal(&mut out, n);
    out.append("@beckon");
    assert(out@ =~= uid_text(now as nat, pid as nat, n as nat));
    out
}

/// What the model is told of a new event.
pub open spec fn created_text(summary: Seq<char>, calendar: Seq<char>, uid: Seq<char>) -> Seq<char> {
    "Created \""@ + summary + "\" in "@ + calendar + " (uid: "@ + uid + ")."@
}

/// What the model is told of a new event.
pub fn created_message(summary: &str, calendar: &str, uid: &str) -> (r: String)
    ensures
        r@ == "Created \""@ + summary@ + "\" in "@ + calendar@ + " (uid: "@ + uid@ + ")."@,
        r@ == created_text(summary@, calendar@, uid@),
{
    let mut out = "Created \"".to_owned();
    out.append(summary);
    out.append("\" in ");
    out.append(calendar);
    out.append(" (uid: ");
    out.append(uid);
    out.append(").");
    out
}

// ---------------------------------------------------------------------------
// Changing
// ---------------------------------------------------------------------------

/// What is to be changed of an event.
pub struct Modification {
    pub uid: String,
    pub summary: Option<String>,
    pub start: Option<String>,
    pub end: Option<String>,
    pub location: Option<String>,
    pub description: Option<String>,
}

pub struct ChangeData {
    pub summary: Option<Seq<char>>,
    pub start: Option<Seq<char>>,
    pub end: Option<Seq<char>>,
    pub location: Option<Seq<char>>,
    pub description: Option<Seq<char>>,
}

impl Modification {
    /// The fields that are to be changed.
    pub open spec fn change(&self) -> ChangeData {
        ChangeData {
            summary: opt_view(self.summary),
            start: opt_view(self.start),
            end: opt_view(self.end),
            location: opt_view(self.location),
            description: opt_view(self.description),
        }
    }
}

/// The fields that the arguments ask to change.
pub open spec fn asked_change(args: ModifyArgs) -> ChangeData {
    ChangeData {
        summary: opt_view(args.summary),
        start: opt_view(args.start),
        end: opt_view(args.end),
        location: opt_view(args.location),
        description: opt_view(args.description),
    }
}

/// Whether nothing is to be changed.
pub open spec fn is_nothing(c: ChangeData) -> bool {
    c.summary is None && c.start is None && c.end is None && c.location is None && c.description
        is None
}

/// What is wrong with the arguments of a change, if anything is.
pub open spec fn modify_error(uid: Option<Seq<char>>, c: ChangeData) -> Option<Seq<char>> {
    if uid is None {
        Some("`uid` must be a string"@)
    } else if is_nothing(c) {
        Some("nothing to modify: provide at least one field to change"@)
    } else {
        None
    }
}

/// Check the arguments of `calendar_modify_event`.
pub fn check_modify(args: ModifyArgs) -> (r: Result<Modification, String>)
    ensures
        match (r, modify_error(opt_view(args.uid), asked_change(args))) {
            (Ok(m), None) => Some(m.uid@) == opt_view(args.uid) && m.change() == asked_change(args),
            (Err(e), Some(f)) => e@ == f,
            _ => false,
        },
{
    let uid = match args.uid {
        Some(u) => u,
        None => {
            return Err("`uid` must be a string".to_owned());
        },
    };
    if args.summary.is_none() && args.start.is_none() && args.end.is_none()
        && args.location.is_none() && args.description.is_none() {
        return Err("nothing to modify: provide at least one field to change".to_owned());
    }
    Ok(
        Modification {
            uid: uid,
            summary: args.summary,
            start: args.start,
            end: args.end,
            location: args.location,
            description: args.description,
        },
    )
}

/// The lines with a text property set, if a text is given.
pub open spec fn with_text(
    lines: Seq<Seq<char>>,
    name: Seq<char>,
    text: Option<Seq<char>>,
) -> Seq<Seq<char>> {
    match text {
        Some(t) => with_property(lines, name, Some(prop_line(name, escaped(t)))),
        None => lines,
    }
}

/// The lines with a time property set, if a time is given.
pub open spec fn with_time(
    lines: Seq<Seq<char>>,
    name: Seq<char>,
    iso: Option<Seq<char>>,
) -> Result<Seq<Seq<char>>, Seq<char>> {
    match iso {
        Some(t) => match iso_line(name, t) {
            Ok(line) => Ok(with_property(lines, name, Some(line))),
            Err(e) => Err(e),
        },
        None => Ok(lines),
    }
}

/// The lines of an event with the changes made, or what is wrong with the times.
pub open spec fn modified_lines(lines: Seq<Seq<char>>, c: ChangeData) -> Result<
    Seq<Seq<char>>,
    Seq<char>,
> {
    match with_time(with_text(lines, "SUMMARY"@, c.summary), "DTSTART"@, c.start) {
        Err(e) => Err(e),
        Ok(started) => match with_time(started, "DTEND"@, c.end) {
            Err(e) => Err(e),
            Ok(ended) => Ok(
                with_text(
                    with_text(ended, "LOCATION"@, c.location),
                    "DESCRIPTION"@,
                    c.description,
                ),
            ),
        },
    }
}

/// The text of an event with the changes made.
pub open spec fn modified(existing: Seq<char>, c: ChangeData) -> Result<Seq<char>, Seq<char>> {
    match modified_lines(logical_lines(existing), c) {
        Ok(lines) => Ok(join(lines, "\r\n"@)),
        Err(e) => Err(e),
    }
}

fn set_text(lines: &mut Vec<String>, name: &str, text: &Option<String>)
    ensures
        views(final(lines)@) == with_text(views(old(lines)@), name@, opt_view(*text)),
{
    match text {
        Some(t) => {
            let mut line = name.to_owned();
            line.push(':');
            line.append(escape(t.as_str()).as_str());
            assert(line@ =~= prop_line(name@, escaped(t@)));
            set_property(lines, name, Some(line));
        },
        None => {},
    }
}

fn set_time(lines: &mut Vec<String>, name: &str, iso: &Option<String>) -> (r: Result<(), String>)
    ensures
        match (r, with_time(views(old(lines)@), name@, opt_view(*iso))) {
            (Ok(_), Ok(changed)) => views(final(lines)@) == changed,
            (Err(e), Err(f)) => e@ == f,
            _ => false,
        },
{
    match iso {
        Some(t) => match dt_property(name, t.as_str()) {
            Ok(line) => {
                set_property(lines, name, Some(line));
                Ok(())
            },
            Err(e) => Err(e),
        },
        None => Ok(()),
    }
}

impl Modification {
    /// The text of an existing event with the changes made.
    pub fn apply(&self, existing: &str) -> (r: Result<String, String>)
        ensures
            text_result(r) == modified(existing@, self.change()),
    {
        let mut lines = unfold(existing);
        set_text(&mut lines, "SUMMARY", &self.summary);
        match set_time(&mut lines, "DTSTART", &self.start) {
            Ok(_) => {},
            Err(e) => {
                return Err(e);
            },
        }
        match set_time(&mut lines, "DTEND", &self.end) {
            Ok(_) => {},
            Err(e) => {
                return Err(e);
            },
        }
        set_text(&mut lines, "LOCATION", &self.location);
        set_text(&mut lines, "DESCRIPTION", &self.description);
        Ok(join_strings(&lines, "\r\n"))
    }
}

/// What the model is told of a changed event.
pub open spec fn modified_text(uid: Seq<char>, calendar: Seq<char>) -> Seq<char> {
    "Modified event "@ + uid + " in "@ + calendar + "."@
}

/// What the model is told of a changed event.
pub fn modified_message(uid: &str, calendar: &str) -> (r: String)
    ensures
        r@ == "Modified event "@ + uid@ + " in "@ + calendar@ + "."@,
        r@ == modified_text(uid@, calendar@),
{
    let mut out = "Modified event ".to_owned();
    out.append(uid);
    out.append(" in ");
    out.append(calendar);
    out.append(".");
    out
}

// ---------------------------------------------------------------------------
// Deleting
// ---------------------------------------------------------------------------

/// The event that is to be deleted, or what is wrong with the argument.
pub open spec fn delete_check(uid: Option<Seq<char>>) -> Result<Seq<char>, Seq<char>> {
    match uid {
        Some(u) => Ok(u),
        None => Err("`uid` must be a string"@),
    }
}

/// Check the argument of `calendar_delete_event`.
pub fn check_delete(uid: Option<String>) -> (r: Result<String, String>)
    ensures
        match (r, uid) {
            (Ok(u), Some(v)) => u == v,
            (Err(e), None) => e@ == "`uid` must be a string"@,
            _ => false,
        },
        text_result(r) == delete_check(opt_view(uid)),
{
    match uid {
        Some(u) => Ok(u),
        None => Err("`uid` must be a string".to_owned()),
    }
}

/// What the model is told of a deleted event.
pub open spec fn deleted_text(uid: Seq<char>, calendar: Seq<char>) -> Seq<char> {
    "Deleted event "@ + uid + " from "@ + calendar + "."@
}

/// What the model is told of a deleted event.
pub fn deleted_message(uid: &str, calendar: &str) -> (r: String)
    ensures
        r@ == "Deleted event "@ + uid@ + " from "@ + calendar@ + "."@,
        r@ == deleted_text(uid@, calendar@),
{
    let mut out = "Deleted event ".to_owned();
    out.append(uid);
    out.append(" from ");
    out.append(calendar);
    out.append(".");
    out
}

// ---------------------------------------------------------------------------
// Laws
// ---------------------------------------------------------------------------

/// A numeral that is followed by something other than a digit can be told from
/// what follows.
proof fn lemma_numeral_ends(a: nat, b: nat, c: char, x: Seq<char>, y: Seq<char>)
    requires
        !is_digit(c),
        decimal(a) + seq![c] + x == decimal(b) + seq![c] + y,
    ensures
        a == b,
        x == y,
{
    let p = decimal(a);
    let q = decimal(b);
    let s = p + seq![c] + x;
    let t = q + seq![c] + y;
    lemma_decimal(a);
    lemma_decimal(b);
    if p.len() < q.len() {
        assert(s[p.len() as int] == c);
        assert(t[p.len() as int] == q[p.len() as int]);
        assert(is_digit(q[p.len() as int]));
    }
    if q.len() < p.len() {
        assert(t[q.len() as int] == c);
        assert(s[q.len() as int] == p[q.len() as int]);
        assert(is_digit(p[q.len() as int]));
    }
    assert(p =~= s.take(p.len() as int));
    assert(q =~= t.take(q.len() as int));
    lemma_decimal_injective(a, b);
    assert(x =~= s.skip((p.len() + 1) as int));
    assert(y =~= t.skip((q.len() + 1) as int));
}

/// The parts of a text that is put together from them.
proof fn lemma_parts(
    head: Seq<char>,
    x: Seq<char>,
    y: Seq<char>,
    z: Seq<char>,
    tail: Seq<char>,
)
    requires
        tail.len() > 0,
    ensures
        (head + x + seq!['-'] + y + seq!['-'] + z + tail).skip(head.len() as int) == x + seq!['-']
            + (y + seq!['-'] + (z + seq![tail[0]] + tail.skip(1))),
{
    assert((head + x + seq!['-'] + y + seq!['-'] + z + tail).skip(head.len() as int) =~= x
        + seq!['-'] + (y + seq!['-'] + (z + seq![tail[0]] + tail.skip(1))));
}

/// Events have different uids, unless time, process and number are all the same.
pub proof fn law_uids_are_unique(a: (nat, nat, nat), b: (nat, nat, nat))
    requires
        uid_text(a.0, a.1, a.2) == uid_text(b.0, b.1, b.2),
    ensures
        a == b,
{
    let head = "beckon-"@;
    let tail = "@beckon"@;
    assert(tail.len() > 0 && tail[0] == '@') by {
        reveal_strlit("@beckon");
    }
    let more = tail.skip(1);
    lemma_parts(head, decimal(a.0), decimal(a.1), decimal(a.2), tail);
    lemma_parts(head, decimal(b.0), decimal(b.1), decimal(b.2), tail);
    let ya = decimal(a.2) + seq!['@'] + more;
    let yb = decimal(b.2) + seq!['@'] + more;
    let xa = decimal(a.1) + seq!['-'] + ya;
    let xb = decimal(b.1) + seq!['-'] + yb;
    lemma_numeral_ends(a.0, b.0, '-', xa, xb);
    lemma_numeral_ends(a.1, b.1, '-', ya, yb);
    lemma_numeral_ends(a.2, b.2, '@', more, more);
}

proof fn lemma_set_text(
    lines: Seq<Seq<char>>,
    ev: EventFields,
    name: Seq<char>,
    text: Option<Seq<char>>,
)
    requires
        reads(lines, ev),
        is_plain(name),
        name[0] != 'B',
        name[0] != 'E',
    ensures
        reads(
            with_text(lines, name, text),
            match text {
                Some(t) => with_field(
                    ev,
                    Property { name: name, params: seq![], value: escaped(t) },
                ),
                None => ev,
            },
        ),
{
    match text {
        Some(t) => {
            lemma_text_line(name, t);
            lemma_set_line(
                lines,
                ev,
                prop_line(name, escaped(t)),
                Property { name: name, params: seq![], value: escaped(t) },
            );
        },
        None => {},
    }
}

/// The event with the given fields changed, and no others.
pub open spec fn changed_fields(ev: EventFields, c: ChangeData) -> EventFields {
    EventFields {
        summary: match c.summary {
            Some(s) => without_returns(s),
            None => ev.summary,
        },
        start_raw: match c.start {
            Some(s) => Some(written_time((parsed(s)->0).0, !(parsed(s)->0).1)),
            None => ev.start_raw,
        },
        all_day: match c.start {
            Some(s) => !(parsed(s)->0).1,
            None => ev.all_day,
        },
        end_raw: match c.end {
            Some(s) => Some(written_time((parsed(s)->0).0, !(parsed(s)->0).1)),
            None => ev.end_raw,
        },
        location: match c.location {
            Some(s) => Some(without_returns(s)),
            None => ev.location,
        },
        uid: ev.uid,
        calendar: ev.calendar,
        sort_key: ev.sort_key,
    }
}

/// Whether the times of a change can be read.
pub open spec fn times_are_valid(c: ChangeData) -> bool {
    (c.start is Some ==> parsed(c.start->0) is Some) && (c.end is Some ==> parsed(c.end->0) is Some)
}

proof fn lemma_modified_lines(lines: Seq<Seq<char>>, ev: EventFields, c: ChangeData)
    requires
        reads(lines, ev),
        times_are_valid(c),
    ensures
        modified_lines(lines, c) matches Ok(changed) && reads(changed, changed_fields(ev, c)),
{
    lemma_plain_names();
    lemma_distinct_names();
    let l1 = with_text(lines, "SUMMARY"@, c.summary);
    lemma_set_text(lines, ev, "SUMMARY"@, c.summary);
    let e1 = EventFields { summary: changed_fields(ev, c).summary, ..ev };
    if c.summary is Some {
        lemma_text_line("SUMMARY"@, c.summary->0);
    }
    assert(reads(l1, e1));
    let e2 = EventFields {
        start_raw: changed_fields(ev, c).start_raw,
        all_day: changed_fields(ev, c).all_day,
        ..e1
    };
    let l2 = with_time(l1, "DTSTART"@, c.start)->Ok_0;
    if c.start is Some {
        let (secs, timed) = parsed(c.start->0)->0;
        lemma_time_line("DTSTART"@, secs, !timed);
        let line = time_line("DTSTART"@, secs, !timed);
        lemma_set_line(l1, e1, line, property(line)->0);
    }
    assert(reads(l2, e2));
    let e3 = EventFields { end_raw: changed_fields(ev, c).end_raw, ..e2 };
    let l3 = with_time(l2, "DTEND"@, c.end)->Ok_0;
    if c.end is Some {
        let (secs, timed) = parsed(c.end->0)->0;
        lemma_time_line("DTEND"@, secs, !timed);
        let line = time_line("DTEND"@, secs, !timed);
        lemma_set_line(l2, e2, line, property(line)->0);
    }
    assert(reads(l3, e3));
    let l4 = with_text(l3, "LOCATION"@, c.location);
    lemma_set_text(l3, e3, "LOCATION"@, c.location);
    if c.location is Some {
        lemma_text_line("LOCATION"@, c.location->0);
    }
    assert(reads(l4, changed_fields(ev, c)));
    lemma_set_text(l4, changed_fields(ev, c), "DESCRIPTION"@, c.description);
}

/// Only the fields that are given are changed: an event that is changed and read
/// again has the new values for them, and is the same in all other respects. The
/// changed text can be changed again.
pub proof fn law_only_given_fields_change(existing: Seq<char>, ev: EventFields, c: ChangeData)
    requires
        reads(logical_lines(existing), ev),
        times_are_valid(c),
    ensures
        ({
            let after = changed_fields(ev, c);
            &&& modified(existing, c) matches Ok(text)
            &&& reads(logical_lines(text), after)
            &&& events_of(text) == seq![
                EventFields { sort_key: sort_key_of(after.start_raw), ..after },
            ]
        }),
{
    lemma_modified_lines(logical_lines(existing), ev, c);
    let changed = modified_lines(logical_lines(existing), c)->Ok_0;
    let after = changed_fields(ev, c);
    lemma_joined_event_is_read_back(changed, after);
    law_one_event_is_read(logical_lines(join(changed, "\r\n"@)), after);
}

/// A new event can be changed as any other: its text holds it, and nothing else.
pub proof fn law_new_event_can_be_changed(
    now: int,
    uid: Seq<char>,
    start: Seq<char>,
    all_day: bool,
    end: Option<Seq<char>>,
    summary: Seq<char>,
    location: Option<Seq<char>>,
    description: Option<Seq<char>>,
)
    requires
        !uid.contains('\n'),
        parsed(start) is Some,
        end is Some ==> parsed(end->0) is Some,
    ensures
        ({
            let to = match end {
                Some(e) => Some((parsed(e)->0).0),
                None => None,
            };
            let ev = read_back(uid, (parsed(start)->0).0, all_day, to, summary, location);
            &&& new_vevent(now, uid, start, all_day, end, summary, location, description)
                matches Ok(text)
            &&& reads(logical_lines(text), EventFields { sort_key: seq!['0'], ..ev })
        }),
{
    let from = (parsed(start)->0).0;
    let to = match end {
        Some(e) => Some((parsed(e)->0).0),
        None => None,
    };
    let fixed = event_body(now, uid, from, all_day, to, summary, None, None);
    let body = event_body(now, uid, from, all_day, to, summary, location, description);
    lemma_fixed_fields(now, uid, from, all_day, to, summary);
    let a = text_line("LOCATION"@, location);
    let b = text_line("DESCRIPTION"@, description);
    assert(fixed + a + b =~= body);
    lemma_texts(fixed, location, description);
    law_written_event_is_one(body);
}

} // verus!
