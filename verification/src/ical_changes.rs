//! What holds of changing the properties of an event.

use crate::ascii::{upper, upper_char};
use crate::ical::{
    colon, end_index, event_of, events_of, fields_of, is_begin, is_continuation, is_end,
    lemma_colon_bounds, lemma_end_index, lemma_end_index_bounds, line_name, logical_lines,
    name_len, property, scan, sort_key_of, vevent, with_field, with_property, without_property,
    EventFields, Property, Scan,
};
use crate::ical_laws::{
    are_inner, are_lines, is_inner, is_plain, law_joined_lines_are_read_back,
    law_written_lines_are_read_back, lemma_brackets, lemma_colon_at, lemma_scan_parts,
};
use crate::split::{join, strip_cr};
use crate::text::{
    index_of, lemma_index_of, lemma_index_of_is, lemma_lead, lemma_trim, lemma_trim_end_bounds,
    lemma_trim_push, trim,
};
use vstd::prelude::*;

verus! {

/// Taking out a property goes line by line.
pub proof fn lemma_without_add(a: Seq<Seq<char>>, b: Seq<Seq<char>>, name: Seq<char>)
    ensures
        without_property(a + b, name) == without_property(a, name) + without_property(b, name),
    decreases b.len(),
{
    if b.len() == 0 {
        assert(a + b =~= a);
        assert(without_property(a, name) + without_property(b, name) =~= without_property(a, name));
    } else {
        lemma_without_add(a, b.drop_last(), name);
        assert((a + b).drop_last() =~= a + b.drop_last());
        assert((a + b).last() == b.last());
        assert(without_property(a + b, name) =~= without_property(a, name) + without_property(
            b,
            name,
        ));
    }
}

/// No line for the property is left, and every other line is.
pub proof fn law_property_is_taken_out(lines: Seq<Seq<char>>, name: Seq<char>)
    ensures
        forall|i: int|
            0 <= i < without_property(lines, name).len() ==> line_name(
                #[trigger] without_property(lines, name)[i],
            ) != name,
        forall|l: Seq<char>|
            line_name(l) != name ==> (without_property(lines, name).contains(l)
                <==> #[trigger] lines.contains(l)),
        without_property(without_property(lines, name), name) == without_property(lines, name),
    decreases lines.len(),
{
    let kept = without_property(lines, name);
    if lines.len() == 0 {
        assert(kept =~= lines);
    } else {
        let before = lines.drop_last();
        law_property_is_taken_out(before, name);
        let some = without_property(before, name);
        let last = lines.last();
        if line_name(last) == name {
            assert forall|l: Seq<char>| line_name(l) != name implies (kept.contains(l)
                <==> #[trigger] lines.contains(l)) by {
                assert(some.contains(l) <==> before.contains(l));
                if lines.contains(l) {
                    let i = choose|i: int| 0 <= i < lines.len() && lines[i] == l;
                    assert(before[i] == l);
                }
                if before.contains(l) {
                    let i = choose|i: int| 0 <= i < before.len() && before[i] == l;
                    assert(lines[i] == l);
                }
            }
        } else {
            assert(kept == some.push(last));
            assert(kept.drop_last() =~= some);
            assert forall|l: Seq<char>| line_name(l) != name implies (kept.contains(l)
                <==> #[trigger] lines.contains(l)) by {
                assert(some.contains(l) <==> before.contains(l));
                if lines.contains(l) {
                    let i = choose|i: int| 0 <= i < lines.len() && lines[i] == l;
                    if i < before.len() {
                        assert(before[i] == l);
                        let j = choose|j: int| 0 <= j < some.len() && some[j] == l;
                        assert(kept[j] == l);
                    } else {
                        assert(kept[some.len() as int] == l);
                    }
                }
                if kept.contains(l) {
                    let i = choose|i: int| 0 <= i < kept.len() && kept[i] == l;
                    if i < some.len() {
                        assert(some[i] == l);
                        let j = choose|j: int| 0 <= j < before.len() && before[j] == l;
                        assert(lines[j] == l);
                    } else {
                        assert(lines[before.len() as int] == l);
                    }
                }
            }
        }
    }
}

/// Lines none of which are for the property stay as they are.
proof fn lemma_nothing_taken_out(lines: Seq<Seq<char>>, name: Seq<char>)
    requires
        forall|i: int| 0 <= i < lines.len() ==> line_name(#[trigger] lines[i]) != name,
    ensures
        without_property(lines, name) == lines,
    decreases lines.len(),
{
    if lines.len() > 0 {
        let before = lines.drop_last();
        assert forall|i: int| 0 <= i < before.len() implies line_name(#[trigger] before[i])
            != name by {
            assert(before[i] == lines[i]);
        }
        lemma_nothing_taken_out(before, name);
        assert(line_name(lines[lines.len() - 1]) != name);
        assert(before.push(lines.last()) =~= lines);
    } else {
        assert(without_property(lines, name) =~= lines);
    }
}

/// Setting a property leaves all other lines alone, in their order.
pub proof fn law_setting_keeps_other_lines(
    lines: Seq<Seq<char>>,
    name: Seq<char>,
    line: Seq<char>,
)
    requires
        line_name(line) == name,
    ensures
        without_property(with_property(lines, name, Some(line)), name) == without_property(
            lines,
            name,
        ),
{
    let kept = without_property(lines, name);
    law_property_is_taken_out(lines, name);
    lemma_end_index_bounds(kept);
    let n = end_index(kept);
    let a = kept.take(n);
    let b = kept.skip(n);
    assert(kept.insert(n, line) =~= a + seq![line] + b);
    lemma_without_add(a + seq![line], b, name);
    lemma_without_add(a, seq![line], name);
    lemma_without_add(a, b, name);
    assert(a + b =~= kept);
    assert(without_property(seq![line], name) =~= seq![]) by {
        assert(seq![line].drop_last() =~= Seq::<Seq<char>>::empty());
        assert(seq![line].last() == line);
        reveal_with_fuel(without_property, 2);
    }
    assert(without_property(a, name) + seq![] =~= without_property(a, name));
}

/// A property that is set twice is as if it were set once, to the second value.
pub proof fn law_second_setting_wins(
    lines: Seq<Seq<char>>,
    name: Seq<char>,
    first: Seq<char>,
    second: Seq<char>,
)
    requires
        line_name(first) == name,
    ensures
        with_property(with_property(lines, name, Some(first)), name, Some(second))
            == with_property(lines, name, Some(second)),
{
    law_setting_keeps_other_lines(lines, name, first);
}

/// The new line stands directly before the first line that closes an event, and
/// at the end if there is none.
pub proof fn law_new_line_lands_before_the_end(
    lines: Seq<Seq<char>>,
    name: Seq<char>,
    line: Seq<char>,
)
    ensures
        ({
            let n = end_index(without_property(lines, name));
            let changed = with_property(lines, name, Some(line));
            &&& 0 <= n < changed.len()
            &&& changed[n] == line
            &&& n + 1 < changed.len() ==> is_end(changed[n + 1])
            &&& forall|i: int| 0 <= i < n ==> !is_end(#[trigger] changed[i])
        }),
{
    let kept = without_property(lines, name);
    lemma_end_index_bounds(kept);
    let n = end_index(kept);
    let changed = kept.insert(n, line);
    assert forall|i: int| 0 <= i < n implies !is_end(#[trigger] changed[i]) by {
        assert(changed[i] == kept[i]);
    }
}

/// A text whose upper-case form is made of capital letters has no colons,
/// semicolons or quotes.
proof fn lemma_letters(s: Seq<char>)
    requires
        is_plain(upper(s)),
    ensures
        forall|i: int|
            0 <= i < s.len() ==> #[trigger] s[i] != ':' && s[i] != ';' && s[i] != '"',
{
    assert forall|i: int| 0 <= i < s.len() implies #[trigger] s[i] != ':' && s[i] != ';' && s[i]
        != '"' by {
        assert(upper(s)[i] == upper_char(s[i]));
        assert(65 <= upper(s)[i] as int <= 90);
    }
}

/// The name of a line is the name of its property.
proof fn lemma_line_name(line: Seq<char>, name: Seq<char>)
    requires
        is_plain(name),
        property(line) is Some,
    ensures
        (line_name(line) == name) == ((property(line)->0).name == name),
{
    let c = colon(line, false)->0;
    lemma_colon_bounds(line, false);
    let head = line.take(c);
    lemma_index_of(head, ';');
    let m = index_of(head, ';');
    lemma_index_of(line, ';');
    lemma_index_of(line, ':');
    let k = name_len(line);
    if (property(line)->0).name == name {
        let s = head.take(m);
        lemma_letters(s);
        assert forall|i: int| 0 <= i < m implies line[i] != ':' && line[i] != ';' by {
            assert(line[i] == s[i]);
        }
        if m < c {
            assert(line[m] == head[m]);
            assert(line[m] == ';');
        } else {
            assert(line[m] == ':');
        }
        assert(k == m);
        assert(line.take(k) =~= s);
    }
    if line_name(line) == name {
        let s = line.take(k);
        lemma_letters(s);
        assert(k <= c);
        assert forall|i: int| 0 <= i < k implies line[i] != ':' && line[i] != ';' && line[i]
            != '"' by {
            assert(line[i] == s[i]);
        }
        if line[k] == ':' {
            lemma_colon_at(s, line.skip(k + 1));
            assert(s + seq![':'] + line.skip(k + 1) =~= line);
            assert(c == k);
            lemma_index_of_is(head, ';', head.len() as int);
            assert(head.take(m) =~= s);
        } else {
            assert(line[k] == ';');
            assert(k < c);
            lemma_index_of_is(head, ';', k);
            assert(head.take(m) =~= s);
        }
    }
}

/// A property overrides what was said before for the same name.
proof fn lemma_override(ev: EventFields, q: Property, p: Property)
    requires
        q.name == p.name,
    ensures
        with_field(with_field(ev, q), p) == with_field(ev, p),
{
}

/// Properties of different names do not touch each other.
proof fn lemma_commute(ev: EventFields, q: Property, p: Property)
    requires
        q.name != p.name,
    ensures
        with_field(with_field(ev, q), p) == with_field(with_field(ev, p), q),
{
}

/// Setting a property overrides what the lines for it said, and nothing else.
pub proof fn lemma_only_its_field(body: Seq<Seq<char>>, p: Property)
    requires
        is_plain(p.name),
    ensures
        with_field(fields_of(without_property(body, p.name)), p) == with_field(fields_of(body), p),
    decreases body.len(),
{
    if body.len() > 0 {
        let before = body.drop_last();
        let line = body.last();
        lemma_only_its_field(before, p);
        let kept = without_property(before, p.name);
        if line_name(line) != p.name {
            assert(kept.push(line).drop_last() =~= kept);
        }
        match property(line) {
            Some(q) => {
                lemma_line_name(line, p.name);
                if q.name == p.name {
                    lemma_override(fields_of(before), q, p);
                } else {
                    lemma_commute(fields_of(before), q, p);
                    lemma_commute(fields_of(kept), q, p);
                }
            },
            None => {},
        }
    } else {
        assert(without_property(body, p.name) =~= body);
    }
}

// ---------------------------------------------------------------------------
// The lines of one event
// ---------------------------------------------------------------------------

/// Whether no line opens or closes an event.
pub open spec fn is_quiet(lines: Seq<Seq<char>>) -> bool {
    forall|i: int| 0 <= i < lines.len() ==> !is_begin(#[trigger] lines[i]) && !is_end(lines[i])
}

/// Whether no line closes an event.
pub open spec fn never_ends(lines: Seq<Seq<char>>) -> bool {
    forall|i: int| 0 <= i < lines.len() ==> !is_end(#[trigger] lines[i])
}

/// The lines of a text that holds one event, and what stands around it.
pub struct Parts {
    pub before: Seq<Seq<char>>,
    pub begin: Seq<char>,
    pub body: Seq<Seq<char>>,
    pub end: Seq<char>,
    pub after: Seq<Seq<char>>,
}

/// All lines in order.
pub open spec fn whole(p: Parts) -> Seq<Seq<char>> {
    p.before + seq![p.begin] + p.body + seq![p.end] + p.after
}

/// Whether the parts hold one event: nothing is closed before it, and none follows
/// it.
pub open spec fn is_one_event(p: Parts) -> bool {
    &&& is_begin(p.begin)
    &&& is_end(p.end)
    &&& never_ends(p.before)
    &&& is_quiet(p.body)
    &&& scan(p.after).events.len() == 0
}

/// Whether lines are those of a text with one event that has the given fields.
/// Other things, such as a calendar or a time zone, may stand around it. No line but
/// the first starts with a space or a tab; only a fold behind an empty line makes
/// one that does.
pub open spec fn reads(lines: Seq<Seq<char>>, ev: EventFields) -> bool {
    are_lines(lines) && exists|p: Parts|
        lines == #[trigger] whole(p) && is_one_event(p) && fields_of(p.body) == ev
}

/// Whether a line can be set as a property of an event.
pub open spec fn is_settable(line: Seq<char>, p: Property) -> bool {
    &&& property(line) == Some(p)
    &&& is_plain(p.name)
    &&& p.name[0] != 'B'
    &&& p.name[0] != 'E'
    &&& !is_begin(line)
    &&& !is_end(line)
    &&& !is_continuation(line)
    &&& !line.contains('\n')
}

/// A line that opens or closes an event is for no property of it.
pub proof fn lemma_bracket_name(line: Seq<char>, name: Seq<char>)
    requires
        is_begin(line) || is_end(line),
        is_plain(name),
        name[0] != 'B',
        name[0] != 'E',
    ensures
        line_name(line) != name,
{
    reveal_strlit("BEGIN:VEVENT");
    reveal_strlit("END:VEVENT");
    if line_name(line) == name {
        let k = name_len(line);
        lemma_index_of(line, ';');
        lemma_index_of(line, ':');
        assert(upper(line.take(k)).len() == line.take(k).len());
        assert(line.take(k).len() > 0);
        assert(upper(line.take(k))[0] == upper_char(line[0]));
        let c = upper_char(line[0]);
        assert(c == name[0]);
        assert(65 <= name[0] as int <= 90);
        lemma_lead(line, 0);
        assert(line.skip(0) =~= line);
        lemma_trim_end_bounds(line);
        let t = trim(line);
        let b = "BEGIN:VEVENT"@;
        let e = "END:VEVENT"@;
        assert(upper(t).len() == t.len());
        assert(upper(b).len() == b.len() && upper(e).len() == e.len());
        assert(t.len() > 0);
        assert(t[0] == line[0]);
        assert(upper(t)[0] == c);
        assert(upper(b)[0] == upper_char(b[0]) && upper(e)[0] == upper_char(e[0]));
    }
}

/// What `without_property` keeps has the properties that the lines have.
proof fn lemma_kept_lines(lines: Seq<Seq<char>>, name: Seq<char>)
    ensures
        without_property(lines, name).len() <= lines.len(),
        is_quiet(lines) ==> is_quiet(without_property(lines, name)),
        never_ends(lines) ==> never_ends(without_property(lines, name)),
        are_lines(lines) ==> are_lines(without_property(lines, name)),
    decreases lines.len(),
{
    if lines.len() > 0 {
        let before = lines.drop_last();
        lemma_kept_lines(before, name);
        let some = without_property(before, name);
        let kept = without_property(lines, name);
        let last = lines[lines.len() - 1];
        assert forall|i: int| 0 <= i < kept.len() implies (i < some.len() && #[trigger] kept[i]
            == some[i]) || kept[i] == last by {}
        if is_quiet(lines) {
            assert forall|i: int| 0 <= i < before.len() implies !is_begin(#[trigger] before[i])
                && !is_end(before[i]) by {
                assert(before[i] == lines[i]);
            }
            assert(!is_begin(last) && !is_end(last));
        }
        if never_ends(lines) {
            assert forall|i: int| 0 <= i < before.len() implies !is_end(#[trigger] before[i]) by {
                assert(before[i] == lines[i]);
            }
            assert(!is_end(last));
        }
        if are_lines(lines) {
            assert forall|i: int| 0 <= i < before.len() implies !(#[trigger] before[i]).contains(
                '\n',
            ) by {
                assert(before[i] == lines[i]);
            }
            assert forall|i: int| 0 < i < before.len() implies !is_continuation(
                #[trigger] before[i],
            ) by {
                assert(before[i] == lines[i]);
            }
            assert(!last.contains('\n'));
        }
    }
}

/// Taking out a property that is no bracket opens and closes no event.
proof fn lemma_kept_events(lines: Seq<Seq<char>>, name: Seq<char>)
    requires
        is_plain(name),
        name[0] != 'B',
        name[0] != 'E',
    ensures
        scan(without_property(lines, name)).events.len() == scan(lines).events.len(),
        scan(without_property(lines, name)).open is Some == scan(lines).open is Some,
    decreases lines.len(),
{
    if lines.len() > 0 {
        let before = lines.drop_last();
        let line = lines.last();
        lemma_kept_events(before, name);
        if is_begin(line) || is_end(line) {
            lemma_bracket_name(line, name);
        }
        if line_name(line) != name {
            let some = without_property(before, name);
            assert(some.push(line).drop_last() =~= some);
        }
    }
}

/// Where a property is set among the lines of one event.
proof fn lemma_set_among(parts: Parts, line: Seq<char>, p: Property)
    requires
        is_one_event(parts),
        is_settable(line, p),
    ensures
        ({
            let name = p.name;
            let changed = Parts {
                before: without_property(parts.before, name),
                begin: parts.begin,
                body: without_property(parts.body, name).push(line),
                end: parts.end,
                after: without_property(parts.after, name),
            };
            &&& is_one_event(changed)
            &&& with_property(whole(parts), name, Some(line)) == whole(changed)
            &&& end_index(without_property(whole(parts), name)) > 0
        }),
{
    let name = p.name;
    let before = without_property(parts.before, name);
    let body = without_property(parts.body, name);
    let after = without_property(parts.after, name);
    let begin = seq![parts.begin];
    let end = seq![parts.end];
    lemma_bracket_name(parts.begin, name);
    lemma_bracket_name(parts.end, name);
    lemma_nothing_taken_out(begin, name);
    lemma_nothing_taken_out(end, name);
    lemma_without_add(parts.before + begin + parts.body + end, parts.after, name);
    lemma_without_add(parts.before + begin + parts.body, end, name);
    lemma_without_add(parts.before + begin, parts.body, name);
    lemma_without_add(parts.before, begin, name);
    let kept = before + begin + body + end + after;
    assert(without_property(whole(parts), name) == kept);
    lemma_kept_lines(parts.before, name);
    lemma_kept_lines(parts.body, name);
    lemma_kept_events(parts.after, name);
    let n = before.len() + 1 + body.len();
    lemma_brackets_differ(parts.begin);
    assert(kept[n as int] == parts.end);
    assert forall|j: int| 0 <= j < n implies !is_end(#[trigger] kept[j]) by {
        if j < before.len() {
            assert(kept[j] == before[j]);
        } else if j == before.len() {
            assert(kept[j] == parts.begin);
        } else {
            assert(kept[j] == body[j - before.len() - 1]);
        }
    }
    lemma_end_index(kept, n as int);
    assert(kept.insert(n as int, line) =~= before + begin + body.push(line) + end + after);
    assert(is_quiet(body.push(line))) by {
        assert forall|i: int| 0 <= i < body.push(line).len() implies !is_begin(
            #[trigger] body.push(line)[i],
        ) && !is_end(body.push(line)[i]) by {
            if i < body.len() {
                assert(body.push(line)[i] == body[i]);
            }
        }
    }
}

/// A line that opens an event does not close one.
proof fn lemma_brackets_differ(line: Seq<char>)
    requires
        is_begin(line),
    ensures
        !is_end(line),
{
    reveal_strlit("BEGIN:VEVENT");
    reveal_strlit("END:VEVENT");
    assert(upper("BEGIN:VEVENT"@).len() == 12);
    assert(upper("END:VEVENT"@).len() == 10);
}

/// Setting a property in a text with one event sets what it says of the event,
/// and leaves the text one with one event.
pub proof fn lemma_set_line(
    lines: Seq<Seq<char>>,
    ev: EventFields,
    line: Seq<char>,
    p: Property,
)
    requires
        reads(lines, ev),
        is_settable(line, p),
    ensures
        reads(with_property(lines, p.name, Some(line)), with_field(ev, p)),
{
    let parts = choose|q: Parts|
        lines == #[trigger] whole(q) && is_one_event(q) && fields_of(q.body) == ev;
    lemma_set_among(parts, line, p);
    lemma_only_its_field(parts.body, p);
    let body = without_property(parts.body, p.name);
    assert(body.push(line).drop_last() =~= body);
    let changed = Parts {
        before: without_property(parts.before, p.name),
        begin: parts.begin,
        body: body.push(line),
        end: parts.end,
        after: without_property(parts.after, p.name),
    };
    let out = with_property(lines, p.name, Some(line));
    assert(out == whole(changed));
    assert(fields_of(changed.body) == with_field(ev, p));
    let kept = without_property(lines, p.name);
    let n = end_index(kept);
    lemma_kept_lines(lines, p.name);
    lemma_end_index_bounds(kept);
    assert forall|i: int| 0 <= i < out.len() implies !(#[trigger] out[i]).contains('\n') by {
        if i < n {
            assert(out[i] == kept[i]);
        } else if i > n {
            assert(out[i] == kept[i - 1]);
        }
    }
    assert forall|i: int| 0 < i < out.len() implies !is_continuation(#[trigger] out[i]) by {
        if i < n {
            assert(out[i] == kept[i]);
        } else if i > n {
            assert(out[i] == kept[i - 1]);
        }
    }
}

proof fn lemma_scan_quiet(a: Seq<Seq<char>>, b: Seq<Seq<char>>)
    requires
        is_quiet(b),
    ensures
        scan(a).open is None ==> scan(a + b) == scan(a),
        scan(a).open matches Some(body) ==> scan(a + b) == (Scan {
            open: Some(body + b),
            events: scan(a).events,
        }),
    decreases b.len(),
{
    if b.len() == 0 {
        assert(a + b =~= a);
        if scan(a).open is Some {
            assert(scan(a).open->0 + b =~= scan(a).open->0);
        }
    } else {
        let c = b.drop_last();
        assert forall|i: int| 0 <= i < c.len() implies !is_begin(#[trigger] c[i]) && !is_end(
            c[i],
        ) by {
            assert(c[i] == b[i]);
        }
        lemma_scan_quiet(a, c);
        assert((a + b).drop_last() =~= a + c);
        assert((a + b).last() == b[b.len() - 1]);
        if scan(a).open is Some {
            assert((scan(a).open->0 + c).push(b.last()) =~= scan(a).open->0 + b);
        }
    }
}

/// Where nothing is closed, there is no event.
proof fn lemma_scan_never_ends(lines: Seq<Seq<char>>)
    requires
        never_ends(lines),
    ensures
        scan(lines).events == Seq::<EventFields>::empty(),
    decreases lines.len(),
{
    if lines.len() > 0 {
        let before = lines.drop_last();
        assert forall|i: int| 0 <= i < before.len() implies !is_end(#[trigger] before[i]) by {
            assert(before[i] == lines[i]);
        }
        lemma_scan_never_ends(before);
        assert(!is_end(lines[lines.len() - 1]));
    }
}

/// A text with one event is read as that event.
pub proof fn law_one_event_is_read(lines: Seq<Seq<char>>, ev: EventFields)
    requires
        reads(lines, ev),
    ensures
        scan(lines).events == seq![EventFields { sort_key: sort_key_of(ev.start_raw), ..ev }],
{
    let p = choose|q: Parts|
        lines == #[trigger] whole(q) && is_one_event(q) && fields_of(q.body) == ev;
    lemma_brackets_differ(p.begin);
    if is_begin(p.end) {
        lemma_brackets_differ(p.end);
    }
    lemma_scan_never_ends(p.before);
    let opened = p.before + seq![p.begin];
    assert(opened.drop_last() =~= p.before);
    assert(opened.last() == p.begin);
    lemma_scan_quiet(opened, p.body);
    let inside = opened + p.body;
    assert(Seq::<Seq<char>>::empty() + p.body =~= p.body);
    let closed = inside + seq![p.end];
    assert(closed.drop_last() =~= inside);
    assert(closed.last() == p.end);
    assert(scan(closed).events =~= seq![event_of(p.body)]);
    lemma_scan_parts(closed, p.after);
    assert(scan(closed).events + scan(p.after).events =~= scan(closed).events);
}

/// A carriage return at the end of a line neither opens nor closes an event.
proof fn lemma_stripped_bracket(line: Seq<char>)
    ensures
        is_begin(strip_cr(line)) == is_begin(line),
        is_end(strip_cr(line)) == is_end(line),
{
    if line.len() > 0 && line.last() == '\r' {
        lemma_trim_push(line.drop_last(), '\r');
        assert(line.drop_last().push('\r') =~= line);
    }
}

/// Lines of one event, put together and read again, hold the same event.
pub proof fn lemma_joined_event_is_read_back(lines: Seq<Seq<char>>, ev: EventFields)
    requires
        reads(lines, ev),
    ensures
        reads(logical_lines(join(lines, "\r\n"@)), ev),
{
    let p = choose|q: Parts|
        lines == #[trigger] whole(q) && is_one_event(q) && fields_of(q.body) == ev;
    law_joined_lines_are_read_back(lines);
    let last = strip_cr(lines.last());
    let out = lines.drop_last().push(last);
    lemma_stripped_bracket(lines.last());
    let q = if p.after.len() == 0 {
        Parts { end: last, ..p }
    } else {
        Parts { after: p.after.drop_last().push(last), ..p }
    };
    if p.after.len() == 0 {
        assert(lines.last() == p.end);
    } else {
        assert(lines.last() == p.after.last());
        assert(q.after.drop_last() =~= p.after.drop_last());
        assert(scan(q.after).events.len() == 0);
    }
    assert(out =~= whole(q));
    assert(is_one_event(q));
    assert forall|i: int| 0 <= i < out.len() implies !(#[trigger] out[i]).contains('\n') by {
        assert(!lines[i].contains('\n'));
        if i == out.len() - 1 {
            assert forall|j: int| 0 <= j < last.len() implies last[j] != '\n' by {
                assert(lines[i].contains(lines[i][j]));
            }
        }
    }
    assert forall|i: int| 0 < i < out.len() implies !is_continuation(#[trigger] out[i]) by {
        assert(!is_continuation(lines[i]));
    }
}

/// Reading a text with one event, setting one property and writing it back
/// changes what that property says of the event, and nothing else: read once
/// more, the event is the same in all other respects.
pub proof fn law_modified_event_is_read_back(
    existing: Seq<char>,
    ev: EventFields,
    line: Seq<char>,
    p: Property,
)
    requires
        reads(logical_lines(existing), ev),
        is_settable(line, p),
    ensures
        ({
            let changed = with_field(ev, p);
            events_of(join(with_property(logical_lines(existing), p.name, Some(line)), "\r\n"@))
                == seq![EventFields { sort_key: sort_key_of(changed.start_raw), ..changed }]
        }),
{
    let lines = with_property(logical_lines(existing), p.name, Some(line));
    lemma_set_line(logical_lines(existing), ev, line, p);
    lemma_joined_event_is_read_back(lines, with_field(ev, p));
    law_one_event_is_read(logical_lines(join(lines, "\r\n"@)), with_field(ev, p));
}

/// An empty line closes no event.
proof fn lemma_blank_ends_nothing()
    ensures
        !is_end(seq![]),
{
    reveal_strlit("END:VEVENT");
    let none = Seq::<char>::empty();
    lemma_trim(none);
    assert(upper(trim(none)).len() == 0);
    assert(upper("END:VEVENT"@).len() == 10);
}

/// A text that was written from the lines of an event is one with one event.
pub proof fn law_written_event_is_one(body: Seq<Seq<char>>)
    requires
        are_inner(body),
    ensures
        reads(logical_lines(vevent(body)), fields_of(body)),
{
    lemma_brackets();
    reveal_strlit("BEGIN:VEVENT");
    reveal_strlit("END:VEVENT");
    let written = seq!["BEGIN:VEVENT"@] + body + seq!["END:VEVENT"@];
    assert forall|i: int| 0 <= i < written.len() implies !(#[trigger] written[i]).contains('\n')
        && (i > 0 ==> !is_continuation(written[i])) by {
        if 0 < i < written.len() - 1 {
            assert(written[i] == body[i - 1]);
            assert(is_inner(body[i - 1]));
        }
    }
    law_written_lines_are_read_back(written);
    let lines = written.push(seq![]);
    let none = Seq::<Seq<char>>::empty();
    let p = Parts {
        before: none,
        begin: "BEGIN:VEVENT"@,
        body: body,
        end: "END:VEVENT"@,
        after: seq![seq![]],
    };
    assert(whole(p) =~= lines);
    assert forall|i: int| 0 <= i < body.len() implies !is_begin(#[trigger] body[i]) && !is_end(
        body[i],
    ) by {
        assert(is_inner(body[i]));
    }
    lemma_blank_ends_nothing();
    lemma_scan_never_ends(p.after);
    assert(is_one_event(p));
    assert forall|i: int| 0 <= i < lines.len() implies !(#[trigger] lines[i]).contains('\n') by {
        if i < written.len() {
            assert(lines[i] == written[i]);
        }
    }
    assert forall|i: int| 0 < i < lines.len() implies !is_continuation(#[trigger] lines[i]) by {
        if i < written.len() {
            assert(lines[i] == written[i]);
        }
    }
}

} // verus!
