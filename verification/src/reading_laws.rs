//! What is read of the text of an event.

use crate::ascii::{digits, same_ignoring_case, upper, upper_char};
use crate::ical::{
    colon, date_only, escaped, event_of, fields_of, head_name, head_params, is_begin, is_end,
    logical_lines, property, scan, sort_key_of, unescaped, unfolded, EventFields, Property,
};
use crate::ical_laws::{lemma_distinct_names, lemma_split_add, lemma_split_none};
use crate::split::{split, strip_cr};
use crate::text::{lemma_index_of_is, trim};
use crate::text_laws::lacks;
use vstd::prelude::*;

verus! {

// ---------------------------------------------------------------------------
// Lines
// ---------------------------------------------------------------------------

/// A line that starts with a space or a tab continues the line before it, without that
/// first character; any other line stands for itself. A carriage return at its end does
/// not belong to a line.
pub proof fn law_folded_lines_are_joined(raw: Seq<Seq<char>>, line: Seq<char>)
    requires
        line.len() == 0 || line[line.len() - 1] != '\r',
    ensures
        ({
            let before = unfolded(raw);
            let folds = line.len() > 0 && (line[0] == ' ' || line[0] == '\t');
            let after = unfolded(raw.push(line));
            &&& folds && before.len() > 0 ==> after == before.drop_last() + seq![
                before.last() + line.skip(1),
            ]
            &&& !folds || before.len() == 0 ==> after == before + seq![line]
            &&& unfolded(raw.push(line.push('\r'))) == after
            &&& unfolded(Seq::<Seq<char>>::empty()).len() == 0
        }),
{
    let before = unfolded(raw);
    assert(raw.push(line).drop_last() =~= raw);
    let returned = line.push('\r');
    assert(raw.push(returned).drop_last() =~= raw);
    assert(strip_cr(returned) =~= line);
    assert(before.push(line) =~= before + seq![line]);
    if before.len() > 0 {
        let joined = before.last() + line.skip(1);
        assert(before.drop_last().push(joined) =~= before.drop_last() + seq![joined]);
    }
}

/// The lines of a text are cut at its line feeds, before they are joined.
pub proof fn law_text_is_cut_at_line_feeds(text: Seq<char>, line: Seq<char>)
    requires
        lacks(line, '\n'),
    ensures
        logical_lines(text + seq!['\n'] + line) == unfolded(split(text, '\n').push(line)),
        logical_lines(line) == unfolded(seq![line]),
{
    assert(!line.contains('\n'));
    lemma_split_add(text, line, '\n');
    lemma_split_none(line, '\n');
    assert(split(text, '\n') + seq![line] =~= split(text, '\n').push(line));
}

// ---------------------------------------------------------------------------
// Properties
// ---------------------------------------------------------------------------

/// How many quotes a text has.
pub open spec fn quotes(s: Seq<char>) -> nat
    decreases s.len(),
{
    if s.len() == 0 {
        0
    } else if s[s.len() - 1] == '"' {
        quotes(s.drop_last()) + 1
    } else {
        quotes(s.drop_last())
    }
}

/// Whether every colon of a text stands in quotes.
pub open spec fn colons_are_quoted(s: Seq<char>) -> bool {
    forall|i: int| 0 <= i < s.len() && #[trigger] s[i] == ':' ==> quotes(s.take(i)) % 2 == 1
}

proof fn lemma_quotes_front(c: char, s: Seq<char>)
    ensures
        quotes(seq![c] + s) == quotes(s) + if c == '"' {
            1nat
        } else {
            0nat
        },
    decreases s.len(),
{
    let all = seq![c] + s;
    if s.len() == 0 {
        assert(all.drop_last() =~= s);
        assert(all[0] == c);
    } else {
        lemma_quotes_front(c, s.drop_last());
        assert(all.drop_last() =~= seq![c] + s.drop_last());
        assert(all[all.len() - 1] == s[s.len() - 1]);
    }
}

proof fn lemma_colon(s: Seq<char>, quoted: bool, n: int)
    requires
        0 <= n <= s.len(),
        n < s.len() ==> s[n] == ':' && (quotes(s.take(n)) % 2 == 1) == quoted,
        forall|i: int|
            0 <= i < n && #[trigger] s[i] == ':' ==> (quotes(s.take(i)) % 2 == 1) != quoted,
    ensures
        colon(s, quoted) == if n < s.len() {
            Some(n)
        } else {
            None::<int>
        },
    decreases s.len(),
{
    if s.len() > 0 {
        assert(s.take(0) =~= Seq::<char>::empty());
        if n > 0 {
            let c = s[0];
            let rest = s.drop_first();
            let flipped = quoted != (c == '"');
            if c == ':' {
                assert((quotes(s.take(0)) % 2 == 1) != quoted);
            }
            assert forall|i: int| 0 <= i < n - 1 && #[trigger] rest[i] == ':' implies (quotes(
                rest.take(i),
            ) % 2 == 1) != flipped by {
                assert(s[i + 1] == ':');
                assert(s.take(i + 1) =~= seq![c] + rest.take(i));
                lemma_quotes_front(c, rest.take(i));
            }
            if n < s.len() {
                assert(rest[n - 1] == ':');
                assert(s.take(n) =~= seq![c] + rest.take(n - 1));
                lemma_quotes_front(c, rest.take(n - 1));
            }
            lemma_colon(rest, flipped, n - 1);
        }
    }
}

/// Whether what stands in front of a colon is not in quotes, but all its own colons are.
pub open spec fn is_head(s: Seq<char>) -> bool {
    colons_are_quoted(s) && quotes(s) % 2 == 0
}

proof fn lemma_head(head: Seq<char>, value: Seq<char>)
    requires
        is_head(head),
    ensures
        property(head + seq![':'] + value) == Some(
            Property { name: upper(head_name(head)), params: head_params(head), value: value },
        ),
{
    let line = head + seq![':'] + value;
    let n = head.len() as int;
    assert(line.take(n) =~= head);
    assert forall|i: int| 0 <= i < n && #[trigger] line[i] == ':' implies (quotes(line.take(i)) % 2
        == 1) != false by {
        assert(head[i] == line[i]);
        assert(line.take(i) =~= head.take(i));
    }
    assert(line[n] == ':');
    lemma_colon(line, false, n);
    assert(line.skip(n + 1) =~= value);
}

/// A line gives a property its value: all that stands behind the first colon that is not
/// in quotes. In front of it stands the name, in any case, and behind the first semicolon
/// the parameters.
pub proof fn law_lines_give_properties(name: Seq<char>, params: Seq<char>, value: Seq<char>)
    requires
        lacks(name, ';'),
    ensures
        is_head(name) ==> property(name + seq![':'] + value) == Some(
            Property { name: upper(name), params: seq![], value: value },
        ),
        is_head(name + seq![';'] + params) ==> property(
            name + seq![';'] + params + seq![':'] + value,
        ) == Some(Property { name: upper(name), params: params, value: value }),
{
    let n = name.len() as int;
    lemma_index_of_is(name, ';', n);
    assert(name.take(n) =~= name);
    let head = name + seq![';'] + params;
    assert forall|i: int| 0 <= i < n implies head[i] != ';' by {
        assert(head[i] == name[i]);
    }
    assert(head[n] == ';');
    lemma_index_of_is(head, ';', n);
    assert(head.take(n) =~= name);
    assert(head.skip(n + 1) =~= params);
    if is_head(name) {
        lemma_head(name, value);
    }
    if is_head(head) {
        lemma_head(head, value);
    }
}

/// A line all of whose colons stand in quotes gives no property.
pub proof fn law_lines_without_colon_give_nothing(line: Seq<char>)
    requires
        colons_are_quoted(line),
    ensures
        property(line) is None,
{
    assert forall|i: int| 0 <= i < line.len() && #[trigger] line[i] == ':' implies (quotes(
        line.take(i),
    ) % 2 == 1) != false by {}
    lemma_colon(line, false, line.len() as int);
}

/// The small letters of ASCII have large ones, 32 places before them; no other character
/// changes.
pub proof fn law_large_letters(s: Seq<char>, c: char)
    ensures
        upper(s).len() == s.len(),
        upper(s.push(c)) == upper(s).push(upper_char(c)),
        97 <= c as int <= 122 ==> upper_char(c) as int == c as int - 32,
        !(97 <= c as int <= 122) ==> upper_char(c) == c,
{
    assert(upper(s.push(c)) =~= upper(s).push(upper_char(c)));
}

// ---------------------------------------------------------------------------
// Text
// ---------------------------------------------------------------------------

/// A text is read character by character. A backslash is not part of it: with an `n` it
/// is a line feed, and any other character behind it stands for itself. One at the end
/// means nothing.
pub proof fn law_escapes_are_read(c: char, s: Seq<char>)
    ensures
        unescaped(Seq::<char>::empty()).len() == 0,
        c != '\\' ==> unescaped(seq![c] + s) == seq![c] + unescaped(s),
        unescaped(seq!['\\']).len() == 0,
        unescaped(seq!['\\', 'n'] + s) == seq!['\n'] + unescaped(s),
        unescaped(seq!['\\', 'N'] + s) == seq!['\n'] + unescaped(s),
        c != 'n' && c != 'N' ==> unescaped(seq!['\\', c] + s) == seq![c] + unescaped(s),
{
    assert((seq![c] + s).skip(1) =~= s);
    assert((seq!['\\', c] + s).skip(2) =~= s);
    assert((seq!['\\', 'n'] + s).skip(2) =~= s);
    assert((seq!['\\', 'N'] + s).skip(2) =~= s);
}

/// A text is written character by character. What separates texts, and the backslash
/// itself, is written behind a backslash, and a line feed as a backslash and an `n`. A
/// carriage return is left out.
pub proof fn law_text_is_written(c: char, s: Seq<char>)
    ensures
        escaped(Seq::<char>::empty()).len() == 0,
        escaped(seq!['\n'] + s) == seq!['\\', 'n'] + escaped(s),
        escaped(seq!['\r'] + s) == escaped(s),
        c == ',' || c == ';' || c == '\\' ==> escaped(seq![c] + s) == seq!['\\', c] + escaped(s),
        c != ',' && c != ';' && c != '\\' && c != '\n' && c != '\r' ==> escaped(seq![c] + s)
            == seq![c] + escaped(s),
{
    assert((seq![c] + s).skip(1) =~= s);
    assert((seq!['\n'] + s).skip(1) =~= s);
    assert((seq!['\r'] + s).skip(1) =~= s);
    assert(Seq::<char>::empty() + escaped(s) =~= escaped(s));
}

// ---------------------------------------------------------------------------
// Events
// ---------------------------------------------------------------------------

/// Of an event that no line says anything of, nothing is known.
pub proof fn law_blank_event_has_nothing()
    ensures
        ({
            let ev = event_of(seq![]);
            &&& ev.summary.len() == 0
            &&& ev.start_raw is None
            &&& ev.end_raw is None
            &&& !ev.all_day
            &&& ev.location is None
            &&& ev.uid is None
            &&& ev.calendar.len() == 0
            &&& ev.sort_key == seq![
                '0', '0', '0', '0', '0', '0', '0', '0', '0', '0', '0', '0', '0', '0',
            ]
        }),
{
    assert(event_of(seq![]).sort_key =~= seq![
        '0', '0', '0', '0', '0', '0', '0', '0', '0', '0', '0', '0', '0', '0',
    ]);
}

/// Every line says one thing of an event, and the last line that says it counts: the
/// title, the start, by which the event is an all-day one or not, the end, the place, or
/// the uid. Any other line says nothing.
pub proof fn law_each_line_says_one_thing(lines: Seq<Seq<char>>, line: Seq<char>)
    ensures
        ({
            let before = fields_of(lines);
            let after = fields_of(lines.push(line));
            match property(line) {
                None => after == before,
                Some(p) => {
                    &&& p.name == "SUMMARY"@ ==> after == (EventFields {
                        summary: unescaped(p.value),
                        ..before
                    })
                    &&& p.name == "DTSTART"@ ==> after == (EventFields {
                        start_raw: Some(p.value),
                        all_day: date_only(p.params, p.value),
                        ..before
                    })
                    &&& p.name == "DTEND"@ ==> after == (EventFields {
                        end_raw: Some(p.value),
                        ..before
                    })
                    &&& p.name == "LOCATION"@ ==> after == (EventFields {
                        location: Some(unescaped(p.value)),
                        ..before
                    })
                    &&& p.name == "UID"@ ==> after == (EventFields { uid: Some(p.value), ..before })
                    &&& (p.name != "SUMMARY"@ && p.name != "DTSTART"@ && p.name != "DTEND"@
                        && p.name != "LOCATION"@ && p.name != "UID"@) ==> after == before
                },
            }
        }),
        event_of(lines) == (EventFields {
            sort_key: sort_key_of(fields_of(lines).start_raw),
            ..fields_of(lines)
        }),
{
    lemma_distinct_names();
    assert(lines.push(line).drop_last() =~= lines);
}

/// Whether a text is a date of eight digits.
pub open spec fn is_eight_digits(s: Seq<char>) -> bool {
    s.len() == 8 && forall|i: int| 0 <= i < 8 ==> '0' <= #[trigger] s[i] <= '9'
}

/// A start is a date if one of its parameters says so, in any case and in any place, or
/// if it is written as one.
pub proof fn law_dates_are_told_from_times(
    a: Seq<char>,
    says: Seq<char>,
    b: Seq<char>,
    value: Seq<char>,
)
    requires
        lacks(says, ';'),
        upper(says) == "VALUE=DATE"@,
    ensures
        date_only(says, value),
        date_only(a + seq![';'] + says, value),
        date_only(says + seq![';'] + b, value),
        date_only(a + seq![';'] + says + seq![';'] + b, value),
        is_eight_digits(value) ==> date_only(b, value),
        date_only(seq![], value) <==> is_eight_digits(value),
        date_only(b, value) && !is_eight_digits(value) ==> exists|i: int|
            0 <= i < split(b, ';').len() && upper(#[trigger] split(b, ';')[i]) == "VALUE=DATE"@,
{
    reveal_strlit("VALUE=DATE");
    let wanted = "VALUE=DATE"@;
    assert(upper(wanted) =~= wanted);
    assert(!says.contains(';'));
    let none = Seq::<char>::empty();
    lemma_split_none(says, ';');
    assert(split(says, ';')[0] == says);
    lemma_split_add(a, says, ';');
    let one = split(a + seq![';'] + says, ';');
    assert(one[split(a, ';').len() as int] == says);
    lemma_split_add(says, b, ';');
    let two = split(says + seq![';'] + b, ';');
    assert(two[0] == says);
    lemma_split_add(a + seq![';'] + says, b, ';');
    let three = split(a + seq![';'] + says + seq![';'] + b, ';');
    assert(three[split(a, ';').len() as int] == says);
    assert(is_eight_digits(value) == (value.len() == 8 && crate::ascii::all_digits(value)));
    lemma_split_none(none, ';');
    assert(split(none, ';') =~= seq![none]);
    assert(upper(none).len() == 0);
    assert(wanted.len() == 10);
    if date_only(b, value) && !is_eight_digits(value) {
        let i = choose|i: int|
            0 <= i < split(b, ';').len() && same_ignoring_case(
                #[trigger] split(b, ';')[i],
                "VALUE=DATE"@,
            );
        assert(upper(split(b, ';')[i]) == "VALUE=DATE"@);
    }
}

/// Events are ordered by the first fourteen digits of their start, with zeros for those
/// that it does not have.
pub proof fn law_keys_are_leading_digits(start: Seq<char>)
    ensures
        ({
            let d = start.filter(|c: char| '0' <= c <= '9');
            let k = sort_key_of(Some(start));
            &&& k.len() == 14
            &&& forall|i: int| 0 <= i < 14 && i < d.len() ==> #[trigger] k[i] == d[i]
            &&& forall|i: int| d.len() <= i < 14 ==> #[trigger] k[i] == '0'
        }),
        sort_key_of(None).len() == 14,
        forall|i: int| 0 <= i < 14 ==> #[trigger] sort_key_of(None)[i] == '0',
{
    let d = start.filter(|c: char| '0' <= c <= '9');
    lemma_same_filter(start);
    assert(digits(start) == d);
}

/// The digits of a text, told by their characters.
pub proof fn lemma_same_filter(s: Seq<char>)
    ensures
        digits(s) == s.filter(|c: char| '0' <= c <= '9'),
    decreases s.len(),
{
    reveal(Seq::filter);
    if s.len() > 0 {
        lemma_same_filter(s.drop_last());
    }
}

/// Whether a line is the given bracket, in any case and with any space around it.
pub open spec fn is_bracket(line: Seq<char>, bracket: Seq<char>) -> bool {
    upper(trim(line)) == bracket
}

proof fn lemma_brackets(line: Seq<char>)
    ensures
        is_begin(line) == is_bracket(line, "BEGIN:VEVENT"@),
        is_end(line) == is_bracket(line, "END:VEVENT"@),
{
    reveal_strlit("BEGIN:VEVENT");
    reveal_strlit("END:VEVENT");
    assert(upper("BEGIN:VEVENT"@) =~= "BEGIN:VEVENT"@);
    assert(upper("END:VEVENT"@) =~= "END:VEVENT"@);
}

/// Whether a line is neither bracket of an event.
pub open spec fn is_between(line: Seq<char>) -> bool {
    !is_bracket(line, "BEGIN:VEVENT"@) && !is_bracket(line, "END:VEVENT"@)
}

proof fn lemma_open(lines: Seq<Seq<char>>, begin: Seq<char>, body: Seq<Seq<char>>)
    requires
        is_bracket(begin, "BEGIN:VEVENT"@),
        forall|i: int| 0 <= i < body.len() ==> is_between(#[trigger] body[i]),
    ensures
        scan(lines.push(begin) + body).events == scan(lines).events,
        scan(lines.push(begin) + body).open == Some(body),
    decreases body.len(),
{
    let all = lines.push(begin) + body;
    lemma_brackets(begin);
    if body.len() == 0 {
        assert(all =~= lines.push(begin));
        assert(all.drop_last() =~= lines);
        assert(body =~= seq![]);
    } else {
        let rest = body.drop_last();
        assert forall|i: int| 0 <= i < rest.len() implies is_between(#[trigger] rest[i]) by {
            assert(rest[i] == body[i]);
        }
        lemma_open(lines, begin, rest);
        assert(is_between(body[body.len() - 1]));
        lemma_brackets(body.last());
        assert(all.drop_last() =~= lines.push(begin) + rest);
        assert(all.last() == body.last());
        assert(rest.push(body.last()) =~= body);
    }
}

/// An event is what stands between its brackets, and is read whatever stands before it.
/// Without the second bracket there is none, and an event that begins within it takes its
/// place. Lines outside of events say nothing.
pub proof fn law_events_stand_between_brackets(
    lines: Seq<Seq<char>>,
    begin: Seq<char>,
    body: Seq<Seq<char>>,
    end: Seq<char>,
    line: Seq<char>,
)
    requires
        is_bracket(begin, "BEGIN:VEVENT"@),
        forall|i: int| 0 <= i < body.len() ==> is_between(#[trigger] body[i]),
        is_bracket(end, "END:VEVENT"@),
    ensures
        scan(lines.push(begin) + body).events == scan(lines).events,
        scan((lines.push(begin) + body).push(end)).events == scan(lines).events + seq![
            event_of(body),
        ],
        scan((lines.push(begin) + body).push(end)).open is None,
        scan(lines).open is None && !is_bracket(line, "BEGIN:VEVENT"@) ==> scan(lines.push(line))
            == scan(lines),
        scan(Seq::<Seq<char>>::empty()).events.len() == 0,
        scan(Seq::<Seq<char>>::empty()).open is None,
{
    let inner = lines.push(begin) + body;
    lemma_open(lines, begin, body);
    assert(inner.push(end).drop_last() =~= inner);
    lemma_brackets(end);
    assert(!is_begin(end)) by {
        reveal_strlit("BEGIN:VEVENT");
        reveal_strlit("END:VEVENT");
        assert("BEGIN:VEVENT"@.len() != "END:VEVENT"@.len());
    }
    assert(scan(lines).events.push(event_of(body)) =~= scan(lines).events + seq![event_of(body)]);
    lemma_brackets(line);
    assert(lines.push(line).drop_last() =~= lines);
}

} // verus!
