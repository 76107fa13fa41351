//! What becomes of the markdown of a message.
//!
//! A message is described by its lines, a line by its marker and what stands behind
//! it, and the text of a line by its spans. From these it follows what is shown.

use crate::ascii::{all_digits, is_digit};
use crate::markdown::{
    first_mark, heading_width, in_code, inline_markup, is_bullet, is_fence,
    law_unmarked_text_splits_off, lemma_mark_text, line_markup, mark_at, mark_text, markup,
    number_width, rendered, span_len, unmarked, Mark,
};
use crate::pango::{escape_char, escaped, hex, lemma_escaped_add};
use crate::split::{join, lines, strip_cr};
use crate::text::{
    is_space, lead, lemma_find, lemma_find_is, lemma_find_none, lemma_index_of, lemma_index_of_is,
    lemma_lead, lemma_lead_bounds, starts, trim_start,
};
use vstd::prelude::*;

verus! {

// ---------------------------------------------------------------------------
// Lines
// ---------------------------------------------------------------------------

/// A line as it is typed, with its line end.
pub struct Typed {
    pub text: Seq<char>,
    /// Whether the line end has a carriage return.
    pub crlf: bool,
}

/// The text that the lines make up, with what stands behind the last line end.
pub open spec fn typed(ls: Seq<Typed>, last: Seq<char>) -> Seq<char>
    decreases ls.len(),
{
    if ls.len() == 0 {
        last
    } else {
        ls[0].text + if ls[0].crlf {
            seq!['\r', '\n']
        } else {
            seq!['\n']
        } + typed(ls.drop_first(), last)
    }
}

/// Whether these are lines: none holds a line feed, and a carriage return in front
/// of a line feed is part of the line end.
pub open spec fn are_typed(ls: Seq<Typed>, last: Seq<char>) -> bool {
    &&& !last.contains('\n')
    &&& forall|i: int|
        0 <= i < ls.len() ==> !(#[trigger] ls[i]).text.contains('\n') && (!ls[i].crlf
            && ls[i].text.len() > 0 ==> ls[i].text.last() != '\r')
}

/// The lines of the text.
pub open spec fn texts(ls: Seq<Typed>, last: Seq<char>) -> Seq<Seq<char>> {
    Seq::new(ls.len(), |i: int| ls[i].text) + if last.len() > 0 {
        seq![last]
    } else {
        seq![]
    }
}

/// Whether a line opens or closes a code block: three backticks, with nothing but
/// space in front of them.
pub open spec fn is_border(line: Seq<char>) -> bool {
    exists|n: int|
        #![trigger line[n]]
        {
            &&& 0 <= n
            &&& n + 3 <= line.len()
            &&& line[n] == '`' && line[n + 1] == '`' && line[n + 2] == '`'
            &&& forall|j: int| 0 <= j < n ==> is_space(#[trigger] line[j])
        }
}

/// What is seen of the lines: in a code block each line whole, in a monospace font;
/// outside of one the markup of each line; and nothing of the borders.
pub open spec fn seen(ls: Seq<Seq<char>>, code: bool) -> Seq<Seq<char>>
    decreases ls.len(),
{
    if ls.len() == 0 {
        seq![]
    } else if is_border(ls[0]) {
        seen(ls.drop_first(), !code)
    } else if code {
        seq!["<tt>"@ + escaped(ls[0]) + "</tt>"@] + seen(ls.drop_first(), code)
    } else {
        seq![line_markup(ls[0])] + seen(ls.drop_first(), code)
    }
}

proof fn lemma_typed_lines(ls: Seq<Typed>, last: Seq<char>)
    requires
        are_typed(ls, last),
    ensures
        lines(typed(ls, last)) == texts(ls, last),
    decreases ls.len(),
{
    let s = typed(ls, last);
    if ls.len() == 0 {
        if last.len() > 0 {
            assert forall|j: int| 0 <= j < last.len() implies last[j] != '\n' by {
                assert(last.contains(last[j]));
            }
            lemma_index_of_is(last, '\n', last.len() as int);
        }
        assert(texts(ls, last) =~= lines(s));
    } else {
        let l = ls[0];
        let rest = ls.drop_first();
        assert forall|i: int| 0 <= i < rest.len() implies !(#[trigger] rest[i]).text.contains(
            '\n',
        ) && (!rest[i].crlf && rest[i].text.len() > 0 ==> rest[i].text.last() != '\r') by {
            assert(rest[i] == ls[i + 1]);
        }
        lemma_typed_lines(rest, last);
        let head = if l.crlf {
            l.text.push('\r')
        } else {
            l.text
        };
        let n = head.len() as int;
        assert(s =~= head + seq!['\n'] + typed(rest, last));
        assert forall|j: int| 0 <= j < n implies s[j] != '\n' by {
            if j < l.text.len() {
                assert(l.text.contains(l.text[j]));
                assert(s[j] == l.text[j]);
            }
        }
        lemma_index_of_is(s, '\n', n);
        assert(s.take(n) =~= head);
        assert(s.skip(n + 1) =~= typed(rest, last));
        assert(strip_cr(head) =~= l.text);
        assert(texts(ls, last) =~= seq![l.text] + texts(rest, last));
    }
}

proof fn lemma_border(line: Seq<char>)
    ensures
        is_border(line) == is_fence(line),
{
    reveal_strlit("```");
    lemma_lead_bounds(line);
    let k = lead(line);
    let t = trim_start(line);
    if is_fence(line) {
        assert(t.take(3)[0] == '`' && t.take(3)[1] == '`' && t.take(3)[2] == '`');
        assert(line[k] == t[0] && line[k + 1] == t[1] && line[k + 2] == t[2]);
        assert(is_border(line));
    }
    if is_border(line) {
        let n = choose|n: int|
            #![trigger line[n]]
            {
                &&& 0 <= n
                &&& n + 3 <= line.len()
                &&& line[n] == '`' && line[n + 1] == '`' && line[n + 2] == '`'
                &&& forall|j: int| 0 <= j < n ==> is_space(#[trigger] line[j])
            };
        lemma_lead(line, n);
        assert(t.take(3) =~= "```"@);
    }
}

proof fn lemma_seen(before: Seq<Seq<char>>, ls: Seq<Seq<char>>)
    ensures
        rendered(before + ls) == rendered(before) + seen(ls, in_code(before)),
    decreases ls.len(),
{
    if ls.len() == 0 {
        assert(before + ls =~= before);
        assert(rendered(before) + seen(ls, in_code(before)) =~= rendered(before));
    } else {
        let line = ls[0];
        let next = before.push(line);
        lemma_border(line);
        lemma_seen(next, ls.drop_first());
        assert(next + ls.drop_first() =~= before + ls);
        assert(next.drop_last() =~= before);
        assert(rendered(next) + seen(ls.drop_first(), in_code(next)) =~= rendered(before) + seen(
            ls,
            in_code(before),
        ));
    }
}

/// A message is shown line by line: the markup of each line outside of code blocks,
/// each line of a code block as it was written, indentation included, and nothing
/// of the lines that open and close the blocks.
pub proof fn law_message_is_shown_line_by_line(ls: Seq<Typed>, last: Seq<char>)
    requires
        are_typed(ls, last),
    ensures
        markup(typed(ls, last)) == join(seen(texts(ls, last), false), seq!['\n']),
{
    reveal_strlit("\n");
    assert("\n"@ =~= seq!['\n']);
    lemma_typed_lines(ls, last);
    let none = Seq::<Seq<char>>::empty();
    lemma_seen(none, texts(ls, last));
    assert(none + texts(ls, last) =~= texts(ls, last));
    assert(rendered(none) + seen(texts(ls, last), false) =~= seen(texts(ls, last), false));
}

/// Every line of a code block is shown whole: its markup, without the tags, is the
/// line with only its special characters written otherwise.
pub proof fn law_code_is_shown_as_written(open: Typed, code: Seq<Typed>)
    requires
        are_typed(seq![open] + code, seq![]),
        is_border(open.text),
        forall|i: int| 0 <= i < code.len() ==> !is_border(#[trigger] code[i].text),
    ensures
        markup(typed(seq![open] + code, seq![])) == join(
            Seq::new(code.len(), |i: int| "<tt>"@ + escaped(code[i].text) + "</tt>"@),
            seq!['\n'],
        ),
{
    let ls = seq![open] + code;
    let none = Seq::<char>::empty();
    law_message_is_shown_line_by_line(ls, none);
    let all = texts(ls, none);
    let rest = Seq::new(code.len(), |i: int| code[i].text);
    assert(all[0] == open.text);
    assert(all.drop_first() =~= rest);
    lemma_seen_code(rest);
    assert(seen(rest, true) =~= Seq::new(
        code.len(),
        |i: int| "<tt>"@ + escaped(code[i].text) + "</tt>"@,
    ));
}

proof fn lemma_seen_code(ls: Seq<Seq<char>>)
    requires
        forall|i: int| 0 <= i < ls.len() ==> !is_border(#[trigger] ls[i]),
    ensures
        seen(ls, true) == Seq::new(ls.len(), |i: int| "<tt>"@ + escaped(ls[i]) + "</tt>"@),
    decreases ls.len(),
{
    let want = Seq::new(ls.len(), |i: int| "<tt>"@ + escaped(ls[i]) + "</tt>"@);
    if ls.len() > 0 {
        let rest = ls.drop_first();
        assert forall|i: int| 0 <= i < rest.len() implies !is_border(#[trigger] rest[i]) by {
            assert(rest[i] == ls[i + 1]);
        }
        lemma_seen_code(rest);
        assert(!is_border(ls[0]));
        assert(seen(ls, true) =~= want);
    } else {
        assert(seen(ls, true) =~= want);
    }
}

// ---------------------------------------------------------------------------
// The markers of lines
// ---------------------------------------------------------------------------

/// Whether the text is nothing but space.
pub open spec fn is_blank(s: Seq<char>) -> bool {
    forall|i: int| 0 <= i < s.len() ==> is_space(#[trigger] s[i])
}

proof fn lemma_indented(indent: Seq<char>, t: Seq<char>)
    requires
        is_blank(indent),
        t.len() > 0 ==> !is_space(t[0]),
    ensures
        lead(indent + t) == indent.len(),
        trim_start(indent + t) == t,
        (indent + t).take(lead(indent + t)) == indent,
{
    let s = indent + t;
    let n = indent.len() as int;
    assert forall|j: int| 0 <= j < n implies is_space(s[j]) by {
        assert(s[j] == indent[j]);
    }
    if n < s.len() {
        assert(s[n] == t[0]);
    }
    lemma_lead(s, n);
    assert(s.skip(n) =~= t);
    assert(s.take(n) =~= indent);
}

proof fn lemma_markers()
    ensures
        "### "@ == seq!['#', '#', '#', ' '],
        "## "@ == seq!['#', '#', ' '],
        "# "@ == seq!['#', ' '],
        "- "@ == seq!['-', ' '],
        "* "@ == seq!['*', ' '],
        ". "@ == seq!['.', ' '],
        "  "@ == seq![' ', ' '],
{
    reveal_strlit("### ");
    reveal_strlit("## ");
    reveal_strlit("# ");
    reveal_strlit("- ");
    reveal_strlit("* ");
    reveal_strlit(". ");
    reveal_strlit("  ");
    assert("### "@ =~= seq!['#', '#', '#', ' ']);
    assert("## "@ =~= seq!['#', '#', ' ']);
    assert("# "@ =~= seq!['#', ' ']);
    assert("- "@ =~= seq!['-', ' ']);
    assert("* "@ =~= seq!['*', ' ']);
    assert(". "@ =~= seq!['.', ' ']);
    assert("  "@ =~= seq![' ', ' ']);
}

/// A heading of the first three levels is bold, without its marker and its
/// indentation.
pub proof fn law_headings_are_bold(indent: Seq<char>, level: nat, text: Seq<char>)
    requires
        is_blank(indent),
        1 <= level <= 3,
    ensures
        line_markup(indent + Seq::new(level, |i: int| '#') + seq![' '] + text) == "<b>"@
            + inline_markup(text) + "</b>"@,
{
    lemma_markers();
    let hashes = Seq::new(level, |i: int| '#');
    let t = hashes + seq![' '] + text;
    assert(indent + hashes + seq![' '] + text =~= indent + t);
    assert(t[0] == '#');
    lemma_indented(indent, t);
    assert(t[level as int] == ' ');
    let w = level as int + 1;
    assert(t.skip(w) =~= text);
    if level == 3 {
        assert(t.take(4) =~= "### "@);
    } else if level == 2 {
        assert(t.take(3) =~= "## "@);
        if starts(t, "### "@) {
            assert(t.take(4)[2] == '#');
        }
    } else {
        assert(t.take(2) =~= "# "@);
        if starts(t, "### "@) {
            assert(t.take(4)[1] == '#');
        }
        if starts(t, "## "@) {
            assert(t.take(3)[1] == '#');
        }
    }
    assert(heading_width(t) == w);
}

/// An item of a list has a bullet in place of its marker, and keeps its
/// indentation.
pub proof fn law_items_have_bullets(indent: Seq<char>, marker: char, text: Seq<char>)
    requires
        is_blank(indent),
        marker == '-' || marker == '*',
    ensures
        line_markup(indent + seq![marker, ' '] + text) == indent + "  •  "@ + inline_markup(text),
{
    lemma_markers();
    let t = seq![marker, ' '] + text;
    assert(indent + seq![marker, ' '] + text =~= indent + t);
    assert(t[0] == marker);
    lemma_indented(indent, t);
    lemma_no_heading(t);
    assert(t.take(2) =~= seq![marker, ' ']);
    assert(t.skip(2) =~= text);
}

proof fn lemma_no_heading(t: Seq<char>)
    requires
        t.len() > 0 ==> t[0] != '#',
    ensures
        heading_width(t) == 0,
{
    lemma_markers();
    if starts(t, "### "@) {
        assert(t.take(4)[0] == '#');
    }
    if starts(t, "## "@) {
        assert(t.take(3)[0] == '#');
    }
    if starts(t, "# "@) {
        assert(t.take(2)[0] == '#');
    }
}

/// A numbered item keeps its number and its indentation.
pub proof fn law_numbered_items_keep_their_number(
    indent: Seq<char>,
    number: Seq<char>,
    text: Seq<char>,
)
    requires
        is_blank(indent),
        number.len() > 0,
        forall|i: int| 0 <= i < number.len() ==> '0' <= #[trigger] number[i] <= '9',
    ensures
        line_markup(indent + number + seq!['.', ' '] + text) == indent + number + seq![
            '.',
            ' ',
            ' ',
        ] + inline_markup(text),
{
    lemma_markers();
    let t = number + seq!['.', ' '] + text;
    let n = number.len() as int;
    assert(indent + number + seq!['.', ' '] + text =~= indent + t);
    assert(t[0] == number[0]);
    assert('0' <= number[0] <= '9');
    lemma_indented(indent, t);
    lemma_no_heading(t);
    if is_bullet(t) {
        assert(t.take(2)[0] == t[0]);
    }
    assert(t.skip(n).take(2) =~= ". "@);
    assert forall|j: int| 0 <= j < n implies !starts(#[trigger] t.skip(j), ". "@) by {
        assert(t[j] == number[j]);
        if starts(t.skip(j), ". "@) {
            assert(t.skip(j).take(2)[0] == t[j]);
        }
    }
    lemma_find_is(t, ". "@, n);
    assert(t.take(n) =~= number);
    assert(all_digits(number));
    assert(number_width(t) == n);
    assert(t.take(n + 1) =~= number + seq!['.']);
    assert(t.skip(n + 2) =~= text);
    let inner = inline_markup(text);
    assert(indent + (number + seq!['.']) + seq![' ', ' '] + inner =~= indent + number + seq![
        '.',
        ' ',
        ' ',
    ] + inner);
}

/// Whether the text starts with a marker of a line.
pub open spec fn has_marker(t: Seq<char>) -> bool {
    ||| exists|level: int|
        #![trigger t[level]]
        {
            &&& 1 <= level <= 3
            &&& level < t.len()
            &&& t[level] == ' '
            &&& forall|j: int| 0 <= j < level ==> #[trigger] t[j] == '#'
        }
    ||| t.len() >= 2 && (t[0] == '-' || t[0] == '*') && t[1] == ' '
    ||| exists|n: int|
        #![trigger t[n]]
        {
            &&& 0 < n
            &&& n + 1 < t.len()
            &&& t[n] == '.' && t[n + 1] == ' '
            &&& forall|j: int| 0 <= j < n ==> '0' <= #[trigger] t[j] <= '9'
        }
}

/// Any other line keeps its indentation, and its text is shown with its spans.
pub proof fn law_other_lines_keep_their_text(indent: Seq<char>, text: Seq<char>)
    requires
        is_blank(indent),
        text.len() > 0 ==> !is_space(text[0]),
        !has_marker(text),
    ensures
        line_markup(indent + text) == indent + inline_markup(text),
{
    lemma_markers();
    lemma_indented(indent, text);
    let t = text;
    if starts(t, "### "@) {
        let h = t.take(4);
        assert(t[0] == h[0] && t[1] == h[1] && t[2] == h[2] && t[3] == h[3]);
        assert(has_marker(t));
    }
    if starts(t, "## "@) {
        let h = t.take(3);
        assert(t[0] == h[0] && t[1] == h[1] && t[2] == h[2]);
        assert(has_marker(t));
    }
    if starts(t, "# "@) {
        let h = t.take(2);
        assert(t[0] == h[0] && t[1] == h[1]);
        assert(has_marker(t));
    }
    if is_bullet(t) {
        let h = t.take(2);
        assert(t[0] == h[0] && t[1] == h[1]);
    }
    lemma_find(t, ". "@);
    if number_width(t) > 0 {
        let n = number_width(t);
        let h = t.skip(n).take(2);
        assert(t[n] == h[0] && t[n + 1] == h[1]);
        assert forall|j: int| 0 <= j < n implies '0' <= #[trigger] t[j] <= '9' by {
            assert(is_digit(t.take(n)[j]));
        }
        assert(has_marker(t));
    }
}

// ---------------------------------------------------------------------------
// Spans
// ---------------------------------------------------------------------------

/// The characters of a marker.
pub open spec fn marker(m: Mark) -> Seq<char> {
    match m {
        Mark::Code => seq!['`'],
        Mark::Bold => seq!['*', '*'],
        Mark::Italic => seq!['*'],
    }
}

/// Whether the text occurs at a position.
pub open spec fn occurs(s: Seq<char>, p: Seq<char>, n: int) -> bool {
    0 <= n && n + p.len() <= s.len() && s.subrange(n, n + p.len()) == p
}

/// Whether the marker that a text starts with is this one: two asterisks in a row
/// are one marker.
pub open spec fn is_marker_of(m: Mark, after: Seq<char>) -> bool {
    m is Italic ==> after.len() == 0 || after[0] != '*'
}

proof fn lemma_marker(m: Mark)
    ensures
        marker(m) == mark_text(m),
{
    lemma_mark_text(m);
    assert(marker(m) =~= mark_text(m));
}

proof fn lemma_occurs(s: Seq<char>, p: Seq<char>, n: int)
    requires
        0 <= n <= s.len(),
    ensures
        occurs(s, p, n) == starts(s.skip(n), p),
{
    if n + p.len() <= s.len() {
        assert(s.skip(n).take(p.len() as int) =~= s.subrange(n, n + p.len()));
    }
}

/// The first step of reading the text of a line that starts with a marker.
proof fn lemma_at_marker(m: Mark, after: Seq<char>)
    requires
        is_marker_of(m, after),
    ensures
        inline_markup(marker(m) + after) == match span_len(after, m) {
            Some(end) => {
                let inner = after.take(end);
                let rest = inline_markup(after.skip(end + marker(m).len()));
                match m {
                    Mark::Code => "<tt>"@ + escaped(inner) + "</tt>"@ + rest,
                    Mark::Bold => "<b>"@ + inline_markup(inner) + "</b>"@ + rest,
                    Mark::Italic => "<i>"@ + inline_markup(inner) + "</i>"@ + rest,
                }
            },
            None => marker(m) + inline_markup(after),
        },
{
    lemma_marker(m);
    lemma_mark_text(m);
    let s = marker(m) + after;
    let width = marker(m).len() as int;
    lemma_index_of(s, '`');
    lemma_index_of(s, '*');
    assert(s[0] == marker(m)[0]);
    lemma_index_of_is(s, s[0], 0);
    assert(first_mark(s) == 0);
    if s.len() > 1 {
        if width == 2 {
            assert(s[1] == '*');
        } else {
            assert(s[1] == after[0]);
        }
    }
    assert(mark_at(s, 0) == m);
    assert(s.skip(0 + width) =~= after);
    let none = s.take(0);
    assert(none =~= Seq::<char>::empty());
    assert(escaped(none) =~= Seq::<char>::empty());
    lemma_find(after, mark_text(m));
    match span_len(after, m) {
        Some(end) => {
            let inner = after.take(end);
            let rest = inline_markup(after.skip(end + width));
            match m {
                Mark::Code => {
                    assert(escaped(none) + ("<tt>"@ + escaped(inner) + "</tt>"@) + rest =~= "<tt>"@
                        + escaped(inner) + "</tt>"@ + rest);
                },
                Mark::Bold => {
                    assert(escaped(none) + ("<b>"@ + inline_markup(inner) + "</b>"@) + rest
                        =~= "<b>"@ + inline_markup(inner) + "</b>"@ + rest);
                },
                Mark::Italic => {
                    assert(escaped(none) + ("<i>"@ + inline_markup(inner) + "</i>"@) + rest
                        =~= "<i>"@ + inline_markup(inner) + "</i>"@ + rest);
                },
            }
        },
        None => {
            assert(escaped(none) + mark_text(m) + inline_markup(after) =~= marker(m)
                + inline_markup(after));
        },
    }
}

/// Text between a marker and the next one like it is one span: code is shown as it
/// is, and inside bold and italic text the markers count again. What stands before
/// is shown as it is, and what follows as if it stood alone.
pub proof fn law_spans_are_styled(a: Seq<char>, m: Mark, b: Seq<char>, c: Seq<char>)
    requires
        unmarked(a),
        b.len() > 0,
        is_marker_of(m, b),
        forall|n: int| 0 <= n < b.len() ==> !occurs(b + marker(m) + c, marker(m), n),
    ensures
        inline_markup(a + (marker(m) + (b + marker(m) + c))) == escaped(a) + match m {
            Mark::Code => "<tt>"@ + escaped(b) + "</tt>"@,
            Mark::Bold => "<b>"@ + inline_markup(b) + "</b>"@,
            Mark::Italic => "<i>"@ + inline_markup(b) + "</i>"@,
        } + inline_markup(c),
{
    let after = b + marker(m) + c;
    let w = marker(m).len() as int;
    assert(after[0] == b[0]);
    lemma_marker(m);
    law_unmarked_text_splits_off(a, marker(m) + after);
    lemma_at_marker(m, after);
    let end = b.len() as int;
    assert(after.skip(end).take(w) =~= marker(m));
    assert forall|j: int| 0 <= j < end implies !starts(#[trigger] after.skip(j), mark_text(m)) by {
        lemma_occurs(after, marker(m), j);
        assert(!occurs(after, marker(m), j));
    }
    lemma_find_is(after, mark_text(m), end);
    assert(after.take(end) =~= b);
    assert(after.skip(end + w) =~= c);
    let rest = inline_markup(c);
    match m {
        Mark::Code => {
            assert(escaped(a) + ("<tt>"@ + escaped(b) + "</tt>"@ + rest) =~= escaped(a) + ("<tt>"@
                + escaped(b) + "</tt>"@) + rest);
        },
        Mark::Bold => {
            assert(escaped(a) + ("<b>"@ + inline_markup(b) + "</b>"@ + rest) =~= escaped(a)
                + ("<b>"@ + inline_markup(b) + "</b>"@) + rest);
        },
        Mark::Italic => {
            assert(escaped(a) + ("<i>"@ + inline_markup(b) + "</i>"@ + rest) =~= escaped(a)
                + ("<i>"@ + inline_markup(b) + "</i>"@) + rest);
        },
    }
}

/// A marker that has none like it behind it, or has it right behind it, stands for
/// itself, and what follows is shown as if it stood alone.
pub proof fn law_lone_markers_are_literal(a: Seq<char>, m: Mark, c: Seq<char>)
    requires
        unmarked(a),
        is_marker_of(m, c),
        occurs(c, marker(m), 0) || forall|n: int| 0 <= n <= c.len() ==> !occurs(c, marker(m), n),
    ensures
        inline_markup(a + (marker(m) + c)) == escaped(a) + marker(m) + inline_markup(c),
{
    lemma_marker(m);
    law_unmarked_text_splits_off(a, marker(m) + c);
    lemma_at_marker(m, c);
    if occurs(c, marker(m), 0) {
        lemma_occurs(c, marker(m), 0);
        assert forall|j: int| 0 <= j < 0 implies !starts(#[trigger] c.skip(j), mark_text(m)) by {}
        lemma_find_is(c, mark_text(m), 0);
    } else {
        assert forall|j: int| 0 <= j <= c.len() implies !starts(#[trigger] c.skip(j), mark_text(
            m,
        )) by {
            lemma_occurs(c, marker(m), j);
            assert(!occurs(c, marker(m), j));
        }
        lemma_find_none(c, mark_text(m));
    }
    assert(escaped(a) + (marker(m) + inline_markup(c)) =~= escaped(a) + marker(m) + inline_markup(
        c,
    ));
}

// ---------------------------------------------------------------------------
// Characters
// ---------------------------------------------------------------------------

/// How a special character is written in markup.
pub open spec fn entity(c: char) -> Option<Seq<char>> {
    if c == '&' {
        Some(seq!['&', 'a', 'm', 'p', ';'])
    } else if c == '<' {
        Some(seq!['&', 'l', 't', ';'])
    } else if c == '>' {
        Some(seq!['&', 'g', 't', ';'])
    } else if c == '\'' {
        Some(seq!['&', '#', '3', '9', ';'])
    } else if c == '"' {
        Some(seq!['&', 'q', 'u', 'o', 't', ';'])
    } else {
        None
    }
}

/// Every character is shown: the special ones by their entities, all others but
/// control characters as they are, each in its place.
pub proof fn law_every_character_is_shown(a: Seq<char>, c: char, b: Seq<char>)
    requires
        entity(c) is Some || c == '\t' || c == '\n' || c == '\r' || (32 <= c as int && c as int
            != 127 && !(128 <= c as int <= 159)) || c as int == 0x85,
    ensures
        escaped(a + seq![c] + b) == escaped(a) + match entity(c) {
            Some(e) => e,
            None => seq![c],
        } + escaped(b),
        escaped(seq![]) == Seq::<char>::empty(),
{
    reveal_strlit("&amp;");
    reveal_strlit("&lt;");
    reveal_strlit("&gt;");
    reveal_strlit("&#39;");
    reveal_strlit("&quot;");
    lemma_escaped_add(a + seq![c], b);
    lemma_escaped_add(a, seq![c]);
    let one = seq![c];
    assert(one.drop_last() =~= Seq::<char>::empty());
    assert(escaped(one.drop_last()) =~= Seq::<char>::empty());
    assert(escaped(one) =~= escape_char(c));
    match entity(c) {
        Some(e) => {
            assert(escape_char(c) =~= e);
        },
        None => {},
    }
}

/// A hexadecimal digit.
pub open spec fn nibble(n: int) -> char {
    if n == 10 {
        'a'
    } else if n == 11 {
        'b'
    } else if n == 12 {
        'c'
    } else if n == 13 {
        'd'
    } else if n == 14 {
        'e'
    } else if n == 15 {
        'f'
    } else {
        (48 + n) as char
    }
}

/// Control characters are written by their numbers, without leading zeros.
pub proof fn law_control_characters_are_numbered(c: char)
    requires
        0 < (c as int) < 32 || 127 <= c as int <= 159,
        c != '\t' && c != '\n' && c != '\r' && c as int != 0x85,
    ensures
        ({
            let n = c as int;
            escaped(seq![c]) == seq!['&', '#', 'x'] + (if n < 16 {
                seq![nibble(n)]
            } else {
                seq![nibble(n / 16), nibble(n % 16)]
            }) + seq![';']
        }),
{
    reveal_strlit("&#x");
    reveal_strlit(";");
    let n = c as int;
    assert(seq![c].drop_last() =~= Seq::<char>::empty());
    reveal_with_fuel(escaped, 2);
    reveal_with_fuel(hex, 2);
    assert("&#x"@ =~= seq!['&', '#', 'x']);
    assert(";"@ =~= seq![';']);
    assert(Seq::<char>::empty() + escape_char(c) =~= escape_char(c));
    if n >= 16 {
        assert(hex(c as nat) =~= seq![nibble(n / 16), nibble(n % 16)]);
    } else {
        assert(hex(c as nat) =~= seq![nibble(n)]);
    }
}

} // verus!
