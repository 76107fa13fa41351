//! Minimal markdown to Pango markup conversion for assistant messages: fenced
//! code blocks, inline code, bold, italic, headings and list bullets.
//!
//! Tolerant of incomplete input by construction: the streaming view renders the
//! text so far again and again, so an unclosed `**` or backtick is emitted
//! literally rather than as a dangling tag.

use crate::ascii::{all_digits, every_digit};
use crate::pango::{
    balanced, escape_char, escaped, hex, lemma_balanced_add, lemma_balanced_well_formed, lemma_escaped_add,
    lemma_escaped_balanced, lemma_plain_balanced, lemma_styled_balanced, no_nul, push_escaped,
    well_formed,
};
use crate::split::{join, join_strings, lines, lines_of, pieces, strip_cr};
use crate::text::{
    chars_of, find, find_in, index_of, is_space, lead, lead_len, lemma_find, lemma_index_of,
    lemma_index_of_is, lemma_lead_bounds, position, push_chars, starts, starts_with, trim_start,
    views,
};
use vstd::prelude::*;
use vstd::slice::slice_subrange;

verus! {

/// The markers of inline spans.
pub enum Mark {
    /// A backtick: inline code.
    Code,
    /// Two asterisks.
    Bold,
    /// One asterisk.
    Italic,
}

/// The characters of a marker.
pub open spec fn mark_text(m: Mark) -> Seq<char> {
    match m {
        Mark::Code => "`"@,
        Mark::Bold => "**"@,
        Mark::Italic => "*"@,
    }
}

/// Position of the first backtick or asterisk, or the length of the text.
pub open spec fn first_mark(s: Seq<char>) -> int {
    let code = index_of(s, '`');
    let star = index_of(s, '*');
    if code < star {
        code
    } else {
        star
    }
}

/// The marker at a position that holds a backtick or an asterisk: two asterisks
/// in a row count as one marker.
pub open spec fn mark_at(s: Seq<char>, i: int) -> Mark {
    if s[i] == '`' {
        Mark::Code
    } else if i + 1 < s.len() && s[i + 1] == '*' {
        Mark::Bold
    } else {
        Mark::Italic
    }
}

/// Length of the text between an opening marker and the next such marker, if
/// there is one and something stands between them.
pub open spec fn span_len(after: Seq<char>, m: Mark) -> Option<int> {
    match find(after, mark_text(m)) {
        Some(end) => if end > 0 {
            Some(end)
        } else {
            None
        },
        None => None,
    }
}

/// Markup of the text of one line. Code is opaque; markers inside bold and
/// italic text count again. A marker that nothing closes is literal.
pub open spec fn inline_markup(s: Seq<char>) -> Seq<char>
    decreases s.len(),
{
    let i = first_mark(s);
    proof {
        lemma_index_of(s, '`');
        lemma_index_of(s, '*');
        lemma_mark_text(mark_at(s, i));
    }
    if i >= s.len() {
        escaped(s)
    } else {
        let m = mark_at(s, i);
        let width = mark_text(m).len() as int;
        let before = escaped(s.take(i));
        let after = s.skip(i + width);
        proof {
            lemma_find(after, mark_text(m));
        }
        match span_len(after, m) {
            Some(end) => {
                let inner = after.take(end);
                let rest = inline_markup(after.skip(end + width));
                match m {
                    Mark::Code => before + ("<tt>"@ + escaped(inner) + "</tt>"@) + rest,
                    Mark::Bold => before + ("<b>"@ + inline_markup(inner) + "</b>"@) + rest,
                    Mark::Italic => before + ("<i>"@ + inline_markup(inner) + "</i>"@) + rest,
                }
            },
            None => before + mark_text(m) + inline_markup(after),
        }
    }
}

/// Width of the heading marker that the text starts with: up to three number
/// signs and a space.
pub open spec fn heading_width(t: Seq<char>) -> int {
    if starts(t, "### "@) {
        4
    } else if starts(t, "## "@) {
        3
    } else if starts(t, "# "@) {
        2
    } else {
        0
    }
}

/// Whether the text starts with a bullet marker.
pub open spec fn is_bullet(t: Seq<char>) -> bool {
    starts(t, "- "@) || starts(t, "* "@)
}

/// Number of digits in front of the first `. `, where the text starts with a
/// numbered list marker; otherwise zero.
pub open spec fn number_width(t: Seq<char>) -> int {
    match find(t, ". "@) {
        Some(dot) => if dot > 0 && all_digits(t.take(dot)) {
            dot
        } else {
            0
        },
        None => 0,
    }
}

/// Markup of one line outside a code block. Headings are bold and lose their
/// indentation; bullets and numbered items keep it.
pub open spec fn line_markup(line: Seq<char>) -> Seq<char> {
    let t = trim_start(line);
    let indent = line.take(lead(line));
    let heading = heading_width(t);
    let number = number_width(t);
    if heading > 0 {
        "<b>"@ + inline_markup(t.skip(heading)) + "</b>"@
    } else if is_bullet(t) {
        indent + "  •  "@ + inline_markup(t.skip(2))
    } else if number > 0 {
        indent + t.take(number + 1) + "  "@ + inline_markup(t.skip(number + 2))
    } else {
        indent + inline_markup(t)
    }
}

/// Whether a line opens or closes a code block.
pub open spec fn is_fence(line: Seq<char>) -> bool {
    starts(trim_start(line), "```"@)
}

/// Whether a code block is open behind the given lines.
pub open spec fn in_code(ls: Seq<Seq<char>>) -> bool
    decreases ls.len(),
{
    if ls.len() == 0 {
        false
    } else {
        in_code(ls.drop_last()) != is_fence(ls.last())
    }
}

/// The markup of each line that is shown. Fences are dropped; each line of a
/// code block is monospace and otherwise literal.
pub open spec fn rendered(ls: Seq<Seq<char>>) -> Seq<Seq<char>>
    decreases ls.len(),
{
    if ls.len() == 0 {
        seq![]
    } else {
        let before = ls.drop_last();
        let line = ls.last();
        if is_fence(line) {
            rendered(before)
        } else if in_code(before) {
            rendered(before).push("<tt>"@ + escaped(line) + "</tt>"@)
        } else {
            rendered(before).push(line_markup(line))
        }
    }
}

/// The markup of a whole message.
pub open spec fn markup(text: Seq<char>) -> Seq<char> {
    join(rendered(lines(text)), "\n"@)
}

pub proof fn lemma_mark_text(m: Mark)
    ensures
        mark_text(m).len() == if m is Bold {
            2int
        } else {
            1
        },
        forall|i: int|
            0 <= i < mark_text(m).len() ==> #[trigger] mark_text(m)[i] == if m is Code {
                '`'
            } else {
                '*'
            },
{
    reveal_strlit("`");
    reveal_strlit("**");
    reveal_strlit("*");
}

proof fn lemma_no_nul_sub(s: Seq<char>, a: int, b: int)
    requires
        no_nul(s),
        0 <= a <= b <= s.len(),
    ensures
        no_nul(s.subrange(a, b)),
{
    assert forall|i: int| 0 <= i < b - a implies #[trigger] s.subrange(a, b)[i] != '\0' by {
        assert(s[i + a] != '\0');
    }
}

/// The markup of a span with its tags.
pub open spec fn span_markup(m: Mark, inner: Seq<char>) -> Seq<char> {
    match m {
        Mark::Code => "<tt>"@ + escaped(inner) + "</tt>"@,
        Mark::Bold => "<b>"@ + inline_markup(inner) + "</b>"@,
        Mark::Italic => "<i>"@ + inline_markup(inner) + "</i>"@,
    }
}

/// The first step of the scan, where the text holds a marker.
proof fn lemma_inline_step(s: Seq<char>)
    requires
        first_mark(s) < s.len(),
    ensures
        ({
            let i = first_mark(s);
            let m = mark_at(s, i);
            let width = mark_text(m).len() as int;
            let after = s.skip(i + width);
            &&& 0 <= i
            &&& i + width <= s.len()
            &&& inline_markup(s) == match span_len(after, m) {
                Some(end) => escaped(s.take(i)) + span_markup(m, after.take(end)) + inline_markup(
                    after.skip(end + width),
                ),
                None => escaped(s.take(i)) + mark_text(m) + inline_markup(after),
            }
        }),
{
    lemma_index_of(s, '`');
    lemma_index_of(s, '*');
    lemma_mark_text(mark_at(s, first_mark(s)));
}

/// The characters of a marker.
fn mark_chars(m: &Mark) -> (r: Vec<char>)
    ensures
        r@ == mark_text(*m),
        1 <= r@.len() <= 2,
{
    let mut out: Vec<char> = Vec::new();
    match m {
        Mark::Code => {
            out.push('`');
        },
        Mark::Bold => {
            out.push('*');
            out.push('*');
        },
        Mark::Italic => {
            out.push('*');
        },
    }
    proof {
        lemma_mark_text(*m);
        assert(out@ =~= mark_text(*m));
    }
    out
}

/// Append a span with its tags.
fn push_span(out: &mut String, m: &Mark, inner: &[char])
    requires
        no_nul(inner@),
    ensures
        final(out)@ == old(out)@ + span_markup(*m, inner@),
    decreases inner@.len(), 1int,
{
    let ghost start = out@;
    match m {
        Mark::Code => {
            out.append("<tt>");
            push_escaped(out, inner);
            out.append("</tt>");
        },
        Mark::Bold => {
            out.append("<b>");
            push_inline(out, inner);
            out.append("</b>");
        },
        Mark::Italic => {
            out.append("<i>");
            push_inline(out, inner);
            out.append("</i>");
        },
    }
    assert(out@ =~= start + span_markup(*m, inner@));
}

/// Append the markup of the text of one line.
fn push_inline(out: &mut String, s: &[char])
    requires
        no_nul(s@),
    ensures
        final(out)@ == old(out)@ + inline_markup(s@),
    decreases s@.len(), 0int,
{
    let mut rest: &[char] = s;
    while rest.len() > 0
        invariant
            no_nul(rest@),
            rest@.len() <= s@.len(),
            old(out)@ + inline_markup(s@) == out@ + inline_markup(rest@),
        decreases rest@.len(),
    {
        let ghost whole = rest@;
        let ghost before = out@;
        proof {
            lemma_index_of(whole, '`');
            lemma_index_of(whole, '*');
        }
        let code: usize = position(rest, '`');
        let star: usize = position(rest, '*');
        let i: usize = if code < star {
            code
        } else {
            star
        };
        if i == rest.len() {
            push_escaped(out, rest);
            return;
        }
        let mark = if rest[i] == '`' {
            Mark::Code
        } else if i + 1 < rest.len() && rest[i + 1] == '*' {
            Mark::Bold
        } else {
            Mark::Italic
        };
        let marker = mark_chars(&mark);
        let width: usize = marker.len();
        proof {
            assert(mark == mark_at(whole, i as int));
            lemma_inline_step(whole);
            lemma_no_nul_sub(whole, 0, i as int);
            assert(whole.subrange(0, i as int) =~= whole.take(i as int));
            lemma_no_nul_sub(whole, i + width, whole.len() as int);
            assert(whole.subrange(i + width, whole.len() as int) =~= whole.skip(i + width));
        }
        push_escaped(out, slice_subrange(rest, 0, i));
        let after = slice_subrange(rest, i + width, rest.len());
        let end: usize = match find_in(after, marker.as_slice()) {
            Some(n) => n,
            None => 0,
        };
        if end > 0 {
            proof {
                lemma_no_nul_sub(after@, 0, end as int);
                assert(after@.subrange(0, end as int) =~= after@.take(end as int));
                lemma_no_nul_sub(after@, end + width, after@.len() as int);
                assert(after@.subrange(end + width, after@.len() as int) =~= after@.skip(
                    end + width,
                ));
            }
            push_span(out, &mark, slice_subrange(after, 0, end));
            rest = slice_subrange(after, end + width, after.len());
            proof {
                assert(before + (escaped(whole.take(i as int)) + span_markup(
                    mark,
                    after@.take(end as int),
                ) + inline_markup(rest@)) =~= out@ + inline_markup(rest@));
            }
        } else {
            push_chars(out, marker.as_slice());
            rest = after;
            proof {
                assert(before + (escaped(whole.take(i as int)) + mark_text(mark) + inline_markup(
                    rest@,
                )) =~= out@ + inline_markup(rest@));
            }
        }
    }
    proof {
        assert(inline_markup(rest@) =~= Seq::<char>::empty()) by {
            lemma_index_of(rest@, '`');
            lemma_index_of(rest@, '*');
        }
        assert(out@ + Seq::<char>::empty() =~= out@);
    }
}

/// One left-to-right scan over the text of a line: `` ` ``, `**` and `*` spans,
/// each only emitted as a tag when its closing marker exists; otherwise literal.
pub fn inline_to_pango(text: &str) -> (r: String)
    requires
        no_nul(text@),
    ensures
        r@ == inline_markup(text@),
{
    let v = chars_of(text);
    let mut out = String::new();
    push_inline(&mut out, v.as_slice());
    assert(out@ =~= inline_markup(text@));
    out
}

/// The slice that a slice holds behind its first `n` characters.
fn behind(s: &[char], n: usize) -> (r: &[char])
    requires
        n <= s@.len(),
    ensures
        r@ == s@.skip(n as int),
{
    proof {
        assert(s@.subrange(n as int, s@.len() as int) =~= s@.skip(n as int));
    }
    slice_subrange(s, n, s.len())
}

/// Width of the heading marker that the slice starts with.
fn heading_len(t: &[char]) -> (n: usize)
    ensures
        n == heading_width(t@),
        n <= t@.len(),
{
    proof {
        reveal_strlit("### ");
        reveal_strlit("## ");
        reveal_strlit("# ");
    }
    if starts_with(t, chars_of("### ").as_slice()) {
        4
    } else if starts_with(t, chars_of("## ").as_slice()) {
        3
    } else if starts_with(t, chars_of("# ").as_slice()) {
        2
    } else {
        0
    }
}

/// Number of digits of the numbered list marker that the slice starts with.
fn number_len(t: &[char]) -> (n: usize)
    ensures
        n == number_width(t@),
        n > 0 ==> n + 2 <= t@.len(),
{
    proof {
        reveal_strlit(". ");
        lemma_find(t@, ". "@);
    }
    match find_in(t, chars_of(". ").as_slice()) {
        Some(dot) => {
            proof {
                assert(t@.subrange(0, dot as int) =~= t@.take(dot as int));
            }
            if dot > 0 && every_digit(slice_subrange(t, 0, dot)) {
                dot
            } else {
                0
            }
        },
        None => 0,
    }
}

/// Append the markup of one line outside a code block.
fn push_line(out: &mut String, line: &[char])
    requires
        no_nul(line@),
    ensures
        final(out)@ == old(out)@ + line_markup(line@),
{
    let ghost start = out@;
    let n: usize = lead_len(line);
    let t = behind(line, n);
    proof {
        assert(t@ == trim_start(line@));
        assert(line@.subrange(0, n as int) =~= line@.take(n as int));
    }
    proof {
        assert forall|k: int| 0 <= k <= t@.len() implies no_nul(#[trigger] t@.skip(k)) by {
            assert(t@.skip(k) =~= line@.subrange(n + k, line@.len() as int));
            lemma_no_nul_sub(line@, n + k, line@.len() as int);
        }
        assert(t@.skip(0) =~= t@);
    }
    let heading: usize = heading_len(t);
    if heading > 0 {
        out.append("<b>");
        push_inline(out, behind(t, heading));
        out.append("</b>");
        assert(out@ =~= start + line_markup(line@));
        return;
    }
    push_chars(out, slice_subrange(line, 0, n));
    proof {
        reveal_strlit("- ");
        reveal_strlit("* ");
    }
    if starts_with(t, chars_of("- ").as_slice()) || starts_with(t, chars_of("* ").as_slice()) {
        out.append("  •  ");
        push_inline(out, behind(t, 2));
        assert(out@ =~= start + line_markup(line@));
        return;
    }
    let number: usize = number_len(t);
    if number > 0 {
        proof {
            assert(t.len() == t@.len());
            assert(t@.subrange(0, number + 1) =~= t@.take(number + 1));
        }
        push_chars(out, slice_subrange(t, 0, number + 1));
        out.append("  ");
        push_inline(out, behind(t, number + 2));
        assert(out@ =~= start + line_markup(line@));
        return;
    }
    push_inline(out, t);
    assert(out@ =~= start + line_markup(line@));
}

/// The markup of one line outside a code block.
pub fn line_to_pango(line: &str) -> (r: String)
    requires
        no_nul(line@),
    ensures
        r@ == line_markup(line@),
{
    let v = chars_of(line);
    let mut out = String::new();
    push_line(&mut out, v.as_slice());
    assert(out@ =~= line_markup(line@));
    out
}

/// Whether the lines that are shown are free of null characters. Fences are not
/// shown.
pub open spec fn showable(text: Seq<char>) -> bool {
    forall|i: int|
        0 <= i < lines(text).len() ==> is_fence(#[trigger] lines(text)[i]) || no_nul(lines(text)[i])
}

/// Text without null characters can be shown.
pub proof fn lemma_showable(text: Seq<char>)
    requires
        no_nul(text),
    ensures
        showable(text),
{
    lemma_lines_no_nul(text);
}

/// The lines of text without null characters hold none.
proof fn lemma_lines_no_nul(s: Seq<char>)
    requires
        no_nul(s),
    ensures
        forall|i: int| 0 <= i < lines(s).len() ==> no_nul(#[trigger] lines(s)[i]),
    decreases s.len(),
{
    lemma_index_of(s, '\n');
    let n = index_of(s, '\n');
    if s.len() > 0 && n < s.len() {
        let first = strip_cr(s.take(n));
        assert(first =~= s.subrange(0, first.len() as int));
        lemma_no_nul_sub(s, 0, first.len() as int);
        assert(s.skip(n + 1) =~= s.subrange(n + 1, s.len() as int));
        lemma_no_nul_sub(s, n + 1, s.len() as int);
        let rest = s.skip(n + 1);
        lemma_lines_no_nul(rest);
        assert forall|i: int| 0 <= i < lines(s).len() implies no_nul(#[trigger] lines(s)[i]) by {
            if i > 0 {
                assert(lines(s)[i] == lines(rest)[i - 1]);
            }
        }
    }
}

/// The Pango markup of a message, which may be cut off anywhere.
pub fn to_pango(text: &str) -> (r: String)
    requires
        showable(text@),
    ensures
        r@ == markup(text@),
        well_formed(r@),
{
    let v = chars_of(text);
    let all = lines_of(v.as_slice());
    let ghost ls = lines(text@);
    let mut shown: Vec<String> = Vec::new();
    let mut in_code_block = false;
    let mut i: usize = 0;
    proof {
        assert(ls.take(0) =~= Seq::<Seq<char>>::empty());
        assert(views(shown@) =~= rendered(ls.take(0)));
    }
    while i < all.len()
        invariant
            i <= all@.len(),
            ls == pieces(all@),
            forall|k: int| 0 <= k < ls.len() ==> is_fence(#[trigger] ls[k]) || no_nul(ls[k]),
            views(shown@) == rendered(ls.take(i as int)),
            in_code_block == in_code(ls.take(i as int)),
        decreases all@.len() - i,
    {
        let line = all[i].as_slice();
        let ghost before = views(shown@);
        proof {
            assert(ls[i as int] == line@);
            assert(ls.take(i + 1).drop_last() =~= ls.take(i as int));
            assert(ls.take(i + 1).last() == line@);
        }
        let n: usize = lead_len(line);
        if starts_with(behind(line, n), chars_of("```").as_slice()) {
            // The fence line itself, with any language tag, is dropped.
            in_code_block = !in_code_block;
        } else {
            let mut out = String::new();
            if in_code_block {
                out.append("<tt>");
                push_escaped(&mut out, line);
                out.append("</tt>");
                assert(out@ =~= "<tt>"@ + escaped(line@) + "</tt>"@);
            } else {
                push_line(&mut out, line);
                assert(out@ =~= line_markup(line@));
            }
            shown.push(out);
            assert(views(shown@) =~= before.push(out@));
        }
        i = i + 1;
    }
    proof {
        assert(ls.take(i as int) =~= ls);
        law_markup_is_well_formed(text@);
    }
    join_strings(&shown, "\n")
}

// ---------------------------------------------------------------------------
// Laws
// ---------------------------------------------------------------------------

/// A marker on its own is plain text.
proof fn lemma_mark_balanced(m: Mark)
    ensures
        balanced(mark_text(m)),
{
    lemma_mark_text(m);
    lemma_plain_balanced(mark_text(m));
}

proof fn lemma_inline_balanced(s: Seq<char>)
    ensures
        balanced(inline_markup(s)),
    decreases s.len(),
{
    lemma_index_of(s, '`');
    lemma_index_of(s, '*');
    let i = first_mark(s);
    if i >= s.len() {
        lemma_escaped_balanced(s);
    } else {
        let m = mark_at(s, i);
        lemma_inline_step(s);
        lemma_mark_text(m);
        let width = mark_text(m).len() as int;
        let after = s.skip(i + width);
        let before = escaped(s.take(i));
        lemma_escaped_balanced(s.take(i));
        lemma_find(after, mark_text(m));
        match span_len(after, m) {
            Some(end) => {
                let inner = after.take(end);
                let rest = after.skip(end + width);
                match m {
                    Mark::Code => {
                        lemma_escaped_balanced(inner);
                        lemma_styled_balanced(escaped(inner));
                    },
                    _ => {
                        lemma_inline_balanced(inner);
                        lemma_styled_balanced(inline_markup(inner));
                    },
                }
                lemma_inline_balanced(rest);
                lemma_balanced_add(before, span_markup(m, inner));
                lemma_balanced_add(before + span_markup(m, inner), inline_markup(rest));
            },
            None => {
                lemma_mark_balanced(m);
                lemma_inline_balanced(after);
                lemma_balanced_add(before, mark_text(m));
                lemma_balanced_add(before + mark_text(m), inline_markup(after));
            },
        }
    }
}

proof fn lemma_line_balanced(line: Seq<char>)
    ensures
        balanced(line_markup(line)),
{
    reveal_strlit("  •  ");
    reveal_strlit("  ");
    reveal_strlit(". ");
    lemma_lead_bounds(line);
    let t = trim_start(line);
    let indent = line.take(lead(line));
    assert forall|i: int| 0 <= i < indent.len() implies #[trigger] indent[i] != '<' && indent[i]
        != '>' && indent[i] != '&' by {
        assert(is_space(line[i]));
    }
    lemma_plain_balanced(indent);
    lemma_plain_balanced("  •  "@);
    lemma_plain_balanced("  "@);
    let heading = heading_width(t);
    let number = number_width(t);
    if heading > 0 {
        lemma_inline_balanced(t.skip(heading));
        lemma_styled_balanced(inline_markup(t.skip(heading)));
    } else if is_bullet(t) {
        lemma_inline_balanced(t.skip(2));
        lemma_balanced_add(indent, "  •  "@);
        lemma_balanced_add(indent + "  •  "@, inline_markup(t.skip(2)));
    } else if number > 0 {
        lemma_find(t, ". "@);
        let head = t.take(number + 1);
        assert(t.skip(number).take(2)[0] == t[number]);
        assert forall|i: int| 0 <= i < head.len() implies #[trigger] head[i] != '<' && head[i]
            != '>' && head[i] != '&' by {
            if i < number {
                assert(head[i] == t.take(number)[i]);
            }
        }
        lemma_plain_balanced(head);
        lemma_inline_balanced(t.skip(number + 2));
        lemma_balanced_add(indent, head);
        lemma_balanced_add(indent + head, "  "@);
        lemma_balanced_add(indent + head + "  "@, inline_markup(t.skip(number + 2)));
    } else {
        lemma_inline_balanced(t);
        lemma_balanced_add(indent, inline_markup(t));
    }
}

proof fn lemma_rendered_balanced(ls: Seq<Seq<char>>)
    ensures
        forall|i: int| 0 <= i < rendered(ls).len() ==> balanced(#[trigger] rendered(ls)[i]),
    decreases ls.len(),
{
    if ls.len() > 0 {
        let before = ls.drop_last();
        lemma_rendered_balanced(before);
        lemma_escaped_balanced(ls.last());
        lemma_styled_balanced(escaped(ls.last()));
        lemma_line_balanced(ls.last());
        assert forall|i: int| 0 <= i < rendered(ls).len() implies balanced(
            #[trigger] rendered(ls)[i],
        ) by {
            if i < rendered(before).len() {
                assert(rendered(ls)[i] == rendered(before)[i]);
            }
        }
    }
}

proof fn lemma_join_balanced(parts: Seq<Seq<char>>, sep: Seq<char>)
    requires
        forall|i: int| 0 <= i < parts.len() ==> balanced(#[trigger] parts[i]),
        balanced(sep),
    ensures
        balanced(join(parts, sep)),
    decreases parts.len(),
{
    if parts.len() == 0 {
        lemma_plain_balanced(join(parts, sep));
    } else if parts.len() > 1 {
        let before = parts.drop_last();
        assert forall|i: int| 0 <= i < before.len() implies balanced(#[trigger] before[i]) by {
            assert(before[i] == parts[i]);
        }
        lemma_join_balanced(before, sep);
        lemma_balanced_add(join(before, sep), sep);
        lemma_balanced_add(join(before, sep) + sep, parts.last());
    }
}

/// The markup of any text is well formed: no tag is left open and none closes
/// what was not opened, however the text is cut off.
pub proof fn law_markup_is_well_formed(text: Seq<char>)
    ensures
        balanced(markup(text)),
        well_formed(markup(text)),
{
    reveal_strlit("\n");
    lemma_plain_balanced("\n"@);
    lemma_rendered_balanced(lines(text));
    lemma_join_balanced(rendered(lines(text)), "\n"@);
    lemma_balanced_well_formed(markup(text));
}

/// Whether the text is free of line feeds.
pub open spec fn is_one_line(s: Seq<char>) -> bool {
    forall|i: int| 0 <= i < s.len() ==> #[trigger] s[i] != '\n'
}

proof fn lemma_one_line_sub(s: Seq<char>, a: int, b: int)
    requires
        is_one_line(s),
        0 <= a <= b <= s.len(),
    ensures
        is_one_line(s.subrange(a, b)),
{
    assert forall|i: int| 0 <= i < b - a implies #[trigger] s.subrange(a, b)[i] != '\n' by {
        assert(s[i + a] != '\n');
    }
}

/// Escaping brings in no line feed.
proof fn lemma_escaped_one_line(s: Seq<char>)
    requires
        is_one_line(s),
    ensures
        is_one_line(escaped(s)),
    decreases s.len(),
{
    if s.len() > 0 {
        let before = s.drop_last();
        assert(before =~= s.subrange(0, s.len() - 1));
        lemma_one_line_sub(s, 0, s.len() - 1);
        lemma_escaped_one_line(before);
        assert(s[s.len() - 1] != '\n');
        lemma_escape_char_one_line(s.last());
    }
}

proof fn lemma_escape_char_one_line(c: char)
    requires
        c != '\n',
    ensures
        is_one_line(escape_char(c)),
{
    reveal_strlit("&amp;");
    reveal_strlit("&lt;");
    reveal_strlit("&gt;");
    reveal_strlit("&#39;");
    reveal_strlit("&quot;");
    reveal_strlit("&#x");
    reveal_strlit(";");
    lemma_hex_one_line(c as nat);
}

proof fn lemma_hex_one_line(n: nat)
    ensures
        is_one_line(hex(n)),
    decreases n,
{
    if n >= 16 {
        lemma_hex_one_line(n / 16);
    }
}

proof fn lemma_inline_one_line(s: Seq<char>)
    requires
        is_one_line(s),
    ensures
        is_one_line(inline_markup(s)),
    decreases s.len(),
{
    lemma_tags_one_line();
    lemma_index_of(s, '`');
    lemma_index_of(s, '*');
    let i = first_mark(s);
    if i >= s.len() {
        lemma_escaped_one_line(s);
    } else {
        let m = mark_at(s, i);
        lemma_inline_step(s);
        lemma_mark_text(m);
        let width = mark_text(m).len() as int;
        let after = s.skip(i + width);
        assert(s.take(i) =~= s.subrange(0, i));
        lemma_one_line_sub(s, 0, i);
        lemma_escaped_one_line(s.take(i));
        assert(after =~= s.subrange(i + width, s.len() as int));
        lemma_one_line_sub(s, i + width, s.len() as int);
        lemma_find(after, mark_text(m));
        match span_len(after, m) {
            Some(end) => {
                let inner = after.take(end);
                let rest = after.skip(end + width);
                assert(inner =~= after.subrange(0, end));
                lemma_one_line_sub(after, 0, end);
                assert(rest =~= after.subrange(end + width, after.len() as int));
                lemma_one_line_sub(after, end + width, after.len() as int);
                lemma_escaped_one_line(inner);
                lemma_inline_one_line(inner);
                lemma_inline_one_line(rest);
                assert(is_one_line(span_markup(m, inner)));
            },
            None => {
                lemma_inline_one_line(after);
            },
        }
    }
}

proof fn lemma_tags_one_line()
    ensures
        is_one_line("<b>"@),
        is_one_line("</b>"@),
        is_one_line("<i>"@),
        is_one_line("</i>"@),
        is_one_line("<tt>"@),
        is_one_line("</tt>"@),
        is_one_line("  •  "@),
        is_one_line("  "@),
{
    reveal_strlit("<b>");
    reveal_strlit("</b>");
    reveal_strlit("<i>");
    reveal_strlit("</i>");
    reveal_strlit("<tt>");
    reveal_strlit("</tt>");
    reveal_strlit("  •  ");
    reveal_strlit("  ");
}

proof fn lemma_line_one_line(line: Seq<char>)
    requires
        is_one_line(line),
    ensures
        is_one_line(line_markup(line)),
{
    lemma_tags_one_line();
    lemma_lead_bounds(line);
    reveal_strlit("### ");
    reveal_strlit("## ");
    reveal_strlit("# ");
    reveal_strlit("- ");
    reveal_strlit("* ");
    reveal_strlit(". ");
    let n = lead(line);
    let t = trim_start(line);
    assert(line.take(n) =~= line.subrange(0, n));
    lemma_one_line_sub(line, 0, n);
    assert forall|a: int, b: int| 0 <= a <= b <= t.len() implies is_one_line(
        #[trigger] t.subrange(a, b),
    ) by {
        assert(t.subrange(a, b) =~= line.subrange(n + a, n + b));
        lemma_one_line_sub(line, n + a, n + b);
    }
    let heading = heading_width(t);
    let number = number_width(t);
    if heading > 0 {
        assert(t.skip(heading) =~= t.subrange(heading, t.len() as int));
        lemma_inline_one_line(t.skip(heading));
    } else if is_bullet(t) {
        assert(t.skip(2) =~= t.subrange(2, t.len() as int));
        lemma_inline_one_line(t.skip(2));
    } else if number > 0 {
        lemma_find(t, ". "@);
        assert(t.take(number + 1) =~= t.subrange(0, number + 1));
        assert(t.skip(number + 2) =~= t.subrange(number + 2, t.len() as int));
        lemma_inline_one_line(t.skip(number + 2));
    } else {
        assert(t =~= t.subrange(0, t.len() as int));
        lemma_inline_one_line(t);
    }
}

/// The lines of a text hold no line feed.
proof fn lemma_lines_one_line(s: Seq<char>)
    ensures
        forall|i: int| 0 <= i < lines(s).len() ==> is_one_line(#[trigger] lines(s)[i]),
    decreases s.len(),
{
    lemma_index_of(s, '\n');
    let n = index_of(s, '\n');
    if s.len() > 0 && n < s.len() {
        let rest = s.skip(n + 1);
        lemma_lines_one_line(rest);
        assert(is_one_line(s.take(n)));
        assert(is_one_line(strip_cr(s.take(n))));
        assert forall|i: int| 0 <= i < lines(s).len() implies is_one_line(#[trigger] lines(s)[i]) by {
            if i > 0 {
                assert(lines(s)[i] == lines(rest)[i - 1]);
            }
        }
    }
}

proof fn lemma_rendered_one_line(ls: Seq<Seq<char>>)
    requires
        forall|i: int| 0 <= i < ls.len() ==> is_one_line(#[trigger] ls[i]),
    ensures
        forall|i: int| 0 <= i < rendered(ls).len() ==> is_one_line(#[trigger] rendered(ls)[i]),
    decreases ls.len(),
{
    if ls.len() > 0 {
        let before = ls.drop_last();
        assert forall|i: int| 0 <= i < before.len() implies is_one_line(#[trigger] before[i]) by {
            assert(before[i] == ls[i]);
        }
        lemma_rendered_one_line(before);
        assert(is_one_line(ls[ls.len() - 1]));
        lemma_tags_one_line();
        lemma_escaped_one_line(ls.last());
        lemma_line_one_line(ls.last());
        assert forall|i: int| 0 <= i < rendered(ls).len() implies is_one_line(
            #[trigger] rendered(ls)[i],
        ) by {
            if i < rendered(before).len() {
                assert(rendered(ls)[i] == rendered(before)[i]);
            }
        }
    }
}

/// Every tag is closed on its line: the markup is a list of lines, each of which is
/// well formed on its own.
pub proof fn law_every_line_is_well_formed(text: Seq<char>)
    ensures
        markup(text) == join(rendered(lines(text)), "\n"@),
        forall|i: int|
            0 <= i < rendered(lines(text)).len() ==> well_formed(#[trigger] rendered(lines(text))[i])
                && is_one_line(rendered(lines(text))[i]),
{
    let shown = rendered(lines(text));
    lemma_rendered_balanced(lines(text));
    lemma_lines_one_line(text);
    lemma_rendered_one_line(lines(text));
    assert forall|i: int| 0 <= i < shown.len() implies well_formed(#[trigger] shown[i]) by {
        lemma_balanced_well_formed(shown[i]);
    }
}

/// The lines of a text that goes on behind a line end are those of the text, and
/// more.
proof fn lemma_lines_continue(p: Seq<char>, rest: Seq<char>) -> (more: Seq<Seq<char>>)
    requires
        p.len() == 0 || p.last() != '\r',
    ensures
        lines(p + seq!['\n'] + rest) == lines(p) + more,
    decreases p.len(),
{
    let s = p + seq!['\n'] + rest;
    let n = index_of(p, '\n');
    lemma_index_of(p, '\n');
    assert forall|i: int| 0 <= i < n implies s[i] != '\n' by {
        assert(s[i] == p[i]);
    }
    assert(s[n] == '\n') by {
        if n < p.len() {
            assert(s[n] == p[n]);
        }
    }
    lemma_index_of_is(s, '\n', n);
    if n < p.len() {
        let q = p.skip(n + 1);
        assert(q.len() > 0 ==> q.last() == p.last());
        let more = lemma_lines_continue(q, rest);
        assert(s.take(n) =~= p.take(n));
        assert(s.skip(n + 1) =~= q + seq!['\n'] + rest);
        assert(seq![strip_cr(p.take(n))] + (lines(q) + more) =~= seq![strip_cr(p.take(n))]
            + lines(q) + more);
        more
    } else {
        assert(s.take(n) =~= p);
        assert(s.skip(n + 1) =~= rest);
        if p.len() == 0 {
            assert(lines(p) + lines(s) =~= lines(s));
            lines(s)
        } else {
            lines(rest)
        }
    }
}

/// More lines leave what is rendered of those before them as it is.
proof fn lemma_rendered_continues(ls: Seq<Seq<char>>, more: Seq<Seq<char>>) -> (tail: Seq<
    Seq<char>,
>)
    ensures
        rendered(ls + more) == rendered(ls) + tail,
    decreases more.len(),
{
    let all = ls + more;
    if more.len() == 0 {
        assert(all =~= ls);
        assert(rendered(ls) + Seq::<Seq<char>>::empty() =~= rendered(ls));
        Seq::empty()
    } else {
        let before = lemma_rendered_continues(ls, more.drop_last());
        assert(all.drop_last() =~= ls + more.drop_last());
        if is_fence(all.last()) {
            before
        } else {
            let line = rendered(all).last();
            assert(rendered(all) =~= rendered(ls) + before.push(line));
            before.push(line)
        }
    }
}

proof fn lemma_join_continues(a: Seq<Seq<char>>, b: Seq<Seq<char>>, sep: Seq<char>)
    ensures
        starts(join(a + b, sep), join(a, sep)),
    decreases b.len(),
{
    if b.len() == 0 {
        assert(a + b =~= a);
        assert(join(a, sep).take(join(a, sep).len() as int) =~= join(a, sep));
    } else {
        let all = a + b;
        let before = all.drop_last();
        assert(before =~= a + b.drop_last());
        lemma_join_continues(a, b.drop_last(), sep);
        let n = join(a, sep).len() as int;
        if a.len() == 0 {
            assert(join(all, sep).take(0) =~= join(a, sep));
        } else {
            assert(join(all, sep) == join(before, sep) + sep + all.last());
            assert(join(all, sep).take(n) =~= join(before, sep).take(n));
        }
    }
}

/// Text that arrives behind a finished line changes nothing of what is shown of
/// the lines before it. A carriage return at the end of the first part is left out:
/// it is shown, unless the line end that it belongs to follows.
pub proof fn law_finished_lines_stay(p: Seq<char>, rest: Seq<char>)
    requires
        p.len() == 0 || p.last() != '\r',
    ensures
        starts(markup(p + seq!['\n'] + rest), markup(p)),
{
    let more = lemma_lines_continue(p, rest);
    let tail = lemma_rendered_continues(lines(p), more);
    lemma_join_continues(rendered(lines(p)), tail, "\n"@);
}

/// Whether the text holds neither a backtick nor an asterisk.
pub open spec fn unmarked(s: Seq<char>) -> bool {
    forall|i: int| 0 <= i < s.len() ==> #[trigger] s[i] != '`' && s[i] != '*'
}

/// Text without markers in front of other text is shown literally, and changes
/// nothing of what follows it.
pub proof fn law_unmarked_text_splits_off(p: Seq<char>, t: Seq<char>)
    requires
        unmarked(p),
    ensures
        inline_markup(p + t) == escaped(p) + inline_markup(t),
{
    let s = p + t;
    lemma_index_of(s, '`');
    lemma_index_of(s, '*');
    lemma_index_of(t, '`');
    lemma_index_of(t, '*');
    let n = p.len() as int;
    let j = first_mark(t);
    assert forall|i: int| 0 <= i < n + j implies s[i] != '`' && s[i] != '*' by {
        if i < n {
            assert(s[i] == p[i]);
        } else {
            assert(s[i] == t[i - n]);
        }
    }
    if j < t.len() {
        assert(s[n + j] == t[j]);
    }
    assert(first_mark(s) == n + j);
    if j < t.len() {
        if j + 1 < t.len() {
            assert(s[n + j + 1] == t[j + 1]);
        }
        let m = mark_at(t, j);
        assert(mark_at(s, n + j) == m);
        let width = mark_text(m).len() as int;
        lemma_inline_step(s);
        lemma_inline_step(t);
        assert(s.skip(n + j + width) =~= t.skip(j + width));
        assert(s.take(n + j) =~= p + t.take(j));
        lemma_escaped_add(p, t.take(j));
        let after = t.skip(j + width);
        let front = escaped(t.take(j));
        match span_len(after, m) {
            Some(end) => {
                let span = span_markup(m, after.take(end));
                let rest = inline_markup(after.skip(end + width));
                assert(escaped(p) + front + span + rest =~= escaped(p) + (front + span + rest));
            },
            None => {
                let rest = inline_markup(after);
                assert(escaped(p) + front + mark_text(m) + rest =~= escaped(p) + (front
                    + mark_text(m) + rest));
            },
        }
    } else {
        lemma_escaped_add(p, t);
    }
}

/// Text without markers is shown literally.
pub proof fn law_unmarked_is_literal(s: Seq<char>)
    requires
        unmarked(s),
    ensures
        inline_markup(s) == escaped(s),
{
    lemma_index_of(s, '`');
    lemma_index_of(s, '*');
}

/// A marker that nothing closes is shown literally.
pub proof fn law_unclosed_mark_is_literal(a: Seq<char>, m: Mark, b: Seq<char>)
    requires
        unmarked(a),
        unmarked(b),
    ensures
        inline_markup(a + mark_text(m) + b) == escaped(a) + mark_text(m) + escaped(b),
{
    lemma_mark_text(m);
    let s = a + mark_text(m) + b;
    let n = a.len() as int;
    let width = mark_text(m).len() as int;
    lemma_index_of(s, '`');
    lemma_index_of(s, '*');
    assert(s[n] == mark_text(m)[0]);
    assert forall|i: int| 0 <= i < n implies s[i] != '`' && s[i] != '*' by {
        assert(s[i] == a[i]);
    }
    assert(first_mark(s) == n);
    if n + 1 < s.len() {
        if width == 2 {
            assert(s[n + 1] == mark_text(m)[1]);
        } else {
            assert(s[n + 1] == b[0]);
        }
    }
    assert(mark_at(s, n) == m);
    lemma_inline_step(s);
    assert(s.take(n) =~= a);
    assert(s.skip(n + width) =~= b);
    lemma_find(b, mark_text(m));
    if find(b, mark_text(m)) is Some {
        let k = find(b, mark_text(m))->0;
        assert(b.skip(k).take(width)[0] == b[k]);
    }
    law_unmarked_is_literal(b);
}

/// Text between two equal markers becomes one styled span.
pub proof fn law_closed_mark_is_a_span(a: Seq<char>, m: Mark, b: Seq<char>, c: Seq<char>)
    requires
        unmarked(a),
        unmarked(b),
        unmarked(c),
        b.len() > 0,
    ensures
        inline_markup(a + mark_text(m) + b + mark_text(m) + c) == escaped(a) + span_markup(m, b)
            + escaped(c),
        m is Code ==> span_markup(m, b) == "<tt>"@ + escaped(b) + "</tt>"@,
        m is Bold ==> span_markup(m, b) == "<b>"@ + escaped(b) + "</b>"@,
        m is Italic ==> span_markup(m, b) == "<i>"@ + escaped(b) + "</i>"@,
{
    lemma_mark_text(m);
    let s = a + mark_text(m) + b + mark_text(m) + c;
    let n = a.len() as int;
    let width = mark_text(m).len() as int;
    lemma_index_of(s, '`');
    lemma_index_of(s, '*');
    assert(s[n] == mark_text(m)[0]);
    assert forall|i: int| 0 <= i < n implies s[i] != '`' && s[i] != '*' by {
        assert(s[i] == a[i]);
    }
    assert(first_mark(s) == n);
    if width == 2 {
        assert(s[n + 1] == mark_text(m)[1]);
    } else {
        assert(s[n + 1] == b[0]);
    }
    assert(mark_at(s, n) == m);
    lemma_inline_step(s);
    let after = b + mark_text(m) + c;
    assert(s.take(n) =~= a);
    assert(s.skip(n + width) =~= after);
    let end = b.len() as int;
    lemma_find(after, mark_text(m));
    assert(after.skip(end).take(width) =~= mark_text(m));
    assert(starts(after.skip(end), mark_text(m)));
    let k = find(after, mark_text(m))->0;
    if k < end {
        assert(after.skip(k).take(width)[0] == b[k]);
    }
    assert(k == end) by {
        if k > end {
            assert(!starts(after.skip(end), mark_text(m)));
        }
    }
    assert(after.take(end) =~= b);
    assert(after.skip(end + width) =~= c);
    law_unmarked_is_literal(b);
    law_unmarked_is_literal(c);
}

} // verus!
