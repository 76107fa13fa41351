//! Pango markup: escaping text, and what it means for markup to be well formed.

use crate::ascii::{decimal, is_digit, lemma_decimal};
use crate::text::{chars_of, index_of, lemma_index_of, lemma_index_of_is};
use vstd::prelude::*;

verus! {

/// Characters that markup can only hold as a numeric reference: the control
/// characters other than tab, line feed, carriage return and next line.
pub open spec fn is_control(c: char) -> bool {
    let n = c as int;
    ||| 0x1 <= n <= 0x8
    ||| 0xb <= n <= 0xc
    ||| 0xe <= n <= 0x1f
    ||| 0x7f <= n <= 0x84
    ||| 0x86 <= n <= 0x9f
}

/// Whether the text is free of null characters, which no markup can hold.
pub open spec fn no_nul(s: Seq<char>) -> bool {
    forall|i: int| 0 <= i < s.len() ==> #[trigger] s[i] != '\0'
}

/// The lower-case hexadecimal digit with a value below sixteen.
pub open spec fn hex_char(n: int) -> char {
    if n < 10 {
        (n + '0' as int) as char
    } else {
        (n - 10 + 'a' as int) as char
    }
}

/// The lower-case hexadecimal numeral of a number, without leading zeros.
pub open spec fn hex(n: nat) -> Seq<char>
    decreases n,
{
    if n < 16 {
        seq![hex_char(n as int)]
    } else {
        hex(n / 16).push(hex_char((n % 16) as int))
    }
}

/// How one character is written in markup.
pub open spec fn escape_char(c: char) -> Seq<char> {
    if c == '&' {
        "&amp;"@
    } else if c == '<' {
        "&lt;"@
    } else if c == '>' {
        "&gt;"@
    } else if c == '\'' {
        "&#39;"@
    } else if c == '"' {
        "&quot;"@
    } else if is_control(c) {
        "&#x"@ + hex(c as nat) + ";"@
    } else {
        seq![c]
    }
}

/// Text written so that markup shows it literally.
pub open spec fn escaped(s: Seq<char>) -> Seq<char>
    decreases s.len(),
{
    if s.len() == 0 {
        seq![]
    } else {
        escaped(s.drop_last()) + escape_char(s.last())
    }
}

/// Text is escaped piece by piece.
pub proof fn lemma_escaped_add(a: Seq<char>, b: Seq<char>)
    ensures
        escaped(a + b) == escaped(a) + escaped(b),
    decreases b.len(),
{
    if b.len() == 0 {
        assert(a + b =~= a);
        assert(escaped(a) + escaped(b) =~= escaped(a));
    } else {
        lemma_escaped_add(a, b.drop_last());
        assert((a + b).drop_last() =~= a + b.drop_last());
        assert(escaped(a) + escaped(b.drop_last()) + escape_char(b.last()) =~= escaped(a)
            + escaped(b));
    }
}

/// Append the hexadecimal numeral of a number.
fn push_hex(out: &mut String, n: u32)
    ensures
        final(out)@ == old(out)@ + hex(n as nat),
    decreases n,
{
    let ghost start = out@;
    if n >= 16 {
        push_hex(out, n / 16);
    }
    let d: u32 = n % 16;
    if d < 10 {
        out.push((d as u8 + 48) as char);
    } else {
        out.push((d as u8 + 87) as char);
    }
    proof {
        assert(out@ =~= start + hex(n as nat));
    }
}

/// Append one character as markup.
fn push_escaped_char(out: &mut String, c: char)
    ensures
        final(out)@ == old(out)@ + escape_char(c),
{
    let n: u32 = c as u32;
    let ghost start = out@;
    if c == '&' {
        out.append("&amp;");
    } else if c == '<' {
        out.append("&lt;");
    } else if c == '>' {
        out.append("&gt;");
    } else if c == '\'' {
        out.append("&#39;");
    } else if c == '"' {
        out.append("&quot;");
    } else if (0x1 <= n && n <= 0x8) || (0xb <= n && n <= 0xc) || (0xe <= n && n <= 0x1f) || (0x7f
        <= n && n <= 0x84) || (0x86 <= n && n <= 0x9f) {
        out.append("&#x");
        push_hex(out, n);
        out.append(";");
        assert(out@ =~= start + escape_char(c));
    } else {
        out.push(c);
        assert(out@ =~= start + escape_char(c));
    }
}

/// Append text as markup.
pub fn push_escaped(out: &mut String, s: &[char])
    requires
        no_nul(s@),
    ensures
        final(out)@ == old(out)@ + escaped(s@),
{
    let ghost start = out@;
    let mut i: usize = 0;
    proof {
        assert(s@.take(0) =~= Seq::<char>::empty());
        assert(start + escaped(s@.take(0)) =~= start);
    }
    while i < s.len()
        invariant
            i <= s@.len(),
            out@ == start + escaped(s@.take(i as int)),
        decreases s@.len() - i,
    {
        push_escaped_char(out, s[i]);
        i = i + 1;
        proof {
            assert(s@.take(i as int).drop_last() =~= s@.take(i - 1));
            assert(out@ =~= start + escaped(s@.take(i as int)));
        }
    }
    assert(s@.take(i as int) =~= s@);
}

/// Text escaped for use inside markup.
pub fn escape(text: &str) -> (r: String)
    requires
        no_nul(text@),
    ensures
        r@ == escaped(text@),
{
    let v = chars_of(text);
    let mut out = String::new();
    push_escaped(&mut out, v.as_slice());
    assert(out@ =~= escaped(text@));
    out
}

// ---------------------------------------------------------------------------
// Well-formed markup
// ---------------------------------------------------------------------------

/// The elements that occur in rendered text.
pub enum Element {
    Bold,
    Italic,
    Mono,
    Span,
}

/// The opening tag of a span with an alpha value in percent.
pub open spec fn span_tag(percent: nat) -> Seq<char> {
    "<span alpha=\""@ + decimal(percent) + "%\">"@
}

/// The element that a tag opens.
pub open spec fn opens(tag: Seq<char>) -> Option<Element> {
    if tag == "<b>"@ {
        Some(Element::Bold)
    } else if tag == "<i>"@ {
        Some(Element::Italic)
    } else if tag == "<tt>"@ {
        Some(Element::Mono)
    } else if exists|p: nat| tag == #[trigger] span_tag(p) {
        Some(Element::Span)
    } else {
        None
    }
}

/// The element that a tag closes.
pub open spec fn closes(tag: Seq<char>) -> Option<Element> {
    if tag == "</b>"@ {
        Some(Element::Bold)
    } else if tag == "</i>"@ {
        Some(Element::Italic)
    } else if tag == "</tt>"@ {
        Some(Element::Mono)
    } else if tag == "</span>"@ {
        Some(Element::Span)
    } else {
        None
    }
}

/// Whether a piece of markup is a character reference.
pub open spec fn is_reference(r: Seq<char>) -> bool {
    exists|c: char| r == #[trigger] escape_char(c) && r.len() > 1
}

/// Read markup from left to right with the given elements open. The result is
/// the elements that are open at the end, innermost last, or `None` where a tag
/// is unknown, closes an element that is not the innermost open one, or where a
/// `<`, `>` or `&` stands outside a tag or reference.
pub open spec fn scan(s: Seq<char>, open: Seq<Element>) -> Option<Seq<Element>>
    decreases s.len(),
{
    if s.len() == 0 {
        Some(open)
    } else if s[0] == '<' {
        let n = index_of(s, '>');
        proof {
            lemma_index_of(s, '>');
        }
        if n >= s.len() {
            None
        } else {
            let tag = s.take(n + 1);
            match opens(tag) {
                Some(e) => scan(s.skip(n + 1), open.push(e)),
                None => match closes(tag) {
                    Some(e) => if open.len() > 0 && open.last() == e {
                        scan(s.skip(n + 1), open.drop_last())
                    } else {
                        None
                    },
                    None => None,
                },
            }
        }
    } else if s[0] == '&' {
        let n = index_of(s, ';');
        proof {
            lemma_index_of(s, ';');
        }
        if n >= s.len() || !is_reference(s.take(n + 1)) {
            None
        } else {
            scan(s.skip(n + 1), open)
        }
    } else if s[0] == '>' {
        None
    } else {
        scan(s.skip(1), open)
    }
}

/// Whether markup is well formed: every tag is known, tags nest, each opened
/// element is closed, and everything else is text or character references.
pub open spec fn well_formed(s: Seq<char>) -> bool {
    scan(s, Seq::empty()) == Some(Seq::<Element>::empty())
}

/// Whether markup opens and closes its own elements only, whatever is open
/// around it.
pub open spec fn balanced(s: Seq<char>) -> bool {
    forall|open: Seq<Element>| #[trigger] scan(s, open) == Some(open)
}

/// The first occurrence of a character is not moved by text behind it.
proof fn lemma_index_of_add(a: Seq<char>, b: Seq<char>, c: char)
    requires
        index_of(a, c) < a.len(),
    ensures
        index_of(a + b, c) == index_of(a, c),
{
    lemma_index_of(a, c);
    let n = index_of(a, c);
    assert forall|j: int| 0 <= j < n implies (a + b)[j] != c by {
        assert((a + b)[j] == a[j]);
    }
    lemma_index_of_is(a + b, c, n);
}

/// Markup is read piece by piece.
pub proof fn lemma_scan_add(a: Seq<char>, b: Seq<char>, open: Seq<Element>)
    requires
        scan(a, open) is Some,
    ensures
        scan(a + b, open) == scan(b, scan(a, open)->0),
    decreases a.len(),
{
    let s = a + b;
    if a.len() == 0 {
        assert(s =~= b);
    } else if a[0] == '<' {
        lemma_index_of(a, '>');
        let n = index_of(a, '>');
        lemma_index_of_add(a, b, '>');
        assert(s.take(n + 1) =~= a.take(n + 1));
        assert(s.skip(n + 1) =~= a.skip(n + 1) + b);
        match opens(a.take(n + 1)) {
            Some(e) => {
                lemma_scan_add(a.skip(n + 1), b, open.push(e));
            },
            None => {
                lemma_scan_add(a.skip(n + 1), b, open.drop_last());
            },
        }
    } else if a[0] == '&' {
        lemma_index_of(a, ';');
        let n = index_of(a, ';');
        lemma_index_of_add(a, b, ';');
        assert(s.take(n + 1) =~= a.take(n + 1));
        assert(s.skip(n + 1) =~= a.skip(n + 1) + b);
        lemma_scan_add(a.skip(n + 1), b, open);
    } else {
        assert(s.skip(1) =~= a.skip(1) + b);
        lemma_scan_add(a.skip(1), b, open);
    }
}

/// Balanced pieces make balanced markup.
pub proof fn lemma_balanced_add(a: Seq<char>, b: Seq<char>)
    requires
        balanced(a),
        balanced(b),
    ensures
        balanced(a + b),
{
    assert forall|open: Seq<Element>| #[trigger] scan(a + b, open) == Some(open) by {
        assert(scan(a, open) == Some(open));
        lemma_scan_add(a, b, open);
    }
}

/// Text without `<`, `>` and `&` is balanced markup.
pub proof fn lemma_plain_balanced(s: Seq<char>)
    requires
        forall|i: int| 0 <= i < s.len() ==> #[trigger] s[i] != '<' && s[i] != '>' && s[i] != '&',
    ensures
        balanced(s),
    decreases s.len(),
{
    if s.len() > 0 {
        let t = s.skip(1);
        assert forall|i: int| 0 <= i < t.len() implies #[trigger] t[i] != '<' && t[i] != '>' && t[i]
            != '&' by {
            assert(t[i] == s[i + 1]);
        }
        lemma_plain_balanced(t);
        assert forall|open: Seq<Element>| #[trigger] scan(s, open) == Some(open) by {
            assert(scan(t, open) == Some(open));
        }
    }
}

/// A numeral in base sixteen holds no delimiter.
proof fn lemma_hex(n: nat)
    ensures
        forall|i: int| 0 <= i < hex(n).len() ==> #[trigger] hex(n)[i] != ';' && hex(n)[i] != '&',
    decreases n,
{
    if n >= 16 {
        lemma_hex(n / 16);
        let h = hex(n / 16);
        assert forall|i: int| 0 <= i < hex(n).len() implies #[trigger] hex(n)[i] != ';' && hex(n)[i]
            != '&' by {
            if i < h.len() {
                assert(hex(n)[i] == h[i]);
            }
        }
    }
}

/// A reference is read as a whole.
proof fn lemma_reference_balanced(c: char)
    requires
        escape_char(c).len() > 1,
        escape_char(c)[0] == '&',
        index_of(escape_char(c), ';') == escape_char(c).len() - 1,
    ensures
        balanced(escape_char(c)),
{
    let r = escape_char(c);
    let n = index_of(r, ';');
    assert(r.take(n + 1) =~= r);
    assert(is_reference(r.take(n + 1)));
    assert(r.skip(n + 1) =~= Seq::<char>::empty());
    assert forall|open: Seq<Element>| #[trigger] scan(r, open) == Some(open) by {
        assert(scan(r.skip(n + 1), open) == Some(open));
    }
}

/// How a character is written is balanced markup.
pub proof fn lemma_escape_char_balanced(c: char)
    ensures
        balanced(escape_char(c)),
{
    reveal_strlit("&amp;");
    reveal_strlit("&lt;");
    reveal_strlit("&gt;");
    reveal_strlit("&#39;");
    reveal_strlit("&quot;");
    reveal_strlit("&#x");
    reveal_strlit(";");
    let r = escape_char(c);
    if c == '&' || c == '<' || c == '>' || c == '\'' || c == '"' || is_control(c) {
        if is_control(c) && !(c == '&' || c == '<' || c == '>' || c == '\'' || c == '"') {
            lemma_hex(c as nat);
            let h = hex(c as nat);
            assert(r =~= "&#x"@ + h + ";"@);
            assert forall|j: int| 0 <= j < r.len() - 1 implies r[j] != ';' by {
                if 3 <= j {
                    assert(r[j] == h[j - 3]);
                }
            }
        }
        lemma_index_of_is(r, ';', r.len() - 1);
        lemma_reference_balanced(c);
    } else {
        lemma_plain_balanced(r);
    }
}

/// Escaped text is balanced markup: none of it is read as a tag.
pub proof fn lemma_escaped_balanced(s: Seq<char>)
    ensures
        balanced(escaped(s)),
    decreases s.len(),
{
    if s.len() == 0 {
        lemma_plain_balanced(escaped(s));
    } else {
        lemma_escaped_balanced(s.drop_last());
        lemma_escape_char_balanced(s.last());
        lemma_balanced_add(escaped(s.drop_last()), escape_char(s.last()));
    }
}

/// Balanced markup between an opening tag and the matching closing tag is
/// balanced.
pub proof fn lemma_element_balanced(tag: Seq<char>, inner: Seq<char>, end: Seq<char>)
    requires
        balanced(inner),
        tag.len() > 0,
        tag[0] == '<',
        index_of(tag, '>') == tag.len() - 1,
        opens(tag) is Some,
        end.len() > 0,
        end[0] == '<',
        index_of(end, '>') == end.len() - 1,
        opens(end) is None,
        closes(end) == opens(tag),
    ensures
        balanced(tag + inner + end),
{
    let e = opens(tag)->0;
    let s = tag + inner + end;
    assert(tag.take(tag.len() as int) =~= tag);
    assert(end.take(end.len() as int) =~= end);
    assert(tag.skip(tag.len() as int) =~= Seq::<char>::empty());
    assert(end.skip(end.len() as int) =~= Seq::<char>::empty());
    assert forall|open: Seq<Element>| #[trigger] scan(s, open) == Some(open) by {
        let inside = open.push(e);
        assert(scan(tag, open) == Some(inside)) by {
            assert(scan(tag.skip(tag.len() as int), inside) == Some(inside));
        }
        lemma_scan_add(tag, inner + end, open);
        assert(tag + (inner + end) =~= s);
        assert(scan(inner, inside) == Some(inside));
        lemma_scan_add(inner, end, inside);
        assert(inside.drop_last() =~= open);
        assert(scan(end, inside) == Some(open)) by {
            assert(scan(end.skip(end.len() as int), open) == Some(open));
        }
    }
}

/// Balanced markup in bold, italic or monospace is balanced.
pub proof fn lemma_styled_balanced(inner: Seq<char>)
    requires
        balanced(inner),
    ensures
        balanced("<b>"@ + inner + "</b>"@),
        balanced("<i>"@ + inner + "</i>"@),
        balanced("<tt>"@ + inner + "</tt>"@),
{
    reveal_strlit("<b>");
    reveal_strlit("</b>");
    reveal_strlit("<i>");
    reveal_strlit("</i>");
    reveal_strlit("<tt>");
    reveal_strlit("</tt>");
    reveal_strlit("<span alpha=\"");
    reveal_strlit("%\">");
    lemma_index_of_is("<b>"@, '>', 2);
    lemma_index_of_is("</b>"@, '>', 3);
    lemma_index_of_is("<i>"@, '>', 2);
    lemma_index_of_is("</i>"@, '>', 3);
    lemma_index_of_is("<tt>"@, '>', 3);
    lemma_index_of_is("</tt>"@, '>', 4);
    assert forall|p: nat| (#[trigger] span_tag(p)).len() > 10 by {}
    assert("<b>"@[1] != "<i>"@[1]);
    assert("</b>"@[1] != "<b>"@[1] && "</b>"@[1] != "<i>"@[1] && "</b>"@[1] != "<tt>"@[1]);
    assert("</i>"@[1] != "<b>"@[1] && "</i>"@[1] != "<i>"@[1] && "</i>"@[1] != "<tt>"@[1]);
    assert("</tt>"@[1] != "<b>"@[1] && "</tt>"@[1] != "<i>"@[1] && "</tt>"@[1] != "<tt>"@[1]);
    assert("</b>"@[2] != "</i>"@[2]);
    lemma_element_balanced("<b>"@, inner, "</b>"@);
    lemma_element_balanced("<i>"@, inner, "</i>"@);
    lemma_element_balanced("<tt>"@, inner, "</tt>"@);
}

/// Balanced markup in a span is balanced.
pub proof fn lemma_span_balanced(percent: nat, inner: Seq<char>)
    requires
        balanced(inner),
    ensures
        balanced(span_tag(percent) + inner + "</span>"@),
{
    reveal_strlit("<span alpha=\"");
    reveal_strlit("%\">");
    reveal_strlit("</span>");
    reveal_strlit("<b>");
    reveal_strlit("</b>");
    reveal_strlit("<i>");
    reveal_strlit("</i>");
    reveal_strlit("<tt>");
    reveal_strlit("</tt>");
    let head = "<span alpha=\""@;
    let d = decimal(percent);
    let tail = "%\">"@;
    let tag = span_tag(percent);
    lemma_decimal(percent);
    assert(tag.len() == 13 + d.len() + 3);
    assert forall|j: int| 0 <= j < tag.len() - 1 implies tag[j] != '>' by {
        if j < 13 {
            assert(tag[j] == head[j]);
        } else if j < 13 + d.len() {
            assert(tag[j] == d[j - 13]);
            assert(is_digit(d[j - 13]));
        } else {
            assert(tag[j] == tail[j - 13 - d.len()]);
        }
    }
    assert(tag[tag.len() - 1] == tail[2]);
    lemma_index_of_is(tag, '>', tag.len() - 1);
    lemma_index_of_is("</span>"@, '>', 6);
    assert(opens(tag) == Some(Element::Span));
    assert forall|p: nat| (#[trigger] span_tag(p)).len() > 10 by {}
    lemma_element_balanced(tag, inner, "</span>"@);
}

/// Balanced markup is well formed on its own.
pub proof fn lemma_balanced_well_formed(s: Seq<char>)
    requires
        balanced(s),
    ensures
        well_formed(s),
{
    assert(scan(s, Seq::empty()) == Some(Seq::<Element>::empty()));
}

} // verus!
