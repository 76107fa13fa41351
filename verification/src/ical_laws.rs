//! What holds of reading and writing events together.

use crate::ascii::{all_digits, is_digit, lemma_padded, same_ignoring_case, upper, upper_char};
use crate::datetime::{date_stamp, date_text, parsed, time_stamp, time_text, civil_at};
use crate::ical::{
    colon, crlf_text, date_only, end_secs, escape_char, escaped, event_body, event_of, events_of,
    fields_of, is_begin, is_continuation, is_end, logical_lines, new_vevent, prop_line, property,
    scan, sort_key_of, text_line, time_line, unescaped, unfolded, vevent, with_field, EventFields,
    Property, Scan,
};
use crate::split::{join, split, strip_cr};
use crate::text::{
    index_of, lemma_index_of, lemma_index_of_is, lemma_lead, lemma_trim_end, lemma_trim_end_bounds,
    trim,
};
use vstd::prelude::*;

verus! {

// ---------------------------------------------------------------------------
// Escaping
// ---------------------------------------------------------------------------

/// The text without its carriage returns.
pub open spec fn without_returns(s: Seq<char>) -> Seq<char>
    decreases s.len(),
{
    if s.len() == 0 {
        seq![]
    } else if s[0] == '\r' {
        without_returns(s.skip(1))
    } else {
        seq![s[0]] + without_returns(s.skip(1))
    }
}

/// A text that is written as a value and read back is the same text, but for the
/// carriage returns, which are not written.
pub proof fn law_escaping_is_undone(s: Seq<char>)
    ensures
        unescaped(escaped(s)) == without_returns(s),
    decreases s.len(),
{
    if s.len() > 0 {
        let rest = s.skip(1);
        law_escaping_is_undone(rest);
        let e = escaped(s);
        let head = escape_char(s[0]);
        if s[0] == '\r' {
            assert(e =~= escaped(rest));
        } else if head.len() == 2 {
            assert(e.skip(2) =~= escaped(rest));
            assert(e[0] == '\\' && e[1] == head[1]);
        } else {
            assert(e.skip(1) =~= escaped(rest));
            assert(e[0] == s[0]);
        }
    }
}

/// A text without carriage returns comes back as it was.
pub proof fn law_escaping_keeps_text(s: Seq<char>)
    requires
        !s.contains('\r'),
    ensures
        unescaped(escaped(s)) == s,
{
    law_escaping_is_undone(s);
    lemma_nothing_to_drop(s);
}

proof fn lemma_nothing_to_drop(s: Seq<char>)
    requires
        !s.contains('\r'),
    ensures
        without_returns(s) == s,
    decreases s.len(),
{
    if s.len() > 0 {
        let rest = s.skip(1);
        assert forall|i: int| 0 <= i < rest.len() implies rest[i] != '\r' by {
            assert(rest[i] == s[i + 1]);
        }
        lemma_nothing_to_drop(rest);
        assert(s[0] != '\r');
        assert(seq![s[0]] + rest =~= s);
    }
}

/// A written value has no line breaks: it stays on its line.
pub proof fn law_escaped_text_is_one_line(s: Seq<char>)
    ensures
        !escaped(s).contains('\n'),
        !escaped(s).contains('\r'),
    decreases s.len(),
{
    if s.len() > 0 {
        law_escaped_text_is_one_line(s.skip(1));
        let head = escape_char(s[0]);
        let rest = escaped(s.skip(1));
        assert forall|i: int| 0 <= i < escaped(s).len() implies escaped(s)[i] != '\n'
            && escaped(s)[i] != '\r' by {
            if i < head.len() {
                assert(escaped(s)[i] == head[i]);
            } else {
                assert(escaped(s)[i] == rest[i - head.len()]);
                assert(rest.contains(rest[i - head.len()]));
            }
        }
    }
}

// ---------------------------------------------------------------------------
// Lines
// ---------------------------------------------------------------------------

/// A text without the separator is one piece.
pub proof fn lemma_split_none(s: Seq<char>, c: char)
    requires
        !s.contains(c),
    ensures
        split(s, c) == seq![s],
{
    assert forall|j: int| 0 <= j < s.len() implies s[j] != c by {
        assert(s.contains(s[j]));
    }
    lemma_index_of_is(s, c, s.len() as int);
}

/// Splitting goes on behind a separator as if the text started there.
pub proof fn lemma_split_add(a: Seq<char>, b: Seq<char>, c: char)
    ensures
        split(a + seq![c] + b, c) == split(a, c) + split(b, c),
    decreases a.len(),
{
    let s = a + seq![c] + b;
    lemma_index_of(a, c);
    let n = index_of(a, c);
    if n < a.len() {
        lemma_index_of_is(s, c, n);
        let rest = a.skip(n + 1);
        lemma_split_add(rest, b, c);
        assert(s.take(n) =~= a.take(n));
        assert(s.skip(n + 1) =~= rest + seq![c] + b);
        assert(seq![a.take(n)] + (split(rest, c) + split(b, c)) =~= split(a, c) + split(b, c));
    } else {
        lemma_index_of_is(s, c, n);
        assert(s.take(n) =~= a);
        assert(s.skip(n + 1) =~= b);
    }
}

/// The pieces of a text are free of the separator, and there is at least one.
pub proof fn lemma_split_pieces(s: Seq<char>, c: char)
    ensures
        split(s, c).len() > 0,
        forall|i: int| 0 <= i < split(s, c).len() ==> !(#[trigger] split(s, c)[i]).contains(c),
    decreases s.len(),
{
    lemma_index_of(s, c);
    let n = index_of(s, c);
    if n < s.len() {
        lemma_split_pieces(s.skip(n + 1), c);
        let rest = split(s.skip(n + 1), c);
        assert forall|i: int| 0 <= i < split(s, c).len() implies !(#[trigger] split(s, c)[i]).contains(
            c,
        ) by {
            if i > 0 {
                assert(split(s, c)[i] == rest[i - 1]);
            }
        }
    }
}

/// Whether lines can be written and read back one by one: no line holds a line
/// break, and only the first may look like a continuation.
pub open spec fn are_lines(lines: Seq<Seq<char>>) -> bool {
    &&& forall|i: int| 0 <= i < lines.len() ==> !(#[trigger] lines[i]).contains('\n')
    &&& forall|i: int| 0 < i < lines.len() ==> !is_continuation(#[trigger] lines[i])
}

/// Each line with a carriage return behind it.
pub open spec fn with_returns(lines: Seq<Seq<char>>) -> Seq<Seq<char>> {
    Seq::new(lines.len(), |i: int| lines[i].push('\r'))
}

proof fn lemma_crlf_pieces(lines: Seq<Seq<char>>)
    requires
        forall|i: int| 0 <= i < lines.len() ==> !(#[trigger] lines[i]).contains('\n'),
    ensures
        split(crlf_text(lines), '\n') == with_returns(lines).push(seq![]),
    decreases lines.len(),
{
    if lines.len() == 0 {
        lemma_split_none(seq![], '\n');
        assert(with_returns(lines).push(seq![]) =~= seq![Seq::<char>::empty()]);
    } else {
        let rest = lines.drop_first();
        assert forall|i: int| 0 <= i < rest.len() implies !(#[trigger] rest[i]).contains('\n') by {
            assert(rest[i] == lines[i + 1]);
        }
        lemma_crlf_pieces(rest);
        let head = lines[0].push('\r');
        assert(!head.contains('\n')) by {
            assert forall|j: int| 0 <= j < head.len() implies head[j] != '\n' by {
                if j < lines[0].len() {
                    assert(lines[0].contains(lines[0][j]));
                }
            }
        }
        lemma_split_none(head, '\n');
        lemma_split_add(head, crlf_text(rest), '\n');
        assert(crlf_text(lines) =~= head + seq!['\n'] + crlf_text(rest));
        assert(seq![head] + with_returns(rest).push(seq![]) =~= with_returns(lines).push(seq![]));
    }
}

/// Lines that are none of them continuations, but perhaps the first, are not
/// joined.
proof fn lemma_nothing_to_unfold(raw: Seq<Seq<char>>)
    requires
        forall|i: int| 0 < i < raw.len() ==> !is_continuation(strip_cr(#[trigger] raw[i])),
    ensures
        unfolded(raw) == Seq::new(raw.len(), |i: int| strip_cr(raw[i])),
    decreases raw.len(),
{
    let want = Seq::new(raw.len(), |i: int| strip_cr(raw[i]));
    if raw.len() > 0 {
        let before = raw.drop_last();
        assert forall|i: int| 0 < i < before.len() implies !is_continuation(
            strip_cr(#[trigger] before[i]),
        ) by {
            assert(before[i] == raw[i]);
        }
        lemma_nothing_to_unfold(before);
        assert(unfolded(raw) =~= want);
    } else {
        assert(unfolded(raw) =~= want);
    }
}

/// Lines that are written with their line ends come back as they were, with the
/// empty line behind the last line end.
pub proof fn law_written_lines_are_read_back(lines: Seq<Seq<char>>)
    requires
        are_lines(lines),
    ensures
        logical_lines(crlf_text(lines)) == lines.push(seq![]),
{
    lemma_crlf_pieces(lines);
    let raw = with_returns(lines).push(seq![]);
    assert forall|i: int| 0 < i < raw.len() implies !is_continuation(strip_cr(#[trigger] raw[i])) by {
        if i < lines.len() {
            assert(strip_cr(raw[i]) =~= lines[i]);
            assert(!is_continuation(lines[i]));
        }
    }
    lemma_nothing_to_unfold(raw);
    assert(unfolded(raw) =~= lines.push(seq![])) by {
        assert forall|i: int| 0 <= i < lines.len() implies strip_cr(raw[i]) == lines[i] by {
            assert(strip_cr(raw[i]) =~= lines[i]);
        }
    }
}

proof fn lemma_join_pieces(lines: Seq<Seq<char>>)
    requires
        lines.len() > 0,
        forall|i: int| 0 <= i < lines.len() ==> !(#[trigger] lines[i]).contains('\n'),
    ensures
        split(join(lines, "\r\n"@), '\n') == with_returns(lines.drop_last()).push(lines.last()),
    decreases lines.len(),
{
    reveal_strlit("\r\n");
    let sep = "\r\n"@;
    if lines.len() == 1 {
        lemma_split_none(lines[0], '\n');
        assert(with_returns(lines.drop_last()).push(lines.last()) =~= seq![lines[0]]);
    } else {
        let before = lines.drop_last();
        assert forall|i: int| 0 <= i < before.len() implies !(#[trigger] before[i]).contains('\n') by {
            assert(before[i] == lines[i]);
        }
        lemma_join_pieces(before);
        lemma_split_push(join(before, sep));
        let head = join(before, sep).push('\r');
        lemma_split_add(head, lines.last(), '\n');
        lemma_split_none(lines.last(), '\n');
        assert(join(lines, sep) =~= head + seq!['\n'] + lines.last());
        let p = split(join(before, sep), '\n');
        assert(with_returns(before) =~= p.drop_last().push(p.last().push('\r')));
        assert(with_returns(before) + seq![lines.last()] =~= with_returns(before).push(
            lines.last(),
        ));
    }
}

/// A carriage return behind a text is behind its last piece.
proof fn lemma_split_push(s: Seq<char>)
    ensures
        split(s, '\n').len() > 0,
        split(s.push('\r'), '\n') == split(s, '\n').drop_last().push(
            split(s, '\n').last().push('\r'),
        ),
    decreases s.len(),
{
    lemma_split_pieces(s, '\n');
    lemma_index_of(s, '\n');
    let n = index_of(s, '\n');
    let t = s.push('\r');
    if n < s.len() {
        lemma_index_of_is(t, '\n', n);
        let rest = s.skip(n + 1);
        lemma_split_push(rest);
        assert(t.skip(n + 1) =~= rest.push('\r'));
        assert(t.take(n) =~= s.take(n));
        let p = split(rest, '\n');
        assert(split(s, '\n') =~= seq![s.take(n)] + p);
        assert(seq![s.take(n)] + p.drop_last().push(p.last().push('\r')) =~= split(
            s,
            '\n',
        ).drop_last().push(split(s, '\n').last().push('\r')));
    } else {
        lemma_index_of_is(t, '\n', t.len() as int);
        assert(split(s, '\n').drop_last().push(split(s, '\n').last().push('\r')) =~= seq![t]);
    }
}

/// Joining lines with line ends is undone by unfolding: an event that is changed
/// line by line and put together again is read as the changed lines. Only a
/// carriage return at the very end is not part of the last line.
pub proof fn law_joined_lines_are_read_back(lines: Seq<Seq<char>>)
    requires
        lines.len() > 0,
        are_lines(lines),
    ensures
        logical_lines(join(lines, "\r\n"@)) == lines.drop_last().push(strip_cr(lines.last())),
{
    lemma_join_pieces(lines);
    let raw = with_returns(lines.drop_last()).push(lines.last());
    assert forall|i: int| 0 <= i < lines.len() - 1 implies strip_cr(#[trigger] raw[i])
        == lines[i] by {
        assert(strip_cr(raw[i]) =~= lines[i]);
    }
    assert forall|i: int| 0 < i < raw.len() implies !is_continuation(strip_cr(#[trigger] raw[i])) by {
        assert(!is_continuation(lines[i]));
    }
    lemma_nothing_to_unfold(raw);
    assert(unfolded(raw) =~= lines.drop_last().push(strip_cr(lines.last())));
}

/// Unfolding goes on alike behind lines that unfold alike.
proof fn lemma_unfold_congruent(a: Seq<Seq<char>>, b: Seq<Seq<char>>, more: Seq<Seq<char>>)
    requires
        unfolded(a) == unfolded(b),
    ensures
        unfolded(a + more) == unfolded(b + more),
    decreases more.len(),
{
    if more.len() == 0 {
        assert(a + more =~= a);
        assert(b + more =~= b);
    } else {
        lemma_unfold_congruent(a, b, more.drop_last());
        assert((a + more).drop_last() =~= a + more.drop_last());
        assert((b + more).drop_last() =~= b + more.drop_last());
    }
}

/// The pieces of a text that is followed by another: the last piece of the first
/// runs into the first piece of the second.
proof fn lemma_split_append(a: Seq<char>, b: Seq<char>, c: char)
    ensures
        split(a, c).len() > 0,
        split(b, c).len() > 0,
        split(a + b, c) == split(a, c).drop_last().push(
            split(a, c).last() + split(b, c)[0],
        ) + split(b, c).drop_first(),
    decreases a.len(),
{
    lemma_split_pieces(a, c);
    lemma_split_pieces(b, c);
    lemma_index_of(a, c);
    let n = index_of(a, c);
    let s = a + b;
    let q = split(b, c);
    if n < a.len() {
        lemma_index_of_is(s, c, n);
        let rest = a.skip(n + 1);
        lemma_split_append(rest, b, c);
        assert(s.take(n) =~= a.take(n));
        assert(s.skip(n + 1) =~= rest + b);
        let p = split(rest, c);
        assert(split(a, c) =~= seq![a.take(n)] + p);
        assert(seq![a.take(n)] + (p.drop_last().push(p.last() + q[0]) + q.drop_first()) =~= split(
            a,
            c,
        ).drop_last().push(split(a, c).last() + q[0]) + q.drop_first());
    } else {
        lemma_index_of(b, c);
        let m = index_of(b, c);
        assert forall|j: int| 0 <= j < a.len() + m implies s[j] != c by {
            if j >= a.len() {
                assert(s[j] == b[j - a.len()]);
            }
        }
        if m < b.len() {
            assert(s[a.len() + m] == b[m]);
        }
        lemma_index_of_is(s, c, a.len() + m);
        if m < b.len() {
            assert(s.take(a.len() + m) =~= a + b.take(m));
            assert(s.skip(a.len() + m + 1) =~= b.skip(m + 1));
            let more = split(b.skip(m + 1), c);
            assert(q.drop_first() =~= more);
            assert(seq![a].drop_last().push(a + q[0]) + q.drop_first() =~= seq![a + b.take(m)]
                + more);
        } else {
            assert(seq![a].drop_last().push(a + q[0]) + q.drop_first() =~= seq![s]);
        }
    }
}

/// A fold (a line end, and a space or a tab) is undone, wherever it stands. Two
/// places are left out: between a carriage return and a line end or the end of the
/// text, where the fold keeps the carriage return in the line, and between a line
/// end and another space or tab, where the fold starts a line.
pub proof fn law_folds_are_undone(a: Seq<char>, c: char, b: Seq<char>)
    requires
        c == ' ' || c == '\t',
        a.len() > 0 && a.last() == '\r' ==> b.len() > 0 && b[0] != '\n',
        a.len() > 0 && a.last() == '\n' ==> !is_continuation(b),
    ensures
        logical_lines(a + "\r\n"@ + seq![c] + b) == logical_lines(a + b),
{
    reveal_strlit("\r\n");
    let fold = a + "\r\n"@ + seq![c] + b;
    let p = split(a, '\n');
    let q = split(b, '\n');
    lemma_split_append(a, b, '\n');
    lemma_split_push(a);
    let tail = seq![c] + b;
    lemma_split_add(a.push('\r'), tail, '\n');
    assert(fold =~= a.push('\r') + seq!['\n'] + tail);
    lemma_split_none(seq![c], '\n');
    lemma_split_append(seq![c], b, '\n');
    let front = p.drop_last();
    let here = p.last();
    let f = q[0];
    lemma_last_piece(a);
    lemma_first_piece(b);
    let folded = front.push(here.push('\r')).push(seq![c] + f);
    let plain = front.push(here + f);
    assert(split(tail, '\n') =~= seq![seq![c] + f] + q.drop_first());
    assert(split(fold, '\n') =~= folded + q.drop_first());
    assert(split(a + b, '\n') =~= plain + q.drop_first());
    assert(folded.drop_last() =~= front.push(here.push('\r')));
    assert(front.push(here.push('\r')).drop_last() =~= front);
    assert(plain.drop_last() =~= front);
    lemma_fold_in_line(front, here, c, f);
    lemma_unfold_congruent(folded, plain, q.drop_first());
}

/// A physical line that is cut in two by a fold reads as it does uncut.
proof fn lemma_fold_in_line(front: Seq<Seq<char>>, here: Seq<char>, c: char, f: Seq<char>)
    requires
        c == ' ' || c == '\t',
        here.len() > 0 && here.last() == '\r' ==> f.len() > 0,
        here.len() == 0 && front.len() > 0 ==> !is_continuation(f),
    ensures
        unfolded(front.push(here.push('\r')).push(seq![c] + f)) == unfolded(front.push(here + f)),
{
    let first = front.push(here.push('\r'));
    let folded = first.push(seq![c] + f);
    let plain = front.push(here + f);
    assert(folded.drop_last() =~= first);
    assert(first.drop_last() =~= front);
    assert(plain.drop_last() =~= front);
    assert(strip_cr(here.push('\r')) =~= here);
    let cf = seq![c] + f;
    let g = strip_cr(f);
    assert(strip_cr(cf) =~= seq![c] + g);
    assert(strip_cr(cf).skip(1) =~= g);
    assert(is_continuation(strip_cr(cf)));
    assert(strip_cr(here + f) =~= here + g) by {
        if f.len() > 0 {
            assert((here + f).last() == f.last());
        } else {
            assert(here + f =~= here);
        }
    }
    let before = unfolded(front);
    if is_continuation(here) && before.len() > 0 {
        let joined = before.drop_last().push(before.last() + here.skip(1));
        assert((here + g)[0] == here[0]);
        assert(unfolded(first) == joined);
        assert((here + g).skip(1) =~= here.skip(1) + g);
        assert(before.last() + here.skip(1) + g =~= before.last() + (here.skip(1) + g));
        assert(joined.drop_last() =~= before.drop_last());
        assert(unfolded(folded) =~= unfolded(plain));
    } else {
        assert(unfolded(first) == before.push(here));
        assert(before.push(here).drop_last() =~= before);
        if here.len() > 0 {
            assert((here + g)[0] == here[0]);
        } else {
            assert(here + g =~= g);
            if front.len() == 0 {
                assert(before.len() == 0);
            } else if g.len() > 0 {
                assert(g[0] == f[0]);
            }
        }
        assert(unfolded(plain) == before.push(here + g));
        assert(unfolded(folded) =~= unfolded(plain));
    }
}

/// The last piece of a text is empty behind a line feed, and ends as the text does
/// otherwise.
proof fn lemma_last_piece(a: Seq<char>)
    ensures
        split(a, '\n').len() > 0,
        a.len() == 0 ==> split(a, '\n').len() == 1,
        a.len() == 0 || a.last() == '\n' <==> split(a, '\n').last().len() == 0,
        a.len() > 0 && a.last() != '\n' ==> split(a, '\n').last().last() == a.last(),
    decreases a.len(),
{
    lemma_index_of(a, '\n');
    let n = index_of(a, '\n');
    if n < a.len() {
        let rest = a.skip(n + 1);
        if rest.len() > 0 {
            assert(rest.last() == a.last());
        } else {
            assert(a.last() == a[n]);
        }
        lemma_last_piece(rest);
    }
}

/// The first piece of a text starts as the text does, unless that is a line feed.
proof fn lemma_first_piece(b: Seq<char>)
    ensures
        split(b, '\n').len() > 0,
        split(b, '\n')[0].len() > 0 <==> b.len() > 0 && b[0] != '\n',
        split(b, '\n')[0].len() > 0 ==> split(b, '\n')[0][0] == b[0],
{
    lemma_split_pieces(b, '\n');
    lemma_index_of(b, '\n');
}

/// Lists of physical lines are unfolded one after the other, unless the second
/// starts with a continuation.
proof fn lemma_unfold_parts(x: Seq<Seq<char>>, y: Seq<Seq<char>>)
    requires
        y.len() > 0 ==> !is_continuation(strip_cr(y[0])),
    ensures
        unfolded(x + y) == unfolded(x) + unfolded(y),
        y.len() > 0 ==> unfolded(y).len() > 0,
    decreases y.len(),
{
    if y.len() == 0 {
        assert(x + y =~= x);
        assert(unfolded(x) + unfolded(y) =~= unfolded(x));
    } else {
        let before = y.drop_last();
        lemma_unfold_parts(x, before);
        assert((x + y).drop_last() =~= x + before);
        assert((x + y).last() == y.last());
        if before.len() == 0 {
            assert(unfolded(before) =~= Seq::<Seq<char>>::empty());
            assert(y[0] == y.last());
        }
        assert(unfolded(x + y) =~= unfolded(x) + unfolded(y));
    }
}

/// The events of lines are read one part after the other, where no event is open
/// between the parts.
pub proof fn lemma_scan_parts(x: Seq<Seq<char>>, y: Seq<Seq<char>>)
    requires
        scan(x).open is None,
    ensures
        scan(x + y).open == scan(y).open,
        scan(x + y).events == scan(x).events + scan(y).events,
    decreases y.len(),
{
    if y.len() == 0 {
        assert(x + y =~= x);
        assert(scan(x).events + scan(y).events =~= scan(x).events);
    } else {
        lemma_scan_parts(x, y.drop_last());
        assert((x + y).drop_last() =~= x + y.drop_last());
        assert((x + y).last() == y.last());
        assert(scan(x + y).events =~= scan(x).events + scan(y).events);
    }
}

/// The events of two texts, one behind the other, are those of the first and then
/// those of the second. The first text leaves no event open, and the second does
/// not continue its last line.
pub proof fn law_texts_are_read_in_turn(a: Seq<char>, b: Seq<char>)
    requires
        scan(logical_lines(a)).open is None,
        !is_continuation(b),
    ensures
        events_of(a + seq!['\n'] + b) == events_of(a) + events_of(b),
{
    lemma_split_add(a, b, '\n');
    lemma_first_piece(b);
    let first = split(b, '\n')[0];
    assert(!is_continuation(strip_cr(first))) by {
        if strip_cr(first).len() > 0 {
            assert(strip_cr(first)[0] == b[0]);
        }
    }
    lemma_unfold_parts(split(a, '\n'), split(b, '\n'));
    lemma_scan_parts(logical_lines(a), logical_lines(b));
}

// ---------------------------------------------------------------------------
// Properties
// ---------------------------------------------------------------------------

/// Whether a name is made of capital letters.
pub open spec fn is_plain(name: Seq<char>) -> bool {
    name.len() > 0 && forall|i: int| 0 <= i < name.len() ==> 65 <= #[trigger] name[i] as int <= 90
}

pub proof fn lemma_plain_names()
    ensures
        is_plain("UID"@),
        is_plain("DTSTAMP"@),
        is_plain("DTSTART"@),
        is_plain("DTEND"@),
        is_plain("SUMMARY"@),
        is_plain("LOCATION"@),
        is_plain("DESCRIPTION"@),
        "UID"@[0] == 'U',
        "DTSTAMP"@[0] == 'D',
        "DTSTART"@[0] == 'D',
        "DTEND"@[0] == 'D',
        "SUMMARY"@[0] == 'S',
        "LOCATION"@[0] == 'L',
        "DESCRIPTION"@[0] == 'D',
{
    reveal_strlit("UID");
    reveal_strlit("DTSTAMP");
    reveal_strlit("DTSTART");
    reveal_strlit("DTEND");
    reveal_strlit("SUMMARY");
    reveal_strlit("LOCATION");
    reveal_strlit("DESCRIPTION");
}

pub proof fn lemma_distinct_names()
    ensures
        "UID"@ != "SUMMARY"@,
        "UID"@ != "DTSTART"@,
        "UID"@ != "DTEND"@,
        "UID"@ != "LOCATION"@,
        "DTSTAMP"@ != "SUMMARY"@,
        "DTSTAMP"@ != "DTSTART"@,
        "DTSTAMP"@ != "DTEND"@,
        "DTSTAMP"@ != "LOCATION"@,
        "DTSTAMP"@ != "UID"@,
        "DTSTART"@ != "SUMMARY"@,
        "DTEND"@ != "SUMMARY"@,
        "DTEND"@ != "DTSTART"@,
        "LOCATION"@ != "SUMMARY"@,
        "LOCATION"@ != "DTSTART"@,
        "LOCATION"@ != "DTEND"@,
        "DESCRIPTION"@ != "SUMMARY"@,
        "DESCRIPTION"@ != "DTSTART"@,
        "DESCRIPTION"@ != "DTEND"@,
        "DESCRIPTION"@ != "LOCATION"@,
        "DESCRIPTION"@ != "UID"@,
{
    lemma_plain_names();
    reveal_strlit("UID");
    reveal_strlit("DTSTAMP");
    reveal_strlit("DTSTART");
    reveal_strlit("DTEND");
    reveal_strlit("SUMMARY");
    reveal_strlit("LOCATION");
    reveal_strlit("DESCRIPTION");
    assert("DTSTAMP"@[5] != "DTSTART"@[5]);
    assert("DTEND"@.len() == 5 && "DTSTART"@.len() == 7 && "DTSTAMP"@.len() == 7);
    assert("DESCRIPTION"@.len() == 11);
}

/// The colon of a line stands behind its head, if the head has neither colons
/// nor quotes.
pub proof fn lemma_colon_at(head: Seq<char>, rest: Seq<char>)
    requires
        forall|i: int| 0 <= i < head.len() ==> head[i] != ':' && head[i] != '"',
    ensures
        colon(head + seq![':'] + rest, false) == Some(head.len() as int),
    decreases head.len(),
{
    let s = head + seq![':'] + rest;
    if head.len() > 0 {
        let t = head.drop_first();
        assert forall|i: int| 0 <= i < t.len() implies t[i] != ':' && t[i] != '"' by {
            assert(t[i] == head[i + 1]);
        }
        lemma_colon_at(t, rest);
        assert(s.drop_first() =~= t + seq![':'] + rest);
        assert(s[0] == head[0]);
    } else {
        assert(s[0] == ':');
    }
}

proof fn lemma_plain_upper(name: Seq<char>)
    requires
        is_plain(name),
    ensures
        upper(name) == name,
{
    assert forall|i: int| 0 <= i < name.len() implies upper_char(name[i]) == name[i] by {
        assert(65 <= name[i] as int <= 90);
    }
    assert(upper(name) =~= name);
}

/// A written property is read back.
pub proof fn law_property_is_read_back(name: Seq<char>, value: Seq<char>)
    requires
        is_plain(name),
    ensures
        property(prop_line(name, value)) == Some(
            Property { name: name, params: seq![], value: value },
        ),
{
    let line = prop_line(name, value);
    assert forall|i: int| 0 <= i < name.len() implies name[i] != ':' && name[i] != '"' && name[i]
        != ';' by {
        assert(65 <= name[i] as int <= 90);
    }
    lemma_colon_at(name, value);
    let n = name.len() as int;
    assert(line.take(n) =~= name);
    assert(line.skip(n + 1) =~= value);
    lemma_index_of_is(name, ';', n);
    assert(name.take(n) =~= name);
    lemma_plain_upper(name);
}

/// A written date is read back with its marker.
pub proof fn law_date_property_is_read_back(name: Seq<char>, value: Seq<char>)
    requires
        is_plain(name),
    ensures
        property(prop_line(name + ";VALUE=DATE"@, value)) == Some(
            Property { name: name, params: "VALUE=DATE"@, value: value },
        ),
{
    reveal_strlit(";VALUE=DATE");
    reveal_strlit("VALUE=DATE");
    let head = name + ";VALUE=DATE"@;
    let line = prop_line(head, value);
    assert forall|i: int| 0 <= i < head.len() implies head[i] != ':' && head[i] != '"' by {
        if i < name.len() {
            assert(65 <= name[i] as int <= 90);
        } else {
            assert(head[i] == ";VALUE=DATE"@[i - name.len()]);
        }
    }
    lemma_colon_at(head, value);
    let n = head.len() as int;
    assert(line.take(n) =~= head);
    assert(line.skip(n + 1) =~= value);
    let m = name.len() as int;
    assert forall|i: int| 0 <= i < m implies head[i] != ';' by {
        assert(65 <= name[i] as int <= 90);
    }
    assert(head[m] == ';');
    lemma_index_of_is(head, ';', m);
    assert(head.take(m) =~= name);
    assert(head.skip(m + 1) =~= "VALUE=DATE"@);
    lemma_plain_upper(name);
}

// ---------------------------------------------------------------------------
// Events
// ---------------------------------------------------------------------------

/// Texts of different lengths differ.
proof fn lemma_lengths_differ(a: Seq<char>, b: Seq<char>)
    requires
        a.len() != b.len(),
    ensures
        !same_ignoring_case(a, b),
{
    assert(upper(a).len() == a.len());
    assert(upper(b).len() == b.len());
}

/// A line that starts with a letter other than B and E neither opens nor closes
/// an event.
proof fn lemma_not_a_bracket(line: Seq<char>)
    requires
        line.len() > 0,
        65 <= line[0] as int <= 90,
        line[0] != 'B',
        line[0] != 'E',
    ensures
        !is_begin(line),
        !is_end(line),
        !is_continuation(line),
{
    reveal_strlit("BEGIN:VEVENT");
    reveal_strlit("END:VEVENT");
    lemma_lead(line, 0);
    assert(line.skip(0) =~= line);
    lemma_trim_end_bounds(line);
    let t = trim(line);
    if t.len() > 0 {
        assert(t[0] == line[0]);
        assert(upper_char(t[0]) == t[0]);
        if same_ignoring_case(t, "BEGIN:VEVENT"@) {
            assert(upper(t)[0] == upper("BEGIN:VEVENT"@)[0]);
        }
        if same_ignoring_case(t, "END:VEVENT"@) {
            assert(upper(t)[0] == upper("END:VEVENT"@)[0]);
        }
    }
}

pub proof fn lemma_brackets()
    ensures
        is_begin("BEGIN:VEVENT"@),
        !is_end("BEGIN:VEVENT"@),
        is_end("END:VEVENT"@),
        !is_begin("END:VEVENT"@),
        !is_begin(seq![]),
        !is_end(seq![]),
        !"BEGIN:VEVENT"@.contains('\n'),
        !"END:VEVENT"@.contains('\n'),
        !is_continuation("BEGIN:VEVENT"@),
        !is_continuation("END:VEVENT"@),
{
    reveal_strlit("BEGIN:VEVENT");
    reveal_strlit("END:VEVENT");
    let b = "BEGIN:VEVENT"@;
    let e = "END:VEVENT"@;
    let none = Seq::<char>::empty();
    lemma_lead(b, 0);
    assert(b.skip(0) =~= b);
    lemma_trim_end(b, b.len() as int);
    assert(b.take(b.len() as int) =~= b);
    lemma_lead(e, 0);
    assert(e.skip(0) =~= e);
    lemma_trim_end(e, e.len() as int);
    assert(e.take(e.len() as int) =~= e);
    lemma_lengths_differ(b, e);
    lemma_lengths_differ(e, b);
    lemma_lengths_differ(seq![], b);
    lemma_lengths_differ(seq![], e);
    lemma_lead(none, 0);
    assert(none.skip(0) =~= none);
    lemma_trim_end(none, 0);
    assert(none.take(0) =~= none);
}

pub proof fn lemma_open_block(body: Seq<Seq<char>>)
    requires
        forall|i: int|
            0 <= i < body.len() ==> !is_begin(#[trigger] body[i]) && !is_end(body[i]),
    ensures
        scan(seq!["BEGIN:VEVENT"@] + body) == (Scan { open: Some(body), events: seq![] }),
    decreases body.len(),
{
    lemma_brackets();
    let all = seq!["BEGIN:VEVENT"@] + body;
    if body.len() == 0 {
        assert(all.drop_last() =~= Seq::<Seq<char>>::empty());
        assert(all.last() == "BEGIN:VEVENT"@);
        assert(body =~= seq![]);
        assert(scan(all.drop_last()).events =~= seq![]);
    } else {
        let b = body.drop_last();
        assert forall|i: int| 0 <= i < b.len() implies !is_begin(#[trigger] b[i]) && !is_end(
            b[i],
        ) by {
            assert(b[i] == body[i]);
        }
        lemma_open_block(b);
        assert(all.drop_last() =~= seq!["BEGIN:VEVENT"@] + b);
        assert(b.push(body.last()) =~= body);
        assert(!is_begin(body[body.len() - 1]));
        assert(all.last() == body.last());
        assert(scan(all).events =~= seq![]);
    }
}

/// Whether lines can stand inside an event.
pub open spec fn are_inner(body: Seq<Seq<char>>) -> bool {
    forall|i: int| 0 <= i < body.len() ==> is_inner(#[trigger] body[i])
}

/// Whether a line can stand inside an event: it neither opens nor closes one, and
/// is a line of its own.
pub open spec fn is_inner(line: Seq<char>) -> bool {
    !is_begin(line) && !is_end(line) && !is_continuation(line) && !line.contains('\n')
}

/// An event that is written from its lines is read back from them, and is the
/// only event of the text.
pub proof fn law_event_is_read_back(body: Seq<Seq<char>>)
    requires
        are_inner(body),
    ensures
        events_of(vevent(body)) == seq![event_of(body)],
{
    lemma_brackets();
    let lines = seq!["BEGIN:VEVENT"@] + body + seq!["END:VEVENT"@];
    assert forall|i: int| 0 <= i < lines.len() implies !(#[trigger] lines[i]).contains('\n') && (i
        > 0 ==> !is_continuation(lines[i])) by {
        if 0 < i < lines.len() - 1 {
            assert(lines[i] == body[i - 1]);
            assert(is_inner(body[i - 1]));
        }
    }
    assert forall|i: int| 0 <= i < body.len() implies !is_begin(#[trigger] body[i]) && !is_end(
        body[i],
    ) by {
        assert(is_inner(body[i]));
    }
    law_written_lines_are_read_back(lines);
    lemma_open_block(body);
    let all = lines.push(seq![]);
    assert(all.drop_last() =~= lines);
    assert(lines.drop_last() =~= seq!["BEGIN:VEVENT"@] + body);
    assert(scan(lines).events =~= seq![event_of(body)]);
}

/// The characters of a stamp are digits, minus signs and the letters T and Z.
pub proof fn lemma_stamp(secs: int)
    ensures
        !date_stamp(secs).contains('\n'),
        !date_stamp(secs).contains('\r'),
        !time_stamp(secs).contains('\n'),
        !time_stamp(secs).contains('\r'),
        time_stamp(secs).contains('T'),
{
    let c = civil_at(secs);
    lemma_padded(c.month as nat, 2);
    lemma_padded(c.day as nat, 2);
    lemma_padded(c.hour as nat, 2);
    lemma_padded(c.minute as nat, 2);
    lemma_padded(c.second as nat, 2);
    lemma_padded(c.year as nat, 4);
    lemma_padded((-c.year) as nat, 3);
    let d = date_text(c);
    let t = time_text(c);
    assert forall|i: int| 0 <= i < d.len() implies is_digit(d[i]) || d[i] == '-' by {
    }
    assert forall|i: int| 0 <= i < t.len() implies is_digit(t[i]) by {
    }
    let s = time_stamp(secs);
    assert(s[d.len() as int] == 'T');
    assert forall|i: int| 0 <= i < s.len() implies s[i] != '\n' && s[i] != '\r' by {
        if i < d.len() {
            assert(s[i] == d[i]);
        } else if d.len() < i <= d.len() + t.len() {
            assert(s[i] == t[i - d.len() - 1]);
        }
    }
}

/// The start of an event as it is written.
pub open spec fn written_time(secs: int, all_day: bool) -> Seq<char> {
    if all_day {
        date_stamp(secs)
    } else {
        time_stamp(secs)
    }
}

pub proof fn lemma_time_line(name: Seq<char>, secs: int, all_day: bool)
    requires
        is_plain(name),
        name[0] != 'B',
        name[0] != 'E',
    ensures
        ({
            let line = time_line(name, secs, all_day);
            &&& property(line) matches Some(p)
            &&& p.name == name
            &&& p.value == written_time(secs, all_day)
            &&& date_only(p.params, p.value) == (all_day || date_only(seq![], p.value))
            &&& !all_day ==> !date_only(p.params, p.value)
            &&& is_inner(line)
        }),
{
    let line = time_line(name, secs, all_day);
    let value = written_time(secs, all_day);
    lemma_stamp(secs);
    assert(65 <= name[0] as int <= 90);
    if all_day {
        reveal_strlit(";VALUE=DATE");
        reveal_strlit("VALUE=DATE");
        law_date_property_is_read_back(name, value);
        let params = "VALUE=DATE"@;
        assert forall|i: int| 0 <= i < params.len() implies params[i] != ';' by {
        }
        lemma_split_none(params, ';');
        assert(same_ignoring_case(split(params, ';')[0], "VALUE=DATE"@));
        let head = name + ";VALUE=DATE"@;
        assert forall|i: int| 0 <= i < line.len() implies line[i] != '\n' by {
            if i < name.len() {
                assert(line[i] == name[i]);
                assert(65 <= name[i] as int <= 90);
            } else if i < head.len() {
                assert(line[i] == ";VALUE=DATE"@[i - name.len()]);
            } else if i > head.len() {
                assert(line[i] == value[i - head.len() - 1]);
                assert(value.contains(value[i - head.len() - 1]));
            }
        }
    } else {
        law_property_is_read_back(name, value);
        lemma_timed_is_no_date(value);
        assert forall|i: int| 0 <= i < line.len() implies line[i] != '\n' by {
            if i < name.len() {
                assert(line[i] == name[i]);
                assert(65 <= name[i] as int <= 90);
            } else if i > name.len() {
                assert(line[i] == value[i - name.len() - 1]);
                assert(value.contains(value[i - name.len() - 1]));
            }
        }
    }
    assert(line[0] == name[0]);
    lemma_not_a_bracket(line);
}

proof fn lemma_timed_is_no_date(value: Seq<char>)
    requires
        value.contains('T'),
    ensures
        !date_only(seq![], value),
{
    reveal_strlit("VALUE=DATE");
    let none = Seq::<char>::empty();
    lemma_split_none(none, ';');
    lemma_lengths_differ(none, "VALUE=DATE"@);
    let i = value.index_of('T');
    assert(value[i] == 'T');
    assert(!all_digits(value));
}

/// A text property is read back as the text without its carriage returns.
pub proof fn lemma_text_line(name: Seq<char>, text: Seq<char>)
    requires
        is_plain(name),
        name[0] != 'B',
        name[0] != 'E',
    ensures
        ({
            let line = prop_line(name, escaped(text));
            &&& property(line) == Some(
                Property { name: name, params: seq![], value: escaped(text) },
            )
            &&& unescaped(escaped(text)) == without_returns(text)
            &&& is_inner(line)
        }),
{
    law_property_is_read_back(name, escaped(text));
    law_escaping_is_undone(text);
    law_escaped_text_is_one_line(text);
    lemma_plain_line(name, escaped(text));
}

pub proof fn lemma_plain_line(name: Seq<char>, value: Seq<char>)
    requires
        is_plain(name),
        name[0] != 'B',
        name[0] != 'E',
        !value.contains('\n'),
    ensures
        is_inner(prop_line(name, value)),
{
    let line = prop_line(name, value);
    assert(65 <= name[0] as int <= 90);
    assert(line[0] == name[0]);
    lemma_not_a_bracket(line);
    assert forall|i: int| 0 <= i < line.len() implies line[i] != '\n' by {
        if i < name.len() {
            assert(line[i] == name[i]);
            assert(65 <= name[i] as int <= 90);
        } else if i > name.len() {
            assert(line[i] == value[i - name.len() - 1]);
            assert(value.contains(value[i - name.len() - 1]));
        }
    }
}

proof fn lemma_fields_push(lines: Seq<Seq<char>>, line: Seq<char>)
    ensures
        fields_of(lines.push(line)) == match property(line) {
            Some(p) => with_field(fields_of(lines), p),
            None => fields_of(lines),
        },
{
    assert(lines.push(line).drop_last() =~= lines);
}

/// What is read back of a new event.
pub open spec fn read_back(
    uid: Seq<char>,
    start: int,
    all_day: bool,
    end: Option<int>,
    summary: Seq<char>,
    location: Option<Seq<char>>,
) -> EventFields {
    let from = Some(written_time(start, all_day));
    EventFields {
        summary: without_returns(summary),
        start_raw: from,
        end_raw: Some(written_time(end_secs(start, all_day, end), all_day)),
        all_day: all_day,
        location: match location {
            Some(l) => if l.len() > 0 {
                Some(without_returns(l))
            } else {
                None
            },
            None => None,
        },
        uid: Some(uid),
        calendar: seq![],
        sort_key: sort_key_of(from),
    }
}

pub proof fn lemma_fixed_fields(
    now: int,
    uid: Seq<char>,
    start: int,
    all_day: bool,
    end: Option<int>,
    summary: Seq<char>,
)
    requires
        !uid.contains('\n'),
    ensures
        ({
            let body = event_body(now, uid, start, all_day, end, summary, None, None);
            let ev = read_back(uid, start, all_day, end, summary, None);
            &&& fields_of(body) == (EventFields { sort_key: seq!['0'], ..ev })
            &&& are_inner(body)
        }),
{
    lemma_plain_names();
    lemma_distinct_names();
    let a = prop_line("UID"@, uid);
    let b = prop_line("DTSTAMP"@, time_stamp(now));
    let c = time_line("DTSTART"@, start, all_day);
    let d = time_line("DTEND"@, end_secs(start, all_day, end), all_day);
    let e = prop_line("SUMMARY"@, escaped(summary));
    law_property_is_read_back("UID"@, uid);
    lemma_plain_line("UID"@, uid);
    lemma_stamp(now);
    law_property_is_read_back("DTSTAMP"@, time_stamp(now));
    lemma_plain_line("DTSTAMP"@, time_stamp(now));
    lemma_time_line("DTSTART"@, start, all_day);
    lemma_time_line("DTEND"@, end_secs(start, all_day, end), all_day);
    lemma_text_line("SUMMARY"@, summary);
    let l0 = Seq::<Seq<char>>::empty();
    let l1 = l0.push(a);
    let l2 = l1.push(b);
    let l3 = l2.push(c);
    let l4 = l3.push(d);
    let l5 = l4.push(e);
    lemma_fields_push(l0, a);
    lemma_fields_push(l1, b);
    lemma_fields_push(l2, c);
    lemma_fields_push(l3, d);
    lemma_fields_push(l4, e);
    let body = event_body(now, uid, start, all_day, end, summary, None, None);
    assert(body =~= l5);
}

/// A location is added to what is known of an event; a description changes
/// nothing.
pub proof fn lemma_texts(
    fixed: Seq<Seq<char>>,
    location: Option<Seq<char>>,
    description: Option<Seq<char>>,
)
    requires
        are_inner(fixed),
        fields_of(fixed).location is None,
    ensures
        ({
            let body = fixed + text_line("LOCATION"@, location) + text_line(
                "DESCRIPTION"@,
                description,
            );
            &&& are_inner(body)
            &&& fields_of(body) == (EventFields {
                location: match location {
                    Some(l) => if l.len() > 0 {
                        Some(without_returns(l))
                    } else {
                        None
                    },
                    None => None,
                },
                ..fields_of(fixed)
            })
        }),
{
    lemma_plain_names();
    lemma_distinct_names();
    let a = fixed + text_line("LOCATION"@, location);
    let b = a + text_line("DESCRIPTION"@, description);
    if location is Some && (location->0).len() > 0 {
        let line = prop_line("LOCATION"@, escaped(location->0));
        lemma_text_line("LOCATION"@, location->0);
        lemma_fields_push(fixed, line);
        assert(a =~= fixed.push(line));
    } else {
        assert(a =~= fixed);
    }
    if description is Some && (description->0).len() > 0 {
        let line = prop_line("DESCRIPTION"@, escaped(description->0));
        lemma_text_line("DESCRIPTION"@, description->0);
        lemma_fields_push(a, line);
        assert(b =~= a.push(line));
    } else {
        assert(b =~= a);
    }
}

/// What is written of a new event is what is read of it: the event comes back
/// with its uid, times and texts, and is the only one of the text. Carriage
/// returns in the texts are lost, and so is an empty location.
pub proof fn law_new_event_is_read_back(
    now: int,
    uid: Seq<char>,
    start: Seq<char>,
    all_day: bool,
    end: Option<Seq<char>>,
    summary: Seq<char>,
    location: Option<Seq<char>>,
    description: Option<Seq<char>>,
)
    requires
        !uid.contains('\n'),
        parsed(start) is Some,
        end is Some ==> parsed(end->0) is Some,
    ensures
        ({
            let to = match end {
                Some(e) => Some((parsed(e)->0).0),
                None => None,
            };
            let text = new_vevent(
                now,
                uid,
                start,
                all_day,
                end,
                summary,
                location,
                description,
            );
            &&& text is Ok
            &&& events_of(text->Ok_0) == seq![
                read_back(uid, (parsed(start)->0).0, all_day, to, summary, location),
            ]
        }),
{
    let from = (parsed(start)->0).0;
    let to = match end {
        Some(e) => Some((parsed(e)->0).0),
        None => None,
    };
    let fixed = event_body(now, uid, from, all_day, to, summary, None, None);
    let body = event_body(now, uid, from, all_day, to, summary, location, description);
    lemma_fixed_fields(now, uid, from, all_day, to, summary);
    assert(fixed + text_line("LOCATION"@, location) + text_line("DESCRIPTION"@, description)
        =~= body);
    lemma_texts(fixed, location, description);
    law_event_is_read_back(body);
    assert(event_of(body) == read_back(uid, from, all_day, to, summary, location));
}

} // verus!
