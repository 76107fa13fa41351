//! What the operations on text do.

use crate::split::{join, lines, split, strip_cr};
use crate::text::{
    contains, find, is_space, lemma_find, lemma_index_of_is, lemma_lead, lemma_trim_end, starts,
    trim, trim_start,
};
use crate::tools::byte_len;
use vstd::prelude::*;

verus! {

/// Whether a text is made of whitespace.
pub open spec fn is_blank(s: Seq<char>) -> bool {
    forall|i: int| 0 <= i < s.len() ==> is_space(#[trigger] s[i])
}

/// Whether a text neither starts nor ends with whitespace.
pub open spec fn is_tight(s: Seq<char>) -> bool {
    s.len() > 0 ==> !is_space(s[0]) && !is_space(s[s.len() - 1])
}

/// Of the characters of ASCII the space and the controls that move on the page are
/// whitespace.
pub proof fn law_ascii_whitespace(c: char)
    requires
        (c as int) < 128,
    ensures
        is_space(c) <==> c == ' ' || c == '\t' || c == '\n' || c == '\x0b' || c == '\x0c' || c
            == '\r',
{
}

/// What is trimmed off a text is the whitespace around it, and nothing else.
pub proof fn law_trimming_takes_the_space_around(a: Seq<char>, s: Seq<char>, b: Seq<char>)
    requires
        is_blank(a),
        is_tight(s),
        is_blank(b),
    ensures
        trim(a + s + b) == s,
        trim_start(a + s) == s,
{
    let all = a + s + b;
    if s.len() > 0 {
        assert forall|j: int| 0 <= j < a.len() implies is_space(all[j]) by {
            assert(all[j] == a[j]);
        }
        assert forall|j: int| 0 <= j < a.len() implies is_space((a + s)[j]) by {
            assert((a + s)[j] == a[j]);
        }
        assert(all[a.len() as int] == s[0]);
        assert((a + s)[a.len() as int] == s[0]);
        lemma_lead(all, a.len() as int);
        lemma_lead(a + s, a.len() as int);
        assert((a + s).skip(a.len() as int) =~= s);
        let rest = s + b;
        assert(all.skip(a.len() as int) =~= rest);
        assert forall|j: int| s.len() <= j < rest.len() implies is_space(rest[j]) by {
            assert(rest[j] == b[j - s.len()]);
        }
        assert(rest[s.len() - 1] == s[s.len() - 1]);
        lemma_trim_end(rest, s.len() as int);
        assert(rest.take(s.len() as int) =~= s);
    } else {
        assert forall|j: int| 0 <= j < all.len() implies is_space(all[j]) by {
            if j < a.len() {
                assert(all[j] == a[j]);
            } else {
                assert(all[j] == b[j - a.len()]);
            }
        }
        lemma_lead(all, all.len() as int);
        assert(all.skip(all.len() as int) =~= s);
        assert(a + s =~= a);
        assert forall|j: int| 0 <= j < a.len() implies is_space(a[j]) by {}
        lemma_lead(a, a.len() as int);
        assert(a.skip(a.len() as int) =~= s);
        lemma_trim_end(s, 0);
        assert(s.take(0) =~= s);
    }
}

/// Whether a text has another one at a position.
pub open spec fn has_at(s: Seq<char>, p: Seq<char>, n: int) -> bool {
    0 <= n && n + p.len() <= s.len() && s.subrange(n, n + p.len()) == p
}

/// Whether a text has another one somewhere in it.
pub open spec fn has_part(s: Seq<char>, p: Seq<char>) -> bool {
    exists|n: int| has_at(s, p, n)
}

proof fn lemma_has_at(s: Seq<char>, p: Seq<char>, n: int)
    requires
        0 <= n <= s.len(),
    ensures
        has_at(s, p, n) == starts(s.skip(n), p),
{
    if n + p.len() <= s.len() {
        assert(s.skip(n).take(p.len() as int) =~= s.subrange(n, n + p.len()));
    }
}

/// What is found of a text in another one is its first occurrence, and it is found
/// wherever it occurs.
pub proof fn law_first_occurrence_is_found(s: Seq<char>, p: Seq<char>)
    ensures
        contains(s, p) == has_part(s, p),
        find(s, p) is Some == has_part(s, p),
        find(s, p) matches Some(n) ==> has_at(s, p, n) && forall|m: int|
            m < n ==> !#[trigger] has_at(s, p, m),
        starts(s, p) == has_at(s, p, 0),
{
    lemma_find(s, p);
    lemma_has_at(s, p, 0);
    assert(s.skip(0) =~= s);
    match find(s, p) {
        Some(n) => {
            lemma_has_at(s, p, n);
            assert forall|m: int| m < n implies !#[trigger] has_at(s, p, m) by {
                if 0 <= m {
                    lemma_has_at(s, p, m);
                    assert(!starts(s.skip(m), p));
                }
            }
        },
        None => {
            if has_part(s, p) {
                let n = choose|n: int| has_at(s, p, n);
                lemma_has_at(s, p, n);
                assert(!starts(s.skip(n), p));
            }
        },
    }
}

/// Whether a character does not occur in a text.
pub open spec fn lacks(s: Seq<char>, c: char) -> bool {
    forall|i: int| 0 <= i < s.len() ==> #[trigger] s[i] != c
}

/// A text is split at every occurrence of a character: the pieces do not hold it, and
/// with it between each two of them they make up the text.
pub proof fn law_pieces_make_up_the_text(a: Seq<char>, c: char, s: Seq<char>)
    requires
        lacks(a, c),
    ensures
        split(a, c) == seq![a],
        split(a.push(c) + s, c) == seq![a] + split(s, c),
{
    lemma_index_of_is(a, c, a.len() as int);
    let all = a.push(c) + s;
    let n = a.len() as int;
    assert forall|j: int| 0 <= j < n implies all[j] != c by {
        assert(all[j] == a[j]);
    }
    assert(all[n] == c);
    lemma_index_of_is(all, c, n);
    assert(all.take(n) =~= a);
    assert(all.skip(n + 1) =~= s);
}

/// A text is read line by line. A line ends at a line feed, or at a carriage return and
/// a line feed; what is left behind the last one is a line too.
pub proof fn law_lines_end_at_line_feeds(a: Seq<char>, s: Seq<char>)
    requires
        lacks(a, '\n'),
    ensures
        lines(Seq::<char>::empty()).len() == 0,
        a.len() > 0 ==> lines(a) == seq![a],
        a.len() == 0 || a[a.len() - 1] != '\r' ==> lines(a.push('\n') + s) == seq![a] + lines(s),
        lines(a.push('\r').push('\n') + s) == seq![a] + lines(s),
{
    lemma_index_of_is(a, '\n', a.len() as int);
    let all = a.push('\n') + s;
    let n = a.len() as int;
    assert forall|j: int| 0 <= j < n implies all[j] != '\n' by {
        assert(all[j] == a[j]);
    }
    assert(all[n] == '\n');
    lemma_index_of_is(all, '\n', n);
    assert(all.take(n) =~= a);
    assert(all.skip(n + 1) =~= s);
    let b = a.push('\r');
    let more = b.push('\n') + s;
    assert forall|j: int| 0 <= j < n + 1 implies more[j] != '\n' by {
        assert(more[j] == b[j]);
        if j < n {
            assert(b[j] == a[j]);
        }
    }
    assert(more[n + 1] == '\n');
    lemma_index_of_is(more, '\n', n + 1);
    assert(more.take(n + 1) =~= b);
    assert(more.skip(n + 2) =~= s);
    assert(strip_cr(b) =~= a);
}

/// Pieces are put together with the separator between each two of them, and nothing
/// else.
pub proof fn law_pieces_are_put_together(a: Seq<Seq<char>>, s: Seq<char>, sep: Seq<char>)
    ensures
        join(Seq::<Seq<char>>::empty(), sep) == Seq::<char>::empty(),
        join(seq![s], sep) == s,
        a.len() > 0 ==> join(a.push(s), sep) == join(a, sep) + sep + s,
{
    assert(a.push(s).drop_last() =~= a);
}

/// The length of a text is that of its parts, and a character takes one to four bytes,
/// one if it is ASCII.
pub proof fn law_bytes_add_up(a: Seq<char>, b: Seq<char>, c: char)
    ensures
        byte_len(a + b) == byte_len(a) + byte_len(b),
        byte_len(seq![c]) == if (c as int) < 0x80 {
            1nat
        } else if (c as int) < 0x800 {
            2nat
        } else if (c as int) < 0x10000 {
            3nat
        } else {
            4nat
        },
    decreases b.len(),
{
    assert(seq![c].drop_last() =~= Seq::<char>::empty());
    reveal_with_fuel(byte_len, 2);
    if b.len() == 0 {
        assert(a + b =~= a);
    } else {
        law_bytes_add_up(a, b.drop_last(), c);
        assert((a + b).drop_last() =~= a + b.drop_last());
    }
}

} // verus!
