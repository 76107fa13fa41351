//! Splitting text into pieces and putting pieces together.

use crate::text::{
    chars_of, find, find_in, index_of, lemma_find, lemma_index_of, position, push_chars, views,
};
use vstd::prelude::*;
use vstd::slice::{slice_subrange, slice_to_vec};

verus! {

/// The pieces between the occurrences of `c`. There is always one piece more
/// than there are separators.
pub open spec fn split(s: Seq<char>, c: char) -> Seq<Seq<char>>
    decreases s.len(),
{
    let n = index_of(s, c);
    if n >= s.len() {
        seq![s]
    } else {
        proof {
            lemma_index_of(s, c);
        }
        seq![s.take(n)] + split(s.skip(n + 1), c)
    }
}

/// A line as it stands before its line feed: without a final carriage return.
pub open spec fn strip_cr(s: Seq<char>) -> Seq<char> {
    if s.len() > 0 && s.last() == '\r' {
        s.drop_last()
    } else {
        s
    }
}

/// The lines of a text: each ends at a line feed, which may have a carriage
/// return before it. Neither belongs to the line. A last line needs no line
/// feed, and then keeps a final carriage return.
pub open spec fn lines(s: Seq<char>) -> Seq<Seq<char>>
    decreases s.len(),
{
    let n = index_of(s, '\n');
    if s.len() == 0 {
        seq![]
    } else if n >= s.len() {
        seq![s]
    } else {
        proof {
            lemma_index_of(s, '\n');
        }
        seq![strip_cr(s.take(n))] + lines(s.skip(n + 1))
    }
}

/// The pieces one after another, with `sep` between each two.
pub open spec fn join(parts: Seq<Seq<char>>, sep: Seq<char>) -> Seq<char>
    decreases parts.len(),
{
    if parts.len() == 0 {
        seq![]
    } else if parts.len() == 1 {
        parts[0]
    } else {
        join(parts.drop_last(), sep) + sep + parts.last()
    }
}

/// The text with every occurrence of `p`, taken from left to right, replaced
/// by `r`.
pub open spec fn replace(s: Seq<char>, p: Seq<char>, r: Seq<char>) -> Seq<char>
    recommends
        p.len() > 0,
    decreases s.len(),
{
    proof {
        lemma_find(s, p);
    }
    if p.len() == 0 {
        s
    } else {
        match find(s, p) {
            Some(n) => s.take(n) + r + replace(s.skip(n + p.len()), p, r),
            None => s,
        }
    }
}

/// The pieces of a slice between the occurrences of `c`.
pub fn split_on(s: &[char], c: char) -> (r: Vec<Vec<char>>)
    ensures
        pieces(r@) == split(s@, c),
{
    let mut out: Vec<Vec<char>> = Vec::new();
    let mut start: usize = 0;
    proof {
        lemma_index_of(s@, c);
        assert(s@.skip(0) =~= s@);
        assert(pieces(out@) + split(s@, c) =~= split(s@, c));
    }
    loop
        invariant
            start <= s@.len(),
            pieces(out@) + split(s@.skip(start as int), c) == split(s@, c),
        decreases s@.len() - start,
    {
        let ghost rest = s@.skip(start as int);
        proof {
            assert(s@.subrange(start as int, s@.len() as int) =~= rest);
            lemma_index_of(rest, c);
        }
        let tail = slice_subrange(s, start, s.len());
        let n: usize = position(tail, c);
        let ghost before = pieces(out@);
        let piece = slice_subrange(tail, 0, n);
        out.push(slice_to_vec(piece));
        proof {
            assert(rest.subrange(0, n as int) =~= rest.take(n as int));
            assert(pieces(out@) =~= before.push(rest.take(n as int)));
        }
        if n == tail.len() {
            proof {
                assert(rest.take(n as int) =~= rest);
                assert(before + seq![rest] =~= pieces(out@));
            }
            return out;
        }
        start = start + n + 1;
        proof {
            assert(rest.skip(n + 1) =~= s@.skip(start as int));
            let more = split(s@.skip(start as int), c);
            assert(before + (seq![rest.take(n as int)] + more) =~= pieces(out@) + more);
        }
    }
}

/// The characters of each piece.
pub open spec fn pieces(v: Seq<Vec<char>>) -> Seq<Seq<char>> {
    Seq::new(v.len(), |i: int| v[i]@)
}

/// The slice without a final carriage return.
pub fn without_cr(s: &[char]) -> (r: &[char])
    ensures
        r@ == strip_cr(s@),
{
    let n: usize = s.len();
    if n > 0 && s[n - 1] == '\r' {
        proof {
            assert(s@.subrange(0, n - 1) =~= s@.drop_last());
        }
        slice_subrange(s, 0, n - 1)
    } else {
        s
    }
}

/// The lines of a slice.
pub fn lines_of(s: &[char]) -> (r: Vec<Vec<char>>)
    ensures
        pieces(r@) == lines(s@),
{
    let mut out: Vec<Vec<char>> = Vec::new();
    let mut start: usize = 0;
    proof {
        assert(s@.skip(0) =~= s@);
        assert(pieces(out@) + lines(s@) =~= lines(s@));
    }
    while start < s.len()
        invariant
            start <= s@.len(),
            pieces(out@) + lines(s@.skip(start as int)) == lines(s@),
        decreases s@.len() - start,
    {
        let ghost rest = s@.skip(start as int);
        proof {
            assert(s@.subrange(start as int, s@.len() as int) =~= rest);
            lemma_index_of(rest, '\n');
        }
        let tail = slice_subrange(s, start, s.len());
        let n: usize = position(tail, '\n');
        let ghost before = pieces(out@);
        if n == tail.len() {
            out.push(slice_to_vec(tail));
            proof {
                assert(pieces(out@) =~= before.push(rest));
                assert(before + seq![rest] =~= pieces(out@));
            }
            return out;
        }
        let line = without_cr(slice_subrange(tail, 0, n));
        out.push(slice_to_vec(line));
        start = start + n + 1;
        proof {
            assert(rest.subrange(0, n as int) =~= rest.take(n as int));
            assert(pieces(out@) =~= before.push(strip_cr(rest.take(n as int))));
            assert(rest.skip(n + 1) =~= s@.skip(start as int));
            let more = lines(s@.skip(start as int));
            assert(before + (seq![strip_cr(rest.take(n as int))] + more) =~= pieces(out@) + more);
        }
    }
    proof {
        assert(pieces(out@) + lines(s@.skip(start as int)) =~= pieces(out@));
    }
    out
}

/// The strings of a list with `sep` between each two.
pub fn join_strings(v: &Vec<String>, sep: &str) -> (r: String)
    ensures
        r@ == join(views(v@), sep@),
{
    let mut out = String::new();
    let mut i: usize = 0;
    let ghost all = views(v@);
    proof {
        assert(all.take(0) =~= Seq::<Seq<char>>::empty());
    }
    while i < v.len()
        invariant
            i <= v@.len(),
            all == views(v@),
            out@ == join(all.take(i as int), sep@),
        decreases v@.len() - i,
    {
        if i > 0 {
            out.append(sep);
        }
        out.append(v[i].as_str());
        i = i + 1;
        proof {
            assert(all.take(i as int).drop_last() =~= all.take(i - 1));
            if i == 1 {
                assert(Seq::<char>::empty() + all[0] =~= all[0]);
            }
        }
    }
    proof {
        assert(all.take(i as int) =~= all);
    }
    out
}

/// The text with every occurrence of `p` replaced by `r`.
pub fn replace_all(s: &str, p: &str, r: &str) -> (out: String)
    requires
        p@.len() > 0,
    ensures
        out@ == replace(s@, p@, r@),
{
    let text = chars_of(s);
    let pattern = chars_of(p);
    let mut out = String::new();
    let mut start: usize = 0;
    proof {
        assert(s@.skip(0) =~= s@);
        assert(out@ + replace(s@, p@, r@) =~= replace(s@, p@, r@));
    }
    loop
        invariant
            text@ == s@,
            pattern@ == p@,
            p@.len() > 0,
            start <= s@.len(),
            out@ + replace(s@.skip(start as int), p@, r@) == replace(s@, p@, r@),
        decreases s@.len() - start,
    {
        let ghost rest = s@.skip(start as int);
        let ghost before = out@;
        proof {
            assert(s@.subrange(start as int, s@.len() as int) =~= rest);
            lemma_find(rest, p@);
        }
        let tail = slice_subrange(text.as_slice(), start, text.len());
        match find_in(tail, pattern.as_slice()) {
            Some(n) => {
                push_chars(&mut out, slice_subrange(tail, 0, n));
                out.append(r);
                start = start + n + pattern.len();
                proof {
                    assert(rest.subrange(0, n as int) =~= rest.take(n as int));
                    assert(rest.skip(n + p@.len()) =~= s@.skip(start as int));
                    let more = replace(s@.skip(start as int), p@, r@);
                    assert(before + (rest.take(n as int) + r@ + more) =~= out@ + more);
                }
            },
            None => {
                push_chars(&mut out, tail);
                return out;
            },
        }
    }
}

} // verus!
