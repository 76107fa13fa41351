//! The entry window: the text that is shown, and when the window goes away.

use crate::split::replace;
use crate::text::{
    chars_of, contains, find, find_in, is_space, lemma_find, lemma_find_none, lemma_trim, starts,
    string_of, trim, trimmed,
};
use vstd::prelude::*;
use vstd::slice::slice_subrange;

verus! {

/// Corner radius of the card, in pixels. It both clips the blur behind the card
/// and is filled into the stylesheet, so that the two share the same corners.
pub const CORNER_RADIUS: u32 = 8;

/// Fixed width of the card, in pixels.
pub const WINDOW_WIDTH: i32 = 620;

// ---------------------------------------------------------------------------
// Text
// ---------------------------------------------------------------------------

/// Whether the text ends in two line feeds.
pub open spec fn ends_in_gap(s: Seq<char>) -> bool {
    s.len() >= 2 && s[s.len() - 1] == '\n' && s[s.len() - 2] == '\n'
}

/// The text with every run of three or more line feeds cut down to two.
pub open spec fn collapsed(s: Seq<char>) -> Seq<char>
    decreases s.len(),
{
    if s.len() == 0 {
        seq![]
    } else {
        let before = s.drop_last();
        if s.last() == '\n' && ends_in_gap(before) {
            collapsed(before)
        } else {
            collapsed(before).push(s.last())
        }
    }
}

/// The text without surrounding whitespace and without large gaps.
pub open spec fn cleaned(s: Seq<char>) -> Seq<char> {
    collapsed(trim(s))
}

/// Trim surrounding whitespace and collapse any run of three or more newlines
/// down to a blank-line gap. Applied to both the user's message and the streaming
/// reply before display.
pub fn clean(text: &str) -> (r: String)
    ensures
        r@ == cleaned(text@),
{
    let chars = chars_of(text);
    let t = trimmed(chars.as_slice());
    let mut out = String::new();
    let mut i: usize = 0;
    let ghost s = t@;
    proof {
        assert(s.take(0) =~= Seq::<char>::empty());
    }
    while i < t.len()
        invariant
            i <= s.len(),
            t@ == s,
            out@ == collapsed(s.take(i as int)),
        decreases s.len() - i,
    {
        proof {
            assert(s.take(i + 1).drop_last() =~= s.take(i as int));
            assert(s.take(i + 1).last() == s[i as int]);
        }
        if !(t[i] == '\n' && i >= 2 && t[i - 1] == '\n' && t[i - 2] == '\n') {
            out.push(t[i]);
        }
        i = i + 1;
    }
    assert(s.take(i as int) =~= s);
    out
}

/// The part of a data URL that holds its base64 data.
pub open spec fn base64_part(url: Seq<char>) -> Option<Seq<char>> {
    match find(url, ";base64,"@) {
        Some(n) => Some(url.skip(n + ";base64,"@.len())),
        None => None,
    }
}

/// The base64 data of a `data:…;base64,…` URL; nothing if it is no such URL.
pub fn base64_payload(data_url: &str) -> (r: Option<String>)
    ensures
        match r {
            Some(s) => base64_part(data_url@) == Some(s@),
            None => base64_part(data_url@) is None,
        },
{
    let v = chars_of(data_url);
    let mark = chars_of(";base64,");
    match find_in(v.as_slice(), mark.as_slice()) {
        Some(n) => {
            assert(v.len() == v@.len());
            let from: usize = n + mark.len();
            proof {
                assert(v@.subrange(from as int, v@.len() as int) =~= v@.skip(from as int));
            }
            Some(string_of(slice_subrange(v.as_slice(), from, v.len())))
        },
        None => None,
    }
}

// ---------------------------------------------------------------------------
// Focus
// ---------------------------------------------------------------------------

/// Whether losing the focus closes the window. The compositor can bounce focus
/// off the freshly mapped window, so for a while it does not.
#[derive(Clone, Copy, PartialEq, Eq, Structural)]
pub enum Guard {
    /// The window has just been presented.
    Fresh,
    /// The focus was taken back after a bounce, which bounces in turn.
    Renewed,
    /// Losing the focus means that the user clicked away.
    Armed,
}

/// What the end of a grace period does.
pub struct GraceEnd {
    pub guard: Guard,
    /// Whether to take the focus back, and start another grace period.
    pub present_again: bool,
}

/// At the end of the first grace period, the focus is taken back if the bounce
/// won. There is no third period.
pub open spec fn after_grace(guard: Guard, visible: bool, active: bool) -> GraceEnd {
    if guard == Guard::Fresh && visible && !active {
        GraceEnd { guard: Guard::Renewed, present_again: true }
    } else {
        GraceEnd { guard: Guard::Armed, present_again: false }
    }
}

/// What the end of a grace period does.
pub fn end_grace(guard: Guard, visible: bool, active: bool) -> (r: GraceEnd)
    ensures
        r == after_grace(guard, visible, active),
{
    if guard == Guard::Fresh && visible && !active {
        GraceEnd { guard: Guard::Renewed, present_again: true }
    } else {
        GraceEnd { guard: Guard::Armed, present_again: false }
    }
}

/// Whether a change of focus closes the window.
pub open spec fn closes(guard: Guard, active: bool) -> bool {
    !active && guard == Guard::Armed
}

/// Whether a change of focus closes the window.
pub fn closes_on_focus_change(guard: Guard, active: bool) -> (r: bool)
    ensures
        r == (!active && guard == Guard::Armed),
        r == closes(guard, active),
{
    !active && guard == Guard::Armed
}

/// After at most two grace periods the window closes as soon as it loses the
/// focus.
pub proof fn law_guard_is_armed_in_the_end(
    guard: Guard,
    first: (bool, bool),
    second: (bool, bool),
)
    ensures
        after_grace(after_grace(guard, first.0, first.1).guard, second.0, second.1).guard
            == Guard::Armed,
{
}

// ---------------------------------------------------------------------------
// Laws of cleaning
// ---------------------------------------------------------------------------

/// The end of a collapsed text is that of the text.
proof fn lemma_collapsed_end(s: Seq<char>)
    ensures
        collapsed(s).len() <= s.len(),
        s.len() > 0 ==> collapsed(s).len() > 0 && collapsed(s).last() == s.last(),
        ends_in_gap(s) == ends_in_gap(collapsed(s)),
    decreases s.len(),
{
    if s.len() > 0 {
        lemma_collapsed_end(s.drop_last());
    }
}

/// A collapsed text has no run of three line feeds.
proof fn lemma_no_large_gap(s: Seq<char>)
    ensures
        forall|i: int|
            0 <= i < collapsed(s).len() - 2 ==> !(#[trigger] collapsed(s)[i] == '\n' && collapsed(
                s,
            )[i + 1] == '\n' && collapsed(s)[i + 2] == '\n'),
    decreases s.len(),
{
    if s.len() > 0 {
        let before = s.drop_last();
        lemma_no_large_gap(before);
        lemma_collapsed_end(before);
        let c = collapsed(before);
        let d = collapsed(s);
        if !(s.last() == '\n' && ends_in_gap(before)) {
            assert forall|i: int| 0 <= i < d.len() - 2 implies !(#[trigger] d[i] == '\n' && d[i + 1]
                == '\n' && d[i + 2] == '\n') by {
                if i + 2 < c.len() {
                    assert(d[i] == c[i]);
                    assert(d[i + 1] == c[i + 1]);
                    assert(d[i + 2] == c[i + 2]);
                } else {
                    assert(d[i] == c[c.len() - 2]);
                    assert(d[i + 1] == c[c.len() - 1]);
                }
            }
        }
    }
}

/// A text without large gaps is left alone.
proof fn lemma_nothing_to_collapse(s: Seq<char>)
    requires
        forall|i: int|
            0 <= i < s.len() - 2 ==> !(#[trigger] s[i] == '\n' && s[i + 1] == '\n' && s[i + 2]
                == '\n'),
    ensures
        collapsed(s) == s,
    decreases s.len(),
{
    if s.len() > 0 {
        let before = s.drop_last();
        assert forall|i: int| 0 <= i < before.len() - 2 implies !(#[trigger] before[i] == '\n'
            && before[i + 1] == '\n' && before[i + 2] == '\n') by {
            assert(before[i] == s[i]);
        }
        lemma_nothing_to_collapse(before);
        if s.last() == '\n' && ends_in_gap(before) {
            let i = s.len() - 3;
            assert(s[i] == '\n' && s[i + 1] == '\n' && s[i + 2] == '\n');
        }
        assert(before.push(s.last()) =~= s);
    }
}

/// Whether a text has no run of three line feeds.
proof fn lemma_gap_is_found(s: Seq<char>)
    requires
        !contains(s, "\n\n\n"@),
    ensures
        forall|i: int|
            0 <= i < s.len() - 2 ==> !(#[trigger] s[i] == '\n' && s[i + 1] == '\n' && s[i + 2]
                == '\n'),
{
    reveal_strlit("\n\n\n");
    let gap = "\n\n\n"@;
    lemma_find(s, gap);
    assert forall|i: int| 0 <= i < s.len() - 2 implies !(#[trigger] s[i] == '\n' && s[i + 1] == '\n'
        && s[i + 2] == '\n') by {
        if s[i] == '\n' && s[i + 1] == '\n' && s[i + 2] == '\n' {
            assert(s.skip(i).take(3) =~= gap);
            assert(starts(s.skip(i), gap));
        }
    }
}

/// A collapsed text has no three line feeds in a row.
pub proof fn law_no_large_gaps_are_left(s: Seq<char>)
    ensures
        !contains(cleaned(s), "\n\n\n"@),
{
    reveal_strlit("\n\n\n");
    let gap = "\n\n\n"@;
    let c = cleaned(s);
    lemma_no_large_gap(trim(s));
    assert forall|i: int| 0 <= i <= c.len() implies !starts(#[trigger] c.skip(i), gap) by {
        if starts(c.skip(i), gap) {
            let t = c.skip(i).take(3);
            assert(t[0] == c[i] && t[1] == c[i + 1] && t[2] == c[i + 2]);
            assert(gap[0] == '\n' && gap[1] == '\n' && gap[2] == '\n');
        }
    }
    lemma_find_none(c, gap);
}

/// Cleaning a clean text changes nothing, and a clean text has no whitespace
/// around it.
pub proof fn law_cleaning_is_idempotent(s: Seq<char>)
    ensures
        cleaned(cleaned(s)) == cleaned(s),
        cleaned(s).len() > 0 ==> !is_space(cleaned(s)[0]) && !is_space(cleaned(s).last()),
{
    let t = trim(s);
    lemma_trim(s);
    lemma_no_large_gap(t);
    lemma_collapsed_end(t);
    let c = collapsed(t);
    if c.len() > 0 {
        lemma_collapsed_start(t);
    }
    crate::text::lemma_lead(c, 0);
    assert(c.skip(0) =~= c);
    crate::text::lemma_trim_end(c, c.len() as int);
    assert(c.take(c.len() as int) =~= c);
    lemma_nothing_to_collapse(c);
}

proof fn lemma_collapsed_start(s: Seq<char>)
    requires
        s.len() > 0,
    ensures
        collapsed(s).len() > 0,
        collapsed(s)[0] == s[0],
    decreases s.len(),
{
    if s.len() > 1 {
        lemma_collapsed_start(s.drop_last());
    } else {
        assert(s.drop_last() =~= Seq::<char>::empty());
        assert(collapsed(s.drop_last()) =~= Seq::<char>::empty());
    }
}

/// Texts that collapse alike and end alike are continued alike.
proof fn lemma_continued(x: Seq<char>, y: Seq<char>, more: Seq<char>)
    requires
        collapsed(x) == collapsed(y),
    ensures
        collapsed(x + more) == collapsed(y + more),
    decreases more.len(),
{
    if more.len() == 0 {
        assert(x + more =~= x);
        assert(y + more =~= y);
    } else {
        let m = more.drop_last();
        lemma_continued(x, y, m);
        assert((x + more).drop_last() =~= x + m);
        assert((y + more).drop_last() =~= y + m);
        lemma_collapsed_end(x + m);
        lemma_collapsed_end(y + m);
    }
}

/// Cutting runs of three line feeds down to two, wherever they stand, does not
/// change what a text collapses to.
proof fn lemma_replacing(before: Seq<char>, s: Seq<char>)
    ensures
        collapsed(before + replace(s, "\n\n\n"@, "\n\n"@)) == collapsed(before + s),
    decreases s.len(),
{
    reveal_strlit("\n\n\n");
    reveal_strlit("\n\n");
    let three = "\n\n\n"@;
    let two = "\n\n"@;
    lemma_find(s, three);
    match find(s, three) {
        Some(n) => {
            let a = s.take(n);
            let rest = s.skip(n + 3);
            let x = before + a + two;
            let y = before + a + three;
            lemma_replacing(x, rest);
            assert(s.skip(n).take(3) == three);
            assert(s =~= a + three + rest) by {
                assert forall|i: int| n <= i < n + 3 implies s[i] == three[i - n] by {
                    assert(s.skip(n).take(3)[i - n] == s[i]);
                }
            }
            assert(y.drop_last() =~= x);
            assert(ends_in_gap(x));
            assert(collapsed(y) == collapsed(x));
            lemma_continued(x, y, rest);
            assert(before + replace(s, three, two) =~= x + replace(rest, three, two));
            assert(before + s =~= y + rest);
        },
        None => {},
    }
}

/// Cleaning is what is left once no run of three line feeds can be cut down to
/// two any more: cutting does not change the outcome, and a text with nothing to
/// cut is its own.
pub proof fn law_cleaning_is_cutting_gaps(s: Seq<char>)
    ensures
        collapsed(replace(s, "\n\n\n"@, "\n\n"@)) == collapsed(s),
        !contains(s, "\n\n\n"@) ==> collapsed(s) == s,
{
    let none = Seq::<char>::empty();
    lemma_replacing(none, s);
    assert(none + s =~= s);
    assert(none + replace(s, "\n\n\n"@, "\n\n"@) =~= replace(s, "\n\n\n"@, "\n\n"@));
    if !contains(s, "\n\n\n"@) {
        lemma_gap_is_found(s);
        lemma_nothing_to_collapse(s);
    }
}

} // verus!
