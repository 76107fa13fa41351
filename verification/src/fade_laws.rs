//! What is shown of a reply while it arrives.

use crate::ascii::decimal;
use crate::fade::{
    chunk_markup, chunks_markup, expired, faded_markup, settled_at, text_of, ticked, with_chunk,
    ChunkData, FadeData,
};
use crate::markdown::markup;
use crate::pango::escaped;
use vstd::prelude::*;

verus! {

/// A quarter of a second, in nanoseconds.
pub open spec fn quarter_second() -> int {
    1_000_000_000int / 4
}

proof fn lemma_expired_front(a: Seq<ChunkData>, b: Seq<ChunkData>, now: int)
    requires
        forall|i: int| 0 <= i < a.len() ==> now - (#[trigger] a[i]).arrival >= quarter_second(),
        b.len() > 0 ==> now - b[0].arrival < quarter_second(),
    ensures
        expired(a + b, now) == a.len(),
    decreases a.len(),
{
    let all = a + b;
    if a.len() == 0 {
        assert(all =~= b);
    } else {
        let rest = a.drop_first();
        assert(now - a[0].arrival >= quarter_second());
        assert forall|i: int| 0 <= i < rest.len() implies now - (#[trigger] rest[i]).arrival
            >= quarter_second() by {
            assert(rest[i] == a[i + 1]);
        }
        lemma_expired_front(rest, b, now);
        assert(all.drop_first() =~= rest + b);
        assert(all[0] == a[0]);
    }
}

/// A chunk fades in for a quarter of a second. Then it becomes part of the settled text,
/// as soon as all chunks before it are, and the others go on fading.
pub proof fn law_chunks_fade_for_a_quarter_second(
    settled: Seq<char>,
    a: Seq<ChunkData>,
    b: Seq<ChunkData>,
    now: int,
)
    requires
        forall|i: int| 0 <= i < a.len() ==> now - (#[trigger] a[i]).arrival >= quarter_second(),
        b.len() > 0 ==> now - b[0].arrival < quarter_second(),
    ensures
        settled_at(FadeData { settled: settled, pending: a + b }, now) == (FadeData {
            settled: settled + text_of(a),
            pending: b,
        }),
{
    lemma_expired_front(a, b, now);
    assert((a + b).take(a.len() as int) =~= a);
    assert((a + b).skip(a.len() as int) =~= b);
}

/// The text of chunks is the text of each, one after another.
pub proof fn law_text_of_chunks(a: Seq<ChunkData>, c: ChunkData)
    ensures
        text_of(Seq::<ChunkData>::empty()) == Seq::<char>::empty(),
        text_of(a.push(c)) == text_of(a) + c.text,
{
    assert(a.push(c).drop_last() =~= a);
}

/// A chunk that arrives waits behind the others, with the time of its arrival.
pub proof fn law_chunks_wait_in_order(f: FadeData, text: Seq<char>, now: int)
    ensures
        with_chunk(f, text, now).settled == f.settled,
        with_chunk(f, text, now).pending == f.pending + seq![
            ChunkData { text: text, arrival: now },
        ],
{
    assert(f.pending.push(ChunkData { text: text, arrival: now }) =~= f.pending + seq![
        ChunkData { text: text, arrival: now },
    ]);
}

/// Every tick settles what has faded, and another one follows as long as something has
/// not. Once the reply is finished a tick does nothing, and is the last one.
pub proof fn law_ticks_go_on(f: FadeData, now: int)
    ensures
        ticked(f, now, true) == (f, false),
        ticked(f, now, false).0 == settled_at(f, now),
        ticked(f, now, false).1 <==> settled_at(f, now).pending.len() > 0,
{
}

/// What has settled is shown as markdown. Behind it every chunk that fades in is shown as
/// it is written, in order, each as faint as it is at the time.
pub proof fn law_chunks_are_shown_behind(
    settled: Seq<char>,
    pending: Seq<ChunkData>,
    percents: Seq<u32>,
    c: ChunkData,
    percent: u32,
)
    requires
        percents.len() == pending.len(),
    ensures
        faded_markup(FadeData { settled: settled, pending: seq![] }, seq![]) == markup(settled),
        ({
            let f = FadeData { settled: settled, pending: pending };
            let g = FadeData { settled: settled, pending: pending.push(c) };
            faded_markup(g, percents.push(percent)) == faded_markup(f, percents) + ("<span alpha=\""@
                + decimal(percent as nat) + "%\">"@) + escaped(c.text) + "</span>"@
        }),
{
    let none = Seq::<char>::empty();
    assert(markup(settled) + none =~= markup(settled));
    assert(pending.push(c).drop_last() =~= pending);
    assert(percents.push(percent).drop_last() =~= percents);
    let base = markup(settled) + chunks_markup(pending, percents);
    let tag = "<span alpha=\""@ + decimal(percent as nat) + "%\">"@;
    assert(markup(settled) + (chunks_markup(pending, percents) + chunk_markup(c, percent)) =~= base
        + tag + escaped(c.text) + "</span>"@);
}

} // verus!
