//! Fading in: text that has just arrived is shown fainter than the rest.

use crate::markdown::{law_markup_is_well_formed, lemma_showable, markup, to_pango};
use crate::pango::{
    balanced, escaped, lemma_balanced_add, lemma_balanced_well_formed, lemma_escaped_balanced,
    lemma_span_balanced, no_nul, push_escaped, span_tag, well_formed,
};
use crate::ascii::push_decimal;
use crate::text::chars_of;
use vstd::prelude::*;

verus! {

/// Duration over which a freshly arrived chunk fades from faint to opaque, in
/// nanoseconds.
pub const FADE: u64 = 250_000_000;

/// A chunk of text, and when it arrived, in nanoseconds of a steady clock.
pub struct Chunk {
    pub text: String,
    pub arrival: u64,
}

pub struct ChunkData {
    pub text: Seq<char>,
    pub arrival: int,
}

impl View for Chunk {
    type V = ChunkData;

    open spec fn view(&self) -> ChunkData {
        ChunkData { text: self.text@, arrival: self.arrival as int }
    }
}

pub open spec fn chunk_views(v: Seq<Chunk>) -> Seq<ChunkData> {
    Seq::new(v.len(), |i: int| v[i]@)
}

/// Streaming render state. Text that has finished fading is kept in `settled`
/// and rendered with full markdown; chunks still within the fade window trail it
/// as plain, alpha-ramped spans, so that new text fades in as it arrives.
pub struct FadeState {
    pub settled: String,
    /// The markup of `settled`, kept so that it is made anew only when `settled`
    /// grows.
    pub settled_markup: String,
    pub pending: Vec<Chunk>,
}

pub struct FadeData {
    pub settled: Seq<char>,
    pub pending: Seq<ChunkData>,
}

impl View for FadeState {
    type V = FadeData;

    open spec fn view(&self) -> FadeData {
        FadeData { settled: self.settled@, pending: chunk_views(self.pending@) }
    }
}

/// Whether a chunk has finished fading.
pub open spec fn is_expired(c: ChunkData, now: int) -> bool {
    now - c.arrival >= FADE
}

/// How many chunks at the front have finished fading.
pub open spec fn expired(pending: Seq<ChunkData>, now: int) -> int
    decreases pending.len(),
{
    if pending.len() > 0 && is_expired(pending[0], now) {
        1 + expired(pending.drop_first(), now)
    } else {
        0
    }
}

/// The text of a list of chunks.
pub open spec fn text_of(chunks: Seq<ChunkData>) -> Seq<char>
    decreases chunks.len(),
{
    if chunks.len() == 0 {
        seq![]
    } else {
        text_of(chunks.drop_last()) + chunks.last().text
    }
}

/// The state with the chunks at the front that have finished fading moved into
/// the settled text.
pub open spec fn settled_at(f: FadeData, now: int) -> FadeData {
    let n = expired(f.pending, now);
    FadeData { settled: f.settled + text_of(f.pending.take(n)), pending: f.pending.skip(n) }
}

/// The state once a chunk has arrived.
pub open spec fn with_chunk(f: FadeData, text: Seq<char>, now: int) -> FadeData {
    FadeData {
        settled: f.settled,
        pending: f.pending.push(ChunkData { text: text, arrival: now }),
    }
}

/// The state after a tick, and whether to tick again.
pub open spec fn ticked(f: FadeData, now: int, finished: bool) -> (FadeData, bool) {
    if finished {
        (f, false)
    } else {
        (settled_at(f, now), settled_at(f, now).pending.len() > 0)
    }
}

/// A chunk as a span with the given alpha value.
pub open spec fn chunk_markup(c: ChunkData, percent: u32) -> Seq<char> {
    span_tag(percent as nat) + escaped(c.text) + "</span>"@
}

/// Chunks as spans, each with its alpha value.
pub open spec fn chunks_markup(chunks: Seq<ChunkData>, percents: Seq<u32>) -> Seq<char>
    decreases chunks.len(),
{
    if chunks.len() == 0 {
        seq![]
    } else {
        chunks_markup(chunks.drop_last(), percents.drop_last()) + chunk_markup(
            chunks.last(),
            percents.last(),
        )
    }
}

/// The markup of a state: markdown for the settled text, then the chunks.
pub open spec fn faded_markup(f: FadeData, percents: Seq<u32>) -> Seq<char> {
    markup(f.settled) + chunks_markup(f.pending, percents)
}

proof fn lemma_expired_bounds(pending: Seq<ChunkData>, now: int)
    ensures
        0 <= expired(pending, now) <= pending.len(),
        forall|i: int| 0 <= i < expired(pending, now) ==> is_expired(#[trigger] pending[i], now),
        expired(pending, now) < pending.len() ==> !is_expired(pending[expired(pending, now)], now),
    decreases pending.len(),
{
    if pending.len() > 0 && is_expired(pending[0], now) {
        let rest = pending.drop_first();
        lemma_expired_bounds(rest, now);
        assert forall|i: int| 0 <= i < expired(pending, now) implies is_expired(
            #[trigger] pending[i],
            now,
        ) by {
            if i > 0 {
                assert(pending[i] == rest[i - 1]);
            }
        }
    }
}

proof fn lemma_expired_is(pending: Seq<ChunkData>, now: int, n: int)
    requires
        0 <= n <= pending.len(),
        forall|i: int| 0 <= i < n ==> is_expired(#[trigger] pending[i], now),
        n < pending.len() ==> !is_expired(pending[n], now),
    ensures
        expired(pending, now) == n,
{
    lemma_expired_bounds(pending, now);
    let m = expired(pending, now);
    if m < n {
        assert(is_expired(pending[m], now));
    }
    if n < m {
        assert(is_expired(pending[n], now));
    }
}

proof fn lemma_text_split(chunks: Seq<ChunkData>, n: int)
    requires
        0 <= n <= chunks.len(),
    ensures
        text_of(chunks) == text_of(chunks.take(n)) + text_of(chunks.skip(n)),
    decreases chunks.len(),
{
    if n == chunks.len() {
        assert(chunks.take(n) =~= chunks);
        assert(chunks.skip(n) =~= Seq::<ChunkData>::empty());
        assert(text_of(chunks) + Seq::<char>::empty() =~= text_of(chunks));
    } else {
        let before = chunks.drop_last();
        lemma_text_split(before, n);
        assert(before.take(n) =~= chunks.take(n));
        assert(chunks.skip(n).drop_last() =~= before.skip(n));
        assert(chunks.skip(n).last() == chunks.last());
        assert(text_of(chunks.take(n)) + text_of(before.skip(n)) + chunks.last().text =~= text_of(
            chunks.take(n),
        ) + text_of(chunks.skip(n)));
    }
}

impl FadeState {
    /// The kept markup is that of the settled text, and no text holds a null
    /// character.
    pub open spec fn wf(self) -> bool {
        &&& self.settled_markup@ == markup(self.settled@)
        &&& no_nul(self.settled@)
        &&& forall|i: int| 0 <= i < self.pending@.len() ==> no_nul((#[trigger] self.pending@[i]).text@)
    }

    /// A state without any text.
    pub fn new() -> (r: FadeState)
        ensures
            r.wf(),
            r@ == (FadeData { settled: seq![], pending: seq![] }),
    {
        let settled = String::new();
        proof {
            lemma_showable(settled@);
        }
        let settled_markup = to_pango(settled.as_str());
        let r = FadeState { settled: settled, settled_markup: settled_markup, pending: Vec::new() };
        assert(r@.pending =~= seq![]);
        assert(r@.settled =~= seq![]);
        r
    }

    /// A chunk arrives.
    pub fn push(&mut self, chunk: String, now: u64)
        requires
            old(self).wf(),
            no_nul(chunk@),
        ensures
            final(self).wf(),
            final(self)@ == (FadeData {
                settled: old(self)@.settled,
                pending: old(self)@.pending.push(ChunkData { text: chunk@, arrival: now as int }),
            }),
            final(self)@ == with_chunk(old(self)@, chunk@, now as int),
    {
        self.pending.push(Chunk { text: chunk, arrival: now });
        assert(self@.pending =~= old(self)@.pending.push(
            ChunkData { text: chunk@, arrival: now as int },
        ));
    }

    /// Move chunks whose fade has completed into the settled body.
    pub fn settle(&mut self, now: u64)
        requires
            old(self).wf(),
        ensures
            final(self).wf(),
            final(self)@ == settled_at(old(self)@, now as int),
    {
        let ghost start = self@;
        let ghost mut n: int = 0;
        proof {
            assert(start.pending.take(0) =~= Seq::<ChunkData>::empty());
            assert(start.settled + text_of(start.pending.take(0)) =~= start.settled);
            assert(start.pending.skip(0) =~= start.pending);
        }
        let mut grew = false;
        while self.pending.len() > 0 && now >= self.pending[0].arrival && now
            - self.pending[0].arrival >= FADE
            invariant
                0 <= n <= start.pending.len(),
                grew == (n > 0),
                !grew ==> self.settled_markup@ == markup(self.settled@),
                no_nul(self.settled@),
                forall|i: int|
                    0 <= i < self.pending@.len() ==> no_nul((#[trigger] self.pending@[i]).text@),
                self@.settled == start.settled + text_of(start.pending.take(n)),
                self@.pending == start.pending.skip(n),
                forall|i: int|
                    0 <= i < n ==> is_expired(#[trigger] start.pending[i], now as int),
            decreases self.pending@.len(),
        {
            let ghost before = self@;
            proof {
                assert(self.pending@.len() > 0);
                assert(before.pending.len() == self.pending@.len());
                assert(n < start.pending.len());
                assert(start.pending.skip(n)[0] == start.pending[n]);
                assert(before.pending[0] == self.pending@[0]@);
                assert(no_nul(self.pending@[0].text@));
            }
            let chunk = self.pending.remove(0);
            self.settled.append(chunk.text.as_str());
            grew = true;
            proof {
                assert(self@.pending =~= before.pending.drop_first());
                assert(start.pending.skip(n).drop_first() =~= start.pending.skip(n + 1));
                assert(start.pending.take(n + 1).drop_last() =~= start.pending.take(n));
                assert(start.pending.take(n + 1).last() == chunk@);
                assert(start.settled + text_of(start.pending.take(n)) + chunk.text@ =~= start.settled
                    + text_of(start.pending.take(n + 1)));
                assert forall|i: int|
                    0 <= i < self.pending@.len() implies no_nul(
                    (#[trigger] self.pending@[i]).text@,
                ) by {
                    assert(self.pending@[i]@ == before.pending[i + 1]);
                }
                n = n + 1;
            }
        }
        proof {
            if self.pending@.len() > 0 {
                assert(self@.pending[0] == self.pending@[0]@);
                assert(start.pending[n] == self@.pending[0]);
            }
            lemma_expired_is(start.pending, now as int, n);
        }
        if grew {
            proof {
                lemma_showable(self.settled@);
            }
            self.settled_markup = to_pango(self.settled.as_str());
        }
    }

    /// A tick of the frame timer: settle what has faded, and say whether to tick
    /// again. The timer stops once everything has settled, or the reply is
    /// finished.
    pub fn tick(&mut self, now: u64, finished: bool) -> (again: bool)
        requires
            old(self).wf(),
        ensures
            final(self).wf(),
            finished ==> !again && final(self)@ == old(self)@,
            !finished ==> final(self)@ == settled_at(old(self)@, now as int),
            !finished ==> again == (final(self)@.pending.len() > 0),
            (final(self)@, again) == ticked(old(self)@, now as int, finished),
    {
        if finished {
            return false;
        }
        self.settle(now);
        assert(self@.pending.len() == self.pending@.len());
        self.pending.len() > 0
    }

    /// Markdown for the settled body, followed by each still-fading chunk in a
    /// span whose alpha reflects how far through the fade it is: `percents` holds
    /// one value for each chunk.
    pub fn to_markup(&self, percents: &Vec<u32>) -> (r: String)
        requires
            self.wf(),
            percents@.len() == self.pending@.len(),
        ensures
            r@ == faded_markup(self@, percents@),
            well_formed(r@),
    {
        let mut out = self.settled_markup.clone();
        let ghost base = out@;
        let ghost all = chunk_views(self.pending@);
        let mut i: usize = 0;
        proof {
            assert(all.take(0) =~= Seq::<ChunkData>::empty());
            assert(base + chunks_markup(all.take(0), percents@.take(0)) =~= base);
        }
        while i < self.pending.len()
            invariant
                i <= self.pending@.len(),
                self.wf(),
                percents@.len() == self.pending@.len(),
                all == chunk_views(self.pending@),
                out@ == base + chunks_markup(all.take(i as int), percents@.take(i as int)),
            decreases self.pending@.len() - i,
        {
            let ghost before = out@;
            proof {
                assert(all.take(i + 1).drop_last() =~= all.take(i as int));
                assert(percents@.take(i + 1).drop_last() =~= percents@.take(i as int));
                assert(all.take(i + 1).last() == self.pending@[i as int]@);
                assert(no_nul(self.pending@[i as int].text@));
            }
            out.append("<span alpha=\"");
            push_decimal(&mut out, percents[i] as u64);
            out.append("%\">");
            let text = chars_of(self.pending[i].text.as_str());
            push_escaped(&mut out, text.as_slice());
            out.append("</span>");
            proof {
                let c = self.pending@[i as int]@;
                assert(out@ =~= before + chunk_markup(c, percents@[i as int]));
                assert(base + chunks_markup(all.take(i as int), percents@.take(i as int))
                    + chunk_markup(c, percents@[i as int]) =~= base + chunks_markup(
                    all.take(i + 1),
                    percents@.take(i + 1),
                ));
            }
            i = i + 1;
        }
        proof {
            assert(all.take(i as int) =~= all);
            assert(percents@.take(i as int) =~= percents@);
            law_faded_markup_is_well_formed(self@, percents@);
        }
        out
    }
}

proof fn lemma_chunks_balanced(chunks: Seq<ChunkData>, percents: Seq<u32>)
    ensures
        balanced(chunks_markup(chunks, percents)),
    decreases chunks.len(),
{
    if chunks.len() == 0 {
        lemma_escaped_balanced(seq![]);
        assert(escaped(seq![]) =~= chunks_markup(chunks, percents));
    } else {
        lemma_chunks_balanced(chunks.drop_last(), percents.drop_last());
        lemma_escaped_balanced(chunks.last().text);
        lemma_span_balanced(percents.last() as nat, escaped(chunks.last().text));
        lemma_balanced_add(
            chunks_markup(chunks.drop_last(), percents.drop_last()),
            chunk_markup(chunks.last(), percents.last()),
        );
    }
}

/// What is shown while text fades in is well-formed markup at every moment.
pub proof fn law_faded_markup_is_well_formed(f: FadeData, percents: Seq<u32>)
    ensures
        well_formed(faded_markup(f, percents)),
{
    law_markup_is_well_formed(f.settled);
    lemma_chunks_balanced(f.pending, percents);
    lemma_balanced_add(markup(f.settled), chunks_markup(f.pending, percents));
    lemma_balanced_well_formed(faded_markup(f, percents));
}

/// Settling loses no text and reorders none.
pub proof fn law_settling_keeps_the_text(f: FadeData, now: int)
    ensures
        settled_at(f, now).settled + text_of(settled_at(f, now).pending) == f.settled + text_of(
            f.pending,
        ),
{
    lemma_expired_bounds(f.pending, now);
    let n = expired(f.pending, now);
    lemma_text_split(f.pending, n);
    assert(f.settled + text_of(f.pending.take(n)) + text_of(f.pending.skip(n)) =~= f.settled + (
    text_of(f.pending.take(n)) + text_of(f.pending.skip(n))));
}

/// Where chunks are in the order of their arrival, settling leaves none behind
/// that has finished fading, and moves none that has not.
pub proof fn law_settling_moves_what_has_faded(f: FadeData, now: int)
    requires
        forall|i: int, j: int|
            0 <= i < j < f.pending.len() ==> (#[trigger] f.pending[i]).arrival <= (
            #[trigger] f.pending[j]).arrival,
    ensures
        forall|i: int|
            0 <= i < settled_at(f, now).pending.len() ==> !is_expired(
                #[trigger] settled_at(f, now).pending[i],
                now,
            ),
        forall|i: int| 0 <= i < expired(f.pending, now) ==> is_expired(#[trigger] f.pending[i], now),
{
    lemma_expired_bounds(f.pending, now);
    let n = expired(f.pending, now);
    let rest = settled_at(f, now).pending;
    assert forall|i: int| 0 <= i < rest.len() implies !is_expired(#[trigger] rest[i], now) by {
        assert(rest[i] == f.pending[n + i]);
        if i > 0 {
            assert(f.pending[n].arrival <= f.pending[n + i].arrival);
        }
    }
}

} // verus!
