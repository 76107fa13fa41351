//! What the stream of a turn means, told from its messages.
//!
//! A stream is described by the messages that its lines bring. From these it
//! follows what the turn reports and how it ends.

use crate::api::{
    call_of, chunk_of, data_of, new_turn, on_chunk, on_line, on_arrival, outcome_of, turn_run,
    Arrival, CallData, EventData, OutcomeData, StepData, TurnData, TurnRun,
};
use crate::json::{json_parse, member, text_at, Json};
use crate::text::{is_space, lemma_lead, starts, trim_start};
use vstd::prelude::*;

verus! {

/// What the value holds under a key, if it is an object that has the key.
pub open spec fn part(t: Json, key: Seq<char>) -> Option<Json> {
    match t {
        Json::Object(m) => if m.contains_key(key) {
            Some(m[key])
        } else {
            None
        },
        _ => None,
    }
}

/// The text that the value holds under a key.
pub open spec fn said(t: Json, key: Seq<char>) -> Option<Seq<char>> {
    match part(t, key) {
        Some(Json::Text(s)) => Some(s),
        _ => None,
    }
}

/// The text that the value holds under a key that lies under another.
pub open spec fn said_in(t: Json, outer: Seq<char>, key: Seq<char>) -> Option<Seq<char>> {
    match part(t, outer) {
        Some(inner) => said(inner, key),
        None => None,
    }
}

/// The text that the value holds three keys deep.
pub open spec fn said_deep(t: Json, a: Seq<char>, b: Seq<char>, key: Seq<char>) -> Option<
    Seq<char>,
> {
    match part(t, a) {
        Some(inner) => said_in(inner, b, key),
        None => None,
    }
}

/// A message of the stream.
pub enum Message {
    /// A piece of the answer.
    Answer(Seq<char>),
    /// A piece of the reasoning.
    Thought(Seq<char>),
    /// A new part of the reasoning begins.
    NewThought,
    /// The model asks for a call.
    Call(CallData),
    /// Nothing that matters.
    Other,
}

/// Whether the text is the one that is said, or, where none is, the usual one.
pub open spec fn is_or(text: Seq<char>, said: Option<Seq<char>>, usual: Seq<char>) -> bool {
    said == Some(text) || (said is None && text == usual)
}

/// Whether the value asks for the call. A name or an id that is missing is empty;
/// arguments that are missing are an empty object.
pub open spec fn asks_for(t: Json, c: CallData) -> bool {
    &&& said(t, "type"@) == Some("response.output_item.done"@)
    &&& said_in(t, "item"@, "type"@) == Some("function_call"@)
    &&& is_or(c.name, said_in(t, "item"@, "name"@), seq![])
    &&& is_or(c.call_id, said_in(t, "item"@, "call_id"@), seq![])
    &&& is_or(c.arguments, said_in(t, "item"@, "arguments"@), "{}"@)
}

/// Whether the type is one that the stream of a turn is read for.
pub open spec fn is_known(kind: Seq<char>) -> bool {
    ||| kind == "response.output_text.delta"@
    ||| kind == "response.reasoning_summary_text.delta"@
    ||| kind == "response.reasoning_text.delta"@
    ||| kind == "response.reasoning_summary_part.added"@
    ||| kind == "response.output_item.done"@
    ||| kind == "response.completed"@
    ||| kind == "response.failed"@
    ||| kind == "response.incomplete"@
    ||| kind == "error"@
}

/// Whether the value is the message.
pub open spec fn is_message(t: Json, m: Message) -> bool {
    match m {
        Message::Answer(d) => said(t, "type"@) == Some("response.output_text.delta"@) && said(
            t,
            "delta"@,
        ) == Some(d),
        Message::Thought(d) => (said(t, "type"@) == Some("response.reasoning_summary_text.delta"@)
            || said(t, "type"@) == Some("response.reasoning_text.delta"@)) && said(t, "delta"@)
            == Some(d),
        Message::NewThought => said(t, "type"@) == Some("response.reasoning_summary_part.added"@),
        Message::Call(c) => asks_for(t, c),
        Message::Other => match said(t, "type"@) {
            None => true,
            Some(kind) => {
                ||| !is_known(kind)
                ||| kind == "response.output_text.delta"@ && said(t, "delta"@) is None
                ||| kind == "response.reasoning_summary_text.delta"@ && said(t, "delta"@) is None
                ||| kind == "response.reasoning_text.delta"@ && said(t, "delta"@) is None
                ||| kind == "response.output_item.done"@ && said_in(t, "item"@, "type"@) != Some(
                    "function_call"@,
                )
            },
        },
    }
}

/// Whether a line holds the data, behind `data:` and perhaps some space.
pub open spec fn holds_data(line: Seq<char>, gap: Seq<char>, data: Seq<char>) -> bool {
    &&& line == "data:"@ + gap + data
    &&& forall|i: int| 0 <= i < gap.len() ==> is_space(#[trigger] gap[i])
    &&& data.len() > 0 ==> !is_space(data[0])
}

/// Whether a line brings the value.
pub open spec fn brings(line: Seq<char>, t: Json) -> bool {
    exists|gap: Seq<char>, data: Seq<char>| #[trigger]
        holds_data(line, gap, data) && data != "[DONE]"@ && json_parse(data) == Ok::<
            Json,
            Seq<char>,
        >(t)
}

/// Whether a line is one of the message, or one without any, where the message is
/// one that does not matter.
pub open spec fn is_line_of(line: Seq<char>, m: Message) -> bool {
    ||| exists|t: Json| #[trigger] brings(line, t) && is_message(t, m)
    ||| m is Other && (line.len() < 5 || line.take(5) != "data:"@)
    ||| m is Other && exists|gap: Seq<char>, data: Seq<char>| #[trigger]
        holds_data(line, gap, data) && data != "[DONE]"@ && json_parse(data) is Err
}

/// How a stream ends.
pub enum Ending {
    /// With a line that says that the turn is complete.
    Complete(Seq<char>),
    /// With a line that says that it failed.
    Failure(Seq<char>, Seq<char>),
    /// Without any such line.
    Cut,
}

/// Whether a line says that the turn is complete.
pub open spec fn is_last_line(line: Seq<char>) -> bool {
    ||| exists|t: Json| #[trigger]
        brings(line, t) && said(t, "type"@) == Some("response.completed"@)
    ||| exists|gap: Seq<char>| #[trigger] holds_data(line, gap, "[DONE]"@)
}

/// What the value of a failure says of it.
pub open spec fn is_failure(t: Json, why: Seq<char>) -> bool {
    match said(t, "type"@) {
        Some(kind) => if kind == "response.failed"@ || kind == "response.incomplete"@ {
            match said_deep(t, "response"@, "error"@, "message"@) {
                Some(m) => why == m,
                None => match said_deep(t, "response"@, "incomplete_details"@, "reason"@) {
                    Some(reason) => why == "Response incomplete: "@ + reason,
                    None => why == "The response did not complete"@,
                },
            }
        } else if kind == "error"@ {
            match said(t, "message"@) {
                Some(m) => why == m,
                None => why == "Stream error"@,
            }
        } else {
            false
        },
        None => false,
    }
}

/// Whether the ending is well described.
pub open spec fn is_ending(e: Ending) -> bool {
    match e {
        Ending::Complete(line) => is_last_line(line),
        Ending::Failure(line, why) => exists|t: Json| #[trigger]
            brings(line, t) && is_failure(t, why),
        Ending::Cut => true,
    }
}

/// The lines of an ending.
pub open spec fn ending_lines(e: Ending) -> Seq<Seq<char>> {
    match e {
        Ending::Complete(line) => seq![line],
        Ending::Failure(line, _) => seq![line],
        Ending::Cut => seq![],
    }
}

/// What is reported of the messages: the pieces of the answer and of the reasoning,
/// with a gap in front of each new part of the reasoning but the first.
pub open spec fn told(ms: Seq<Message>, thought: bool) -> Seq<EventData>
    decreases ms.len(),
{
    if ms.len() == 0 {
        seq![]
    } else {
        match ms[0] {
            Message::Answer(d) => seq![EventData::Delta(d)] + told(ms.drop_first(), thought),
            Message::Thought(d) => seq![EventData::Reasoning(d)] + told(ms.drop_first(), true),
            Message::NewThought => if thought {
                seq![EventData::Reasoning("\n\n"@)] + told(ms.drop_first(), thought)
            } else {
                told(ms.drop_first(), thought)
            },
            _ => told(ms.drop_first(), thought),
        }
    }
}

/// The calls among the messages, in order.
pub open spec fn calls_among(ms: Seq<Message>) -> Seq<CallData>
    decreases ms.len(),
{
    if ms.len() == 0 {
        seq![]
    } else {
        match ms[0] {
            Message::Call(c) => seq![c] + calls_among(ms.drop_first()),
            _ => calls_among(ms.drop_first()),
        }
    }
}

proof fn lemma_types_differ()
    ensures
        "response.output_text.delta"@.len() == 26,
        "response.reasoning_summary_text.delta"@.len() == 37,
        "response.reasoning_text.delta"@.len() == 29,
        "response.reasoning_summary_part.added"@.len() == 37,
        "response.output_item.done"@.len() == 25,
        "response.completed"@.len() == 18,
        "response.failed"@.len() == 15,
        "response.incomplete"@.len() == 19,
        "error"@.len() == 5,
        "response.reasoning_summary_text.delta"@[27] == 't',
        "response.reasoning_summary_part.added"@[27] == 'p',
{
    reveal_strlit("response.output_text.delta");
    reveal_strlit("response.reasoning_summary_text.delta");
    reveal_strlit("response.reasoning_text.delta");
    reveal_strlit("response.reasoning_summary_part.added");
    reveal_strlit("response.output_item.done");
    reveal_strlit("response.completed");
    reveal_strlit("response.failed");
    reveal_strlit("response.incomplete");
    reveal_strlit("error");
}

proof fn lemma_data(line: Seq<char>, gap: Seq<char>, data: Seq<char>)
    requires
        holds_data(line, gap, data),
    ensures
        data_of(line) == Some(data),
{
    reveal_strlit("data:");
    assert(line.take(5) =~= "data:"@);
    let rest = line.skip(5);
    assert(rest =~= gap + data);
    if data.len() > 0 {
        assert(rest[gap.len() as int] == data[0]);
    }
    lemma_lead(rest, gap.len() as int);
    assert(trim_start(rest) =~= data);
}

proof fn lemma_said(t: Json)
    ensures
        forall|key: Seq<char>| #[trigger] text_at(t, key) == said(t, key),
        forall|key: Seq<char>| #[trigger]
            member(t, key) == match part(t, key) {
                Some(x) => x,
                None => Json::Null,
            },
{
}

proof fn lemma_on_line(turn: TurnData, line: Seq<char>, t: Json)
    requires
        brings(line, t),
    ensures
        on_line(turn, line) == on_chunk(turn, chunk_of(t)),
{
    let (gap, data) = choose|gap: Seq<char>, data: Seq<char>| #[trigger]
        holds_data(line, gap, data) && data != "[DONE]"@ && json_parse(data) == Ok::<
            Json,
            Seq<char>,
        >(t);
    lemma_data(line, gap, data);
}

/// What a line of a message does to a turn.
proof fn lemma_message(turn: TurnData, line: Seq<char>, m: Message)
    requires
        is_line_of(line, m),
    ensures
        on_line(turn, line) == match m {
            Message::Answer(d) => (turn, StepData::Send(EventData::Delta(d))),
            Message::Thought(d) => (
                TurnData { calls: turn.calls, reasoning_seen: true },
                StepData::Send(EventData::Reasoning(d)),
            ),
            Message::NewThought => (
                turn,
                if turn.reasoning_seen {
                    StepData::Send(EventData::Reasoning("\n\n"@))
                } else {
                    StepData::Skip
                },
            ),
            Message::Call(c) => (
                TurnData { calls: turn.calls.push(c), reasoning_seen: turn.reasoning_seen },
                StepData::Skip,
            ),
            Message::Other => (turn, StepData::Skip),
        },
{
    lemma_types_differ();
    if exists|t: Json| #[trigger] brings(line, t) && is_message(t, m) {
        let t = choose|t: Json| #[trigger] brings(line, t) && is_message(t, m);
        lemma_on_line(turn, line, t);
        lemma_said(t);
        let item = member(t, "item"@);
        lemma_said(item);
        match m {
            Message::Call(c) => {
                assert(part(t, "item"@) == Some(item));
                assert(call_of(item) == c);
                assert(chunk_of(t).call == Some(c));
            },
            Message::Other => {
                if said(t, "type"@) == Some("response.output_item.done"@) {
                    if part(t, "item"@) is Some {
                        assert(part(t, "item"@) == Some(item));
                    }
                    assert(chunk_of(t).call is None);
                }
            },
            _ => {},
        }
    } else if line.len() < 5 || line.take(5) != "data:"@ {
        reveal_strlit("data:");
        assert(!starts(line, "data:"@));
    } else {
        let (gap, data) = choose|gap: Seq<char>, data: Seq<char>| #[trigger]
            holds_data(line, gap, data) && data != "[DONE]"@ && json_parse(data) is Err;
        lemma_data(line, gap, data);
    }
}

proof fn lemma_ending(turn: TurnData, e: Ending, more: Seq<Seq<char>>)
    requires
        is_ending(e),
        e is Cut ==> more.len() == 0,
    ensures
        turn_run(turn, ending_lines(e) + more) == (TurnRun {
            events: seq![],
            result: match e {
                Ending::Complete(_) => Ok(outcome_of(turn.calls)),
                Ending::Failure(_, why) => Err(EventData::Error(why)),
                Ending::Cut => Err(EventData::Error("The stream ended unexpectedly"@)),
            },
        }),
{
    lemma_types_differ();
    let all = ending_lines(e) + more;
    match e {
        Ending::Complete(line) => {
            assert(all[0] == line);
            if exists|t: Json| #[trigger]
                brings(line, t) && said(t, "type"@) == Some("response.completed"@) {
                let t = choose|t: Json| #[trigger]
                    brings(line, t) && said(t, "type"@) == Some("response.completed"@);
                lemma_on_line(turn, line, t);
                lemma_said(t);
            } else {
                let gap = choose|gap: Seq<char>| #[trigger] holds_data(line, gap, "[DONE]"@);
                lemma_data(line, gap, "[DONE]"@);
            }
        },
        Ending::Failure(line, why) => {
            assert(all[0] == line);
            let t = choose|t: Json| #[trigger] brings(line, t) && is_failure(t, why);
            lemma_on_line(turn, line, t);
            lemma_said(t);
            lemma_said(member(t, "response"@));
            lemma_said(member(member(t, "response"@), "error"@));
            lemma_said(member(member(t, "response"@), "incomplete_details"@));
        },
        Ending::Cut => {
            assert(all =~= seq![]);
        },
    }
}

proof fn lemma_run(
    turn: TurnData,
    lines: Seq<Seq<char>>,
    ms: Seq<Message>,
    e: Ending,
    more: Seq<Seq<char>>,
)
    requires
        lines.len() == ms.len(),
        forall|i: int| 0 <= i < lines.len() ==> is_line_of(#[trigger] lines[i], ms[i]),
        is_ending(e),
        e is Cut ==> more.len() == 0,
    ensures
        turn_run(turn, lines + (ending_lines(e) + more)) == (TurnRun {
            events: told(ms, turn.reasoning_seen),
            result: match e {
                Ending::Complete(_) => Ok(outcome_of(turn.calls + calls_among(ms))),
                Ending::Failure(_, why) => Err(EventData::Error(why)),
                Ending::Cut => Err(EventData::Error("The stream ended unexpectedly"@)),
            },
        }),
    decreases lines.len(),
{
    let end = ending_lines(e) + more;
    let all = lines + end;
    if lines.len() == 0 {
        assert(all =~= end);
        lemma_ending(turn, e, more);
        assert(turn.calls + calls_among(ms) =~= turn.calls);
    } else {
        assert(all[0] == lines[0]);
        assert(all.drop_first() =~= lines.drop_first() + end);
        lemma_message(turn, lines[0], ms[0]);
        let next = on_line(turn, lines[0]).0;
        let rest = lines.drop_first();
        let rest_ms = ms.drop_first();
        assert forall|i: int| 0 <= i < rest.len() implies is_line_of(
            #[trigger] rest[i],
            rest_ms[i],
        ) by {
            assert(rest[i] == lines[i + 1]);
        }
        lemma_run(next, rest, rest_ms, e, more);
        if let Message::Call(c) = ms[0] {
            assert(turn.calls.push(c) + calls_among(rest_ms) =~= turn.calls + calls_among(ms));
        }
    }
}

/// A turn reports the pieces of the answer and of the reasoning in the order in
/// which they arrive, each of them, and nothing else. It ends as the stream does:
/// once it is complete, with all calls that it asks for, in order, or as the final
/// answer if it asks for none; with the reason of a failure; or with an error where
/// the stream is cut. What follows the end does not matter.
pub proof fn law_turn_is_what_its_stream_says(
    lines: Seq<Seq<char>>,
    ms: Seq<Message>,
    e: Ending,
    more: Seq<Seq<char>>,
)
    requires
        lines.len() == ms.len(),
        forall|i: int| 0 <= i < lines.len() ==> is_line_of(#[trigger] lines[i], ms[i]),
        is_ending(e),
        e is Cut ==> more.len() == 0,
    ensures
        ({
            let run = turn_run(new_turn(), lines + (ending_lines(e) + more));
            &&& run.events == told(ms, false)
            &&& run.result == match e {
                Ending::Complete(_) => if calls_among(ms).len() == 0 {
                    Ok(OutcomeData::Completed)
                } else {
                    Ok(OutcomeData::ToolCalls(calls_among(ms)))
                },
                Ending::Failure(_, why) => Err(EventData::Error(why)),
                Ending::Cut => Err(EventData::Error("The stream ended unexpectedly"@)),
            }
        }),
{
    lemma_run(new_turn(), lines, ms, e, more);
    assert(new_turn().calls + calls_among(ms) =~= calls_among(ms));
}

/// Reading a stream line by line comes to the same as reading it whole: what a line asks
/// for is done, and the rest is read from where the line has left the turn. A stream that
/// breaks off or ends is an error, and one that nobody listens to is over.
pub proof fn law_arrivals_are_taken_one_by_one(
    turn: TurnData,
    line: String,
    more: Seq<Seq<char>>,
    err: String,
)
    ensures
        on_arrival(turn, Arrival::Ended) == (
            turn,
            StepData::Fail(EventData::Error("The stream ended unexpectedly"@)),
        ),
        on_arrival(turn, Arrival::Interrupted(err)) == (
            turn,
            StepData::Fail(EventData::Error("Stream interrupted: "@ + err@)),
        ),
        on_arrival(turn, Arrival::Unheard) == (turn, StepData::Fail(EventData::Done)),
        ({
            let (next, step) = on_arrival(turn, Arrival::Line(line));
            let whole = turn_run(turn, seq![line@] + more);
            let rest = turn_run(next, more);
            match step {
                StepData::Skip => whole == rest,
                StepData::Send(e) => whole.events == seq![e] + rest.events && whole.result
                    == rest.result,
                StepData::End => whole.events.len() == 0 && whole.result == Ok::<
                    OutcomeData,
                    EventData,
                >(
                    if next.calls.len() == 0 {
                        OutcomeData::Completed
                    } else {
                        OutcomeData::ToolCalls(next.calls)
                    },
                ),
                StepData::Fail(e) => whole.events.len() == 0 && whole.result == Err::<
                    OutcomeData,
                    EventData,
                >(e),
            }
        }),
{
    let all = seq![line@] + more;
    assert(all.drop_first() =~= more);
    assert(all[0] == line@);
}

} // verus!
