//! What a whole conversation with the model comes to.

use crate::agent::{
    first, follow, report, run, taken_events, Announcing, Asking, Next, Reply, Reporting, Running,
    State,
};
use crate::api::{call_views, item_views, CallData, EventData, ItemData, OutcomeData};
use crate::json::json_parse;
use vstd::prelude::*;

verus! {

/// What a tool gave for a call: its output, or an error.
pub type Given = Result<Seq<char>, Seq<char>>;

/// What the model is told of a call: the output of the tool, or what went wrong,
/// with the tool or with the arguments of the call.
pub open spec fn told(call: CallData, given: Given) -> Seq<char> {
    match (json_parse(call.arguments), given) {
        (Err(problem), _) => "error: "@ + ("malformed arguments: "@ + problem),
        (Ok(_), Ok(output)) => output,
        (Ok(_), Err(problem)) => "error: "@ + problem,
    }
}

/// The replies that one call gets from someone who listens: both of its reports are
/// taken, and in between the tool runs, if the arguments are well-formed.
pub open spec fn replies_to(call: CallData, given: Given) -> Seq<Reply> {
    if json_parse(call.arguments) is Ok {
        seq![Reply::Sent(true), Reply::Output(given), Reply::Sent(true)]
    } else {
        seq![Reply::Sent(true), Reply::Sent(true)]
    }
}

/// The calls of a turn, and what the tools gave for them.
pub struct Round {
    pub calls: Seq<CallData>,
    pub given: Seq<Given>,
}

/// Whether there are calls, and each has something that was given for it.
pub open spec fn is_round(r: Round) -> bool {
    r.calls.len() > 0 && r.given.len() == r.calls.len()
}

/// The replies that some calls get, one after another.
pub open spec fn replies_to_all(calls: Seq<CallData>, given: Seq<Given>) -> Seq<Reply>
    decreases calls.len(),
{
    if calls.len() == 0 {
        seq![]
    } else {
        replies_to(calls[0], given[0]) + replies_to_all(calls.drop_first(), given.drop_first())
    }
}

/// The replies that make up a round.
pub open spec fn replies_of(r: Round) -> Seq<Reply> {
    seq![Reply::Turn(Ok(OutcomeData::ToolCalls(r.calls)))] + replies_to_all(r.calls, r.given)
}

/// What a round adds to the conversation: every call, directly followed by what the
/// model is told of it.
pub open spec fn recorded(r: Round) -> Seq<ItemData> {
    Seq::new(
        2 * r.calls.len(),
        |i: int|
            if i % 2 == 0 {
                ItemData::FunctionCall(r.calls[i / 2])
            } else {
                ItemData::FunctionCallOutput(
                    r.calls[i / 2].call_id,
                    told(r.calls[i / 2], r.given[i / 2]),
                )
            },
    )
}

/// What a round reports: that a tool of some name is called, and what came of it.
pub open spec fn reports_of(r: Round) -> Seq<EventData> {
    Seq::new(
        2 * r.calls.len(),
        |i: int|
            if i % 2 == 0 {
                EventData::ToolCall(r.calls[i / 2].name, recorded(r)[i])
            } else {
                EventData::ToolResult(recorded(r)[i])
            },
    )
}

/// The state in which the model is asked.
pub open spec fn asked(input: Seq<ItemData>, left: nat) -> State {
    State::Ask { input: input, left: left }
}

/// The model is asked again, as long as it has turns left; else that is an error.
pub open spec fn asked_again(input: Seq<ItemData>, left: nat) -> State {
    if left == 0 {
        State::Finish(EventData::Error("The assistant kept calling tools without finishing"@))
    } else {
        asked(input, (left - 1) as nat)
    }
}

proof fn lemma_run_add(s: State, a: Seq<Reply>, b: Seq<Reply>)
    requires
        run(s, a) is Some,
    ensures
        run(s, a + b) == run(run(s, a)->0, b),
        taken_events(s, a + b) == taken_events(s, a) + taken_events(run(s, a)->0, b),
    decreases b.len(),
{
    let t = run(s, a)->0;
    if b.len() == 0 {
        assert(a + b =~= a);
        assert(taken_events(s, a) + taken_events(t, b) =~= taken_events(s, a));
    } else {
        lemma_run_add(s, a, b.drop_last());
        assert((a + b).drop_last() =~= a + b.drop_last());
        assert((a + b).last() == b.last());
        assert(taken_events(s, a + b) =~= taken_events(s, a) + taken_events(t, b));
    }
}

proof fn lemma_run_one(s: State, r: Reply)
    ensures
        run(s, seq![r]) == follow(s, r),
        taken_events(s, seq![r]) == match (report(s), r) {
            (Some(e), Reply::Sent(true)) => seq![e],
            _ => Seq::<EventData>::empty(),
        },
{
    let one = seq![r];
    assert(one.drop_last() =~= Seq::<Reply>::empty());
    reveal_with_fuel(run, 2);
    reveal_with_fuel(taken_events, 2);
    match (report(s), r) {
        (Some(e), Reply::Sent(true)) => {
            assert(Seq::<EventData>::empty().push(e) =~= seq![e]);
        },
        _ => {},
    }
}

/// One call: it and what the model is told of it join the conversation.
proof fn lemma_one_call(
    input: Seq<ItemData>,
    call: CallData,
    given: Given,
    rest: Seq<CallData>,
    left: nat,
)
    ensures
        ({
            let s = State::Announce { input: input, call: call, rest: rest, left: left };
            let a = ItemData::FunctionCall(call);
            let b = ItemData::FunctionCallOutput(call.call_id, told(call, given));
            &&& run(s, replies_to(call, given)) == Some(
                if rest.len() > 0 {
                    State::Announce {
                        input: input + seq![a, b],
                        call: rest[0],
                        rest: rest.drop_first(),
                        left: left,
                    }
                } else {
                    asked_again(input + seq![a, b], left)
                },
            )
            &&& taken_events(s, replies_to(call, given)) == seq![
                EventData::ToolCall(call.name, a),
                EventData::ToolResult(b),
            ]
        }),
{
    let s = State::Announce { input: input, call: call, rest: rest, left: left };
    let a = ItemData::FunctionCall(call);
    let b = ItemData::FunctionCallOutput(call.call_id, told(call, given));
    let sent = seq![Reply::Sent(true)];
    let ea = EventData::ToolCall(call.name, a);
    let eb = EventData::ToolResult(b);
    let none = Seq::<EventData>::empty();
    lemma_run_one(s, Reply::Sent(true));
    let t = follow(s, Reply::Sent(true))->0;
    assert(input.push(a).push(b) =~= input + seq![a, b]);
    assert(seq![ea] + seq![eb] =~= seq![ea, eb]);
    if json_parse(call.arguments) is Ok {
        let output = seq![Reply::Output(given)];
        lemma_run_add(s, sent, output);
        lemma_run_one(t, Reply::Output(given));
        let u = follow(t, Reply::Output(given))->0;
        lemma_run_add(s, sent + output, sent);
        lemma_run_one(u, Reply::Sent(true));
        assert(sent + output + sent =~= replies_to(call, given));
        assert(seq![ea] + none + seq![eb] =~= seq![ea, eb]);
    } else {
        lemma_run_add(s, sent, sent);
        lemma_run_one(t, Reply::Sent(true));
        assert(sent + sent =~= replies_to(call, given));
    }
}

proof fn lemma_all_calls(input: Seq<ItemData>, r: Round, left: nat)
    requires
        is_round(r),
    ensures
        ({
            let s = State::Announce {
                input: input,
                call: r.calls[0],
                rest: r.calls.drop_first(),
                left: left,
            };
            let replies = replies_to_all(r.calls, r.given);
            &&& run(s, replies) == Some(asked_again(input + recorded(r), left))
            &&& taken_events(s, replies) == reports_of(r)
        }),
    decreases r.calls.len(),
{
    let call = r.calls[0];
    let given = r.given[0];
    let more = Round { calls: r.calls.drop_first(), given: r.given.drop_first() };
    let s = State::Announce { input: input, call: call, rest: more.calls, left: left };
    let a = ItemData::FunctionCall(call);
    let b = ItemData::FunctionCallOutput(call.call_id, told(call, given));
    lemma_one_call(input, call, given, more.calls, left);
    let one = replies_to(call, given);
    let tail = replies_to_all(more.calls, more.given);
    lemma_run_add(s, one, tail);
    assert(recorded(r) =~= seq![a, b] + recorded(more)) by {
        assert forall|i: int| 2 <= i < recorded(r).len() implies recorded(r)[i] == recorded(
            more,
        )[i - 2] by {
            assert((i - 2) / 2 == i / 2 - 1);
            assert((i - 2) % 2 == i % 2);
            assert(more.calls[i / 2 - 1] == r.calls[i / 2]);
            assert(more.given[i / 2 - 1] == r.given[i / 2]);
        }
        assert(recorded(r)[0] == a);
        assert(recorded(r)[1] == b);
    }
    let head = seq![EventData::ToolCall(call.name, a), EventData::ToolResult(b)];
    assert(reports_of(r) =~= head + reports_of(more)) by {
        assert forall|i: int| 2 <= i < reports_of(r).len() implies reports_of(r)[i] == reports_of(
            more,
        )[i - 2] by {
            assert((i - 2) / 2 == i / 2 - 1);
            assert((i - 2) % 2 == i % 2);
            assert(more.calls[i / 2 - 1] == r.calls[i / 2]);
            assert(recorded(r)[i] == recorded(more)[i - 2]);
        }
        assert(recorded(r)[0] == a);
        assert(recorded(r)[1] == b);
    }
    if more.calls.len() == 0 {
        assert(tail =~= Seq::<Reply>::empty());
        assert(recorded(r) =~= seq![a, b]);
        assert(head + Seq::<EventData>::empty() =~= reports_of(r));
    } else {
        lemma_all_calls(input + seq![a, b], more, left);
        assert(input + seq![a, b] + recorded(more) =~= input + recorded(r));
    }
}

/// All calls of a turn are run, in order, and each is reported before and after.
/// Then the model is asked again, with the conversation as it was, every call, and
/// what came of it, while it has turns left.
pub proof fn law_every_call_is_answered(input: Seq<ItemData>, r: Round, left: nat)
    requires
        is_round(r),
    ensures
        run(asked(input, left), replies_of(r)) == Some(asked_again(input + recorded(r), left)),
        taken_events(asked(input, left), replies_of(r)) == reports_of(r),
{
    let s = asked(input, left);
    let turn = Reply::Turn(Ok(OutcomeData::ToolCalls(r.calls)));
    lemma_run_one(s, turn);
    lemma_run_add(s, seq![turn], replies_to_all(r.calls, r.given));
    lemma_all_calls(input, r, left);
    assert(Seq::<EventData>::empty() + reports_of(r) =~= reports_of(r));
}

/// The replies that make up some rounds.
pub open spec fn replies_of_all(rounds: Seq<Round>) -> Seq<Reply>
    decreases rounds.len(),
{
    if rounds.len() == 0 {
        seq![]
    } else {
        replies_of_all(rounds.drop_last()) + replies_of(rounds.last())
    }
}

/// What some rounds add to the conversation.
pub open spec fn recorded_in(rounds: Seq<Round>) -> Seq<ItemData>
    decreases rounds.len(),
{
    if rounds.len() == 0 {
        seq![]
    } else {
        recorded_in(rounds.drop_last()) + recorded(rounds.last())
    }
}

/// The model is asked, with all that went before, until it has called tools in
/// eight turns: that is an error.
pub proof fn law_model_has_eight_turns(input: Seq<ItemData>, rounds: Seq<Round>)
    requires
        rounds.len() <= 8,
        forall|i: int| 0 <= i < rounds.len() ==> is_round(#[trigger] rounds[i]),
    ensures
        rounds.len() < 8 ==> run(first(input), replies_of_all(rounds)) == Some(
            asked(input + recorded_in(rounds), (7 - rounds.len()) as nat),
        ),
        rounds.len() == 8 ==> run(first(input), replies_of_all(rounds)) == Some(
            State::Finish(EventData::Error("The assistant kept calling tools without finishing"@)),
        ),
    decreases rounds.len(),
{
    if rounds.len() == 0 {
        assert(input + recorded_in(rounds) =~= input);
    } else {
        let before = rounds.drop_last();
        let r = rounds.last();
        assert forall|i: int| 0 <= i < before.len() implies is_round(#[trigger] before[i]) by {
            assert(before[i] == rounds[i]);
        }
        assert(is_round(rounds[rounds.len() - 1]));
        law_model_has_eight_turns(input, before);
        let so_far = input + recorded_in(before);
        let left = (7 - before.len()) as nat;
        lemma_run_add(first(input), replies_of_all(before), replies_of(r));
        law_every_call_is_answered(so_far, r, left);
        assert(so_far + recorded(r) =~= input + recorded_in(rounds));
    }
}

/// The conversation is over when the model has answered, when a turn fails, which is
/// told, and when nobody listens any more. Only a reply of the kind that a state waits
/// for does anything.
pub proof fn law_loop_ends_on_an_answer(
    input: Seq<ItemData>,
    call: CallData,
    output: Seq<char>,
    rest: Seq<CallData>,
    left: nat,
    failure: EventData,
)
    ensures
        ({
            let ask = asked(input, left);
            let announce = State::Announce { input: input, call: call, rest: rest, left: left };
            let report = State::Report {
                input: input,
                call: call,
                output: output,
                rest: rest,
                left: left,
            };
            let over = Some(State::Finish(EventData::Done));
            &&& follow(ask, Reply::Turn(Ok(OutcomeData::Completed))) == over
            &&& follow(ask, Reply::Turn(Err(failure))) == Some(State::Finish(failure))
            &&& follow(announce, Reply::Sent(false)) == over
            &&& follow(report, Reply::Sent(false)) == over
            &&& follow(ask, Reply::Turn(Ok(OutcomeData::ToolCalls(seq![])))) == Some(
                asked_again(input, left),
            )
        }),
{
}

/// The states of the loop hold the conversation, the call under way and the calls behind
/// it, what came of it, and the turns that are left.
pub proof fn law_states_are_seen(a: Asking, b: Announcing, c: Running, d: Reporting)
    ensures
        a@ == asked(item_views(a.input@), a.left as nat),
        b@ matches State::Announce { input, call, rest, left } && input == item_views(b.input@)
            && call == b.call@ && rest == call_views(b.rest@) && left == b.left,
        c@ matches State::Run { input, call, rest, left } && input == item_views(c.input@) && call
            == c.call@ && rest == call_views(c.rest@) && left == c.left,
        d@ matches State::Report { input, call, output, rest, left } && input == item_views(
            d.input@,
        ) && call == d.call@ && output == d.output@ && rest == call_views(d.rest@) && left
            == d.left,
        Next::Ask(a)@ == a@,
        Next::Announce(b)@ == b@,
        Next::Run(c)@ == c@,
        Next::Report(d)@ == d@,
{
}

} // verus!
