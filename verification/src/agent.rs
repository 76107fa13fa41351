//! The agent loop: driving a conversation to a final answer.
//!
//! The loop runs turns of the model. Where a turn asks for tools, each call is
//! announced, run and reported, and the conversation grows by the call and its
//! output; then the model is asked again. A call with malformed arguments is not
//! run: what is wrong with them is its output. The states of the loop are types of
//! their own: each takes exactly the outcome that it waits for, and says what
//! comes next.

use crate::api::{
    call_views, copy_call, item_views, CallData, ChatEvent, EventData, InputItem, ItemData,
    OutcomeData, ToolCall, TurnOutcome,
};
use crate::json::json_parse;
use crate::text::opt_view;
use crate::tools::{argument_error, malformed};
use vstd::prelude::*;

verus! {

/// How many turns the model gets, so that a model that keeps calling tools
/// without ever answering cannot keep the loop going forever.
pub const MAX_TURNS: usize = 8;

/// A turn of the model is to run on `input`.
pub struct Asking {
    pub input: Vec<InputItem>,
    /// The turns that are left after this one.
    pub left: usize,
}

/// A call is to be announced before it runs.
pub struct Announcing {
    pub input: Vec<InputItem>,
    pub call: ToolCall,
    /// The calls of the same turn that come after it.
    pub rest: Vec<ToolCall>,
    pub left: usize,
}

/// A tool is to run.
pub struct Running {
    pub input: Vec<InputItem>,
    pub call: ToolCall,
    pub rest: Vec<ToolCall>,
    pub left: usize,
}

/// The output of a tool is to be reported.
pub struct Reporting {
    pub input: Vec<InputItem>,
    pub call: ToolCall,
    pub output: String,
    pub rest: Vec<ToolCall>,
    pub left: usize,
}

/// What comes next.
pub enum Next {
    Ask(Asking),
    Announce(Announcing),
    Run(Running),
    Report(Reporting),
    /// The conversation is over; this is the last event to report.
    Finish(ChatEvent),
}

// ---------------------------------------------------------------------------
// The model of the loop
// ---------------------------------------------------------------------------

/// What a state holds.
pub enum State {
    Ask { input: Seq<ItemData>, left: nat },
    Announce { input: Seq<ItemData>, call: CallData, rest: Seq<CallData>, left: nat },
    Run { input: Seq<ItemData>, call: CallData, rest: Seq<CallData>, left: nat },
    Report {
        input: Seq<ItemData>,
        call: CallData,
        output: Seq<char>,
        rest: Seq<CallData>,
        left: nat,
    },
    Finish(EventData),
}

impl View for Next {
    type V = State;

    open spec fn view(&self) -> State {
        match self {
            Next::Ask(s) => s@,
            Next::Announce(s) => s@,
            Next::Run(s) => s@,
            Next::Report(s) => s@,
            Next::Finish(e) => State::Finish(e@),
        }
    }
}

impl View for Asking {
    type V = State;

    open spec fn view(&self) -> State {
        State::Ask { input: item_views(self.input@), left: self.left as nat }
    }
}

impl View for Announcing {
    type V = State;

    open spec fn view(&self) -> State {
        State::Announce {
            input: item_views(self.input@),
            call: self.call@,
            rest: call_views(self.rest@),
            left: self.left as nat,
        }
    }
}

impl View for Running {
    type V = State;

    open spec fn view(&self) -> State {
        State::Run {
            input: item_views(self.input@),
            call: self.call@,
            rest: call_views(self.rest@),
            left: self.left as nat,
        }
    }
}

impl View for Reporting {
    type V = State;

    open spec fn view(&self) -> State {
        State::Report {
            input: item_views(self.input@),
            call: self.call@,
            output: self.output@,
            rest: call_views(self.rest@),
            left: self.left as nat,
        }
    }
}

/// What the world answers: how a turn ended, whether a report was taken, or what
/// a tool gave.
pub enum Reply {
    Turn(Result<OutcomeData, EventData>),
    Sent(bool),
    Output(Result<Seq<char>, Seq<char>>),
}

/// The state in which a conversation starts.
pub open spec fn first(input: Seq<ItemData>) -> State {
    State::Ask { input: input, left: (MAX_TURNS - 1) as nat }
}

/// The next call, or the next turn once no call is left, or the end once no turn
/// is left either.
pub open spec fn next_call(input: Seq<ItemData>, calls: Seq<CallData>, left: nat) -> State {
    if calls.len() > 0 {
        State::Announce { input: input, call: calls[0], rest: calls.drop_first(), left: left }
    } else if left > 0 {
        State::Ask { input: input, left: (left - 1) as nat }
    } else {
        State::Finish(EventData::Error("The assistant kept calling tools without finishing"@))
    }
}

/// The item that records a call.
pub open spec fn call_item(call: CallData) -> ItemData {
    ItemData::FunctionCall(call)
}

/// The item that records the output of a call.
pub open spec fn output_item(call: CallData, output: Seq<char>) -> ItemData {
    ItemData::FunctionCallOutput(call.call_id, output)
}

/// The output that the model is given for a call: an error of the tool is told
/// to the model, so that it can try again.
pub open spec fn output_text(result: Result<Seq<char>, Seq<char>>) -> Seq<char> {
    match result {
        Ok(out) => out,
        Err(err) => "error: "@ + err,
    }
}

/// The state once a call has been announced: it is recorded, and runs unless
/// something is wrong with its arguments, which is then told to the model.
pub open spec fn announced(
    input: Seq<ItemData>,
    call: CallData,
    rest: Seq<CallData>,
    left: nat,
    problem: Option<Seq<char>>,
) -> State {
    let input = input.push(call_item(call));
    match problem {
        None => State::Run { input: input, call: call, rest: rest, left: left },
        Some(err) => State::Report {
            input: input,
            call: call,
            output: output_text(Err(err)),
            rest: rest,
            left: left,
        },
    }
}

/// The state that follows a reply; none if the reply is not of the kind that
/// the state waits for.
pub open spec fn follow(s: State, r: Reply) -> Option<State> {
    match (s, r) {
        (State::Ask { input, left }, Reply::Turn(result)) => Some(
            match result {
                Ok(OutcomeData::Completed) => State::Finish(EventData::Done),
                Ok(OutcomeData::ToolCalls(calls)) => next_call(input, calls, left),
                Err(event) => State::Finish(event),
            },
        ),
        (State::Announce { input, call, rest, left }, Reply::Sent(ok)) => Some(
            if ok {
                announced(input, call, rest, left, malformed(call.arguments))
            } else {
                State::Finish(EventData::Done)
            },
        ),
        (State::Run { input, call, rest, left }, Reply::Output(result)) => Some(
            State::Report {
                input: input,
                call: call,
                output: output_text(result),
                rest: rest,
                left: left,
            },
        ),
        (State::Report { input, call, output, rest, left }, Reply::Sent(ok)) => Some(
            if ok {
                next_call(input.push(output_item(call, output)), rest, left)
            } else {
                State::Finish(EventData::Done)
            },
        ),
        _ => None,
    }
}

/// What a state reports, if it does.
pub open spec fn report(s: State) -> Option<EventData> {
    match s {
        State::Announce { call, .. } => Some(EventData::ToolCall(call.name, call_item(call))),
        State::Report { call, output, .. } => Some(
            EventData::ToolResult(output_item(call, output)),
        ),
        _ => None,
    }
}

// ---------------------------------------------------------------------------
// The loop
// ---------------------------------------------------------------------------

/// Start the loop on a conversation.
pub fn start(input: Vec<InputItem>) -> (r: Asking)
    ensures
        r@ == first(item_views(input@)),
{
    Asking { input: input, left: MAX_TURNS - 1 }
}

/// The state once a call is done with and `calls` are left of the turn.
fn after_call(input: Vec<InputItem>, calls: Vec<ToolCall>, left: usize) -> (r: Next)
    ensures
        r@ == next_call(item_views(input@), call_views(calls@), left as nat),
{
    if calls.len() > 0 {
        let ghost before = call_views(calls@);
        let mut rest = calls;
        let call = rest.remove(0);
        assert(call_views(rest@) =~= before.drop_first());
        Next::Announce(Announcing { input: input, call: call, rest: rest, left: left })
    } else if left > 0 {
        Next::Ask(Asking { input: input, left: left - 1 })
    } else {
        Next::Finish(
            ChatEvent::Error("The assistant kept calling tools without finishing".to_owned()),
        )
    }
}

/// How a result of a turn is seen.
pub open spec fn result_view(r: Result<TurnOutcome, ChatEvent>) -> Result<OutcomeData, EventData> {
    match r {
        Ok(o) => Ok(o@),
        Err(e) => Err(e@),
    }
}

impl Asking {
    /// The turn is over: it was the final answer, or it asks for calls, or it
    /// failed.
    pub fn turn_done(self, result: Result<TurnOutcome, ChatEvent>) -> (r: Next)
        ensures
            follow(self@, Reply::Turn(result_view(result))) == Some(r@),
    {
        match result {
            Ok(TurnOutcome::Completed) => Next::Finish(ChatEvent::Done),
            Ok(TurnOutcome::ToolCalls(calls)) => after_call(self.input, calls, self.left),
            Err(event) => Next::Finish(event),
        }
    }
}

impl Announcing {
    /// The event that announces the call.
    pub fn event(&self) -> (r: ChatEvent)
        ensures
            report(self@) == Some(r@),
    {
        ChatEvent::ToolCall {
            name: self.call.name.clone(),
            item: InputItem::FunctionCall(copy_call(&self.call)),
        }
    }

    /// The announcement was taken, or nobody listens any more.
    pub fn sent(self, ok: bool) -> (r: Next)
        ensures
            follow(self@, Reply::Sent(ok)) == Some(r@),
    {
        if ok {
            let problem = argument_error(self.call.arguments.as_str());
            self.taken(problem)
        } else {
            Next::Finish(ChatEvent::Done)
        }
    }

    /// The announcement was taken, and `problem` is what is wrong with the
    /// arguments of the call, if anything is.
    pub fn taken(self, problem: Option<String>) -> (r: Next)
        ensures
            r@ == announced(
                item_views(self.input@),
                self.call@,
                call_views(self.rest@),
                self.left as nat,
                opt_view(problem),
            ),
    {
        let mut input = self.input;
        let ghost before = item_views(input@);
        input.push(InputItem::FunctionCall(copy_call(&self.call)));
        assert(item_views(input@) =~= before.push(call_item(self.call@)));
        match problem {
            None => Next::Run(
                Running { input: input, call: self.call, rest: self.rest, left: self.left },
            ),
            Some(err) => Next::Report(
                Reporting {
                    input: input,
                    call: self.call,
                    output: error_output(err),
                    rest: self.rest,
                    left: self.left,
                },
            ),
        }
    }
}

/// The output that tells the model of an error.
fn error_output(err: String) -> (r: String)
    ensures
        r@ == output_text(Err(err@)),
{
    let mut out = "error: ".to_owned();
    out.append(err.as_str());
    out
}

/// How a result of a tool is seen.
pub open spec fn tool_view(r: Result<String, String>) -> Result<Seq<char>, Seq<char>> {
    match r {
        Ok(s) => Ok(s@),
        Err(s) => Err(s@),
    }
}

impl Running {
    /// The tool gave an output, or an error to tell the model.
    pub fn tool_done(self, result: Result<String, String>) -> (r: Next)
        ensures
            follow(self@, Reply::Output(tool_view(result))) == Some(r@),
    {
        let output = match result {
            Ok(out) => out,
            Err(err) => error_output(err),
        };
        Next::Report(
            Reporting {
                input: self.input,
                call: self.call,
                output: output,
                rest: self.rest,
                left: self.left,
            },
        )
    }
}

impl Reporting {
    /// The event that reports the output.
    pub fn event(&self) -> (r: ChatEvent)
        ensures
            report(self@) == Some(r@),
    {
        ChatEvent::ToolResult {
            item: InputItem::FunctionCallOutput {
                call_id: self.call.call_id.clone(),
                output: self.output.clone(),
            },
        }
    }

    /// The report was taken, or nobody listens any more.
    pub fn sent(self, ok: bool) -> (r: Next)
        ensures
            follow(self@, Reply::Sent(ok)) == Some(r@),
    {
        if ok {
            let mut input = self.input;
            let ghost before = item_views(input@);
            let ghost item = output_item(self.call@, self.output@);
            input.push(
                InputItem::FunctionCallOutput { call_id: self.call.call_id, output: self.output },
            );
            assert(item_views(input@) =~= before.push(item));
            after_call(input, self.rest, self.left)
        } else {
            Next::Finish(ChatEvent::Done)
        }
    }
}

// ---------------------------------------------------------------------------
// Laws
// ---------------------------------------------------------------------------

/// The state after a list of replies; none if one of them does not fit.
pub open spec fn run(s: State, replies: Seq<Reply>) -> Option<State>
    decreases replies.len(),
{
    if replies.len() == 0 {
        Some(s)
    } else {
        match run(s, replies.drop_last()) {
            Some(t) => follow(t, replies.last()),
            None => None,
        }
    }
}

/// The conversation that a state holds.
pub open spec fn conversation(s: State) -> Seq<ItemData> {
    match s {
        State::Ask { input, .. } => input,
        State::Announce { input, .. } => input,
        State::Run { input, .. } => input,
        State::Report { input, .. } => input,
        State::Finish(_) => seq![],
    }
}

/// The item of a report that belongs into the conversation.
pub open spec fn reported_item(e: EventData) -> Seq<ItemData> {
    match e {
        EventData::ToolCall(_, item) => seq![item],
        EventData::ToolResult(item) => seq![item],
        _ => seq![],
    }
}

/// The items of the reports that were taken, in order.
pub open spec fn taken_items(s: State, replies: Seq<Reply>) -> Seq<ItemData>
    decreases replies.len(),
{
    if replies.len() == 0 {
        seq![]
    } else {
        let before = taken_items(s, replies.drop_last());
        match run(s, replies.drop_last()) {
            Some(t) => match (report(t), replies.last()) {
                (Some(e), Reply::Sent(true)) => before + reported_item(e),
                _ => before,
            },
            None => before,
        }
    }
}

/// The reports that were taken, in order.
pub open spec fn taken_events(s: State, replies: Seq<Reply>) -> Seq<EventData>
    decreases replies.len(),
{
    if replies.len() == 0 {
        seq![]
    } else {
        let before = taken_events(s, replies.drop_last());
        match run(s, replies.drop_last()) {
            Some(t) => match (report(t), replies.last()) {
                (Some(e), Reply::Sent(true)) => before.push(e),
                _ => before,
            },
            None => before,
        }
    }
}

/// How many turns the model has been given.
pub open spec fn turns(replies: Seq<Reply>) -> nat
    decreases replies.len(),
{
    if replies.len() == 0 {
        0
    } else {
        turns(replies.drop_last()) + if replies.last() is Turn {
            1nat
        } else {
            0nat
        }
    }
}

/// The turns that are left after the current one.
pub open spec fn turns_left(s: State) -> nat {
    match s {
        State::Ask { left, .. } => left,
        State::Announce { left, .. } => left,
        State::Run { left, .. } => left,
        State::Report { left, .. } => left,
        State::Finish(_) => 0,
    }
}

proof fn lemma_turns_add_up(input: Seq<ItemData>, replies: Seq<Reply>)
    requires
        run(first(input), replies) is Some,
    ensures
        ({
            let s = run(first(input), replies)->0;
            &&& turns(replies) <= MAX_TURNS
            &&& s is Ask ==> turns(replies) + turns_left(s) + 1 == MAX_TURNS
            &&& !(s is Ask) && !(s is Finish) ==> turns(replies) + turns_left(s) == MAX_TURNS
        }),
    decreases replies.len(),
{
    if replies.len() > 0 {
        lemma_turns_add_up(input, replies.drop_last());
    }
}

/// The model is given at most `MAX_TURNS` turns, whatever it answers.
pub proof fn law_turns_are_bounded(input: Seq<ItemData>, replies: Seq<Reply>)
    requires
        run(first(input), replies) is Some,
    ensures
        turns(replies) <= MAX_TURNS,
{
    lemma_turns_add_up(input, replies);
}

/// Once the last call of a turn is answered, the model is asked again as long as
/// it has had fewer than `MAX_TURNS` turns; after that the loop ends with an error.
pub proof fn law_model_is_asked_until_its_turns_run_out(
    input: Seq<ItemData>,
    replies: Seq<Reply>,
)
    requires
        run(first(input), replies) matches Some(State::Report { rest, .. }) && rest.len() == 0,
    ensures
        ({
            let s = run(first(input), replies)->0;
            let t = follow(s, Reply::Sent(true))->0;
            if turns(replies) < MAX_TURNS {
                t is Ask
            } else {
                t == State::Finish(
                    EventData::Error("The assistant kept calling tools without finishing"@),
                )
            }
        }),
{
    lemma_turns_add_up(input, replies);
}

/// The conversation grows by exactly the items that were reported and taken: one
/// who keeps a list of them has the conversation that the model was given.
pub proof fn law_conversation_is_what_was_reported(input: Seq<ItemData>, replies: Seq<Reply>)
    requires
        run(first(input), replies) is Some,
        !(run(first(input), replies)->0 is Finish),
    ensures
        conversation(run(first(input), replies)->0) == input + taken_items(first(input), replies),
    decreases replies.len(),
{
    let s = first(input);
    if replies.len() == 0 {
        assert(input + Seq::<ItemData>::empty() =~= input);
    } else {
        let before = replies.drop_last();
        let t = run(s, before)->0;
        assert(!(t is Finish));
        law_conversation_is_what_was_reported(input, before);
        let r = replies.last();
        let taken = taken_items(s, before);
        match t {
            State::Announce { call, .. } => {
                assert(input + (taken + seq![call_item(call)]) =~= (input + taken).push(
                    call_item(call),
                ));
            },
            State::Report { call, output, .. } => {
                assert(input + (taken + seq![output_item(call, output)]) =~= (input + taken).push(
                    output_item(call, output),
                ));
            },
            _ => {},
        }
    }
}

/// Whether items are calls, each followed by its output.
pub open spec fn answered(items: Seq<ItemData>) -> bool {
    &&& items.len() % 2 == 0
    &&& forall|i: int|
        0 <= i < items.len() / 2 ==> is_pair(#[trigger] items[2 * i], items[2 * i + 1])
}

/// Whether the second item is the output of the call that the first one is.
pub open spec fn is_pair(a: ItemData, b: ItemData) -> bool {
    a matches ItemData::FunctionCall(c) && b matches ItemData::FunctionCallOutput(id, _) && id
        == c.call_id
}

proof fn lemma_answered_grows(items: Seq<ItemData>, a: ItemData, b: ItemData)
    requires
        answered(items),
        is_pair(a, b),
    ensures
        answered(items.push(a).push(b)),
{
    let more = items.push(a).push(b);
    assert forall|i: int| 0 <= i < more.len() / 2 implies is_pair(
        #[trigger] more[2 * i],
        more[2 * i + 1],
    ) by {
        if 2 * i < items.len() {
            assert(is_pair(items[2 * i], items[2 * i + 1]));
        } else {
            assert(2 * i == items.len());
        }
    }
}

/// Whether the items of a state are answered calls, with the call that is under
/// way at the end while there is one.
pub open spec fn in_order(s: State, added: Seq<ItemData>) -> bool {
    match s {
        State::Run { call, .. } => added.len() > 0 && added.last() == call_item(call) && answered(
            added.drop_last(),
        ),
        State::Report { call, .. } => added.len() > 0 && added.last() == call_item(call)
            && answered(added.drop_last()),
        State::Finish(_) => true,
        _ => answered(added),
    }
}

/// Every call in what the loop adds to a conversation is followed directly by
/// its own output, except for the one call that is under way.
pub proof fn law_calls_are_answered(input: Seq<ItemData>, replies: Seq<Reply>)
    requires
        run(first(input), replies) is Some,
    ensures
        in_order(run(first(input), replies)->0, taken_items(first(input), replies)),
    decreases replies.len(),
{
    let s = first(input);
    if replies.len() > 0 {
        let before = replies.drop_last();
        law_calls_are_answered(input, before);
        let t = run(s, before)->0;
        let taken = taken_items(s, before);
        match t {
            State::Announce { call, .. } => {
                let more = taken + seq![call_item(call)];
                assert(more.drop_last() =~= taken);
            },
            State::Report { call, output, .. } => {
                let out = output_item(call, output);
                lemma_answered_grows(taken.drop_last(), call_item(call), out);
                assert(taken + seq![out] =~= taken.drop_last().push(call_item(call)).push(out));
            },
            _ => {},
        }
    }
}

/// The model sees a call only with all calls before it answered: whenever it is
/// asked, what was added since the start is calls, each followed by its output.
pub proof fn law_model_sees_answered_calls(input: Seq<ItemData>, replies: Seq<Reply>)
    requires
        run(first(input), replies) is Some,
        run(first(input), replies)->0 is Ask,
    ensures
        exists|added: Seq<ItemData>|
            conversation(run(first(input), replies)->0) == input + added && #[trigger] answered(
                added,
            ),
{
    law_conversation_is_what_was_reported(input, replies);
    law_calls_are_answered(input, replies);
    assert(answered(taken_items(first(input), replies)));
}

/// A call with malformed arguments does not end the loop: it is recorded as the
/// model wrote it, what is wrong with it is its output, and where it is the last
/// call of the turn, the model is asked again with both, while turns are left.
pub proof fn law_malformed_arguments_are_reported(
    input: Seq<ItemData>,
    call: CallData,
    rest: Seq<CallData>,
    left: nat,
)
    ensures
        json_parse(call.arguments) matches Err(err) ==> {
            let output = "error: "@ + ("malformed arguments: "@ + err);
            let both = input.push(ItemData::FunctionCall(call)).push(
                ItemData::FunctionCallOutput(call.call_id, output),
            );
            let s = State::Announce { input: input, call: call, rest: rest, left: left };
            &&& follow(s, Reply::Sent(true)) matches Some(t)
            &&& report(t) == Some(EventData::ToolResult(both.last()))
            &&& follow(t, Reply::Sent(true)) == Some(next_call(both, rest, left))
            &&& rest.len() == 0 && left > 0 ==> follow(t, Reply::Sent(true)) == Some(
                State::Ask { input: both, left: (left - 1) as nat },
            )
        },
{
}

/// How far a state is along its turn.
pub open spec fn rank(s: State) -> nat {
    match s {
        State::Ask { .. } => 0,
        State::Announce { rest, .. } => 3 * rest.len() + 3,
        State::Run { rest, .. } => 3 * rest.len() + 2,
        State::Report { rest, .. } => 3 * rest.len() + 1,
        State::Finish(_) => 0,
    }
}

/// The loop comes to an end: every step ends it, or uses up a turn, or brings the
/// calls of the turn one step closer to their end.
pub proof fn law_loop_ends(s: State, r: Reply)
    requires
        follow(s, r) is Some,
    ensures
        ({
            let t = follow(s, r)->0;
            ||| t is Finish
            ||| s is Ask && t is Announce && turns_left(t) == turns_left(s)
            ||| turns_left(t) < turns_left(s)
            ||| turns_left(t) == turns_left(s) && !(s is Ask) && rank(t) < rank(s)
        }),
{
}

} // verus!
