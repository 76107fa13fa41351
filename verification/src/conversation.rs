//! The conversation in the entry window.
//!
//! A conversation lasts as long as its window: it starts with an empty prompt,
//! grows by what the user sends and what the model answers, and is cleared or
//! dismissed with Escape.

use crate::agent::{first, report, reported_item, run, taken_events, taken_items, Reply};
use crate::api::{
    copy_item, item_views, ChatEvent, Content, ContentData, EventData, InputItem, ItemData, Role,
};
use crate::markdown::{law_markup_is_well_formed, markup, showable, to_pango};
use crate::pango::{
    escape, escaped, lemma_balanced_add, lemma_balanced_well_formed, lemma_escaped_balanced,
    lemma_plain_balanced, lemma_styled_balanced, no_nul, well_formed,
};
use crate::spotlight::{clean, cleaned};
use crate::text::{chars_of, opt_view, trim, trim_str, views};
use vstd::prelude::*;

verus! {

/// A conversation.
pub struct Conversation {
    /// What the model is given of the conversation.
    pub history: Vec<InputItem>,
    /// Whether a reply is on its way.
    pub streaming: bool,
    /// A screenshot that goes along with the next message, as a data URL.
    pub screenshot: Option<String>,
    /// Whether the conversation is shown below the prompt.
    pub revealed: bool,
    /// Whether the first message is hidden: it is, while the conversation is a
    /// single exchange.
    pub first_hidden: bool,
    /// What has arrived of the reply.
    pub answer: String,
}

pub struct ConversationData {
    pub history: Seq<ItemData>,
    pub streaming: bool,
    pub screenshot: Option<Seq<char>>,
    pub revealed: bool,
    pub first_hidden: bool,
    pub answer: Seq<char>,
}

impl View for Conversation {
    type V = ConversationData;

    open spec fn view(&self) -> ConversationData {
        ConversationData {
            history: item_views(self.history@),
            streaming: self.streaming,
            screenshot: opt_view(self.screenshot),
            revealed: self.revealed,
            first_hidden: self.first_hidden,
            answer: self.answer@,
        }
    }
}

/// A conversation that has not begun.
pub open spec fn new_conversation(screenshot: Option<Seq<char>>) -> ConversationData {
    ConversationData {
        history: seq![],
        streaming: false,
        screenshot: screenshot,
        revealed: false,
        first_hidden: false,
        answer: seq![],
    }
}

// ---------------------------------------------------------------------------
// Sending
// ---------------------------------------------------------------------------

/// A message as it is shown.
pub struct Sent {
    pub message: String,
    /// Images to show above the text, as data URLs.
    pub images: Vec<String>,
    /// Whether the message is hidden for now.
    pub hidden: bool,
    /// Whether the message follows on an exchange, and is set apart from it.
    pub follows: bool,
    /// Whether the hidden first message is to be shown now.
    pub show_first: bool,
}

pub struct SentData {
    pub message: Seq<char>,
    pub images: Seq<Seq<char>>,
    pub hidden: bool,
    pub follows: bool,
    pub show_first: bool,
}

impl View for Sent {
    type V = SentData;

    open spec fn view(&self) -> SentData {
        SentData {
            message: self.message@,
            images: views(self.images@),
            hidden: self.hidden,
            follows: self.follows,
            show_first: self.show_first,
        }
    }
}

/// The images that go along with the next message.
pub open spec fn attachments(screenshot: Option<Seq<char>>) -> Seq<Seq<char>> {
    match screenshot {
        Some(url) => seq![url],
        None => seq![],
    }
}

/// A message of the user. Text alone is plain; with images it is made of parts.
pub open spec fn user_item(message: Seq<char>, images: Seq<Seq<char>>) -> ItemData {
    ItemData::Message(
        Role::User,
        if images.len() == 0 {
            ContentData::Text(message)
        } else {
            ContentData::Parts(message, images)
        },
    )
}

/// Whether a text is sent: it is not if nothing is left of it once it is cleaned,
/// or while a reply is on its way.
pub open spec fn is_sent(c: ConversationData, text: Seq<char>) -> bool {
    cleaned(text).len() > 0 && !c.streaming
}

/// What sending a text shows. A plain opening message stays hidden, so that a
/// single exchange shows just the answer; one with an image is always shown. With
/// the second message the first one is shown too.
pub open spec fn sent_message(c: ConversationData, text: Seq<char>) -> SentData {
    let images = attachments(c.screenshot);
    let first = c.history.len() == 0;
    SentData {
        message: cleaned(text),
        images: images,
        hidden: first && images.len() == 0,
        follows: !first,
        show_first: !first && c.first_hidden,
    }
}

/// The conversation after a text has been sent.
pub open spec fn after_sending(c: ConversationData, text: Seq<char>) -> ConversationData {
    let sent = sent_message(c, text);
    ConversationData {
        history: c.history.push(user_item(sent.message, sent.images)),
        streaming: true,
        screenshot: None,
        revealed: true,
        first_hidden: if sent.follows {
            false
        } else {
            sent.hidden || c.first_hidden
        },
        answer: seq![],
    }
}

/// What the model is given: the system prompt, if there is one, and the
/// conversation.
pub open spec fn payload(history: Seq<ItemData>, system_prompt: Seq<char>) -> Seq<ItemData> {
    let prompt = trim(system_prompt);
    if prompt.len() > 0 {
        seq![ItemData::Message(Role::System, ContentData::Text(prompt))] + history
    } else {
        history
    }
}

// ---------------------------------------------------------------------------
// Receiving
// ---------------------------------------------------------------------------

/// What an event of the reply asks the window to do.
pub enum Shown {
    /// Append a chunk of the answer.
    Answer(String),
    /// Append a chunk of the reasoning.
    Reasoning(String),
    /// Say that the tool of this name is running.
    Running(String),
    /// The tool is done.
    Ran,
    /// The reply is complete; show the whole answer.
    Complete,
    /// The reply ended without an answer; there is nothing to show.
    Nothing,
    /// The reply failed; show the error, and what there is of the answer.
    Failed(String),
}

pub enum ShownData {
    Answer(Seq<char>),
    Reasoning(Seq<char>),
    Running(Seq<char>),
    Ran,
    Complete,
    Nothing,
    Failed(Seq<char>),
}

impl View for Shown {
    type V = ShownData;

    open spec fn view(&self) -> ShownData {
        match self {
            Shown::Answer(s) => ShownData::Answer(s@),
            Shown::Reasoning(s) => ShownData::Reasoning(s@),
            Shown::Running(s) => ShownData::Running(s@),
            Shown::Ran => ShownData::Ran,
            Shown::Complete => ShownData::Complete,
            Shown::Nothing => ShownData::Nothing,
            Shown::Failed(s) => ShownData::Failed(s@),
        }
    }
}

/// An answer of the model.
pub open spec fn assistant_item(answer: Seq<char>) -> ItemData {
    ItemData::Message(Role::Assistant, ContentData::Text(answer))
}

/// What an event of the reply does. Calls and their outputs join the
/// conversation as they come, the answer once it is complete; reasoning never
/// does, and an answer that failed does not either.
pub open spec fn received(c: ConversationData, e: EventData) -> (ConversationData, ShownData) {
    match e {
        EventData::Delta(d) => (
            ConversationData { answer: c.answer + d, ..c },
            ShownData::Answer(d),
        ),
        EventData::Reasoning(d) => (c, ShownData::Reasoning(d)),
        EventData::ToolCall(name, item) => (
            ConversationData { history: c.history.push(item), ..c },
            ShownData::Running(name),
        ),
        EventData::ToolResult(item) => (
            ConversationData { history: c.history.push(item), ..c },
            ShownData::Ran,
        ),
        EventData::Done => if c.answer.len() > 0 {
            (
                ConversationData {
                    history: c.history.push(assistant_item(c.answer)),
                    streaming: false,
                    ..c
                },
                ShownData::Complete,
            )
        } else {
            (ConversationData { streaming: false, ..c }, ShownData::Nothing)
        },
        EventData::Error(m) => (
            ConversationData { streaming: false, ..c },
            ShownData::Failed(m),
        ),
    }
}

/// The markup of a complete answer.
pub open spec fn answer_shown(answer: Seq<char>) -> Seq<char> {
    markup(cleaned(answer))
}

/// The markup of an error, behind what there is of the answer.
pub open spec fn error_shown(answer: Seq<char>, message: Seq<char>) -> Seq<char> {
    let line = "<i>"@ + escaped(message) + "</i>"@;
    if answer.len() == 0 {
        line
    } else {
        answer_shown(answer) + "\n\n"@ + line
    }
}

// ---------------------------------------------------------------------------
// Escape
// ---------------------------------------------------------------------------

/// What Escape does.
#[derive(Clone, Copy, PartialEq, Eq, Structural)]
pub enum Escaped {
    /// The conversation is cleared; a reply that is on its way is abandoned.
    Clear,
    /// The window is closed.
    Close,
}

/// Whether there is anything to clear.
pub open spec fn has_chat(c: ConversationData) -> bool {
    c.revealed || c.history.len() > 0
}

/// Escape clears the conversation if there is one, otherwise it closes the
/// window. A screenshot that has not been sent stays attached.
pub open spec fn after_escape(c: ConversationData) -> (ConversationData, Escaped) {
    if has_chat(c) {
        (new_conversation(c.screenshot), Escaped::Clear)
    } else {
        (c, Escaped::Close)
    }
}

// ---------------------------------------------------------------------------
// The conversation
// ---------------------------------------------------------------------------

/// What the empty prompt says.
pub open spec fn hint(c: ConversationData) -> Seq<char> {
    if c.revealed {
        "Follow up…"@
    } else {
        "Ask anything…"@
    }
}

impl Conversation {
    /// A conversation that has not begun, perhaps with a screenshot attached.
    pub fn new(screenshot: Option<String>) -> (r: Conversation)
        ensures
            r@ == new_conversation(opt_view(screenshot)),
    {
        let r = Conversation {
            history: Vec::new(),
            streaming: false,
            screenshot: screenshot,
            revealed: false,
            first_hidden: false,
            answer: String::new(),
        };
        assert(r@.history =~= seq![]);
        assert(r@.answer =~= seq![]);
        r
    }

    /// Whether a screenshot is attached to the next message.
    pub fn has_attachment(&self) -> (r: bool)
        ensures
            r == (self@.screenshot is Some),
    {
        self.screenshot.is_some()
    }

    /// What the empty prompt says: past the first message it invites a follow-up.
    pub fn placeholder(&self) -> (r: &'static str)
        ensures
            r@ == if self@.revealed {
                "Follow up…"@
            } else {
                "Ask anything…"@
            },
            r@ == hint(self@),
    {
        if self.revealed {
            "Follow up…"
        } else {
            "Ask anything…"
        }
    }

    /// Send a text. Nothing happens if there is nothing to send, or while a reply
    /// is on its way.
    pub fn send(&mut self, text: &str) -> (r: Option<Sent>)
        ensures
            match r {
                Some(s) => is_sent(old(self)@, text@) && s@ == sent_message(old(self)@, text@)
                    && final(self)@ == after_sending(old(self)@, text@),
                None => !is_sent(old(self)@, text@) && final(self)@ == old(self)@,
            },
    {
        let message = clean(text);
        if chars_of(message.as_str()).len() == 0 || self.streaming {
            return None;
        }
        let first = self.history.len() == 0;
        let mut images: Vec<String> = Vec::new();
        match self.screenshot.take() {
            Some(url) => {
                images.push(url);
            },
            None => {},
        }
        assert(views(images@) =~= attachments(old(self)@.screenshot));
        let plain = images.len() == 0;
        let content = if plain {
            Content::Text(message.clone())
        } else {
            Content::Parts {
                text: message.clone(),
                images: crate::text::copy_strings(&images),
            }
        };
        let show_first = !first && self.first_hidden;
        self.history.push(InputItem::Message { role: Role::User, content: content });
        proof {
            assert(views(images@).len() == images@.len());
            assert(self@.history =~= old(self)@.history.push(
                user_item(message@, views(images@)),
            ));
        }
        self.streaming = true;
        self.revealed = true;
        self.first_hidden = first && (plain || self.first_hidden);
        self.answer = String::new();
        assert(self@.answer =~= seq![]);
        Some(
            Sent {
                message: message,
                images: images,
                hidden: first && plain,
                follows: !first,
                show_first: show_first,
            },
        )
    }

    /// What the model is given of the conversation.
    pub fn payload(&self, system_prompt: &str) -> (r: Vec<InputItem>)
        ensures
            item_views(r@) == payload(self@.history, system_prompt@),
    {
        let mut out: Vec<InputItem> = Vec::new();
        let prompt = trim_str(system_prompt);
        if chars_of(prompt.as_str()).len() > 0 {
            out.push(InputItem::Message { role: Role::System, content: Content::Text(prompt) });
        }
        let ghost head = item_views(out@);
        let ghost all = item_views(self.history@);
        let mut i: usize = 0;
        proof {
            assert(head + all.take(0) =~= head);
        }
        while i < self.history.len()
            invariant
                i <= self.history@.len(),
                all == item_views(self.history@),
                item_views(out@) == head + all.take(i as int),
            decreases self.history@.len() - i,
        {
            let ghost before = item_views(out@);
            out.push(copy_item(&self.history[i]));
            proof {
                assert(item_views(out@) =~= before.push(all[i as int]));
                assert(head + all.take(i as int).push(all[i as int]) =~= before.push(
                    all[i as int],
                ));
                assert(all.take(i + 1) =~= all.take(i as int).push(all[i as int]));
            }
            i = i + 1;
        }
        proof {
            assert(all.take(i as int) =~= all);
            assert(head + all =~= payload(all, system_prompt@));
        }
        out
    }

    /// Take in an event of the reply.
    pub fn receive(&mut self, event: ChatEvent) -> (r: Shown)
        ensures
            (final(self)@, r@) == received(old(self)@, event@),
    {
        match event {
            ChatEvent::Delta(d) => {
                self.answer.append(d.as_str());
                Shown::Answer(d)
            },
            ChatEvent::Reasoning(d) => Shown::Reasoning(d),
            ChatEvent::ToolCall { name, item } => {
                self.history.push(item);
                assert(self@.history =~= old(self)@.history.push(item@));
                Shown::Running(name)
            },
            ChatEvent::ToolResult { item } => {
                self.history.push(item);
                assert(self@.history =~= old(self)@.history.push(item@));
                Shown::Ran
            },
            ChatEvent::Done => {
                self.streaming = false;
                if chars_of(self.answer.as_str()).len() > 0 {
                    self.history.push(
                        InputItem::Message {
                            role: Role::Assistant,
                            content: Content::Text(self.answer.clone()),
                        },
                    );
                    assert(self@.history =~= old(self)@.history.push(
                        assistant_item(old(self)@.answer),
                    ));
                    Shown::Complete
                } else {
                    Shown::Nothing
                }
            },
            ChatEvent::Error(m) => {
                self.streaming = false;
                Shown::Failed(m)
            },
        }
    }

    /// The markup of the complete answer.
    pub fn answer_markup(&self) -> (r: String)
        requires
            showable(cleaned(self@.answer)),
        ensures
            r@ == answer_shown(self@.answer),
            well_formed(r@),
    {
        to_pango(clean(self.answer.as_str()).as_str())
    }

    /// The markup of an error, behind what there is of the answer.
    pub fn error_markup(&self, message: &str) -> (r: String)
        requires
            self@.answer.len() > 0 ==> showable(cleaned(self@.answer)),
            no_nul(message@),
        ensures
            r@ == error_shown(self@.answer, message@),
            well_formed(r@),
    {
        let mut line = "<i>".to_owned();
        line.append(escape(message).as_str());
        line.append("</i>");
        proof {
            law_error_is_well_formed(self.answer@, message@);
        }
        if chars_of(self.answer.as_str()).len() == 0 {
            line
        } else {
            let mut out = self.answer_markup();
            out.append("\n\n");
            out.append(line.as_str());
            out
        }
    }

    /// Escape is pressed.
    pub fn escape(&mut self) -> (r: Escaped)
        ensures
            (final(self)@, r) == after_escape(old(self)@),
    {
        if self.revealed || self.history.len() > 0 {
            self.history = Vec::new();
            self.streaming = false;
            self.revealed = false;
            self.first_hidden = false;
            self.answer = String::new();
            assert(self@.history =~= seq![]);
            assert(self@.answer =~= seq![]);
            Escaped::Clear
        } else {
            Escaped::Close
        }
    }
}

// ---------------------------------------------------------------------------
// Laws
// ---------------------------------------------------------------------------

/// What is shown of a failed reply is well-formed markup.
pub proof fn law_error_is_well_formed(answer: Seq<char>, message: Seq<char>)
    ensures
        well_formed(error_shown(answer, message)),
{
    reveal_strlit("\n\n");
    let line = "<i>"@ + escaped(message) + "</i>"@;
    lemma_escaped_balanced(message);
    lemma_styled_balanced(escaped(message));
    lemma_plain_balanced("\n\n"@);
    law_markup_is_well_formed(cleaned(answer));
    lemma_balanced_add(answer_shown(answer), "\n\n"@);
    lemma_balanced_add(answer_shown(answer) + "\n\n"@, line);
    lemma_balanced_well_formed(error_shown(answer, message));
}

/// The conversation after a list of events.
pub open spec fn received_all(c: ConversationData, events: Seq<EventData>) -> ConversationData
    decreases events.len(),
{
    if events.len() == 0 {
        c
    } else {
        received(received_all(c, events.drop_last()), events.last()).0
    }
}

/// The items that the events bring.
pub open spec fn items_in(events: Seq<EventData>) -> Seq<ItemData>
    decreases events.len(),
{
    if events.len() == 0 {
        seq![]
    } else {
        items_in(events.drop_last()) + reported_item(events.last())
    }
}

/// The answer that the events bring.
pub open spec fn answer_in(events: Seq<EventData>) -> Seq<char>
    decreases events.len(),
{
    if events.len() == 0 {
        seq![]
    } else {
        match events.last() {
            EventData::Delta(d) => answer_in(events.drop_last()) + d,
            _ => answer_in(events.drop_last()),
        }
    }
}

/// Whether none of the events ends the reply.
pub open spec fn goes_on(events: Seq<EventData>) -> bool {
    forall|i: int|
        0 <= i < events.len() ==> !(#[trigger] events[i] is Done) && !(events[i] is Error)
}

proof fn lemma_received(c: ConversationData, events: Seq<EventData>)
    requires
        goes_on(events),
    ensures
        received_all(c, events) == (ConversationData {
            history: c.history + items_in(events),
            answer: c.answer + answer_in(events),
            ..c
        }),
    decreases events.len(),
{
    if events.len() == 0 {
        assert(c.history + items_in(events) =~= c.history);
        assert(c.answer + answer_in(events) =~= c.answer);
    } else {
        let before = events.drop_last();
        assert forall|i: int| 0 <= i < before.len() implies !(#[trigger] before[i] is Done) && !(
        before[i] is Error) by {
            assert(before[i] == events[i]);
        }
        lemma_received(c, before);
        let last = events.last();
        assert(!(events[events.len() - 1] is Done) && !(events[events.len() - 1] is Error));
        match last {
            EventData::ToolCall(_, item) => {
                assert((c.history + items_in(before)).push(item) =~= c.history + (items_in(before)
                    + seq![item]));
            },
            EventData::ToolResult(item) => {
                assert((c.history + items_in(before)).push(item) =~= c.history + (items_in(before)
                    + seq![item]));
            },
            EventData::Delta(d) => {
                assert(c.answer + answer_in(before) + d =~= c.answer + (answer_in(before) + d));
                assert(items_in(before) + reported_item(last) =~= items_in(before));
            },
            _ => {
                assert(items_in(before) + reported_item(last) =~= items_in(before));
            },
        }
    }
}

/// One who takes in the reports of the agent loop has the conversation that the
/// loop has: the same calls and outputs, in the same order.
pub proof fn law_conversation_mirrors_the_agent(input: Seq<ItemData>, replies: Seq<Reply>)
    ensures
        items_in(taken_events(first(input), replies)) == taken_items(first(input), replies),
        goes_on(taken_events(first(input), replies)),
    decreases replies.len(),
{
    if replies.len() > 0 {
        let before = replies.drop_last();
        law_conversation_mirrors_the_agent(input, before);
        let events = taken_events(first(input), before);
        match run(first(input), before) {
            Some(t) => match (report(t), replies.last()) {
                (Some(e), Reply::Sent(true)) => {
                    let more = events.push(e);
                    assert(more.drop_last() =~= events);
                    assert forall|i: int| 0 <= i < more.len() implies !(#[trigger] more[i] is Done)
                        && !(more[i] is Error) by {
                        if i < events.len() {
                            assert(more[i] == events[i]);
                        }
                    }
                },
                _ => {},
            },
            None => {},
        }
    }
}

/// An exchange is recorded as it took place: the message, then the calls and
/// their outputs as they were reported, then the answer. Reasoning leaves no
/// trace in it.
pub proof fn law_exchange_is_recorded(
    c: ConversationData,
    text: Seq<char>,
    events: Seq<EventData>,
)
    requires
        is_sent(c, text),
        goes_on(events),
    ensures
        ({
            let end = received(received_all(after_sending(c, text), events), EventData::Done).0;
            let question = user_item(cleaned(text), attachments(c.screenshot));
            let answer = answer_in(events);
            &&& !end.streaming
            &&& answer.len() > 0 ==> end.history == c.history.push(question) + items_in(
                events,
            ).push(assistant_item(answer))
            &&& answer.len() == 0 ==> end.history == c.history.push(question) + items_in(events)
        }),
{
    let begun = after_sending(c, text);
    lemma_received(begun, events);
    assert(begun.answer + answer_in(events) =~= answer_in(events));
    assert((begun.history + items_in(events)).push(assistant_item(answer_in(events)))
        =~= begun.history + items_in(events).push(assistant_item(answer_in(events))));
}

/// A reply that fails adds no answer to the conversation, and the next message
/// can be sent.
pub proof fn law_failed_answer_is_not_recorded(
    c: ConversationData,
    events: Seq<EventData>,
    message: Seq<char>,
)
    requires
        goes_on(events),
    ensures
        ({
            let end = received(received_all(c, events), EventData::Error(message)).0;
            end.history == c.history + items_in(events) && !end.streaming
        }),
{
    lemma_received(c, events);
}

/// What was sent before is sent again in full: the model sees the whole
/// conversation, with the system prompt in front.
pub proof fn law_payload_is_the_whole_conversation(
    history: Seq<ItemData>,
    system_prompt: Seq<char>,
)
    ensures
        payload(history, system_prompt).len() >= history.len(),
        payload(history, system_prompt).skip(
            payload(history, system_prompt).len() - history.len(),
        ) == history,
{
    let p = payload(history, system_prompt);
    assert(p.skip(p.len() - history.len()) =~= history);
}

/// Escape pressed twice closes the window, whatever was going on.
pub proof fn law_second_escape_closes(c: ConversationData)
    ensures
        after_escape(c).1 == Escaped::Close || after_escape(after_escape(c).0).1 == Escaped::Close,
        !after_escape(c).0.streaming || c.streaming,
        after_escape(c).1 == Escaped::Clear ==> after_escape(c).0.history.len() == 0
            && !after_escape(c).0.streaming,
{
}

/// While a reply is on its way nothing is sent; a blank text never is.
pub proof fn law_one_message_at_a_time(c: ConversationData, text: Seq<char>)
    ensures
        c.streaming ==> !is_sent(c, text),
        trim(text).len() == 0 ==> !is_sent(c, text),
        is_sent(c, text) ==> after_sending(c, text).streaming,
{
}

/// The first message is hidden only until the second one is sent, and a message
/// with an image never is.
pub proof fn law_follow_up_shows_the_first_message(c: ConversationData, text: Seq<char>)
    ensures
        sent_message(c, text).hidden ==> c.history.len() == 0 && c.screenshot is None,
        sent_message(c, text).follows ==> !after_sending(c, text).first_hidden && sent_message(
            c,
            text,
        ).show_first == c.first_hidden,
{
}

} // verus!
