//! What the entry window does with a message, a reply and a key.

use crate::api::{ContentData, EventData, ItemData, Role};
use crate::conversation::{
    after_escape, after_sending, answer_shown, error_shown, hint, is_sent, payload, received,
    sent_message, ConversationData, Escaped, ShownData,
};
use crate::markdown::markup;
use crate::pango::escaped;
use crate::spotlight::{after_grace, base64_part, cleaned, closes, collapsed, Guard};
use crate::text::find;
use crate::text_laws::{
    has_at, has_part, is_blank, is_tight, law_first_occurrence_is_found,
    law_trimming_takes_the_space_around,
};
use vstd::prelude::*;

verus! {

/// What the user and the model write is cleaned of the whitespace around it.
pub proof fn law_cleaning_takes_the_space_around(a: Seq<char>, s: Seq<char>, b: Seq<char>)
    requires
        is_blank(a),
        is_tight(s),
        is_blank(b),
    ensures
        cleaned(a + s + b) == collapsed(s),
{
    law_trimming_takes_the_space_around(a, s, b);
}

/// What does not end in two line feeds is kept as it is, up to and with a gap; line feeds
/// behind a gap are cut.
pub proof fn law_gaps_are_two_line_feeds(s: Seq<char>, c: char)
    ensures
        collapsed(Seq::<char>::empty()).len() == 0,
        c != '\n' ==> collapsed(s.push(c)) == collapsed(s).push(c),
        s.len() < 2 ==> collapsed(s.push(c)) == collapsed(s).push(c),
        s.len() >= 2 && (s[s.len() - 1] != '\n' || s[s.len() - 2] != '\n') ==> collapsed(s.push(c))
            == collapsed(s).push(c),
        collapsed(s + seq!['\n', '\n', '\n']) == collapsed(s + seq!['\n', '\n']),
{
    assert(s.push(c).drop_last() =~= s);
    let gap = s + seq!['\n', '\n'];
    let more = s + seq!['\n', '\n', '\n'];
    assert(more.drop_last() =~= gap);
    assert(more.last() == '\n');
    assert(gap[gap.len() - 1] == '\n');
    assert(gap[gap.len() - 2] == '\n');
}

/// A message is sent when something is left of it once it is cleaned, and no reply is
/// on its way.
pub proof fn law_text_is_sent(c: ConversationData, text: Seq<char>)
    ensures
        is_sent(c, text) <==> !c.streaming && cleaned(text) != Seq::<char>::empty(),
{
    assert(cleaned(text).len() == 0 <==> cleaned(text) =~= Seq::<char>::empty());
}

/// What was sent joins the conversation behind what was there, with the screenshot if
/// one was attached, which goes along only once. From then on a reply is on its way,
/// nothing of which has arrived.
pub proof fn law_message_joins_the_conversation(c: ConversationData, text: Seq<char>)
    ensures
        ({
            let after = after_sending(c, text);
            let said = cleaned(text);
            &&& after.history.len() == c.history.len() + 1
            &&& after.history.take(c.history.len() as int) == c.history
            &&& c.screenshot is None ==> after.history.last() == ItemData::Message(
                Role::User,
                ContentData::Text(said),
            )
            &&& c.screenshot matches Some(url) ==> after.history.last() == ItemData::Message(
                Role::User,
                ContentData::Parts(said, seq![url]),
            )
            &&& after.screenshot is None
            &&& after.streaming
            &&& after.revealed
            &&& after.answer.len() == 0
        }),
{
    let after = after_sending(c, text);
    assert(after.history.take(c.history.len() as int) =~= c.history);
}

/// A message is shown as it was sent, with its image. The first one stays hidden unless
/// it has an image; a later one never is, and with it the first is shown if it was
/// hidden.
pub proof fn law_message_is_shown(c: ConversationData, text: Seq<char>)
    ensures
        ({
            let shown = sent_message(c, text);
            let after = after_sending(c, text);
            &&& shown.message == cleaned(text)
            &&& c.screenshot is None ==> shown.images.len() == 0
            &&& c.screenshot matches Some(url) ==> shown.images == seq![url]
            &&& c.history.len() == 0 ==> {
                &&& shown.hidden == (c.screenshot is None)
                &&& !shown.follows
                &&& !shown.show_first
                &&& c.screenshot is None ==> after.first_hidden
                &&& c.screenshot is Some ==> after.first_hidden == c.first_hidden
            }
            &&& c.history.len() > 0 ==> {
                &&& !shown.hidden
                &&& shown.follows
                &&& shown.show_first == c.first_hidden
                &&& !after.first_hidden
            }
        }),
{
}

/// The model is given the conversation as it is, behind the system prompt without the
/// whitespace around it. A blank system prompt is none.
pub proof fn law_system_prompt_comes_first(
    history: Seq<ItemData>,
    a: Seq<char>,
    prompt: Seq<char>,
    b: Seq<char>,
)
    requires
        is_blank(a),
        is_tight(prompt),
        is_blank(b),
    ensures
        ({
            let given = payload(history, a + prompt + b);
            if prompt.len() == 0 {
                given == history
            } else {
                given == seq![ItemData::Message(Role::System, ContentData::Text(prompt))] + history
            }
        }),
{
    law_trimming_takes_the_space_around(a, prompt, b);
}

/// Whether nothing of a conversation but its history, its answer and the reply that is
/// on its way differs.
pub open spec fn is_same_window(a: ConversationData, b: ConversationData) -> bool {
    a.screenshot == b.screenshot && a.revealed == b.revealed && a.first_hidden == b.first_hidden
}

/// A chunk of the answer is appended to what has arrived of it, and shown. A chunk of
/// the reasoning is shown, and that is all.
pub proof fn law_chunks_are_appended(c: ConversationData, d: Seq<char>)
    ensures
        ({
            let (after, shown) = received(c, EventData::Delta(d));
            &&& after.answer == c.answer + d
            &&& after.history == c.history
            &&& after.streaming == c.streaming
            &&& is_same_window(after, c)
            &&& shown == ShownData::Answer(d)
        }),
        received(c, EventData::Reasoning(d)) == (c, ShownData::Reasoning(d)),
{
}

/// A call and its output join the conversation as they come, and the answer goes on
/// behind them.
pub proof fn law_tool_use_is_recorded(c: ConversationData, name: Seq<char>, item: ItemData)
    ensures
        ({
            let (after, shown) = received(c, EventData::ToolCall(name, item));
            let (done, seen) = received(c, EventData::ToolResult(item));
            &&& after.history == c.history + seq![item]
            &&& after.answer == c.answer
            &&& after.streaming == c.streaming
            &&& is_same_window(after, c)
            &&& shown == ShownData::Running(name)
            &&& done == after
            &&& seen == ShownData::Ran
        }),
{
    assert(c.history.push(item) =~= c.history + seq![item]);
}

/// A reply that is complete joins the conversation, if there is anything of it, as it
/// arrived; one that failed does not, and the error is shown. Either way the next
/// message can be sent, and what arrived can still be shown.
pub proof fn law_reply_ends(c: ConversationData, message: Seq<char>)
    ensures
        ({
            let (done, shown) = received(c, EventData::Done);
            let (failed, seen) = received(c, EventData::Error(message));
            &&& c.answer.len() > 0 ==> done.history == c.history + seq![
                ItemData::Message(Role::Assistant, ContentData::Text(c.answer)),
            ] && shown == ShownData::Complete
            &&& c.answer.len() == 0 ==> done.history == c.history && shown == ShownData::Nothing
            &&& !done.streaming
            &&& done.answer == c.answer
            &&& is_same_window(done, c)
            &&& failed.history == c.history
            &&& seen == ShownData::Failed(message)
            &&& !failed.streaming
            &&& failed.answer == c.answer
            &&& is_same_window(failed, c)
        }),
{
    let item = ItemData::Message(Role::Assistant, ContentData::Text(c.answer));
    assert(c.history.push(item) =~= c.history + seq![item]);
}

/// An error is shown in italics, as it is written, below what there is of the answer.
pub proof fn law_errors_are_shown(answer: Seq<char>, message: Seq<char>)
    ensures
        answer_shown(answer) == markup(cleaned(answer)),
        answer.len() == 0 ==> error_shown(answer, message) == "<i>"@ + escaped(message) + "</i>"@,
        answer.len() > 0 ==> error_shown(answer, message) == markup(cleaned(answer)) + seq![
            '\n',
            '\n',
        ] + ("<i>"@ + escaped(message) + "</i>"@),
{
    reveal_strlit("\n\n");
    assert("\n\n"@ =~= seq!['\n', '\n']);
}

/// Escape clears a conversation that has begun, but for a screenshot that has not been
/// sent; where there is none it closes the window and changes nothing.
pub proof fn law_escape_clears_or_closes(c: ConversationData)
    ensures
        ({
            let (after, done) = after_escape(c);
            if c.history.len() == 0 && !c.revealed {
                after == c && done == Escaped::Close
            } else {
                &&& done == Escaped::Clear
                &&& after.history.len() == 0
                &&& after.answer.len() == 0
                &&& !after.streaming
                &&& !after.revealed
                &&& !after.first_hidden
                &&& after.screenshot == c.screenshot
            }
        }),
{
}

/// The data of a URL is all that stands behind the first mark; without a mark there is
/// none.
pub proof fn law_data_stands_behind_the_mark(url: Seq<char>, n: int)
    ensures
        !has_part(url, ";base64,"@) ==> base64_part(url) is None,
        has_at(url, ";base64,"@, n) && (forall|m: int|
            0 <= m < n ==> !#[trigger] has_at(url, ";base64,"@, m)) ==> base64_part(url) == Some(
            url.skip(n + 8),
        ),
{
    reveal_strlit(";base64,");
    let mark = ";base64,"@;
    assert(mark.len() == 8);
    law_first_occurrence_is_found(url, mark);
    if has_at(url, mark, n) && (forall|m: int| 0 <= m < n ==> !#[trigger] has_at(url, mark, m)) {
        assert(has_part(url, mark));
        let k = find(url, mark)->0;
        assert(has_at(url, mark, k));
        assert(k == n);
    }
}

/// The window is closed when it loses the focus, once the grace periods are over; it
/// never is when it gets the focus.
pub proof fn law_losing_the_focus_closes(guard: Guard)
    ensures
        !closes(guard, true),
        closes(Guard::Armed, false),
        !closes(Guard::Fresh, false),
        !closes(Guard::Renewed, false),
{
}

/// The focus is taken back once, at the end of the first grace period, if the window is
/// still there and lost it. Otherwise, and after the second period, losing the focus
/// closes the window.
pub proof fn law_focus_is_taken_back_once(guard: Guard, visible: bool, active: bool)
    ensures
        ({
            let end = after_grace(guard, visible, active);
            &&& end.present_again <==> guard == Guard::Fresh && visible && !active
            &&& end.guard == Guard::Renewed <==> end.present_again
            &&& end.guard == Guard::Armed <==> !end.present_again
        }),
{
}

/// The empty prompt asks for anything first, and for a follow-up from then on.
pub proof fn law_prompt_invites(c: ConversationData, text: Seq<char>)
    ensures
        !c.revealed ==> hint(c) == "Ask anything…"@,
        c.revealed ==> hint(c) == "Follow up…"@,
        hint(after_sending(c, text)) == "Follow up…"@,
        after_escape(c).1 == Escaped::Clear ==> hint(after_escape(c).0) == "Ask anything…"@,
{
}

} // verus!
