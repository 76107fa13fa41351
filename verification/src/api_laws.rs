//! What a request says, and what the answers to other requests mean.

use crate::api::{
    bearer, content_tree, item_tree, item_trees, listed_models, models_address, models_in, present,
    responses_address, server_message, status_text, without_slashes, CallData, ContentData,
    ItemData, Role,
};
use crate::ascii::decimal;
use crate::json::{member, text_at, Json};
use crate::order::{law_sorted, lemma_less_irreflexive, less};
use crate::tools::{param_tree, properties, required, tool_tree, tool_trees, Param, Tool};
use vstd::prelude::*;

verus! {

/// Whether a value has no members but the given ones.
pub open spec fn has_only(t: Json, keys: Seq<Seq<char>>) -> bool {
    t matches Json::Object(m) && forall|k: Seq<char>|
        #[trigger] m.contains_key(k) <==> keys.contains(k)
}

proof fn lemma_two(keys: Seq<Seq<char>>, a: Seq<char>, b: Seq<char>)
    requires
        keys == seq![a, b],
    ensures
        forall|k: Seq<char>| #[trigger] keys.contains(k) <==> k == a || k == b,
{
    assert(keys[0] == a && keys[1] == b);
    assert forall|k: Seq<char>| #[trigger] keys.contains(k) implies k == a || k == b by {
        let i = choose|i: int| 0 <= i < keys.len() && keys[i] == k;
        assert(i == 0 || i == 1);
    }
}

proof fn lemma_three(keys: Seq<Seq<char>>, a: Seq<char>, b: Seq<char>, c: Seq<char>)
    requires
        keys == seq![a, b, c],
    ensures
        forall|k: Seq<char>| #[trigger] keys.contains(k) <==> k == a || k == b || k == c,
{
    assert(keys[0] == a && keys[1] == b && keys[2] == c);
    assert forall|k: Seq<char>| #[trigger] keys.contains(k) implies k == a || k == b || k == c by {
        let i = choose|i: int| 0 <= i < keys.len() && keys[i] == k;
        assert(i == 0 || i == 1 || i == 2);
    }
}

proof fn lemma_four(keys: Seq<Seq<char>>, a: Seq<char>, b: Seq<char>, c: Seq<char>, d: Seq<char>)
    requires
        keys == seq![a, b, c, d],
    ensures
        forall|k: Seq<char>| #[trigger]
            keys.contains(k) <==> k == a || k == b || k == c || k == d,
{
    assert(keys[0] == a && keys[1] == b && keys[2] == c && keys[3] == d);
    assert forall|k: Seq<char>| #[trigger] keys.contains(k) implies k == a || k == b || k == c || k
        == d by {
        let i = choose|i: int| 0 <= i < keys.len() && keys[i] == k;
        assert(i == 0 || i == 1 || i == 2 || i == 3);
    }
}

// ---------------------------------------------------------------------------
// The conversation
// ---------------------------------------------------------------------------

/// A message is sent with who wrote it, and a text alone as it is.
pub proof fn law_messages_are_sent(content: ContentData, text: Seq<char>)
    ensures
        text_at(item_tree(ItemData::Message(Role::System, content)), "role"@) == Some("system"@),
        text_at(item_tree(ItemData::Message(Role::User, content)), "role"@) == Some("user"@),
        text_at(item_tree(ItemData::Message(Role::Assistant, content)), "role"@) == Some(
            "assistant"@,
        ),
        forall|role: Role| #[trigger]
            member(item_tree(ItemData::Message(role, content)), "content"@) == content_tree(
                content,
            ),
        forall|role: Role|
            has_only(
                #[trigger] item_tree(ItemData::Message(role, content)),
                seq!["role"@, "content"@],
            ),
        content_tree(ContentData::Text(text)) == Json::Text(text),
{
    reveal_strlit("role");
    reveal_strlit("content");
    assert("role"@.len() == 4 && "content"@.len() == 7);
    lemma_two(seq!["role"@, "content"@], "role"@, "content"@);
}

/// A message with images is sent in parts: its text, then every image, in order.
pub proof fn law_images_follow_the_text(text: Seq<char>, images: Seq<Seq<char>>)
    ensures
        content_tree(ContentData::Parts(text, images)) matches Json::Array(parts) && {
            &&& parts.len() == images.len() + 1
            &&& text_at(parts[0], "type"@) == Some("input_text"@)
            &&& text_at(parts[0], "text"@) == Some(text)
            &&& has_only(parts[0], seq!["type"@, "text"@])
            &&& forall|i: int|
                0 <= i < images.len() ==> {
                    &&& text_at(#[trigger] parts[i + 1], "type"@) == Some("input_image"@)
                    &&& text_at(parts[i + 1], "image_url"@) == Some(images[i])
                    &&& has_only(parts[i + 1], seq!["type"@, "image_url"@])
                }
        },
{
    reveal_strlit("type");
    reveal_strlit("text");
    reveal_strlit("image_url");
    assert("type"@[1] == 'y' && "text"@[1] == 'e');
    assert("image_url"@.len() == 9 && "type"@.len() == 4);
    lemma_two(seq!["type"@, "text"@], "type"@, "text"@);
    lemma_two(seq!["type"@, "image_url"@], "type"@, "image_url"@);
}

/// A call is sent as the model wrote it, and its output under the id of the call.
pub proof fn law_calls_are_sent(call: CallData, call_id: Seq<char>, output: Seq<char>)
    ensures
        ({
            let t = item_tree(ItemData::FunctionCall(call));
            &&& text_at(t, "type"@) == Some("function_call"@)
            &&& text_at(t, "call_id"@) == Some(call.call_id)
            &&& text_at(t, "name"@) == Some(call.name)
            &&& text_at(t, "arguments"@) == Some(call.arguments)
            &&& has_only(t, seq!["type"@, "call_id"@, "name"@, "arguments"@])
        }),
        ({
            let t = item_tree(ItemData::FunctionCallOutput(call_id, output));
            &&& text_at(t, "type"@) == Some("function_call_output"@)
            &&& text_at(t, "call_id"@) == Some(call_id)
            &&& text_at(t, "output"@) == Some(output)
            &&& has_only(t, seq!["type"@, "call_id"@, "output"@])
        }),
{
    reveal_strlit("type");
    reveal_strlit("call_id");
    reveal_strlit("name");
    reveal_strlit("arguments");
    reveal_strlit("output");
    assert("type"@[0] == 't' && "name"@[0] == 'n' && "type"@.len() == 4 && "name"@.len() == 4);
    assert("call_id"@.len() == 7 && "arguments"@.len() == 9 && "output"@.len() == 6);
    lemma_four(
        seq!["type"@, "call_id"@, "name"@, "arguments"@],
        "type"@,
        "call_id"@,
        "name"@,
        "arguments"@,
    );
    lemma_three(seq!["type"@, "call_id"@, "output"@], "type"@, "call_id"@, "output"@);
}

/// The items of a conversation are sent in order, each for itself, and so are the tools.
pub proof fn law_items_are_sent_in_order(items: Seq<ItemData>, tools: Seq<Tool>)
    ensures
        item_trees(items).len() == items.len(),
        forall|i: int|
            0 <= i < items.len() ==> #[trigger] item_trees(items)[i] == item_tree(items[i]),
        tool_trees(tools).len() == tools.len(),
        forall|i: int|
            0 <= i < tools.len() ==> #[trigger] tool_trees(tools)[i] == tool_tree(tools[i]),
{
}

// ---------------------------------------------------------------------------
// Tools
// ---------------------------------------------------------------------------

/// A tool is described with its name, what it does, and the arguments that it takes, and
/// no other arguments.
pub proof fn law_tools_are_described(t: Tool)
    ensures
        ({
            let d = tool_tree(t);
            let p = member(d, "parameters"@);
            &&& text_at(d, "type"@) == Some("function"@)
            &&& text_at(d, "name"@) == Some(t.name@)
            &&& text_at(d, "description"@) == Some(t.description@)
            &&& has_only(d, seq!["type"@, "name"@, "description"@, "parameters"@])
            &&& text_at(p, "type"@) == Some("object"@)
            &&& member(p, "additionalProperties"@) == Json::Bool(false)
            &&& member(p, "properties"@) == Json::Object(properties(t.params@))
            &&& required(t.params@).len() > 0 ==> member(p, "required"@) == Json::Array(
                required(t.params@),
            )
            &&& required(t.params@).len() == 0 ==> member(p, "required"@) == Json::Null
        }),
{
    reveal_strlit("type");
    reveal_strlit("name");
    reveal_strlit("description");
    reveal_strlit("parameters");
    reveal_strlit("properties");
    reveal_strlit("additionalProperties");
    reveal_strlit("required");
    assert("type"@[0] == 't' && "name"@[0] == 'n' && "type"@.len() == 4 && "name"@.len() == 4);
    assert("description"@.len() == 11 && "parameters"@.len() == 10 && "properties"@.len() == 10);
    assert("additionalProperties"@.len() == 20 && "required"@.len() == 8);
    lemma_four(
        seq!["type"@, "name"@, "description"@, "parameters"@],
        "type"@,
        "name"@,
        "description"@,
        "parameters"@,
    );
}

/// Whether no argument has the given name.
pub open spec fn is_new(params: Seq<Param>, name: Seq<char>) -> bool {
    forall|i: int| 0 <= i < params.len() ==> (#[trigger] params[i]).name@ != name
}

/// Every argument is a text, described as it is, and the arguments that have to be given
/// are named in order. One more argument changes nothing of the others.
pub proof fn law_arguments_are_described(params: Seq<Param>, p: Param)
    requires
        is_new(params, p.name@),
    ensures
        properties(Seq::<Param>::empty()) == Map::<Seq<char>, Json>::empty(),
        required(Seq::<Param>::empty()).len() == 0,
        ({
            let all = properties(params.push(p));
            &&& all.contains_key(p.name@)
            &&& text_at(all[p.name@], "type"@) == Some("string"@)
            &&& p.description is Some ==> text_at(all[p.name@], "description"@) == Some(
                (p.description->0)@,
            )
            &&& p.description is None ==> member(all[p.name@], "description"@) == Json::Null
            &&& all.remove(p.name@) == properties(params)
        }),
        p.required ==> required(params.push(p)) == required(params) + seq![Json::Text(p.name@)],
        !p.required ==> required(params.push(p)) == required(params),
{
    reveal_strlit("type");
    reveal_strlit("description");
    assert("type"@.len() == 4 && "description"@.len() == 11);
    assert(params.push(p).drop_last() =~= params);
    lemma_property_names(params, p.name@);
    assert(properties(params).insert(p.name@, param_tree(p)).remove(p.name@) =~= properties(
        params,
    ));
    assert(required(params).push(Json::Text(p.name@)) =~= required(params) + seq![
        Json::Text(p.name@),
    ]);
}

proof fn lemma_property_names(params: Seq<Param>, name: Seq<char>)
    requires
        is_new(params, name),
    ensures
        !properties(params).contains_key(name),
    decreases params.len(),
{
    if params.len() > 0 {
        let rest = params.drop_last();
        assert forall|i: int| 0 <= i < rest.len() implies (#[trigger] rest[i]).name@ != name by {
            assert(rest[i] == params[i]);
        }
        lemma_property_names(rest, name);
        assert(params[params.len() - 1].name@ != name);
    }
}

// ---------------------------------------------------------------------------
// Models and errors
// ---------------------------------------------------------------------------

/// Every model that has an id is listed, by its id; entries without one are not. A body
/// without entries lists none.
pub proof fn law_models_are_listed_by_id(
    m: Map<Seq<char>, Json>,
    a: Seq<Json>,
    entry: Json,
    b: Seq<Json>,
)
    requires
        m.contains_key("data"@),
        m["data"@] == Json::Array(a + seq![entry] + b),
    ensures
        ({
            let all = present(listed_models(Json::Object(m)));
            let before = present(listed_models(Json::Object(m.insert("data"@, Json::Array(a)))));
            let after = present(listed_models(Json::Object(m.insert("data"@, Json::Array(b)))));
            let id = text_at(entry, "id"@);
            &&& id is Some ==> all == before + seq![id->0] + after
            &&& id is None ==> all == before + after
        }),
        present(listed_models(Json::Object(m.remove("data"@)))).len() == 0,
        present(listed_models(Json::Object(m.insert("data"@, Json::Array(seq![]))))).len() == 0,
{
    let x = listed_models(Json::Object(m.insert("data"@, Json::Array(a))));
    let y = listed_models(Json::Object(m.insert("data"@, Json::Array(b))));
    let id = text_at(entry, "id"@);
    assert(listed_models(Json::Object(m)) =~= x + seq![id] + y);
    lemma_present_add(x, seq![id]);
    lemma_present_add(x + seq![id], y);
    assert(seq![id].drop_last() =~= Seq::<Option<Seq<char>>>::empty());
    reveal_with_fuel(present, 2);
    match id {
        Some(t) => {
            assert(present(seq![id]) =~= seq![t]);
        },
        None => {
            assert(present(x) + present(seq![id]) =~= present(x));
        },
    }
}

proof fn lemma_present_add(a: Seq<Option<Seq<char>>>, b: Seq<Option<Seq<char>>>)
    ensures
        present(a + b) == present(a) + present(b),
    decreases b.len(),
{
    if b.len() == 0 {
        assert(a + b =~= a);
        assert(present(a) + present(b) =~= present(a));
    } else {
        lemma_present_add(a, b.drop_last());
        assert((a + b).drop_last() =~= a + b.drop_last());
        assert((a + b).last() == b.last());
        assert(present(a + b) =~= present(a) + present(b));
    }
}

/// Texts are ordered by the first character in which they differ; one that is the
/// beginning of the other comes first.
pub proof fn law_order_is_by_the_first_difference(
    head: Seq<char>,
    a: char,
    b: char,
    x: Seq<char>,
    y: Seq<char>,
)
    ensures
        a < b ==> less(head + seq![a] + x, head + seq![b] + y),
        a > b ==> !less(head + seq![a] + x, head + seq![b] + y),
        less(head, head + seq![b] + y),
        !less(head + seq![b] + y, head),
        !less(head, head),
    decreases head.len(),
{
    let p = head + seq![a] + x;
    let q = head + seq![b] + y;
    lemma_less_irreflexive(head);
    if head.len() == 0 {
        assert(p[0] == a);
        assert(q[0] == b);
    } else {
        let rest = head.drop_first();
        law_order_is_by_the_first_difference(rest, a, b, x, y);
        assert(p.drop_first() =~= rest + seq![a] + x);
        assert(q.drop_first() =~= rest + seq![b] + y);
        assert(p[0] == head[0]);
        assert(q[0] == head[0]);
    }
}

/// A refused request is answered with the message of the server, if it sent one that is
/// a text where messages stand, else with the code in decimal.
pub proof fn law_refusals_are_told(
    code: u16,
    m: Map<Seq<char>, Json>,
    e: Map<Seq<char>, Json>,
    message: Seq<char>,
    problem: Seq<char>,
)
    ensures
        ({
            let said = e.insert("message"@, Json::Text(message));
            let body = Json::Object(m.insert("error"@, Json::Object(said)));
            status_text(code, server_message(Ok(body))) == message
        }),
        ({
            let body = Json::Object(
                m.insert("error"@, Json::Object(e.remove("message"@))),
            );
            status_text(code, server_message(Ok(body))) == "HTTP "@ + decimal(code as nat)
        }),
        status_text(code, server_message(Ok(Json::Object(m.remove("error"@))))) == "HTTP "@
            + decimal(code as nat),
        status_text(code, server_message(Err(problem))) == "HTTP "@ + decimal(code as nat),
{
}

/// A numeral is that of the number without its last digit, and the last digit.
pub proof fn law_numerals_are_decimal(n: nat, d: nat)
    requires
        d < 10,
    ensures
        n > 0 ==> decimal(10 * n + d) == decimal(n).push((48 + d) as char),
        decimal(d) == seq![(48 + d) as char],
{
    assert((10 * n + d) / 10 == n);
    assert((10 * n + d) % 10 == d);
}

/// All slashes at the end of an address are dropped, and nothing else.
pub proof fn law_slashes_at_the_end_are_dropped(s: Seq<char>)
    ensures
        without_slashes(s.push('/')) == without_slashes(s),
        s.len() == 0 || s[s.len() - 1] != '/' ==> without_slashes(s) == s,
{
    assert(s.push('/').drop_last() =~= s);
}

/// Requests go to the endpoint that is set, with one slash before what is asked for, and
/// with the key that is set.
pub proof fn law_requests_go_to_the_endpoint(base: Seq<char>, key: Seq<char>)
    ensures
        models_address(base.push('/')) == models_address(base),
        responses_address(base.push('/')) == responses_address(base),
        base.len() == 0 || base[base.len() - 1] != '/' ==> models_address(base) == base
            + "/models"@ && responses_address(base) == base + "/responses"@,
        bearer(key) == "Bearer "@ + key,
{
    law_slashes_at_the_end_are_dropped(base);
}

/// The models are listed in order, each as often as it was sent; a reply that is no JSON
/// is told as such.
pub proof fn law_models_are_sorted(t: Json, problem: Seq<char>)
    requires
        present(listed_models(t)).len() <= usize::MAX,
    ensures
        models_in(Ok(t)) matches Ok(models) && {
            &&& models.to_multiset() == present(listed_models(t)).to_multiset()
            &&& forall|i: int, j: int|
                0 <= i < j < models.len() ==> !less(#[trigger] models[j], #[trigger] models[i])
        },
        models_in(Err(problem)) == Err::<Seq<Seq<char>>, Seq<char>>(
            "invalid response: Failed to read JSON: "@ + problem,
        ),
{
    law_sorted(present(listed_models(t)));
}

} // verus!
