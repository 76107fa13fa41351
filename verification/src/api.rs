//! The OpenAI Responses API: what is sent to it and what its event stream means.
//!
//! A request is built from the conversation so far; the reply arrives as lines
//! of server-sent events, each of which is one step of a [`Turn`].

use crate::json::{
    array_value, bool_value, get_items, json_parse, json_text, member, object_value, opt_tree,
    parse_value, reads_as, set_member, shallow, step, str_at, text_at, text_value, trees,
    value_tree, write_value, Json,
};
use crate::order::{sort_strings, sorted};
use crate::ascii::{decimal, push_decimal};
use crate::text::{
    chars_of, opt_view, same_str, starts, string_of, strip_prefix, trim_start, trimmed_start,
    views,
};
use crate::tools::{lemma_tool_shallow, single, tool_tree, tool_trees, Tool, ToolRegistry};
use serde_json::Value;
use vstd::prelude::*;

verus! {

/// The endpoint, key and model that requests go to.
pub struct ApiConfig {
    pub base_url: String,
    pub api_key: String,
    pub model: String,
}

/// Who a message is from.
pub enum Role {
    System,
    User,
    Assistant,
}

/// What a message says.
pub enum Content {
    /// Text alone.
    Text(String),
    /// Text with images, each as a data URL.
    Parts { text: String, images: Vec<String> },
}

/// A function call that the model asks for. The arguments are a JSON text.
pub struct ToolCall {
    pub name: String,
    pub call_id: String,
    pub arguments: String,
}

/// One item of a conversation as the model is given it.
pub enum InputItem {
    Message { role: Role, content: Content },
    FunctionCall(ToolCall),
    FunctionCallOutput { call_id: String, output: String },
}

/// What is reported of a reply while it arrives.
pub enum ChatEvent {
    /// A chunk of the visible answer text.
    Delta(String),
    /// A chunk of the model's reasoning. It is for display only and never
    /// becomes part of the conversation.
    Reasoning(String),
    /// A tool is about to run. The item belongs into the conversation.
    ToolCall { name: String, item: InputItem },
    /// A tool finished. The item belongs into the conversation, right behind
    /// its call.
    ToolResult { item: InputItem },
    Done,
    Error(String),
}

/// How one turn of the model ended.
pub enum TurnOutcome {
    /// The model produced only text: this is the final answer.
    Completed,
    /// The model asked for these calls.
    ToolCalls(Vec<ToolCall>),
}

// ---------------------------------------------------------------------------
// Views
// ---------------------------------------------------------------------------

pub struct CallData {
    pub name: Seq<char>,
    pub call_id: Seq<char>,
    pub arguments: Seq<char>,
}

pub enum ContentData {
    Text(Seq<char>),
    Parts(Seq<char>, Seq<Seq<char>>),
}

pub enum ItemData {
    Message(Role, ContentData),
    FunctionCall(CallData),
    FunctionCallOutput(Seq<char>, Seq<char>),
}

pub enum EventData {
    Delta(Seq<char>),
    Reasoning(Seq<char>),
    ToolCall(Seq<char>, ItemData),
    ToolResult(ItemData),
    Done,
    Error(Seq<char>),
}

pub enum OutcomeData {
    Completed,
    ToolCalls(Seq<CallData>),
}

impl View for ToolCall {
    type V = CallData;

    open spec fn view(&self) -> CallData {
        CallData { name: self.name@, call_id: self.call_id@, arguments: self.arguments@ }
    }
}

impl View for Content {
    type V = ContentData;

    open spec fn view(&self) -> ContentData {
        match self {
            Content::Text(s) => ContentData::Text(s@),
            Content::Parts { text, images } => ContentData::Parts(text@, views(images@)),
        }
    }
}

impl View for InputItem {
    type V = ItemData;

    open spec fn view(&self) -> ItemData {
        match self {
            InputItem::Message { role, content } => ItemData::Message(*role, content@),
            InputItem::FunctionCall(c) => ItemData::FunctionCall(c@),
            InputItem::FunctionCallOutput { call_id, output } => ItemData::FunctionCallOutput(
                call_id@,
                output@,
            ),
        }
    }
}

impl View for ChatEvent {
    type V = EventData;

    open spec fn view(&self) -> EventData {
        match self {
            ChatEvent::Delta(s) => EventData::Delta(s@),
            ChatEvent::Reasoning(s) => EventData::Reasoning(s@),
            ChatEvent::ToolCall { name, item } => EventData::ToolCall(name@, item@),
            ChatEvent::ToolResult { item } => EventData::ToolResult(item@),
            ChatEvent::Done => EventData::Done,
            ChatEvent::Error(s) => EventData::Error(s@),
        }
    }
}

impl View for TurnOutcome {
    type V = OutcomeData;

    open spec fn view(&self) -> OutcomeData {
        match self {
            TurnOutcome::Completed => OutcomeData::Completed,
            TurnOutcome::ToolCalls(calls) => OutcomeData::ToolCalls(call_views(calls@)),
        }
    }
}

pub open spec fn call_views(v: Seq<ToolCall>) -> Seq<CallData> {
    Seq::new(v.len(), |i: int| v[i]@)
}

pub open spec fn item_views(v: Seq<InputItem>) -> Seq<ItemData> {
    Seq::new(v.len(), |i: int| v[i]@)
}

pub open spec fn event_views(v: Seq<ChatEvent>) -> Seq<EventData> {
    Seq::new(v.len(), |i: int| v[i]@)
}

// ---------------------------------------------------------------------------
// Copies
// ---------------------------------------------------------------------------

/// A copy of a call.
pub fn copy_call(c: &ToolCall) -> (r: ToolCall)
    ensures
        r@ == c@,
{
    ToolCall { name: c.name.clone(), call_id: c.call_id.clone(), arguments: c.arguments.clone() }
}

fn copy_content(c: &Content) -> (r: Content)
    ensures
        r@ == c@,
{
    match c {
        Content::Text(s) => Content::Text(s.clone()),
        Content::Parts { text, images } => Content::Parts {
            text: text.clone(),
            images: crate::text::copy_strings(images),
        },
    }
}

fn copy_role(r: &Role) -> (s: Role)
    ensures
        s == *r,
{
    match r {
        Role::System => Role::System,
        Role::User => Role::User,
        Role::Assistant => Role::Assistant,
    }
}

/// A copy of an item.
pub fn copy_item(i: &InputItem) -> (r: InputItem)
    ensures
        r@ == i@,
{
    match i {
        InputItem::Message { role, content } => InputItem::Message {
            role: copy_role(role),
            content: copy_content(content),
        },
        InputItem::FunctionCall(c) => InputItem::FunctionCall(copy_call(c)),
        InputItem::FunctionCallOutput { call_id, output } => InputItem::FunctionCallOutput {
            call_id: call_id.clone(),
            output: output.clone(),
        },
    }
}

// ---------------------------------------------------------------------------
// Requests
// ---------------------------------------------------------------------------

/// The text without the slashes at its end.
pub open spec fn without_slashes(s: Seq<char>) -> Seq<char>
    decreases s.len(),
{
    if s.len() > 0 && s.last() == '/' {
        without_slashes(s.drop_last())
    } else {
        s
    }
}

/// The URL of an endpoint below the API root, which may end in slashes.
pub fn endpoint(base_url: &str, path: &str) -> (r: String)
    ensures
        r@ == without_slashes(base_url@) + path@,
{
    let v = chars_of(base_url);
    let mut n: usize = v.len();
    proof {
        assert(v@.take(n as int) =~= v@);
    }
    while n > 0 && v[n - 1] == '/'
        invariant
            n <= v@.len(),
            without_slashes(v@) == without_slashes(v@.take(n as int)),
        decreases n,
    {
        n = n - 1;
        proof {
            assert(v@.take(n + 1).drop_last() =~= v@.take(n as int));
        }
    }
    proof {
        assert(v@.subrange(0, n as int) =~= v@.take(n as int));
    }
    let mut out = string_of(vstd::slice::slice_subrange(v.as_slice(), 0, n));
    out.append(path);
    out
}

/// The URL that lists the models of an endpoint.
pub open spec fn models_address(base_url: Seq<char>) -> Seq<char> {
    without_slashes(base_url) + "/models"@
}

/// The URL of an endpoint that answers a conversation.
pub open spec fn responses_address(base_url: Seq<char>) -> Seq<char> {
    without_slashes(base_url) + "/responses"@
}

/// The value of the `Authorization` header.
pub open spec fn bearer(api_key: Seq<char>) -> Seq<char> {
    "Bearer "@ + api_key
}

impl ApiConfig {
    /// The URL that lists the models.
    pub fn models_url(&self) -> (r: String)
        ensures
            r@ == without_slashes(self.base_url@) + "/models"@,
            r@ == models_address(self.base_url@),
    {
        endpoint(self.base_url.as_str(), "/models")
    }

    /// The URL that answers a conversation.
    pub fn responses_url(&self) -> (r: String)
        ensures
            r@ == without_slashes(self.base_url@) + "/responses"@,
            r@ == responses_address(self.base_url@),
    {
        endpoint(self.base_url.as_str(), "/responses")
    }

    /// The value of the `Authorization` header.
    pub fn authorization(&self) -> (r: String)
        ensures
            r@ == "Bearer "@ + self.api_key@,
            r@ == bearer(self.api_key@),
    {
        let mut out = "Bearer ".to_owned();
        out.append(self.api_key.as_str());
        out
    }
}

/// How a role is written.
pub open spec fn role_text(r: Role) -> Seq<char> {
    match r {
        Role::System => "system"@,
        Role::User => "user"@,
        Role::Assistant => "assistant"@,
    }
}

/// An image as a content part.
pub open spec fn image_tree(url: Seq<char>) -> Json {
    Json::Object(
        single("type"@, Json::Text("input_image"@)).insert("image_url"@, Json::Text(url)),
    )
}

/// A content part with text.
pub open spec fn input_text_tree(text: Seq<char>) -> Json {
    Json::Object(single("type"@, Json::Text("input_text"@)).insert("text"@, Json::Text(text)))
}

/// A plain string for text alone; an array of parts, the text first, once there
/// are images.
pub open spec fn content_tree(c: ContentData) -> Json {
    match c {
        ContentData::Text(s) => Json::Text(s),
        ContentData::Parts(text, images) => Json::Array(
            seq![input_text_tree(text)] + Seq::new(images.len(), |i: int| image_tree(images[i])),
        ),
    }
}

/// An item of the conversation as the API takes it.
pub open spec fn item_tree(d: ItemData) -> Json {
    match d {
        ItemData::Message(role, content) => Json::Object(
            single("role"@, Json::Text(role_text(role))).insert("content"@, content_tree(content)),
        ),
        ItemData::FunctionCall(c) => Json::Object(
            single("type"@, Json::Text("function_call"@)).insert(
                "call_id"@,
                Json::Text(c.call_id),
            ).insert("name"@, Json::Text(c.name)).insert("arguments"@, Json::Text(c.arguments)),
        ),
        ItemData::FunctionCallOutput(call_id, output) => Json::Object(
            single("type"@, Json::Text("function_call_output"@)).insert(
                "call_id"@,
                Json::Text(call_id),
            ).insert("output"@, Json::Text(output)),
        ),
    }
}

pub open spec fn item_trees(items: Seq<ItemData>) -> Seq<Json> {
    Seq::new(items.len(), |i: int| item_tree(items[i]))
}

/// The body of a streaming request: the conversation in full, with no state
/// kept on the server, and the tools if there are any.
pub open spec fn request_tree(model: Seq<char>, items: Seq<ItemData>, tools: Seq<Tool>) -> Json {
    let m = single("model"@, Json::Text(model)).insert("stream"@, Json::Bool(true)).insert(
        "input"@,
        Json::Array(item_trees(items)),
    ).insert("store"@, Json::Bool(false));
    if tools.len() > 0 {
        Json::Object(m.insert("tools"@, Json::Array(tool_trees(tools))))
    } else {
        Json::Object(m)
    }
}

fn role_value(r: &Role) -> (v: Value)
    ensures
        value_tree(v) == Json::Text(role_text(*r)),
{
    match r {
        Role::System => text_value("system"),
        Role::User => text_value("user"),
        Role::Assistant => text_value("assistant"),
    }
}

fn parts_value(text: &str, images: &Vec<String>) -> (v: Value)
    ensures
        value_tree(v) == content_tree(ContentData::Parts(text@, views(images@))),
{
    let mut parts: Vec<Value> = Vec::new();
    let mut first = object_value();
    set_member(&mut first, "type", text_value("input_text"));
    set_member(&mut first, "text", text_value(text));
    parts.push(first);
    let mut i: usize = 0;
    while i < images.len()
        invariant
            i <= images@.len(),
            parts@.len() == i + 1,
            value_tree(parts@[0]) == input_text_tree(text@),
            forall|j: int| 0 <= j < i ==> value_tree(parts@[j + 1]) == image_tree(images@[j]@),
        decreases images@.len() - i,
    {
        let mut part = object_value();
        set_member(&mut part, "type", text_value("input_image"));
        set_member(&mut part, "image_url", text_value(images[i].as_str()));
        parts.push(part);
        i = i + 1;
    }
    proof {
        let urls = views(images@);
        let want = seq![input_text_tree(text@)] + Seq::new(
            urls.len(),
            |i: int| image_tree(urls[i]),
        );
        assert forall|j: int| 0 <= j < want.len() implies trees(parts@)[j] == want[j] by {
            if j > 0 {
                assert(value_tree(parts@[j - 1 + 1]) == image_tree(images@[j - 1]@));
            }
        }
        assert(trees(parts@) =~= want);
    }
    array_value(parts)
}

fn item_value(i: &InputItem) -> (v: Value)
    ensures
        value_tree(v) == item_tree(i@),
{
    let mut v = object_value();
    match i {
        InputItem::Message { role, content } => {
            set_member(&mut v, "role", role_value(role));
            let body = match content {
                Content::Text(s) => text_value(s.as_str()),
                Content::Parts { text, images } => parts_value(text.as_str(), images),
            };
            set_member(&mut v, "content", body);
        },
        InputItem::FunctionCall(c) => {
            set_member(&mut v, "type", text_value("function_call"));
            set_member(&mut v, "call_id", text_value(c.call_id.as_str()));
            set_member(&mut v, "name", text_value(c.name.as_str()));
            set_member(&mut v, "arguments", text_value(c.arguments.as_str()));
        },
        InputItem::FunctionCallOutput { call_id, output } => {
            set_member(&mut v, "type", text_value("function_call_output"));
            set_member(&mut v, "call_id", text_value(call_id.as_str()));
            set_member(&mut v, "output", text_value(output.as_str()));
        },
    }
    v
}

/// The body of the request that asks the model to continue a conversation.
pub fn request_body(api: &ApiConfig, input: &Vec<InputItem>, tools: &ToolRegistry) -> (r: String)
    ensures
        r@ == json_text(request_tree(api.model@, item_views(input@), tools.tools@)),
        reads_as(r@, request_tree(api.model@, item_views(input@), tools.tools@)),
{
    let mut items: Vec<Value> = Vec::new();
    let mut i: usize = 0;
    while i < input.len()
        invariant
            i <= input@.len(),
            items@.len() == i,
            forall|j: int| 0 <= j < i ==> value_tree(items@[j]) == item_tree(input@[j]@),
        decreases input@.len() - i,
    {
        items.push(item_value(&input[i]));
        i = i + 1;
    }
    assert(trees(items@) =~= item_trees(item_views(input@)));
    let mut body = object_value();
    set_member(&mut body, "model", text_value(api.model.as_str()));
    set_member(&mut body, "stream", bool_value(true));
    set_member(&mut body, "input", array_value(items));
    set_member(&mut body, "store", bool_value(false));
    match tools.definitions() {
        Some(definitions) => {
            set_member(&mut body, "tools", definitions);
        },
        None => {},
    }
    proof {
        lemma_request_shallow(api.model@, item_views(input@), tools.tools@);
    }
    write_value(&body)
}

/// An item nests at most three levels deep.
proof fn lemma_item_shallow(d: ItemData)
    ensures
        shallow(item_tree(d), 3),
{
    reveal_with_fuel(shallow, 5);
}

/// A value that fits some levels fits more.
proof fn lemma_shallow_grows(t: Json, a: nat, b: nat)
    requires
        shallow(t, a),
        a <= b,
    ensures
        shallow(t, b),
    decreases a,
{
    match t {
        Json::Array(items) => {
            assert forall|i: int| 0 <= i < items.len() implies shallow(
                #[trigger] items[i],
                (b - 1) as nat,
            ) by {
                lemma_shallow_grows(items[i], (a - 1) as nat, (b - 1) as nat);
            }
        },
        Json::Object(m) => {
            assert forall|k: Seq<char>| m.contains_key(k) implies shallow(
                #[trigger] m[k],
                (b - 1) as nat,
            ) by {
                lemma_shallow_grows(m[k], (a - 1) as nat, (b - 1) as nat);
            }
        },
        _ => {},
    }
}

proof fn lemma_request_shallow(model: Seq<char>, items: Seq<ItemData>, tools: Seq<Tool>)
    ensures
        shallow(request_tree(model, items, tools), 127),
{
    let input = Json::Array(item_trees(items));
    assert(shallow(input, 126)) by {
        assert forall|i: int| 0 <= i < item_trees(items).len() implies shallow(
            #[trigger] item_trees(items)[i],
            125,
        ) by {
            lemma_item_shallow(items[i]);
            lemma_shallow_grows(item_tree(items[i]), 3, 125);
        }
    }
    let defs = Json::Array(tool_trees(tools));
    assert(shallow(defs, 126)) by {
        assert forall|i: int| 0 <= i < tool_trees(tools).len() implies shallow(
            #[trigger] tool_trees(tools)[i],
            125,
        ) by {
            lemma_tool_shallow(tools[i]);
            lemma_shallow_grows(tool_tree(tools[i]), 4, 125);
        }
    }
    let m = request_tree(model, items, tools)->Object_0;
    assert forall|k: Seq<char>| m.contains_key(k) implies shallow(#[trigger] m[k], 126) by {
        assert(m[k] is Text || m[k] is Bool || m[k] == input || m[k] == defs);
    }
}

// ---------------------------------------------------------------------------
// Replies other than streams
// ---------------------------------------------------------------------------

/// The string member called `id` of each of a list of values.
pub open spec fn ids(items: Seq<Json>) -> Seq<Option<Seq<char>>> {
    Seq::new(items.len(), |i: int| text_at(items[i], "id"@))
}

/// The ids of the models that a reply lists, one for each entry; none for an entry
/// without one.
pub open spec fn listed_models(t: Json) -> Seq<Option<Seq<char>>> {
    match member(t, "data"@) {
        Json::Array(items) => ids(items),
        _ => seq![],
    }
}

/// The texts of a list that are there.
pub open spec fn present(s: Seq<Option<Seq<char>>>) -> Seq<Seq<char>>
    decreases s.len(),
{
    if s.len() == 0 {
        seq![]
    } else {
        match s.last() {
            Some(t) => present(s.drop_last()).push(t),
            None => present(s.drop_last()),
        }
    }
}

pub open spec fn opt_views(v: Seq<Option<String>>) -> Seq<Option<Seq<char>>> {
    Seq::new(v.len(), |i: int| opt_view(v[i]))
}

/// The ids of the items of an array value; of any other, or where the value is
/// absent, none.
fn ids_of(v: Option<&Value>) -> (r: Vec<Option<String>>)
    ensures
        opt_views(r@) == match opt_tree(v) {
            Json::Array(items) => ids(items),
            _ => seq![],
        },
{
    let mut out: Vec<Option<String>> = Vec::new();
    assert(opt_views(out@) =~= Seq::<Option<Seq<char>>>::empty());
    let items = match v {
        Some(x) => match get_items(x) {
            Some(items) => items,
            None => {
                return out;
            },
        },
        None => {
            return out;
        },
    };
    let mut i: usize = 0;
    while i < items.len()
        invariant
            i <= items@.len(),
            out@.len() == i,
            forall|j: int|
                0 <= j < i ==> opt_view(#[trigger] out@[j]) == text_at(
                    value_tree(items@[j]),
                    "id"@,
                ),
        decreases items@.len() - i,
    {
        out.push(str_at(Some(&items[i]), "id"));
        i = i + 1;
    }
    assert(opt_views(out@) =~= ids(trees(items@)));
    out
}

/// The model ids of a reply, sorted. Entries without an id are left out.
pub fn sorted_models(ids: &Vec<Option<String>>) -> (r: Vec<String>)
    ensures
        views(r@) == sorted(present(opt_views(ids@))),
{
    let mut found: Vec<String> = Vec::new();
    let ghost all = opt_views(ids@);
    let mut i: usize = 0;
    proof {
        assert(all.take(0) =~= Seq::<Option<Seq<char>>>::empty());
        assert(views(found@) =~= present(all.take(0)));
    }
    while i < ids.len()
        invariant
            i <= ids@.len(),
            all == opt_views(ids@),
            views(found@) == present(all.take(i as int)),
        decreases ids@.len() - i,
    {
        let ghost before = views(found@);
        proof {
            assert(all.take(i + 1).drop_last() =~= all.take(i as int));
        }
        match &ids[i] {
            Some(id) => {
                found.push(id.clone());
                assert(views(found@) =~= before.push(id@));
            },
            None => {},
        }
        i = i + 1;
    }
    assert(all.take(i as int) =~= all);
    sort_strings(&found)
}

/// What the reply to a `/models` request amounts to.
pub open spec fn models_in(body: Result<Json, Seq<char>>) -> Result<Seq<Seq<char>>, Seq<char>> {
    match body {
        Ok(t) => Ok(sorted(present(listed_models(t)))),
        Err(e) => Err("invalid response: Failed to read JSON: "@ + e),
    }
}

/// The sorted model ids of the reply to a `/models` request.
pub fn list_models(body: &str) -> (r: Result<Vec<String>, String>)
    ensures
        match (json_parse(body@), r) {
            (Ok(t), Ok(models)) => views(models@) == sorted(present(listed_models(t))),
            (Err(e), Err(m)) => m@ == "invalid response: Failed to read JSON: "@ + e,
            _ => false,
        },
        models_in(json_parse(body@)) == match r {
            Ok(models) => Ok(views(models@)),
            Err(m) => Err(m@),
        },
{
    match parse_value(body) {
        Ok(v) => Ok(sorted_models(&ids_of(step(Some(&v), "data")))),
        Err(e) => {
            let mut m = "invalid response: Failed to read JSON: ".to_owned();
            m.append(e.as_str());
            Err(m)
        },
    }
}

/// What is shown for an HTTP error: the server's own message, else the bare
/// status code.
pub open spec fn status_text(code: u16, message: Option<Seq<char>>) -> Seq<char> {
    match message {
        Some(m) => m,
        None => "HTTP "@ + decimal(code as nat),
    }
}

/// The server's own message in the body of an error reply, if the body is a JSON
/// document with one.
pub open spec fn server_message(body: Result<Json, Seq<char>>) -> Option<Seq<char>> {
    match body {
        Ok(t) => text_at(member(t, "error"@), "message"@),
        Err(_) => None,
    }
}

/// What is shown for an HTTP error with the given message of the server.
pub fn status_line(code: u16, message: Option<String>) -> (r: String)
    ensures
        r@ == status_text(code, opt_view(message)),
{
    match message {
        Some(m) => m,
        None => {
            let mut out = "HTTP ".to_owned();
            push_decimal(&mut out, code as u64);
            out
        },
    }
}

/// Best-effort `error.message` from an HTTP error response body, falling back
/// to the bare status code.
pub fn status_error_message(code: u16, body: &str) -> (r: String)
    ensures
        r@ == status_text(code, server_message(json_parse(body@))),
{
    let message = match parse_value(body) {
        Ok(v) => str_at(step(Some(&v), "error"), "message"),
        Err(_) => None,
    };
    status_line(code, message)
}

// ---------------------------------------------------------------------------
// The event stream
// ---------------------------------------------------------------------------

/// What is read of one event of the stream.
pub struct Chunk {
    pub kind: Option<String>,
    pub delta: Option<String>,
    /// The function call of a finished output item.
    pub call: Option<ToolCall>,
    pub error: Option<String>,
    pub reason: Option<String>,
    pub message: Option<String>,
}

pub struct ChunkData {
    pub kind: Option<Seq<char>>,
    pub delta: Option<Seq<char>>,
    pub call: Option<CallData>,
    pub error: Option<Seq<char>>,
    pub reason: Option<Seq<char>>,
    pub message: Option<Seq<char>>,
}

impl View for Chunk {
    type V = ChunkData;

    open spec fn view(&self) -> ChunkData {
        ChunkData {
            kind: opt_view(self.kind),
            delta: opt_view(self.delta),
            call: match self.call {
                Some(c) => Some(c@),
                None => None,
            },
            error: opt_view(self.error),
            reason: opt_view(self.reason),
            message: opt_view(self.message),
        }
    }
}

/// The text, or a default where there is none.
pub open spec fn or_else(s: Option<Seq<char>>, d: Seq<char>) -> Seq<char> {
    match s {
        Some(t) => t,
        None => d,
    }
}

/// The function call that an output item describes. Missing arguments count as
/// an empty object.
pub open spec fn call_of(item: Json) -> CallData {
    CallData {
        name: or_else(text_at(item, "name"@), seq![]),
        call_id: or_else(text_at(item, "call_id"@), seq![]),
        arguments: or_else(text_at(item, "arguments"@), "{}"@),
    }
}

/// What an event says.
pub open spec fn chunk_of(t: Json) -> ChunkData {
    let item = member(t, "item"@);
    let response = member(t, "response"@);
    ChunkData {
        kind: text_at(t, "type"@),
        delta: text_at(t, "delta"@),
        call: if text_at(item, "type"@) == Some("function_call"@) {
            Some(call_of(item))
        } else {
            None
        },
        error: text_at(member(response, "error"@), "message"@),
        reason: text_at(member(response, "incomplete_details"@), "reason"@),
        message: text_at(t, "message"@),
    }
}

fn text_or(s: Option<String>, d: &str) -> (r: String)
    ensures
        r@ == or_else(opt_view(s), d@),
{
    match s {
        Some(t) => t,
        None => d.to_owned(),
    }
}

fn is_text(s: &Option<String>, d: &str) -> (r: bool)
    ensures
        r == (opt_view(*s) == Some(d@)),
{
    match s {
        Some(t) => same_str(t.as_str(), d),
        None => false,
    }
}

/// Read the JSON document of one event; nothing if it is none.
pub fn parse_chunk(data: &str) -> (r: Option<Chunk>)
    ensures
        match (json_parse(data@), r) {
            (Ok(t), Some(c)) => c@ == chunk_of(t),
            (Err(_), None) => true,
            _ => false,
        },
{
    let v = match parse_value(data) {
        Ok(v) => v,
        Err(_) => {
            return None;
        },
    };
    let whole = Some(&v);
    let item = step(whole, "item");
    let response = step(whole, "response");
    let call = if is_text(&str_at(item, "type"), "function_call") {
        let name = text_or(str_at(item, "name"), "");
        proof {
            reveal_strlit("");
            assert(""@ =~= Seq::<char>::empty());
        }
        Some(
            ToolCall {
                name: name,
                call_id: text_or(str_at(item, "call_id"), ""),
                arguments: text_or(str_at(item, "arguments"), "{}"),
            },
        )
    } else {
        None
    };
    Some(
        Chunk {
            kind: str_at(whole, "type"),
            delta: str_at(whole, "delta"),
            call: call,
            error: str_at(step(response, "error"), "message"),
            reason: str_at(step(response, "incomplete_details"), "reason"),
            message: str_at(whole, "message"),
        },
    )
}

/// The kinds of events that matter.
pub enum Kind {
    TextDelta,
    ReasoningDelta,
    ReasoningPart,
    ItemDone,
    Completed,
    Failed,
    Error,
    Other,
}

/// The kind of an event by its type.
pub open spec fn kind_of(kind: Option<Seq<char>>) -> Kind {
    match kind {
        Some(k) => if k == "response.output_text.delta"@ {
            Kind::TextDelta
        } else if k == "response.reasoning_summary_text.delta"@ || k
            == "response.reasoning_text.delta"@ {
            Kind::ReasoningDelta
        } else if k == "response.reasoning_summary_part.added"@ {
            Kind::ReasoningPart
        } else if k == "response.output_item.done"@ {
            Kind::ItemDone
        } else if k == "response.completed"@ {
            Kind::Completed
        } else if k == "response.failed"@ || k == "response.incomplete"@ {
            Kind::Failed
        } else if k == "error"@ {
            Kind::Error
        } else {
            Kind::Other
        },
        None => Kind::Other,
    }
}

fn event_kind(kind: &Option<String>) -> (r: Kind)
    ensures
        r == kind_of(opt_view(*kind)),
{
    match kind {
        Some(name) => {
            let k = name.as_str();
            if same_str(k, "response.output_text.delta") {
                Kind::TextDelta
            } else if same_str(k, "response.reasoning_summary_text.delta") || same_str(
                k,
                "response.reasoning_text.delta",
            ) {
                Kind::ReasoningDelta
            } else if same_str(k, "response.reasoning_summary_part.added") {
                Kind::ReasoningPart
            } else if same_str(k, "response.output_item.done") {
                Kind::ItemDone
            } else if same_str(k, "response.completed") {
                Kind::Completed
            } else if same_str(k, "response.failed") || same_str(k, "response.incomplete") {
                Kind::Failed
            } else if same_str(k, "error") {
                Kind::Error
            } else {
                Kind::Other
            }
        },
        None => Kind::Other,
    }
}

/// What a line of the stream asks for.
pub enum Step {
    /// Nothing; read on.
    Skip,
    /// Report the event, then read on.
    Send(ChatEvent),
    /// The turn is over.
    End,
    /// The turn failed; report the event.
    Fail(ChatEvent),
}

pub enum StepData {
    Skip,
    Send(EventData),
    End,
    Fail(EventData),
}

impl View for Step {
    type V = StepData;

    open spec fn view(&self) -> StepData {
        match self {
            Step::Skip => StepData::Skip,
            Step::Send(e) => StepData::Send(e@),
            Step::End => StepData::End,
            Step::Fail(e) => StepData::Fail(e@),
        }
    }
}

/// What one turn of the model has brought so far.
pub struct Turn {
    /// The calls that the model asked for.
    pub calls: Vec<ToolCall>,
    /// Whether any reasoning has been reported.
    pub reasoning_seen: bool,
}

pub struct TurnData {
    pub calls: Seq<CallData>,
    pub reasoning_seen: bool,
}

impl View for Turn {
    type V = TurnData;

    open spec fn view(&self) -> TurnData {
        TurnData { calls: call_views(self.calls@), reasoning_seen: self.reasoning_seen }
    }
}

/// A turn of which nothing has been read.
pub open spec fn new_turn() -> TurnData {
    TurnData { calls: seq![], reasoning_seen: false }
}

/// What is reported of a response that failed or is incomplete.
pub open spec fn failure_message(c: ChunkData) -> Seq<char> {
    match c.error {
        Some(m) => m,
        None => match c.reason {
            Some(reason) => "Response incomplete: "@ + reason,
            None => "The response did not complete"@,
        },
    }
}

/// What an event does to a turn.
pub open spec fn on_chunk(turn: TurnData, c: ChunkData) -> (TurnData, StepData) {
    match kind_of(c.kind) {
        Kind::TextDelta => match c.delta {
            Some(d) => (turn, StepData::Send(EventData::Delta(d))),
            None => (turn, StepData::Skip),
        },
        Kind::ReasoningDelta => match c.delta {
            Some(d) => (
                TurnData { calls: turn.calls, reasoning_seen: true },
                StepData::Send(EventData::Reasoning(d)),
            ),
            None => (turn, StepData::Skip),
        },
        // A new part is set apart from the reasoning before it.
        Kind::ReasoningPart => if turn.reasoning_seen {
            (turn, StepData::Send(EventData::Reasoning("\n\n"@)))
        } else {
            (turn, StepData::Skip)
        },
        Kind::ItemDone => match c.call {
            Some(call) => (
                TurnData { calls: turn.calls.push(call), reasoning_seen: turn.reasoning_seen },
                StepData::Skip,
            ),
            None => (turn, StepData::Skip),
        },
        Kind::Completed => (turn, StepData::End),
        Kind::Failed => (turn, StepData::Fail(EventData::Error(failure_message(c)))),
        Kind::Error => (
            turn,
            StepData::Fail(EventData::Error(or_else(c.message, "Stream error"@))),
        ),
        Kind::Other => (turn, StepData::Skip),
    }
}

/// The data of a line of the stream: what stands behind `data:` and any
/// whitespace.
pub open spec fn data_of(line: Seq<char>) -> Option<Seq<char>> {
    if starts(line, "data:"@) {
        Some(trim_start(line.skip(5)))
    } else {
        None
    }
}

/// What a line of the stream does to a turn. Lines without data, and data that
/// is no JSON document, are passed over; a bare `[DONE]` ends the turn.
pub open spec fn on_line(turn: TurnData, line: Seq<char>) -> (TurnData, StepData) {
    match data_of(line) {
        Some(data) => if data == "[DONE]"@ {
            (turn, StepData::End)
        } else {
            match json_parse(data) {
                Ok(t) => on_chunk(turn, chunk_of(t)),
                Err(_) => (turn, StepData::Skip),
            }
        },
        None => (turn, StepData::Skip),
    }
}

/// The data of a line of the stream.
pub fn line_data(line: &str) -> (r: Option<String>)
    ensures
        opt_view(r) == data_of(line@),
{
    proof {
        reveal_strlit("data:");
    }
    let v = chars_of(line);
    let prefix = chars_of("data:");
    match strip_prefix(v.as_slice(), prefix.as_slice()) {
        Some(rest) => Some(string_of(trimmed_start(rest))),
        None => None,
    }
}

fn failure(c: &Chunk) -> (r: String)
    ensures
        r@ == failure_message(c@),
{
    match &c.error {
        Some(m) => m.clone(),
        None => match &c.reason {
            Some(reason) => {
                let mut out = "Response incomplete: ".to_owned();
                out.append(reason.as_str());
                out
            },
            None => "The response did not complete".to_owned(),
        },
    }
}

impl Turn {
    /// A turn of which nothing has been read.
    pub fn new() -> (r: Turn)
        ensures
            r@ == new_turn(),
    {
        let r = Turn { calls: Vec::new(), reasoning_seen: false };
        assert(r@.calls =~= new_turn().calls);
        r
    }

    /// Take in one event.
    pub fn feed(&mut self, c: &Chunk) -> (r: Step)
        ensures
            (final(self)@, r@) == on_chunk(old(self)@, c@),
    {
        match event_kind(&c.kind) {
            Kind::TextDelta => match &c.delta {
                Some(d) => Step::Send(ChatEvent::Delta(d.clone())),
                None => Step::Skip,
            },
            Kind::ReasoningDelta => match &c.delta {
                Some(d) => {
                    self.reasoning_seen = true;
                    Step::Send(ChatEvent::Reasoning(d.clone()))
                },
                None => Step::Skip,
            },
            Kind::ReasoningPart => if self.reasoning_seen {
                Step::Send(ChatEvent::Reasoning("\n\n".to_owned()))
            } else {
                Step::Skip
            },
            Kind::ItemDone => match &c.call {
                Some(call) => {
                    let copy = copy_call(call);
                    self.calls.push(copy);
                    assert(self@.calls =~= old(self)@.calls.push(call@));
                    Step::Skip
                },
                None => Step::Skip,
            },
            Kind::Completed => Step::End,
            Kind::Failed => Step::Fail(ChatEvent::Error(failure(c))),
            Kind::Error => Step::Fail(
                ChatEvent::Error(
                    match &c.message {
                        Some(m) => m.clone(),
                        None => "Stream error".to_owned(),
                    },
                ),
            ),
            Kind::Other => Step::Skip,
        }
    }

    /// Take in one line of the stream.
    pub fn feed_line(&mut self, line: &str) -> (r: Step)
        ensures
            (final(self)@, r@) == on_line(old(self)@, line@),
    {
        match line_data(line) {
            Some(data) => if same_str(data.as_str(), "[DONE]") {
                Step::End
            } else {
                match parse_chunk(data.as_str()) {
                    Some(c) => self.feed(&c),
                    None => Step::Skip,
                }
            },
            None => Step::Skip,
        }
    }
}

/// What happens while a reply arrives.
pub enum Arrival {
    /// A line of the stream.
    Line(String),
    /// The stream could not be read on.
    Interrupted(String),
    /// The stream is at its end.
    Ended,
    /// Nobody listens any more: the last report was not taken.
    Unheard,
}

/// What an arrival does to a turn.
pub open spec fn on_arrival(turn: TurnData, a: Arrival) -> (TurnData, StepData) {
    match a {
        Arrival::Line(line) => on_line(turn, line@),
        Arrival::Interrupted(err) => (
            turn,
            StepData::Fail(EventData::Error("Stream interrupted: "@ + err@)),
        ),
        Arrival::Ended => (
            turn,
            StepData::Fail(EventData::Error("The stream ended unexpectedly"@)),
        ),
        Arrival::Unheard => (turn, StepData::Fail(EventData::Done)),
    }
}

impl Turn {
    /// Take in what happens next. A stream that breaks off is an error; one that
    /// nobody listens to is over.
    pub fn advance(&mut self, a: Arrival) -> (r: Step)
        ensures
            (final(self)@, r@) == on_arrival(old(self)@, a),
    {
        match a {
            Arrival::Line(line) => self.feed_line(line.as_str()),
            Arrival::Interrupted(err) => Step::Fail(stream_interrupted(err.as_str())),
            Arrival::Ended => Step::Fail(stream_ended()),
            Arrival::Unheard => Step::Fail(ChatEvent::Done),
        }
    }
}

/// How a turn with the given calls ended.
pub open spec fn outcome_of(calls: Seq<CallData>) -> OutcomeData {
    if calls.len() == 0 {
        OutcomeData::Completed
    } else {
        OutcomeData::ToolCalls(calls)
    }
}

/// A turn with no collected calls is the final answer; otherwise its calls run.
pub fn turn_outcome(calls: Vec<ToolCall>) -> (r: TurnOutcome)
    ensures
        r@ == outcome_of(call_views(calls@)),
{
    if calls.len() == 0 {
        TurnOutcome::Completed
    } else {
        TurnOutcome::ToolCalls(calls)
    }
}

/// What is reported when the stream ends without a terminal event.
pub fn stream_ended() -> (r: ChatEvent)
    ensures
        r@ == EventData::Error("The stream ended unexpectedly"@),
{
    ChatEvent::Error("The stream ended unexpectedly".to_owned())
}

/// What is reported when the stream cannot be read.
pub fn stream_interrupted(err: &str) -> (r: ChatEvent)
    ensures
        r@ == EventData::Error("Stream interrupted: "@ + err@),
{
    let mut m = "Stream interrupted: ".to_owned();
    m.append(err);
    ChatEvent::Error(m)
}

/// What a whole stream reports, and how its turn ends.
pub struct TurnRun {
    pub events: Seq<EventData>,
    pub result: Result<OutcomeData, EventData>,
}

/// The run of a turn over the lines that are left. What follows the end of the
/// turn is not read.
pub open spec fn turn_run(turn: TurnData, lines: Seq<Seq<char>>) -> TurnRun
    decreases lines.len(),
{
    if lines.len() == 0 {
        TurnRun {
            events: seq![],
            result: Err(EventData::Error("The stream ended unexpectedly"@)),
        }
    } else {
        let (next, s) = on_line(turn, lines[0]);
        match s {
            StepData::Skip => turn_run(next, lines.drop_first()),
            StepData::Send(e) => {
                let rest = turn_run(next, lines.drop_first());
                TurnRun { events: seq![e] + rest.events, result: rest.result }
            },
            StepData::End => TurnRun { events: seq![], result: Ok(outcome_of(next.calls)) },
            StepData::Fail(e) => TurnRun { events: seq![], result: Err(e) },
        }
    }
}

/// What a turn reports and how it ends, in views.
pub open spec fn run_view(
    events: Seq<ChatEvent>,
    result: Result<TurnOutcome, ChatEvent>,
) -> TurnRun {
    TurnRun {
        events: event_views(events),
        result: match result {
            Ok(o) => Ok(o@),
            Err(e) => Err(e@),
        },
    }
}

/// Run one turn over the lines of its whole stream: what it reports along the
/// way, and how it ends.
pub fn run_turn(lines: &Vec<String>) -> (r: (Vec<ChatEvent>, Result<TurnOutcome, ChatEvent>))
    ensures
        run_view(r.0@, r.1) == turn_run(new_turn(), views(lines@)),
{
    let mut turn = Turn::new();
    let mut events: Vec<ChatEvent> = Vec::new();
    let mut i: usize = 0;
    let ghost all = views(lines@);
    proof {
        assert(all.skip(0) =~= all);
        let run = turn_run(new_turn(), all);
        assert(event_views(events@) + run.events =~= run.events);
    }
    while i < lines.len()
        invariant
            i <= lines@.len(),
            all == views(lines@),
            ({
                let rest = turn_run(turn@, all.skip(i as int));
                let run = turn_run(new_turn(), all);
                run.events == event_views(events@) + rest.events && run.result == rest.result
            }),
        decreases lines@.len() - i,
    {
        let ghost rest = all.skip(i as int);
        let ghost sent = event_views(events@);
        proof {
            assert(rest[0] == lines@[i as int]@);
            assert(rest.drop_first() =~= all.skip(i + 1));
        }
        match turn.feed_line(lines[i].as_str()) {
            Step::Skip => {},
            Step::Send(e) => {
                events.push(e);
                proof {
                    assert(event_views(events@) =~= sent.push(e@));
                    let more = turn_run(turn@, all.skip(i + 1)).events;
                    assert(sent + (seq![e@] + more) =~= event_views(events@) + more);
                }
            },
            Step::End => {
                proof {
                    assert(sent + Seq::<EventData>::empty() =~= sent);
                }
                return (events, Ok(turn_outcome(turn.calls)));
            },
            Step::Fail(e) => {
                proof {
                    assert(sent + Seq::<EventData>::empty() =~= sent);
                }
                return (events, Err(e));
            },
        }
        i = i + 1;
    }
    proof {
        assert(event_views(events@) + Seq::<EventData>::empty() =~= event_views(events@));
    }
    (events, Err(stream_ended()))
}

// ---------------------------------------------------------------------------
// Laws
// ---------------------------------------------------------------------------

/// The members of a request can be read back from it.
pub proof fn law_request_carries_the_conversation(
    model: Seq<char>,
    items: Seq<ItemData>,
    tools: Seq<Tool>,
)
    ensures
        ({
            let t = request_tree(model, items, tools);
            &&& text_at(t, "model"@) == Some(model)
            &&& member(t, "input"@) == Json::Array(item_trees(items))
            &&& member(t, "stream"@) == Json::Bool(true)
            &&& member(t, "store"@) == Json::Bool(false)
            &&& tools.len() > 0 ==> member(t, "tools"@) == Json::Array(tool_trees(tools))
            &&& tools.len() == 0 ==> member(t, "tools"@) == Json::Null
        }),
{
    reveal_strlit("model");
    reveal_strlit("input");
    reveal_strlit("stream");
    reveal_strlit("store");
    reveal_strlit("tools");
    assert("model"@[0] != "input"@[0] && "model"@[0] != "stream"@[0] && "model"@[0] != "store"@[0]
        && "model"@[0] != "tools"@[0]);
    assert("input"@[0] != "stream"@[0] && "input"@[0] != "store"@[0] && "input"@[0] != "tools"@[0]);
    assert("stream"@.len() != "store"@.len());
    assert("stream"@[0] != "tools"@[0] && "store"@[0] != "tools"@[0]);
}

proof fn lemma_item_keys()
    ensures
        "role"@ != "content"@,
        "type"@ != "role"@,
        "type"@ != "content"@,
        "type"@ != "call_id"@,
        "type"@ != "name"@,
        "type"@ != "arguments"@,
        "type"@ != "output"@,
        "type"@ != "text"@,
        "type"@ != "image_url"@,
        "call_id"@ != "name"@,
        "call_id"@ != "arguments"@,
        "call_id"@ != "output"@,
        "name"@ != "arguments"@,
        "role"@ != "call_id"@,
        "role"@ != "name"@,
        "role"@ != "arguments"@,
        "role"@ != "output"@,
        "function_call"@ != "function_call_output"@,
        "system"@ != "user"@,
        "system"@ != "assistant"@,
        "user"@ != "assistant"@,
{
    reveal_strlit("role");
    reveal_strlit("content");
    reveal_strlit("type");
    reveal_strlit("call_id");
    reveal_strlit("name");
    reveal_strlit("arguments");
    reveal_strlit("output");
    reveal_strlit("text");
    reveal_strlit("image_url");
    reveal_strlit("function_call");
    reveal_strlit("function_call_output");
    reveal_strlit("system");
    reveal_strlit("user");
    reveal_strlit("assistant");
    assert("type"@[1] != "text"@[1]);
    assert("type"@[0] != "role"@[0] && "type"@[0] != "name"@[0] && "role"@[0] != "name"@[0]);
    assert("call_id"@.len() == 7 && "arguments"@.len() == 9 && "output"@.len() == 6);
    assert("content"@.len() == 7 && "image_url"@.len() == 9);
    assert("system"@.len() == 6 && "user"@.len() == 4 && "assistant"@.len() == 9);
    assert("function_call"@.len() == 13 && "function_call_output"@.len() == 20);
}

/// What a part of a message carries can be read back from it.
proof fn lemma_parts(text: Seq<char>, url: Seq<char>)
    ensures
        text_at(input_text_tree(text), "text"@) == Some(text),
        text_at(image_tree(url), "image_url"@) == Some(url),
{
    lemma_item_keys();
}

proof fn lemma_content_injective(a: ContentData, b: ContentData)
    requires
        content_tree(a) == content_tree(b),
    ensures
        a == b,
{
    match (a, b) {
        (ContentData::Parts(x, xs), ContentData::Parts(y, ys)) => {
            let p = content_tree(a)->Array_0;
            let q = content_tree(b)->Array_0;
            assert(p[0] == q[0]);
            lemma_parts(x, x);
            lemma_parts(y, y);
            assert(p.len() == q.len());
            assert forall|i: int| 0 <= i < xs.len() implies xs[i] == ys[i] by {
                assert(p[i + 1] == q[i + 1]);
                lemma_parts(x, xs[i]);
                lemma_parts(y, ys[i]);
            }
            assert(xs =~= ys);
        },
        _ => {},
    }
}

/// What an item carries can be read back from it.
proof fn lemma_item_members(d: ItemData)
    ensures
        ({
            let t = item_tree(d);
            match d {
                ItemData::Message(r, c) => {
                    &&& member(t, "type"@) == Json::Null
                    &&& member(t, "role"@) == Json::Text(role_text(r))
                    &&& member(t, "content"@) == content_tree(c)
                },
                ItemData::FunctionCall(c) => {
                    &&& member(t, "type"@) == Json::Text("function_call"@)
                    &&& member(t, "call_id"@) == Json::Text(c.call_id)
                    &&& member(t, "name"@) == Json::Text(c.name)
                    &&& member(t, "arguments"@) == Json::Text(c.arguments)
                },
                ItemData::FunctionCallOutput(id, output) => {
                    &&& member(t, "type"@) == Json::Text("function_call_output"@)
                    &&& member(t, "call_id"@) == Json::Text(id)
                    &&& member(t, "output"@) == Json::Text(output)
                },
            }
        }),
{
    lemma_item_keys();
}

/// Different items are sent as different values: nothing of an item is lost on
/// the way to the model.
pub proof fn law_items_are_told_apart(a: ItemData, b: ItemData)
    requires
        item_tree(a) == item_tree(b),
    ensures
        a == b,
{
    lemma_item_keys();
    lemma_item_members(a);
    lemma_item_members(b);
    match (a, b) {
        (ItemData::Message(r, x), ItemData::Message(q, y)) => {
            assert(role_text(r) == role_text(q));
            lemma_content_injective(x, y);
        },
        _ => {},
    }
}

/// Requests that read alike carry the same conversation to the same model:
/// nothing of it is lost on the way.
pub proof fn law_requests_are_told_apart(
    text: Seq<char>,
    a: (Seq<char>, Seq<ItemData>, Seq<Tool>),
    b: (Seq<char>, Seq<ItemData>, Seq<Tool>),
)
    requires
        reads_as(text, request_tree(a.0, a.1, a.2)),
        reads_as(text, request_tree(b.0, b.1, b.2)),
    ensures
        a.0 == b.0,
        a.1 == b.1,
{
    law_request_carries_the_conversation(a.0, a.1, a.2);
    law_request_carries_the_conversation(b.0, b.1, b.2);
    let x = item_trees(a.1);
    let y = item_trees(b.1);
    assert(x == y);
    assert(a.1.len() == x.len() && b.1.len() == y.len());
    assert forall|i: int| 0 <= i < a.1.len() implies a.1[i] == b.1[i] by {
        assert(x[i] == item_tree(a.1[i]));
        assert(y[i] == item_tree(b.1[i]));
        law_items_are_told_apart(a.1[i], b.1[i]);
    }
    assert(a.1 =~= b.1);
}

/// Whether one of the lines ends the turn.
pub open spec fn ends_turn(turn: TurnData, lines: Seq<Seq<char>>) -> bool
    decreases lines.len(),
{
    if lines.len() == 0 {
        false
    } else {
        let (next, s) = on_line(turn, lines[0]);
        s is End || s is Fail || ends_turn(next, lines.drop_first())
    }
}

/// A stream that is cut off before a line that ends the turn is reported as an
/// error.
pub proof fn law_cut_stream_is_an_error(turn: TurnData, lines: Seq<Seq<char>>)
    requires
        !ends_turn(turn, lines),
    ensures
        turn_run(turn, lines).result == Err::<OutcomeData, EventData>(
            EventData::Error("The stream ended unexpectedly"@),
        ),
    decreases lines.len(),
{
    if lines.len() > 0 {
        law_cut_stream_is_an_error(on_line(turn, lines[0]).0, lines.drop_first());
    }
}

/// What stands behind the end of a turn changes nothing.
pub proof fn law_turn_stops_at_its_end(
    turn: TurnData,
    lines: Seq<Seq<char>>,
    more: Seq<Seq<char>>,
)
    requires
        ends_turn(turn, lines),
    ensures
        turn_run(turn, lines + more) == turn_run(turn, lines),
    decreases lines.len(),
{
    let all = lines + more;
    let (next, s) = on_line(turn, lines[0]);
    assert(all[0] == lines[0]);
    assert(all.drop_first() =~= lines.drop_first() + more);
    if s is Skip || s is Send {
        law_turn_stops_at_its_end(next, lines.drop_first(), more);
    }
}

/// Whether an event says nothing to a turn: its type is none of those that matter,
/// or it lacks what its type is there to bring.
pub open spec fn is_idle(c: ChunkData) -> bool {
    match kind_of(c.kind) {
        Kind::Other => true,
        Kind::TextDelta => c.delta is None,
        Kind::ReasoningDelta => c.delta is None,
        Kind::ItemDone => c.call is None,
        _ => false,
    }
}

/// Whether a line says nothing to a turn: it brings no data, as comments and blank
/// lines do, or data that is no JSON document and not the end mark, or an event
/// that says nothing.
pub open spec fn says_nothing(line: Seq<char>) -> bool {
    match data_of(line) {
        None => true,
        Some(data) => data != "[DONE]"@ && (json_parse(data) matches Ok(t) ==> is_idle(
            chunk_of(t),
        )),
    }
}

/// Lines that say nothing to a turn change nothing, wherever they stand.
pub proof fn law_other_lines_are_passed_over(
    turn: TurnData,
    before: Seq<Seq<char>>,
    line: Seq<char>,
    rest: Seq<Seq<char>>,
)
    requires
        says_nothing(line),
    ensures
        turn_run(turn, before + seq![line] + rest) == turn_run(turn, before + rest),
    decreases before.len(),
{
    let all = before + seq![line] + rest;
    let kept = before + rest;
    if before.len() == 0 {
        assert(all[0] == line);
        assert(all.drop_first() =~= rest);
        assert(kept =~= rest);
    } else {
        assert(all[0] == before[0] && kept[0] == before[0]);
        assert(all.drop_first() =~= before.drop_first() + seq![line] + rest);
        assert(kept.drop_first() =~= before.drop_first() + rest);
        law_other_lines_are_passed_over(
            on_line(turn, before[0]).0,
            before.drop_first(),
            line,
            rest,
        );
    }
}

/// A line adds to the answer only by a text delta, and reasoning never does.
pub proof fn law_reasoning_is_kept_apart(turn: TurnData, c: ChunkData)
    ensures
        on_chunk(turn, c).1 matches StepData::Send(EventData::Delta(d)) ==> kind_of(c.kind)
            is TextDelta && c.delta == Some(d),
        kind_of(c.kind) is ReasoningDelta ==> !(on_chunk(turn, c).1 matches StepData::Send(
            EventData::Delta(_),
        )),
        on_chunk(turn, c).1 matches StepData::Send(e) ==> e is Delta || e is Reasoning,
{
}

/// A turn never forgets a call, and takes one in from every finished item that is a
/// call, behind those before it, and from nothing else.
pub proof fn law_calls_accumulate(turn: TurnData, c: ChunkData)
    ensures
        c.kind == Some("response.output_item.done"@) && c.call is Some ==> on_chunk(
            turn,
            c,
        ).0.calls == turn.calls.push(c.call->0),
        c.kind != Some("response.output_item.done"@) || c.call is None ==> on_chunk(
            turn,
            c,
        ).0.calls == turn.calls,
{
    reveal_strlit("response.output_text.delta");
    reveal_strlit("response.reasoning_summary_text.delta");
    reveal_strlit("response.reasoning_text.delta");
    reveal_strlit("response.reasoning_summary_part.added");
    reveal_strlit("response.output_item.done");
    assert("response.output_item.done"@.len() == 25);
    assert("response.output_text.delta"@.len() == 26);
    assert("response.reasoning_summary_text.delta"@.len() == 37);
    assert("response.reasoning_text.delta"@.len() == 29);
    assert("response.reasoning_summary_part.added"@.len() == 37);
}

} // verus!
