//! The tools that the model may call, and how they are described to it.

use crate::json::{
    array_value, bool_value, json_parse, object_value, parse_value, set_member, shallow,
    text_value, trees, value_tree, Json,
};
use crate::text::{chars_of, opt_view, same_str};
use serde_json::Value;
use vstd::prelude::*;

verus! {

/// One named argument of a tool. All arguments are strings.
pub struct Param {
    pub name: String,
    pub description: Option<String>,
    pub required: bool,
}

/// A tool: its name, what it does, and the arguments it takes.
pub struct Tool {
    pub name: String,
    pub description: String,
    pub params: Vec<Param>,
}

/// What an argument says of itself.
pub struct ParamData {
    pub name: Seq<char>,
    pub description: Option<Seq<char>>,
    pub required: bool,
}

/// What a tool says of itself.
pub struct ToolData {
    pub name: Seq<char>,
    pub description: Seq<char>,
    pub params: Seq<ParamData>,
}

impl View for Param {
    type V = ParamData;

    open spec fn view(&self) -> ParamData {
        ParamData {
            name: self.name@,
            description: opt_view(self.description),
            required: self.required,
        }
    }
}

impl View for Tool {
    type V = ToolData;

    open spec fn view(&self) -> ToolData {
        ToolData {
            name: self.name@,
            description: self.description@,
            params: Seq::new(self.params@.len(), |i: int| self.params@[i]@),
        }
    }
}

pub open spec fn tool_views(v: Seq<Tool>) -> Seq<ToolData> {
    Seq::new(v.len(), |i: int| v[i]@)
}

/// The tools that are offered to the model in one conversation.
pub struct ToolRegistry {
    pub tools: Vec<Tool>,
}

// ---------------------------------------------------------------------------
// Descriptions
// ---------------------------------------------------------------------------

/// An object with one member.
pub open spec fn single(key: Seq<char>, t: Json) -> Map<Seq<char>, Json> {
    Map::empty().insert(key, t)
}

/// The schema of one argument.
pub open spec fn param_tree(p: Param) -> Json {
    let kind = single("type"@, Json::Text("string"@));
    match p.description {
        Some(d) => Json::Object(kind.insert("description"@, Json::Text(d@))),
        None => Json::Object(kind),
    }
}

/// The schemas of all arguments, by name.
pub open spec fn properties(params: Seq<Param>) -> Map<Seq<char>, Json>
    decreases params.len(),
{
    if params.len() == 0 {
        Map::empty()
    } else {
        properties(params.drop_last()).insert(params.last().name@, param_tree(params.last()))
    }
}

/// The names of the arguments that must be given, in order.
pub open spec fn required(params: Seq<Param>) -> Seq<Json>
    decreases params.len(),
{
    if params.len() == 0 {
        seq![]
    } else if params.last().required {
        required(params.drop_last()).push(Json::Text(params.last().name@))
    } else {
        required(params.drop_last())
    }
}

/// The schema of the arguments: an object that allows no other members.
pub open spec fn schema_tree(params: Seq<Param>) -> Json {
    let m = single("type"@, Json::Text("object"@)).insert(
        "properties"@,
        Json::Object(properties(params)),
    ).insert("additionalProperties"@, Json::Bool(false));
    if required(params).len() > 0 {
        Json::Object(m.insert("required"@, Json::Array(required(params))))
    } else {
        Json::Object(m)
    }
}

/// The definition of a tool.
pub open spec fn tool_tree(t: Tool) -> Json {
    Json::Object(
        single("type"@, Json::Text("function"@)).insert("name"@, Json::Text(t.name@)).insert(
            "description"@,
            Json::Text(t.description@),
        ).insert("parameters"@, schema_tree(t.params@)),
    )
}

/// The definitions of a list of tools.
pub open spec fn tool_trees(tools: Seq<Tool>) -> Seq<Json> {
    Seq::new(tools.len(), |i: int| tool_tree(tools[i]))
}

fn param_value(p: &Param) -> (r: Value)
    ensures
        value_tree(r) == param_tree(*p),
{
    let mut v = object_value();
    set_member(&mut v, "type", text_value("string"));
    match &p.description {
        Some(d) => {
            set_member(&mut v, "description", text_value(d.as_str()));
        },
        None => {},
    }
    v
}

fn properties_value(params: &Vec<Param>) -> (r: Value)
    ensures
        value_tree(r) == Json::Object(properties(params@)),
{
    let mut v = object_value();
    let mut i: usize = 0;
    while i < params.len()
        invariant
            i <= params@.len(),
            value_tree(v) == Json::Object(properties(params@.take(i as int))),
        decreases params@.len() - i,
    {
        set_member(&mut v, params[i].name.as_str(), param_value(&params[i]));
        i = i + 1;
        proof {
            assert(params@.take(i as int).drop_last() =~= params@.take(i - 1));
        }
    }
    proof {
        assert(params@.take(i as int) =~= params@);
    }
    v
}

fn required_values(params: &Vec<Param>) -> (r: Vec<Value>)
    ensures
        trees(r@) == required(params@),
{
    let mut out: Vec<Value> = Vec::new();
    let mut i: usize = 0;
    proof {
        assert(trees(out@) =~= required(params@.take(0)));
    }
    while i < params.len()
        invariant
            i <= params@.len(),
            trees(out@) == required(params@.take(i as int)),
        decreases params@.len() - i,
    {
        let ghost before = trees(out@);
        proof {
            assert(params@.take(i + 1).drop_last() =~= params@.take(i as int));
        }
        if params[i].required {
            out.push(text_value(params[i].name.as_str()));
            assert(trees(out@) =~= before.push(Json::Text(params@[i as int].name@)));
        }
        i = i + 1;
    }
    proof {
        assert(params@.take(i as int) =~= params@);
    }
    out
}

fn schema_value(params: &Vec<Param>) -> (r: Value)
    ensures
        value_tree(r) == schema_tree(params@),
{
    let mut v = object_value();
    set_member(&mut v, "type", text_value("object"));
    set_member(&mut v, "properties", properties_value(params));
    set_member(&mut v, "additionalProperties", bool_value(false));
    let names = required_values(params);
    let ghost listed = trees(names@);
    if names.len() > 0 {
        set_member(&mut v, "required", array_value(names));
    }
    assert(listed.len() == required(params@).len());
    v
}

/// The definition of a tool as a JSON value.
fn tool_value(t: &Tool) -> (r: Value)
    ensures
        value_tree(r) == tool_tree(*t),
{
    let mut v = object_value();
    set_member(&mut v, "type", text_value("function"));
    set_member(&mut v, "name", text_value(t.name.as_str()));
    set_member(&mut v, "description", text_value(t.description.as_str()));
    set_member(&mut v, "parameters", schema_value(&t.params));
    v
}

/// Tool definitions nest three levels deep.
pub proof fn lemma_tool_shallow(t: Tool)
    ensures
        shallow(tool_tree(t), 4),
{
    reveal_with_fuel(shallow, 5);
    lemma_properties_shallow(t.params@);
    lemma_required_texts(t.params@);
    assert(shallow(Json::Object(properties(t.params@)), 2));
    assert(shallow(Json::Array(required(t.params@)), 2));
    assert(shallow(schema_tree(t.params@), 3));
}

proof fn lemma_properties_shallow(params: Seq<Param>)
    ensures
        forall|k: Seq<char>|
            properties(params).contains_key(k) ==> shallow(#[trigger] properties(params)[k], 1),
    decreases params.len(),
{
    reveal_with_fuel(shallow, 3);
    if params.len() > 0 {
        lemma_properties_shallow(params.drop_last());
        assert(shallow(param_tree(params.last()), 1));
        let before = properties(params.drop_last());
        let all = properties(params);
        assert forall|k: Seq<char>| all.contains_key(k) implies shallow(#[trigger] all[k], 1) by {
            if k != params.last().name@ {
                assert(before.contains_key(k) && all[k] == before[k]);
            }
        }
    }
}

proof fn lemma_required_texts(params: Seq<Param>)
    ensures
        forall|i: int| 0 <= i < required(params).len() ==> #[trigger] required(params)[i] is Text,
    decreases params.len(),
{
    if params.len() > 0 {
        lemma_required_texts(params.drop_last());
    }
}

impl ToolRegistry {
    /// A registry without tools.
    pub fn new() -> (r: ToolRegistry)
        ensures
            r.tools@.len() == 0,
    {
        ToolRegistry { tools: Vec::new() }
    }

    /// The definitions of the tools as a JSON array; nothing if there are none,
    /// so that no tool calling is advertised at all.
    pub(crate) fn definitions(&self) -> (r: Option<Value>)
        ensures
            match r {
                Some(v) => self.tools@.len() > 0 && value_tree(v) == Json::Array(
                    tool_trees(self.tools@),
                ),
                None => self.tools@.len() == 0,
            },
    {
        if self.tools.len() == 0 {
            return None;
        }
        let mut out: Vec<Value> = Vec::new();
        let mut i: usize = 0;
        while i < self.tools.len()
            invariant
                i <= self.tools@.len(),
                out@.len() == i,
                forall|j: int| 0 <= j < i ==> value_tree(out@[j]) == tool_tree(self.tools@[j]),
            decreases self.tools@.len() - i,
        {
            out.push(tool_value(&self.tools[i]));
            i = i + 1;
        }
        assert(trees(out@) =~= tool_trees(self.tools@));
        Some(array_value(out))
    }

    /// The position of the tool with the given name.
    pub fn find(&self, name: &str) -> (r: Option<usize>)
        ensures
            match r {
                Some(i) => i < self.tools@.len() && self.tools@[i as int].name@ == name@ && forall|
                    j: int,
                |
                    0 <= j < i ==> (#[trigger] self.tools@[j]).name@ != name@,
                None => forall|j: int|
                    0 <= j < self.tools@.len() ==> (#[trigger] self.tools@[j]).name@ != name@,
            },
    {
        let mut i: usize = 0;
        while i < self.tools.len()
            invariant
                i <= self.tools@.len(),
                forall|j: int| 0 <= j < i ==> (#[trigger] self.tools@[j]).name@ != name@,
            decreases self.tools@.len() - i,
        {
            if same_str(self.tools[i].name.as_str(), name) {
                return Some(i);
            }
            i = i + 1;
        }
        None
    }
}

// ---------------------------------------------------------------------------
// Arguments
// ---------------------------------------------------------------------------

/// What is wrong with the arguments of a call, where they are no JSON document.
pub open spec fn malformed(arguments: Seq<char>) -> Option<Seq<char>> {
    match json_parse(arguments) {
        Ok(_) => None,
        Err(e) => Some("malformed arguments: "@ + e),
    }
}

/// Read the arguments of a call.
pub(crate) fn read_arguments(arguments: &str) -> (r: Result<Value, String>)
    ensures
        match (json_parse(arguments@), r) {
            (Ok(t), Ok(v)) => value_tree(v) == t,
            (Err(e), Err(m)) => m@ == "malformed arguments: "@ + e,
            _ => false,
        },
{
    match parse_value(arguments) {
        Ok(v) => Ok(v),
        Err(e) => {
            let mut out = "malformed arguments: ".to_owned();
            out.append(e.as_str());
            Err(out)
        },
    }
}

/// What is wrong with the arguments of a call, where they are no JSON document.
pub fn argument_error(arguments: &str) -> (r: Option<String>)
    ensures
        opt_view(r) == malformed(arguments@),
{
    match read_arguments(arguments) {
        Ok(_) => None,
        Err(e) => Some(e),
    }
}

// ---------------------------------------------------------------------------
// Output size
// ---------------------------------------------------------------------------

/// Number of bytes of a character in UTF-8.
pub open spec fn utf8_width(c: char) -> nat {
    let n = c as int;
    if n < 0x80 {
        1
    } else if n < 0x800 {
        2
    } else if n < 0x10000 {
        3
    } else {
        4
    }
}

/// Number of bytes of a text in UTF-8.
pub open spec fn byte_len(s: Seq<char>) -> nat
    decreases s.len(),
{
    if s.len() == 0 {
        0
    } else {
        byte_len(s.drop_last()) + utf8_width(s.last())
    }
}

/// The longest prefix of a text that takes at most `max` bytes.
pub open spec fn truncated(s: Seq<char>, max: nat) -> Seq<char>
    decreases s.len(),
{
    if byte_len(s) <= max || s.len() == 0 {
        s
    } else {
        truncated(s.drop_last(), max)
    }
}

/// A longer prefix takes more bytes.
proof fn lemma_byte_len_grows(s: Seq<char>, a: int, b: int)
    requires
        0 <= a <= b <= s.len(),
    ensures
        byte_len(s.take(a)) + (b - a) <= byte_len(s.take(b)),
    decreases b - a,
{
    if a < b {
        lemma_byte_len_grows(s, a, b - 1);
        assert(s.take(b).drop_last() =~= s.take(b - 1));
    }
}

proof fn lemma_truncated(s: Seq<char>, n: int, max: nat)
    requires
        0 <= n <= s.len(),
        byte_len(s.take(n)) <= max,
        n < s.len() ==> byte_len(s.take(n + 1)) > max,
    ensures
        truncated(s, max) == s.take(n),
    decreases s.len(),
{
    assert(s.take(s.len() as int) =~= s);
    if n < s.len() {
        lemma_byte_len_grows(s, n + 1, s.len() as int);
        let t = s.drop_last();
        assert(t.take(n) =~= s.take(n));
        if n < t.len() {
            assert(t.take(n + 1) =~= s.take(n + 1));
        }
        lemma_truncated(t, n, max);
    }
}

/// Truncated text is a prefix of the text, fits, and is the text itself where
/// that fits; one character more would not fit.
pub proof fn law_truncated_fits(s: Seq<char>, max: nat)
    ensures
        truncated(s, max).len() <= s.len(),
        truncated(s, max) == s.take(truncated(s, max).len() as int),
        byte_len(truncated(s, max)) <= max,
        byte_len(s) <= max ==> truncated(s, max) == s,
        truncated(s, max).len() < s.len() ==> byte_len(
            s.take((truncated(s, max).len() + 1) as int),
        ) > max,
    decreases s.len(),
{
    assert(s.take(s.len() as int) =~= s);
    if byte_len(s) > max && s.len() > 0 {
        let t = s.drop_last();
        law_truncated_fits(t, max);
        let n = truncated(s, max).len() as int;
        assert(t.take(n) =~= s.take(n));
        if n < t.len() {
            assert(t.take(n + 1) =~= s.take(n + 1));
        } else {
            assert(s.take(n + 1) =~= s);
        }
    }
}

fn width(c: char) -> (n: usize)
    ensures
        n == utf8_width(c),
{
    let code: u32 = c as u32;
    if code < 0x80 {
        1
    } else if code < 0x800 {
        2
    } else if code < 0x10000 {
        3
    } else {
        4
    }
}

/// Cut a text down to at most `max` bytes, at a character boundary.
pub fn truncate(out: &mut String, max: usize)
    ensures
        final(out)@ == truncated(old(out)@, max as nat),
{
    let v = chars_of(out.as_str());
    let mut kept = String::new();
    let mut used: usize = 0;
    let mut i: usize = 0;
    let ghost s = v@;
    while i < v.len()
        invariant
            i <= s.len(),
            v@ == s,
            s == old(out)@,
            out@ == old(out)@,
            kept@ == s.take(i as int),
            used == byte_len(s.take(i as int)),
            used <= max,
        decreases s.len() - i,
    {
        let w: usize = width(v[i]);
        proof {
            assert(s.take(i + 1).drop_last() =~= s.take(i as int));
        }
        if w > max - used {
            proof {
                lemma_truncated(s, i as int, max as nat);
            }
            *out = kept;
            return;
        }
        kept.push(v[i]);
        used = used + w;
        i = i + 1;
        assert(kept@ =~= s.take(i as int));
    }
    proof {
        assert(s.take(s.len() as int) =~= s);
        lemma_truncated(s, i as int, max as nat);
    }
}

} // verus!
