//! The request payload builder: a pure transformation from model identity,
//! system instruction, ordered message history and tool declarations to
//! the JSON request object, with the streaming flag forced on.  The
//! contract pins the whole structure: field order, message order, and the
//! rule that an empty tool list omits the `tools` field entirely.

use vstd::prelude::*;
use vstd::string::StringSliceAdditionalSpecFns;
use crate::json::JsonValue;
use crate::textutil::copy_bytes;

verus! {

/// One message of the conversation history.
pub struct ChatMessage {
    pub role: Vec<u8>,
    pub content: Vec<u8>,
}

/// One tool offered to the model: its name, its description, and its
/// parameter schema as a JSON document.
pub struct ToolDef {
    pub name: Vec<u8>,
    pub description: Vec<u8>,
    pub parameters: JsonValue,
}

/// A two-field object `{"role": role, "content": content}`.
pub open spec fn is_msg_obj(v: JsonValue, role: Seq<u8>, content: Seq<u8>) -> bool {
    &&& v matches JsonValue::Obj(fs)
    &&& fs@.len() == 2
    &&& fs@[0].0@ == ("role").spec_bytes()
    &&& fs@[0].1 matches JsonValue::Str(r) && r@ == role
    &&& fs@[1].0@ == ("content").spec_bytes()
    &&& fs@[1].1 matches JsonValue::Str(c) && c@ == content
}

/// A tool declaration in the wire shape the vendor expects:
/// `{"type": "function", "function": {"name", "description", "parameters"}}`.
pub open spec fn is_tool_obj(
    v: JsonValue,
    name: Seq<u8>,
    description: Seq<u8>,
    parameters: JsonValue,
) -> bool {
    &&& v matches JsonValue::Obj(fs)
    &&& fs@.len() == 2
    &&& fs@[0].0@ == ("type").spec_bytes()
    &&& fs@[0].1 matches JsonValue::Str(t) && t@ == ("function").spec_bytes()
    &&& fs@[1].0@ == ("function").spec_bytes()
    &&& fs@[1].1 matches JsonValue::Obj(f)
    &&& f@.len() == 3
    &&& f@[0].0@ == ("name").spec_bytes()
    &&& f@[0].1 matches JsonValue::Str(n) && n@ == name
    &&& f@[1].0@ == ("description").spec_bytes()
    &&& f@[1].1 matches JsonValue::Str(d) && d@ == description
    &&& f@[2].0@ == ("parameters").spec_bytes()
    &&& f@[2].1 == parameters
}

/// The whole request object: the streaming flag first and always true,
/// the model, the system instruction as the leading message followed by
/// the history verbatim in order, and the tools field only when there is
/// at least one tool.
pub open spec fn is_request_obj(
    v: JsonValue,
    model: Seq<u8>,
    system: Seq<u8>,
    messages: Seq<ChatMessage>,
    tools: Seq<ToolDef>,
) -> bool {
    &&& v matches JsonValue::Obj(fs)
    &&& fs@.len() == (if tools.len() == 0 {
        3int
    } else {
        4int
    })
    &&& fs@[0].0@ == ("stream").spec_bytes()
    &&& fs@[0].1 == JsonValue::Bool(true)
    &&& fs@[1].0@ == ("model").spec_bytes()
    &&& fs@[1].1 matches JsonValue::Str(m) && m@ == model
    &&& fs@[2].0@ == ("messages").spec_bytes()
    &&& fs@[2].1 matches JsonValue::Arr(a)
    &&& a@.len() == messages.len() + 1
    &&& is_msg_obj(a@[0], ("system").spec_bytes(), system)
    &&& forall|i: int|
        0 <= i < messages.len() ==> is_msg_obj(
            #[trigger] a@[i + 1],
            messages[i].role@,
            messages[i].content@,
        )
    &&& tools.len() > 0 ==> {
        &&& fs@[3].0@ == ("tools").spec_bytes()
        &&& fs@[3].1 matches JsonValue::Arr(ts)
        &&& ts@.len() == tools.len()
        &&& forall|j: int|
            0 <= j < tools.len() ==> is_tool_obj(
                #[trigger] ts@[j],
                tools[j].name@,
                tools[j].description@,
                tools[j].parameters,
            )
    }
}

/// A `{"role", "content"}` message object from owned parts.
fn msg_obj(role: Vec<u8>, content: Vec<u8>) -> (r: JsonValue)
    ensures
        is_msg_obj(r, role@, content@),
{
    let mut fs: Vec<(Vec<u8>, JsonValue)> = Vec::new();
    fs.push((copy_bytes("role".as_bytes()), JsonValue::Str(role)));
    fs.push((copy_bytes("content".as_bytes()), JsonValue::Str(content)));
    JsonValue::Obj(fs)
}

/// A tool declaration object from owned parts.
fn tool_obj(t: ToolDef) -> (r: JsonValue)
    ensures
        is_tool_obj(r, t.name@, t.description@, t.parameters),
{
    let ToolDef { name, description, parameters } = t;
    let mut inner: Vec<(Vec<u8>, JsonValue)> = Vec::new();
    inner.push((copy_bytes("name".as_bytes()), JsonValue::Str(name)));
    inner.push((copy_bytes("description".as_bytes()), JsonValue::Str(description)));
    inner.push((copy_bytes("parameters".as_bytes()), parameters));
    let mut fs: Vec<(Vec<u8>, JsonValue)> = Vec::new();
    fs.push((copy_bytes("type".as_bytes()), JsonValue::Str(copy_bytes("function".as_bytes()))));
    fs.push((copy_bytes("function".as_bytes()), JsonValue::Obj(inner)));
    JsonValue::Obj(fs)
}

/// Builds the request payload.  Deterministic in its inputs, order
/// preserving, streaming always on.
pub fn build_request(
    model: &[u8],
    system: &[u8],
    messages: Vec<ChatMessage>,
    tools: Vec<ToolDef>,
) -> (r: JsonValue)
    ensures
        is_request_obj(r, model@, system@, messages@, tools@),
{
    let ghost all_msgs = messages@;
    let ghost all_tools = tools@;
    let mut arr: Vec<JsonValue> = Vec::new();
    arr.push(msg_obj(copy_bytes("system".as_bytes()), copy_bytes(system)));
    let mut rest = messages;
    while rest.len() > 0
        invariant
            arr@.len() + rest@.len() == all_msgs.len() + 1,
            arr@.len() >= 1,
            is_msg_obj(arr@[0], ("system").spec_bytes(), system@),
            forall|i: int|
                0 <= i < arr@.len() - 1 ==> is_msg_obj(
                    #[trigger] arr@[i + 1],
                    all_msgs[i].role@,
                    all_msgs[i].content@,
                ),
            forall|j: int|
                0 <= j < rest@.len() ==> rest@[j] == all_msgs[arr@.len() - 1 + j],
        decreases rest@.len(),
    {
        let m = rest.remove(0);
        let ChatMessage { role, content } = m;
        arr.push(msg_obj(role, content));
    }
    let mut fs: Vec<(Vec<u8>, JsonValue)> = Vec::new();
    fs.push((copy_bytes("stream".as_bytes()), JsonValue::Bool(true)));
    fs.push((copy_bytes("model".as_bytes()), JsonValue::Str(copy_bytes(model))));
    fs.push((copy_bytes("messages".as_bytes()), JsonValue::Arr(arr)));
    if tools.len() > 0 {
        let mut ts: Vec<JsonValue> = Vec::new();
        let mut trest = tools;
        while trest.len() > 0
            invariant
                ts@.len() + trest@.len() == all_tools.len(),
                forall|j: int|
                    0 <= j < ts@.len() ==> is_tool_obj(
                        #[trigger] ts@[j],
                        all_tools[j].name@,
                        all_tools[j].description@,
                        all_tools[j].parameters,
                    ),
                forall|j: int|
                    0 <= j < trest@.len() ==> trest@[j] == all_tools[ts@.len() + j],
            decreases trest@.len(),
        {
            let t = trest.remove(0);
            ts.push(tool_obj(t));
        }
        fs.push((copy_bytes("tools".as_bytes()), JsonValue::Arr(ts)));
    }
    JsonValue::Obj(fs)
}

} // verus!
