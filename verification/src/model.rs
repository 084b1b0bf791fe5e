//! The mathematical model of the streaming pipeline: what one SSE line does
//! to the collector, how a parsed frame folds into the accumulator, and how
//! the accumulator finalizes into the caller-facing outcome.

use vstd::prelude::*;
use vstd::string::StringSliceAdditionalSpecFns;
use crate::json::{JsonValue, get_field, json_of};
use crate::textutil::{trim, is_prefix_of};

verus! {

/// Token counts as the vendor reports them.
#[derive(Debug, Clone, Copy, PartialEq, Eq, Structural)]
pub struct Usage {
    pub input_tokens: u64,
    pub output_tokens: u64,
    pub total_tokens: u64,
}

/// One tool-call fragment of a frame: the slot it belongs to and the
/// pieces it carries.
#[verifier::ext_equal]
pub struct ToolDeltaModel {
    pub index: u64,
    pub name: Option<Seq<u8>>,
    pub args: Option<Seq<u8>>,
}

/// One choice delta of a frame.
#[verifier::ext_equal]
pub struct ChoiceModel {
    pub role: Option<Seq<u8>>,
    pub content: Option<Seq<u8>>,
    pub tools: Seq<ToolDeltaModel>,
    pub finish: Option<Seq<u8>>,
}

/// One parsed stream frame: its deltas and, when present, a usage record.
#[verifier::ext_equal]
pub struct FrameModel {
    pub choices: Seq<ChoiceModel>,
    pub usage: Option<Usage>,
}

/// The string under `key`, when `v` binds `key` to a string.
pub open spec fn str_field(v: JsonValue, key: Seq<u8>) -> Option<Seq<u8>> {
    match get_field(v, key) {
        Some(JsonValue::Str(s)) => Some(s@),
        _ => None,
    }
}

/// The unsigned number under `key`, when `v` binds `key` to one.
pub open spec fn num_field(v: JsonValue, key: Seq<u8>) -> Option<u64> {
    match get_field(v, key) {
        Some(JsonValue::Num(n)) => n,
        _ => None,
    }
}

/// The tool-call fragment a JSON object describes.  A missing or
/// non-numeric index counts as slot zero.
pub open spec fn tool_delta_model(v: JsonValue) -> ToolDeltaModel {
    let f = get_field(v, ("function").spec_bytes());
    ToolDeltaModel {
        index: match num_field(v, ("index").spec_bytes()) {
            Some(n) => n,
            None => 0,
        },
        name: match f {
            Some(fv) => str_field(fv, ("name").spec_bytes()),
            None => None,
        },
        args: match f {
            Some(fv) => str_field(fv, ("arguments").spec_bytes()),
            None => None,
        },
    }
}

/// The choice delta a JSON object describes.
pub open spec fn choice_model(v: JsonValue) -> ChoiceModel {
    let d = get_field(v, ("delta").spec_bytes());
    ChoiceModel {
        role: match d {
            Some(dv) => str_field(dv, ("role").spec_bytes()),
            None => None,
        },
        content: match d {
            Some(dv) => str_field(dv, ("content").spec_bytes()),
            None => None,
        },
        tools: match d {
            Some(dv) => match get_field(dv, ("tool_calls").spec_bytes()) {
                Some(JsonValue::Arr(a)) => a@.map_values(|x: JsonValue| tool_delta_model(x)),
                _ => Seq::empty(),
            },
            None => Seq::empty(),
        },
        finish: str_field(v, ("finish_reason").spec_bytes()),
    }
}

/// The usage record a frame carries: present exactly when the frame binds
/// `usage` to an object; counts that are absent or not unsigned numbers
/// read as zero.
pub open spec fn usage_model(v: JsonValue) -> Option<Usage> {
    match get_field(v, ("usage").spec_bytes()) {
        Some(u) => if u is Obj {
            Some(Usage {
                input_tokens: match num_field(u, ("prompt_tokens").spec_bytes()) {
                    Some(n) => n,
                    None => 0,
                },
                output_tokens: match num_field(u, ("completion_tokens").spec_bytes()) {
                    Some(n) => n,
                    None => 0,
                },
                total_tokens: match num_field(u, ("total_tokens").spec_bytes()) {
                    Some(n) => n,
                    None => 0,
                },
            })
        } else {
            None
        },
        None => None,
    }
}

/// The frame a JSON document describes: every element of its `choices`
/// array as a delta, unknown keys ignored.
pub open spec fn frame_model(v: JsonValue) -> FrameModel {
    FrameModel {
        choices: match get_field(v, ("choices").spec_bytes()) {
            Some(JsonValue::Arr(a)) => a@.map_values(|x: JsonValue| choice_model(x)),
            _ => Seq::empty(),
        },
        usage: usage_model(v),
    }
}

/// One in-progress tool call: its slot, its name when one has arrived,
/// and its argument text so far.
#[verifier::ext_equal]
pub struct ToolAccModel {
    pub index: u64,
    pub name: Option<Seq<u8>>,
    pub args: Seq<u8>,
}

/// The accumulator: everything folded out of the frames seen so far.
#[verifier::ext_equal]
pub struct AccModel {
    pub role: Option<Seq<u8>>,
    pub content: Seq<u8>,
    pub tools: Seq<ToolAccModel>,
    pub finish: Option<Seq<u8>>,
    pub usage: Option<Usage>,
}

/// The accumulator before any frame.
pub open spec fn init_acc() -> AccModel {
    AccModel {
        role: None,
        content: Seq::empty(),
        tools: Seq::empty(),
        finish: None,
        usage: None,
    }
}

/// The position of the tool call with slot `idx`, or -1 when none holds it.
pub open spec fn tool_pos(tools: Seq<ToolAccModel>, idx: u64) -> int
    decreases tools.len(),
{
    if tools.len() == 0 {
        -1
    } else if tools[0].index == idx {
        0
    } else {
        let p = tool_pos(tools.drop_first(), idx);
        if p < 0 {
            -1
        } else {
            p + 1
        }
    }
}

/// A missing fragment contributes nothing.
pub open spec fn opt_bytes(o: Option<Seq<u8>>) -> Seq<u8> {
    match o {
        Some(s) => s,
        None => Seq::empty(),
    }
}

/// Merges one tool-call fragment: a new slot is appended; for a known slot
/// the name is replaced when one arrives and the argument text is
/// concatenated in arrival order.
pub open spec fn apply_tool(tools: Seq<ToolAccModel>, t: ToolDeltaModel) -> Seq<ToolAccModel> {
    let p = tool_pos(tools, t.index);
    if p < 0 {
        tools.push(ToolAccModel { index: t.index, name: t.name, args: opt_bytes(t.args) })
    } else {
        let cur = tools[p];
        tools.update(
            p,
            ToolAccModel {
                index: cur.index,
                name: if t.name is Some {
                    t.name
                } else {
                    cur.name
                },
                args: cur.args + opt_bytes(t.args),
            },
        )
    }
}

pub open spec fn apply_tools(tools: Seq<ToolAccModel>, ts: Seq<ToolDeltaModel>) -> Seq<
    ToolAccModel,
>
    decreases ts.len(),
{
    if ts.len() == 0 {
        tools
    } else {
        apply_tools(apply_tool(tools, ts[0]), ts.drop_first())
    }
}

/// Folds one choice delta: content appends, role and finish-reason are
/// replaced when present, tool-call fragments merge by slot.
pub open spec fn apply_choice(a: AccModel, c: ChoiceModel) -> AccModel {
    AccModel {
        role: if c.role is Some {
            c.role
        } else {
            a.role
        },
        content: a.content + opt_bytes(c.content),
        tools: apply_tools(a.tools, c.tools),
        finish: if c.finish is Some {
            c.finish
        } else {
            a.finish
        },
        usage: a.usage,
    }
}

pub open spec fn apply_choices(a: AccModel, cs: Seq<ChoiceModel>) -> AccModel
    decreases cs.len(),
{
    if cs.len() == 0 {
        a
    } else {
        apply_choices(apply_choice(a, cs[0]), cs.drop_first())
    }
}

/// Folds one frame: its deltas in order, then its usage record, which
/// replaces the previous one when present.
pub open spec fn apply_frame(a: AccModel, f: FrameModel) -> AccModel {
    let a1 = apply_choices(a, f.choices);
    AccModel {
        role: a1.role,
        content: a1.content,
        tools: a1.tools,
        finish: a1.finish,
        usage: if f.usage is Some {
            f.usage
        } else {
            a1.usage
        },
    }
}

/// The collector: the line being assembled, whether the terminating
/// sentinel has been seen, and the accumulator.
#[verifier::ext_equal]
pub struct CollectorModel {
    pub done: bool,
    pub line: Seq<u8>,
    pub acc: AccModel,
}

pub open spec fn init_collector() -> CollectorModel {
    CollectorModel { done: false, line: Seq::empty(), acc: init_acc() }
}

/// The prefix that marks a candidate frame line.
pub open spec fn data_prefix() -> Seq<u8> {
    ("data: ").spec_bytes()
}

/// The payload that terminates the stream.
pub open spec fn done_sentinel() -> Seq<u8> {
    ("[DONE]").spec_bytes()
}

/// What one complete line does to the collector.  Lines without the data
/// prefix are ignored; the sentinel terminates the stream; a payload that
/// is not a JSON document is dropped; any other payload folds in as a
/// frame.
pub open spec fn step_line(m: CollectorModel, line: Seq<u8>) -> CollectorModel {
    let t = trim(line);
    if !is_prefix_of(data_prefix(), t) {
        m
    } else {
        let payload = t.skip(data_prefix().len() as int);
        if payload == done_sentinel() {
            CollectorModel { done: true, line: m.line, acc: m.acc }
        } else {
            match json_of(payload) {
                Some(v) => CollectorModel {
                    done: m.done,
                    line: m.line,
                    acc: apply_frame(m.acc, frame_model(v)),
                },
                None => m,
            }
        }
    }
}

/// What one input byte does: after the sentinel nothing is inspected; a
/// newline completes the pending line; any other byte extends it.
pub open spec fn feed_byte(m: CollectorModel, b: u8) -> CollectorModel {
    if m.done {
        m
    } else if b == 10 {
        let m2 = step_line(m, m.line);
        CollectorModel { done: m2.done, line: Seq::empty(), acc: m2.acc }
    } else {
        CollectorModel { done: m.done, line: m.line.push(b), acc: m.acc }
    }
}

/// One byte chunk, folded byte by byte.
pub open spec fn feed_bytes(m: CollectorModel, s: Seq<u8>) -> CollectorModel
    decreases s.len(),
{
    if s.len() == 0 {
        m
    } else {
        feed_bytes(feed_byte(m, s[0]), s.drop_first())
    }
}

/// End of input: an unterminated trailing line is processed like any
/// other, unless the sentinel already ended the stream.
pub open spec fn flush(m: CollectorModel) -> AccModel {
    if m.done {
        m.acc
    } else {
        step_line(m, m.line).acc
    }
}

/// The role of the final message: the last one delivered, or the
/// assistant role when none was.
pub open spec fn final_role(a: AccModel) -> Seq<u8> {
    match a.role {
        Some(r) => r,
        None => ("assistant").spec_bytes(),
    }
}

/// The final usage record: all zero when no frame carried one — an
/// expected outcome, not an error.
pub open spec fn final_usage(a: AccModel) -> Usage {
    match a.usage {
        Some(u) => u,
        None => Usage { input_tokens: 0, output_tokens: 0, total_tokens: 0 },
    }
}

} // verus!
