//! The stream collector: consumes byte chunks of an SSE body, extracts
//! `data:` frames, folds their deltas into the accumulator, and finalizes
//! into the caller-facing outcome.  Its behaviour is pinned, byte for
//! byte, to the model in `model`.

use vstd::prelude::*;
use crate::json::{JsonValue, json_parse, json_get};
use crate::model::{
    AccModel, ChoiceModel, CollectorModel, ToolAccModel, ToolDeltaModel, Usage, apply_choice,
    apply_choices, apply_frame, apply_tool, apply_tools, choice_model, data_prefix, feed_byte,
    feed_bytes, final_role, final_usage, flush, frame_model, init_collector, num_field,
    opt_bytes, step_line, tool_delta_model, tool_pos,
};
use crate::textutil::{bytes_eq, copy_bytes, starts_with, trim, trim_slice};

verus! {

/// One in-progress tool call.
pub struct ToolAcc {
    pub index: u64,
    pub name: Option<Vec<u8>>,
    pub args: Vec<u8>,
}

/// The byte view of an optional byte vector.
pub open spec fn opt_view(o: Option<Vec<u8>>) -> Option<Seq<u8>> {
    match o {
        Some(v) => Some(v@),
        None => None,
    }
}

impl View for ToolAcc {
    type V = ToolAccModel;

    open spec fn view(&self) -> ToolAccModel {
        ToolAccModel { index: self.index, name: opt_view(self.name), args: self.args@ }
    }
}

/// The models of a run of tool calls.
pub open spec fn tools_view(v: Seq<ToolAcc>) -> Seq<ToolAccModel> {
    v.map_values(|t: ToolAcc| t@)
}

/// The collector.  One instance serves one completion call.
pub struct StreamCollector {
    done: bool,
    line: Vec<u8>,
    role: Option<Vec<u8>>,
    content: Vec<u8>,
    tools: Vec<ToolAcc>,
    finish: Option<Vec<u8>>,
    usage: Option<Usage>,
}

impl View for StreamCollector {
    type V = CollectorModel;

    closed spec fn view(&self) -> CollectorModel {
        CollectorModel {
            done: self.done,
            line: self.line@,
            acc: AccModel {
                role: opt_view(self.role),
                content: self.content@,
                tools: tools_view(self.tools@),
                finish: opt_view(self.finish),
                usage: self.usage,
            },
        }
    }
}

proof fn lemma_tool_pos_skip(v: Seq<ToolAccModel>, idx: u64, i: int)
    requires
        0 <= i <= v.len(),
        forall|j: int| 0 <= j < i ==> v[j].index != idx,
    ensures
        tool_pos(v, idx) == (if tool_pos(v.skip(i), idx) < 0 {
            -1int
        } else {
            tool_pos(v.skip(i), idx) + i
        }),
    decreases i,
{
    if i == 0 {
        assert(v.skip(0) =~= v);
    } else {
        assert(v[0].index != idx);
        let t = v.drop_first();
        lemma_tool_pos_skip(t, idx, i - 1);
        assert(t.skip(i - 1) =~= v.skip(i));
    }
}

/// The position of slot `idx` among `tools`, searched front to back.
fn find_tool(tools: &Vec<ToolAcc>, idx: u64) -> (r: Option<usize>)
    ensures
        match r {
            Some(p) => p < tools@.len() && tool_pos(tools_view(tools@), idx) == p as int,
            None => tool_pos(tools_view(tools@), idx) == -1,
        },
{
    let ghost v = tools_view(tools@);
    let mut i: usize = 0;
    while i < tools.len()
        invariant
            0 <= i <= tools@.len(),
            v == tools_view(tools@),
            forall|j: int| 0 <= j < i ==> v[j].index != idx,
        decreases tools@.len() - i,
    {
        if tools[i].index == idx {
            proof {
                assert(v[i as int] == tools@[i as int]@);
                lemma_tool_pos_skip(v, idx, i as int);
                assert(v.skip(i as int)[0] == v[i as int]);
                assert(tool_pos(v.skip(i as int), idx) == 0);
            }
            return Some(i);
        }
        proof {
            assert(v[i as int] == tools@[i as int]@);
        }
        i = i + 1;
    }
    proof {
        lemma_tool_pos_skip(v, idx, i as int);
        assert(v.skip(i as int) =~= Seq::<ToolAccModel>::empty());
    }
    None
}

/// Merges one tool-call fragment into the run, as `apply_tool` says.
fn merge_tool(tools: &mut Vec<ToolAcc>, idx: u64, name: Option<Vec<u8>>, args: Option<Vec<u8>>)
    ensures
        tools_view(final(tools)@) == apply_tool(
            tools_view(old(tools)@),
            ToolDeltaModel { index: idx, name: opt_view(name), args: opt_view(args) },
        ),
{
    let ghost t = ToolDeltaModel { index: idx, name: opt_view(name), args: opt_view(args) };
    let ghost v0 = tools_view(tools@);
    match find_tool(tools, idx) {
        None => {
            let args_vec = match args {
                Some(a) => a,
                None => Vec::new(),
            };
            let entry = ToolAcc { index: idx, name, args: args_vec };
            proof {
                assert(entry@ =~= ToolAccModel {
                    index: idx,
                    name: t.name,
                    args: opt_bytes(t.args),
                });
            }
            tools.push(entry);
            proof {
                assert(tools_view(tools@) =~= v0.push(
                    ToolAccModel { index: idx, name: t.name, args: opt_bytes(t.args) },
                ));
            }
        },
        Some(p) => {
            let ghost e0 = v0[p as int];
            proof {
                assert(v0[p as int] == old(tools)@[p as int]@);
            }
            let mut entry = tools.remove(p);
            if let Some(n) = name {
                entry.name = Some(n);
            }
            if let Some(a) = args {
                let mut a2 = a;
                entry.args.append(&mut a2);
            }
            let ghost merged = ToolAccModel {
                index: e0.index,
                name: if t.name is Some {
                    t.name
                } else {
                    e0.name
                },
                args: e0.args + opt_bytes(t.args),
            };
            proof {
                assert(entry@ =~= merged);
            }
            tools.insert(p, entry);
            proof {
                assert(tools_view(tools@) =~= v0.update(p as int, merged));
            }
        },
    }
}

/// Reads one tool-call fragment out of its JSON object.
fn tool_delta_of(v: &JsonValue) -> (r: (u64, Option<Vec<u8>>, Option<Vec<u8>>))
    ensures
        r.0 == tool_delta_model(*v).index,
        opt_view(r.1) == tool_delta_model(*v).name,
        opt_view(r.2) == tool_delta_model(*v).args,
{
    let idx: u64 = match json_get(v, "index".as_bytes()) {
        Some(JsonValue::Num(Some(n))) => *n,
        _ => 0,
    };
    let (name, args) = match json_get(v, "function".as_bytes()) {
        Some(f) => {
            let n = match json_get(f, "name".as_bytes()) {
                Some(JsonValue::Str(s)) => Some(copy_bytes(s.as_slice())),
                _ => None,
            };
            let a = match json_get(f, "arguments".as_bytes()) {
                Some(JsonValue::Str(s)) => Some(copy_bytes(s.as_slice())),
                _ => None,
            };
            (n, a)
        },
        None => (None, None),
    };
    (idx, name, args)
}

/// The count under `key`, read as zero when absent or not unsigned.
fn num_or_zero(v: &JsonValue, key: &[u8]) -> (r: u64)
    ensures
        r == (match num_field(*v, key@) {
            Some(n) => n,
            None => 0u64,
        }),
{
    match json_get(v, key) {
        Some(JsonValue::Num(Some(n))) => *n,
        _ => 0,
    }
}

impl StreamCollector {
    /// Folds one choice delta of a frame into the accumulator.
    fn apply_choice_json(&mut self, c: &JsonValue)
        ensures
            final(self)@ == (CollectorModel {
                done: old(self)@.done,
                line: old(self)@.line,
                acc: apply_choice(old(self)@.acc, choice_model(*c)),
            }),
    {
        let ghost m0 = self@;
        let ghost cm = choice_model(*c);
        if let Some(d) = json_get(c, "delta".as_bytes()) {
            match json_get(d, "role".as_bytes()) {
                Some(JsonValue::Str(s)) => {
                    self.role = Some(copy_bytes(s.as_slice()));
                },
                _ => {},
            }
            match json_get(d, "content".as_bytes()) {
                Some(JsonValue::Str(s)) => {
                    self.content.extend_from_slice(s.as_slice());
                },
                _ => {},
            }
            match json_get(d, "tool_calls".as_bytes()) {
                Some(JsonValue::Arr(a)) => {
                    let ghost tds = cm.tools;
                    let ghost tv0 = tools_view(self.tools@);
                    let ghost b0 = self.done;
                    let ghost l0 = self.line@;
                    let ghost r0 = opt_view(self.role);
                    let ghost c0 = self.content@;
                    let ghost f0 = opt_view(self.finish);
                    let ghost u0 = self.usage;
                    proof {
                        assert(tds =~= a@.map_values(|x: JsonValue| tool_delta_model(x)));
                        assert(tds.skip(0) =~= tds);
                    }
                    let mut i: usize = 0;
                    while i < a.len()
                        invariant
                            0 <= i <= a@.len(),
                            tds == a@.map_values(|x: JsonValue| tool_delta_model(x)),
                            self.done == b0,
                            self.line@ == l0,
                            opt_view(self.role) == r0,
                            self.content@ == c0,
                            opt_view(self.finish) == f0,
                            self.usage == u0,
                            apply_tools(tv0, tds) == apply_tools(
                                tools_view(self.tools@),
                                tds.skip(i as int),
                            ),
                        decreases a@.len() - i,
                    {
                        proof {
                            assert(tds.skip(i as int)[0] == tds[i as int]);
                            assert(tds.skip(i as int).drop_first() =~= tds.skip(i + 1));
                            assert(tds[i as int] == tool_delta_model(a@[i as int]));
                        }
                        let (idx, nm, ag) = tool_delta_of(&a[i]);
                        merge_tool(&mut self.tools, idx, nm, ag);
                        i = i + 1;
                    }
                    proof {
                        assert(tds.skip(a@.len() as int) =~= Seq::<ToolDeltaModel>::empty());
                    }
                },
                _ => {},
            }
        }
        match json_get(c, "finish_reason".as_bytes()) {
            Some(JsonValue::Str(s)) => {
                self.finish = Some(copy_bytes(s.as_slice()));
            },
            _ => {},
        }
        proof {
            assert(self@ =~= CollectorModel {
                done: m0.done,
                line: m0.line,
                acc: apply_choice(m0.acc, cm),
            });
        }
    }

    /// Folds one whole frame: its deltas in order, then its usage record.
    fn apply_frame_json(&mut self, v: &JsonValue)
        ensures
            final(self)@ == (CollectorModel {
                done: old(self)@.done,
                line: old(self)@.line,
                acc: apply_frame(old(self)@.acc, frame_model(*v)),
            }),
    {
        let ghost m0 = self@;
        let ghost fm = frame_model(*v);
        match json_get(v, "choices".as_bytes()) {
            Some(JsonValue::Arr(a)) => {
                let ghost cs = fm.choices;
                let ghost a0 = m0.acc;
                proof {
                    assert(cs =~= a@.map_values(|x: JsonValue| choice_model(x)));
                    assert(cs.skip(0) =~= cs);
                }
                let mut i: usize = 0;
                while i < a.len()
                    invariant
                        0 <= i <= a@.len(),
                        cs == a@.map_values(|x: JsonValue| choice_model(x)),
                        self@.done == m0.done,
                        self@.line == m0.line,
                        apply_choices(a0, cs) == apply_choices(self@.acc, cs.skip(i as int)),
                    decreases a@.len() - i,
                {
                    proof {
                        assert(cs.skip(i as int)[0] == cs[i as int]);
                        assert(cs.skip(i as int).drop_first() =~= cs.skip(i + 1));
                        assert(cs[i as int] == choice_model(a@[i as int]));
                    }
                    self.apply_choice_json(&a[i]);
                    i = i + 1;
                }
                proof {
                    assert(cs.skip(a@.len() as int) =~= Seq::<ChoiceModel>::empty());
                }
            },
            _ => {},
        }
        match json_get(v, "usage".as_bytes()) {
            Some(u) => {
                match u {
                    JsonValue::Obj(_) => {
                        let us = Usage {
                            input_tokens: num_or_zero(u, "prompt_tokens".as_bytes()),
                            output_tokens: num_or_zero(u, "completion_tokens".as_bytes()),
                            total_tokens: num_or_zero(u, "total_tokens".as_bytes()),
                        };
                        self.usage = Some(us);
                    },
                    _ => {},
                }
            },
            None => {},
        }
        proof {
            assert(self@ =~= CollectorModel {
                done: m0.done,
                line: m0.line,
                acc: apply_frame(m0.acc, fm),
            });
        }
    }
}

/// One assembled tool call: its slot, its name (empty when none ever
/// arrived), and its concatenated argument text.
pub struct ToolCall {
    pub index: u64,
    pub name: Vec<u8>,
    pub arguments: Vec<u8>,
}

/// The normalized outcome of one completed stream.
pub struct ChatOutcome {
    pub role: Vec<u8>,
    pub content: Vec<u8>,
    pub tool_calls: Vec<ToolCall>,
    pub finish_reason: Option<Vec<u8>>,
    pub usage: Usage,
}

impl StreamCollector {
    /// A collector with nothing seen yet.
    pub fn new() -> (c: Self)
        ensures
            c@ == init_collector(),
    {
        let c = StreamCollector {
            done: false,
            line: Vec::new(),
            role: None,
            content: Vec::new(),
            tools: Vec::new(),
            finish: None,
            usage: None,
        };
        proof {
            assert(tools_view(Seq::<ToolAcc>::empty()) =~= Seq::<ToolAccModel>::empty());
            assert(c@ =~= init_collector());
        }
        c
    }

    /// Handles one complete line, exactly as `step_line` says.
    fn handle_line(&mut self, line: &[u8])
        ensures
            final(self)@ == step_line(old(self)@, line@),
    {
        let ghost m0 = self@;
        let t = trim_slice(line);
        let pre = "data: ".as_bytes();
        if !starts_with(t, pre) {
            return;
        }
        let payload = &t[pre.len()..t.len()];
        proof {
            assert(payload@ =~= trim(line@).skip(data_prefix().len() as int));
        }
        if bytes_eq(payload, "[DONE]".as_bytes()) {
            self.done = true;
            proof {
                assert(self@ =~= CollectorModel { done: true, line: m0.line, acc: m0.acc });
            }
            return;
        }
        match json_parse(payload) {
            Some(v) => {
                self.apply_frame_json(&v);
            },
            None => {},
        }
    }

    /// Feeds one byte: nothing after the sentinel, a newline completes the
    /// pending line, any other byte extends it.
    fn push_byte(&mut self, b: u8)
        ensures
            final(self)@ == feed_byte(old(self)@, b),
    {
        let ghost m0 = self@;
        if self.done {
            return;
        }
        if b == 10 {
            let line = copy_bytes(self.line.as_slice());
            self.handle_line(line.as_slice());
            self.line.clear();
            proof {
                assert(self@ =~= feed_byte(m0, b));
            }
        } else {
            self.line.push(b);
            proof {
                assert(self@ =~= feed_byte(m0, b));
            }
        }
    }

    /// Consumes one byte chunk of the response body.
    pub fn add_chunk(&mut self, chunk: &[u8])
        ensures
            final(self)@ == feed_bytes(old(self)@, chunk@),
    {
        let ghost m0 = self@;
        proof {
            assert(chunk@.skip(0) =~= chunk@);
        }
        let mut i: usize = 0;
        while i < chunk.len()
            invariant
                0 <= i <= chunk@.len(),
                feed_bytes(m0, chunk@) == feed_bytes(self@, chunk@.skip(i as int)),
            decreases chunk@.len() - i,
        {
            proof {
                assert(chunk@.skip(i as int)[0] == chunk@[i as int]);
                assert(chunk@.skip(i as int).drop_first() =~= chunk@.skip(i + 1));
            }
            self.push_byte(chunk[i]);
            i = i + 1;
        }
        proof {
            assert(chunk@.skip(chunk@.len() as int) =~= Seq::<u8>::empty());
        }
    }

    /// End of input: processes an unterminated trailing line, then
    /// finalizes the accumulator.  A missing role reads as the assistant
    /// role, a missing usage record as all-zero counts — both expected,
    /// neither an error.
    pub fn finish(self) -> (r: ChatOutcome)
        ensures
            ({
                let a = flush(self@);
                &&& r.role@ == final_role(a)
                &&& r.content@ == a.content
                &&& r.usage == final_usage(a)
                &&& opt_view(r.finish_reason) == a.finish
                &&& r.tool_calls@.len() == a.tools.len()
                &&& forall|i: int|
                    0 <= i < a.tools.len() ==> #[trigger] r.tool_calls@[i].index == a.tools[i].index
                        && r.tool_calls@[i].name@ == opt_bytes(a.tools[i].name)
                        && r.tool_calls@[i].arguments@ == a.tools[i].args
            }),
    {
        let ghost m = self@;
        let mut c = self;
        if !c.done {
            let line = copy_bytes(c.line.as_slice());
            c.handle_line(line.as_slice());
        }
        proof {
            assert(c@.acc == flush(m));
        }
        let ghost a = flush(m);
        let StreamCollector { done: _, line: _, role, content, tools, finish, usage } = c;
        let role_out = match role {
            Some(r) => r,
            None => copy_bytes("assistant".as_bytes()),
        };
        let usage_out = match usage {
            Some(u) => u,
            None => Usage { input_tokens: 0, output_tokens: 0, total_tokens: 0 },
        };
        let ghost tv = a.tools;
        let mut rest = tools;
        let mut tool_calls: Vec<ToolCall> = Vec::new();
        proof {
            assert(tools_view(rest@) =~= tv);
        }
        while rest.len() > 0
            invariant
                tool_calls@.len() + rest@.len() == tv.len(),
                forall|j: int|
                    0 <= j < rest@.len() ==> rest@[j]@ == tv[tool_calls@.len() + j],
                forall|i: int|
                    0 <= i < tool_calls@.len() ==> #[trigger] tool_calls@[i].index == tv[i].index
                        && tool_calls@[i].name@ == opt_bytes(tv[i].name)
                        && tool_calls@[i].arguments@ == tv[i].args,
            decreases rest@.len(),
        {
            let t = rest.remove(0);
            let name_out = match t.name {
                Some(n) => n,
                None => Vec::new(),
            };
            tool_calls.push(ToolCall { index: t.index, name: name_out, arguments: t.args });
        }
        ChatOutcome {
            role: role_out,
            content,
            tool_calls,
            finish_reason: finish,
            usage: usage_out,
        }
    }
}

} // verus!
