//! The guarantees the streaming pipeline gives, stated over the model and
//! proved once and for all: ordered content accumulation, tolerance of
//! unparsable frames, the finality of the sentinel, usage defaulting, and
//! the merging of split tool-call arguments.

use vstd::prelude::*;
use crate::json::json_of;
use crate::model::{
    AccModel, ChoiceModel, CollectorModel, FrameModel, ToolAccModel, ToolDeltaModel, Usage,
    apply_choice, apply_choices, apply_frame, apply_tool, data_prefix, done_sentinel, feed_byte,
    feed_bytes, final_usage, step_line, tool_pos,
};
use crate::textutil::{is_prefix_of, trim};

verus! {

/// What one complete line does, seen from outside: nothing once the
/// sentinel has been observed.
pub open spec fn collect_line(m: CollectorModel, line: Seq<u8>) -> CollectorModel {
    if m.done {
        m
    } else {
        step_line(m, line)
    }
}

/// A sequence of complete lines, folded in arrival order.
pub open spec fn collect_lines(m: CollectorModel, lines: Seq<Seq<u8>>) -> CollectorModel
    decreases lines.len(),
{
    if lines.len() == 0 {
        m
    } else {
        collect_lines(collect_line(m, lines[0]), lines.drop_first())
    }
}

/// A sequence of parsed frames, folded in arrival order.
pub open spec fn apply_frames(a: AccModel, fs: Seq<FrameModel>) -> AccModel
    decreases fs.len(),
{
    if fs.len() == 0 {
        a
    } else {
        apply_frames(apply_frame(a, fs[0]), fs.drop_first())
    }
}

/// Folding lines distributes over concatenation of the stream.
pub proof fn lemma_collect_lines_concat(m: CollectorModel, a: Seq<Seq<u8>>, b: Seq<Seq<u8>>)
    ensures
        collect_lines(m, a + b) == collect_lines(collect_lines(m, a), b),
    decreases a.len(),
{
    if a.len() == 0 {
        assert(a + b =~= b);
    } else {
        assert((a + b)[0] == a[0]);
        assert((a + b).drop_first() =~= a.drop_first() + b);
        lemma_collect_lines_concat(collect_line(m, a[0]), a.drop_first(), b);
    }
}

/// A line that is not a well-formed frame — whether it lacks the data
/// prefix or its payload fails to parse — leaves the collector unchanged.
pub proof fn lemma_bad_line_ignored(m: CollectorModel, bad: Seq<u8>)
    requires
        ({
            let t = trim(bad);
            is_prefix_of(data_prefix(), t) ==> {
                let payload = t.skip(data_prefix().len() as int);
                payload != done_sentinel() && json_of(payload) is None
            }
        }),
    ensures
        collect_line(m, bad) == m,
{
}

/// A stream with one unparsable frame line in its middle yields the same
/// final state as the stream without that line.
pub proof fn lemma_unparsable_line_dropped(
    m: CollectorModel,
    before: Seq<Seq<u8>>,
    bad: Seq<u8>,
    after: Seq<Seq<u8>>,
)
    requires
        ({
            let t = trim(bad);
            is_prefix_of(data_prefix(), t) ==> {
                let payload = t.skip(data_prefix().len() as int);
                payload != done_sentinel() && json_of(payload) is None
            }
        }),
    ensures
        collect_lines(m, before + seq![bad] + after) == collect_lines(m, before + after),
{
    let mid = collect_lines(m, before);
    lemma_collect_lines_concat(m, before, seq![bad]);
    assert(before + seq![bad] + after =~= (before + seq![bad]) + after);
    lemma_collect_lines_concat(m, before + seq![bad], after);
    lemma_bad_line_ignored(mid, bad);
    assert(seq![bad].drop_first() =~= Seq::<Seq<u8>>::empty());
    assert(seq![bad][0] == bad);
    assert(collect_lines(mid, Seq::<Seq<u8>>::empty()) == mid);
    assert(collect_lines(mid, seq![bad]) == mid);
    lemma_collect_lines_concat(m, before, after);
}

/// Once the sentinel has been observed, no later byte is ever inspected:
/// the collector is sealed.
pub proof fn lemma_sentinel_seals(m: CollectorModel, s: Seq<u8>)
    requires
        m.done,
    ensures
        feed_bytes(m, s) == m,
    decreases s.len(),
{
    if s.len() > 0 {
        assert(feed_byte(m, s[0]) == m);
        lemma_sentinel_seals(m, s.drop_first());
    }
}

/// Folding bytes distributes over concatenation of chunks: how the
/// transport slices the body into chunks cannot change the outcome.
pub proof fn lemma_feed_bytes_concat(m: CollectorModel, a: Seq<u8>, b: Seq<u8>)
    ensures
        feed_bytes(m, a + b) == feed_bytes(feed_bytes(m, a), b),
    decreases a.len(),
{
    if a.len() == 0 {
        assert(a + b =~= b);
    } else {
        assert((a + b)[0] == a[0]);
        assert((a + b).drop_first() =~= a.drop_first() + b);
        lemma_feed_bytes_concat(feed_byte(m, a[0]), a.drop_first(), b);
    }
}

/// One newline-terminated run of bytes is exactly one line step, applied
/// to the pending buffer extended by those bytes.
pub proof fn lemma_feed_terminated_line(m: CollectorModel, l: Seq<u8>)
    requires
        !m.done,
        forall|i: int| 0 <= i < l.len() ==> l[i] != 10,
    ensures
        ({
            let m2 = step_line(m, m.line + l);
            feed_bytes(m, l.push(10)) == (CollectorModel {
                done: m2.done,
                line: Seq::empty(),
                acc: m2.acc,
            })
        }),
    decreases l.len(),
{
    if l.len() == 0 {
        assert(l.push(10)[0] == 10);
        assert(l.push(10).drop_first() =~= Seq::<u8>::empty());
        assert(m.line + l =~= m.line);
        let fb = feed_byte(m, 10);
        assert(feed_bytes(fb, Seq::<u8>::empty()) == fb);
        assert(feed_bytes(m, l.push(10)) == fb);
    } else {
        assert(l.push(10)[0] == l[0]);
        assert(l[0] != 10);
        let m1 = CollectorModel { done: m.done, line: m.line.push(l[0]), acc: m.acc };
        assert(feed_byte(m, l[0]) == m1);
        assert(l.push(10).drop_first() =~= l.drop_first().push(10));
        assert(feed_bytes(m, l.push(10)) == feed_bytes(m1, l.drop_first().push(10)));
        lemma_feed_terminated_line(m1, l.drop_first());
        assert(m1.line + l.drop_first() =~= m.line + l);
    }
}

/// The lines of a stream, written out with their closing newlines.
pub open spec fn terminated(lines: Seq<Seq<u8>>) -> Seq<u8>
    decreases lines.len(),
{
    if lines.len() == 0 {
        Seq::empty()
    } else {
        lines[0].push(10) + terminated(lines.drop_first())
    }
}

/// The byte-level collector on newline-terminated input is exactly the
/// line fold: whatever the line-level laws say of `collect_lines` holds
/// of the bytes the transport hands over.
pub proof fn lemma_feed_is_collect_lines(m: CollectorModel, lines: Seq<Seq<u8>>)
    requires
        m.line == Seq::<u8>::empty(),
        forall|i: int, j: int|
            0 <= i < lines.len() && 0 <= j < lines[i].len() ==> #[trigger] lines[i][j] != 10,
    ensures
        feed_bytes(m, terminated(lines)) == collect_lines(m, lines),
        collect_lines(m, lines).line == Seq::<u8>::empty(),
    decreases lines.len(),
{
    if lines.len() > 0 {
        let l0 = lines[0];
        let rest = lines.drop_first();
        lemma_feed_bytes_concat(m, l0.push(10), terminated(rest));
        assert(terminated(lines) == l0.push(10) + terminated(rest));
        let next = collect_line(m, l0);
        if m.done {
            lemma_sentinel_seals(m, l0.push(10));
            assert(next == m);
        } else {
            lemma_feed_terminated_line(m, l0);
            assert(m.line + l0 =~= l0);
            assert(step_line(m, l0).line == m.line);
            assert(feed_bytes(m, l0.push(10)) =~= next);
        }
        assert(next.line == Seq::<u8>::empty());
        assert(forall|i: int, j: int|
            0 <= i < rest.len() && 0 <= j < rest[i].len() ==> #[trigger] rest[i][j] != 10);
        lemma_feed_is_collect_lines(next, rest);
    }
}

/// The unparsable-line tolerance, at the byte level: the body with the
/// bad line and the body without it feed to the same collector state.
pub proof fn lemma_unparsable_line_dropped_bytes(
    m: CollectorModel,
    before: Seq<Seq<u8>>,
    bad: Seq<u8>,
    after: Seq<Seq<u8>>,
)
    requires
        m.line == Seq::<u8>::empty(),
        forall|j: int| 0 <= j < bad.len() ==> bad[j] != 10,
        forall|i: int, j: int|
            0 <= i < before.len() && 0 <= j < before[i].len() ==> #[trigger] before[i][j] != 10,
        forall|i: int, j: int|
            0 <= i < after.len() && 0 <= j < after[i].len() ==> #[trigger] after[i][j] != 10,
        ({
            let t = trim(bad);
            is_prefix_of(data_prefix(), t) ==> {
                let payload = t.skip(data_prefix().len() as int);
                payload != done_sentinel() && json_of(payload) is None
            }
        }),
    ensures
        feed_bytes(m, terminated(before + seq![bad] + after)) == feed_bytes(
            m,
            terminated(before + after),
        ),
{
    let with_bad = before + seq![bad] + after;
    let without = before + after;
    assert(forall|i: int, j: int|
        0 <= i < with_bad.len() && 0 <= j < with_bad[i].len() ==> #[trigger] with_bad[i][j] != 10);
    assert(forall|i: int, j: int|
        0 <= i < without.len() && 0 <= j < without[i].len() ==> #[trigger] without[i][j] != 10);
    lemma_feed_is_collect_lines(m, with_bad);
    lemma_feed_is_collect_lines(m, without);
    lemma_unparsable_line_dropped(m, before, bad, after);
}

/// A frame that delivers one content fragment and nothing else.
pub open spec fn content_frame(frag: Seq<u8>) -> FrameModel {
    FrameModel {
        choices: seq![
            ChoiceModel { role: None, content: Some(frag), tools: Seq::empty(), finish: None },
        ],
        usage: None,
    }
}

/// Content fragments append in arrival order and are never reordered: a
/// stream of content frames accumulates exactly their concatenation.
pub proof fn lemma_content_order(a: AccModel, frags: Seq<Seq<u8>>)
    ensures
        apply_frames(a, frags.map_values(|f: Seq<u8>| content_frame(f))).content == a.content
            + frags.flatten(),
    decreases frags.len(),
{
    let fs = frags.map_values(|f: Seq<u8>| content_frame(f));
    if frags.len() == 0 {
        assert(a.content + frags.flatten() =~= a.content);
    } else {
        let c = ChoiceModel { role: None, content: Some(frags[0]), tools: Seq::empty(), finish: None };
        let a1 = apply_choice(a, c);
        assert(fs[0] == content_frame(frags[0]));
        assert(fs[0].choices.drop_first() =~= Seq::<ChoiceModel>::empty());
        assert(fs[0].choices[0] == c);
        assert(apply_choices(a1, Seq::<ChoiceModel>::empty()) == a1);
        assert(apply_choices(a, fs[0].choices) == a1);
        assert(apply_frame(a, fs[0]) == a1);
        assert(fs.drop_first() =~= frags.drop_first().map_values(|f: Seq<u8>| content_frame(f)));
        lemma_content_order(a1, frags.drop_first());
        assert(frags.flatten() == frags[0] + frags.drop_first().flatten());
        assert((a.content + frags[0]) + frags.drop_first().flatten() =~= a.content
            + frags.flatten());
    }
}

proof fn lemma_choices_keep_usage(a: AccModel, cs: Seq<ChoiceModel>)
    ensures
        apply_choices(a, cs).usage == a.usage,
    decreases cs.len(),
{
    if cs.len() > 0 {
        lemma_choices_keep_usage(apply_choice(a, cs[0]), cs.drop_first());
    }
}

/// When no frame carries a usage record, none is ever set, and the final
/// usage reads as all zero — the call still succeeds.
pub proof fn lemma_missing_usage_zero(a: AccModel, fs: Seq<FrameModel>)
    requires
        a.usage is None,
        forall|i: int| 0 <= i < fs.len() ==> fs[i].usage is None,
    ensures
        apply_frames(a, fs).usage is None,
        final_usage(apply_frames(a, fs)) == (Usage {
            input_tokens: 0,
            output_tokens: 0,
            total_tokens: 0,
        }),
    decreases fs.len(),
{
    if fs.len() > 0 {
        lemma_choices_keep_usage(a, fs[0].choices);
        lemma_missing_usage_zero(apply_frame(a, fs[0]), fs.drop_first());
    }
}

proof fn lemma_tool_pos_push_new(tools: Seq<ToolAccModel>, e: ToolAccModel)
    requires
        tool_pos(tools, e.index) == -1,
    ensures
        tool_pos(tools.push(e), e.index) == tools.len(),
    decreases tools.len(),
{
    if tools.len() == 0 {
        assert(tools.push(e)[0] == e);
    } else {
        assert(tools.push(e)[0] == tools[0]);
        assert(tools.push(e).drop_first() =~= tools.drop_first().push(e));
        lemma_tool_pos_push_new(tools.drop_first(), e);
    }
}

/// Argument fragments addressed to one tool-call slot concatenate across
/// frames: a fresh slot is created by the first fragment and the second
/// appends to it, in order.
pub proof fn lemma_tool_arguments_merge(
    tools: Seq<ToolAccModel>,
    idx: u64,
    name: Option<Seq<u8>>,
    a1: Seq<u8>,
    a2: Seq<u8>,
)
    requires
        tool_pos(tools, idx) == -1,
    ensures
        ({
            let t1 = apply_tool(tools, ToolDeltaModel { index: idx, name: name, args: Some(a1) });
            let t2 = apply_tool(t1, ToolDeltaModel { index: idx, name: None, args: Some(a2) });
            &&& t2.len() == tools.len() + 1
            &&& t2[tools.len() as int].index == idx
            &&& t2[tools.len() as int].name == name
            &&& t2[tools.len() as int].args == a1 + a2
        }),
{
    let e1 = ToolAccModel { index: idx, name: name, args: a1 };
    let t1 = apply_tool(tools, ToolDeltaModel { index: idx, name: name, args: Some(a1) });
    assert(t1 =~= tools.push(e1));
    lemma_tool_pos_push_new(tools, e1);
}

} // verus!
