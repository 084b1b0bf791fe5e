use deepseek_adapter::collect::StreamCollector;

fn collect_all(chunks: &[&[u8]]) -> deepseek_adapter::collect::ChatOutcome {
    let mut c = StreamCollector::new();
    for ch in chunks {
        c.add_chunk(ch);
    }
    c.finish()
}

#[test]
fn content_fragments_append_in_order() {
    let out = collect_all(&[
        b"data: {\"choices\":[{\"delta\":{\"role\":\"assistant\",\"content\":\"Hel\"}}]}\n",
        b"data: {\"choices\":[{\"delta\":{\"content\":\"lo\"}}]}\n",
        b"data: {\"choices\":[{\"delta\":{\"content\":\" world\"}}]}\n",
        b"data: [DONE]\n",
    ]);
    assert_eq!(out.content, b"Hello world".to_vec());
    assert_eq!(out.role, b"assistant".to_vec());
}

#[test]
fn unparsable_frame_is_dropped() {
    let with_bad = collect_all(&[
        b"data: {\"choices\":[{\"delta\":{\"content\":\"Hel\"}}]}\n",
        b"data: {not json at all\n",
        b"data: {\"choices\":[{\"delta\":{\"content\":\"lo\"}}]}\n",
    ]);
    let without_bad = collect_all(&[
        b"data: {\"choices\":[{\"delta\":{\"content\":\"Hel\"}}]}\n",
        b"data: {\"choices\":[{\"delta\":{\"content\":\"lo\"}}]}\n",
    ]);
    assert_eq!(with_bad.content, without_bad.content);
    assert_eq!(with_bad.content, b"Hello".to_vec());
}

#[test]
fn nothing_after_done_is_inspected() {
    let out = collect_all(&[
        b"data: {\"choices\":[{\"delta\":{\"content\":\"kept\"}}]}\n",
        b"data: [DONE]\n",
        b"data: {\"choices\":[{\"delta\":{\"content\":\"ignored\"}}]}\n",
    ]);
    assert_eq!(out.content, b"kept".to_vec());
}

#[test]
fn done_seals_within_one_chunk() {
    let out = collect_all(&[
        b"data: {\"choices\":[{\"delta\":{\"content\":\"a\"}}]}\ndata: [DONE]\ndata: {\"choices\":[{\"delta\":{\"content\":\"b\"}}]}\n",
    ]);
    assert_eq!(out.content, b"a".to_vec());
}

#[test]
fn missing_usage_defaults_to_zero() {
    let out = collect_all(&[b"data: {\"choices\":[{\"delta\":{\"content\":\"hi\"}}]}\n"]);
    assert_eq!(out.usage.input_tokens, 0);
    assert_eq!(out.usage.output_tokens, 0);
    assert_eq!(out.usage.total_tokens, 0);
    assert_eq!(out.content, b"hi".to_vec());
}

#[test]
fn usage_is_last_write_wins() {
    let out = collect_all(&[
        b"data: {\"choices\":[],\"usage\":{\"prompt_tokens\":1,\"completion_tokens\":1,\"total_tokens\":2}}\n",
        b"data: {\"choices\":[],\"usage\":{\"prompt_tokens\":3,\"completion_tokens\":5,\"total_tokens\":8}}\n",
    ]);
    assert_eq!(out.usage.input_tokens, 3);
    assert_eq!(out.usage.output_tokens, 5);
    assert_eq!(out.usage.total_tokens, 8);
}

#[test]
fn tool_call_arguments_merge_by_index() {
    let out = collect_all(&[
        b"data: {\"choices\":[{\"delta\":{\"tool_calls\":[{\"index\":0,\"function\":{\"name\":\"get\",\"arguments\":\"{\\\"a\\\":\"}}]}}]}\n",
        b"data: {\"choices\":[{\"delta\":{\"tool_calls\":[{\"index\":0,\"function\":{\"arguments\":\"1}\"}}]}}]}\n",
    ]);
    assert_eq!(out.tool_calls.len(), 1);
    assert_eq!(out.tool_calls[0].index, 0);
    assert_eq!(out.tool_calls[0].name, b"get".to_vec());
    assert_eq!(out.tool_calls[0].arguments, b"{\"a\":1}".to_vec());
}

#[test]
fn distinct_tool_indices_stay_separate() {
    let out = collect_all(&[
        b"data: {\"choices\":[{\"delta\":{\"tool_calls\":[{\"index\":0,\"function\":{\"name\":\"one\",\"arguments\":\"x\"}},{\"index\":1,\"function\":{\"name\":\"two\",\"arguments\":\"y\"}}]}}]}\n",
        b"data: {\"choices\":[{\"delta\":{\"tool_calls\":[{\"index\":1,\"function\":{\"arguments\":\"z\"}}]}}]}\n",
    ]);
    assert_eq!(out.tool_calls.len(), 2);
    assert_eq!(out.tool_calls[0].name, b"one".to_vec());
    assert_eq!(out.tool_calls[0].arguments, b"x".to_vec());
    assert_eq!(out.tool_calls[1].name, b"two".to_vec());
    assert_eq!(out.tool_calls[1].arguments, b"yz".to_vec());
}

#[test]
fn finish_reason_is_replaced() {
    let out = collect_all(&[
        b"data: {\"choices\":[{\"delta\":{\"content\":\"x\"},\"finish_reason\":\"length\"}]}\n",
        b"data: {\"choices\":[{\"delta\":{},\"finish_reason\":\"stop\"}]}\n",
    ]);
    assert_eq!(out.finish_reason, Some(b"stop".to_vec()));
}

#[test]
fn empty_stream_yields_empty_message() {
    let out = collect_all(&[]);
    assert_eq!(out.content, Vec::<u8>::new());
    assert_eq!(out.role, b"assistant".to_vec());
    assert_eq!(out.tool_calls.len(), 0);
    assert_eq!(out.usage.total_tokens, 0);
}

#[test]
fn frame_split_across_chunks_is_assembled() {
    let out = collect_all(&[
        b"data: {\"choices\":[{\"delta\":",
        b"{\"content\":\"joined\"}}]}\n",
    ]);
    assert_eq!(out.content, b"joined".to_vec());
}

#[test]
fn trailing_line_without_newline_is_processed() {
    let out = collect_all(&[b"data: {\"choices\":[{\"delta\":{\"content\":\"tail\"}}]}"]);
    assert_eq!(out.content, b"tail".to_vec());
}

#[test]
fn non_data_lines_are_ignored() {
    let out = collect_all(&[
        b": comment\n\nevent: ping\ndata: {\"choices\":[{\"delta\":{\"content\":\"ok\"}}]}\n",
    ]);
    assert_eq!(out.content, b"ok".to_vec());
}
