use deepseek_adapter::directory::{classify_error_body, parse_models_response};
use deepseek_adapter::error::ProviderError;
use deepseek_adapter::headers::parse_custom_headers;
use deepseek_adapter::json::{json_parse, JsonValue};
use deepseek_adapter::request::{build_request, ChatMessage, ToolDef};

#[test]
fn test_parse_custom_headers() {
    let headers_str = "X-Custom-Header=value1,X-Another-Header=value2".to_string();
    let headers = parse_custom_headers(&headers_str);

    assert_eq!(headers.get(b"X-Custom-Header"), Some(b"value1".to_vec()));
    assert_eq!(headers.get(b"X-Another-Header"), Some(b"value2".to_vec()));
}

#[test]
fn header_pairs_parse_and_malformed_pair_is_dropped() {
    let h = parse_custom_headers("X-A=1,X-B=2");
    assert_eq!(h.get(b"X-A"), Some(b"1".to_vec()));
    assert_eq!(h.get(b"X-B"), Some(b"2".to_vec()));
    assert_eq!(h.len(), 2);

    let h2 = parse_custom_headers("X-A=1,bogus");
    assert_eq!(h2.get(b"X-A"), Some(b"1".to_vec()));
    assert_eq!(h2.get(b"bogus"), None);
    assert_eq!(h2.len(), 1);
}

#[test]
fn header_pairs_are_trimmed_and_later_wins() {
    let h = parse_custom_headers(" X-A = spaced , X-A=second");
    assert_eq!(h.get(b"X-A"), Some(b"second".to_vec()));
}

#[test]
fn directory_ids_are_sorted() {
    let r = parse_models_response(b"{\"data\":[{\"id\":\"b\"},{\"id\":\"a\"}]}");
    assert_eq!(r, Ok(vec![b"a".to_vec(), b"b".to_vec()]));
}

#[test]
fn directory_entries_without_id_are_skipped() {
    let r = parse_models_response(b"{\"data\":[{\"id\":\"m2\"},{\"name\":\"x\"},{\"id\":\"m1\"}]}");
    assert_eq!(r, Ok(vec![b"m1".to_vec(), b"m2".to_vec()]));
}

#[test]
fn directory_error_object_is_authentication_failure() {
    let r = parse_models_response(b"{\"error\":{\"message\":\"bad key\"}}");
    assert_eq!(r, Err(ProviderError::Authentication(b"bad key".to_vec())));
}

#[test]
fn directory_error_without_message_has_stand_in_text() {
    let r = parse_models_response(b"{\"error\":{}}");
    assert_eq!(r, Err(ProviderError::Authentication(b"unknown error".to_vec())));
}

#[test]
fn directory_missing_data_is_usage_failure() {
    let r = parse_models_response(b"{\"models\":[]}");
    assert_eq!(
        r,
        Err(ProviderError::UsageError(
            b"Missing data field in JSON response".to_vec()
        ))
    );
}

#[test]
fn directory_non_json_body_is_transport_failure() {
    let r = parse_models_response(b"<html>oops</html>");
    assert_eq!(
        r,
        Err(ProviderError::RequestFailed(
            b"response body is not valid JSON".to_vec()
        ))
    );
}

#[test]
fn error_body_classification() {
    let auth = classify_error_body(b"{\"error\":{\"message\":\"bad key\"}}");
    assert_eq!(auth, ProviderError::Authentication(b"bad key".to_vec()));

    let plain = classify_error_body(b"gateway timeout");
    assert_eq!(plain, ProviderError::RequestFailed(b"gateway timeout".to_vec()));
}

#[test]
fn json_parse_builds_plain_values() {
    let v = json_parse(b"{\"a\":1,\"b\":[true,null,\"s\"]}").unwrap();
    let expected = JsonValue::Obj(vec![
        (b"a".to_vec(), JsonValue::Num(Some(1))),
        (
            b"b".to_vec(),
            JsonValue::Arr(vec![
                JsonValue::Bool(true),
                JsonValue::Null,
                JsonValue::Str(b"s".to_vec()),
            ]),
        ),
    ]);
    assert_eq!(v, expected);
    assert_eq!(json_parse(b"not json"), None);
}

#[test]
fn request_payload_forces_streaming_and_keeps_order() {
    let messages = vec![
        ChatMessage { role: b"user".to_vec(), content: b"hi".to_vec() },
        ChatMessage { role: b"assistant".to_vec(), content: b"hello".to_vec() },
    ];
    let r = build_request(b"deepseek-chat", b"be brief", messages, Vec::new());
    match r {
        JsonValue::Obj(fs) => {
            assert_eq!(fs.len(), 3);
            assert_eq!(fs[0].0, b"stream".to_vec());
            assert_eq!(fs[0].1, JsonValue::Bool(true));
            assert_eq!(fs[1].0, b"model".to_vec());
            assert_eq!(fs[1].1, JsonValue::Str(b"deepseek-chat".to_vec()));
            assert_eq!(fs[2].0, b"messages".to_vec());
            match &fs[2].1 {
                JsonValue::Arr(a) => {
                    assert_eq!(a.len(), 3);
                    assert_eq!(
                        a[0],
                        JsonValue::Obj(vec![
                            (b"role".to_vec(), JsonValue::Str(b"system".to_vec())),
                            (b"content".to_vec(), JsonValue::Str(b"be brief".to_vec())),
                        ])
                    );
                    assert_eq!(
                        a[1],
                        JsonValue::Obj(vec![
                            (b"role".to_vec(), JsonValue::Str(b"user".to_vec())),
                            (b"content".to_vec(), JsonValue::Str(b"hi".to_vec())),
                        ])
                    );
                    assert_eq!(
                        a[2],
                        JsonValue::Obj(vec![
                            (b"role".to_vec(), JsonValue::Str(b"assistant".to_vec())),
                            (b"content".to_vec(), JsonValue::Str(b"hello".to_vec())),
                        ])
                    );
                }
                _ => panic!("messages field is not an array"),
            }
        }
        _ => panic!("request is not an object"),
    }
}

#[test]
fn request_payload_with_tools_encodes_them() {
    let tools = vec![ToolDef {
        name: b"lookup".to_vec(),
        description: b"looks things up".to_vec(),
        parameters: JsonValue::Obj(vec![(b"type".to_vec(), JsonValue::Str(b"object".to_vec()))]),
    }];
    let r = build_request(b"deepseek-chat", b"", Vec::new(), tools);
    match r {
        JsonValue::Obj(fs) => {
            assert_eq!(fs.len(), 4);
            assert_eq!(fs[3].0, b"tools".to_vec());
            match &fs[3].1 {
                JsonValue::Arr(ts) => {
                    assert_eq!(ts.len(), 1);
                    assert_eq!(
                        ts[0],
                        JsonValue::Obj(vec![
                            (b"type".to_vec(), JsonValue::Str(b"function".to_vec())),
                            (
                                b"function".to_vec(),
                                JsonValue::Obj(vec![
                                    (b"name".to_vec(), JsonValue::Str(b"lookup".to_vec())),
                                    (
                                        b"description".to_vec(),
                                        JsonValue::Str(b"looks things up".to_vec())
                                    ),
                                    (
                                        b"parameters".to_vec(),
                                        JsonValue::Obj(vec![(
                                            b"type".to_vec(),
                                            JsonValue::Str(b"object".to_vec())
                                        )])
                                    ),
                                ])
                            ),
                        ])
                    );
                }
                _ => panic!("tools field is not an array"),
            }
        }
        _ => panic!("request is not an object"),
    }
}

#[test]
fn request_payload_without_tools_omits_the_field() {
    let r = build_request(b"m", b"s", Vec::new(), Vec::new());
    match r {
        JsonValue::Obj(fs) => {
            assert_eq!(fs.len(), 3);
            for (k, _) in &fs {
                assert_ne!(k, &b"tools".to_vec());
            }
        }
        _ => panic!("request is not an object"),
    }
}
