use salieri::stream_parser::{FinishReason, StreamItem};

#[test]
fn delta_record() {
    let item = StreamItem::from_json_str("{\"choices\":[{\"delta\":{\"content\":\"hi\"}}]}");
    match item {
        Some(StreamItem::Delta(t)) => assert_eq!(t, "hi"),
        other => panic!("expected a delta, got {:?}", other),
    }
}

#[test]
fn role_marker_record() {
    let item = StreamItem::from_json_str("{\"choices\":[{\"delta\":{\"role\":\"assistant\"}}]}");
    assert!(matches!(item, Some(StreamItem::RoleMsg)));
}

#[test]
fn finish_stop_record() {
    let item = StreamItem::from_json_str("{\"choices\":[{\"finish_reason\":\"stop\",\"delta\":{}}]}");
    assert!(matches!(item, Some(StreamItem::Finish(FinishReason::Stop))));
}

#[test]
fn finish_length_and_content_filter() {
    let item = StreamItem::from_json_str(
        "{\"choices\":[{\"finish_reason\":\"length\",\"delta\":{}}]}",
    );
    assert!(matches!(item, Some(StreamItem::Finish(FinishReason::Length))));
    let item = StreamItem::from_json_str(
        "{\"choices\":[{\"finish_reason\":\"content_filter\",\"delta\":{}}]}",
    );
    assert!(matches!(item, Some(StreamItem::Finish(FinishReason::ContentFilter))));
}

#[test]
fn empty_object_fails() {
    assert!(StreamItem::from_json_str("{}").is_none());
}

#[test]
fn missing_first_choice_fails() {
    assert!(StreamItem::from_json_str("{\"choices\":[]}").is_none());
    assert!(StreamItem::from_json_str("not json at all").is_none());
    assert!(StreamItem::from_json_str("[DONE]").is_none());
}

#[test]
fn unrecognized_finish_reason_fails() {
    let item = StreamItem::from_json_str(
        "{\"choices\":[{\"finish_reason\":\"banana\",\"delta\":{}}]}",
    );
    assert!(item.is_none());
    // A non-string finish reason is unrecognized too.
    let item = StreamItem::from_json_str("{\"choices\":[{\"finish_reason\":7,\"delta\":{}}]}");
    assert!(item.is_none());
}

#[test]
fn null_finish_reason_takes_delta_path() {
    let item = StreamItem::from_json_str(
        "{\"choices\":[{\"finish_reason\":null,\"delta\":{\"content\":\"ok\"}}]}",
    );
    match item {
        Some(StreamItem::Delta(t)) => assert_eq!(t, "ok"),
        other => panic!("expected a delta, got {:?}", other),
    }
}

#[test]
fn delta_without_content_fails() {
    assert!(StreamItem::from_json_str("{\"choices\":[{\"delta\":{}}]}").is_none());
    assert!(StreamItem::from_json_str("{\"choices\":[{}]}").is_none());
    // Non-string content is refused as well.
    assert!(StreamItem::from_json_str("{\"choices\":[{\"delta\":{\"content\":3}}]}").is_none());
}

#[test]
fn delta_content_round_trips_utf8() {
    let item = StreamItem::from_json_str(
        "{\"choices\":[{\"delta\":{\"content\":\"caf\\u00e9\\n\\\"q\\\"\"}}]}",
    );
    match item {
        Some(StreamItem::Delta(t)) => assert_eq!(t, "café\n\"q\""),
        other => panic!("expected a delta, got {:?}", other),
    }
}

#[test]
fn parser_and_translator_compose() {
    let mut parser = salieri::stream_parser::ChatStreamParser::new();
    parser.add_chunk(b"data: {\"choices\":[{\"delta\":{\"content\":\"a\"}}]}\n\n");
    assert!(matches!(parser.next(), Some(StreamItem::Delta(_))));
    assert!(parser.next().is_none());
}
