use chat_client::bridge::JsonFields;
use chat_client::client::{
    accept_header, decode_body, event_from_body_fields, resolve_endpoint, ChatRequest,
    ClientConfig,
};

#[test]
fn endpoint_already_resolved_is_unchanged() {
    assert_eq!(resolve_endpoint("http://h/v1/chat"), "http://h/v1/chat");
}

#[test]
fn endpoint_trailing_slash_is_stripped_before_append() {
    assert_eq!(resolve_endpoint("http://h/"), "http://h/v1/chat");
}

#[test]
fn endpoint_without_slash_gets_segment_appended() {
    assert_eq!(resolve_endpoint("http://h"), "http://h/v1/chat");
    assert_eq!(resolve_endpoint("http://h///"), "http://h/v1/chat");
}

#[test]
fn endpoint_resolution_is_idempotent_on_values() {
    let once = resolve_endpoint("http://h/api/");
    assert_eq!(resolve_endpoint(&once), once);
}

#[test]
fn config_endpoint_uses_base_url() {
    let cfg = ClientConfig::new("http://h".to_string(), None, None);
    assert_eq!(cfg.endpoint(), "http://h/v1/chat");
}

#[test]
fn headers_include_configured_values() {
    let cfg = ClientConfig::new(
        "http://h".to_string(),
        Some("secret-key".to_string()),
        Some("sess-1".to_string()),
    );
    let pairs = cfg.header_pairs();
    assert_eq!(pairs.len(), 2);
    assert_eq!(pairs[0].0, "X-API-Key");
    assert_eq!(pairs[0].1, "secret-key");
    assert_eq!(pairs[1].0, "X-Session-ID");
    assert_eq!(pairs[1].1, "sess-1");
}

#[test]
fn headers_omit_absent_values() {
    let cfg = ClientConfig::new("http://h".to_string(), None, Some("sess-1".to_string()));
    let pairs = cfg.header_pairs();
    assert_eq!(pairs.len(), 1);
    assert_eq!(pairs[0].0, "X-Session-ID");
}

#[test]
fn headers_silently_omit_unencodable_values() {
    let cfg = ClientConfig::new(
        "http://h".to_string(),
        Some("bad\nkey".to_string()),
        Some("sess-1".to_string()),
    );
    let pairs = cfg.header_pairs();
    assert_eq!(pairs.len(), 1);
    assert_eq!(pairs[0].0, "X-Session-ID");
}

#[test]
fn accept_header_follows_streaming_flag() {
    assert_eq!(accept_header(true), "text/event-stream");
    assert_eq!(accept_header(false), "application/json");
}

#[test]
fn chat_request_holds_its_parts() {
    let r = ChatRequest::new("hello".to_string(), true);
    assert_eq!(r.message, "hello");
    assert!(r.stream);
}

#[test]
fn non_streaming_body_yields_one_done_event() {
    let ev = decode_body("{\"response\":\"done text\"}");
    assert_eq!(ev.text, "done text");
    assert!(ev.done);
}

#[test]
fn non_streaming_malformed_body_defaults_to_empty_text() {
    let ev = decode_body("not json at all");
    assert_eq!(ev.text, "");
    assert!(ev.done);

    let ev = decode_body("{\"other\":1}");
    assert_eq!(ev.text, "");
    assert!(ev.done);
}

#[test]
fn body_fields_build_exact_event() {
    let ev = event_from_body_fields(Some(JsonFields {
        response: Some("x".to_string()),
        done: None,
    }));
    assert_eq!(ev.text, "x");
    assert!(ev.done);

    let ev = event_from_body_fields(None);
    assert_eq!(ev.text, "");
    assert!(ev.done);
}
