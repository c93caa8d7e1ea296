//! Records of completed responses.

use praxis_apis::json::Json;
use praxis_apis::json_text::{bytes_of, parse_json};
use praxis_apis::service::responses::ResponsesService;
use praxis_apis::state_owner::StateOwner;

/// The value that a text holds.
fn j(text: &str) -> Json {
    parse_json(text.as_bytes()).unwrap()
}

/// The same value, to be looked into.
fn v(value: &Json) -> serde_json::Value {
    serde_json::from_slice(&bytes_of(value)).unwrap()
}

/// The value that a text holds, to be looked into.
fn w(text: &str) -> serde_json::Value {
    serde_json::from_str(text).unwrap()
}

/// A validated owner of a fixed tenant and issuer.
fn owner(subject: &str) -> StateOwner {
    StateOwner::from_trusted_parts("tenant-a".to_owned(), "issuer-a".to_owned(), subject.to_owned())
        .ok()
        .unwrap()
}

#[test]
fn build_record_returns_none_for_null_response_object() {
    let record = ResponsesService::build_record(Json::Null, owner("alice"), None, None);
    assert!(record.is_none(), "a null response object is not persistable");
}

#[test]
fn build_record_returns_none_for_missing_required_fields() {
    let record = ResponsesService::build_record(j(r#"{"id": "resp_1"}"#), owner("alice"), None, None);
    assert!(record.is_none(), "missing created_at/model is not persistable");
}

#[test]
fn build_record_uses_request_input_when_state_messages_absent() {
    let request_input = j(r#"[{"role": "user", "content": "Captured streaming input"}]"#);
    let response_object = j(r#"{
        "id": "resp_stream_no_state_messages",
        "created_at": 1719900000,
        "model": "gpt-4.1",
        "status": "completed",
        "output": [{"type": "message", "content": "Stored streaming output"}]
    }"#);

    let record = ResponsesService::build_record(response_object, owner("alice"), Some(request_input.clone()), None)
        .expect("streaming state should build a record");

    assert_eq!(
        v(&record.input), v(&request_input),
        "stored input comes from the original request"
    );
    assert_eq!(
        v(&record.messages),
        w(r#"[
            {"role": "user", "content": "Captured streaming input"},
            {"type": "message", "content": "Stored streaming output"}
        ]"#),
        "absent state messages must not hide request input"
    );
}

#[test]
fn build_record_preserves_mcp_metadata_from_state_messages() {
    let mcp_item = j(r#"{
        "id": "mcpl_1",
        "type": "mcp_list_tools",
        "server_label": "weather",
        "tools": [{"name": "get_weather", "description": "d", "input_schema": {}}]
    }"#);
    let response_object = j(r#"{
        "id": "resp_stream_mcp",
        "created_at": 1719900000,
        "model": "gpt-4.1",
        "status": "completed",
        "output": [{"type": "message", "role": "assistant", "content": "Next answer"}]
    }"#);
    let state_messages = vec![
        j(r#"{"role": "user", "content": "Hello"}"#),
        mcp_item,
        j(r#"{"type": "message", "role": "assistant", "content": "Tools loaded"}"#),
        j(r#"{"role": "user", "content": "What next?"}"#),
    ];

    let record = ResponsesService::build_record(
        response_object,
        owner("alice"),
        Some(j(r#"[{"role": "user", "content": "What next?"}]"#)),
        Some(state_messages),
    )
    .expect("streaming state should build a record");

    assert_eq!(
        v(&record.messages),
        w(r#"[
            {"role": "user", "content": "Hello"},
            {"id": "mcpl_1", "type": "mcp_list_tools", "server_label": "weather",
             "tools": [{"name": "get_weather", "description": "d", "input_schema": {}}]},
            {"type": "message", "role": "assistant", "content": "Tools loaded"},
            {"role": "user", "content": "What next?"},
            {"type": "message", "role": "assistant", "content": "Next answer"}
        ]"#),
        "MCP metadata from state messages must be preserved, not dropped"
    );
}

#[test]
fn build_record_falls_back_to_response_object_input() {
    let response_object = j(r#"{
        "id": "resp_buffered",
        "created_at": 1719900000,
        "model": "gpt-4.1",
        "input": "Hello",
        "output": [{"type": "message", "role": "assistant", "content": "Hi"}]
    }"#);

    let record = ResponsesService::build_record(response_object, owner("alice"), None, None)
        .expect("buffered response should build a record");

    assert_eq!(
        v(&record.input),
        w(r#""Hello""#),
        "input falls back to the response object when no request input is captured"
    );
}
