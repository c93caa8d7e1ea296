//! Lifecycles of local tool items.

use praxis_apis::collections::TextMap;
use praxis_apis::json::Json;
use praxis_apis::json_text::{bytes_of, parse_json};
use praxis_apis::openai::stream_events::local_tools::{
    event_local_tool_keys, register_local_tool, synthesize_incomplete_tail,
    synthesize_native_complete_tail, synthesize_private_complete, LocalToolMode,
};

/// The value that a text holds.
fn j(text: &str) -> Json {
    parse_json(text.as_bytes()).unwrap()
}

/// The same value, to be looked into.
fn v(value: &Json) -> serde_json::Value {
    serde_json::from_slice(&bytes_of(value)).unwrap()
}

#[test]
fn register_records_both_dual_keys() {
    let mut map: TextMap<LocalToolMode> = TextMap::new();
    let added = j(r#"{
        "type": "response.output_item.added",
        "output_index": 2,
        "item": {"id": "fc_123", "type": "function_call", "name": "file_search"}
    }"#);
    register_local_tool(&mut map, &added, LocalToolMode::Suppress);
    assert_eq!(map.get("item:fc_123"), Some(&LocalToolMode::Suppress));
    assert_eq!(map.get("index:2"), Some(&LocalToolMode::Suppress));
}

#[test]
fn event_keys_resolves_item_and_index() {
    let delta = j(r#"{"type": "response.function_call_arguments.delta", "item_id": "fc_123"}"#);
    let keys: Vec<String> = event_local_tool_keys(&delta);
    assert!(keys.contains(&"item:fc_123".to_string()));
    let done = j(r#"{"type": "response.output_item.done", "output_index": 2, "item": {"id": "fc_123"}}"#);
    let keys: Vec<String> = event_local_tool_keys(&done);
    assert!(keys.contains(&"item:fc_123".to_string()));
    assert!(keys.contains(&"index:2".to_string()));
}

#[test]
fn private_complete_lifecycle_shape() {
    let item = j(r#"{"type": "file_search_call", "status": "completed", "results": [{"file_id": "f1"}]}"#);
    let events = synthesize_private_complete(&item, 0);
    let types: Vec<&str> = events.iter().map(|event| event.event_type).collect();
    assert_eq!(
        types,
        vec![
            "response.output_item.added",
            "response.file_search_call.in_progress",
            "response.file_search_call.searching",
            "response.file_search_call.completed",
            "response.output_item.done",
        ]
    );
    assert_eq!(v(&events[0].payload)["output_index"], 0);
    assert_eq!(v(&events.last().unwrap().payload)["item"]["status"], "completed");
}

#[test]
fn native_tail_reuses_index_and_only_completes() {
    let item = j(r#"{"type": "file_search_call", "status": "completed", "results": []}"#);
    let events = synthesize_native_complete_tail(&item, 3);
    let types: Vec<&str> = events.iter().map(|event| event.event_type).collect();
    assert_eq!(
        types,
        vec!["response.file_search_call.completed", "response.output_item.done"]
    );
    assert_eq!(
        v(&events[0].payload)["output_index"],
        3,
        "native tail reuses opening's index"
    );
}

#[test]
fn incomplete_tail_has_no_results_no_completed() {
    let item = j(r#"{"type": "file_search_call", "status": "incomplete"}"#);
    let native = synthesize_incomplete_tail(&item, 2, false);
    assert_eq!(
        native.iter().map(|event| event.event_type).collect::<Vec<_>>(),
        vec!["response.output_item.done"]
    );
    assert_eq!(v(&native[0].payload)["item"]["status"], "incomplete");
    assert!(
        v(&native[0].payload)["item"].get("results").is_none(),
        "incomplete tail carries no results"
    );
    assert!(!native.iter().any(|event| event.event_type == "response.file_search_call.completed"));
    let private = synthesize_incomplete_tail(&item, 2, true);
    assert!(
        private.iter().any(|event| event.event_type == "response.output_item.added"),
        "private incomplete emits opening"
    );
    assert!(!private.iter().any(|event| event.event_type == "response.file_search_call.completed"));
}
