//! Token usage, summed over inference rounds.

use praxis_apis::json::Json;
use praxis_apis::json_text::{bytes_of, parse_json, text_of};
use praxis_apis::openai::retained::retained_json_bytes;
use praxis_apis::openai::usage::{merge_usage, merge_usage_owned, merged_usage_json_bytes};

/// The value that a text holds.
fn j(text: &str) -> Json {
    parse_json(text.as_bytes()).unwrap()
}

/// The same value, to be looked into.
fn v(value: &Json) -> serde_json::Value {
    serde_json::from_slice(&bytes_of(value)).unwrap()
}

#[test]
fn projected_owned_merge_size_matches_compact_json() {
    let mut accumulated = j(r#"{
        "input_tokens": 99,
        "input_tokens_details": {"cached_tokens": 4},
        "replaced": "old"
    }"#);
    let current = j(r#"{
        "input_tokens": 1,
        "output_tokens": 5,
        "input_tokens_details": {"cached_tokens": 6, "audio_tokens": 1},
        "replaced": null
    }"#);
    let projected = merged_usage_json_bytes(&accumulated, &current).unwrap();
    merge_usage_owned(&mut accumulated, current);
    assert_eq!(projected, retained_json_bytes(&accumulated));
    assert_eq!(projected, text_of(&accumulated).len());
}

#[test]
fn adds_unsigned_integer_fields() {
    let mut acc = j(r#"{"input_tokens": 10, "output_tokens": 5}"#);
    merge_usage(&mut acc, &j(r#"{"input_tokens": 7, "output_tokens": 1}"#));
    assert_eq!(v(&acc)["input_tokens"], 17);
    assert_eq!(v(&acc)["output_tokens"], 6);
}

#[test]
fn preserves_new_keys() {
    let mut acc = j(r#"{"input_tokens": 10}"#);
    merge_usage(&mut acc, &j(r#"{"output_tokens": 5}"#));
    assert_eq!(v(&acc)["input_tokens"], 10);
    assert_eq!(v(&acc)["output_tokens"], 5);
}

#[test]
fn merges_nested_objects() {
    let mut acc = j(r#"{"input_tokens_details": {"cached_tokens": 4}}"#);
    merge_usage(
        &mut acc,
        &j(r#"{"input_tokens_details": {"cached_tokens": 2, "audio_tokens": 1}}"#),
    );
    assert_eq!(v(&acc)["input_tokens_details"]["cached_tokens"], 6);
    assert_eq!(v(&acc)["input_tokens_details"]["audio_tokens"], 1);
}

#[test]
fn saturates_at_u64_max() {
    let mut acc = j(r#"{"input_tokens": 18446744073709551615}"#);
    merge_usage(&mut acc, &j(r#"{"input_tokens": 1}"#));
    assert_eq!(v(&acc)["input_tokens"], u64::MAX);
}

#[test]
fn replaces_on_type_mismatch() {
    let mut acc = j(r#"{"field": "old_string"}"#);
    merge_usage(&mut acc, &j(r#"{"field": 42}"#));
    assert_eq!(v(&acc)["field"], 42);
}

#[test]
fn replaces_non_unsigned_number() {
    let mut acc = j(r#"{"field": -1}"#);
    merge_usage(&mut acc, &j(r#"{"field": 5}"#));
    assert_eq!(
        v(&acc)["field"], 5,
        "signed/float numbers should replace rather than saturating-add"
    );
}

#[test]
fn null_accumulated_replaced_by_object() {
    let mut acc = Json::Null;
    merge_usage(&mut acc, &j(r#"{"input_tokens": 3}"#));
    assert_eq!(v(&acc)["input_tokens"], 3);
}
