//! Reasoning between the Responses and Chat Completions forms.

use praxis_apis::json::Json;
use praxis_apis::json_text::{parse_json, text_of};
use praxis_apis::openai::translation::reasoning::{
    extract_reasoning_item, json_type_name, reasoning_item_id, requested_summary,
    validate_requested_reasoning, ReasoningDialect, ReasoningOptions, TranslationError,
};

fn j(text: &str) -> Json {
    parse_json(text.as_bytes()).unwrap()
}

fn vllm(max_reasoning_bytes: usize) -> ReasoningOptions {
    ReasoningOptions { dialect: ReasoningDialect::Vllm, max_reasoning_bytes }
}

#[test]
fn raw_reasoning_becomes_an_item() {
    let id = reasoning_item_id("resp_1");
    assert_eq!(id, "rs_resp_1");
    let message = j(r#"{"reasoning": "because", "reasoning_content": "old"}"#);
    let item = extract_reasoning_item(Some(&message), &id, "completed", &vllm(100));
    assert_eq!(
        text_of(&item.ok().unwrap().unwrap()),
        r#"{"id":"rs_resp_1","type":"reasoning","status":"completed","summary":[],"content":[{"type":"reasoning_text","text":"because"}]}"#
    );
}

#[test]
fn the_older_field_is_a_fallback() {
    let message = j(r#"{"reasoning": "", "reasoning_content": "old"}"#);
    let item = extract_reasoning_item(Some(&message), "rs_1", "completed", &vllm(100));
    assert!(text_of(&item.ok().unwrap().unwrap()).contains(r#""text":"old""#));
    let silent = j(r#"{"reasoning": null}"#);
    assert!(extract_reasoning_item(Some(&silent), "rs_1", "completed", &vllm(100))
        .ok()
        .unwrap()
        .is_none());
}

#[test]
fn the_portable_dialect_exposes_no_reasoning() {
    let options = ReasoningOptions::default();
    assert!(!options.dialect.is_enabled());
    assert!(ReasoningDialect::Vllm.is_enabled());
    let message = j(r#"{"reasoning": "because"}"#);
    assert!(extract_reasoning_item(Some(&message), "rs_1", "completed", &options)
        .ok()
        .unwrap()
        .is_none());
}

#[test]
fn reasoning_is_bounded_and_text() {
    let message = j(r#"{"reasoning": "αβ"}"#);
    assert!(extract_reasoning_item(Some(&message), "rs_1", "completed", &vllm(4)).is_ok());
    let error = extract_reasoning_item(Some(&message), "rs_1", "completed", &vllm(3)).err();
    assert!(matches!(
        error,
        Some(TranslationError::ReasoningTooLarge { bytes: 4, max_bytes: 3 })
    ));
    let error = extract_reasoning_item(Some(&j(r#"{"reasoning": 7}"#)), "rs_1", "completed", &vllm(3));
    assert!(matches!(error.err(), Some(TranslationError::MalformedReasoning(actual)) if actual == json_type_name(&j("7"))));
}

#[test]
fn summaries_are_refused() {
    let options = vllm(100);
    let refusal = |text: &str| validate_requested_reasoning(&j(text), &options).err();
    assert!(refusal(r#"{"input": "hi"}"#).is_none());
    assert!(refusal(r#"{"reasoning": {"summary": null}}"#).is_none());
    assert!(matches!(
        refusal(r#"{"reasoning": {"summary": "auto"}}"#),
        Some(TranslationError::UnsupportedReasoningSummary)
    ));
    assert!(matches!(
        refusal(r#"{"reasoning": {"summary": "auto", "generate_summary": "concise"}}"#),
        Some(TranslationError::ConflictingReasoningSummary)
    ));
    assert!(matches!(
        refusal(r#"{"reasoning": {"generate_summary": []}}"#),
        Some(TranslationError::MalformedReasoningSummary { field: "generate_summary", .. })
    ));
}

#[test]
fn the_older_summary_control_is_an_alias() {
    let reasoning = j(r#"{"generate_summary": "auto"}"#);
    assert_eq!(requested_summary(&reasoning).ok().unwrap(), Some("auto"));
}
