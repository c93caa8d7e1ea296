//! Validation of Responses API requests.

use praxis_apis::collections::TextMap;
use praxis_apis::filter::{BodyAccess, FilterAction};
use praxis_apis::json_text::parse_json;
use praxis_apis::openai::state::ResponsesState;
use praxis_apis::openai::validate::{reject_invalid, GeneratedIds, OpenaiResponsesValidateFilter};

/// What the filter knows of a request.
struct Context {
    metadata: TextMap<String>,
    state: Option<ResponsesState>,
}

fn context(metadata: &[(&str, &str)]) -> Context {
    let mut context = Context { metadata: TextMap::new(), state: None };
    for (key, value) in metadata {
        context.metadata.put_text(key, value);
    }
    context
}

fn ids() -> GeneratedIds {
    GeneratedIds {
        response: "0123456789abcdef0123456789abcdef".to_owned(),
        conversation: "fedcba9876543210fedcba9876543210".to_owned(),
    }
}

fn on_request_body(
    context: &mut Context,
    method: &str,
    path: &str,
    body: Option<&str>,
    end: bool,
) -> FilterAction {
    OpenaiResponsesValidateFilter {}.on_request_body(
        &mut context.metadata,
        &mut context.state,
        method,
        path,
        body.map(str::as_bytes),
        end,
        &ids(),
    )
}

fn classified(metadata: &[(&str, &str)]) -> Context {
    let mut context = context(metadata);
    context.metadata.put_text("openai_responses_format.format", "openai_responses");
    context
}

fn run_filter(body: &str, metadata: &[(&str, &str)]) -> Context {
    let mut context = classified(metadata);
    let action = on_request_body(&mut context, "POST", "/v1/responses", Some(body), true);
    assert!(matches!(action, FilterAction::Release), "valid request should release");
    context
}

fn run_filter_raw(body: &str, metadata: &[(&str, &str)]) -> FilterAction {
    on_request_body(&mut classified(metadata), "POST", "/v1/responses", Some(body), true)
}

fn parsed_body(bytes: &[u8]) -> serde_json::Value {
    serde_json::from_slice(bytes).unwrap()
}

fn assert_background_rejection(action: FilterAction) {
    let FilterAction::Reject(rejection) = action else {
        panic!("background=true should be rejected");
    };
    assert_eq!(rejection.status, 400);
    let body = parsed_body(&rejection.body);
    assert_eq!(body["error"]["type"], "invalid_request_error");
    assert_eq!(body["error"]["message"], "background mode is not supported");
}

#[test]
fn from_config_succeeds() {
    let filter = OpenaiResponsesValidateFilter {};
    assert_eq!(
        filter.name(),
        "openai_responses_validate",
        "filter name should be openai_responses_validate"
    );
}

#[test]
fn body_access_is_read_only() {
    let filter = OpenaiResponsesValidateFilter {};
    assert_eq!(
        filter.request_body_access(),
        BodyAccess::ReadOnly,
        "filter should use read-only body access"
    );
}

#[test]
fn bound_upstream_body_access_is_read_only() {
    let filter = OpenaiResponsesValidateFilter {};
    assert_eq!(
        filter.bound_upstream_request_body_access(),
        BodyAccess::ReadOnly,
        "the validator must support deferred request-scoped policy"
    );
}

#[test]
fn valid_request_produces_metadata() {
    let ctx = run_filter(r#"{"model": "gpt-4.1", "input": "Hello"}"#, &[]);

    assert!(
        ctx.metadata
            .text("responses.response_id")
            .is_some_and(|v| v.starts_with("resp_") && v.len() == 37),
        "response_id should be resp_ + 32 hex chars"
    );
    assert!(
        ctx.metadata
            .text("responses.conversation_id")
            .is_some_and(|v| v.starts_with("conv_") && v.len() == 37),
        "conversation_id should be conv_ + 32 hex chars"
    );
    assert_eq!(
        ctx.metadata.text("responses.store"),
        Some("true"),
        "store should default to true when classifier has no value"
    );
    assert_eq!(
        ctx.metadata.text("responses.background"),
        Some("false"),
        "background should default to false"
    );
    assert_eq!(
        ctx.metadata.text("responses.stream"),
        Some("false"),
        "stream should default to false"
    );
}

#[test]
fn existing_responses_state_is_not_parsed_or_initialized_twice() {
    let mut ctx = classified(&[("responses.response_id", "resp_existing")]);
    let body = parse_json(br#"{"model": "gpt-4.1", "input": "already parsed"}"#).unwrap();
    ctx.state = Some(ResponsesState::from_request_body(body));

    let action = on_request_body(
        &mut ctx,
        "POST",
        "/v1/responses",
        Some("this would fail a second JSON parse"),
        true,
    );

    assert!(matches!(action, FilterAction::Release));
    assert_eq!(
        ctx.metadata.text("responses.response_id"),
        Some("resp_existing"),
        "the consolidated request processor's state must remain authoritative"
    );
}

#[test]
fn validated_requests_begin_with_their_body() {
    let ctx = run_filter(
        r#"{"model": "gpt-4.1", "input": "Hello", "tools": [{"type": "function", "name": "f"}]}"#,
        &[],
    );
    let state = ctx.state.expect("validate should insert ResponsesState");
    assert_eq!(state.request_body.get_str("input"), Some("Hello"));
    assert_eq!(state.tools.len(), 1, "tools should be populated");
    assert_eq!(state.iteration, 0, "iteration should start at 0");
    assert!(state.tool_calls().is_empty(), "tool_calls should start empty");
    assert_eq!(
        state.response_id.as_deref(),
        ctx.metadata.text("responses.response_id"),
        "canonical state should retain the response id"
    );
}

#[test]
fn reads_stream_from_classifier_metadata() {
    let ctx = run_filter(r#"{"input": "Hi"}"#, &[("openai_responses_format.stream", "true")]);
    assert_eq!(
        ctx.metadata.text("responses.stream"),
        Some("true"),
        "stream should be read from classifier metadata"
    );
}

#[test]
fn reads_store_from_classifier_metadata() {
    let ctx = run_filter(r#"{"input": "Hi"}"#, &[("openai_responses_format.store", "false")]);
    assert_eq!(
        ctx.metadata.text("responses.store"),
        Some("false"),
        "store should be read from classifier metadata"
    );
}

#[test]
fn valid_request_with_conversation_id() {
    let ctx = run_filter(r#"{"input": "Hi", "conversation": {"id": "conv_existing_123"}}"#, &[]);
    assert_eq!(
        ctx.metadata.text("responses.conversation_id"),
        Some("conv_existing_123"),
        "conversation_id should be extracted from request body"
    );
}

#[test]
fn valid_request_with_bare_string_conversation_id() {
    let ctx = run_filter(r#"{"input": "Hi", "conversation": "conv_existing_123"}"#, &[]);
    assert_eq!(
        ctx.metadata.text("responses.conversation_id"),
        Some("conv_existing_123"),
        "bare-string conversation ID should be extracted from request body"
    );
}

#[test]
fn rejects_conflicting_history_selectors() {
    let action = run_filter_raw(
        r#"{"input":"next","previous_response_id":"resp_win","conversation":"conv_lose"}"#,
        &[],
    );
    let FilterAction::Reject(rejection) = action else {
        panic!("expected rejection");
    };
    assert_eq!(rejection.status, 400);
    let body = parsed_body(&rejection.body);
    assert_eq!(body["error"]["type"], "invalid_request_error");
    assert_eq!(body["error"]["code"], "mutually_exclusive_parameters");
    assert_eq!(
        body["error"]["message"],
        "Mutually exclusive parameters. Ensure you are only providing one of: 'previous_response_id' or 'conversation'."
    );
}

#[test]
fn streaming_selector_conflict_uses_json_validation_error() {
    let action = run_filter_raw(
        r#"{"input":"next","previous_response_id":"resp_win","conversation":"conv_lose","stream":true}"#,
        &[("openai_responses_format.stream", "true")],
    );
    let FilterAction::Reject(rejection) = action else {
        panic!("expected rejection");
    };
    assert_eq!(rejection.status, 400);
    assert_eq!(
        rejection.headers.iter().find(|(name, _)| name == "content-type"),
        Some(&("content-type".to_owned(), "application/json".to_owned()))
    );
    let body = parsed_body(&rejection.body);
    assert_eq!(body["error"]["type"], "invalid_request_error");
    assert_eq!(body["error"]["code"], "mutually_exclusive_parameters");
}

#[test]
fn valid_request_generates_conversation_id() {
    let ctx = run_filter(r#"{"input": "Hi"}"#, &[]);
    assert!(
        ctx.metadata
            .text("responses.conversation_id")
            .is_some_and(|v| v.starts_with("conv_") && v.len() == 37),
        "conversation_id should be conv_ + 32 hex chars"
    );
}

#[test]
fn streaming_background_is_rejected() {
    let action = run_filter_raw(
        r#"{"input": "test"}"#,
        &[
            ("openai_responses_format.stream", "true"),
            ("openai_responses_format.background", "true"),
        ],
    );
    assert_background_rejection(action);
}

#[test]
fn non_streaming_background_is_rejected() {
    let action = run_filter_raw(
        r#"{"input": "test"}"#,
        &[
            ("openai_responses_format.background", "true"),
            ("openai_responses_format.store", "false"),
        ],
    );
    assert_background_rejection(action);
}

#[test]
fn streaming_request_rejection_uses_json_content_type() {
    let action = run_filter_raw("not valid json", &[("openai_responses_format.stream", "true")]);
    if let FilterAction::Reject(rejection) = action {
        let has_content_type = rejection
            .headers
            .iter()
            .any(|(k, v)| k == "content-type" && v == "application/json");
        assert!(
            has_content_type,
            "a stream:true request that fails pre-stream should still use application/json"
        );
        let parsed = parsed_body(&rejection.body);
        assert!(
            parsed.get("error").is_some_and(serde_json::Value::is_object),
            "pre-stream rejection body should be a JSON error envelope, not an SSE event: {parsed}"
        );
    } else {
        panic!("expected rejection");
    }
}

#[test]
fn non_streaming_rejection_has_json_content_type() {
    let action = run_filter_raw("not valid json", &[]);
    if let FilterAction::Reject(rejection) = action {
        let has_content_type = rejection
            .headers
            .iter()
            .any(|(k, v)| k == "content-type" && v == "application/json");
        assert!(
            has_content_type,
            "non-streaming rejection should have application/json content-type"
        );
    } else {
        panic!("expected rejection");
    }
}

#[test]
fn rejection_body_uses_responses_error_format() {
    let action = run_filter_raw("not valid json", &[]);
    if let FilterAction::Reject(rejection) = action {
        let parsed = parsed_body(&rejection.body);
        assert_eq!(
            parsed["error"]["type"].as_str(),
            Some("invalid_request_error"),
            "rejection body should have error type=invalid_request_error"
        );
        assert!(
            parsed["error"]["message"].is_string(),
            "rejection body should contain error message"
        );
        assert!(
            parsed["error"]["param"].is_null(),
            "rejection body should have error param=null"
        );
    } else {
        panic!("expected rejection");
    }
}

#[test]
fn reject_invalid_escapes_control_characters() {
    let action = reject_invalid("line1\nline2");
    if let FilterAction::Reject(rejection) = action {
        let parsed = parsed_body(&rejection.body);
        assert_eq!(
            parsed["error"]["message"].as_str(),
            Some("line1\nline2"),
            "control characters in rejection body should remain valid JSON"
        );
    } else {
        panic!("expected rejection");
    }
}

#[test]
fn skips_chat_completions_request() {
    let mut ctx = context(&[("openai_responses_format.format", "openai_chat_completions")]);
    let action =
        on_request_body(&mut ctx, "POST", "/v1/chat/completions", Some(r#"{"messages":[]}"#), true);
    assert!(
        matches!(action, FilterAction::Release),
        "chat completions request should be released without validation"
    );
    assert!(
        !ctx.metadata.contains("responses.response_id"),
        "responses metadata should not be set for non-responses requests"
    );
}

#[test]
fn skips_missing_format_metadata() {
    let mut ctx = context(&[]);
    let action =
        on_request_body(&mut ctx, "POST", "/v1/responses", Some(r#"{"input":"test"}"#), true);
    assert!(
        matches!(action, FilterAction::Release),
        "request without classifier metadata should be released without validation"
    );
}

#[test]
fn not_end_of_stream_continues() {
    let mut ctx = context(&[]);
    let action =
        on_request_body(&mut ctx, "POST", "/v1/responses", Some(r#"{"input": "partial"}"#), false);
    assert!(
        matches!(action, FilterAction::Continue),
        "non-end-of-stream should continue"
    );
}

#[test]
fn minimal_request_without_model() {
    let ctx = run_filter(r#"{"input": "Hello"}"#, &[]);
    assert!(
        ctx.metadata.contains("responses.response_id"),
        "response_id should still be generated"
    );
}

#[test]
fn skips_get_response_without_body() {
    let mut ctx = classified(&[]);
    let action = on_request_body(&mut ctx, "GET", "/v1/responses/resp_abc123", None, true);
    assert!(
        matches!(action, FilterAction::Release),
        "GET request should be released without body validation"
    );
    assert!(
        !ctx.metadata.contains("responses.response_id"),
        "responses metadata should not be set for bodyless requests"
    );
}

#[test]
fn skips_delete_response_without_body() {
    let action =
        on_request_body(&mut classified(&[]), "DELETE", "/v1/responses/resp_abc123", None, true);
    assert!(
        matches!(action, FilterAction::Release),
        "DELETE request should be released without body validation"
    );
}

#[test]
fn skips_get_input_items_without_body() {
    let path = "/v1/responses/resp_abc123/input_items";
    let action = on_request_body(&mut classified(&[]), "GET", path, None, true);
    assert!(
        matches!(action, FilterAction::Release),
        "GET /input_items request should be released without body validation"
    );
}

#[test]
fn skips_post_cancel_without_body() {
    let mut ctx = classified(&[]);
    let action = on_request_body(&mut ctx, "POST", "/v1/responses/resp_abc123/cancel", None, true);
    assert!(
        matches!(action, FilterAction::Release),
        "POST /cancel request should be released without body validation"
    );
    assert!(
        !ctx.metadata.contains("responses.response_id"),
        "responses metadata should not be set for bodyless requests"
    );
}

#[test]
fn skips_post_cancel_with_trailing_slash() {
    let path = "/v1/responses/resp_abc123/cancel/";
    let action = on_request_body(&mut classified(&[]), "POST", path, None, true);
    assert!(
        matches!(action, FilterAction::Release),
        "POST /cancel/ with trailing slash should be released without body validation"
    );
}

#[test]
fn cancels_name_exactly_one_response() {
    for path in ["/v1/responses//cancel", "/v1/responses/a/b/cancel", "/v1/responses/cancel"] {
        let action = on_request_body(&mut classified(&[]), "POST", path, None, true);
        assert!(matches!(action, FilterAction::Reject(_)), "{path} needs a body");
    }
}

#[test]
fn post_input_tokens_still_validates_body() {
    let action =
        on_request_body(&mut classified(&[]), "POST", "/v1/responses/input_tokens", None, true);
    assert!(
        matches!(action, FilterAction::Reject(_)),
        "POST /input_tokens without body should be rejected, not released"
    );
}

#[test]
fn a_bound_request_is_refused_or_goes_on() {
    let filter = OpenaiResponsesValidateFilter {};
    let mut ctx = classified(&[]);
    let refusal = filter.on_bound_upstream_request_body(
        &mut ctx.metadata,
        &mut ctx.state,
        "POST",
        "/v1/responses",
        None,
        &ids(),
    );
    let rejection = refusal.expect("a request without a body is refused");
    assert_eq!(
        parsed_body(&rejection.body)["error"]["message"],
        "request body is required"
    );
    assert!(ctx.state.is_none());
    let refusal = filter.on_bound_upstream_request_body(
        &mut ctx.metadata,
        &mut ctx.state,
        "POST",
        "/v1/responses",
        Some(br#"{"input": "Hi"}"#),
        &ids(),
    );
    assert!(refusal.is_none());
    assert!(ctx.state.is_some());
}
