//! The blocking orchestrator of web searches.

use praxis_apis::json::Json;
use praxis_apis::json_text::{bytes_of, parse_json};
use praxis_apis::openai::web_search::orchestrator::{
    append_function_call_outputs, bounded_error_body, normalize_web_search_tools, search_calls,
    read_search_answer, Orchestration, RequestDecision, RoundStep, WebSearchConfig,
    WebSearchOrchestratorFilter,
};

/// The value that a text holds.
fn j(text: &str) -> Json {
    parse_json(text.as_bytes()).unwrap()
}

/// The same value, to be looked into.
fn v(value: &Json) -> serde_json::Value {
    serde_json::from_slice(&bytes_of(value)).unwrap()
}

#[test]
fn normalizes_all_seb_supported_web_search_variants() {
    let body = j(r#"{
        "tools": [
            {"type": "web_search"},
            {"type": "web_search_preview"},
            {"type": "web_search_preview_2025_03_11"},
            {"type": "web_search_2025_08_26"}
        ]
    }"#);

    let normalized = normalize_web_search_tools(&body);
    assert_eq!(v(&normalized[0])["type"], "function");
    assert_eq!(v(&normalized[0])["name"], "web_search");
    assert_eq!(normalized.len(), 1);
}

#[test]
fn extracts_completed_web_search_calls() {
    let response = j(r#"{
        "output": [
            {"type": "reasoning"},
            {"type": "function_call", "id": "fc_1", "call_id": "call_1", "name": "web_search", "arguments": "{\"query\":\"latest Rust release\"}", "status": "completed"}
        ]
    }"#);

    let calls = search_calls(&response).ok().expect("valid call");
    assert_eq!(v(&calls[0])["call_id"], "call_1");
    assert_eq!(v(&calls[0])["arguments"]["query"], "latest Rust release");
}

#[test]
fn bounds_provider_error_bodies() {
    let body = "x".repeat(5_000);
    let bounded = bounded_error_body(&body);
    assert_eq!(bounded.chars().count(), 4_099);
    assert!(bounded.ends_with("..."));
}

#[test]
fn appends_function_call_outputs_without_replacing_original_input() {
    let mut body = j(r#"{"input": "Search this", "tools": []}"#);
    append_function_call_outputs(
        &mut body,
        &vec![j(r#"{"type":"function_call_output", "call_id":"call_1", "output":"{\"query\":\"Search this\"}"}"#)],
    );

    assert_eq!(v(&body)["input"][0]["type"], "message");
    assert_eq!(v(&body)["input"][1]["type"], "function_call_output");
    assert_eq!(v(&body)["input"][1]["call_id"], "call_1");
}


fn make_filter(max_tool_rounds: u32) -> WebSearchOrchestratorFilter {
    WebSearchOrchestratorFilter {
        config: WebSearchConfig {
            vllm_base_url: "http://unused".to_owned(),
            you_api_base_url: "http://unused".to_owned(),
            max_tool_rounds,
            timeout_secs: 5,
        },
        api_key: "test-you-key".to_owned(),
    }
}

/// What the answers of a model backend and of a search service make of a request.
fn orchestrate(
    request: &str,
    max_rounds: u32,
    model: &[(u16, &str, &str)],
    search: &[(u16, &str, &str)],
) -> Result<Json, String> {
    let mut run = Orchestration::start(j(request), max_rounds);
    let mut asked = 0;
    let mut searched = 0;
    while run.round < run.max_rounds {
        let (status, reason, body) = model[asked];
        asked += 1;
        let searches = match run.on_model_answer(status, reason, body)? {
            RoundStep::Finished(response) => return Ok(response),
            RoundStep::Search(searches) => searches,
        };
        let mut outputs = Vec::new();
        for search_call in &searches {
            let (status, reason, body) = search[searched];
            searched += 1;
            let output = read_search_answer(&search_call.query, status, reason, body)?;
            outputs.push((search_call.call_id.clone(), output));
        }
        run.on_search_outputs(&outputs);
    }
    unreachable!()
}

const RUST_CALL: &str = r#"{"output": [{"type":"function_call","call_id":"call_1","name":"web_search","arguments":"{\"query\":\"Rust\"}","status":"completed"}]}"#;

#[test]
fn orchestrates_vllm_tool_call_through_you_and_back_to_vllm() {
    let response = orchestrate(
        r#"{"model":"openai/gpt-oss-20b","input":"Find the latest Rust release.","tools":[{"type":"web_search_preview"}]}"#,
        3,
        &[
            (200, "200 OK", r#"{"output": [{"type":"function_call","id":"fc_1","call_id":"call_1","name":"web_search","arguments":"{\"query\":\"latest Rust release\"}","status":"completed"}]}"#),
            (200, "200 OK", r#"{"id":"resp_final","object":"response","status":"completed","output":[{"type":"message","role":"assistant","content":[{"type":"output_text","text":"Rust is current."}]}]}"#),
        ],
        &[(200, "200 OK", r#"{"results": {"web": [{"url":"https://www.rust-lang.org","title":"Rust"}], "news": []}, "metadata": {"search_uuid":"search_1"}}"#)],
    )
    .ok()
    .expect("orchestration should complete");

    assert_eq!(v(&response)["id"], "resp_final");
}

#[test]
fn bypasses_requests_without_web_search_tools() {
    let filter = make_filter(1);
    let body = Some(Vec::from(r#"{"tools": [{"type": "function", "name": "lookup"}]}"#));
    let decision = filter.on_request_body("/v1/responses", &body, true).ok().expect("filter should continue");
    assert!(matches!(decision, RequestDecision::Pass));

    let body = Some(Vec::from(r#"{"stream": true, "tools": [{"type": "web_search_preview"}]}"#));
    let decision = filter
        .on_request_body("/v1/responses", &body, true)
        .ok()
        .expect("filter should reject streaming input");
    assert!(matches!(decision, RequestDecision::Reject(rejection) if rejection.status == 501));
}

#[test]
fn preserves_all_vllm_output_items_between_rounds() {
    let mut run = Orchestration::start(
        j(r#"{"input":"Search","tools":[{"type":"web_search_preview"}]}"#),
        3,
    );
    let first = r#"{"output": [
        {"type":"reasoning","summary":[]},
        {"type":"function_call","call_id":"call_1","name":"web_search","arguments":"{\"query\":\"Rust\"}","status":"completed"}
    ]}"#;
    let step = run.on_model_answer(200, "200 OK", first).ok().unwrap();
    let searches = match step {
        RoundStep::Search(searches) => searches,
        RoundStep::Finished(_) => panic!("the model asked for a search"),
    };
    assert_eq!(searches.len(), 1);
    let output = read_search_answer(&searches[0].query, 200, "200 OK", r#"{"results": {"web": []}}"#);
    run.on_search_outputs(&vec![("call_1".to_owned(), output.ok().unwrap())]);

    let request = v(&run.model_request());
    let kinds: Vec<&str> = request["input"]
        .as_array()
        .unwrap()
        .iter()
        .filter_map(|item| item["type"].as_str())
        .collect();
    assert_eq!(kinds, vec!["message", "reasoning", "function_call", "function_call_output"]);

    let step = run.on_model_answer(200, "200 OK", r#"{"id":"final","output":[]}"#).ok().unwrap();
    match step {
        RoundStep::Finished(response) => assert_eq!(v(&response)["id"], "final"),
        RoundStep::Search(_) => panic!("orchestration should complete"),
    }
}

#[test]
fn returns_vllm_error_details() {
    let error = orchestrate(
        r#"{"tools":[{"type":"web_search_preview"}]}"#,
        1,
        &[(422, "422 Unprocessable Entity", "invalid model")],
        &[],
    )
    .err()
    .expect("vLLM error should propagate");
    assert!(error.contains("422") && error.contains("invalid model"));
    assert_eq!(error, "vLLM returned HTTP 422 Unprocessable Entity: invalid model");
}

#[test]
fn returns_you_error_details() {
    let error = orchestrate(
        r#"{"tools":[{"type":"web_search_preview"}]}"#,
        2,
        &[(200, "200 OK", RUST_CALL)],
        &[(429, "429 Too Many Requests", "rate limited")],
    )
    .err()
    .expect("You.com error should propagate");
    assert!(error.contains("429") && error.contains("rate limited"));
    assert_eq!(error, "You.com returned HTTP 429 Too Many Requests: rate limited");
}

#[test]
fn enforces_max_tool_rounds() {
    let error = orchestrate(
        r#"{"tools":[{"type":"web_search_preview"}]}"#,
        1,
        &[(200, "200 OK", RUST_CALL)],
        &[],
    )
    .err()
    .expect("tool loop should stop at max_tool_rounds");
    assert!(error.contains("max_tool_rounds"));
}

#[test]
fn malformed_answers_are_described() {
    let request = r#"{"tools":[{"type":"web_search_preview"}]}"#;
    let error = orchestrate(request, 2, &[(200, "200 OK", "no json")], &[]).err().unwrap();
    assert!(error.starts_with("vLLM returned invalid JSON: "), "{error}");
    let error =
        orchestrate(request, 2, &[(200, "200 OK", RUST_CALL)], &[(200, "200 OK", "no json")]).err().unwrap();
    assert!(error.starts_with("You.com returned invalid JSON: "), "{error}");
}

#[test]
fn malformed_calls_are_refused() {
    let request = r#"{"tools":[{"type":"web_search_preview"}]}"#;
    let blank = r#"{"output": [{"type":"function_call","call_id":"call_1","name":"web_search","arguments":"{\"query\":\"  \"}","status":"completed"}]}"#;
    let error = orchestrate(request, 2, &[(200, "200 OK", blank)], &[]).err().unwrap();
    assert_eq!(error, "web_search query is required");
    let anonymous = r#"{"output": [{"type":"function_call","name":"web_search","arguments":"{\"query\":\"Rust\"}","status":"completed"}]}"#;
    let error = orchestrate(request, 2, &[(200, "200 OK", anonymous)], &[]).err().unwrap();
    assert_eq!(error, "web_search call missing call_id");
}

#[test]
fn missing_search_sections_are_filled() {
    let output = read_search_answer("rust", 200, "200 OK", "{}").ok().unwrap();
    assert_eq!(output, r#"{"query":"rust","results":{"web":[],"news":[]},"metadata":null}"#);
}

#[test]
fn unusable_configurations_are_refused() {
    let config = |base: &str, rounds: u32, secs: u64| WebSearchConfig {
        vllm_base_url: base.to_owned(),
        you_api_base_url: "https://api.you.com".to_owned(),
        max_tool_rounds: rounds,
        timeout_secs: secs,
    };
    let refusal = |base: &str, rounds: u32, secs: u64| {
        WebSearchOrchestratorFilter::from_config(config(base, rounds, secs), Some("key")).err()
    };
    let message =
        "openai_web_search requires a non-empty vllm_base_url, max_tool_rounds >= 2, and timeout_secs > 0";
    assert_eq!(refusal(" ", 2, 1).as_deref(), Some(message));
    assert_eq!(refusal("http://vllm", 1, 1).as_deref(), Some(message));
    assert_eq!(refusal("http://vllm", 2, 0).as_deref(), Some(message));
    assert_eq!(refusal("http://vllm", 2, 1), None);
    let missing = WebSearchOrchestratorFilter::from_config(config("http://vllm", 2, 1), Some("  "));
    assert_eq!(
        missing.err().as_deref(),
        Some("openai_web_search requires YOU_API_KEY at startup")
    );
    let filter = WebSearchOrchestratorFilter::from_config(config("http://vllm", 2, 1), Some(" key "));
    assert_eq!(filter.ok().unwrap().api_key, "key");
}
