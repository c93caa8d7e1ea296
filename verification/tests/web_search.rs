//! Web searches that the model asked for: their execution and what they leave.

use praxis_apis::collections::TextMap;
use praxis_apis::json::Json;
use praxis_apis::json_text::{bytes_of, parse_json, text_of};
use praxis_apis::openai::state::{ResponsesState, SearchAssignment};
use praxis_apis::openai::web_search::config::{
    build_config, SearchContextSize, SearchProvider, WebSearchFilterConfig,
};
use praxis_apis::openai::web_search::dispatch::{
    configured_max_calls_per_round, emit_status, finish_run, next_search, record_outcome,
    remaining_web_search_budget, settled, web_search_response_limit, DispatchOutcome,
    WebSearchFilter,
};
use praxis_apis::openai::web_search::provider::{parse_brave_results, SearchOutcome, SearchResult};
use praxis_apis::openai::web_search::turns::{
    bridge_call_id, build_failed_tool_result_messages, build_incomplete_tool_result_messages,
    build_output_item, build_tool_result_messages, format_search_results, upsert_output_item,
};

/// The value that a text holds.
fn j(text: &str) -> Json {
    parse_json(text.as_bytes()).unwrap()
}

/// The same value, to be looked into.
fn v(value: &Json) -> serde_json::Value {
    serde_json::from_slice(&bytes_of(value)).unwrap()
}

const RESPONSE_CEILING: usize = 1_048_576;

fn make_filter() -> WebSearchFilter {
    let config = filter_config(SearchProvider::Brave, "test-key");
    let unset = Err("not present".to_owned());
    WebSearchFilter::from_config(&config, 32, 64, &unset).ok().unwrap().0
}

fn filter_config(provider: SearchProvider, api_key: &str) -> WebSearchFilterConfig {
    WebSearchFilterConfig {
        provider,
        api_key: Some(api_key.to_owned()),
        default_context_size: Some("medium".to_owned()),
        timeout_ms: Some(5000),
        max_body_bytes: None,
        failure_mode: None,
        status_on_error: None,
    }
}

/// A request whose model asked for the searches `calls`.
fn pending(body: &str, calls: &[&str]) -> ResponsesState {
    let mut state = ResponsesState::from_request_body(j(body));
    for (i, call) in calls.iter().enumerate() {
        state.accumulated_output.push(j(call));
        state.web_search_calls.push(SearchAssignment { output_index: i, ordinal: i });
    }
    state
}

/// Executes the searches of a request with the given answers.
fn execute(
    filter: &WebSearchFilter,
    state: ResponsesState,
    answers: Vec<DispatchOutcome>,
) -> ResponsesState {
    let mut metadata: TextMap<String> = TextMap::new();
    let mut held = Some(state);
    let run = filter.on_request_body(&mut metadata, &mut held, None, 0, true);
    let mut state = held.unwrap();
    let mut answers = answers.into_iter();
    if let Some(mut run) = run {
        while next_search(&mut run, &mut state, RESPONSE_CEILING).is_some() {
            record_outcome(&mut run, &mut state, answers.next().unwrap());
        }
        finish_run(run, &mut state);
    }
    assert!(answers.next().is_none(), "every answer should be asked for");
    state
}

fn brave_results() -> DispatchOutcome {
    DispatchOutcome::Results(parse_brave_results(&j(r#"{
        "web": {
            "results": [{
                "title": "Rust Lang",
                "url": "https://rust-lang.org",
                "description": "Systems programming language"
            }]
        }
    }"#)))
}

fn result(title: &str, url: &str, snippet: &str) -> SearchResult {
    SearchResult { title: title.to_owned(), url: url.to_owned(), snippet: snippet.to_owned() }
}

fn unset() -> Result<String, String> {
    Err("environment variable not found".to_owned())
}

#[test]
fn from_config_brave() {
    let config = build_config(&filter_config(SearchProvider::Brave, "brave-test-key"), &unset());
    assert!(config.is_ok(), "should build filter from valid brave config");
}

#[test]
fn from_config_tavily() {
    let config = build_config(&filter_config(SearchProvider::Tavily, "tvly-test-key"), &unset());
    assert!(config.is_ok(), "should build filter from valid tavily config");
}

#[test]
fn from_config_empty_api_key() {
    let config = build_config(&filter_config(SearchProvider::Brave, ""), &unset());
    assert!(config.is_err(), "should reject empty api_key");
}

#[test]
fn from_config_missing_api_key() {
    let mut config = filter_config(SearchProvider::Brave, "test-key");
    config.api_key = None;
    assert!(build_config(&config, &unset()).is_err(), "should reject config without api_key");
}

#[test]
fn filter_name() {
    assert_eq!(make_filter().name(), "openai_web_search");
}

#[test]
fn emit_status_uses_valid_key() {
    let mut filter_results: TextMap<TextMap<String>> = TextMap::new();

    emit_status(&mut filter_results, "ws_proactive", "searching");

    let results = filter_results.get("openai_web_search").unwrap();
    assert_eq!(
        results.text("web_search_call_ws_proactive"),
        Some("searching"),
        "status should be stored with underscore-separated key"
    );
}

#[test]
fn emit_status_refuses_malformed_keys_and_values() {
    let mut filter_results: TextMap<TextMap<String>> = TextMap::new();
    emit_status(&mut filter_results, "a b", "searching");
    emit_status(&mut filter_results, &"x".repeat(49), "searching");
    emit_status(&mut filter_results, "ok", "line\nbreak");
    emit_status(&mut filter_results, "ok", &"x".repeat(257));
    assert_eq!(filter_results.get("openai_web_search").unwrap().size(), 0);
    emit_status(&mut filter_results, &"x".repeat(48), &"y".repeat(256));
    assert_eq!(filter_results.get("openai_web_search").unwrap().size(), 1);
    for i in 0..200 {
        emit_status(&mut filter_results, &format!("call_{i}"), "searching");
    }
    assert_eq!(filter_results.get("openai_web_search").unwrap().size(), 128);
}

#[test]
fn on_response_body_signals_loop_when_web_search_calls_present() {
    let filter = make_filter();
    let state = Some(pending(
        r#"{"model": "gpt-4o", "input": "test"}"#,
        &[r#"{"type": "web_search_call", "id": "ws_1", "action": {"type": "search", "query": "test query"}}"#],
    ));
    let mut filter_results: TextMap<TextMap<String>> = TextMap::new();

    filter.on_response_body(&state, &mut filter_results, true);

    let results = filter_results
        .get("openai_web_search")
        .expect("should have openai_web_search entry");
    assert_eq!(results.text("action"), Some("loop"));
}

#[test]
fn on_response_body_signals_done_when_no_web_search_calls() {
    let filter = make_filter();
    let state = Some(pending(r#"{"model": "gpt-4o", "input": "test"}"#, &[]));
    let mut filter_results: TextMap<TextMap<String>> = TextMap::new();

    filter.on_response_body(&state, &mut filter_results, true);

    let results = filter_results
        .get("openai_web_search")
        .expect("should have openai_web_search entry");
    assert_eq!(results.text("action"), Some("done"));
}

#[test]
fn on_response_body_passthrough_without_state() {
    let mut filter_results: TextMap<TextMap<String>> = TextMap::new();
    make_filter().on_response_body(&None, &mut filter_results, true);
    assert!(
        filter_results.size() == 0,
        "should not write filter_results without state"
    );
}

#[test]
fn on_response_body_passthrough_on_non_end_of_stream() {
    let state = Some(pending(
        r#"{"model": "gpt-4o", "input": "test"}"#,
        &[r#"{"type": "web_search_call", "id": "ws_1", "action": {"type": "search", "query": "test"}}"#],
    ));
    let mut filter_results: TextMap<TextMap<String>> = TextMap::new();
    make_filter().on_response_body(&state, &mut filter_results, false);
    assert!(
        filter_results.size() == 0,
        "should not set filter_results on non-end-of-stream"
    );
}

#[test]
fn on_request_body_passthrough_without_state() {
    let mut metadata: TextMap<String> = TextMap::new();
    let mut state = None;
    let run = make_filter().on_request_body(&mut metadata, &mut state, None, 0, true);
    assert!(run.is_none());
    assert!(state.is_none());
    assert_eq!(configured_max_calls_per_round(&metadata), Some(32), "the cap is published");
}

#[test]
fn on_request_body_passthrough_when_no_web_search_calls() {
    let mut metadata: TextMap<String> = TextMap::new();
    let mut state = Some(pending(r#"{"model": "gpt-4o", "input": "test"}"#, &[]));
    let run = make_filter().on_request_body(&mut metadata, &mut state, None, 0, true);
    assert!(run.is_none());
    assert!(state.unwrap().web_search_calls.is_empty());
}

#[test]
fn on_request_body_passthrough_on_non_end_of_stream() {
    let mut metadata: TextMap<String> = TextMap::new();
    let mut state = Some(pending(
        r#"{"model": "gpt-4o", "input": "test"}"#,
        &[r#"{"type": "web_search_call", "id": "ws_1", "action": {"type": "search", "query": "test"}}"#],
    ));
    let run = make_filter().on_request_body(&mut metadata, &mut state, None, 0, false);
    assert!(run.is_none());
    assert_eq!(state.unwrap().web_search_calls.len(), 1);
    assert_eq!(configured_max_calls_per_round(&metadata), None);
}

#[test]
fn on_request_body_executes_search_and_populates_state() {
    let state = pending(
        r#"{"model": "gpt-4o", "input": "test", "include": ["web_search_call.action.sources"]}"#,
        &[r#"{"type": "web_search_call", "id": "ws_exec_1", "action": {"type": "search", "query": "rust language"}}"#],
    );

    let state = execute(&make_filter(), state, vec![brave_results()]);

    assert!(
        state.web_search_calls.is_empty(),
        "calls should be cleared after execution"
    );
    assert!(!state.messages.is_empty(), "tool result should be appended to messages");
    assert!(
        !state.persisted_messages.is_empty(),
        "tool result should be appended to persisted_messages"
    );
    assert_eq!(state.web_search_calls_executed, 1);
    assert!(state.locally_executed_output_items.contains("ws_exec_1"));

    let output = v(&state.accumulated_output[0]);
    assert_eq!(output["type"], "web_search_call");
    assert_eq!(output["id"], "ws_exec_1");
    assert_eq!(output["status"], "completed");
    assert_eq!(output["action"]["query"], "rust language");
    assert!(output.get("sources").is_none(), "no top-level sources");
    let sources = output["action"]["sources"].as_array().unwrap();
    assert_eq!(sources.len(), 1);
    assert_eq!(sources[0]["type"], "url");
    assert_eq!(sources[0]["url"], "https://rust-lang.org");
}

#[test]
fn on_request_body_omits_sources_without_include() {
    let state = pending(
        r#"{"model": "gpt-4o", "input": "test"}"#,
        &[r#"{"type": "web_search_call", "id": "ws_exec_2", "action": {"type": "search", "query": "rust language"}}"#],
    );
    let state = execute(&make_filter(), state, vec![brave_results()]);
    let output = v(&state.accumulated_output[0]);
    assert_eq!(output["action"]["query"], "rust language");
    assert!(
        output["action"].get("sources").is_none(),
        "sources omitted when not in include"
    );
}

#[test]
fn on_request_body_missing_query_produces_incomplete_status() {
    let state = pending(
        r#"{"model": "gpt-4o", "input": "test"}"#,
        &[r#"{"type": "web_search_call", "id": "ws_no_query", "action": {"type": "search"}}"#],
    );
    let state = execute(&make_filter(), state, vec![]);
    assert!(state.web_search_calls.is_empty());
    assert_eq!(state.web_search_calls_executed, 0);
    let output = v(&state.accumulated_output[0]);
    assert_eq!(
        output["status"], "incomplete",
        "missing query should produce incomplete status"
    );
    assert_eq!(
        v(state.messages.last().unwrap())["output"],
        "Web search could not run because the query was missing."
    );
}

#[test]
fn on_request_body_provider_failure_produces_failed_item_and_truthful_input() {
    let state = pending(
        r#"{"model": "gpt-4o", "input": "test"}"#,
        &[r#"{"type": "web_search_call", "id": "ws_fail_1", "status": "completed", "action": {"type": "search", "query": "rust language"}}"#],
    );

    let state = execute(&make_filter(), state, vec![DispatchOutcome::Failed]);

    assert!(
        state.web_search_calls.is_empty(),
        "calls should be cleared after execution"
    );
    assert_eq!(
        state.accumulated_output.len(),
        1,
        "the failed outcome must replace the placeholder, not duplicate it"
    );
    let output = v(&state.accumulated_output[0]);
    assert_eq!(output["type"], "web_search_call");
    assert_eq!(output["id"], "ws_fail_1");
    assert_eq!(output["status"], "failed");
    assert_eq!(output["action"]["query"], "rust language");
    assert!(
        state.messages.iter().all(|m| m.get_str("type") != Some("web_search_call")),
        "failure continuation must not feed the model a hosted web_search_call"
    );
    let output = v(state.messages.last().unwrap());
    assert_eq!(output["type"], "function_call_output");
    assert_eq!(output["output"], "Web search unavailable.");
    assert_eq!(
        v(state.persisted_messages.last().unwrap())["output"],
        "Web search unavailable.",
        "persisted history mirrors the model input"
    );
}

#[test]
fn on_request_body_empty_results_remain_completed() {
    let state = pending(
        r#"{"model": "gpt-4o", "input": "test"}"#,
        &[r#"{"type": "web_search_call", "id": "ws_empty_1", "action": {"type": "search", "query": "rust language"}}"#],
    );
    let state = execute(&make_filter(), state, vec![DispatchOutcome::Results(Vec::new())]);
    let output = v(&state.accumulated_output[0]);
    assert_eq!(
        output["status"], "completed",
        "a successful zero-result search stays completed"
    );
    let output = v(state.messages.last().unwrap());
    assert_eq!(output["type"], "function_call_output");
    assert_eq!(output["output"], "No search results found.");
}

#[test]
fn on_request_body_mixed_batch_preserves_completed_and_failed() {
    let state = pending(
        r#"{"model": "gpt-4o", "input": "test"}"#,
        &[
            r#"{"type": "web_search_call", "id": "ws_ok", "status": "completed", "action": {"type": "search", "query": "rust language"}}"#,
            r#"{"type": "web_search_call", "id": "ws_fail", "status": "completed", "action": {"type": "search", "query": "rust crates"}}"#,
        ],
    );

    let state = execute(&make_filter(), state, vec![brave_results(), DispatchOutcome::Failed]);

    assert_eq!(
        state.accumulated_output.len(),
        2,
        "each placeholder is replaced in place, so no duplicates are produced"
    );
    let completed = v(&state.accumulated_output[0]);
    assert_eq!(completed["id"], "ws_ok");
    assert_eq!(completed["status"], "completed");
    let failed = v(&state.accumulated_output[1]);
    assert_eq!(failed["id"], "ws_fail");
    assert_eq!(failed["status"], "failed");

    let outputs: Vec<serde_json::Value> = state
        .messages
        .iter()
        .filter(|m| m.get_str("type") == Some("function_call_output"))
        .map(v)
        .collect();
    assert_eq!(outputs.len(), 2, "one function_call_output per call");
    assert!(
        outputs[0]["output"].as_str().unwrap().contains("Rust Lang"),
        "the completed call feeds its results to the model: {:?}",
        outputs[0]
    );
    assert_eq!(
        outputs[1]["output"], "Web search unavailable.",
        "the failed call feeds the bounded notice to the model"
    );
}

#[test]
fn on_request_body_appends_backend_valid_continuation() {
    let state = pending(
        r#"{"model": "gpt-4o", "input": "test"}"#,
        &[r#"{"type": "web_search_call", "id": "ws_bridge_1", "action": {"type": "search", "query": "rust language"}}"#],
    );
    let state = execute(&make_filter(), state, vec![brave_results()]);

    for scope in [&state.messages, &state.persisted_messages] {
        assert!(
            scope.iter().all(|m| m.get_str("type") != Some("web_search_call")),
            "continuation must not contain hosted web_search_call items"
        );
    }
    let call = state
        .messages
        .iter()
        .find(|m| m.get_str("type") == Some("function_call"))
        .expect("continuation should include a synthetic function_call");
    assert_eq!(call.get_str("name"), Some("web_search"));
    let call_id = call.get_str("call_id").expect("function_call needs a call_id");
    assert!(
        call_id.len() <= 64,
        "bridge call_id must be <= 64 chars, got {}: {call_id}",
        call_id.len()
    );
    assert_ne!(call_id, "ws_bridge_1", "bridge must not reuse the unbounded hosted id");

    let output = state
        .messages
        .iter()
        .find(|m| m.get_str("type") == Some("function_call_output"))
        .expect("continuation should include a function_call_output");
    assert_eq!(output.get_str("call_id"), Some(call_id), "output must reference the call");
    let text = output.get_str("output").expect("output should be a string");
    assert!(
        text.contains("rust-lang.org"),
        "search results must reach the model: {text}"
    );
    let public = v(&state.accumulated_output[0]);
    assert_eq!(
        public["type"], "web_search_call",
        "public web_search_call output is retained for the response only"
    );
    assert_eq!(public["id"], "ws_bridge_1");
}

#[test]
fn calls_over_the_budget_are_declined() {
    let body = r#"{"model": "gpt-4o", "input": "test", "max_tool_calls": 1}"#;
    let calls = [
        r#"{"type": "web_search_call", "id": "ws_a", "action": {"type": "search", "query": "a"}}"#,
        r#"{"type": "web_search_call", "id": "ws_b", "action": {"type": "search", "query": "b"}}"#,
    ];
    let state = execute(&make_filter(), pending(body, &calls), vec![brave_results()]);
    assert_eq!(v(&state.accumulated_output[1])["status"], "incomplete");
    assert_eq!(v(state.messages.last().unwrap())["output"], "Web search not performed.");
    assert!(!state.deferred_tool_limit_completion);

    let mut metadata: TextMap<String> = TextMap::new();
    let mut held = Some(pending(body, &calls));
    let mut run = make_filter()
        .on_request_body(&mut metadata, &mut held, Some(vec![true, false]), 0, true)
        .unwrap();
    let mut state = held.unwrap();
    let task = next_search(&mut run, &mut state, RESPONSE_CEILING).unwrap();
    assert_eq!(task.query, "a");
    record_outcome(&mut run, &mut state, brave_results());
    assert!(next_search(&mut run, &mut state, RESPONSE_CEILING).is_none());
    finish_run(run, &mut state);
    assert_eq!(v(&state.accumulated_output[1])["status"], "failed");
    assert_eq!(
        v(state.messages.last().unwrap())["output"],
        "Web search was not executed because max_tool_calls was exhausted."
    );
    assert!(state.deferred_tool_limit_completion);
}

#[test]
fn a_search_without_room_fails_the_dispatch() {
    let mut state = pending(
        r#"{"input": "test"}"#,
        &[r#"{"type": "web_search_call", "id": "ws_a", "action": {"type": "search", "query": "a"}}"#],
    );
    state.retained_payload_limit = Some(4000);
    let state = execute(&make_filter(), state, vec![]);
    let failure = state.dispatch_failure.unwrap();
    assert_eq!(failure.status, 502);
    assert_eq!(failure.code, "server_error");
    assert!(failure.message.contains("while executing web search"), "{}", failure.message);
    assert!(state.retained_payload_failed);
    assert!(state.accumulated_output.is_empty());
}

#[test]
fn oversized_answers_fail_the_dispatch() {
    let state = pending(
        r#"{"input": "test"}"#,
        &[r#"{"type": "web_search_call", "id": "ws_a", "action": {"type": "search", "query": "a"}}"#],
    );
    let state = execute(&make_filter(), state, vec![DispatchOutcome::RetainedLimitExceeded]);
    assert!(state.retained_payload_failed);
    assert_eq!(state.dispatch_failure.unwrap().status, 502);
}

#[test]
fn response_limits_follow_the_budget() {
    let mut state = pending(r#"{"input": "test"}"#, &[]);
    assert_eq!(web_search_response_limit(&state, "rust", 1000), Some(1000));
    let used = state.retained_payload_bytes().unwrap();
    state.retained_payload_limit = Some(used + 8 * 4 + 4096 + 32 * 7 + 5);
    assert_eq!(web_search_response_limit(&state, "rust", 1000), Some(7));
    state.retained_payload_limit = Some(used + 8 * 4 + 4096 + 31);
    assert_eq!(web_search_response_limit(&state, "rust", 1000), None);
}

#[test]
fn budgets_are_shared_and_capped() {
    assert_eq!(remaining_web_search_budget(None, 5), 64);
    assert_eq!(remaining_web_search_budget(Some(3), 1), 2);
    assert_eq!(remaining_web_search_budget(Some(3), 7), 0);
    assert_eq!(remaining_web_search_budget(Some(u64::MAX), 0), 64);
}

#[test]
fn caps_on_calls_are_bounded() {
    let message = "openai_web_search: max_calls_per_round must be between 1 and 64";
    let unset = Err("not present".to_owned());
    for calls in [0, 65] {
        let empty = filter_config(SearchProvider::Brave, "");
        let refused = WebSearchFilter::from_config(&empty, calls, 64, &unset);
        assert_eq!(refused.err().as_deref(), Some(message));
    }
    let empty = filter_config(SearchProvider::Brave, "");
    let refused = WebSearchFilter::from_config(&empty, 64, 64, &unset);
    assert_eq!(refused.err().as_deref(), Some("openai_web_search: api_key must not be empty"));
}

#[test]
fn build_output_item_completed_with_sources_included() {
    let item = v(&build_output_item("ws_123", "completed", "test query", &vec![], true));
    assert_eq!(item["type"], "web_search_call");
    assert_eq!(item["id"], "ws_123");
    assert_eq!(item["status"], "completed");
    assert_eq!(item["action"]["type"], "search");
    assert_eq!(item["action"]["query"], "test query");
    let sources = item["action"]["sources"].as_array().unwrap();
    assert!(sources.is_empty(), "no sources when results empty");
}

#[test]
fn build_output_item_omits_sources_when_not_included() {
    let results = vec![result("Rust Lang", "https://rust-lang.org", "Systems")];
    let item = v(&build_output_item("ws_123", "completed", "test query", &results, false));
    assert_eq!(item["action"]["type"], "search");
    assert_eq!(item["action"]["query"], "test query");
    assert!(
        item["action"].get("sources").is_none(),
        "sources omitted when include_sources is false"
    );
}

#[test]
fn build_output_item_with_results() {
    let results = vec![
        result("Rust Lang", "https://rust-lang.org", "Systems"),
        result("Crates.io", "https://crates.io", "Packages"),
    ];
    let item = v(&build_output_item("ws_123", "completed", "search query", &results, true));
    assert!(item.get("sources").is_none(), "no top-level sources");
    let sources = item["action"]["sources"].as_array().unwrap();
    assert_eq!(sources.len(), 2);
    assert_eq!(sources[0]["type"], "url");
    assert_eq!(sources[0]["url"], "https://rust-lang.org");
    assert!(sources[0].get("title").is_none(), "title excluded from url source");
    assert_eq!(sources[1]["type"], "url");
    assert_eq!(sources[1]["url"], "https://crates.io");
}

#[test]
fn build_tool_result_messages_empty() {
    let bridge = build_tool_result_messages("ws_123", "completed", "rust", &vec![]);
    assert_eq!(bridge.len(), 2);
    let (call, output) = (v(&bridge[0]), v(&bridge[1]));
    assert_eq!(
        call["type"], "function_call",
        "continuation bridge is a backend-valid function_call/function_call_output pair, never a hosted web_search_call"
    );
    assert_eq!(call["call_id"], "ws_123");
    assert_eq!(call["name"], "web_search");
    assert_eq!(call["arguments"], r#"{"query":"rust"}"#);
    assert_eq!(call["status"], "completed");
    assert_eq!(output["type"], "function_call_output");
    assert_eq!(output["call_id"], "ws_123");
    assert_eq!(output["output"], "No search results found.");
}

#[test]
fn build_tool_result_messages_with_results() {
    let results = vec![result("Example", "https://example.com", "A description")];
    let bridge = build_tool_result_messages("ws_123", "completed", "example query", &results);
    let (call, output) = (v(&bridge[0]), v(&bridge[1]));
    assert_eq!(call["type"], "function_call");
    assert_eq!(call["arguments"], r#"{"query":"example query"}"#);
    assert_eq!(output["type"], "function_call_output");
    assert_eq!(output["call_id"], "ws_123");
    let text = output["output"].as_str().unwrap();
    assert!(text.contains("[1] Example"));
    assert!(text.contains("https://example.com"));
    assert!(text.contains("A description"));
}

#[test]
fn undispatched_and_incomplete_turns_are_truthful() {
    let bridge = build_tool_result_messages("ws_1", "incomplete", "rust", &vec![]);
    assert_eq!(v(&bridge[1])["output"], "Web search not performed.");
    let bridge = build_incomplete_tool_result_messages("ws_1");
    assert_eq!(v(&bridge[0])["arguments"], "{}");
    assert_eq!(
        text_of(&bridge[1]),
        r#"{"type":"function_call_output","call_id":"ws_1","output":"Web search could not run because the query was missing."}"#
    );
}

#[test]
fn bridge_call_id_is_bounded_for_unbounded_source_id() {
    let long_source = format!("ws_{}", "a".repeat(4096));
    let id = bridge_call_id(&long_source, "rust language", 0);
    assert!(
        id.len() <= 64,
        "bridge call_id must be <= 64 chars for an unbounded source id, got {}: {id}",
        id.len()
    );
}

#[test]
fn bridge_call_id_is_deterministic() {
    assert_eq!(
        bridge_call_id("ws_1", "rust", 0),
        bridge_call_id("ws_1", "rust", 0),
        "identical inputs must yield the same bridge call_id"
    );
}

#[test]
fn bridge_call_id_hashes_by_fnv() {
    let mut hash: u64 = 0xCBF2_9CE4_8422_2325;
    for byte in b"ws_1\xffrust\xff" {
        hash = (hash ^ u64::from(*byte)).wrapping_mul(0x0000_0100_0000_01B3);
    }
    assert_eq!(bridge_call_id("ws_1", "rust", 12), format!("ws_12_{hash:016x}"));
}

#[test]
fn bridge_call_id_is_unique_for_duplicate_source_ids() {
    assert_ne!(
        bridge_call_id("ws_dup", "rust", 0),
        bridge_call_id("ws_dup", "rust", 1),
        "duplicate source ids must produce distinct bridge call_ids per index"
    );
}

#[test]
fn bridge_call_id_is_unique_for_absent_source_ids() {
    assert_ne!(
        bridge_call_id("ws_unknown", "rust", 0),
        bridge_call_id("ws_unknown", "rust", 1),
        "absent source ids must still produce distinct bridge call_ids per index"
    );
}

#[test]
fn build_failed_tool_result_messages_carry_bounded_notice() {
    let bridge = build_failed_tool_result_messages("ws_123", "rust");
    let (call, output) = (v(&bridge[0]), v(&bridge[1]));
    assert_eq!(
        call["type"], "function_call",
        "failure bridge is a backend-valid function_call/function_call_output pair, never a hosted web_search_call"
    );
    assert_eq!(call["call_id"], "ws_123");
    assert_eq!(call["name"], "web_search");
    assert_eq!(call["arguments"], r#"{"query":"rust"}"#);
    assert_eq!(call["status"], "completed");
    assert_eq!(output["type"], "function_call_output");
    assert_eq!(output["call_id"], "ws_123");
    assert_eq!(
        output["output"], "Web search unavailable.",
        "failed tool result must feed the model the bounded notice"
    );
}

#[test]
fn upsert_output_item_replaces_matching_web_search_call() {
    let mut accumulated = vec![
        j(r#"{"type": "message", "id": "msg_1"}"#),
        j(r#"{"type": "web_search_call", "id": "ws_1", "status": "completed"}"#),
    ];
    upsert_output_item(
        &mut accumulated,
        1,
        j(r#"{"type": "web_search_call", "id": "ws_1", "status": "failed"}"#),
    );
    assert_eq!(accumulated.len(), 2, "matching id replaces rather than appends");
    assert_eq!(v(&accumulated[1])["status"], "failed");
}

#[test]
fn upsert_output_item_appends_when_no_match() {
    let mut accumulated = vec![j(r#"{"type": "web_search_call", "id": "ws_1"}"#)];
    upsert_output_item(
        &mut accumulated,
        1,
        j(r#"{"type": "web_search_call", "id": "ws_2", "status": "failed"}"#),
    );
    assert_eq!(accumulated.len(), 2, "a new id appends a fresh item");
    assert_eq!(v(&accumulated[1])["id"], "ws_2");
}

#[test]
fn format_search_results_multiple() {
    let results = vec![
        result("First", "https://first.com", "First result"),
        result("Second", "https://second.com", "Second result"),
    ];
    let formatted = format_search_results(&results);
    assert!(formatted.contains("[1] First"));
    assert!(formatted.contains("[2] Second"));
    assert!(formatted.contains("\n\n"), "results should be separated by blank line");
}

#[test]
fn without_a_limit_every_search_is_admitted() {
    let filter = make_filter();
    let mut metadata: TextMap<String> = TextMap::new();
    let call = r#"{"id":"ws_1","type":"web_search_call","action":{"query":"rust"}}"#;
    let refused = || Some(vec![false]);
    let mut unlimited = Some(pending("{}", &[call]));
    let run = filter.on_request_body(&mut metadata, &mut unlimited, refused(), 0, true).unwrap();
    assert!(run.admissions.is_none());

    let mut limited = pending("{}", &[call]);
    limited.max_tool_calls = Some(0);
    let mut limited = Some(limited);
    let run = filter.on_request_body(&mut metadata, &mut limited, refused(), 0, true).unwrap();
    assert_eq!(run.admissions, refused());
}

#[test]
fn a_search_without_results_failed() {
    let found = SearchOutcome::Results(vec![result("t", "u", "s")]);
    assert!(matches!(settled(found), DispatchOutcome::Results(results) if results[0].title == "t"));
    assert!(matches!(settled(SearchOutcome::Skipped), DispatchOutcome::Failed));
    assert!(matches!(settled(SearchOutcome::Rejected(503)), DispatchOutcome::Failed));
}
