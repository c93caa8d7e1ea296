//! The stream-events filter.

use praxis_apis::collections::TextMap;
use praxis_apis::filter::BodyAccess;
use praxis_apis::json::Json;
use praxis_apis::json_text::{bytes_of, parse_json, text_of};
use praxis_apis::openai::sse::SseParserConfig;
use praxis_apis::openai::state::ResponsesState;
use praxis_apis::openai::stream_events::accumulator::accumulate_response_object;
use praxis_apis::openai::stream_events::config::StreamEventsConfig;
use praxis_apis::openai::stream_events::digest::item_digest;
use praxis_apis::openai::stream_events::filter::{
    OpenaiStreamEventsFilter, ResponseHead, StreamContext,
};
use praxis_apis::openai::stream_events::logical::encode_sse_event;
use praxis_apis::openai::stream_events::parser_state::StreamEventsState;

/// The value that a text holds.
fn j(text: &str) -> Json {
    parse_json(text.as_bytes()).unwrap()
}

/// The same value, to be looked into.
fn v(value: &Json) -> serde_json::Value {
    serde_json::from_slice(&bytes_of(value)).unwrap()
}

trait JsonText {
    fn json_text(&self) -> String;
}

impl JsonText for Json {
    fn json_text(&self) -> String {
        text_of(self)
    }
}

impl JsonText for i32 {
    fn json_text(&self) -> String {
        self.to_string()
    }
}

impl JsonText for String {
    fn json_text(&self) -> String {
        serde_json::to_string(self).unwrap()
    }
}

fn text_arg(value: &impl JsonText) -> String {
    value.json_text()
}

/// The value that a text holds, its placeholders filled.
fn fill(text: &str, parts: &[String]) -> Json {
    let mut filled = text.to_owned();
    for (i, part) in parts.iter().enumerate() {
        filled = filled.replace(&format!("\"${i}\""), part);
    }
    j(&filled)
}

fn items(state: &ResponsesState) -> Vec<serde_json::Value> {
    state.output_items().map_or(Vec::new(), |items| items.iter().map(v).collect())
}

fn calls(state: &ResponsesState) -> Vec<serde_json::Value> {
    state.tool_calls().iter().map(v).collect()
}

/// A request and what the filter knows of it.
struct Exchange {
    inner: StreamContext,
    method: String,
    path: String,
    typed_streaming: bool,
    head: Option<ResponseHead>,
}

fn exchange(method: &str, path: &str) -> Exchange {
    Exchange {
        inner: StreamContext::new(),
        method: method.to_owned(),
        path: path.to_owned(),
        typed_streaming: false,
        head: None,
    }
}

struct Filter(OpenaiStreamEventsFilter);

impl Filter {
    fn on_request(&self, ctx: &mut Exchange) {
        self.0.on_request(&mut ctx.inner, &ctx.method, &ctx.path, ctx.typed_streaming);
    }

    fn on_response(&self, ctx: &mut Exchange) {
        self.0.on_response(&mut ctx.inner, &ctx.head);
    }

    fn on_response_body(&self, ctx: &mut Exchange, body: &mut Option<Vec<u8>>, end: bool) {
        self.0.on_response_body(&mut ctx.inner, body, end, 0);
    }
}

fn filter_with(config: StreamEventsConfig) -> Result<Filter, String> {
    OpenaiStreamEventsFilter::from_config(&config).map(Filter)
}

fn make_filter() -> Filter {
    filter_with(StreamEventsConfig::default()).ok().unwrap()
}

fn make_logical_filter() -> Filter {
    let config = StreamEventsConfig { logical_stream: true, ..StreamEventsConfig::default() };
    filter_with(config).ok().unwrap()
}

fn make_armed_context() -> (Filter, Exchange) {
    let mut ctx = exchange("POST", "/v1/responses");
    ctx.inner.set_metadata("openai_responses_format.format", "openai_responses");
    ctx.inner.set_metadata("openai_responses_format.stream", "true");
    (make_filter(), ctx)
}

fn make_response() -> ResponseHead {
    ResponseHead { status: 200, headers: Vec::new() }
}

fn add_header(head: &mut ResponseHead, name: &str, value: &str) {
    head.headers.push((name.to_owned(), value.as_bytes().to_vec()));
}

fn round_parser(max_buffer_bytes: usize) -> StreamEventsState {
    let config = SseParserConfig { max_buffer_bytes, max_events: 100_000, timeout_secs: 300 };
    StreamEventsState::new(config, StreamEventsConfig::default().limits(), false, 0, 0)
}

fn publish_loop(ctx: &mut Exchange, filter: &str) {
    let mut results: TextMap<String> = TextMap::new();
    results.put_text("action", "loop");
    ctx.inner.filter_results.insert(filter, results);
}

fn make_sse_chunk(event_type: &str, data: &Json) -> Vec<u8> {
    let mut payload = v(data);
    payload
        .as_object_mut()
        .unwrap()
        .entry("type")
        .or_insert_with(|| serde_json::Value::String(event_type.to_owned()));
    Vec::from(format!("event: {event_type}\ndata: {payload}\n\n"))
}

/// Records for each accumulated item that a dispatch filter executed it.
fn mark_accumulated_output_executed(state: &mut ResponsesState) {
    let executed: Vec<String> = state
        .accumulated_output
        .iter()
        .filter_map(|item| item.get_str("id").map(str::to_owned))
        .collect();
    for id in &executed {
        state.locally_executed_output_items.insert(id);
    }
}

/// Runs a bare first round that hands over to a dispatch loop, and stages the
/// accumulated items for the round that resumes.
fn arm_resumed_round_with_accumulated(loop_filter: &str, accumulated: Vec<Json>) -> (Filter, Exchange) {
    let filter = make_logical_filter();
    let mut ctx = exchange("POST", "/v1/responses");
    ctx.typed_streaming = true;
    ctx.inner.state = Some(ResponsesState::from_request_body(j(
        r#"{"model": "test-model", "input": "hello", "stream": true}"#,
    )));
    filter.on_request(&mut ctx);

    let mut created = Some(make_sse_chunk(
        "response.created",
        &j(r#"{"response": {"id": "resp_a", "status": "in_progress", "output": []}, "sequence_number": 0}"#),
    ));
    filter.on_response_body(&mut ctx, &mut created, false);
    publish_loop(&mut ctx, loop_filter);
    let mut first_eos = None;
    filter.on_response_body(&mut ctx, &mut first_eos, true);

    let state = ctx.inner.state.as_mut().unwrap();
    state.iteration = 1;
    state.accumulated_output = accumulated;
    mark_accumulated_output_executed(state);
    ctx.inner.filter_results.remove(loop_filter);
    filter.on_request(&mut ctx);

    (filter, ctx)
}

/// What one text delta of the resumed model looks like to the client.
fn resumed_text_delta(filter: &Filter, ctx: &mut Exchange) -> String {
    let mut resumed_created = Some(make_sse_chunk(
        "response.created",
        &j(r#"{"response": {"id": "resp_b", "status": "in_progress", "output": []}, "sequence_number": 0}"#),
    ));
    filter.on_response_body(ctx, &mut resumed_created, false);
    let mut delta = Some(make_sse_chunk(
        "response.output_text.delta",
        &j(r#"{
            "response_id": "resp_b",
            "output_index": 0,
            "content_index": 0,
            "delta": "x",
            "sequence_number": 1
        }"#),
    ));
    filter.on_response_body(ctx, &mut delta, false);
    String::from_utf8(delta.unwrap()).unwrap()
}

#[test]
fn default_config_parses() {
    let filter = OpenaiStreamEventsFilter::from_config(&StreamEventsConfig::default()).unwrap();
    assert_eq!(filter.name(), "openai_stream_events");
}

#[test]
fn custom_config_overrides_apply() {
    let filter = filter_with(StreamEventsConfig {
        max_buffer_bytes: Some(1048576),
        max_events: Some(500),
        timeout_secs: Some(60),
        ..StreamEventsConfig::default()
    });
    assert!(filter.is_ok(), "custom config should parse");
}

#[test]
fn logical_stream_requires_response_write_access() {
    let filter = make_logical_filter();
    assert_eq!(
        filter.0.response_body_access(),
        BodyAccess::ReadWrite,
        "logical lifecycle normalization rewrites emitted SSE frames"
    );
}

#[test]
fn zero_max_buffer_bytes_rejected() {
    let result = filter_with(StreamEventsConfig { max_buffer_bytes: Some(0), ..StreamEventsConfig::default() });
    assert!(result.is_err(), "zero max_buffer_bytes should be rejected");
}

#[test]
fn zero_max_events_rejected() {
    let result = filter_with(StreamEventsConfig { max_events: Some(0), ..StreamEventsConfig::default() });
    assert!(result.is_err(), "zero max_events should be rejected");
}

#[test]
fn zero_timeout_secs_rejected() {
    let result = filter_with(StreamEventsConfig { timeout_secs: Some(0), ..StreamEventsConfig::default() });
    assert!(result.is_err(), "zero timeout_secs should be rejected");
}

#[test]
fn zero_max_tool_call_argument_bytes_rejected() {
    let result = filter_with(StreamEventsConfig { max_tool_call_argument_bytes: Some(0), ..StreamEventsConfig::default() });
    assert!(result.is_err(), "zero max_tool_call_argument_bytes should be rejected");
}

#[test]
fn oversized_max_buffer_bytes_rejected() {
    let result = filter_with(StreamEventsConfig { max_buffer_bytes: Some(100000000), ..StreamEventsConfig::default() });
    assert!(result.is_err(), "max_buffer_bytes above 64 MiB should be rejected");
}

#[test]
fn oversized_max_tool_call_argument_bytes_rejected() {
    let result = filter_with(StreamEventsConfig { max_tool_call_argument_bytes: Some(100000000), ..StreamEventsConfig::default() });
    assert!(
        result.is_err(),
        "max_tool_call_argument_bytes above 64 MiB should be rejected"
    );
}

#[test]
fn arms_for_streaming_responses_request() {
    let (filter, mut ctx) = make_armed_context();
    filter.on_request(&mut ctx);
    assert!(
        ctx.inner.parser.is_some(),
        "filter should be armed"
    );
}

#[test]
fn arms_for_typed_streaming_selection_without_classifier_metadata() {
    let filter = make_filter();
    let mut ctx = exchange("POST", "/v1/responses");
    ctx.typed_streaming = true;

    filter.on_request(&mut ctx);

    assert!(
        ctx.inner.parser.is_some(),
        "typed terminal streaming selection should arm the SSE parser"
    );
}

#[test]
fn arm_publishes_logical_stream_marker_when_enabled() {
    let (_default, mut ctx) = make_armed_context();
    let filter = make_logical_filter();

    filter.on_request(&mut ctx);

    assert_eq!(
        ctx.inner.get_metadata("responses.logical_stream"),
        Some("true"),
        "logical_stream must publish the per-round marker openai_agentic_loop consumes"
    );
}

#[test]
fn arm_omits_logical_stream_marker_when_disabled() {
    let (filter, mut ctx) = make_armed_context();

    filter.on_request(&mut ctx);

    assert!(
        ctx.inner.get_metadata("responses.logical_stream").is_none(),
        "a non-logical stream_events filter must not publish the logical_stream marker"
    );
}

#[test]
fn does_not_arm_for_non_streaming() {
    let filter = make_filter();
    let mut ctx = exchange("POST", "/v1/responses");
    ctx.inner.set_metadata("openai_responses_format.format", "openai_responses");
    ctx.inner.set_metadata("openai_responses_format.stream", "false");

    filter.on_request(&mut ctx);
    assert!(
        ctx.inner.parser.is_none(),
        "filter should not arm for non-streaming"
    );
}

#[test]
fn does_not_arm_for_non_responses_format() {
    let filter = make_filter();
    let mut ctx = exchange("POST", "/v1/chat/completions");
    ctx.inner.set_metadata("openai_responses_format.format", "openai_chat_completions");
    ctx.inner.set_metadata("openai_responses_format.stream", "true");

    filter.on_request(&mut ctx);
    assert!(
        ctx.inner.parser.is_none(),
        "filter should not arm for non-responses format"
    );
}

#[test]
fn does_not_arm_for_other_responses_routes() {
    for (method, path) in [
        ("GET", "/v1/responses"),
        ("POST", "/v1/responses/input_tokens"),
    ] {
        let filter = make_filter();
        let mut ctx = exchange(method, path);
        ctx.inner.set_metadata("openai_responses_format.format", "openai_responses");
        ctx.inner.set_metadata("openai_responses_format.stream", "true");

        filter.on_request(&mut ctx);

            assert!(
            ctx.inner.parser.is_none(),
            "filter should not arm for {path}"
        );
    }
}

#[test]
fn unarmed_filter_passes_through_body() {
    let filter = make_filter();
    let mut ctx = exchange("POST", "/v1/responses");

    let mut body = Some(Vec::from("data: {}\n\n"));
    filter.on_response_body(&mut ctx, &mut body, false);
    assert!(body.is_some(), "body should not be consumed");
}

#[test]
fn logical_stream_suppresses_intermediate_terminal_and_normalizes_resumed_turn() {
    let filter = make_logical_filter();
    let mut ctx = exchange("POST", "/v1/responses");
    ctx.typed_streaming = true;
    ctx.inner.state = Some(ResponsesState::from_request_body(j(r#"{
        "model": "test-model",
        "input": "hello",
        "stream": true
    }"#)));

    filter.on_request(&mut ctx);

    let mut created = Some(make_sse_chunk(
        "response.created",
        &j(r#"{
            "response": {"id": "resp_first", "status": "in_progress", "output": []},
            "sequence_number": 0
        }"#),
    ));
    filter.on_response_body(&mut ctx, &mut created, false);
    assert!(
        String::from_utf8_lossy(created.as_ref().unwrap()).contains("resp_first"),
        "the first response lifecycle should be emitted"
    );

    let function_call = j(r#"{
        "type": "function_call",
        "id": "fc_1",
        "call_id": "call_1",
        "name": "weather__get",
        "arguments": "{}",
        "status": "completed"
    }"#);
    let mut terminal = Some(make_sse_chunk(
        "response.completed",
        &fill(r#"{
            "response": {"id": "resp_first", "status": "completed", "output": ["$0"]},
            "sequence_number": 1
        }"#, &[text_arg(&function_call)]),
    ));
    filter.on_response_body(&mut ctx, &mut terminal, false);
    assert!(terminal.is_none(), "the per-turn terminal must be withheld");
    publish_loop(&mut ctx, "openai_mcp_dispatch");
    let mut first_eos = None;
    filter.on_response_body(&mut ctx, &mut first_eos, true);
    assert!(
        first_eos.is_none(),
        "an agentic transition must suppress the intermediate terminal"
    );

    let state = ctx.inner.state.as_mut().unwrap();
    state.iteration = 1;
    state.accumulated_output = vec![function_call, j(r#"{"type": "mcp_call", "id": "mcp_1"}"#)];
    mark_accumulated_output_executed(state);
    ctx.inner.filter_results.remove("openai_mcp_dispatch");
    filter.on_request(&mut ctx);

    let mut resumed_created = Some(make_sse_chunk(
        "response.created",
        &j(r#"{
            "response": {"id": "resp_second", "status": "in_progress", "output": []},
            "sequence_number": 0
        }"#),
    ));
    filter.on_response_body(&mut ctx, &mut resumed_created, false);
    assert!(
        resumed_created.is_none(),
        "resumed lifecycle creation must be suppressed"
    );

    let mut delta = Some(make_sse_chunk(
        "response.output_text.delta",
        &j(r#"{
            "response_id": "resp_second",
            "output_index": 0,
            "content_index": 0,
            "delta": "done",
            "sequence_number": 1
        }"#),
    ));
    filter.on_response_body(&mut ctx, &mut delta, false);
    let delta = String::from_utf8(delta.unwrap().to_vec()).unwrap();
    assert!(
        delta.contains(r#""response_id":"resp_first""#),
        "logical response ID should remain stable: {delta}"
    );
    assert!(
        delta.contains(r#""output_index":2"#),
        "resumed output index should include prior tool items: {delta}"
    );
    assert!(
        delta.contains("event: response.output_item.added") && delta.contains("event: response.output_item.done"),
        "the locally executed MCP call should surface as incremental output-item events: {delta}"
    );
    assert!(
        delta.contains(r#""output_index":1"#),
        "the synthesized MCP call should occupy its reserved output index: {delta}"
    );
    assert!(
        delta.contains("event: response.mcp_call.in_progress"),
        "the synthesized MCP call must emit an in_progress progress event: {delta}"
    );
    assert!(
        delta.contains("event: response.mcp_call.completed"),
        "a successful MCP call must emit a completed outcome event: {delta}"
    );
    assert!(
        !delta.contains("event: response.mcp_call.failed"),
        "a successful MCP call must not emit a failed outcome event: {delta}"
    );
    let added = delta.find("event: response.output_item.added").unwrap();
    let in_progress = delta.find("event: response.mcp_call.in_progress").unwrap();
    let completed = delta.find("event: response.mcp_call.completed").unwrap();
    let done = delta.find("event: response.output_item.done").unwrap();
    assert!(
        added < in_progress && in_progress < completed && completed < done,
        "progress and outcome events must be ordered added -> in_progress -> completed -> done: {delta}"
    );
    let synthesized_mcp = delta.find("mcp_1").unwrap();
    let resumed_text = delta.find("response.output_text.delta").unwrap();
    assert!(
        synthesized_mcp < resumed_text,
        "synthesized tool activity must precede resumed model output: {delta}"
    );

    let final_message = j(r#"{
        "type": "message",
        "id": "msg_1",
        "role": "assistant",
        "status": "completed",
        "content": [{"type": "output_text", "text": "done"}]
    }"#);
    let mut final_terminal = Some(make_sse_chunk(
        "response.completed",
        &fill(r#"{
            "response": {
                "id": "resp_second",
                "status": "completed",
                "output": ["$0"],
                "usage": {"input_tokens": 2, "output_tokens": 1, "total_tokens": 3}
            },
            "sequence_number": 2
        }"#, &[text_arg(&final_message)]),
    ));
    filter.on_response_body(&mut ctx, &mut final_terminal, false);
    assert!(final_terminal.is_none(), "final terminal should be held until EOS");
    ctx.inner.state.as_mut().unwrap()
        .accumulated_output
        .push(final_message);
    let mut final_eos = None;
    filter.on_response_body(&mut ctx, &mut final_eos, true);
    let final_eos = String::from_utf8(final_eos.unwrap().to_vec()).unwrap();
    assert!(
        final_eos.contains("event: response.completed"),
        "final terminal should be emitted: {final_eos}"
    );
    assert!(
        final_eos.contains(r#""id":"resp_first""#),
        "terminal response ID should remain stable: {final_eos}"
    );
    assert!(
        final_eos.contains("mcp_1"),
        "terminal output should contain the accumulated tool result: {final_eos}"
    );
    assert!(
        final_eos.contains("msg_1"),
        "terminal output should contain the final message: {final_eos}"
    );
    let state = ctx.inner.state.as_ref().unwrap();
    assert_eq!(
        v(&state.response_object)["id"], "resp_first",
        "the persisted response object must use the client-visible logical ID"
    );
    assert_eq!(
        v(&state.response_object)["output"].as_array().map(Vec::len),
        Some(3),
        "the persisted response object must contain every logical-stream output item"
    );
}

#[test]
fn logical_stream_synthesizes_missing_progress_for_local_and_model_declared_items() {
    let filter = make_logical_filter();
    let mut ctx = exchange("POST", "/v1/responses");
    ctx.typed_streaming = true;
    ctx.inner.state = Some(ResponsesState::from_request_body(j(r#"{
        "model": "test-model",
        "input": "hello",
        "stream": true
    }"#)));

    filter.on_request(&mut ctx);

    let mut created = Some(make_sse_chunk(
        "response.created",
        &j(r#"{
            "response": {"id": "resp_a", "status": "in_progress", "output": []},
            "sequence_number": 0
        }"#),
    ));
    filter.on_response_body(&mut ctx, &mut created, false);

    let web_search_call = j(r#"{
        "type": "web_search_call",
        "id": "ws_model_1",
        "status": "completed",
        "action": {"type": "search", "query": "rust"}
    }"#);
    let mut model_item = Some(make_sse_chunk(
        "response.output_item.added",
        &fill(r#"{
            "response_id": "resp_a",
            "output_index": 0,
            "item": "$0",
            "sequence_number": 1
        }"#, &[text_arg(&web_search_call)]),
    ));
    filter.on_response_body(&mut ctx, &mut model_item, false);
    publish_loop(&mut ctx, "openai_web_search");
    let mut first_eos = None;
    filter.on_response_body(&mut ctx, &mut first_eos, true);

    let state = ctx.inner.state.as_mut().unwrap();
    state.iteration = 1;
    state.accumulated_output = vec![
        web_search_call,
        j(r#"{"type": "mcp_call", "id": "mcp_local_1"}"#),
        j(r#"{"type": "web_search_call", "id": "ws_local_2", "status": "completed"}"#),
    ];
    mark_accumulated_output_executed(state);
    ctx.inner.filter_results.remove("openai_web_search");
    filter.on_request(&mut ctx);

    let mut resumed_created = Some(make_sse_chunk(
        "response.created",
        &j(r#"{
            "response": {"id": "resp_b", "status": "in_progress", "output": []},
            "sequence_number": 0
        }"#),
    ));
    filter.on_response_body(&mut ctx, &mut resumed_created, false);
    assert!(
        resumed_created.is_none(),
        "resumed lifecycle creation must be suppressed"
    );

    let mut delta = Some(make_sse_chunk(
        "response.output_text.delta",
        &j(r#"{
            "response_id": "resp_b",
            "output_index": 0,
            "content_index": 0,
            "delta": "done",
            "sequence_number": 1
        }"#),
    ));
    filter.on_response_body(&mut ctx, &mut delta, false);
    let delta = String::from_utf8(delta.unwrap().to_vec()).unwrap();
    assert!(
        delta.contains("mcp_local_1"),
        "the locally executed MCP call must be synthesized: {delta}"
    );
    assert!(
        delta.contains("ws_local_2"),
        "a web_search_call absent from the upstream stream must be synthesized: {delta}"
    );
    assert_eq!(
        delta.matches("event: response.output_item.added").count(),
        2,
        "only the two fully-local items should get a fresh output_item.added: {delta}"
    );
    assert!(
        delta.contains("ws_model_1"),
        "a model-declared web_search_call must receive its missing progress lifecycle: {delta}"
    );
    assert_eq!(
        delta.matches("event: response.web_search_call.in_progress").count(),
        2,
        "both web searches must emit a leading in_progress event: {delta}"
    );
    assert_eq!(
        delta.matches("event: response.web_search_call.searching").count(),
        2,
        "both web searches must emit a searching event: {delta}"
    );
    assert_eq!(
        delta.matches("event: response.web_search_call.completed").count(),
        2,
        "both completed web searches must emit a completed outcome: {delta}"
    );
    assert!(
        delta.contains("event: response.mcp_call.in_progress") && delta.contains("event: response.mcp_call.completed"),
        "the synthesized MCP call must emit its progress and outcome events: {delta}"
    );
    assert_eq!(
        delta.matches("event: response.output_item.done").count(),
        3,
        "every local tool item must receive a fresh output_item.done: {delta}"
    );

    let mut delta2 = Some(make_sse_chunk(
        "response.output_text.delta",
        &j(r#"{
            "response_id": "resp_b",
            "output_index": 0,
            "content_index": 0,
            "delta": "!",
            "sequence_number": 2
        }"#),
    ));
    filter.on_response_body(&mut ctx, &mut delta2, false);
    let delta2 = String::from_utf8(delta2.unwrap().to_vec()).unwrap();
    assert!(
        !delta2.contains("mcp_local_1") && !delta2.contains("ws_local_2") && !delta2.contains("ws_model_1"),
        "local items must be synthesized only once per resumed round: {delta2}"
    );
}

#[test]
fn logical_stream_suppresses_malformed_chunk_and_emits_terminal_error() {
    let filter = make_logical_filter();
    let mut ctx = exchange("POST", "/v1/responses");
    ctx.typed_streaming = true;
    ctx.inner.state = Some(ResponsesState::from_request_body(j(r#"{
        "model": "test-model",
        "input": "hello",
        "stream": true
    }"#)));
    filter.on_request(&mut ctx);

    let mut created = Some(make_sse_chunk(
        "response.created",
        &j(r#"{
            "response": {"id": "resp_first", "status": "in_progress", "output": []},
            "sequence_number": 0
        }"#),
    ));
    filter.on_response_body(&mut ctx, &mut created, false);

    let mut malformed = Some(Vec::from(
        "event: response.output_text.delta\ndata: {\"response_id\":\"resp_second\",bad}\n\n",
    ));
    filter.on_response_body(&mut ctx, &mut malformed, false);
    assert!(
        malformed.is_none(),
        "a malformed logical-stream chunk must never bypass normalization"
    );

    let mut eos = None;
    filter.on_response_body(&mut ctx, &mut eos, true);
    let eos = String::from_utf8(eos.unwrap().to_vec()).unwrap();
    assert!(
        eos.contains("event: error"),
        "the logical stream should terminate with an SSE error: {eos}"
    );
    assert!(
        !eos.contains("resp_second"),
        "the malformed resumed response identity must not leak downstream: {eos}"
    );
    assert_eq!(
        ctx.inner.get_metadata("responses.skip_persist"),
        Some("true"),
        "parse-error streams must not be persisted"
    );
}

#[test]
fn logical_stream_failed_mcp_call_emits_failed_outcome_event() {
    let (filter, mut ctx) = arm_resumed_round_with_accumulated(
        "openai_mcp_dispatch",
        vec![j(r#"{
            "type": "mcp_call",
            "id": "mcp_fail_1",
            "error": "connection refused"
        }"#)],
    );

    let delta = resumed_text_delta(&filter, &mut ctx);
    assert!(
        delta.contains("event: response.mcp_call.in_progress"),
        "a failed MCP call still emits an in_progress event first: {delta}"
    );
    assert!(
        delta.contains("event: response.mcp_call.failed"),
        "an MCP call carrying an error must emit a failed outcome event: {delta}"
    );
    assert!(
        !delta.contains("event: response.mcp_call.completed"),
        "a failed MCP call must not emit a completed outcome event: {delta}"
    );
    let added = delta.find("event: response.output_item.added").unwrap();
    let failed = delta.find("event: response.mcp_call.failed").unwrap();
    let done = delta.find("event: response.output_item.done").unwrap();
    assert!(
        added < failed && failed < done,
        "outcome must be ordered added -> failed -> done: {delta}"
    );
}

#[test]
fn logical_stream_synthesizes_progress_for_model_declared_item_without_repeating_added() {
    let filter = make_logical_filter();
    let mut ctx = exchange("POST", "/v1/responses");
    ctx.typed_streaming = true;
    ctx.inner.state = Some(ResponsesState::from_request_body(j(r#"{
        "model": "test-model",
        "input": "hello",
        "stream": true
    }"#)));
    filter.on_request(&mut ctx);

    let mut created = Some(make_sse_chunk(
        "response.created",
        &j(r#"{
            "response": {"id": "resp_a", "status": "in_progress", "output": []},
            "sequence_number": 0
        }"#),
    ));
    filter.on_response_body(&mut ctx, &mut created, false);

    let mut model_item = Some(make_sse_chunk(
        "response.output_item.added",
        &j(r#"{
            "response_id": "resp_a",
            "output_index": 0,
            "item": {"type": "web_search_call", "id": "ws_1", "status": "in_progress"},
            "sequence_number": 1
        }"#),
    ));
    filter.on_response_body(&mut ctx, &mut model_item, false);
    publish_loop(&mut ctx, "openai_web_search");
    let mut first_eos = None;
    filter.on_response_body(&mut ctx, &mut first_eos, true);

    let state = ctx.inner.state.as_mut().unwrap();
    state.iteration = 1;
    state.accumulated_output = vec![j(r#"{"type": "web_search_call", "id": "ws_1", "status": "completed"}"#)];
    mark_accumulated_output_executed(state);
    ctx.inner.filter_results.remove("openai_web_search");
    filter.on_request(&mut ctx);

    let delta = resumed_text_delta(&filter, &mut ctx);
    assert!(
        delta.contains("event: response.web_search_call.completed"),
        "a locally completed web search must emit a completed outcome event: {delta}"
    );
    assert!(
        delta.contains("event: response.output_item.done"),
        "the synthesized lifecycle must emit a fresh output_item.done: {delta}"
    );
    assert!(
        !delta.contains("event: response.output_item.added"),
        "the model already streamed output_item.added; synthesis must not repeat it: {delta}"
    );
    assert!(
        delta.contains("event: response.web_search_call.in_progress")
            && delta.contains("event: response.web_search_call.searching"),
        "the missing leading progress events must be synthesized once: {delta}"
    );
}

#[test]
fn logical_stream_synthesizes_progress_when_model_streams_added_then_done_without_progress() {
    let filter = make_logical_filter();
    let mut ctx = exchange("POST", "/v1/responses");
    ctx.typed_streaming = true;
    ctx.inner.state = Some(ResponsesState::from_request_body(j(r#"{
        "model": "test-model",
        "input": "hello",
        "stream": true
    }"#)));
    filter.on_request(&mut ctx);

    let mut created = Some(make_sse_chunk(
        "response.created",
        &j(r#"{
            "response": {"id": "resp_a", "status": "in_progress", "output": []},
            "sequence_number": 0
        }"#),
    ));
    filter.on_response_body(&mut ctx, &mut created, false);

    let completed_item = j(r#"{"type": "web_search_call", "id": "ws_1", "status": "completed"}"#);
    let mut model_added = Some(make_sse_chunk(
        "response.output_item.added",
        &j(r#"{
            "response_id": "resp_a",
            "output_index": 0,
            "item": {"type": "web_search_call", "id": "ws_1", "status": "in_progress"},
            "sequence_number": 1
        }"#),
    ));
    filter.on_response_body(&mut ctx, &mut model_added, false);
    let mut model_done = Some(make_sse_chunk(
        "response.output_item.done",
        &fill(r#"{
            "response_id": "resp_a",
            "output_index": 0,
            "item": "$0",
            "sequence_number": 2
        }"#, &[text_arg(&completed_item)]),
    ));
    filter.on_response_body(&mut ctx, &mut model_done, false);
    assert!(
        model_done.is_none(),
        "the premature round-0 output_item.done for a locally executed tool must be suppressed"
    );
    publish_loop(&mut ctx, "openai_web_search");
    let mut first_eos = None;
    filter.on_response_body(&mut ctx, &mut first_eos, true);

    let state = ctx.inner.state.as_mut().unwrap();
    state.iteration = 1;
    state.accumulated_output = vec![completed_item];
    mark_accumulated_output_executed(state);
    ctx.inner.filter_results.remove("openai_web_search");
    filter.on_request(&mut ctx);

    let delta = resumed_text_delta(&filter, &mut ctx);
    assert!(
        delta.contains("event: response.web_search_call.in_progress")
            && delta.contains("event: response.web_search_call.searching")
            && delta.contains("event: response.web_search_call.completed"),
        "output_item.done must not suppress the still-missing progress lifecycle: {delta}"
    );
    assert_eq!(
        delta.matches("event: response.output_item.done").count(),
        1,
        "the resumed round must emit exactly one output_item.done: {delta}"
    );
    assert!(
        !delta.contains("event: response.output_item.added"),
        "the model already streamed output_item.added; synthesis must not repeat it: {delta}"
    );
    let in_progress = delta.find("event: response.web_search_call.in_progress").unwrap();
    let searching = delta.find("event: response.web_search_call.searching").unwrap();
    let completed = delta.find("event: response.web_search_call.completed").unwrap();
    let done = delta.find("event: response.output_item.done").unwrap();
    assert!(
        in_progress < searching && searching < completed && completed < done,
        "the single done must be ordered after the progress lifecycle: {delta}"
    );
}

#[test]
fn logical_stream_does_not_resynthesize_progress_streamed_in_band_by_model() {
    let filter = make_logical_filter();
    let mut ctx = exchange("POST", "/v1/responses");
    ctx.typed_streaming = true;
    ctx.inner.state = Some(ResponsesState::from_request_body(j(r#"{
        "model": "test-model",
        "input": "hello",
        "stream": true
    }"#)));
    filter.on_request(&mut ctx);

    let mut created = Some(make_sse_chunk(
        "response.created",
        &j(r#"{
            "response": {"id": "resp_a", "status": "in_progress", "output": []},
            "sequence_number": 0
        }"#),
    ));
    filter.on_response_body(&mut ctx, &mut created, false);

    let hosted_item = j(r#"{
        "type": "web_search_call",
        "id": "ws_1",
        "status": "completed",
        "action": {"type": "search", "query": "rust"}
    }"#);
    let mut model_added = Some(make_sse_chunk(
        "response.output_item.added",
        &j(r#"{
            "response_id": "resp_a",
            "output_index": 0,
            "item": {"type": "web_search_call", "id": "ws_1", "status": "in_progress"},
            "sequence_number": 1
        }"#),
    ));
    filter.on_response_body(&mut ctx, &mut model_added, false);
    for (seq, event_type) in [
        (2, "response.web_search_call.in_progress"),
        (3, "response.web_search_call.searching"),
        (4, "response.web_search_call.completed"),
    ] {
        let mut progress = Some(make_sse_chunk(
            event_type,
            &fill(r#"{"item_id": "ws_1", "output_index": 0, "sequence_number": "$0"}"#, &[text_arg(&seq)]),
        ));
        filter.on_response_body(&mut ctx, &mut progress, false);
        assert!(
            progress.is_some(),
            "the model's in-band progress event must pass through: {event_type}"
        );
    }
    let mut model_done = Some(make_sse_chunk(
        "response.output_item.done",
        &fill(r#"{
            "response_id": "resp_a",
            "output_index": 0,
            "item": "$0",
            "sequence_number": 5
        }"#, &[text_arg(&hosted_item)]),
    ));
    filter.on_response_body(&mut ctx, &mut model_done, false);
    publish_loop(&mut ctx, "openai_web_search");
    let mut first_eos = None;
    filter.on_response_body(&mut ctx, &mut first_eos, true);

    let state = ctx.inner.state.as_mut().unwrap();
    state.iteration = 1;
    state.accumulated_output = vec![hosted_item];
    mark_accumulated_output_executed(state);
    ctx.inner.filter_results.remove("openai_web_search");
    filter.on_request(&mut ctx);

    let delta = resumed_text_delta(&filter, &mut ctx);
    assert!(
        !delta.contains("ws_1"),
        "an item whose lifecycle streamed in-band must not be re-synthesized: {delta}"
    );
    assert!(
        !delta.contains("event: response.web_search_call.in_progress")
            && !delta.contains("event: response.web_search_call.searching")
            && !delta.contains("event: response.web_search_call.completed"),
        "the in-band progress lifecycle must not be duplicated: {delta}"
    );
    assert!(
        !delta.contains("event: response.output_item.added") && !delta.contains("event: response.output_item.done"),
        "a fully delivered hosted item must not be re-announced or re-finalized: {delta}"
    );
}

#[test]
fn logical_stream_synthesizes_missing_phases_after_partial_in_band_lifecycle() {
    let filter = make_logical_filter();
    let mut ctx = exchange("POST", "/v1/responses");
    ctx.typed_streaming = true;
    ctx.inner.state = Some(ResponsesState::from_request_body(j(r#"{
        "model": "test-model",
        "input": "hello",
        "stream": true
    }"#)));
    filter.on_request(&mut ctx);

    let mut created = Some(make_sse_chunk(
        "response.created",
        &j(r#"{
            "response": {"id": "resp_a", "status": "in_progress", "output": []},
            "sequence_number": 0
        }"#),
    ));
    filter.on_response_body(&mut ctx, &mut created, false);

    let completed_item = j(r#"{"type": "web_search_call", "id": "ws_1", "status": "completed"}"#);
    let mut model_added = Some(make_sse_chunk(
        "response.output_item.added",
        &j(r#"{
            "response_id": "resp_a",
            "output_index": 0,
            "item": {"type": "web_search_call", "id": "ws_1", "status": "in_progress"},
            "sequence_number": 1
        }"#),
    ));
    filter.on_response_body(&mut ctx, &mut model_added, false);
    let mut in_progress = Some(make_sse_chunk(
        "response.web_search_call.in_progress",
        &j(r#"{"item_id": "ws_1", "output_index": 0, "sequence_number": 2}"#),
    ));
    filter.on_response_body(&mut ctx, &mut in_progress, false);
    assert!(
        in_progress.is_some(),
        "the model's in-band in_progress event must pass through to the client"
    );
    let mut model_done = Some(make_sse_chunk(
        "response.output_item.done",
        &fill(r#"{
            "response_id": "resp_a",
            "output_index": 0,
            "item": "$0",
            "sequence_number": 3
        }"#, &[text_arg(&completed_item)]),
    ));
    filter.on_response_body(&mut ctx, &mut model_done, false);
    assert!(
        model_done.is_none(),
        "a done that finalizes a still-partial local-tool lifecycle must be suppressed"
    );
    publish_loop(&mut ctx, "openai_web_search");
    let mut first_eos = None;
    filter.on_response_body(&mut ctx, &mut first_eos, true);

    let state = ctx.inner.state.as_mut().unwrap();
    state.iteration = 1;
    state.accumulated_output = vec![completed_item];
    mark_accumulated_output_executed(state);
    ctx.inner.filter_results.remove("openai_web_search");
    filter.on_request(&mut ctx);

    let delta = resumed_text_delta(&filter, &mut ctx);
    assert!(
        delta.contains("event: response.web_search_call.searching"),
        "a phase missing from the in-band lifecycle must be synthesized: {delta}"
    );
    assert!(
        delta.contains("event: response.web_search_call.completed"),
        "the terminal outcome missing from the in-band lifecycle must be synthesized: {delta}"
    );
    assert!(
        !delta.contains("event: response.web_search_call.in_progress"),
        "the in_progress phase already streamed in-band must not be repeated: {delta}"
    );
    assert!(
        !delta.contains("event: response.output_item.added"),
        "the model already streamed output_item.added; synthesis must not repeat it: {delta}"
    );
    assert_eq!(
        delta.matches("event: response.output_item.done").count(),
        1,
        "the resumed round must emit exactly one output_item.done: {delta}"
    );
    let searching = delta.find("event: response.web_search_call.searching").unwrap();
    let completed = delta.find("event: response.web_search_call.completed").unwrap();
    let done = delta.find("event: response.output_item.done").unwrap();
    assert!(
        searching < completed && completed < done,
        "the synthesized phases must be ordered searching -> completed -> done: {delta}"
    );
}

#[test]
fn logical_stream_fills_middle_phase_after_leading_in_band_progress() {
    let filter = make_logical_filter();
    let mut ctx = exchange("POST", "/v1/responses");
    ctx.typed_streaming = true;
    ctx.inner.state = Some(ResponsesState::from_request_body(j(r#"{
        "model": "test-model",
        "input": "hello",
        "stream": true
    }"#)));
    filter.on_request(&mut ctx);

    let mut created = Some(make_sse_chunk(
        "response.created",
        &j(r#"{
            "response": {"id": "resp_a", "status": "in_progress", "output": []},
            "sequence_number": 0
        }"#),
    ));
    filter.on_response_body(&mut ctx, &mut created, false);

    let mut model_added = Some(make_sse_chunk(
        "response.output_item.added",
        &j(r#"{
            "response_id": "resp_a",
            "output_index": 0,
            "item": {"type": "web_search_call", "id": "ws_1", "status": "in_progress"},
            "sequence_number": 1
        }"#),
    ));
    filter.on_response_body(&mut ctx, &mut model_added, false);
    let mut in_progress = Some(make_sse_chunk(
        "response.web_search_call.in_progress",
        &j(r#"{"item_id": "ws_1", "output_index": 0, "sequence_number": 2}"#),
    ));
    filter.on_response_body(&mut ctx, &mut in_progress, false);
    assert!(
        in_progress.is_some(),
        "the model's in-band in_progress event must pass through to the client"
    );
    publish_loop(&mut ctx, "openai_web_search");
    let mut first_eos = None;
    filter.on_response_body(&mut ctx, &mut first_eos, true);

    let state = ctx.inner.state.as_mut().unwrap();
    state.iteration = 1;
    state.accumulated_output = vec![j(r#"{"type": "web_search_call", "id": "ws_1", "status": "completed"}"#)];
    mark_accumulated_output_executed(state);
    ctx.inner.filter_results.remove("openai_web_search");
    filter.on_request(&mut ctx);

    let delta = resumed_text_delta(&filter, &mut ctx);
    assert!(
        delta.contains("event: response.web_search_call.searching"),
        "the middle `searching` phase missing in-band must be synthesized, not dropped: {delta}"
    );
    assert!(
        delta.contains("event: response.web_search_call.completed"),
        "the terminal outcome must be synthesized: {delta}"
    );
    assert!(
        !delta.contains("event: response.web_search_call.in_progress"),
        "the in_progress phase already streamed in-band must not be repeated: {delta}"
    );
    assert!(
        !delta.contains("event: response.output_item.added"),
        "the model already streamed output_item.added; synthesis must not repeat it: {delta}"
    );
    let searching = delta.find("event: response.web_search_call.searching").unwrap();
    let completed = delta.find("event: response.web_search_call.completed").unwrap();
    let done = delta.find("event: response.output_item.done").unwrap();
    assert!(
        searching < completed && completed < done,
        "the synthesized phases must be ordered searching -> completed -> done: {delta}"
    );
}

#[test]
fn logical_stream_keeps_in_band_done_when_outcome_streams_without_searching() {
    let filter = make_logical_filter();
    let mut ctx = exchange("POST", "/v1/responses");
    ctx.typed_streaming = true;
    ctx.inner.state = Some(ResponsesState::from_request_body(j(r#"{
        "model": "test-model",
        "input": "hello",
        "stream": true
    }"#)));
    filter.on_request(&mut ctx);

    let mut created = Some(make_sse_chunk(
        "response.created",
        &j(r#"{
            "response": {"id": "resp_a", "status": "in_progress", "output": []},
            "sequence_number": 0
        }"#),
    ));
    filter.on_response_body(&mut ctx, &mut created, false);

    let completed_item = j(r#"{"type": "web_search_call", "id": "ws_1", "status": "completed"}"#);
    let mut model_added = Some(make_sse_chunk(
        "response.output_item.added",
        &j(r#"{
            "response_id": "resp_a",
            "output_index": 0,
            "item": {"type": "web_search_call", "id": "ws_1", "status": "in_progress"},
            "sequence_number": 1
        }"#),
    ));
    filter.on_response_body(&mut ctx, &mut model_added, false);

    let mut in_progress = Some(make_sse_chunk(
        "response.web_search_call.in_progress",
        &j(r#"{"item_id": "ws_1", "output_index": 0, "sequence_number": 2}"#),
    ));
    filter.on_response_body(&mut ctx, &mut in_progress, false);
    assert!(in_progress.is_some(), "the in-band in_progress event must pass through");

    let mut completed = Some(make_sse_chunk(
        "response.web_search_call.completed",
        &j(r#"{"item_id": "ws_1", "output_index": 0, "sequence_number": 3}"#),
    ));
    filter.on_response_body(&mut ctx, &mut completed, false);
    assert!(completed.is_some(), "the in-band completed event must pass through");

    let mut model_done = Some(make_sse_chunk(
        "response.output_item.done",
        &fill(r#"{
            "response_id": "resp_a",
            "output_index": 0,
            "item": "$0",
            "sequence_number": 4
        }"#, &[text_arg(&completed_item)]),
    ));
    filter.on_response_body(&mut ctx, &mut model_done, false);
    assert!(
        model_done.is_some(),
        "a done whose terminal phase already streamed in-band is authoritative and must pass through"
    );

    publish_loop(&mut ctx, "openai_web_search");
    let mut first_eos = None;
    filter.on_response_body(&mut ctx, &mut first_eos, true);

    let state = ctx.inner.state.as_mut().unwrap();
    state.iteration = 1;
    state.accumulated_output = vec![completed_item];
    mark_accumulated_output_executed(state);
    ctx.inner.filter_results.remove("openai_web_search");
    filter.on_request(&mut ctx);

    let delta = resumed_text_delta(&filter, &mut ctx);
    assert!(
        !delta.contains("event: response.web_search_call.searching"),
        "a phase the backend skipped must not be back-filled after the outcome: {delta}"
    );
    assert!(
        !delta.contains("event: response.web_search_call.completed"),
        "the terminal outcome already streamed in-band must not be duplicated: {delta}"
    );
    assert!(
        !delta.contains("event: response.output_item.done"),
        "the backend's authoritative done was already delivered; none must be synthesized: {delta}"
    );
    assert!(
        !delta.contains("ws_1"),
        "a fully delivered hosted item must not be re-synthesized in the resumed round: {delta}"
    );
}

#[test]
fn logical_stream_honors_skipped_leading_phase_when_only_searching_streamed() {
    let filter = make_logical_filter();
    let mut ctx = exchange("POST", "/v1/responses");
    ctx.typed_streaming = true;
    ctx.inner.state = Some(ResponsesState::from_request_body(j(r#"{
        "model": "test-model",
        "input": "hello",
        "stream": true
    }"#)));
    filter.on_request(&mut ctx);

    let mut created = Some(make_sse_chunk(
        "response.created",
        &j(r#"{
            "response": {"id": "resp_a", "status": "in_progress", "output": []},
            "sequence_number": 0
        }"#),
    ));
    filter.on_response_body(&mut ctx, &mut created, false);

    let mut model_added = Some(make_sse_chunk(
        "response.output_item.added",
        &j(r#"{
            "response_id": "resp_a",
            "output_index": 0,
            "item": {"type": "web_search_call", "id": "ws_1", "status": "in_progress"},
            "sequence_number": 1
        }"#),
    ));
    filter.on_response_body(&mut ctx, &mut model_added, false);

    let mut searching = Some(make_sse_chunk(
        "response.web_search_call.searching",
        &j(r#"{"item_id": "ws_1", "output_index": 0, "sequence_number": 2}"#),
    ));
    filter.on_response_body(&mut ctx, &mut searching, false);
    assert!(searching.is_some(), "the in-band searching event must pass through");

    publish_loop(&mut ctx, "openai_web_search");
    let mut first_eos = None;
    filter.on_response_body(&mut ctx, &mut first_eos, true);

    let state = ctx.inner.state.as_mut().unwrap();
    state.iteration = 1;
    state.accumulated_output = vec![j(r#"{"type": "web_search_call", "id": "ws_1", "status": "completed"}"#)];
    mark_accumulated_output_executed(state);
    ctx.inner.filter_results.remove("openai_web_search");
    filter.on_request(&mut ctx);

    let delta = resumed_text_delta(&filter, &mut ctx);
    assert!(
        delta.contains("event: response.web_search_call.completed"),
        "the still-owed terminal outcome must be synthesized: {delta}"
    );
    assert!(
        !delta.contains("event: response.web_search_call.in_progress"),
        "the skipped leading in_progress must not be back-filled after searching: {delta}"
    );
    assert!(
        !delta.contains("event: response.web_search_call.searching"),
        "the searching phase already streamed in-band must not be repeated: {delta}"
    );
    assert!(
        !delta.contains("event: response.output_item.added"),
        "the model already streamed output_item.added; synthesis must not repeat it: {delta}"
    );
    assert_eq!(
        delta.matches("event: response.output_item.done").count(),
        1,
        "the resumed round must emit exactly one output_item.done: {delta}"
    );
    let completed = delta.find("event: response.web_search_call.completed").unwrap();
    let done = delta.find("event: response.output_item.done").unwrap();
    assert!(
        completed < done,
        "the synthesized outcome must precede the fresh done: {delta}"
    );
}

#[test]
fn logical_stream_reemits_outcome_when_local_item_gains_sources() {
    let (filter, mut ctx) = arm_resumed_round_with_accumulated(
        "openai_web_search",
        vec![j(r#"{
            "type": "web_search_call",
            "id": "ws_sources_1",
            "status": "completed",
            "action": {"type": "search", "query": "rust"}
        }"#)],
    );

    let first = resumed_text_delta(&filter, &mut ctx);
    assert!(
        first.contains("event: response.output_item.added")
            && first.contains("event: response.web_search_call.in_progress")
            && first.contains("event: response.web_search_call.searching")
            && first.contains("event: response.web_search_call.completed")
            && first.contains("event: response.output_item.done"),
        "the first synthesis must emit the full search lifecycle: {first}"
    );

    let state = ctx.inner.state.as_mut().unwrap();
    state.iteration = 2;
    state.accumulated_output = vec![j(r#"{
        "type": "web_search_call",
        "id": "ws_sources_1",
        "status": "completed",
        "action": {
            "type": "search",
            "query": "rust",
            "sources": [{"type": "url", "url": "https://blog.rust-lang.org"}]
        }
    }"#)];
    mark_accumulated_output_executed(state);
    filter.on_request(&mut ctx);

    let second = resumed_text_delta(&filter, &mut ctx);
    assert!(
        second.contains("blog.rust-lang.org"),
        "the re-emitted output_item.done must carry the newly added sources: {second}"
    );
    assert_eq!(
        second.matches("event: response.output_item.done").count(),
        1,
        "a content change must re-emit exactly one fresh output_item.done: {second}"
    );
    assert!(
        !second.contains("event: response.web_search_call.completed"),
        "the payloadless terminal phase must not be re-emitted on a content change; \
         only the output_item.done envelope carries the changed item: {second}"
    );
    assert!(
        !second.contains("event: response.output_item.added"),
        "content re-emission must not repeat output_item.added: {second}"
    );
    assert!(
        !second.contains("event: response.web_search_call.in_progress")
            && !second.contains("event: response.web_search_call.searching"),
        "content re-emission must not repeat the leading progress events: {second}"
    );
}

#[test]
fn item_digest_ignores_key_order_but_tracks_value_changes() {
    let base = j(r#"{
        "type": "web_search_call",
        "id": "ws_1",
        "status": "completed",
        "action": {"type": "search", "query": "rust", "sources": [{"url": "https://a", "type": "url"}]}
    }"#);
    let reordered = j(r#"{
        "action": {"sources": [{"type": "url", "url": "https://a"}], "query": "rust", "type": "search"},
        "status": "completed",
        "id": "ws_1",
        "type": "web_search_call"
    }"#);
    assert_eq!(
        item_digest(&base),
        item_digest(&reordered),
        "a pure key reorder (top-level and nested) must not change the digest"
    );

    let changed = j(r#"{
        "type": "web_search_call",
        "id": "ws_1",
        "status": "completed",
        "action": {"type": "search", "query": "rust", "sources": [{"url": "https://b", "type": "url"}]}
    }"#);
    assert_ne!(
        item_digest(&base),
        item_digest(&changed),
        "a nested value change must change the digest"
    );
}

#[test]
fn item_digest_hashes_numbers_without_conflating_shapes() {
    let integer = j(r#"{"type": "mcp_call", "id": "c", "n": 5}"#);
    let float = j(r#"{"type": "mcp_call", "id": "c", "n": 5.0}"#);
    assert_ne!(
        item_digest(&integer),
        item_digest(&float),
        "integer 5 and float 5.0 are distinct values and must not share a digest"
    );

    let same_integer = j(r#"{"type": "mcp_call", "id": "c", "n": 5}"#);
    assert_eq!(
        item_digest(&integer),
        item_digest(&same_integer),
        "the same integer must hash identically across serializations"
    );

    let changed = j(r#"{"type": "mcp_call", "id": "c", "n": 6}"#);
    assert_ne!(
        item_digest(&integer),
        item_digest(&changed),
        "a numeric value change must change the digest"
    );

    let negative = j(r#"{"type": "mcp_call", "id": "c", "n": -5}"#);
    assert_ne!(
        item_digest(&integer),
        item_digest(&negative),
        "sign is part of a number's value and must change the digest"
    );
}

#[test]
fn logical_stream_finalizes_local_item_when_done_envelope_missing_and_content_unchanged() {
    let filter = make_logical_filter();
    let mut ctx = exchange("POST", "/v1/responses");
    ctx.typed_streaming = true;
    ctx.inner.state = Some(ResponsesState::from_request_body(j(r#"{
        "model": "test-model",
        "input": "hello",
        "stream": true
    }"#)));
    filter.on_request(&mut ctx);

    let mut created = Some(make_sse_chunk(
        "response.created",
        &j(r#"{
            "response": {"id": "resp_a", "status": "in_progress", "output": []},
            "sequence_number": 0
        }"#),
    ));
    filter.on_response_body(&mut ctx, &mut created, false);

    let completed_item = j(r#"{"type": "web_search_call", "id": "ws_1", "status": "completed"}"#);
    let mut model_added = Some(make_sse_chunk(
        "response.output_item.added",
        &fill(r#"{
            "response_id": "resp_a",
            "output_index": 0,
            "item": "$0",
            "sequence_number": 1
        }"#, &[text_arg(&completed_item)]),
    ));
    filter.on_response_body(&mut ctx, &mut model_added, false);

    for (seq, phase) in [
        (2, "response.web_search_call.in_progress"),
        (3, "response.web_search_call.searching"),
        (4, "response.web_search_call.completed"),
    ] {
        let mut chunk = Some(make_sse_chunk(
            phase,
            &fill(r#"{"item_id": "ws_1", "output_index": 0, "sequence_number": "$0"}"#, &[text_arg(&seq)]),
        ));
        filter.on_response_body(&mut ctx, &mut chunk, false);
        assert!(chunk.is_some(), "the in-band {phase} event must pass through");
    }

    publish_loop(&mut ctx, "openai_web_search");
    let mut first_eos = None;
    filter.on_response_body(&mut ctx, &mut first_eos, true);

    let state = ctx.inner.state.as_mut().unwrap();
    state.iteration = 1;
    state.accumulated_output = vec![completed_item];
    mark_accumulated_output_executed(state);
    ctx.inner.filter_results.remove("openai_web_search");
    filter.on_request(&mut ctx);

    let delta = resumed_text_delta(&filter, &mut ctx);
    assert_eq!(
        delta.matches("event: response.output_item.done").count(),
        1,
        "the missing done envelope must be finalized with exactly one output_item.done: {delta}"
    );
    assert!(
        !delta.contains("event: response.web_search_call.completed"),
        "no phase may be re-emitted; every phase already streamed in-band: {delta}"
    );
    assert!(
        !delta.contains("event: response.web_search_call.in_progress")
            && !delta.contains("event: response.web_search_call.searching"),
        "no leading phase may be re-emitted; all already streamed in-band: {delta}"
    );
    assert!(
        !delta.contains("event: response.output_item.added"),
        "the item was already announced; output_item.added must not repeat: {delta}"
    );
}

#[test]
fn logical_stream_finalizes_without_duplicating_terminal_phase_when_content_changed() {
    let filter = make_logical_filter();
    let mut ctx = exchange("POST", "/v1/responses");
    ctx.typed_streaming = true;
    ctx.inner.state = Some(ResponsesState::from_request_body(j(r#"{
        "model": "test-model",
        "input": "hello",
        "stream": true
    }"#)));
    filter.on_request(&mut ctx);

    let mut created = Some(make_sse_chunk(
        "response.created",
        &j(r#"{
            "response": {"id": "resp_a", "status": "in_progress", "output": []},
            "sequence_number": 0
        }"#),
    ));
    filter.on_response_body(&mut ctx, &mut created, false);

    let mut model_added = Some(make_sse_chunk(
        "response.output_item.added",
        &j(r#"{
            "response_id": "resp_a",
            "output_index": 0,
            "item": {"type": "web_search_call", "id": "ws_1", "status": "in_progress"},
            "sequence_number": 1
        }"#),
    ));
    filter.on_response_body(&mut ctx, &mut model_added, false);

    for (seq, phase) in [
        (2, "response.web_search_call.in_progress"),
        (3, "response.web_search_call.searching"),
        (4, "response.web_search_call.completed"),
    ] {
        let mut chunk = Some(make_sse_chunk(
            phase,
            &fill(r#"{"item_id": "ws_1", "output_index": 0, "sequence_number": "$0"}"#, &[text_arg(&seq)]),
        ));
        filter.on_response_body(&mut ctx, &mut chunk, false);
        assert!(chunk.is_some(), "the in-band {phase} event must pass through");
    }

    publish_loop(&mut ctx, "openai_web_search");
    let mut first_eos = None;
    filter.on_response_body(&mut ctx, &mut first_eos, true);

    let state = ctx.inner.state.as_mut().unwrap();
    state.iteration = 1;
    state.accumulated_output = vec![j(r#"{
        "type": "web_search_call",
        "id": "ws_1",
        "status": "completed",
        "action": {"type": "search", "query": "rust", "sources": [{"type": "url", "url": "https://a"}]}
    }"#)];
    mark_accumulated_output_executed(state);
    ctx.inner.filter_results.remove("openai_web_search");
    filter.on_request(&mut ctx);

    let delta = resumed_text_delta(&filter, &mut ctx);
    assert_eq!(
        delta.matches("event: response.output_item.done").count(),
        1,
        "a content change with a missing done envelope must yield exactly one output_item.done: {delta}"
    );
    assert!(
        delta.contains("https://a"),
        "the finalizing output_item.done must carry the updated item content: {delta}"
    );
    assert!(
        !delta.contains("event: response.web_search_call.completed"),
        "the payloadless terminal phase already streamed in-band must not be re-emitted: {delta}"
    );
    assert!(
        !delta.contains("event: response.output_item.added"),
        "the item was already announced; output_item.added must not repeat: {delta}"
    );
}

#[test]
fn logical_stream_error_still_flushes_pending_local_items() {
    let (filter, mut ctx) = arm_resumed_round_with_accumulated(
        "openai_mcp_dispatch",
        vec![j(r#"{"type": "mcp_call", "id": "mcp_pending_1"}"#)],
    );

    let mut malformed = Some(Vec::from(
        "event: response.output_text.delta\ndata: {\"response_id\":\"resp_b\",bad}\n\n",
    ));
    filter.on_response_body(&mut ctx, &mut malformed, false);
    assert!(malformed.is_none(), "a malformed resumed chunk must be suppressed");

    let mut eos = None;
    filter.on_response_body(&mut ctx, &mut eos, true);
    let eos = String::from_utf8(eos.unwrap().to_vec()).unwrap();
    assert!(
        eos.contains("mcp_pending_1"),
        "an already-executed local tool item must be streamed before the terminal error: {eos}"
    );
    assert!(
        eos.contains("event: response.output_item.added") && eos.contains("event: response.mcp_call.completed"),
        "the pending local item must carry its synthesized lifecycle: {eos}"
    );
    assert!(
        eos.contains("event: error"),
        "the stream must still terminate with an error: {eos}"
    );
    let flushed = eos.find("mcp_pending_1").unwrap();
    let error = eos.find("event: error").unwrap();
    assert!(
        flushed < error,
        "pending local items must precede the terminal error: {eos}"
    );
}

#[test]
fn logical_stream_multi_frame_parse_error_still_flushes_pending_local_items() {
    let (filter, mut ctx) = arm_resumed_round_with_accumulated(
        "openai_mcp_dispatch",
        vec![j(r#"{"type": "mcp_call", "id": "mcp_pending_multi"}"#)],
    );

    let mut chunk = Some(Vec::from(
        "event: response.output_text.delta\ndata: {\"type\":\"response.output_text.delta\",\"response_id\":\"resp_b\",\"output_index\":0,\"content_index\":0,\"delta\":\"hi\",\"sequence_number\":1}\n\nevent: response.output_text.delta\ndata: {\"response_id\":\"resp_b\",bad}\n\n",
    ));
    filter.on_response_body(&mut ctx, &mut chunk, false);
    assert!(
        chunk.is_none(),
        "a chunk whose later frame is malformed must be discarded wholesale"
    );

    let mut eos = None;
    filter.on_response_body(&mut ctx, &mut eos, true);
    let eos = String::from_utf8(eos.unwrap().to_vec()).unwrap();
    assert!(
        eos.contains("mcp_pending_multi"),
        "the executed local tool item must survive the mid-chunk parse error: {eos}"
    );
    assert!(
        eos.contains("event: response.output_item.added") && eos.contains("event: response.mcp_call.completed"),
        "the recovered local item must carry its synthesized lifecycle: {eos}"
    );
    assert!(
        eos.contains("event: error"),
        "the stream must still terminate with an error: {eos}"
    );
    let flushed = eos.find("mcp_pending_multi").unwrap();
    let error = eos.find("event: error").unwrap();
    assert!(
        flushed < error,
        "the recovered local item must precede the terminal error: {eos}"
    );
}

#[test]
fn logical_stream_error_does_not_fabricate_lifecycle_for_unexecuted_placeholder() {
    let filter = make_logical_filter();
    let mut ctx = exchange("POST", "/v1/responses");
    ctx.typed_streaming = true;
    ctx.inner.state = Some(ResponsesState::from_request_body(j(r#"{
        "model": "test-model",
        "input": "hi",
        "stream": true
    }"#)));
    filter.on_request(&mut ctx);

    let mut created = Some(make_sse_chunk(
        "response.created",
        &j(r#"{
            "response": {"id": "resp_a", "status": "in_progress", "output": []},
            "sequence_number": 0
        }"#),
    ));
    filter.on_response_body(&mut ctx, &mut created, false);
    let mut added = Some(make_sse_chunk(
        "response.output_item.added",
        &j(r#"{
            "response_id": "resp_a",
            "output_index": 0,
            "item": {"type": "web_search_call", "id": "ws_ghost", "status": "in_progress"},
            "sequence_number": 1
        }"#),
    ));
    filter.on_response_body(&mut ctx, &mut added, false);

    let state = ctx.inner.state.as_mut().unwrap();
    state.accumulated_output = vec![j(r#"{
        "type": "web_search_call",
        "id": "ws_ghost",
        "status": "in_progress"
    }"#)];

    let mut malformed = Some(Vec::from(
        "event: response.output_text.delta\ndata: {\"response_id\":\"resp_a\",bad}\n\n",
    ));
    filter.on_response_body(&mut ctx, &mut malformed, false);

    let mut eos = None;
    filter.on_response_body(&mut ctx, &mut eos, true);
    let eos = String::from_utf8(eos.unwrap().to_vec()).unwrap();
    assert!(
        eos.contains("event: error"),
        "the stream must terminate with an error: {eos}"
    );
    assert!(
        !eos.contains("event: response.web_search_call.in_progress")
            && !eos.contains("event: response.web_search_call.searching"),
        "an unexecuted web_search_call placeholder must not gain a fabricated lifecycle: {eos}"
    );
    assert!(
        !eos.contains("event: response.output_item.done"),
        "an unexecuted placeholder must not be finalized with a synthesized done: {eos}"
    );
}

#[test]
fn terminal_event_writes_response_object() {
    let (filter, mut ctx) = make_armed_context();
    filter.on_request(&mut ctx);

    let response_payload = j(r#"{
        "id": "resp_123",
        "object": "response",
        "status": "completed",
        "model": "gpt-4o",
        "created_at": 1700000000,
        "output": [
            {"type": "message", "role": "assistant", "content": [{"type": "output_text", "text": "Hello"}]}
        ],
        "usage": {"input_tokens": 10, "output_tokens": 5, "total_tokens": 15}
    }"#);

    let mut body = Some(make_sse_chunk("response.completed", &response_payload));
    filter.on_response_body(&mut ctx, &mut body, false);

    let state = ctx.inner.state.as_ref().unwrap();
    assert_eq!(v(&state.response_object)["id"], "resp_123");
    assert_eq!(items(state).len(), 1);
    assert_eq!(v(&state.usage)["total_tokens"], 15);
    assert_eq!(ctx.inner.get_metadata("responses.status"), Some("completed"),);
}

#[test]
fn terminal_event_authoritatively_populates_completed_function_calls() {
    let (filter, mut ctx) = make_armed_context();
    filter.on_request(&mut ctx);
    ctx.inner.state = Some(ResponsesState::default());
    ctx.inner.state.as_mut().unwrap().output_items_mut().push(j(r#"{
            "type": "function_call",
            "id": "fc_stale",
            "call_id": "call_stale",
            "name": "stale",
            "arguments": "{}",
            "status": "completed"
        }"#));

    let completed = j(r#"{
        "id": "resp_123",
        "status": "completed",
        "output": [{
            "type": "function_call",
            "id": "fc_final",
            "call_id": "call_final",
            "name": "lookup",
            "arguments": "{\"query\":\"Praxis\"}",
            "status": "completed"
        }]
    }"#);
    let mut body = Some(make_sse_chunk("response.completed", &completed));
    filter.on_response_body(&mut ctx, &mut body, false);

    let state = ctx.inner.state.as_ref().unwrap();
    assert_eq!(
        calls(state).len(),
        1,
        "the authoritative terminal response must replace incremental tool calls"
    );
    assert_eq!(
        calls(state)[0]["call_id"], "call_final",
        "a terminal-only completed function call must be dispatchable"
    );
}

#[test]
fn response_accumulation_sums_usage_across_iterations() {
    let mut ctx = exchange("POST", "/v1/responses");
    ctx.inner.state = Some(ResponsesState::default());
    let first = j(r#"{
        "status":"completed",
        "output":[],
        "usage":{
            "input_tokens":10,
            "output_tokens":4,
            "total_tokens":14,
            "input_tokens_details":{"cached_tokens":3}
        }
    }"#);
    let second = j(r#"{
        "status":"completed",
        "output":[],
        "usage":{
            "input_tokens":7,
            "output_tokens":2,
            "total_tokens":9,
            "input_tokens_details":{"cached_tokens":1}
        }
    }"#);

    assert!(
        !accumulate_response_object(&mut ctx.inner.state, &mut ctx.inner.metadata, first, None),
        "in-progress response must not report terminal completion"
    );
    assert!(
        accumulate_response_object(&mut ctx.inner.state, &mut ctx.inner.metadata, second, None),
        "completed response must report terminal completion"
    );
    let state = ctx.inner.state.as_ref().unwrap();
    assert_eq!(v(&state.usage)["input_tokens"], 17);
    assert_eq!(v(&state.usage)["output_tokens"], 6);
    assert_eq!(v(&state.usage)["total_tokens"], 23);
    assert_eq!(v(&state.usage)["input_tokens_details"]["cached_tokens"], 4);
    assert_eq!(v(&state.response_object)["usage"], v(&state.usage));

    let final_without_usage = j(r#"{"status":"completed","output":[]}"#);
    assert!(
        accumulate_response_object(&mut ctx.inner.state, &mut ctx.inner.metadata, final_without_usage, None),
        "completed response without usage must remain terminal"
    );
    let state = ctx.inner.state.as_ref().unwrap();
    assert_eq!(v(&state.response_object)["usage"], v(&state.usage));
    assert_eq!(v(&state.usage)["total_tokens"], 23);
}

#[test]
fn output_item_added_accumulates_incrementally() {
    let (filter, mut ctx) = make_armed_context();
    filter.on_request(&mut ctx);

    let item = j(r#"{"type": "message", "role": "assistant", "id": "item_1"}"#);
    let payload = fill(r#"{"item": "$0"}"#, &[text_arg(&item)]);

    let mut body = Some(make_sse_chunk("response.output_item.added", &payload));
    filter.on_response_body(&mut ctx, &mut body, false);

    let state = ctx.inner.state.as_ref().unwrap();
    assert_eq!(items(state).len(), 1);
    assert_eq!(items(state)[0]["id"], "item_1");
}

#[test]
fn terminal_event_overwrites_incremental_output() {
    let (filter, mut ctx) = make_armed_context();
    filter.on_request(&mut ctx);

    let item = j(r#"{"item": {"type": "message", "id": "item_1"}}"#);
    let mut body1 = Some(make_sse_chunk("response.output_item.added", &item));
    filter.on_response_body(&mut ctx, &mut body1, false);
    assert_eq!(items(ctx.inner.state.as_ref().unwrap()).len(), 1);

    let completed = j(r#"{
        "id": "resp_123",
        "status": "completed",
        "model": "gpt-4o",
        "created_at": 1700000000,
        "output": [
            {"type": "message", "id": "item_final_1"},
            {"type": "message", "id": "item_final_2"}
        ],
        "usage": {"input_tokens": 10, "output_tokens": 5, "total_tokens": 15}
    }"#);
    let mut body2 = Some(make_sse_chunk("response.completed", &completed));
    filter.on_response_body(&mut ctx, &mut body2, false);

    let state = ctx.inner.state.as_ref().unwrap();
    assert_eq!(
        items(state).len(),
        2,
        "terminal event should overwrite incremental output"
    );
    assert_eq!(items(state)[0]["id"], "item_final_1");
}

#[test]
fn function_call_accumulation() {
    let (filter, mut ctx) = make_armed_context();
    filter.on_request(&mut ctx);

    let item = j(r#"{
        "item": {
            "type": "function_call",
            "id": "fc_item_1",
            "call_id": "call_1",
            "name": "get_weather",
            "arguments": "",
            "status": "in_progress"
        },
        "output_index": 0
    }"#);
    let mut item_body = Some(make_sse_chunk("response.output_item.added", &item));
    filter.on_response_body(&mut ctx, &mut item_body, false);

    let delta1 = j(r#"{"item_id": "fc_item_1", "output_index": 0, "delta": "{\"city\":"}"#);
    let mut b1 = Some(make_sse_chunk("response.function_call_arguments.delta", &delta1));
    filter.on_response_body(&mut ctx, &mut b1, false);

    let delta2 = j(r#"{"item_id": "fc_item_1", "output_index": 0, "delta": "\"NYC\"}"}"#);
    let mut b2 = Some(make_sse_chunk("response.function_call_arguments.delta", &delta2));
    filter.on_response_body(&mut ctx, &mut b2, false);

    let done = j(r#"{
        "item_id": "fc_item_1",
        "output_index": 0,
        "arguments": "{\"city\":\"NYC\"}"
    }"#);
    let mut b3 = Some(make_sse_chunk("response.function_call_arguments.done", &done));
    filter.on_response_body(&mut ctx, &mut b3, false);

    let state = ctx.inner.state.as_ref().unwrap();
    assert_eq!(calls(state).len(), 1);
    assert_eq!(calls(state)[0]["id"], "fc_item_1");
    assert_eq!(calls(state)[0]["call_id"], "call_1");
    assert_eq!(calls(state)[0]["name"], "get_weather");
    assert_eq!(calls(state)[0]["arguments"], "{\"city\":\"NYC\"}");
    assert_eq!(calls(state)[0]["status"], "completed");
    assert_eq!(items(state)[0]["arguments"], "{\"city\":\"NYC\"}");
}

#[test]
fn missing_state_does_not_panic() {
    let (filter, mut ctx) = make_armed_context();
    filter.on_request(&mut ctx);

    let completed = j(r#"{
        "id": "resp_123",
        "status": "completed",
        "model": "gpt-4o",
        "created_at": 1700000000,
        "output": [],
        "usage": {"input_tokens": 0, "output_tokens": 0, "total_tokens": 0}
    }"#);
    let mut body = Some(make_sse_chunk("response.completed", &completed));
    filter.on_response_body(&mut ctx, &mut body, false);
    assert!(
        ctx.inner.state.is_some(),
        "should have created ResponsesState"
    );
}

#[test]
fn eos_validates_stream_completeness() {
    let (filter, mut ctx) = make_armed_context();
    filter.on_request(&mut ctx);

    let completed =
        j(r#"{"id": "resp_1", "status": "completed", "model": "m", "created_at": 0, "output": [], "usage": {}}"#);
    let mut b1 = Some(make_sse_chunk("response.completed", &completed));
    filter.on_response_body(&mut ctx, &mut b1, false);

    let mut b2 = Some(Vec::from("data: [DONE]\n\n"));
    filter.on_response_body(&mut ctx, &mut b2, false);

    let mut empty = None;
    filter.on_response_body(&mut ctx, &mut empty, true);
    assert!(
        ctx.inner.get_metadata("responses.stream_parse_error").is_none(),
        "DONE sentinel should not set parse-error metadata"
    );
    assert!(
        ctx.inner.get_metadata("responses.stream_incomplete").is_none(),
        "complete stream should not set incomplete flag"
    );
}

#[test]
fn eos_without_terminal_sets_incomplete() {
    let (filter, mut ctx) = make_armed_context();
    filter.on_request(&mut ctx);

    let delta = j(r#"{"text": "hi"}"#);
    let mut b1 = Some(make_sse_chunk("response.output_text.delta", &delta));
    filter.on_response_body(&mut ctx, &mut b1, false);

    let mut empty = None;
    filter.on_response_body(&mut ctx, &mut empty, true);
    assert_eq!(
        ctx.inner.get_metadata("responses.stream_incomplete"),
        Some("true"),
        "missing terminal should set incomplete flag"
    );
}

#[test]
fn logical_eos_without_terminal_emits_error() {
    let filter = make_logical_filter();
    let mut ctx = exchange("POST", "/v1/responses");
    ctx.typed_streaming = true;
    ctx.inner.state = Some(ResponsesState::from_request_body(j(r#"{
        "model": "test-model",
        "input": "hello",
        "stream": true
    }"#)));
    filter.on_request(&mut ctx);

    let mut delta = Some(make_sse_chunk(
        "response.output_text.delta",
        &j(r#"{
            "response_id": "resp_partial",
            "output_index": 0,
            "content_index": 0,
            "delta": "partial",
            "sequence_number": 0
        }"#),
    ));
    filter.on_response_body(&mut ctx, &mut delta, false);

    let mut eos = None;
    filter.on_response_body(&mut ctx, &mut eos, true);
    let eos = String::from_utf8(eos.unwrap().to_vec()).unwrap();
    assert!(
        eos.contains("event: error"),
        "a logical stream must explicitly terminate when upstream omits its terminal event: {eos}"
    );

    let data = eos
        .split("event: error\n")
        .nth(1)
        .and_then(|rest| rest.strip_prefix("data: "))
        .and_then(|rest| rest.split('\n').next())
        .unwrap();
    let payload: serde_json::Value = serde_json::from_str(data).unwrap();
    assert_eq!(payload["type"], "error", "event type is always \"error\"");
    assert_eq!(
        payload["code"], "server_error",
        "the caller-selected machine-readable code is preserved at the top level"
    );
    assert_eq!(
        payload["message"], "upstream Responses stream did not terminate cleanly",
        "message is a top-level field"
    );
    assert!(payload["param"].is_null(), "param is a top-level field");
    assert!(
        payload["sequence_number"].is_number(),
        "sequence_number is a top-level field normalized to the stream position"
    );
    assert!(
        payload.get("error").is_none(),
        "a committed-stream SSE error event must not nest fields under an \"error\" object: {payload}"
    );

    assert_eq!(
        ctx.inner.get_metadata("responses.skip_persist"),
        Some("true"),
        "a stream missing its terminal event must not be persisted"
    );
}

#[test]
fn encode_sse_event_writes_compact_json_directly_into_output() {
    let payload = fill(r#"{
        "type": "response.output_text.delta",
        "delta": "$0",
        "sequence_number": 12,
        "response_id": "resp_logical",
        "output_index": 3
    }"#, &[text_arg(&"α".repeat(2048))]);
    let json_bytes = serde_json::to_vec(&v(&payload)).unwrap();
    let mut output = Vec::new();
    encode_sse_event("response.output_text.delta", &payload, &mut output);

    let prefix = b"event: response.output_text.delta\ndata: ";
    let suffix = b"\n\n";
    assert_eq!(
        output.len(),
        prefix.len() + json_bytes.len() + suffix.len(),
        "logical-stream SSE must be framing plus compact JSON with no intermediate String"
    );
    assert_eq!(
        &output[..prefix.len()],
        prefix.as_slice(),
        "SSE event name and data delimiter must be unchanged"
    );
    assert_eq!(
        &output[prefix.len()..prefix.len() + json_bytes.len()],
        json_bytes.as_slice(),
        "payload JSON must be written with to_writer compact encoding"
    );
    assert_eq!(
        &output[output.len() - suffix.len()..],
        suffix.as_slice(),
        "SSE event delimiter must remain a trailing blank line"
    );
}

#[test]
fn body_passes_through_unchanged() {
    let (filter, mut ctx) = make_armed_context();
    ctx.inner.parser = Some(round_parser(10_485_760));

    let original = Vec::from("event: response.created\ndata: {\"type\":\"response.created\",\"id\":\"r1\"}\n\n");
    let mut body = Some(original.clone());
    filter.on_response_body(&mut ctx, &mut body, false);

    assert_eq!(
        body.as_ref().unwrap().as_slice(),
        original.as_slice(),
        "body should pass through unchanged in ReadOnly mode"
    );
}

#[test]
fn parse_error_sets_metadata() {
    let (filter, mut ctx) = make_armed_context();
    ctx.inner.parser = Some(round_parser(10));

    let large_chunk =
        Vec::from("event: response.created\ndata: {\"id\": \"resp_overflow_test_with_a_very_long_payload\"}\n\n");
    let mut body = Some(large_chunk);
    filter.on_response_body(&mut ctx, &mut body, false);

    assert_eq!(
        ctx.inner.get_metadata("responses.stream_parse_error"),
        Some("true"),
        "parse error should set metadata flag"
    );
}

#[test]
fn output_item_done_replaces_by_index() {
    let (filter, mut ctx) = make_armed_context();
    filter.on_request(&mut ctx);

    let added = j(r#"{"item": {"type": "message", "id": "item_1", "content": []}}"#);
    let mut b1 = Some(make_sse_chunk("response.output_item.added", &added));
    filter.on_response_body(&mut ctx, &mut b1, false);

    let done = j(r#"{
        "output_index": 0,
        "item": {"type": "message", "id": "item_1", "content": [{"type": "output_text", "text": "final"}]}
    }"#);
    let mut b2 = Some(make_sse_chunk("response.output_item.done", &done));
    filter.on_response_body(&mut ctx, &mut b2, false);

    let state = ctx.inner.state.as_ref().unwrap();
    assert_eq!(items(state).len(), 1, "should replace, not append");
    assert!(
        items(state)[0]["content"][0]["text"] == "final",
        "should have updated content"
    );
}

#[test]
fn terminal_incomplete_sets_status() {
    let (filter, mut ctx) = make_armed_context();
    filter.on_request(&mut ctx);

    let payload = j(r#"{
        "id": "resp_inc",
        "status": "incomplete",
        "model": "gpt-4o",
        "created_at": 1700000000,
        "output": [{"type": "message", "id": "item_1"}],
        "usage": {"input_tokens": 10, "output_tokens": 3, "total_tokens": 13},
        "incomplete_details": {"reason": "max_output_tokens"}
    }"#);
    let mut body = Some(make_sse_chunk("response.incomplete", &payload));
    filter.on_response_body(&mut ctx, &mut body, false);

    let state = ctx.inner.state.as_ref().unwrap();
    assert_eq!(v(&state.response_object)["id"], "resp_inc");
    assert_eq!(items(state).len(), 1);
    assert_eq!(ctx.inner.get_metadata("responses.status"), Some("incomplete"));
}

#[test]
fn terminal_failed_sets_status() {
    let (filter, mut ctx) = make_armed_context();
    filter.on_request(&mut ctx);

    let payload = j(r#"{
        "id": "resp_fail",
        "status": "failed",
        "model": "gpt-4o",
        "created_at": 1700000000,
        "output": [],
        "usage": {"input_tokens": 5, "output_tokens": 0, "total_tokens": 5},
        "error": {"code": "server_error", "message": "internal failure"}
    }"#);
    let mut body = Some(make_sse_chunk("response.failed", &payload));
    filter.on_response_body(&mut ctx, &mut body, false);

    let state = ctx.inner.state.as_ref().unwrap();
    assert_eq!(v(&state.response_object)["id"], "resp_fail");
    assert_eq!(items(state).len(), 0);
    assert_eq!(ctx.inner.get_metadata("responses.status"), Some("failed"));
}

#[test]
fn output_item_done_replaces_by_id() {
    let (filter, mut ctx) = make_armed_context();
    filter.on_request(&mut ctx);

    let added = j(r#"{"item": {"type": "message", "id": "item_A", "content": []}}"#);
    let mut b1 = Some(make_sse_chunk("response.output_item.added", &added));
    filter.on_response_body(&mut ctx, &mut b1, false);

    let done = j(r#"{
        "item": {"type": "message", "id": "item_A", "content": [{"type": "output_text", "text": "replaced"}]}
    }"#);
    let mut b2 = Some(make_sse_chunk("response.output_item.done", &done));
    filter.on_response_body(&mut ctx, &mut b2, false);

    let state = ctx.inner.state.as_ref().unwrap();
    assert_eq!(items(state).len(), 1, "should replace by id, not append");
    assert_eq!(items(state)[0]["content"][0]["text"], "replaced");
}

#[test]
fn upsert_tool_call_dedup() {
    let (filter, mut ctx) = make_armed_context();
    filter.on_request(&mut ctx);

    let item = j(r#"{
        "item": {
            "type": "function_call",
            "id": "fc_dup",
            "call_id": "call_dup",
            "name": "search",
            "arguments": "",
            "status": "in_progress"
        },
        "output_index": 0
    }"#);
    let mut b1 = Some(make_sse_chunk("response.output_item.added", &item));
    filter.on_response_body(&mut ctx, &mut b1, false);

    let done1 = j(r#"{"item_id": "fc_dup", "output_index": 0, "arguments": "{\"q\":\"v1\"}"}"#);
    let mut b2 = Some(make_sse_chunk("response.function_call_arguments.done", &done1));
    filter.on_response_body(&mut ctx, &mut b2, false);

    assert_eq!(calls(ctx.inner.state.as_ref().unwrap()).len(), 1);

    let done2 = j(r#"{"item_id": "fc_dup", "output_index": 0, "arguments": "{\"q\":\"v2\"}"}"#);
    let mut b3 = Some(make_sse_chunk("response.function_call_arguments.done", &done2));
    filter.on_response_body(&mut ctx, &mut b3, false);

    let state = ctx.inner.state.as_ref().unwrap();
    assert_eq!(calls(state).len(), 1, "should replace, not append duplicate");
    assert_eq!(calls(state)[0]["arguments"], "{\"q\":\"v2\"}");
}

#[test]
fn function_call_done_without_prior_deltas() {
    let (filter, mut ctx) = make_armed_context();
    filter.on_request(&mut ctx);

    let item = j(r#"{
        "item": {
            "type": "function_call",
            "id": "fc_no_delta",
            "call_id": "call_nd",
            "name": "get_time",
            "arguments": "",
            "status": "in_progress"
        },
        "output_index": 0
    }"#);
    let mut b1 = Some(make_sse_chunk("response.output_item.added", &item));
    filter.on_response_body(&mut ctx, &mut b1, false);

    let done = j(r#"{
        "item_id": "fc_no_delta",
        "output_index": 0,
        "arguments": "{\"tz\":\"UTC\"}"
    }"#);
    let mut b2 = Some(make_sse_chunk("response.function_call_arguments.done", &done));
    filter.on_response_body(&mut ctx, &mut b2, false);

    let state = ctx.inner.state.as_ref().unwrap();
    assert_eq!(calls(state).len(), 1);
    assert_eq!(
        calls(state)[0]["arguments"], "{\"tz\":\"UTC\"}",
        "should use payload arguments when no deltas were accumulated"
    );
}

#[test]
fn done_payload_wins_over_accumulated_deltas() {
    let (filter, mut ctx) = make_armed_context();
    filter.on_request(&mut ctx);

    let item = j(r#"{
        "item": {
            "type": "function_call",
            "id": "fc_diff",
            "call_id": "call_diff",
            "name": "lookup",
            "arguments": "",
            "status": "in_progress"
        },
        "output_index": 0
    }"#);
    let mut b1 = Some(make_sse_chunk("response.output_item.added", &item));
    filter.on_response_body(&mut ctx, &mut b1, false);

    let delta = j(r#"{"item_id": "fc_diff", "output_index": 0, "delta": "{\"from\":\"delta\"}"}"#);
    let mut b2 = Some(make_sse_chunk("response.function_call_arguments.delta", &delta));
    filter.on_response_body(&mut ctx, &mut b2, false);

    let done = j(r#"{
        "item_id": "fc_diff",
        "output_index": 0,
        "arguments": "{\"from\":\"done_payload\"}"
    }"#);
    let mut b3 = Some(make_sse_chunk("response.function_call_arguments.done", &done));
    filter.on_response_body(&mut ctx, &mut b3, false);

    let state = ctx.inner.state.as_ref().unwrap();
    assert_eq!(
        calls(state)[0]["arguments"], "{\"from\":\"done_payload\"}",
        "done-event arguments should take precedence over accumulated deltas"
    );
}

#[test]
fn unknown_event_type_ignored() {
    let (filter, mut ctx) = make_armed_context();
    filter.on_request(&mut ctx);

    let payload = j(r#"{"some_field": "some_value"}"#);
    let mut body = Some(make_sse_chunk("response.future_event_type", &payload));
    filter.on_response_body(&mut ctx, &mut body, false);

    assert!(body.is_some(), "body should pass through unchanged");
}

#[test]
fn error_event_does_not_mutate_state() {
    let (filter, mut ctx) = make_armed_context();
    filter.on_request(&mut ctx);

    let payload = j(r#"{"code": "server_error", "message": "something broke"}"#);
    let mut body = Some(make_sse_chunk("error", &payload));
    filter.on_response_body(&mut ctx, &mut body, false);

    assert!(
        ctx.inner.state.is_none(),
        "error event should not create ResponsesState"
    );
}

#[test]
fn error_after_terminal_lifecycle_is_accepted() {
    let (filter, mut ctx) = make_armed_context();
    filter.on_request(&mut ctx);

    let completed =
        j(r#"{"id": "resp_1", "status": "completed", "model": "m", "created_at": 0, "output": [], "usage": {}}"#);
    let mut b1 = Some(make_sse_chunk("response.completed", &completed));
    filter.on_response_body(&mut ctx, &mut b1, false);

    let error = j(r#"{"code": "server_error", "message": "late error"}"#);
    let mut b2 = Some(make_sse_chunk("error", &error));
    filter.on_response_body(&mut ctx, &mut b2, false);

    assert!(
        ctx.inner.get_metadata("responses.stream_parse_error").is_none(),
        "accepted error should not set parse error"
    );
}

#[test]
fn second_error_after_terminal_is_rejected() {
    let (filter, mut ctx) = make_armed_context();
    filter.on_request(&mut ctx);

    let completed =
        j(r#"{"id": "resp_1", "status": "completed", "model": "m", "created_at": 0, "output": [], "usage": {}}"#);
    let mut b1 = Some(make_sse_chunk("response.completed", &completed));
    filter.on_response_body(&mut ctx, &mut b1, false);

    let error1 = j(r#"{"code": "server_error", "message": "first error"}"#);
    let mut b2 = Some(make_sse_chunk("error", &error1));
    filter.on_response_body(&mut ctx, &mut b2, false);

    let error2 = j(r#"{"code": "server_error", "message": "second error"}"#);
    let mut b3 = Some(make_sse_chunk("error", &error2));
    filter.on_response_body(&mut ctx, &mut b3, false);

    assert_eq!(
        ctx.inner.get_metadata("responses.stream_parse_error"),
        Some("true"),
        "second error event should be rejected as EventAfterTerminal"
    );
}

#[test]
fn resumed_round_error_does_not_persist_prior_round_success() {
    let filter = make_logical_filter();
    let mut ctx = exchange("POST", "/v1/responses");
    ctx.typed_streaming = true;
    ctx.inner.state = Some(ResponsesState::from_request_body(j(r#"{
        "model": "test-model",
        "input": "hello",
        "stream": true
    }"#)));

    filter.on_request(&mut ctx);
    let function_call = j(r#"{
        "type": "function_call",
        "id": "fc_1",
        "call_id": "call_1",
        "name": "weather__get",
        "arguments": "{}",
        "status": "completed"
    }"#);
    let mut terminal = Some(make_sse_chunk(
        "response.completed",
        &fill(r#"{
            "response": {"id": "resp_first", "status": "completed", "output": ["$0"]},
            "sequence_number": 1
        }"#, &[text_arg(&function_call)]),
    ));
    filter.on_response_body(&mut ctx, &mut terminal, false);
    publish_loop(&mut ctx, "openai_mcp_dispatch");
    let mut first_eos = None;
    filter.on_response_body(&mut ctx, &mut first_eos, true);
    assert_eq!(
        ctx.inner.state.as_ref().unwrap()
            .response_object.get_str("id"),
        Some("resp_first"),
        "round 1 completion should populate the response object"
    );

    let state = ctx.inner.state.as_mut().unwrap();
    state.iteration = 1;
    state.accumulated_output = vec![function_call, j(r#"{"type": "mcp_call", "id": "mcp_1"}"#)];
    mark_accumulated_output_executed(state);
    ctx.inner.filter_results.remove("openai_mcp_dispatch");
    filter.on_request(&mut ctx);

    assert!(
        ctx.inner.state.as_ref().unwrap()
            .response_object
            .is_null(),
        "re-arming must invalidate the prior round's response object"
    );

    let mut created = Some(make_sse_chunk(
        "response.created",
        &j(r#"{
            "response": {"id": "resp_second", "status": "in_progress", "output": []},
            "sequence_number": 0
        }"#),
    ));
    filter.on_response_body(&mut ctx, &mut created, false);
    let mut error = Some(make_sse_chunk(
        "error",
        &j(r#"{"code": "server_error", "message": "backend exploded"}"#),
    ));
    filter.on_response_body(&mut ctx, &mut error, false);

    assert!(
        ctx.inner.state.as_ref().unwrap()
            .response_object
            .is_null(),
        "a resumed provider error must not resurrect the prior round's success for persistence"
    );
}

#[test]
fn tool_call_argument_bytes_cap_enforced() {
    let filter = filter_with(StreamEventsConfig { max_tool_call_argument_bytes: Some(20), ..StreamEventsConfig::default() }).ok().unwrap();
    let mut ctx = exchange("POST", "/v1/responses");
    ctx.inner.set_metadata("openai_responses_format.format", "openai_responses");
    ctx.inner.set_metadata("openai_responses_format.stream", "true");

    filter.on_request(&mut ctx);

    let item = j(r#"{
        "item": {
            "type": "function_call",
            "id": "fc_big",
            "call_id": "call_big",
            "name": "big_fn",
            "arguments": "",
            "status": "in_progress"
        },
        "output_index": 0
    }"#);
    let mut b1 = Some(make_sse_chunk("response.output_item.added", &item));
    filter.on_response_body(&mut ctx, &mut b1, false);

    let delta1 = j(r#"{"item_id": "fc_big", "output_index": 0, "delta": "0123456789"}"#);
    let mut b2 = Some(make_sse_chunk("response.function_call_arguments.delta", &delta1));
    filter.on_response_body(&mut ctx, &mut b2, false);

    let delta2 = j(r#"{"item_id": "fc_big", "output_index": 0, "delta": "0123456789X"}"#);
    let mut b3 = Some(make_sse_chunk("response.function_call_arguments.delta", &delta2));
    filter.on_response_body(&mut ctx, &mut b3, false);

    let state = ctx.inner.parser.take().unwrap();
    assert!(
        !state.tool_call_args.contains("item:fc_big"),
        "exceeding max_tool_call_argument_bytes should drop the accumulator entry"
    );
    assert!(
        state.rejected_tool_call_args.contains("item:fc_big"),
        "an overflowing tool call should remain rejected"
    );
}

#[test]
fn tool_call_argument_bytes_cap_rejects_restart_after_overflow() {
    let filter = filter_with(StreamEventsConfig { max_tool_call_argument_bytes: Some(20), ..StreamEventsConfig::default() }).ok().unwrap();
    let mut ctx = exchange("POST", "/v1/responses");
    ctx.inner.set_metadata("openai_responses_format.format", "openai_responses");
    ctx.inner.set_metadata("openai_responses_format.stream", "true");
    filter.on_request(&mut ctx);

    let item = j(r#"{
        "item": {
            "type": "function_call",
            "id": "fc_restart",
            "call_id": "call_restart",
            "name": "restart_fn",
            "arguments": "",
            "status": "in_progress"
        },
        "output_index": 0
    }"#);
    let mut added = Some(make_sse_chunk("response.output_item.added", &item));
    filter.on_response_body(&mut ctx, &mut added, false);

    let oversized = j(r#"{"item_id": "fc_restart", "output_index": 0, "delta": "012345678901234567890"}"#);
    let mut delta = Some(make_sse_chunk("response.function_call_arguments.delta", &oversized));
    filter.on_response_body(&mut ctx, &mut delta, false);

    let restart = j(r#"{"item_id": "fc_restart", "output_index": 0, "delta": "{\"x\":1}"}"#);
    let mut delta = Some(make_sse_chunk("response.function_call_arguments.delta", &restart));
    filter.on_response_body(&mut ctx, &mut delta, false);

    let done = j(r#"{"item_id": "fc_restart", "output_index": 0}"#);
    let mut done_body = Some(make_sse_chunk("response.function_call_arguments.done", &done));
    filter.on_response_body(&mut ctx, &mut done_body, false);

    let state = ctx.inner.state.as_ref().unwrap();
    assert!(
        calls(state).is_empty(),
        "a rejected tool call should not be finalized"
    );
    assert_eq!(items(state)[0]["arguments"], "");
    assert_eq!(items(state)[0]["status"], "in_progress");
}

#[test]
fn tool_call_argument_bytes_cap_rejects_oversized_done_payload() {
    let filter = filter_with(StreamEventsConfig { max_tool_call_argument_bytes: Some(20), ..StreamEventsConfig::default() }).ok().unwrap();
    let mut ctx = exchange("POST", "/v1/responses");
    ctx.inner.set_metadata("openai_responses_format.format", "openai_responses");
    ctx.inner.set_metadata("openai_responses_format.stream", "true");
    filter.on_request(&mut ctx);

    let item = j(r#"{
        "item": {
            "type": "function_call",
            "id": "fc_done_big",
            "call_id": "call_done_big",
            "name": "done_fn",
            "arguments": "",
            "status": "in_progress"
        },
        "output_index": 0
    }"#);
    let mut added = Some(make_sse_chunk("response.output_item.added", &item));
    filter.on_response_body(&mut ctx, &mut added, false);

    let done = j(r#"{
        "item_id": "fc_done_big",
        "output_index": 0,
        "arguments": "012345678901234567890"
    }"#);
    let mut done_body = Some(make_sse_chunk("response.function_call_arguments.done", &done));
    filter.on_response_body(&mut ctx, &mut done_body, false);

    let retry = j(r#"{
        "item_id": "fc_done_big",
        "output_index": 0,
        "arguments": "{\"x\":1}"
    }"#);
    let mut retry_body = Some(make_sse_chunk("response.function_call_arguments.done", &retry));
    filter.on_response_body(&mut ctx, &mut retry_body, false);

    let state = ctx.inner.state.as_ref().unwrap();
    assert!(
        calls(state).is_empty(),
        "an oversized done payload should keep the tool call rejected"
    );
    assert_eq!(items(state)[0]["arguments"], "");
    assert_eq!(items(state)[0]["status"], "in_progress");
}

#[test]
fn tool_call_argument_bytes_within_limit() {
    let filter = filter_with(StreamEventsConfig { max_tool_call_argument_bytes: Some(50), ..StreamEventsConfig::default() }).ok().unwrap();
    let mut ctx = exchange("POST", "/v1/responses");
    ctx.inner.set_metadata("openai_responses_format.format", "openai_responses");
    ctx.inner.set_metadata("openai_responses_format.stream", "true");

    filter.on_request(&mut ctx);

    let item = j(r#"{
        "item": {
            "type": "function_call",
            "id": "fc_ok",
            "call_id": "call_ok",
            "name": "small_fn",
            "arguments": "",
            "status": "in_progress"
        },
        "output_index": 0
    }"#);
    let mut b1 = Some(make_sse_chunk("response.output_item.added", &item));
    filter.on_response_body(&mut ctx, &mut b1, false);

    let delta = j(r#"{"item_id": "fc_ok", "output_index": 0, "delta": "{\"k\":\"v\"}"}"#);
    let mut b2 = Some(make_sse_chunk("response.function_call_arguments.delta", &delta));
    filter.on_response_body(&mut ctx, &mut b2, false);

    let state = ctx.inner.parser.take().unwrap();
    assert_eq!(
        state.tool_call_args.get("item:fc_ok").unwrap(),
        "{\"k\":\"v\"}",
        "within-limit deltas should accumulate normally"
    );
}

#[test]
fn on_response_disarms_for_non_2xx_status() {
    let (filter, mut ctx) = make_armed_context();
    filter.on_request(&mut ctx);
    assert!(
        ctx.inner.parser.is_some(),
        "test setup should arm the SSE parser"
    );

    let mut resp = make_response();
    resp.status = 400;
    add_header(&mut resp, "content-type", "application/json");
    ctx.head = Some(resp);

    filter.on_response(&mut ctx);

    assert!(
        ctx.inner.parser.is_none(),
        "filter should be disarmed for non-2xx response"
    );
}

#[test]
fn on_response_disarms_for_non_sse_content_type() {
    let (filter, mut ctx) = make_armed_context();
    filter.on_request(&mut ctx);

    let mut resp = make_response();
    add_header(&mut resp, "content-type", "application/json");
    ctx.head = Some(resp);

    filter.on_response(&mut ctx);

    assert!(
        ctx.inner.parser.is_none(),
        "filter should be disarmed for non-SSE content type"
    );
}

#[test]
fn on_response_stays_armed_for_sse_with_charset() {
    let (filter, mut ctx) = make_armed_context();
    filter.on_request(&mut ctx);

    let mut resp = make_response();
    add_header(&mut resp, "content-type", "text/event-stream; charset=utf-8");
    ctx.head = Some(resp);

    filter.on_response(&mut ctx);

    assert!(
        ctx.inner.parser.is_some(),
        "filter should stay armed for text/event-stream with charset parameter"
    );
}

#[test]
fn on_request_strips_accept_encoding_when_arming() {
    let (filter, mut ctx) = make_armed_context();

    filter.on_request(&mut ctx);

    assert!(
        ctx.inner.parser.is_some(),
        "test setup should arm the SSE parser"
    );
    assert!(
        ctx.inner.request_headers_to_remove.iter().any(|name| name == "accept-encoding"),
        "arming logical parsing must strip Accept-Encoding so the backend returns plaintext SSE"
    );
}

#[test]
fn on_request_keeps_accept_encoding_when_not_arming() {
    let filter = make_filter();
    let mut ctx = exchange("POST", "/v1/responses");
    ctx.inner.set_metadata("openai_responses_format.format", "openai_responses");
    ctx.inner.set_metadata("openai_responses_format.stream", "false");

    filter.on_request(&mut ctx);

    assert!(
        ctx.inner.parser.is_none(),
        "non-streaming request must not arm"
    );
    assert!(
        !ctx.inner.request_headers_to_remove.iter().any(|name| name == "accept-encoding"),
        "Accept-Encoding must only be stripped when logical parsing is armed"
    );
}

#[test]
fn on_response_disarms_for_content_encoded_sse() {
    let (filter, mut ctx) = make_armed_context();
    filter.on_request(&mut ctx);

    let mut resp = make_response();
    add_header(&mut resp, "content-type", "text/event-stream");
    add_header(&mut resp, "content-encoding", "gzip");
    ctx.head = Some(resp);

    filter.on_response(&mut ctx);

    assert!(
        ctx.inner.parser.is_none(),
        "filter should disarm for a Content-Encoding SSE response it cannot parse"
    );
}

#[test]
fn disarmed_filter_passes_error_body_through() {
    let (filter, mut ctx) = make_armed_context();
    filter.on_request(&mut ctx);

    let mut resp = make_response();
    resp.status = 400;
    add_header(&mut resp, "content-type", "application/json");
    ctx.head = Some(resp);
    filter.on_response(&mut ctx);

    let error_json = r#"{"error":{"message":"bad request","type":"invalid_request_error"}}"#;
    let mut body = Some(Vec::from(error_json));
    filter.on_response_body(&mut ctx, &mut body, true);

    assert_eq!(
        body.as_ref().unwrap().as_slice(),
        error_json.as_bytes(),
        "error body should pass through unchanged after disarming"
    );
}

#[test]
fn on_response_preserves_content_length_when_not_armed() {
    let filter = make_filter();
    let mut ctx = exchange("POST", "/v1/responses");

    let mut resp = make_response();
    add_header(&mut resp, "content-length", "1234");
    ctx.head = Some(resp);

    filter.on_response(&mut ctx);

    assert!(
        ctx.head
            .as_ref()
            .unwrap()
            .header("content-length")
            .is_some(),
        "Content-Length should be preserved when filter is not armed"
    );
}
