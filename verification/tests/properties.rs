//! What holds of the library as a whole, on concrete values.

use praxis_apis::collections::TextMap;
use praxis_apis::json::Json;
use praxis_apis::json_text::{bytes_of, parse_json, text_of};
use praxis_apis::openai::sse::SseParserConfig;
use praxis_apis::openai::state::{EmittedItem, ResponsesState, SearchAssignment, SynthesisKind};
use praxis_apis::openai::stream_events::chunks::parse_and_accumulate;
use praxis_apis::openai::stream_events::config::StreamEventsConfig;
use praxis_apis::openai::stream_events::digest::item_digest;
use praxis_apis::openai::stream_events::filter::{
    stream_time_left, OpenaiStreamEventsFilter, StreamContext,
};
use praxis_apis::openai::stream_events::lifecycle::{
    expected_phase_events, is_local_tool_item, plan_pending_item,
};
use praxis_apis::openai::stream_events::local_tools::drain_local_tool_synthesis;
use praxis_apis::openai::stream_events::logical::flush_local_output_items;
use praxis_apis::openai::stream_events::parser_state::{AccumulationLimits, StreamEventsState};
use praxis_apis::openai::sse::SseParseError;
use praxis_apis::openai::web_search::config::{
    build_config, FailureMode, SearchContextSize, SearchProvider, ValidatedConfig,
    WebSearchFilterConfig,
};
use praxis_apis::openai::web_search::dispatch::take_pending_search_calls;
use praxis_apis::openai::web_search::provider::{
    build_callout_config, CalloutOutcome, SearchClient, SearchOutcome,
};
use praxis_apis::service::conversations::{build_item_records, RecordBase, StoreError};
use praxis_apis::service::responses::{stored_input_items, ResponsesService};
use praxis_apis::state_owner::StateOwner;

fn j(text: &str) -> Json {
    parse_json(text.as_bytes()).unwrap()
}

fn v(value: &Json) -> serde_json::Value {
    serde_json::from_slice(&bytes_of(value)).unwrap()
}

fn limits(max_accumulated_bytes: usize, max_output_items: usize) -> AccumulationLimits {
    AccumulationLimits { max_tool_call_argument_bytes: 100, max_accumulated_bytes, max_output_items }
}

fn parser(max_buffer_bytes: usize, max_events: usize, timeout_secs: u64) -> StreamEventsState {
    let config = SseParserConfig { max_buffer_bytes, max_events, timeout_secs };
    StreamEventsState::new(config, limits(1_000_000, 1000), false, 0, 0)
}

fn accumulate(parser: &mut StreamEventsState, bytes: &str, now: u64) -> Result<Vec<u8>, SseParseError> {
    let mut state = None;
    let mut metadata: TextMap<String> = TextMap::new();
    parse_and_accumulate(parser, &mut state, &mut metadata, bytes.as_bytes(), now)
}

const CREATED: &str = "event: response.created\ndata: {}\n\n";

#[test]
fn streams_stay_within_their_limits() {
    let mut counted = parser(1000, 2, 300);
    assert!(accumulate(&mut counted, CREATED, 0).is_ok());
    let three = format!("{CREATED}{CREATED}");
    assert!(matches!(accumulate(&mut counted, &three, 0), Err(SseParseError::TooManyEvents)));
    assert_eq!(counted.event_count, 1, "a refused chunk is not counted");
    assert!(accumulate(&mut counted, CREATED, 0).is_ok());

    let mut timed = parser(1000, 10, 1);
    timed.started_at = Some(0);
    assert!(accumulate(&mut timed, CREATED, 1_000_000_000).is_ok());
    assert!(matches!(
        accumulate(&mut timed, CREATED, 1_000_000_001),
        Err(SseParseError::Timeout { elapsed_nanos: 1_000_000_001, limit_secs: 1 })
    ));

    let mut held = parser(10, 10, 300);
    assert!(matches!(accumulate(&mut held, CREATED, 0), Err(SseParseError::BufferOverflow)));
}

#[test]
fn nothing_follows_the_end_of_a_stream() {
    let mut ended = parser(1000, 10, 300);
    let completed = "event: response.completed\ndata: {}\n\n";
    assert!(accumulate(&mut ended, completed, 0).is_ok());
    match accumulate(&mut ended, CREATED, 0) {
        Err(SseParseError::EventAfterTerminal(event_type)) => {
            assert_eq!(event_type, "response.created");
        },
        _ => panic!("an event behind the end is refused"),
    }
    let error = "event: error\ndata: {}\n\n";
    assert!(accumulate(&mut ended, error, 0).is_ok(), "a late error is accepted once");
    assert!(matches!(
        accumulate(&mut ended, error, 0),
        Err(SseParseError::EventAfterTerminal(_))
    ));
}

#[test]
fn a_refused_chunk_changes_nothing() {
    let mut refused = parser(1000, 10, 300);
    let mut state = Some(ResponsesState::default());
    let mut metadata: TextMap<String> = TextMap::new();
    let chunk = b"event: response.output_item.added\ndata: {\"item\":{}}\n\nevent: x\ndata: {bad}\n\n";
    let result = parse_and_accumulate(&mut refused, &mut state, &mut metadata, chunk, 0);
    assert!(matches!(result, Err(SseParseError::InvalidJson(_))));
    assert!(state.unwrap().output_items().is_none());
    assert_eq!(metadata.size(), 0);
}

#[test]
fn sequence_numbers_are_contiguous() {
    let config = StreamEventsConfig { logical_stream: true, ..StreamEventsConfig::default() };
    let filter = OpenaiStreamEventsFilter::from_config(&config).ok().unwrap();
    let mut context = StreamContext::new();
    filter.on_request(&mut context, "POST", "/v1/responses", true);
    let mut numbers = Vec::new();
    for data in [
        "event: response.created\ndata: {\"response\":{\"id\":\"r\"},\"sequence_number\":7}\n\n",
        "event: response.output_text.delta\ndata: {\"delta\":\"a\"}\n\nevent: response.output_text.delta\ndata: {\"delta\":\"b\",\"sequence_number\":1}\n\n",
    ] {
        let mut body = Some(data.as_bytes().to_vec());
        filter.on_response_body(&mut context, &mut body, false, 0);
        let text = String::from_utf8(body.unwrap()).unwrap();
        for line in text.lines().filter_map(|line| line.strip_prefix("data: ")) {
            let payload: serde_json::Value = serde_json::from_str(line).unwrap();
            numbers.extend(payload["sequence_number"].as_u64());
        }
    }
    assert_eq!(numbers, vec![0, 1, 2]);
}

#[test]
fn executed_items_are_delivered_once() {
    let mut state = ResponsesState::default();
    state.accumulated_output = vec![
        j(r#"{"type":"mcp_call","id":"mcp_1"}"#),
        j(r#"{"type":"message","id":"msg_1"}"#),
        j(r#"{"type":"mcp_call","id":"ghost"}"#),
    ];
    state.locally_executed_output_items.insert("mcp_1");
    let mut first = Vec::new();
    flush_local_output_items(&mut state, &mut first);
    let text = String::from_utf8(first).unwrap();
    assert_eq!(text.matches("event: ").count(), 4);
    assert!(text.contains("mcp_1") && !text.contains("ghost") && !text.contains("msg_1"));
    let mut second = Vec::new();
    flush_local_output_items(&mut state, &mut second);
    assert!(second.is_empty(), "what was delivered is settled");
}

#[test]
fn lifecycles_have_their_phases() {
    assert_eq!(
        expected_phase_events(&j(r#"{"type":"web_search_call","status":"completed"}"#)),
        vec![
            "response.web_search_call.in_progress",
            "response.web_search_call.searching",
            "response.web_search_call.completed",
        ]
    );
    assert_eq!(
        expected_phase_events(&j(r#"{"type":"mcp_call","error":"x"}"#)),
        vec!["response.mcp_call.in_progress", "response.mcp_call.failed"]
    );
    assert!(expected_phase_events(&j(r#"{"type":"message"}"#)).is_empty());
    assert!(is_local_tool_item(&j(r#"{"type":"mcp_approval_request"}"#)));
    assert!(!is_local_tool_item(&j(r#"{"type":"function_call"}"#)));
}

#[test]
fn plans_fill_in_what_is_missing() {
    let item = j(r#"{"type":"web_search_call","id":"ws","status":"completed"}"#);
    let digest = item_digest(&item);
    let fresh = plan_pending_item(None, &item, digest).unwrap();
    assert!(fresh.emit_added && fresh.emit_done);
    assert_eq!(fresh.phases.len(), 3);

    let mut seen = EmittedItem::default();
    seen.added = true;
    seen.content_digest = digest;
    seen.streamed_phases.insert("response.web_search_call.in_progress");
    let rest = plan_pending_item(Some(&seen), &item, digest).unwrap();
    assert!(!rest.emit_added && rest.emit_done);
    assert_eq!(
        rest.phases,
        vec!["response.web_search_call.searching", "response.web_search_call.completed"]
    );

    seen.streamed_phases.insert("response.web_search_call.searching");
    seen.streamed_phases.insert("response.web_search_call.completed");
    seen.done_delivered = true;
    assert!(plan_pending_item(Some(&seen), &item, digest).is_none());
}

#[test]
fn digests_follow_content() {
    assert_eq!(
        item_digest(&j(r#"{"a":[1,{"b":2,"c":3}]}"#)),
        item_digest(&j(r#"{"a":[1,{"c":3,"b":2}]}"#))
    );
    assert_ne!(item_digest(&j("[1,2]")), item_digest(&j("[2,1]")));
    assert_ne!(item_digest(&j(r#""1""#)), item_digest(&j("1")));
    assert_ne!(item_digest(&j("null")), item_digest(&j("false")));
}

#[test]
fn queued_local_tools_are_drained() {
    let mut held = ResponsesState::default();
    held.accumulated_output =
        vec![j(r#"{"type":"file_search_call","id":"fs","status":"completed","results":[]}"#)];
    held.pending_local_tool_synthesis.push((0, SynthesisKind::Native));
    let mut context = StreamContext::new();
    context.state = Some(held);
    let mut output = Vec::new();
    drain_local_tool_synthesis(&mut context, 0, &mut output);
    let text = String::from_utf8(output).unwrap();
    assert_eq!(text.matches("event: ").count(), 2);
    assert!(text.contains("event: response.file_search_call.completed"));
    assert!(context.state.as_ref().unwrap().pending_local_tool_synthesis.is_empty());
    assert!(context.get_metadata("responses.stream_error_code").is_none());
}

#[test]
fn a_misplaced_local_tool_ends_the_stream() {
    let mut held = ResponsesState::default();
    held.accumulated_output =
        vec![j(r#"{"type":"file_search_call","id":"fs","status":"completed","results":[]}"#)];
    held.pending_local_tool_synthesis.push((0, SynthesisKind::Native));
    held.pending_local_tool_synthesis.push((9, SynthesisKind::Native));
    let sequence = held.logical_stream_sequence;
    let mut context = StreamContext::new();
    context.state = Some(held);
    let mut output = Vec::new();
    drain_local_tool_synthesis(&mut context, 0, &mut output);
    assert!(output.is_empty(), "nothing is emitted where an index does not fit");
    let state = context.state.as_ref().unwrap();
    assert!(state.pending_local_tool_synthesis.is_empty());
    assert_eq!(state.logical_stream_sequence, sequence);
    assert_eq!(context.get_metadata("responses.stream_error_code"), Some("server_error"));
    assert_eq!(
        context.get_metadata("responses.stream_error_message"),
        Some("openai_stream_events: file_search synthesis index out of range")
    );
    assert_eq!(context.get_metadata("responses.skip_persist"), Some("true"));

    let mut ended = StreamContext::new();
    let mut held = ResponsesState::default();
    held.pending_local_tool_synthesis.push((9, SynthesisKind::Native));
    ended.state = Some(held);
    ended.set_metadata("responses.stream_error_code", "earlier");
    drain_local_tool_synthesis(&mut ended, 0, &mut output);
    assert!(ended.state.unwrap().pending_local_tool_synthesis.is_empty());
    assert!(output.is_empty());
    assert_eq!(ended.metadata.text("responses.stream_error_code"), Some("earlier"));
    assert!(ended.metadata.text("responses.stream_error_message").is_none());
}

#[test]
fn a_local_tool_of_an_earlier_round_ends_the_stream() {
    let mut held = ResponsesState::default();
    held.accumulated_output = vec![j("{}"), j("{}")];
    held.pending_local_tool_synthesis.push((0, SynthesisKind::Private));
    let mut context = StreamContext::new();
    context.state = Some(held);
    let mut output = Vec::new();
    drain_local_tool_synthesis(&mut context, 1, &mut output);
    assert_eq!(
        context.get_metadata("responses.stream_error_message"),
        Some("openai_stream_events: file_search synthesis index invariant")
    );
    assert!(output.is_empty());
}

#[test]
fn what_is_retained_is_counted() {
    let mut state = ResponsesState::default();
    let empty = state.retained_payload_bytes().unwrap();
    state.messages.push(j(r#"{"a":1}"#));
    assert_eq!(state.retained_payload_bytes(), Some(empty + 7));
    assert!(state.can_retain_payload(usize::MAX), "without a limit everything fits");
    state.retained_payload_limit = Some(empty + 10);
    assert!(state.can_retain_payload(3));
    assert!(!state.can_retain_payload(4));
    assert!(state.can_replace_retained_payload(7, 10, 0));
    assert!(!state.can_replace_retained_payload(7, 11, 0));
    assert!(state.retain_external_payload_bytes(3));
    assert!(!state.can_retain_payload(1));
    state.release_external_payload_bytes(3);
    assert!(state.can_retain_payload(3));
    state.discard_payload_for_budget_error();
    assert!(state.messages.is_empty());
    assert!(state.retained_payload_failed);
}

#[test]
fn pending_searches_stay_in_the_budget_while_they_run() {
    let mut state = ResponsesState::default();
    state.accumulated_output.push(j(r#"{"id":"ws_1","action":{"query":"rust"}}"#));
    state.accumulated_output.push(j("{}"));
    state.web_search_calls.push(SearchAssignment { output_index: 0, ordinal: 0 });
    state.web_search_calls.push(SearchAssignment { output_index: 1, ordinal: 1 });
    let (calls, bytes) = take_pending_search_calls(&mut state).unwrap();
    assert_eq!(bytes, "ws_1".len() + "rust".len() + "ws_unknown".len());
    assert_eq!(state.external_payload_bytes, bytes);
    assert_eq!(calls[1].id, "ws_unknown");
    assert!(calls[1].query.is_none());
    state.web_search_calls.push(SearchAssignment { output_index: 7, ordinal: 0 });
    assert!(take_pending_search_calls(&mut state).is_none());
}

fn search_config(provider: SearchProvider, key: &str) -> ValidatedConfig {
    ValidatedConfig {
        provider,
        api_key: key.to_owned(),
        default_context_size: SearchContextSize::High,
        timeout_ms: 5000,
        max_body_bytes: 1024,
        failure_mode: FailureMode::Open,
        status_on_error: 503,
    }
}

#[test]
fn search_requests_are_encoded() {
    let client = SearchClient::from_config(&search_config(SearchProvider::Brave, "key"));
    let request = client.build_request("a b&ü", Some(SearchContextSize::Low));
    assert_eq!(
        request.url,
        "https://api.search.brave.com/res/v1/web/search?q=a%20b%26%C3%BC&count=3"
    );
    assert!(request.body.is_none());
    assert!(request
        .headers
        .iter()
        .any(|(name, value)| *name == "x-subscription-token" && value == b"key"));

    let client = SearchClient::from_config(&search_config(SearchProvider::Tavily, "key"));
    let request = client.build_request("rust", None);
    assert_eq!(request.url, "https://api.tavily.com/search");
    assert_eq!(
        String::from_utf8(request.body.unwrap()).unwrap(),
        r#"{"api_key":"key","query":"rust","search_depth":"advanced","max_results":10}"#
    );

    let client = SearchClient::from_config(&search_config(SearchProvider::You, "bad\nkey"));
    let request = client.build_request("rust", None);
    assert!(request
        .headers
        .iter()
        .any(|(name, value)| *name == "x-api-key" && value.is_empty()));
}

#[test]
fn callouts_come_to_outcomes() {
    let config = search_config(SearchProvider::Tavily, "key");
    let client = SearchClient::from_config(&config);
    let body = br#"{"results":[{"title":"t","url":"u"}]}"#.to_vec();
    match client.handle_callout_result(CalloutOutcome::Success(body)) {
        SearchOutcome::Results(results) => assert_eq!(results[0].title, "t"),
        _ => panic!("an answer has results"),
    }
    assert!(matches!(
        client.handle_callout_result(CalloutOutcome::Failed),
        SearchOutcome::Skipped
    ));
    assert!(matches!(
        client.handle_callout_result(CalloutOutcome::Rejected(429)),
        SearchOutcome::Rejected(429)
    ));
    let callouts = build_callout_config(&config);
    assert_eq!(
        (callouts.consecutive_failures, callouts.recovery_window_ms, callouts.timeout_ms),
        (5, 30_000, 5000)
    );
}

#[test]
fn search_configurations_are_refused_with_reasons() {
    let config = || WebSearchFilterConfig {
        provider: SearchProvider::Brave,
        api_key: Some("key".to_owned()),
        default_context_size: None,
        timeout_ms: None,
        max_body_bytes: None,
        failure_mode: None,
        status_on_error: None,
    };
    let unset = Err("not present".to_owned());
    let refusal = |config: WebSearchFilterConfig| build_config(&config, &unset).err().unwrap();
    assert_eq!(
        refusal(WebSearchFilterConfig { default_context_size: Some("xl".to_owned()), ..config() }),
        "openai_web_search: default_context_size must be low, medium, or high, got 'xl'"
    );
    assert_eq!(
        refusal(WebSearchFilterConfig { timeout_ms: Some(0), ..config() }),
        "openai_web_search: timeout_ms must be greater than 0"
    );
    assert_eq!(
        refusal(WebSearchFilterConfig { status_on_error: Some(99), ..config() }),
        "openai_web_search: status_on_error must be between 100 and 599, got 99"
    );
    assert_eq!(
        refusal(WebSearchFilterConfig { max_body_bytes: Some(67_108_865), ..config() }),
        "openai_web_search: max_body_bytes (67108865) exceeds maximum (67108864)"
    );
    assert_eq!(
        refusal(WebSearchFilterConfig { api_key: Some("${KEY}".to_owned()), ..config() }),
        "openai_web_search: environment variable KEY not set for api_key: not present"
    );
    let set = Ok(" from-env ".to_owned());
    let named = WebSearchFilterConfig { api_key: Some("${KEY}".to_owned()), ..config() };
    assert_eq!(build_config(&named, &set).ok().unwrap().api_key.trim(), "from-env");
}

#[test]
fn stream_configurations_are_refused_with_reasons() {
    let refusal = |config: StreamEventsConfig| config.validate().err().unwrap();
    let base = StreamEventsConfig::default();
    assert_eq!(
        refusal(StreamEventsConfig { max_events: Some(10_000_001), ..base }),
        "openai_stream_events: max_events (10000001) exceeds maximum (10000000)"
    );
    assert_eq!(
        refusal(StreamEventsConfig { timeout_secs: Some(0), ..base }),
        "openai_stream_events: 'timeout_secs' must be greater than 0"
    );
    assert_eq!(
        refusal(StreamEventsConfig { max_output_items: Some(0), ..base }),
        "openai_stream_events: 'max_output_items' must be greater than 0"
    );
    assert_eq!(base.to_parser_config().max_buffer_bytes, 10_485_760);
    assert_eq!(base.max_accumulated_bytes(), 67_108_864);
    assert_eq!(base.max_output_items(), 100_000);
}

fn owner() -> StateOwner {
    StateOwner::from_trusted_parts("t".to_owned(), "i".to_owned(), "s".to_owned()).ok().unwrap()
}

fn item_error(item: &str) -> String {
    let owner = owner();
    let base = RecordBase { owner: &owner, conversation_id: "c", created_at: 0, start_position: 0 };
    match build_item_records(&base, &vec![j(item)], &vec!["g".to_owned()], &vec![Ok(())]) {
        Err(StoreError::InvalidInput(message)) => message,
        Ok(_) => panic!("the item is malformed"),
    }
}

#[test]
fn malformed_items_are_refused_with_reasons() {
    for (item, message) in [
        ("7", "each item must be a JSON object"),
        (r#"{"id":""}"#, "item id must not be empty"),
        (r#"{"id":7}"#, "item id must be a string"),
        (r#"{"type":"message"}"#, "message role is required"),
        (r#"{"type":"message","role":""}"#, "message role must not be empty"),
        (r#"{"type":"message","role":7}"#, "message role must be a string"),
        (r#"{"type":"message","role":"user"}"#, "message content is required"),
        (
            r#"{"type":"message","role":"user","content":7}"#,
            "message content must be a string or array",
        ),
    ] {
        assert_eq!(item_error(item), message);
    }
}

#[test]
fn items_are_completed() {
    let owner = owner();
    let base =
        RecordBase { owner: &owner, conversation_id: "c", created_at: 3, start_position: i64::MAX };
    let items = vec![
        j(r#"{"type":"reasoning","status":null}"#),
        j(r#"{"type":"message","role":"assistant","content":[{"type":"output_text","text":"x","logprobs":null},7]}"#),
    ];
    let generated = vec!["g1".to_owned(), "g2".to_owned()];
    let records = build_item_records(&base, &items, &generated, &vec![Ok(()), Ok(())]).ok().unwrap();
    assert_eq!(
        text_of(&records[0].item_data),
        r#"{"type":"reasoning","status":"completed","id":"g1"}"#
    );
    assert_eq!(records[1].item_id, "g2");
    assert_eq!(records[1].position, i64::MAX, "positions saturate");
    let part = &v(&records[1].item_data)["content"][0];
    assert!(part["annotations"].is_array() && part["logprobs"].is_array());
}

#[test]
fn stored_histories_keep_what_they_are_given() {
    let response = j(r#"{"id":"r","created_at":-5,"model":"m","output":"text"}"#);
    let history = vec![j("1"), j("2")];
    let record = ResponsesService::build_record(response, owner(), None, Some(history)).unwrap();
    assert_eq!(text_of(&record.messages), r#"[1,2,"text"]"#);
    assert_eq!(record.created_at, -5);
    assert_eq!(text_of(&record.input), "null");
    let wide = j(r#"{"id":"r","created_at":9223372036854775808,"model":"m"}"#);
    assert!(ResponsesService::build_record(wide, owner(), None, None).is_none());
    assert!(stored_input_items(&Json::Null).is_empty());
    assert_eq!(stored_input_items(&j("[1,2]")).len(), 2);
}

#[test]
fn parsed_values_are_written_as_they_were_read() {
    for text in [
        r#"{"b":[1,-2,1.5,{"z":null,"a":true}],"a":"x\n\u0001\"é"}"#,
        "[18446744073709551615,-9223372036854775808,1e+300,[],{}]",
        "false",
    ] {
        let expected: serde_json::Value = serde_json::from_str(text).unwrap();
        assert_eq!(text_of(&j(text)), expected.to_string());
        assert_eq!(text_of(&j(text)), text);
    }
    assert_eq!(text_of(&j(r#"{"a":1,"b":2,"a":3}"#)), r#"{"a":3,"b":2}"#);
}

/// A streaming request under the given configuration.
fn armed(config: StreamEventsConfig) -> (OpenaiStreamEventsFilter, StreamContext) {
    let filter = OpenaiStreamEventsFilter::from_config(&config).ok().unwrap();
    let mut context = StreamContext::new();
    filter.on_request(&mut context, "POST", "/v1/responses", true);
    (filter, context)
}

fn item_count(context: &StreamContext) -> usize {
    context.state.as_ref().and_then(|state| state.output_items()).map_or(0, Vec::len)
}

#[test]
fn too_many_output_items_fail_the_stream() {
    let config = StreamEventsConfig {
        logical_stream: true,
        max_output_items: Some(2),
        ..StreamEventsConfig::default()
    };
    let (filter, mut context) = armed(config);
    let added = "event: response.output_item.added\ndata: {\"item\":{\"type\":\"message\"}}\n\n";
    let mut body = Some(format!("{added}{added}").into_bytes());
    filter.on_response_body(&mut context, &mut body, false, 0);
    assert!(body.is_some());
    assert_eq!(item_count(&context), 2);
    assert!(context.get_metadata("responses.stream_parse_error").is_none());

    let mut body = Some(added.as_bytes().to_vec());
    filter.on_response_body(&mut context, &mut body, false, 0);
    assert!(body.is_none(), "nothing of a refused chunk is shown");
    assert_eq!(item_count(&context), 2, "nothing of a refused chunk is kept");
    assert_eq!(context.get_metadata("responses.stream_parse_error"), Some("true"));
    assert_eq!(context.get_metadata("responses.stream_error_code"), Some("server_error"));
    assert_eq!(context.get_metadata("responses.skip_persist"), Some("true"));

    let mut body = None;
    filter.on_response_body(&mut context, &mut body, true, 0);
    let text = String::from_utf8(body.unwrap()).unwrap();
    assert!(text.starts_with("event: error\n"));
}

#[test]
fn too_many_accumulated_bytes_fail_the_stream() {
    let mut state = None;
    let mut metadata: TextMap<String> = TextMap::new();
    let config = SseParserConfig { max_buffer_bytes: 1000, max_events: 10, timeout_secs: 300 };
    // The item takes 10 bytes, the arguments 4.
    let mut parser = StreamEventsState::new(config, limits(14, 10), false, 0, 0);
    let item = b"event: response.output_item.added\ndata: {\"item\":{\"id\":\"a\"}}\n\n";
    let delta = b"event: response.function_call_arguments.delta\ndata: {\"item_id\":\"a\",\"delta\":\"abcd\"}\n\n";
    let result = parse_and_accumulate(&mut parser, &mut state, &mut metadata, item, 0);
    assert!(result.is_ok());
    let result = parse_and_accumulate(&mut parser, &mut state, &mut metadata, delta, 0);
    assert!(result.is_ok());
    assert_eq!(parser.tool_call_args.value_bytes(), Some(4));
    let more = b"event: response.function_call_arguments.delta\ndata: {\"item_id\":\"a\",\"delta\":\"e\"}\n\n";
    let result = parse_and_accumulate(&mut parser, &mut state, &mut metadata, more, 0);
    assert!(matches!(result, Err(SseParseError::TooMuchAccumulated)));
    assert_eq!(parser.tool_call_args.text("item:a"), Some("abcd"));

    let result = parse_and_accumulate(&mut parser, &mut state, &mut metadata, item, 0);
    assert!(matches!(result, Err(SseParseError::TooMuchAccumulated)));
    assert_eq!(text_of(&state.unwrap().response_object), r#"{"output":[{"id":"a"}]}"#);
}

#[test]
fn the_time_left_runs_out_at_the_deadline() {
    let config = StreamEventsConfig { timeout_secs: Some(2), ..StreamEventsConfig::default() };
    let (filter, mut context) = armed(config);
    assert_eq!(stream_time_left(&context, 5), None, "the first chunk sets the deadline");
    let mut body = Some(CREATED.as_bytes().to_vec());
    filter.on_response_body(&mut context, &mut body, false, 10);
    assert_eq!(stream_time_left(&context, 10), Some(2_000_000_000));
    assert_eq!(stream_time_left(&context, 1_000_000_010), Some(1_000_000_000));
    assert_eq!(stream_time_left(&context, 2_000_000_010), Some(0));
    assert_eq!(stream_time_left(&context, 2_000_000_011), None);
}
