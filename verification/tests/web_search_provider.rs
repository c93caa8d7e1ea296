//! Requests to search providers and their answers.

use praxis_apis::json::Json;
use praxis_apis::json_text::parse_json;
use praxis_apis::openai::web_search::config::{
    FailureMode, SearchContextSize, SearchProvider, ValidatedConfig,
};
use praxis_apis::openai::web_search::provider::{
    parse_brave_results, parse_tavily_results, parse_you_results, SearchClient, SearchOutcome,
};

/// The value that a text holds.
fn j(text: &str) -> Json {
    parse_json(text.as_bytes()).unwrap()
}

#[test]
fn parse_brave_results_normal() {
    let json = j(r#"{
        "web": {
            "results": [
                {"title": "Rust Lang", "url": "https://rust-lang.org", "description": "Systems programming"},
                {"title": "Crates.io", "url": "https://crates.io", "description": "Rust packages"}
            ]
        }
    }"#);
    let results = parse_brave_results(&json);
    assert_eq!(results.len(), 2);
    assert_eq!(results[0].title, "Rust Lang");
    assert_eq!(results[0].url, "https://rust-lang.org");
    assert_eq!(results[0].snippet, "Systems programming");
    assert_eq!(results[1].title, "Crates.io");
}

#[test]
fn parse_brave_results_empty() {
    let json = j(r#"{"web": {"results": []}}"#);
    assert!(parse_brave_results(&json).is_empty());
}

#[test]
fn parse_brave_results_missing_web() {
    let json = j(r#"{"query": "test"}"#);
    assert!(parse_brave_results(&json).is_empty());
}

#[test]
fn parse_brave_results_skips_incomplete() {
    let json = j(r#"{
        "web": {
            "results": [
                {"title": "Good", "url": "https://example.com", "description": "ok"},
                {"description": "missing title and url"},
                {"title": "Also Good", "url": "https://example.org"}
            ]
        }
    }"#);
    let results = parse_brave_results(&json);
    assert_eq!(results.len(), 2);
}

#[test]
fn parse_tavily_results_normal() {
    let json = j(r#"{
        "results": [
            {"title": "Example", "url": "https://example.com", "content": "Description here"},
            {"title": "Another", "url": "https://another.com", "content": "More info"}
        ]
    }"#);
    let results = parse_tavily_results(&json);
    assert_eq!(results.len(), 2);
    assert_eq!(results[0].title, "Example");
    assert_eq!(results[0].snippet, "Description here");
}

#[test]
fn parse_tavily_results_empty() {
    let json = j(r#"{"results": []}"#);
    assert!(parse_tavily_results(&json).is_empty());
}

#[test]
fn parse_tavily_results_missing_results() {
    let json = j(r#"{"answer": "some answer"}"#);
    assert!(parse_tavily_results(&json).is_empty());
}

#[test]
fn parse_tavily_results_missing_content() {
    let json = j(r#"{
        "results": [
            {"title": "No Content", "url": "https://example.com"}
        ]
    }"#);
    let results = parse_tavily_results(&json);
    assert_eq!(results.len(), 1);
    assert_eq!(results[0].snippet, "");
}

#[test]
fn build_you_request_uses_callout_client_contract() {
    let config = ValidatedConfig {
        provider: SearchProvider::You,
        api_key: "test-key".to_owned(),
        default_context_size: SearchContextSize::Medium,
        timeout_ms: 5000,
        max_body_bytes: 64 * 1024 * 1024,
        failure_mode: FailureMode::Closed,
        status_on_error: 502,
    };
    let client = SearchClient::from_config(&config);

    let request = client.build_you_request("Praxis proxy", 5);

    assert!(request.is_post);
    assert_eq!(request.url, "https://api.you.com/v1/search");
    assert!(
        request
            .headers
            .iter()
            .any(|(name, value)| *name == "x-api-key" && value == b"test-key"),
        "You.com requests must send X-API-Key through the Praxis callout"
    );
    assert_eq!(
        serde_json::from_slice::<serde_json::Value>(request.body.as_deref().unwrap()).unwrap(),
        serde_json::from_str::<serde_json::Value>(r#"{"query": "Praxis proxy", "count": 5}"#).unwrap()
    );
}

#[test]
fn parse_you_results_merges_web_and_news_sections() {
    let json = j(r#"{
        "results": {
            "web": [
                {"title": "Praxis", "url": "https://praxis.example", "description": "Proxy"},
                {"description": "Missing identity"}
            ],
            "news": [
                {"title": "vLLM", "url": "https://vllm.example", "description": "Inference"}
            ]
        }
    }"#);

    let results = parse_you_results(&json);

    assert_eq!(results.len(), 2);
    assert_eq!(results[0].title, "Praxis");
    assert_eq!(results[0].snippet, "Proxy");
    assert_eq!(results[1].title, "vLLM");
}

#[test]
fn parse_you_results_handles_missing_sections() {
    assert!(parse_you_results(&j(r#"{"results": {}}"#)).is_empty());
}

#[test]
fn search_client_from_config() {
    let config = ValidatedConfig {
        provider: SearchProvider::Brave,
        api_key: "test-key".to_owned(),
        default_context_size: SearchContextSize::Medium,
        timeout_ms: 5000,
        max_body_bytes: 64 * 1024 * 1024,
        failure_mode: FailureMode::Closed,
        status_on_error: 502,
    };
    let client = SearchClient::from_config(&config);
    assert!(!client.build_request("rust", None).is_post);
}

#[test]
fn parse_failure_closed_mode_rejects() {
    let config = ValidatedConfig {
        provider: SearchProvider::Brave,
        api_key: "test-key".to_owned(),
        default_context_size: SearchContextSize::Medium,
        timeout_ms: 5000,
        max_body_bytes: 64 * 1024 * 1024,
        failure_mode: FailureMode::Closed,
        status_on_error: 502,
    };
    let client = SearchClient::from_config(&config);
    let outcome = client.parse_response(b"not json");
    assert!(
        matches!(outcome, SearchOutcome::Rejected(502)),
        "closed mode should reject on parse failure"
    );
}

#[test]
fn parse_failure_open_mode_skips() {
    let config = ValidatedConfig {
        provider: SearchProvider::Brave,
        api_key: "test-key".to_owned(),
        default_context_size: SearchContextSize::Medium,
        timeout_ms: 5000,
        max_body_bytes: 64 * 1024 * 1024,
        failure_mode: FailureMode::Open,
        status_on_error: 502,
    };
    let client = SearchClient::from_config(&config);
    let outcome = client.parse_response(b"not json");
    assert!(
        matches!(outcome, SearchOutcome::Skipped),
        "open mode should skip on parse failure"
    );
}
