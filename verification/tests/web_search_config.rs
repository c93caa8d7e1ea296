//! Configuration of the web-search filter.

use praxis_apis::filter::MAX_JSON_BODY_BYTES;
use praxis_apis::openai::web_search::config::{
    build_config, resolve_api_key, FailureMode, SearchContextSize, SearchProvider,
    WebSearchFilterConfig, DEFAULT_STATUS_ON_ERROR, DEFAULT_TIMEOUT_MS,
};

/// What the environment says of a variable that is not set.
fn unset() -> Result<String, String> {
    Err("environment variable not found".to_owned())
}

fn base_config() -> WebSearchFilterConfig {
    WebSearchFilterConfig {
        provider: SearchProvider::Brave,
        api_key: Some("test-key-123".to_owned()),
        default_context_size: None,
        timeout_ms: None,
        max_body_bytes: None,
        failure_mode: None,
        status_on_error: None,
    }
}

#[test]
fn build_config_applies_defaults() {
    let cfg = build_config(&base_config(), &unset()).ok().unwrap();
    assert_eq!(cfg.provider, SearchProvider::Brave);
    assert_eq!(cfg.api_key, "test-key-123");
    assert_eq!(cfg.default_context_size, SearchContextSize::Medium);
    assert_eq!(cfg.timeout_ms, DEFAULT_TIMEOUT_MS);
    assert_eq!(cfg.max_body_bytes, MAX_JSON_BODY_BYTES);
    assert_eq!(cfg.failure_mode, FailureMode::Closed);
    assert_eq!(cfg.status_on_error, DEFAULT_STATUS_ON_ERROR);
}

#[test]
fn build_config_rejects_empty_api_key() {
    let mut cfg = base_config();
    cfg.api_key = Some(String::new());
    assert!(build_config(&cfg, &unset()).is_err());
}

#[test]
fn build_config_rejects_missing_api_key() {
    let mut cfg = base_config();
    cfg.api_key = None;
    assert!(build_config(&cfg, &unset()).is_err(), "None api_key should be rejected");
}

#[test]
fn build_config_rejects_zero_timeout() {
    let mut cfg = base_config();
    cfg.timeout_ms = Some(0);
    assert!(build_config(&cfg, &unset()).is_err());
}

#[test]
fn build_config_rejects_invalid_context_size() {
    let mut cfg = base_config();
    cfg.default_context_size = Some("xlarge".into());
    assert!(
        build_config(&cfg, &unset()).is_err(),
        "unknown default_context_size should be rejected"
    );
}

#[test]
fn build_config_rejects_invalid_status() {
    let mut cfg = base_config();
    cfg.status_on_error = Some(999);
    assert!(build_config(&cfg, &unset()).is_err());
}

#[test]
fn build_config_custom_values() {
    let mut cfg = base_config();
    cfg.default_context_size = Some("high".into());
    cfg.timeout_ms = Some(15_000);
    cfg.failure_mode = Some(FailureMode::Open);
    cfg.status_on_error = Some(503);
    let validated = build_config(&cfg, &unset()).ok().unwrap();
    assert_eq!(validated.default_context_size, SearchContextSize::High);
    assert_eq!(validated.timeout_ms, 15_000);
    assert_eq!(validated.failure_mode, FailureMode::Open);
    assert_eq!(validated.status_on_error, 503);
}

#[test]
fn resolve_literal_api_key() {
    let result = resolve_api_key("my-literal-key", &unset()).unwrap();
    assert_eq!(result, "my-literal-key");
}

#[test]
fn resolve_literal_api_key_trimmed() {
    let result = resolve_api_key("  spaced-key  ", &unset()).unwrap();
    assert_eq!(result, "spaced-key");
}

#[test]
fn resolve_env_var_syntax_detected() {
    let result = resolve_api_key("${DEFINITELY_NOT_SET_KEY_12345}", &unset());
    assert!(result.is_err(), "missing env var should fail");
}

#[test]
fn resolve_partial_env_syntax_treated_as_literal() {
    let result = resolve_api_key("${INCOMPLETE", &unset()).unwrap();
    assert_eq!(result, "${INCOMPLETE", "unclosed brace should be literal");
}

#[test]
fn build_config_rejects_zero_max_body_bytes() {
    let mut cfg = base_config();
    cfg.max_body_bytes = Some(0);
    assert!(build_config(&cfg, &unset()).is_err(), "max_body_bytes=0 should be rejected");
}

#[test]
fn build_config_rejects_oversized_max_body_bytes() {
    let mut cfg = base_config();
    cfg.max_body_bytes = Some(999_999_999_999);
    assert!(
        build_config(&cfg, &unset()).is_err(),
        "max_body_bytes above limit should be rejected"
    );
}

#[test]
fn search_context_size_result_counts() {
    assert_eq!(SearchContextSize::Low.result_count(), 3);
    assert_eq!(SearchContextSize::Medium.result_count(), 5);
    assert_eq!(SearchContextSize::High.result_count(), 10);
}

#[test]
fn search_context_size_parsing() {
    assert_eq!(SearchContextSize::from_str_or_default("low"), SearchContextSize::Low);
    assert_eq!(
        SearchContextSize::from_str_or_default("medium"),
        SearchContextSize::Medium
    );
    assert_eq!(SearchContextSize::from_str_or_default("high"), SearchContextSize::High);
    assert_eq!(
        SearchContextSize::from_str_or_default("unknown"),
        SearchContextSize::Medium
    );
}

#[test]
fn search_provider_as_str() {
    assert_eq!(SearchProvider::Brave.as_str(), "brave");
    assert_eq!(SearchProvider::Tavily.as_str(), "tavily");
    assert_eq!(SearchProvider::You.as_str(), "you");
}
