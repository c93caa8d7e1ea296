use praxis_apis::promotion::{
    is_promotable_value, is_transport_controlled_header, is_transport_controlled_header_lowercase, is_credential_header, is_unsafe_promotion_header, is_unsafe_model_identity_promotion_header, validate_promotion_header, validate_model_identity_promotion_header, validate_dedicated_promotion_header, reject_duplicate_promotion_fields,
};

#[test]
fn accepts_normal_model() {
    assert!(
        is_promotable_value("gpt-4.1"),
        "short ASCII model name should be promotable"
    );
}

#[test]
fn rejects_oversized_value() {
    let long = "x".repeat(257);
    assert!(!is_promotable_value(&long), "257-byte value should be rejected");
}

#[test]
fn accepts_value_at_limit() {
    let exact = "x".repeat(256);
    assert!(is_promotable_value(&exact), "256-byte value should be accepted");
}

#[test]
fn rejects_newline() {
    assert!(!is_promotable_value("bad\nmodel"), "newline should be rejected");
}

#[test]
fn accepts_empty_string() {
    assert!(is_promotable_value(""), "empty string should be accepted");
}

#[test]
fn transport_controlled_headers_are_blocked() {
    for name in [
        "content-length",
        "Content-Length",
        "host",
        "transfer-encoding",
        "proxy-authorization",
        "connection",
    ] {
        assert!(
            is_transport_controlled_header(name),
            "transport header '{name}' should be blocked"
        );
    }
}

#[test]
fn promotion_defaults_are_not_transport_controlled() {
    assert!(
        !is_transport_controlled_header("x-praxis-ai-effective-model"),
        "default promotion header must remain allowed"
    );
}

#[test]
fn unsafe_promotion_blocks_authorization_and_unrelated_internal() {
    for name in ["authorization", "Authorization", "cookie", "x-praxis-route"] {
        assert!(
            is_unsafe_promotion_header(name),
            "promotion header '{name}' should be blocked"
        );
    }
}

#[test]
fn unsafe_promotion_blocks_provider_api_key_headers() {
    for name in ["x-api-key", "X-Api-Key", "api-key", "x-goog-api-key"] {
        assert!(
            is_unsafe_promotion_header(name),
            "credential header '{name}' should be blocked"
        );
    }
}

#[test]
fn unsafe_promotion_allows_ai_fact_namespaces() {
    for name in [
        "x-praxis-ai-effective-model",
        "x-praxis-ai-model",
        "x-praxis-ai-format",
        "x-praxis-responses-mode",
        "x-custom-model",
    ] {
        assert!(
            !is_unsafe_promotion_header(name),
            "promotion header '{name}' should remain allowed"
        );
    }
}

#[test]
fn model_identity_promotion_blocks_cross_purpose_routing_headers() {
    for name in [
        "x-praxis-ai-format",
        "x-praxis-ai-model",
        "x-praxis-ai-stream",
        "x-praxis-responses-mode",
        "x-praxis-route",
    ] {
        assert!(
            is_unsafe_model_identity_promotion_header(name),
            "model-identity promotion must not overwrite '{name}'"
        );
    }
}

#[test]
fn model_identity_promotion_allows_dedicated_and_custom_headers() {
    for name in [
        "x-praxis-ai-effective-model",
        "x-praxis-ai-original-model",
        "x-custom-model",
    ] {
        assert!(
            !is_unsafe_model_identity_promotion_header(name),
            "model-identity promotion header '{name}' should remain allowed"
        );
    }
}

#[test]
fn validate_promotion_header_rejects_authorization() {
    let err = validate_promotion_header("test", "model", Some("authorization")).unwrap_err();
    assert!(
        err.contains("transport, credential, or internal header"),
        "authorization should be rejected: {err}"
    );
}

#[test]
fn validate_promotion_header_rejects_x_api_key() {
    let err = validate_promotion_header("test", "model", Some("x-api-key")).unwrap_err();
    assert!(
        err.contains("x-api-key"),
        "x-api-key should be rejected: {err}"
    );
}

#[test]
fn validate_model_identity_header_rejects_format_routing_fact() {
    let err = validate_model_identity_promotion_header("test", "effective_model", Some("x-praxis-ai-format"))
        .unwrap_err();
    assert!(
        err.contains("x-praxis-ai-format"),
        "x-praxis-ai-format should be rejected as a model-identity target: {err}"
    );
}

#[test]
fn validate_model_identity_header_accepts_dedicated_default() {
    assert!(
        validate_model_identity_promotion_header("test", "effective_model", Some("x-praxis-ai-effective-model"))
            .is_ok(),
        "dedicated effective-model header should remain allowed"
    );
}

#[test]
fn validate_dedicated_header_rejects_other_ai_facts() {
    let err =
        validate_dedicated_promotion_header("test", "model", Some("x-praxis-ai-format"), &["x-praxis-ai-model"])
            .unwrap_err();
    assert!(
        err.contains("x-praxis-ai-format"),
        "format routing header should be rejected for a model fact: {err}"
    );
}

#[test]
fn validate_dedicated_header_accepts_its_own_default() {
    assert!(
        validate_dedicated_promotion_header("test", "model", Some("X-Praxis-Ai-Model"), &["x-praxis-ai-model"])
            .is_ok(),
        "dedicated model header should remain allowed case-insensitively"
    );
}

#[test]
fn validate_dedicated_header_with_empty_allowlist_rejects_internal_names() {
    let err = validate_dedicated_promotion_header("test", "header", Some("x-praxis-ai-model"), &[]).unwrap_err();
    assert!(
        err.contains("x-praxis-ai-model"),
        "empty dedicated allowlist must not overwrite AI facts: {err}"
    );
}

#[test]
fn validate_dedicated_header_with_empty_allowlist_accepts_custom() {
    assert!(
        validate_dedicated_promotion_header("test", "header", Some("X-Model"), &[]).is_ok(),
        "custom non-internal header should remain allowed"
    );
}

#[test]
fn credential_header_classification_matches_fixture_policy() {
    for name in [
        "authorization",
        "Authorization",
        "x-api-key",
        "api-key",
        "x-goog-api-key",
        "www-authenticate",
    ] {
        assert!(
            is_credential_header(name),
            "credential header '{name}' should be classified"
        );
    }
    assert!(
        !is_credential_header("x-custom-model"),
        "custom headers are not credentials"
    );
}

#[test]
fn transport_controlled_lowercase_requires_normalized_input() {
    assert!(
        is_transport_controlled_header_lowercase("content-length"),
        "lowercase transport names must match without allocating"
    );
    assert!(
        !is_transport_controlled_header_lowercase("Content-Length"),
        "mixed-case input is the caller's responsibility"
    );
    assert!(
        is_transport_controlled_header("Content-Length"),
        "the allocating wrapper must still accept mixed case"
    );
}

#[test]
fn reject_duplicate_promotion_fields_is_case_insensitive() {
    let err = reject_duplicate_promotion_fields("test", &[("format", Some("x-foo")), ("model", Some("X-Foo"))])
        .unwrap_err();
    assert!(
        err.contains("same header name"),
        "duplicate promotion fields should be rejected: {err}"
    );
}

#[test]
fn reject_duplicate_promotion_fields_skips_none() {
    assert!(
        reject_duplicate_promotion_fields("test", &[("format", Some("x-foo")), ("model", None)]).is_ok(),
        "disabled fields must not collide with configured names"
    );
}

