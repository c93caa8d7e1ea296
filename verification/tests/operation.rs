use praxis_apis::operation::{
    match_operation, ApplicationProtocol, HandlingMode, HttpMethod, OperationSpec, RequestBody,
    RouteParams, Transport, MAX_PATH_PARAMS,
};

/// Protocol identifiers for this module's tests only. Real registries
/// declare their own beside their operations.
const OPENAI_RESPONSES: &str = "openai_responses";
/// Stand-in for a second protocol, to show the matcher does not branch.
const ANTHROPIC_MESSAGES: &str = "anthropic_messages";

/// Two protocols sharing a matcher, declared without touching this module.
fn specs() -> Vec<OperationSpec> {
    vec![
    OperationSpec {
        application_protocol: ApplicationProtocol::new(OPENAI_RESPONSES),
        operation_id: "createResponse",
        method: HttpMethod::Post,
        transport: Transport::Http,
        runtime_path: "/v1/responses",
        mode: HandlingMode::Transform,
        request_body: RequestBody::Json { required: true },
    },
    OperationSpec {
        application_protocol: ApplicationProtocol::new(OPENAI_RESPONSES),
        operation_id: "getResponse",
        method: HttpMethod::Get,
        transport: Transport::Http,
        runtime_path: "/v1/responses/{response_id}",
        mode: HandlingMode::Transform,
        request_body: RequestBody::Absent,
    },
    OperationSpec {
        application_protocol: ApplicationProtocol::new(OPENAI_RESPONSES),
        operation_id: "getInputTokenCounts",
        method: HttpMethod::Get,
        transport: Transport::Http,
        runtime_path: "/v1/responses/input_tokens",
        mode: HandlingMode::Local,
        request_body: RequestBody::Absent,
    },
    OperationSpec {
        application_protocol: ApplicationProtocol::new(ANTHROPIC_MESSAGES),
        operation_id: "createMessage",
        method: HttpMethod::Post,
        transport: Transport::Http,
        runtime_path: "/v1/messages",
        mode: HandlingMode::Passthrough,
        request_body: RequestBody::Json { required: true },
    },
]
}

/// The slice below is hand-built. It shows the matcher does not branch on
/// protocol; it is not evidence that two shipped registries share it. Only
/// OpenAI registries exist today.
#[test]
fn the_matcher_does_not_branch_on_protocol() {
    let registry = specs();
    let responses = match_operation(&registry, "POST", "/v1/responses", Transport::Http).unwrap();
    assert_eq!(responses.spec.application_protocol, ApplicationProtocol::new(OPENAI_RESPONSES));

    let registry = specs();
    let messages = match_operation(&registry, "POST", "/v1/messages", Transport::Http).unwrap();
    assert_eq!(
        messages.spec.application_protocol,
        ApplicationProtocol::new(ANTHROPIC_MESSAGES),
        "the matcher must not branch on provider"
    );
}

#[test]
fn a_literal_segment_outranks_a_parameter() {
    let registry = specs();
    let matched = match_operation(&registry, "GET", "/v1/responses/input_tokens", Transport::Http).unwrap();
    assert_eq!(
        matched.spec.operation_id, "getInputTokenCounts",
        "a static endpoint must not be consumed as an identifier"
    );
}

#[test]
fn parameters_borrow_from_the_request_path() {
    let path = "/v1/responses/resp_123";
    let registry = specs();
    let matched = match_operation(&registry, "GET", path, Transport::Http).unwrap();
    assert_eq!(matched.spec.operation_id, "getResponse");
    assert_eq!(matched.params.get("response_id"), Some("resp_123"));
    assert_eq!(matched.params.get("missing"), None);

    let offsets = matched.params.offsets_in(path).unwrap();
    assert_eq!(offsets.get(path, "response_id"), Some("resp_123"));
    assert_eq!(offsets.get(path, "missing"), None);
    assert_eq!(offsets.len(), 1);
    assert!(!offsets.is_empty());
    assert_eq!(
        offsets.get("/changed", "response_id"),
        None,
        "offset recovery must fail closed when the source path is unavailable"
    );
}

#[test]
fn rejects_duplicate_parameter_name() {
    let mut params = RouteParams::empty();
    assert!(params.insert("id", "first", 0).is_some());
    assert!(
        params.insert("id", "second", 0).is_none(),
        "a repeated parameter name must fail the match rather than overwrite"
    );
    assert_eq!(params.get("id"), Some("first"));
}

#[test]
fn rejects_more_parameters_than_capacity() {
    let names = ["a", "b", "c", "d"];
    assert_eq!(names.len(), MAX_PATH_PARAMS, "this test must fill exactly the capacity");

    let mut params = RouteParams::empty();
    for name in names {
        assert!(params.insert(name, "value", 0).is_some());
    }
    assert!(
        params.insert("overflow", "value", 0).is_none(),
        "exceeding capacity must fail the match rather than drop a parameter"
    );
}

#[test]
fn a_template_repeating_a_parameter_name_does_not_match() {
    let repeated = [OperationSpec {
        application_protocol: ApplicationProtocol::new("test_protocol"),
        operation_id: "repeated",
        method: HttpMethod::Get,
        transport: Transport::Http,
        runtime_path: "/v1/thing/{id}/{id}",
        mode: HandlingMode::Passthrough,
        request_body: RequestBody::Absent,
    }];

    assert!(
        match_operation(&repeated, "GET", "/v1/thing/a/b", Transport::Http).is_none(),
        "a template cannot bind one name twice"
    );
}

#[test]
fn transport_is_part_of_identity() {
    assert!(match_operation(&specs(), "POST", "/v1/responses", Transport::WebSocket).is_none());
}

#[test]
fn query_strings_and_one_trailing_slash_are_tolerated() {
    assert!(match_operation(&specs(), "POST", "/v1/responses?stream=true", Transport::Http).is_some());
    assert!(match_operation(&specs(), "POST", "/v1/responses/", Transport::Http).is_some());
    assert!(match_operation(&specs(), "POST", "/v1/responses//", Transport::Http).is_none());
}

#[test]
fn protocol_identifiers_are_open_ended() {
    let custom = ApplicationProtocol::new("vendor_custom_api");
    assert_eq!(custom.as_str(), "vendor_custom_api");
    assert_eq!(ApplicationProtocol::new(OPENAI_RESPONSES).as_str(), "openai_responses");
    assert_eq!(ApplicationProtocol::new(ANTHROPIC_MESSAGES).as_str(), "anthropic_messages");
}
