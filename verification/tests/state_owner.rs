//! The owner of persisted private state.

use praxis_apis::filter::{BodyAccess, FilterAction, Rejection};
use praxis_apis::state_owner::{
    decode_assertion, project_state_owner, validate_component, OwnerAssertionError, OwnerComponent,
    OwnerComponentConfig, OwnerRequest, RequestExtensions, StateOwner, StateOwnerConfig,
    StateOwnerFilter, TrustedHeaderMutation,
};

/// The assertion of the tenant `tenant-a`, the issuer `issuer-a` and the subject
/// `alice`.
const ALICE: &str = "v1.WyJ0ZW5hbnQtYSIsImlzc3Vlci1hIiwiYWxpY2UiXQ";

fn no_identity() -> RequestExtensions {
    RequestExtensions { state_owner: None, state_owner_ingress_headers: None }
}

fn request(headers: &[(&str, &str)]) -> OwnerRequest {
    OwnerRequest {
        headers: headers
            .iter()
            .map(|(name, value)| (name.to_string(), value.as_bytes().to_vec()))
            .collect(),
        prior_pre_read_mutations: Vec::new(),
        pre_read_mutations: Vec::new(),
        request_headers_to_remove: Vec::new(),
        request_headers_to_set: Vec::new(),
        extra_request_headers: Vec::new(),
        extensions: no_identity(),
    }
}

fn trusted_owner(header: &str) -> StateOwnerFilter {
    let config = StateOwnerConfig::TrustedOwner { header: header.to_owned() };
    StateOwnerFilter::from_config(config).ok().unwrap()
}

fn rejection(action: FilterAction) -> Rejection {
    match action {
        FilterAction::Reject(rejection) => rejection,
        _ => panic!("expected a rejection"),
    }
}

fn error_of(rejection: &Rejection) -> (u16, String, String, String) {
    let body: serde_json::Value = serde_json::from_slice(&rejection.body).unwrap();
    let text = |name: &str| body["error"][name].as_str().unwrap().to_owned();
    (rejection.status, text("type"), text("code"), text("message"))
}

fn parts(owner: &StateOwner) -> (&str, &str, &str) {
    (owner.tenant_id(), owner.issuer(), owner.subject())
}

#[test]
fn assertions_are_decoded() {
    let owner = decode_assertion(ALICE).ok().unwrap();
    assert_eq!(parts(&owner), ("tenant-a", "issuer-a", "alice"));
}

#[test]
fn malformed_assertions_are_refused() {
    let error = |text: &str| decode_assertion(text).err().unwrap();
    assert_eq!(error("v2.e30"), OwnerAssertionError::UnsupportedVersion);
    assert_eq!(error(""), OwnerAssertionError::UnsupportedVersion);
    assert_eq!(error("v1."), OwnerAssertionError::InvalidEncoding);
    assert_eq!(error("v1.e30="), OwnerAssertionError::InvalidEncoding);
    assert_eq!(error("v1.e30"), OwnerAssertionError::InvalidPayload);
    assert_eq!(error("v1.WyJ0IiwiaSJd"), OwnerAssertionError::InvalidPayload);
    assert_eq!(
        error("v1.WyJ0IiwiIiwicyJd"),
        OwnerAssertionError::InvalidComponent(OwnerComponent::Issuer)
    );
    assert_eq!(
        error("v1.WyJ0IiwiaSIsIlxuIl0"),
        OwnerAssertionError::InvalidComponent(OwnerComponent::Subject)
    );
}

#[test]
fn errors_have_categories_and_messages() {
    let cases = [
        (
            OwnerAssertionError::UnsupportedVersion,
            "unsupported_version",
            "trusted state owner assertion version is unsupported",
        ),
        (
            OwnerAssertionError::InvalidEncoding,
            "invalid_encoding",
            "trusted state owner assertion encoding is invalid",
        ),
        (
            OwnerAssertionError::InvalidPayload,
            "invalid_payload",
            "trusted state owner assertion payload is invalid",
        ),
        (
            OwnerAssertionError::InvalidComponent(OwnerComponent::Tenant),
            "invalid_component",
            "trusted state owner tenant is invalid",
        ),
    ];
    for (error, category, message) in cases {
        assert_eq!(error.category(), category);
        assert_eq!(error.client_message(), message);
    }
}

#[test]
fn components_are_bounded_and_free_of_controls() {
    let valid = |value: &str| validate_component(OwnerComponent::Subject, value).is_ok();
    assert!(valid("alice"));
    assert!(valid(&"x".repeat(1024)));
    assert!(!valid(&"x".repeat(1025)));
    assert!(!valid(""));
    assert!(!valid("a\u{7f}"));
    assert!(!valid("a\u{85}"));
}

#[test]
fn a_trusted_assertion_installs_the_owner() {
    let filter = trusted_owner("X-Owner");
    let mut request = request(&[("x-owner", ALICE)]);
    assert!(matches!(filter.on_request(&mut request), FilterAction::Continue));
    let owner = request.extensions.state_owner.as_ref().unwrap();
    assert_eq!(parts(owner), ("tenant-a", "issuer-a", "alice"));
    assert_eq!(
        request.extensions.state_owner_ingress_headers,
        Some(vec!["x-owner".to_owned()]),
        "the configured header is held in lowercase"
    );
    assert_eq!(request.request_headers_to_remove, vec!["x-owner".to_owned()]);
    assert_eq!(filter.name(), "state_owner");
    assert_eq!(filter.request_body_access(), BodyAccess::ReadOnly);
}

#[test]
fn assertions_are_required_exactly_once() {
    let filter = trusted_owner("x-owner");
    let mut missing = request(&[]);
    assert_eq!(
        error_of(&rejection(filter.on_request(&mut missing))),
        (
            401,
            "authentication_error".to_owned(),
            "missing_state_owner".to_owned(),
            "trusted state owner assertion is required".to_owned()
        )
    );
    assert!(missing.extensions.state_owner.is_none());
    let mut twice = request(&[("x-owner", ALICE), ("x-owner", ALICE)]);
    assert_eq!(
        error_of(&rejection(filter.on_request(&mut twice))),
        (
            400,
            "invalid_request_error".to_owned(),
            "invalid_state_owner".to_owned(),
            "trusted state owner assertion must appear exactly once".to_owned()
        )
    );
    let mut large = request(&[("x-owner", "x".repeat(4097).as_str())]);
    assert_eq!(
        error_of(&rejection(filter.on_request(&mut large))).3,
        "trusted state owner assertion is too large"
    );
    let mut binary = request(&[]);
    binary.headers.push(("x-owner".to_owned(), vec![0xff]));
    assert_eq!(
        error_of(&rejection(filter.on_request(&mut binary))).3,
        "trusted state owner assertion must be text"
    );
}

#[test]
fn an_owner_that_is_there_stays() {
    let filter = trusted_owner("x-owner");
    let mut request = request(&[]);
    request.extensions.state_owner = decode_assertion(ALICE).ok();
    assert!(matches!(filter.on_request(&mut request), FilterAction::Continue));
    assert_eq!(parts(request.extensions.state_owner.as_ref().unwrap()).2, "alice");
}

#[test]
fn the_body_phase_replays_trusted_mutations() {
    let filter = trusted_owner("x-owner");
    let mut set = request(&[("x-owner", "forged")]);
    set.pre_read_mutations.push(TrustedHeaderMutation::Remove("x-owner".to_owned()));
    set.pre_read_mutations
        .push(TrustedHeaderMutation::Add("x-owner".to_owned(), ALICE.to_owned()));
    assert!(matches!(filter.on_request_body(&mut set), FilterAction::BodyDone));
    assert_eq!(parts(set.extensions.state_owner.as_ref().unwrap()).2, "alice");

    let mut grouped = request(&[("x-owner", "forged")]);
    grouped
        .request_headers_to_set
        .push(("x-owner".to_owned(), ALICE.as_bytes().to_vec()));
    assert!(matches!(filter.on_request_body(&mut grouped), FilterAction::BodyDone));
    assert_eq!(parts(grouped.extensions.state_owner.as_ref().unwrap()).2, "alice");

    let mut invalid = request(&[("x-owner", ALICE)]);
    invalid.extra_request_headers.push(("X-Owner".to_owned(), "line\nbreak".to_owned()));
    assert!(
        matches!(filter.on_request_body(&mut invalid), FilterAction::BodyDone),
        "an addition that no header can hold does not count"
    );

    let mut doubled = request(&[("x-owner", ALICE)]);
    doubled.extra_request_headers.push(("X-Owner".to_owned(), ALICE.to_owned()));
    assert!(matches!(filter.on_request_body(&mut doubled), FilterAction::Reject(_)));
}

#[test]
fn owners_are_assembled_from_components() {
    let config = StateOwnerConfig::TrustedHeaders {
        tenant: OwnerComponentConfig::Header("X-Tenant".to_owned()),
        issuer: OwnerComponentConfig::Fixed("urn:idp".to_owned()),
        subject: OwnerComponentConfig::Header("X-Subject".to_owned()),
    };
    let filter = StateOwnerFilter::from_config(config).ok().unwrap();
    let mut whole = request(&[("x-tenant", "acme"), ("x-subject", "bob")]);
    assert!(matches!(filter.on_request(&mut whole), FilterAction::Continue));
    assert_eq!(
        parts(whole.extensions.state_owner.as_ref().unwrap()),
        ("acme", "urn:idp", "bob")
    );
    let mut partial = request(&[("x-tenant", "acme")]);
    assert_eq!(
        error_of(&rejection(filter.on_request(&mut partial))).3,
        "trusted state owner subject header is required"
    );
}

#[test]
fn one_tenant_shares_one_owner() {
    let config = StateOwnerConfig::SingleTenant { tenant_id: "acme".to_owned() };
    let filter = StateOwnerFilter::from_config(config).ok().unwrap();
    let mut request = request(&[]);
    assert!(matches!(filter.on_request(&mut request), FilterAction::Continue));
    assert_eq!(
        parts(request.extensions.state_owner.as_ref().unwrap()),
        ("acme", "urn:praxis:single-tenant", "shared")
    );
}

#[test]
fn unusable_sources_are_refused() {
    let refusal = |config: StateOwnerConfig| StateOwnerFilter::from_config(config).err().unwrap();
    let header = |name: &str| OwnerComponentConfig::Header(name.to_owned());
    assert_eq!(
        refusal(StateOwnerConfig::TrustedOwner { header: String::new() }),
        "state_owner: 'header' must not be empty"
    );
    assert_eq!(
        refusal(StateOwnerConfig::TrustedOwner { header: "no spaces".to_owned() }),
        "state_owner: invalid 'header': invalid HTTP header name"
    );
    assert_eq!(
        refusal(StateOwnerConfig::Policy { header: "x-owner".to_owned() }),
        "state_owner: 'policy' mode requires the PPE integration"
    );
    assert_eq!(
        refusal(StateOwnerConfig::SingleTenant { tenant_id: String::new() }),
        "state_owner: trusted state owner tenant is invalid"
    );
    assert_eq!(
        refusal(StateOwnerConfig::TrustedHeaders {
            tenant: header("x-id"),
            issuer: OwnerComponentConfig::Fixed("urn:idp".to_owned()),
            subject: header("X-Id"),
        }),
        "state_owner: trusted_headers component headers must be distinct"
    );
}

#[test]
fn only_the_owner_is_projected() {
    let mut parent = no_identity();
    let mut child = no_identity();
    assert!(!project_state_owner(&parent, &mut child));
    assert!(child.state_owner.is_none());
    parent.state_owner = decode_assertion(ALICE).ok();
    parent.state_owner_ingress_headers = Some(vec!["x-owner".to_owned()]);
    assert!(project_state_owner(&parent, &mut child));
    assert_eq!(parts(child.state_owner.as_ref().unwrap()).2, "alice");
    assert!(child.state_owner_ingress_headers.is_none());
}
