//! Trusted ownership context for persisted private state.
//!
//! The filter in this module normalizes identity supplied by a trusted upstream
//! authentication boundary. Deployments must prevent untrusted clients from
//! supplying configured identity headers or bypassing that boundary.

use vstd::prelude::*;
use vstd::string::StringExecFns;

use crate::filter::{ActionView, BodyAccess, FilterAction, Rejection, RejectionView, json_rejection, reject_json};
use crate::header::{
    header_value_text, is_header_name, is_safe_value, is_visible, parse_header_name,
    parse_header_value, visible_text,
};
use crate::json::{
    lemma_position_is, members_view, no_members, push_member, string, Json, JsonView,
};
use crate::json_text::{bytes_of, compact_text, parse_json, parsed};
use crate::text::{
    ascii_lower, begins_with, byte_len, chars_of, same_text, starts_with, to_lowercase_ascii, utf8,
};

verus! {

broadcast use crate::json_model::group_json_view;

/// Maximum encoded owner assertion accepted from the trusted boundary.
pub const MAX_ASSERTION_BYTES: usize = 4096;

/// Maximum UTF-8 bytes accepted in one owner component.
pub const MAX_COMPONENT_BYTES: usize = 1024;

/// One part of an owner's identity.
#[derive(Clone, Copy, Debug, PartialEq, Eq, Structural)]
pub enum OwnerComponent {
    /// The tenant namespace.
    Tenant,
    /// The identity provider or trust domain.
    Issuer,
    /// The subject within the issuer.
    Subject,
}

impl OwnerComponent {
    /// The component's name.
    pub open spec fn label(self) -> Seq<char> {
        match self {
            OwnerComponent::Tenant => "tenant"@,
            OwnerComponent::Issuer => "issuer"@,
            OwnerComponent::Subject => "subject"@,
        }
    }

    /// The component's name.
    pub fn as_str(self) -> (label: &'static str)
        ensures
            label@ == self.label(),
    {
        match self {
            OwnerComponent::Tenant => "tenant",
            OwnerComponent::Issuer => "issuer",
            OwnerComponent::Subject => "subject",
        }
    }
}

/// Validation failure for a versioned owner assertion.
#[derive(Clone, Copy, Debug, PartialEq, Eq, Structural)]
pub enum OwnerAssertionError {
    /// Version prefix is missing or unsupported.
    UnsupportedVersion,
    /// Payload is not canonical unpadded base64url.
    InvalidEncoding,
    /// Decoded payload is not exactly three JSON strings.
    InvalidPayload,
    /// One identity component is absent, too large, or contains controls.
    InvalidComponent(OwnerComponent),
}

impl OwnerAssertionError {
    /// The client-facing explanation.
    pub open spec fn message(self) -> Seq<char> {
        match self {
            OwnerAssertionError::UnsupportedVersion =>
                "trusted state owner assertion version is unsupported"@,
            OwnerAssertionError::InvalidEncoding =>
                "trusted state owner assertion encoding is invalid"@,
            OwnerAssertionError::InvalidPayload =>
                "trusted state owner assertion payload is invalid"@,
            OwnerAssertionError::InvalidComponent(OwnerComponent::Tenant) =>
                "trusted state owner tenant is invalid"@,
            OwnerAssertionError::InvalidComponent(OwnerComponent::Issuer) =>
                "trusted state owner issuer is invalid"@,
            OwnerAssertionError::InvalidComponent(OwnerComponent::Subject) =>
                "trusted state owner subject is invalid"@,
        }
    }

    /// The label of the failure's kind.
    pub open spec fn kind(self) -> Seq<char> {
        match self {
            OwnerAssertionError::UnsupportedVersion => "unsupported_version"@,
            OwnerAssertionError::InvalidEncoding => "invalid_encoding"@,
            OwnerAssertionError::InvalidPayload => "invalid_payload"@,
            OwnerAssertionError::InvalidComponent(_) => "invalid_component"@,
        }
    }

    /// Stable low-cardinality category for internal diagnostics.
    pub fn category(&self) -> (category: &'static str)
        ensures
            category@ == self.kind(),
    {
        match self {
            OwnerAssertionError::UnsupportedVersion => "unsupported_version",
            OwnerAssertionError::InvalidEncoding => "invalid_encoding",
            OwnerAssertionError::InvalidPayload => "invalid_payload",
            OwnerAssertionError::InvalidComponent(_) => "invalid_component",
        }
    }

    /// Bounded client-facing explanation without assertion contents.
    pub fn client_message(&self) -> (message: &'static str)
        ensures
            message@ == self.message(),
    {
        match self {
            OwnerAssertionError::UnsupportedVersion =>
                "trusted state owner assertion version is unsupported",
            OwnerAssertionError::InvalidEncoding =>
                "trusted state owner assertion encoding is invalid",
            OwnerAssertionError::InvalidPayload =>
                "trusted state owner assertion payload is invalid",
            OwnerAssertionError::InvalidComponent(OwnerComponent::Tenant) =>
                "trusted state owner tenant is invalid",
            OwnerAssertionError::InvalidComponent(OwnerComponent::Issuer) =>
                "trusted state owner issuer is invalid",
            OwnerAssertionError::InvalidComponent(OwnerComponent::Subject) =>
                "trusted state owner subject is invalid",
        }
    }
}

/// Whether `c` is a control character.
pub open spec fn is_control(c: char) -> bool {
    !(c >= ' ') || ('\x7f' <= c && c <= '\u{9f}')
}

/// Whether `value` is a valid owner component: not empty, within the size limit,
/// and free of control characters.
pub open spec fn valid_component(value: Seq<char>) -> bool {
    &&& value.len() > 0
    &&& utf8(value).len() <= MAX_COMPONENT_BYTES
    &&& forall|i: int| 0 <= i < value.len() ==> !is_control(#[trigger] value[i])
}

/// Validates one stable owner component.
pub fn validate_component(component: OwnerComponent, value: &str) -> (result: Result<
    (),
    OwnerAssertionError,
>)
    ensures
        result is Ok == valid_component(value@),
        result is Err ==> result->Err_0 == OwnerAssertionError::InvalidComponent(component),
{
    if value.is_empty() || byte_len(value) > MAX_COMPONENT_BYTES {
        return Err(OwnerAssertionError::InvalidComponent(component));
    }
    let chars = chars_of(value);
    let mut i: usize = 0;
    while i < chars.len()
        invariant
            chars@ == value@,
            i <= chars.len(),
            forall|j: int| 0 <= j < i ==> !is_control(#[trigger] value@[j]),
        decreases chars.len() - i,
    {
        let c = chars[i];
        if !(c >= ' ') || ('\x7f' <= c && c <= '\u{9f}') {
            assert(is_control(value@[i as int]));
            return Err(OwnerAssertionError::InvalidComponent(component));
        }
        i = i + 1;
    }
    Ok(())
}

/// The identity that owns persisted state.
#[verifier::ext_equal]
pub struct OwnerView {
    /// Stable tenant namespace.
    pub tenant_id: Seq<char>,
    /// Stable identity-provider or trust-domain identifier.
    pub issuer: Seq<char>,
    /// Stable subject identifier within the issuer.
    pub subject: Seq<char>,
}

/// Whether all parts of an identity are valid.
pub open spec fn valid_owner(owner: OwnerView) -> bool {
    valid_component(owner.tenant_id) && valid_component(owner.issuer) && valid_component(
        owner.subject,
    )
}

/// Immutable owner of persisted private state.
///
/// Tenant, issuer, and subject together form the ownership identity. A subject
/// alone is not globally unique and must never be used as the storage scope.
#[derive(Debug, Eq, Hash, PartialEq)]
pub struct StateOwner {
    tenant_id: String,
    issuer: String,
    subject: String,
}

impl View for StateOwner {
    type V = OwnerView;

    closed spec fn view(&self) -> OwnerView {
        OwnerView { tenant_id: self.tenant_id@, issuer: self.issuer@, subject: self.subject@ }
    }
}

impl Clone for StateOwner {
    fn clone(&self) -> (copy: Self)
        ensures
            copy@ == self@,
    {
        proof {
            use_type_invariant(self);
        }
        StateOwner {
            tenant_id: self.tenant_id.clone(),
            issuer: self.issuer.clone(),
            subject: self.subject.clone(),
        }
    }
}

/// The owner that three parts make, or the first part that is not valid.
pub open spec fn owner_of_parts(
    tenant_id: Seq<char>,
    issuer: Seq<char>,
    subject: Seq<char>,
) -> Result<OwnerView, OwnerAssertionError> {
    if !valid_component(tenant_id) {
        Err(OwnerAssertionError::InvalidComponent(OwnerComponent::Tenant))
    } else if !valid_component(issuer) {
        Err(OwnerAssertionError::InvalidComponent(OwnerComponent::Issuer))
    } else if !valid_component(subject) {
        Err(OwnerAssertionError::InvalidComponent(OwnerComponent::Subject))
    } else {
        Ok(OwnerView { tenant_id, issuer, subject })
    }
}

/// Whether `result` is the outcome `expected`.
pub open spec fn owner_result_is(
    result: Result<StateOwner, OwnerAssertionError>,
    expected: Result<OwnerView, OwnerAssertionError>,
) -> bool {
    match result {
        Ok(owner) => expected == Ok::<OwnerView, OwnerAssertionError>(owner@),
        Err(error) => expected == Err::<OwnerView, OwnerAssertionError>(error),
    }
}

impl StateOwner {
    /// Every owner is a valid identity.
    #[verifier::type_invariant]
    spec fn inv(self) -> bool {
        valid_component(self.tenant_id@) && valid_component(self.issuer@) && valid_component(
            self.subject@,
        )
    }

    /// Stable tenant namespace.
    pub fn tenant_id(&self) -> (text: &str)
        ensures
            text@ == self@.tenant_id,
            valid_owner(self@),
    {
        proof {
            use_type_invariant(self);
        }
        self.tenant_id.as_str()
    }

    /// Stable identity-provider or trust-domain identifier.
    pub fn issuer(&self) -> (text: &str)
        ensures
            text@ == self@.issuer,
            valid_owner(self@),
    {
        proof {
            use_type_invariant(self);
        }
        self.issuer.as_str()
    }

    /// Stable subject identifier within [`Self::issuer`].
    pub fn subject(&self) -> (text: &str)
        ensures
            text@ == self@.subject,
            valid_owner(self@),
    {
        proof {
            use_type_invariant(self);
        }
        self.subject.as_str()
    }

    /// Constructs an owner from trusted, normalized identity parts.
    pub fn from_trusted_parts(tenant_id: String, issuer: String, subject: String) -> (result: Result<
        Self,
        OwnerAssertionError,
    >)
        ensures
            owner_result_is(result, owner_of_parts(tenant_id@, issuer@, subject@)),
    {
        match validate_component(OwnerComponent::Tenant, tenant_id.as_str()) {
            Err(error) => return Err(error),
            Ok(()) => {},
        }
        match validate_component(OwnerComponent::Issuer, issuer.as_str()) {
            Err(error) => return Err(error),
            Ok(()) => {},
        }
        match validate_component(OwnerComponent::Subject, subject.as_str()) {
            Err(error) => return Err(error),
            Ok(()) => {},
        }
        Ok(StateOwner { tenant_id, issuer, subject })
    }
}

/// The owner that a decoded assertion payload names: exactly three strings.
pub open spec fn owner_of_payload(value: JsonView) -> Result<OwnerView, OwnerAssertionError> {
    match value {
        JsonView::Array(items) => if items.len() == 3 && items[0] is String && items[1] is String
            && items[2] is String {
            owner_of_parts(items[0]->String_0, items[1]->String_0, items[2]->String_0)
        } else {
            Err(OwnerAssertionError::InvalidPayload)
        },
        _ => Err(OwnerAssertionError::InvalidPayload),
    }
}

/// Reads the owner from a decoded assertion payload.
pub fn owner_from_payload(value: &Json) -> (result: Result<StateOwner, OwnerAssertionError>)
    ensures
        owner_result_is(result, owner_of_payload(value@)),
{
    let items = match value.as_array() {
        Some(items) => items,
        None => return Err(OwnerAssertionError::InvalidPayload),
    };
    if items.len() != 3 {
        return Err(OwnerAssertionError::InvalidPayload);
    }
    match (items[0].as_str(), items[1].as_str(), items[2].as_str()) {
        (Some(tenant_id), Some(issuer), Some(subject)) => StateOwner::from_trusted_parts(
            tenant_id.to_owned(),
            issuer.to_owned(),
            subject.to_owned(),
        ),
        _ => Err(OwnerAssertionError::InvalidPayload),
    }
}

/// What the URL-safe unpadded base64 engine decodes a text to, where it is such
/// an encoding.
pub uninterp spec fn base64url_decoded(text: Seq<char>) -> Option<Seq<u8>>;

/// `base64::engine::general_purpose::URL_SAFE_NO_PAD.decode` gives the bytes that
/// the text encodes, or refuses it.
#[verifier::external_body]
fn decode_base64url(text: &str) -> (bytes: Option<Vec<u8>>)
    ensures
        match bytes {
            Some(bytes) => base64url_decoded(text@) == Some(bytes@),
            None => base64url_decoded(text@) is None,
        },
{
    base64::Engine::decode(&base64::engine::general_purpose::URL_SAFE_NO_PAD, text).ok()
}

/// The owner that a versioned assertion names.
pub open spec fn owner_of_assertion(value: Seq<char>) -> Result<OwnerView, OwnerAssertionError> {
    let payload = value.skip(3);
    if !begins_with(value, "v1."@) {
        Err(OwnerAssertionError::UnsupportedVersion)
    } else if payload.len() == 0 {
        Err(OwnerAssertionError::InvalidEncoding)
    } else {
        match base64url_decoded(payload) {
            None => Err(OwnerAssertionError::InvalidEncoding),
            Some(bytes) => match parsed(bytes) {
                Err(_) => Err(OwnerAssertionError::InvalidPayload),
                Ok(value) => owner_of_payload(value),
            },
        }
    }
}

/// Decodes the provider-neutral `v1` assertion envelope.
pub fn decode_assertion(value: &str) -> (result: Result<StateOwner, OwnerAssertionError>)
    ensures
        owner_result_is(result, owner_of_assertion(value@)),
{
    proof {
        reveal_strlit("v1.");
    }
    if !starts_with(value, "v1.") {
        return Err(OwnerAssertionError::UnsupportedVersion);
    }
    let payload = value.substring_char(3, value.unicode_len());
    proof {
        assert(payload@ =~= value@.skip(3));
    }
    if payload.is_empty() {
        return Err(OwnerAssertionError::InvalidEncoding);
    }
    let decoded = match decode_base64url(payload) {
        Some(decoded) => decoded,
        None => return Err(OwnerAssertionError::InvalidEncoding),
    };
    match parse_json(decoded.as_slice()) {
        Ok(value) => owner_from_payload(&value),
        Err(_) => Err(OwnerAssertionError::InvalidPayload),
    }
}

/// The error response for an owner that cannot be established.
pub open spec fn owner_rejection(status: u16, code: Seq<char>, message: Seq<char>) -> RejectionView {
    let error = seq![
        ("type"@, JsonView::String(error_kind(status))),
        ("code"@, JsonView::String(code)),
        ("message"@, JsonView::String(message)),
    ];
    let body = seq![("type"@, JsonView::String("error"@)), ("error"@, JsonView::Object(error))];
    json_rejection(status, utf8(compact_text(JsonView::Object(body))))
}

/// The error type that goes with a status.
pub open spec fn error_kind(status: u16) -> Seq<char> {
    if status == 401 {
        "authentication_error"@
    } else {
        "invalid_request_error"@
    }
}

/// Builds a bounded rejection compatible with OpenAI and Anthropic clients.
pub fn reject_owner(status: u16, code: &str, message: &str) -> (rejection: Rejection)
    ensures
        rejection@ == owner_rejection(status, code@, message@),
{
    let kind = if status == 401 {
        "authentication_error"
    } else {
        "invalid_request_error"
    };
    let mut error = no_members();
    push_member(&mut error, "type", string(kind));
    push_member(&mut error, "code", string(code));
    push_member(&mut error, "message", string(message));
    let mut body = no_members();
    push_member(&mut body, "type", string("error"));
    proof {
        assert(members_view(error@) =~= seq![
            ("type"@, JsonView::String(error_kind(status))),
            ("code"@, JsonView::String(code@)),
            ("message"@, JsonView::String(message@)),
        ]);
    }
    let ghost inner = members_view(error@);
    push_member(&mut body, "error", Json::Object(error));
    proof {
        assert(members_view(body@) =~= seq![
            ("type"@, JsonView::String("error"@)),
            ("error"@, JsonView::Object(inner)),
        ]);
    }
    reject_json(status, bytes_of(&Json::Object(body)))
}

/// A change to the request headers that a trusted filter made.
pub enum TrustedHeaderMutation {
    /// Remove the header from the request.
    Remove(String),
    /// Set (overwrite) the header to a specific value.
    Overwrite(String, Vec<u8>),
    /// Add the header with a text value.
    Add(String, String),
}

/// The identity that a request carries.
pub struct RequestExtensions {
    /// The normalized owner of the state that the request may reach.
    pub state_owner: Option<StateOwner>,
    /// Ingress-only headers consumed while normalizing the owner.
    pub state_owner_ingress_headers: Option<Vec<String>>,
}

/// What an owner filter reads and changes of a request. Header names are in
/// lowercase.
pub struct OwnerRequest {
    /// The request headers.
    pub headers: Vec<(String, Vec<u8>)>,
    /// Trusted mutations of earlier passes.
    pub prior_pre_read_mutations: Vec<TrustedHeaderMutation>,
    /// Trusted mutations of the current pass, in order.
    pub pre_read_mutations: Vec<TrustedHeaderMutation>,
    /// Headers queued for removal.
    pub request_headers_to_remove: Vec<String>,
    /// Headers queued to be set.
    pub request_headers_to_set: Vec<(String, Vec<u8>)>,
    /// Headers queued to be added; their names may be in any case.
    pub extra_request_headers: Vec<(String, String)>,
    /// The identity that the request carries.
    pub extensions: RequestExtensions,
}

/// The owner of an optional [`StateOwner`].
pub open spec fn owner_view(owner: Option<StateOwner>) -> Option<OwnerView> {
    match owner {
        Some(owner) => Some(owner@),
        None => None,
    }
}

/// Explicitly copies the normalized owner into an isolated subrequest context.
///
/// Filtered subrequests inherit no parent extensions by default. Raw credentials
/// and inbound headers are intentionally not copied.
///
/// Returns `true` when an owner was present and projected.
pub fn project_state_owner(parent: &RequestExtensions, child: &mut RequestExtensions) -> (projected:
    bool)
    ensures
        projected == (parent.state_owner is Some),
        projected ==> owner_view(final(child).state_owner) == owner_view(parent.state_owner),
        !projected ==> final(child).state_owner == old(child).state_owner,
        final(child).state_owner_ingress_headers == old(child).state_owner_ingress_headers,
{
    match &parent.state_owner {
        Some(owner) => {
            child.state_owner = Some(owner.clone());
            true
        },
        None => false,
    }
}

/// The values of the header `name`, in order.
pub open spec fn named_values(headers: Seq<(String, Vec<u8>)>, name: Seq<char>) -> Seq<Seq<u8>>
    decreases headers.len(),
{
    if headers.len() == 0 {
        Seq::empty()
    } else {
        let front = named_values(headers.drop_last(), name);
        if headers.last().0@ == name {
            front.push(headers.last().1@)
        } else {
            front
        }
    }
}

/// The values of the header `name` after one mutation.
pub open spec fn mutated(
    values: Seq<Seq<u8>>,
    name: Seq<char>,
    mutation: TrustedHeaderMutation,
) -> Seq<Seq<u8>> {
    match mutation {
        TrustedHeaderMutation::Remove(target) => if target@ == name {
            Seq::empty()
        } else {
            values
        },
        TrustedHeaderMutation::Overwrite(target, value) => if target@ == name {
            seq![value@]
        } else {
            values
        },
        TrustedHeaderMutation::Add(target, value) => if target@ == name && is_safe_value(value@) {
            values.push(utf8(value@))
        } else {
            values
        },
    }
}

/// The values of the header `name` after mutations in order.
pub open spec fn mutated_all(
    values: Seq<Seq<u8>>,
    name: Seq<char>,
    mutations: Seq<TrustedHeaderMutation>,
) -> Seq<Seq<u8>>
    decreases mutations.len(),
{
    if mutations.len() == 0 {
        values
    } else {
        mutated(mutated_all(values, name, mutations.drop_last()), name, mutations.last())
    }
}

/// The last value that the header `name` is to be set to.
pub open spec fn last_set(sets: Seq<(String, Vec<u8>)>, name: Seq<char>) -> Option<Seq<u8>>
    decreases sets.len(),
{
    if sets.len() == 0 {
        None
    } else if sets.last().0@ == name {
        Some(sets.last().1@)
    } else {
        last_set(sets.drop_last(), name)
    }
}

/// The values of the header `name` after the queued additions.
pub open spec fn with_extras(
    values: Seq<Seq<u8>>,
    name: Seq<char>,
    extras: Seq<(String, String)>,
) -> Seq<Seq<u8>>
    decreases extras.len(),
{
    if extras.len() == 0 {
        values
    } else {
        let front = with_extras(values, name, extras.drop_last());
        if ascii_lower(extras.last().0@) == ascii_lower(name) && is_safe_value(extras.last().1@) {
            front.push(utf8(extras.last().1@))
        } else {
            front
        }
    }
}

/// Whether the header `name` is queued for removal.
pub open spec fn to_be_removed(names: Seq<String>, name: Seq<char>) -> bool {
    exists|i: int| 0 <= i < names.len() && (#[trigger] names[i])@ == name
}

/// The values of the header `name` after the grouped queues: removal, then the
/// last setting, then the additions.
pub open spec fn grouped(values: Seq<Seq<u8>>, name: Seq<char>, request: OwnerRequest) -> Seq<
    Seq<u8>,
> {
    let kept = if to_be_removed(request.request_headers_to_remove@, name) {
        Seq::empty()
    } else {
        values
    };
    let set = match last_set(request.request_headers_to_set@, name) {
        Some(value) => seq![value],
        None => kept,
    };
    with_extras(set, name, request.extra_request_headers@)
}

/// The values of the header `name` that hold once the trusted mutations of the
/// body phase are taken in.
pub open spec fn effective_values(request: OwnerRequest, name: Seq<char>, body_phase: bool) -> Seq<
    Seq<u8>,
> {
    let given = named_values(request.headers@, name);
    if !body_phase {
        given
    } else {
        let prior = mutated_all(given, name, request.prior_pre_read_mutations@);
        if request.pre_read_mutations@.len() == 0 {
            grouped(prior, name, request)
        } else {
            mutated_all(prior, name, request.pre_read_mutations@)
        }
    }
}

/// The bytes of each value.
pub open spec fn values_view(values: Seq<Vec<u8>>) -> Seq<Seq<u8>> {
    Seq::new(values.len(), |i: int| values[i]@)
}

/// A copy of `bytes`.
fn copy_bytes(bytes: &Vec<u8>) -> (copy: Vec<u8>)
    ensures
        copy@ == bytes@,
{
    let mut copy: Vec<u8> = Vec::new();
    copy.extend_from_slice(bytes.as_slice());
    assert(copy@ =~= bytes@);
    copy
}

/// Applies one ordered trusted mutation to the selected owner-header values.
fn apply_owner_header_mutation(
    values: &mut Vec<Vec<u8>>,
    header: &str,
    mutation: &TrustedHeaderMutation,
)
    ensures
        values_view(final(values)@) == mutated(values_view(old(values)@), header@, *mutation),
{
    match mutation {
        TrustedHeaderMutation::Remove(name) => {
            if same_text(name.as_str(), header) {
                values.clear();
                assert(values_view(values@) =~= Seq::empty());
            }
        },
        TrustedHeaderMutation::Overwrite(name, value) => {
            if same_text(name.as_str(), header) {
                values.clear();
                values.push(copy_bytes(value));
                assert(values_view(values@) =~= seq![value@]);
            }
        },
        TrustedHeaderMutation::Add(name, value) => {
            if same_text(name.as_str(), header) {
                if let Some(bytes) = parse_header_value(value.as_str()) {
                    values.push(bytes);
                    assert(values_view(values@) =~= values_view(old(values)@).push(utf8(value@)));
                }
            }
        },
    }
}

/// Applies ordered trusted mutations to the selected owner-header values.
fn apply_owner_header_mutations(
    values: &mut Vec<Vec<u8>>,
    header: &str,
    mutations: &Vec<TrustedHeaderMutation>,
)
    ensures
        values_view(final(values)@) == mutated_all(
            values_view(old(values)@),
            header@,
            mutations@,
        ),
{
    let mut i: usize = 0;
    assert(mutations@.take(0).len() == 0);
    while i < mutations.len()
        invariant
            i <= mutations.len(),
            values_view(values@) == mutated_all(
                values_view(old(values)@),
                header@,
                mutations@.take(i as int),
            ),
        decreases mutations.len() - i,
    {
        assert(mutations@.take(i + 1).drop_last() =~= mutations@.take(i as int));
        apply_owner_header_mutation(values, header, &mutations[i]);
        i = i + 1;
    }
    assert(mutations@.take(i as int) =~= mutations@);
}

/// Applies the grouped queues in remove-set-add order.
fn apply_grouped_owner_header_mutations(
    request: &OwnerRequest,
    header: &str,
    values: &mut Vec<Vec<u8>>,
)
    ensures
        values_view(final(values)@) == grouped(values_view(old(values)@), header@, *request),
{
    let ghost given = values_view(values@);
    let mut removed = false;
    let mut i: usize = 0;
    while i < request.request_headers_to_remove.len()
        invariant
            i <= request.request_headers_to_remove.len(),
            removed == exists|j: int|
                0 <= j < i && (#[trigger] request.request_headers_to_remove@[j])@ == header@,
        decreases request.request_headers_to_remove.len() - i,
    {
        if same_text(request.request_headers_to_remove[i].as_str(), header) {
            removed = true;
        }
        i = i + 1;
    }
    if removed {
        values.clear();
        assert(values_view(values@) =~= Seq::empty());
    }
    let ghost kept = values_view(values@);
    let mut k: usize = request.request_headers_to_set.len();
    let mut found = false;
    assert(request.request_headers_to_set@.take(k as int) =~= request.request_headers_to_set@);
    while k > 0 && !found
        invariant
            k <= request.request_headers_to_set.len(),
            !found ==> values_view(values@) == kept && last_set(
                request.request_headers_to_set@.take(k as int),
                header@,
            ) == last_set(request.request_headers_to_set@, header@),
            found ==> last_set(request.request_headers_to_set@, header@) is Some && values_view(
                values@,
            ) == seq![last_set(request.request_headers_to_set@, header@)->0],
        decreases k + if found { 0int } else { 1int },
    {
        let ghost part = request.request_headers_to_set@.take(k as int);
        assert(part.drop_last() =~= request.request_headers_to_set@.take(k - 1));
        k = k - 1;
        if same_text(request.request_headers_to_set[k].0.as_str(), header) {
            values.clear();
            values.push(copy_bytes(&request.request_headers_to_set[k].1));
            assert(values_view(values@) =~= seq![request.request_headers_to_set@[k as int].1@]);
            found = true;
        }
    }
    let ghost set = values_view(values@);
    let lower = to_lowercase_ascii(header);
    let mut m: usize = 0;
    assert(request.extra_request_headers@.take(0).len() == 0);
    while m < request.extra_request_headers.len()
        invariant
            lower@ == ascii_lower(header@),
            m <= request.extra_request_headers.len(),
            values_view(values@) == with_extras(
                set,
                header@,
                request.extra_request_headers@.take(m as int),
            ),
        decreases request.extra_request_headers.len() - m,
    {
        let ghost part = request.extra_request_headers@.take(m + 1);
        assert(part.drop_last() =~= request.extra_request_headers@.take(m as int));
        let ghost before = values_view(values@);
        let extra = &request.extra_request_headers[m];
        if same_text(to_lowercase_ascii(extra.0.as_str()).as_str(), lower.as_str()) {
            if let Some(bytes) = parse_header_value(extra.1.as_str()) {
                values.push(bytes);
                assert(values_view(values@) =~= before.push(utf8(extra.1@)));
            }
        }
        m = m + 1;
    }
    assert(request.extra_request_headers@.take(m as int) =~= request.extra_request_headers@);
}

/// Resolves one configured owner header through earlier trusted body mutations.
///
/// During the normal request phase the pre-read mutations are already part of
/// the request headers, so replay is limited to body pre-read callbacks.
pub fn effective_owner_header_values(
    request: &OwnerRequest,
    header: &str,
    body_phase: bool,
) -> (values: Vec<Vec<u8>>)
    ensures
        values_view(values@) == effective_values(*request, header@, body_phase),
{
    let mut values: Vec<Vec<u8>> = Vec::new();
    let mut i: usize = 0;
    assert(values_view(values@) =~= named_values(request.headers@.take(0), header@));
    while i < request.headers.len()
        invariant
            i <= request.headers.len(),
            values_view(values@) == named_values(request.headers@.take(i as int), header@),
        decreases request.headers.len() - i,
    {
        assert(request.headers@.take(i + 1).drop_last() =~= request.headers@.take(i as int));
        let ghost before = values_view(values@);
        if same_text(request.headers[i].0.as_str(), header) {
            values.push(copy_bytes(&request.headers[i].1));
            assert(values_view(values@) =~= before.push(request.headers@[i as int].1@));
        }
        i = i + 1;
    }
    assert(request.headers@.take(i as int) =~= request.headers@);
    if !body_phase {
        return values;
    }
    apply_owner_header_mutations(&mut values, header, &request.prior_pre_read_mutations);
    if request.pre_read_mutations.len() == 0 {
        apply_grouped_owner_header_mutations(request, header, &mut values);
    } else {
        apply_owner_header_mutations(&mut values, header, &request.pre_read_mutations);
    }
    values
}

/// One configured source for an owner component.
pub enum OwnerComponentConfig {
    /// Read the component from an exact trusted header name.
    Header(String),
    /// Use the same configured value for every request.
    Fixed(String),
}

/// Configuration for [`StateOwnerFilter`].
pub enum StateOwnerConfig {
    /// Explicit compatibility mode sharing one owner within a tenant namespace.
    SingleTenant {
        /// Stable namespace assigned to every request in this pipeline.
        tenant_id: String,
    },
    /// Strict owner isolation sourced from a trusted assertion header.
    TrustedOwner {
        /// Exact header name carrying the versioned assertion.
        header: String,
    },
    /// Owner identity assembled from independently configured trusted sources.
    TrustedHeaders {
        /// Source of the stable tenant namespace.
        tenant: OwnerComponentConfig,
        /// Source of the stable identity-provider or trust-domain identifier.
        issuer: OwnerComponentConfig,
        /// Source of the stable subject identifier within the issuer.
        subject: OwnerComponentConfig,
    },
    /// Reserved for policy-backed authorization.
    Policy {
        /// Exact header name that will carry the current caller assertion.
        header: String,
    },
}

/// Validated runtime source for one owner component.
pub enum OwnerComponentSource {
    /// Read the value from a trusted request header.
    Header(String),
    /// Reuse a configured stable value.
    Fixed(String),
}

/// The model of an [`OwnerComponentSource`].
pub enum ComponentSourceView {
    /// Read the value from a trusted request header.
    Header(Seq<char>),
    /// Reuse a configured stable value.
    Fixed(Seq<char>),
}

impl View for OwnerComponentSource {
    type V = ComponentSourceView;

    open spec fn view(&self) -> ComponentSourceView {
        match *self {
            OwnerComponentSource::Header(name) => ComponentSourceView::Header(name@),
            OwnerComponentSource::Fixed(value) => ComponentSourceView::Fixed(value@),
        }
    }
}

/// Configured source of the normalized owner context.
pub enum OwnerSource {
    /// One shared owner for an explicitly configured tenant namespace.
    Shared(StateOwner),
    /// Versioned assertion from a trusted upstream boundary.
    TrustedHeader(String),
    /// Owner assembled from independently configured trusted component sources.
    TrustedComponents {
        /// Stable tenant namespace source.
        tenant: OwnerComponentSource,
        /// Stable issuer source.
        issuer: OwnerComponentSource,
        /// Stable subject source.
        subject: OwnerComponentSource,
    },
}

/// The model of an [`OwnerSource`].
pub enum SourceView {
    /// One shared owner for an explicitly configured tenant namespace.
    Shared(OwnerView),
    /// Versioned assertion from a trusted upstream boundary.
    TrustedHeader(Seq<char>),
    /// Owner assembled from independently configured trusted component sources.
    TrustedComponents {
        /// Stable tenant namespace source.
        tenant: ComponentSourceView,
        /// Stable issuer source.
        issuer: ComponentSourceView,
        /// Stable subject source.
        subject: ComponentSourceView,
    },
}

impl View for OwnerSource {
    type V = SourceView;

    open spec fn view(&self) -> SourceView {
        match *self {
            OwnerSource::Shared(owner) => SourceView::Shared(owner@),
            OwnerSource::TrustedHeader(name) => SourceView::TrustedHeader(name@),
            OwnerSource::TrustedComponents { tenant, issuer, subject } =>
                SourceView::TrustedComponents {
                    tenant: tenant@,
                    issuer: issuer@,
                    subject: subject@,
                },
        }
    }
}

/// The lowercase header name that a configuration field holds, or what is wrong
/// with it.
pub open spec fn configured_header(field: Seq<char>, name: Seq<char>) -> Result<Seq<char>, Seq<char>> {
    if name.len() == 0 {
        Err("state_owner: '"@ + field + "' must not be empty"@)
    } else if !is_header_name(name) {
        Err("state_owner: invalid '"@ + field + "': invalid HTTP header name"@)
    } else {
        Ok(ascii_lower(name))
    }
}

/// Parses a nonempty trusted header name.
fn parse_owner_header(field: &str, header: &str) -> (result: Result<String, String>)
    ensures
        match result {
            Ok(name) => configured_header(field@, header@) == Ok::<Seq<char>, Seq<char>>(name@),
            Err(message) => configured_header(field@, header@) == Err::<Seq<char>, Seq<char>>(
                message@,
            ),
        },
{
    if header.is_empty() {
        let mut message = "state_owner: '".to_owned();
        message.append(field);
        message.append("' must not be empty");
        return Err(message);
    }
    match parse_header_name(header) {
        Some(name) => Ok(name),
        None => {
            let mut message = "state_owner: invalid '".to_owned();
            message.append(field);
            message.append("': invalid HTTP header name");
            Err(message)
        },
    }
}

/// The source that a component's configuration gives, or what is wrong with it.
pub open spec fn configured_component(
    component: OwnerComponent,
    config: OwnerComponentConfig,
) -> Result<ComponentSourceView, Seq<char>> {
    match config {
        OwnerComponentConfig::Header(header) => match configured_header(
            component.label() + ".header"@,
            header@,
        ) {
            Ok(name) => Ok(ComponentSourceView::Header(name)),
            Err(message) => Err(message),
        },
        OwnerComponentConfig::Fixed(value) => if valid_component(value@) {
            Ok(ComponentSourceView::Fixed(value@))
        } else {
            Err("state_owner: "@ + OwnerAssertionError::InvalidComponent(component).message())
        },
    }
}

/// The header of a component source.
pub open spec fn source_header(source: ComponentSourceView) -> Option<Seq<char>> {
    match source {
        ComponentSourceView::Header(name) => Some(name),
        ComponentSourceView::Fixed(_) => None,
    }
}

/// Whether two component sources read one header.
pub open spec fn share_header(left: ComponentSourceView, right: ComponentSourceView) -> bool {
    source_header(left) is Some && source_header(left) == source_header(right)
}

impl OwnerComponentSource {
    /// Validates one configured component source.
    fn from_config(component: OwnerComponent, config: OwnerComponentConfig) -> (result: Result<
        Self,
        String,
    >)
        ensures
            match result {
                Ok(source) => configured_component(component, config) == Ok::<
                    ComponentSourceView,
                    Seq<char>,
                >(source@),
                Err(message) => configured_component(component, config) == Err::<
                    ComponentSourceView,
                    Seq<char>,
                >(message@),
            },
    {
        match config {
            OwnerComponentConfig::Header(header) => {
                let mut field = component.as_str().to_owned();
                field.append(".header");
                match parse_owner_header(field.as_str(), header.as_str()) {
                    Ok(name) => Ok(OwnerComponentSource::Header(name)),
                    Err(message) => Err(message),
                }
            },
            OwnerComponentConfig::Fixed(value) => match validate_component(
                component,
                value.as_str(),
            ) {
                Ok(()) => Ok(OwnerComponentSource::Fixed(value)),
                Err(error) => {
                    let mut message = "state_owner: ".to_owned();
                    message.append(error.client_message());
                    Err(message)
                },
            },
        }
    }

    /// The configured header, when this component is header-backed.
    fn header(&self) -> (header: Option<&str>)
        ensures
            match header {
                Some(name) => source_header(self@) == Some(name@),
                None => source_header(self@) is None,
            },
    {
        match self {
            OwnerComponentSource::Header(header) => Some(header.as_str()),
            OwnerComponentSource::Fixed(_) => None,
        }
    }
}

/// Whether two component sources read one header.
fn same_component_header(left: &OwnerComponentSource, right: &OwnerComponentSource) -> (same: bool)
    ensures
        same == share_header(left@, right@),
{
    match (left.header(), right.header()) {
        (Some(left), Some(right)) => same_text(left, right),
        _ => false,
    }
}

/// Rejects configurations that assign one header to multiple owner components.
fn ensure_distinct_component_headers(
    tenant: &OwnerComponentSource,
    issuer: &OwnerComponentSource,
    subject: &OwnerComponentSource,
) -> (result: Result<(), String>)
    ensures
        result is Err == (share_header(tenant@, issuer@) || share_header(tenant@, subject@)
            || share_header(issuer@, subject@)),
        result is Err ==> result->Err_0@
            == "state_owner: trusted_headers component headers must be distinct"@,
{
    if same_component_header(tenant, issuer) || same_component_header(tenant, subject)
        || same_component_header(issuer, subject) {
        return Err("state_owner: trusted_headers component headers must be distinct".to_owned());
    }
    Ok(())
}

/// The source that three component configurations give, or what is wrong with
/// the first that is wrong.
pub open spec fn configured_components(
    tenant: OwnerComponentConfig,
    issuer: OwnerComponentConfig,
    subject: OwnerComponentConfig,
) -> Result<SourceView, Seq<char>> {
    match configured_component(OwnerComponent::Tenant, tenant) {
        Err(message) => Err(message),
        Ok(tenant) => match configured_component(OwnerComponent::Issuer, issuer) {
            Err(message) => Err(message),
            Ok(issuer) => match configured_component(OwnerComponent::Subject, subject) {
                Err(message) => Err(message),
                Ok(subject) => if share_header(tenant, issuer) || share_header(tenant, subject)
                    || share_header(issuer, subject) {
                    Err("state_owner: trusted_headers component headers must be distinct"@)
                } else {
                    Ok(SourceView::TrustedComponents { tenant, issuer, subject })
                },
            },
        },
    }
}

/// The owner source that a configuration gives, or what is wrong with it. The
/// reserved policy mode is always refused.
pub open spec fn configured_source(config: StateOwnerConfig) -> Result<SourceView, Seq<char>> {
    match config {
        StateOwnerConfig::SingleTenant { tenant_id } => match owner_of_parts(
            tenant_id@,
            "urn:praxis:single-tenant"@,
            "shared"@,
        ) {
            Ok(owner) => Ok(SourceView::Shared(owner)),
            Err(error) => Err("state_owner: "@ + error.message()),
        },
        StateOwnerConfig::TrustedOwner { header } => match configured_header("header"@, header@) {
            Ok(name) => Ok(SourceView::TrustedHeader(name)),
            Err(message) => Err(message),
        },
        StateOwnerConfig::TrustedHeaders { tenant, issuer, subject } => configured_components(
            tenant,
            issuer,
            subject,
        ),
        StateOwnerConfig::Policy { header } => match configured_header("header"@, header@) {
            Ok(_) => Err("state_owner: 'policy' mode requires the PPE integration"@),
            Err(message) => Err(message),
        },
    }
}

/// Builds the explicit shared owner used by single-tenant deployments.
fn single_tenant_source(tenant_id: String) -> (result: Result<OwnerSource, String>)
    ensures
        match result {
            Ok(source) => configured_source(StateOwnerConfig::SingleTenant { tenant_id }) == Ok::<
                SourceView,
                Seq<char>,
            >(source@),
            Err(message) => configured_source(StateOwnerConfig::SingleTenant { tenant_id })
                == Err::<SourceView, Seq<char>>(message@),
        },
{
    match StateOwner::from_trusted_parts(
        tenant_id,
        "urn:praxis:single-tenant".to_owned(),
        "shared".to_owned(),
    ) {
        Ok(owner) => Ok(OwnerSource::Shared(owner)),
        Err(error) => {
            let mut message = "state_owner: ".to_owned();
            message.append(error.client_message());
            Err(message)
        },
    }
}

/// Validates and builds independently mapped owner component sources.
fn trusted_components_source(
    tenant: OwnerComponentConfig,
    issuer: OwnerComponentConfig,
    subject: OwnerComponentConfig,
) -> (result: Result<OwnerSource, String>)
    ensures
        match result {
            Ok(source) => configured_components(tenant, issuer, subject) == Ok::<
                SourceView,
                Seq<char>,
            >(source@),
            Err(message) => configured_components(tenant, issuer, subject) == Err::<
                SourceView,
                Seq<char>,
            >(message@),
        },
{
    let tenant = match OwnerComponentSource::from_config(OwnerComponent::Tenant, tenant) {
        Ok(source) => source,
        Err(message) => return Err(message),
    };
    let issuer = match OwnerComponentSource::from_config(OwnerComponent::Issuer, issuer) {
        Ok(source) => source,
        Err(message) => return Err(message),
    };
    let subject = match OwnerComponentSource::from_config(OwnerComponent::Subject, subject) {
        Ok(source) => source,
        Err(message) => return Err(message),
    };
    match ensure_distinct_component_headers(&tenant, &issuer, &subject) {
        Ok(()) => Ok(OwnerSource::TrustedComponents { tenant, issuer, subject }),
        Err(message) => Err(message),
    }
}

/// The headers that component sources read, in order.
pub open spec fn headers_read(sources: Seq<ComponentSourceView>) -> Seq<Seq<char>>
    decreases sources.len(),
{
    if sources.len() == 0 {
        Seq::empty()
    } else {
        let front = headers_read(sources.drop_last());
        match source_header(sources.last()) {
            Some(name) => front.push(name),
            None => front,
        }
    }
}

/// The headers that an owner source consumes.
pub open spec fn consumed_headers(source: SourceView) -> Seq<Seq<char>> {
    match source {
        SourceView::Shared(_) => Seq::empty(),
        SourceView::TrustedHeader(name) => seq![name],
        SourceView::TrustedComponents { tenant, issuer, subject } => headers_read(
            seq![tenant, issuer, subject],
        ),
    }
}

/// The texts of names.
pub open spec fn names_view(names: Seq<String>) -> Seq<Seq<char>> {
    Seq::new(names.len(), |i: int| names[i]@)
}

/// Captures the bounded set of ingress headers consumed by one owner source.
fn ingress_headers(source: &OwnerSource) -> (names: Vec<String>)
    ensures
        names_view(names@) == consumed_headers(source@),
{
    let mut names: Vec<String> = Vec::new();
    match source {
        OwnerSource::Shared(_) => {},
        OwnerSource::TrustedHeader(header) => {
            names.push(header.clone());
        },
        OwnerSource::TrustedComponents { tenant, issuer, subject } => {
            let ghost sources = seq![tenant@, issuer@, subject@];
            if let Some(name) = tenant.header() {
                names.push(name.to_owned());
            }
            if let Some(name) = issuer.header() {
                names.push(name.to_owned());
            }
            if let Some(name) = subject.header() {
                names.push(name.to_owned());
            }
            proof {
                reveal_with_fuel(headers_read, 4);
                assert(sources.drop_last() =~= seq![tenant@, issuer@]);
                assert(sources.drop_last().drop_last() =~= seq![tenant@]);
                assert(sources.drop_last().drop_last().drop_last() =~= Seq::empty());
            }
        },
    }
    assert(names_view(names@) =~= consumed_headers(source@));
    names
}

/// The owner that a versioned assertion header gives, or the answer to a request
/// without exactly one valid assertion.
pub open spec fn asserted_owner(values: Seq<Seq<u8>>) -> Result<OwnerView, RejectionView> {
    if values.len() == 0 {
        Err(
            owner_rejection(
                401,
                "missing_state_owner"@,
                "trusted state owner assertion is required"@,
            ),
        )
    } else if values.len() > 1 {
        Err(
            owner_rejection(
                400,
                "invalid_state_owner"@,
                "trusted state owner assertion must appear exactly once"@,
            ),
        )
    } else if values[0].len() > MAX_ASSERTION_BYTES {
        Err(
            owner_rejection(
                400,
                "invalid_state_owner"@,
                "trusted state owner assertion is too large"@,
            ),
        )
    } else if !is_visible(values[0]) {
        Err(
            owner_rejection(
                400,
                "invalid_state_owner"@,
                "trusted state owner assertion must be text"@,
            ),
        )
    } else {
        match owner_of_assertion(visible_text(values[0])) {
            Ok(owner) => Ok(owner),
            Err(error) => Err(owner_rejection(400, "invalid_state_owner"@, error.message())),
        }
    }
}

/// The value that one component source gives, or the answer to a request without
/// exactly one valid value.
pub open spec fn component_value(
    component: OwnerComponent,
    source: ComponentSourceView,
    request: OwnerRequest,
    body_phase: bool,
) -> Result<Seq<char>, RejectionView> {
    match source {
        ComponentSourceView::Fixed(value) => Ok(value),
        ComponentSourceView::Header(name) => {
            let values = effective_values(request, name, body_phase);
            let subject = "trusted state owner "@ + component.label();
            if values.len() == 0 {
                Err(
                    owner_rejection(
                        401,
                        "missing_state_owner"@,
                        subject + " header is required"@,
                    ),
                )
            } else if values.len() > 1 {
                Err(
                    owner_rejection(
                        400,
                        "invalid_state_owner"@,
                        subject + " header must appear exactly once"@,
                    ),
                )
            } else if !is_visible(values[0]) {
                Err(
                    owner_rejection(
                        400,
                        "invalid_state_owner"@,
                        subject + " header must be text"@,
                    ),
                )
            } else if !valid_component(visible_text(values[0])) {
                Err(
                    owner_rejection(
                        400,
                        "invalid_state_owner"@,
                        OwnerAssertionError::InvalidComponent(component).message(),
                    ),
                )
            } else {
                Ok(visible_text(values[0]))
            }
        },
    }
}

/// The owner that a source gives for a request, or the answer to the request.
pub open spec fn resolved_owner(
    source: SourceView,
    request: OwnerRequest,
    body_phase: bool,
) -> Result<OwnerView, RejectionView> {
    match source {
        SourceView::Shared(owner) => Ok(owner),
        SourceView::TrustedHeader(name) => asserted_owner(
            effective_values(request, name, body_phase),
        ),
        SourceView::TrustedComponents { tenant, issuer, subject } => match component_value(
            OwnerComponent::Tenant,
            tenant,
            request,
            body_phase,
        ) {
            Err(rejection) => Err(rejection),
            Ok(tenant_id) => match component_value(
                OwnerComponent::Issuer,
                issuer,
                request,
                body_phase,
            ) {
                Err(rejection) => Err(rejection),
                Ok(issuer) => match component_value(
                    OwnerComponent::Subject,
                    subject,
                    request,
                    body_phase,
                ) {
                    Err(rejection) => Err(rejection),
                    Ok(subject) => match owner_of_parts(tenant_id, issuer, subject) {
                        Ok(owner) => Ok(owner),
                        Err(error) => Err(
                            owner_rejection(400, "invalid_state_owner"@, error.message()),
                        ),
                    },
                },
            },
        },
    }
}

/// Whether `result` is the outcome `expected`.
pub open spec fn resolution_is(
    result: Result<StateOwner, Rejection>,
    expected: Result<OwnerView, RejectionView>,
) -> bool {
    match result {
        Ok(owner) => expected == Ok::<OwnerView, RejectionView>(owner@),
        Err(rejection) => expected == Err::<OwnerView, RejectionView>(rejection@),
    }
}

/// Reads the owner from the values of the configured assertion header.
pub fn resolve_assertion(values: &Vec<Vec<u8>>) -> (result: Result<StateOwner, Rejection>)
    ensures
        resolution_is(result, asserted_owner(values_view(values@))),
{
    if values.len() == 0 {
        return Err(
            reject_owner(
                401,
                "missing_state_owner",
                "trusted state owner assertion is required",
            ),
        );
    }
    if values.len() > 1 {
        return Err(
            reject_owner(
                400,
                "invalid_state_owner",
                "trusted state owner assertion must appear exactly once",
            ),
        );
    }
    assert(values_view(values@)[0] == values@[0]@);
    if values[0].len() > MAX_ASSERTION_BYTES {
        return Err(
            reject_owner(
                400,
                "invalid_state_owner",
                "trusted state owner assertion is too large",
            ),
        );
    }
    let text = match header_value_text(values[0].as_slice()) {
        Some(text) => text,
        None => {
            return Err(
                reject_owner(
                    400,
                    "invalid_state_owner",
                    "trusted state owner assertion must be text",
                ),
            );
        },
    };
    match decode_assertion(text.as_str()) {
        Ok(owner) => Ok(owner),
        Err(error) => Err(reject_owner(400, "invalid_state_owner", error.client_message())),
    }
}

/// The text `trusted state owner`, the component's name, and `rest`.
fn component_message(component: OwnerComponent, rest: &str) -> (message: String)
    ensures
        message@ == "trusted state owner "@ + component.label() + rest@,
{
    let mut message = "trusted state owner ".to_owned();
    message.append(component.as_str());
    message.append(rest);
    message
}

/// Resolves and validates one mapped owner component.
fn resolve_owner_component(
    request: &OwnerRequest,
    component: OwnerComponent,
    source: &OwnerComponentSource,
    body_phase: bool,
) -> (result: Result<String, Rejection>)
    ensures
        match result {
            Ok(value) => component_value(component, source@, *request, body_phase) == Ok::<
                Seq<char>,
                RejectionView,
            >(value@),
            Err(rejection) => component_value(component, source@, *request, body_phase) == Err::<
                Seq<char>,
                RejectionView,
            >(rejection@),
        },
{
    let header = match source {
        OwnerComponentSource::Header(header) => header,
        OwnerComponentSource::Fixed(value) => return Ok(value.clone()),
    };
    let values = effective_owner_header_values(request, header.as_str(), body_phase);
    if values.len() == 0 {
        let message = component_message(component, " header is required");
        return Err(reject_owner(401, "missing_state_owner", message.as_str()));
    }
    if values.len() > 1 {
        let message = component_message(component, " header must appear exactly once");
        return Err(reject_owner(400, "invalid_state_owner", message.as_str()));
    }
    assert(values_view(values@)[0] == values@[0]@);
    let value = match header_value_text(values[0].as_slice()) {
        Some(value) => value,
        None => {
            let message = component_message(component, " header must be text");
            return Err(reject_owner(400, "invalid_state_owner", message.as_str()));
        },
    };
    match validate_component(component, value.as_str()) {
        Ok(()) => Ok(value),
        Err(error) => Err(reject_owner(400, "invalid_state_owner", error.client_message())),
    }
}

/// Assembles one normalized owner from independently configured sources.
fn resolve_trusted_components(
    request: &OwnerRequest,
    tenant: &OwnerComponentSource,
    issuer: &OwnerComponentSource,
    subject: &OwnerComponentSource,
    body_phase: bool,
) -> (result: Result<StateOwner, Rejection>)
    ensures
        resolution_is(
            result,
            resolved_owner(
                (SourceView::TrustedComponents {
                    tenant: tenant@,
                    issuer: issuer@,
                    subject: subject@,
                }),
                *request,
                body_phase,
            ),
        ),
{
    let tenant_id = match resolve_owner_component(
        request,
        OwnerComponent::Tenant,
        tenant,
        body_phase,
    ) {
        Ok(value) => value,
        Err(rejection) => return Err(rejection),
    };
    let issuer_id = match resolve_owner_component(
        request,
        OwnerComponent::Issuer,
        issuer,
        body_phase,
    ) {
        Ok(value) => value,
        Err(rejection) => return Err(rejection),
    };
    let subject_id = match resolve_owner_component(
        request,
        OwnerComponent::Subject,
        subject,
        body_phase,
    ) {
        Ok(value) => value,
        Err(rejection) => return Err(rejection),
    };
    match StateOwner::from_trusted_parts(tenant_id, issuer_id, subject_id) {
        Ok(owner) => Ok(owner),
        Err(error) => Err(reject_owner(400, "invalid_state_owner", error.client_message())),
    }
}

/// Establishes a normalized [`StateOwner`] from trusted identity sources.
///
/// Every configured header must be governed by a trusted upstream boundary.
/// This filter validates and strips consumed headers; it does not authenticate
/// their producer. In trusted-headers mode the component headers are distinct.
pub struct StateOwnerFilter {
    /// Validated source used to populate the request context.
    source: OwnerSource,
    /// Header names consumed by the configured source.
    ingress_headers: Vec<String>,
}

/// The header removals that the mutation log gains.
pub open spec fn removals_appended(
    before: Seq<TrustedHeaderMutation>,
    after: Seq<TrustedHeaderMutation>,
    names: Seq<Seq<char>>,
) -> bool {
    &&& after.len() == before.len() + names.len()
    &&& forall|i: int| 0 <= i < before.len() ==> #[trigger] after[i] == before[i]
    &&& forall|i: int|
        before.len() <= i < after.len() ==> match #[trigger] after[i] {
            TrustedHeaderMutation::Remove(name) => name@ == names[i - before.len()],
            _ => false,
        }
}

/// Whether the removal of `names` was queued: in the grouped queue always, and in
/// the ordered log where the body phase has begun one.
pub open spec fn removal_queued(
    before: OwnerRequest,
    after: OwnerRequest,
    names: Seq<Seq<char>>,
    body_phase: bool,
) -> bool {
    &&& names_view(after.request_headers_to_remove@) == names_view(
        before.request_headers_to_remove@,
    ) + names
    &&& if body_phase && before.pre_read_mutations@.len() > 0 {
        removals_appended(before.pre_read_mutations@, after.pre_read_mutations@, names)
    } else {
        after.pre_read_mutations == before.pre_read_mutations
    }
    &&& after.headers == before.headers
    &&& after.prior_pre_read_mutations == before.prior_pre_read_mutations
    &&& after.request_headers_to_set == before.request_headers_to_set
    &&& after.extra_request_headers == before.extra_request_headers
}

/// What a phase does: the request afterwards, and the action, which is `passed`
/// where the request goes on.
///
/// An owner that is already there stays, with everything beside it. Otherwise the
/// source's owner is installed together with the names of the headers that it was
/// read from. In both cases the removal of those headers is queued. A request
/// without a valid owner is rejected and left as it was.
pub open spec fn owner_settled(
    source: SourceView,
    before: OwnerRequest,
    after: OwnerRequest,
    body_phase: bool,
    action: ActionView,
    passed: ActionView,
) -> bool {
    match owner_view(before.extensions.state_owner) {
        Some(_) => {
            &&& action == passed
            &&& removal_queued(before, after, consumed_headers(source), body_phase)
            &&& after.extensions == before.extensions
        },
        None => match resolved_owner(source, before, body_phase) {
            Ok(owner) => {
                &&& action == passed
                &&& removal_queued(before, after, consumed_headers(source), body_phase)
                &&& owner_view(after.extensions.state_owner) == Some(owner)
                &&& after.extensions.state_owner_ingress_headers is Some
                &&& names_view(after.extensions.state_owner_ingress_headers->0@)
                    == consumed_headers(source)
            },
            Err(rejection) => {
                &&& action == ActionView::Reject(rejection)
                &&& after == before
            },
        },
    }
}

/// A copy of `names`.
fn copy_names(names: &Vec<String>) -> (copy: Vec<String>)
    ensures
        names_view(copy@) == names_view(names@),
{
    let mut copy: Vec<String> = Vec::new();
    let mut i: usize = 0;
    while i < names.len()
        invariant
            i <= names.len(),
            copy.len() == i,
            forall|j: int| 0 <= j < i ==> (#[trigger] copy@[j])@ == names@[j]@,
        decreases names.len() - i,
    {
        copy.push(names[i].clone());
        i = i + 1;
    }
    assert(names_view(copy@) =~= names_view(names@));
    copy
}

impl StateOwnerFilter {
    /// The headers consumed are those of the source.
    #[verifier::type_invariant]
    spec fn inv(self) -> bool {
        names_view(self.ingress_headers@) == consumed_headers(self.source@)
    }

    /// The configured owner source.
    pub closed spec fn source(self) -> SourceView {
        self.source@
    }

    /// Validates filter configuration.
    ///
    /// The reserved policy mode is refused, so selecting it can never silently
    /// degrade to owner-only authorization.
    pub fn from_config(config: StateOwnerConfig) -> (result: Result<Self, String>)
        ensures
            match result {
                Ok(filter) => configured_source(config) == Ok::<SourceView, Seq<char>>(
                    filter.source(),
                ),
                Err(message) => configured_source(config) == Err::<SourceView, Seq<char>>(
                    message@,
                ),
            },
    {
        let source = match config {
            StateOwnerConfig::SingleTenant { tenant_id } => match single_tenant_source(tenant_id) {
                Ok(source) => source,
                Err(message) => return Err(message),
            },
            StateOwnerConfig::TrustedOwner { header } => match parse_owner_header(
                "header",
                header.as_str(),
            ) {
                Ok(name) => OwnerSource::TrustedHeader(name),
                Err(message) => return Err(message),
            },
            StateOwnerConfig::TrustedHeaders { tenant, issuer, subject } => {
                match trusted_components_source(tenant, issuer, subject) {
                    Ok(source) => source,
                    Err(message) => return Err(message),
                }
            },
            StateOwnerConfig::Policy { header } => {
                match parse_owner_header("header", header.as_str()) {
                    Ok(_) => return Err(
                        "state_owner: 'policy' mode requires the PPE integration".to_owned(),
                    ),
                    Err(message) => return Err(message),
                }
            },
        };
        let names = ingress_headers(&source);
        Ok(StateOwnerFilter { source, ingress_headers: names })
    }

    /// The filter's name.
    pub fn name(&self) -> (name: &'static str)
        ensures
            name@ == "state_owner"@,
    {
        "state_owner"
    }

    /// The filter reads no byte of the body; by taking part it runs before the
    /// filters that hold the body back.
    pub fn request_body_access(&self) -> (access: BodyAccess)
        ensures
            access == BodyAccess::ReadOnly,
    {
        BodyAccess::ReadOnly
    }

    /// Resolves and installs the owner, rejecting invalid or absent assertions.
    ///
    /// An owner that is already there stays. A rejected request is left as it
    /// was.
    pub fn resolve(&self, request: &mut OwnerRequest, body_phase: bool) -> (action: FilterAction)
        ensures
            owner_settled(
                self.source(),
                *old(request),
                *final(request),
                body_phase,
                action@,
                ActionView::Continue,
            ),
    {
        proof {
            use_type_invariant(self);
        }
        if request.extensions.state_owner.is_some() {
            self.queue_header_removal(request, body_phase);
            return FilterAction::Continue;
        }
        let owner = match &self.source {
            OwnerSource::Shared(owner) => owner.clone(),
            OwnerSource::TrustedHeader(header) => {
                let values = effective_owner_header_values(request, header.as_str(), body_phase);
                match resolve_assertion(&values) {
                    Ok(owner) => owner,
                    Err(rejection) => return FilterAction::Reject(rejection),
                }
            },
            OwnerSource::TrustedComponents { tenant, issuer, subject } => {
                match resolve_trusted_components(request, tenant, issuer, subject, body_phase) {
                    Ok(owner) => owner,
                    Err(rejection) => return FilterAction::Reject(rejection),
                }
            },
        };
        request.extensions.state_owner = Some(owner);
        request.extensions.state_owner_ingress_headers = Some(copy_names(&self.ingress_headers));
        self.queue_header_removal(request, body_phase);
        FilterAction::Continue
    }

    /// The request phase: the mutations of the body phase are part of the request.
    pub fn on_request(&self, request: &mut OwnerRequest) -> (action: FilterAction)
        ensures
            owner_settled(
                self.source(),
                *old(request),
                *final(request),
                false,
                action@,
                ActionView::Continue,
            ),
    {
        self.resolve(request, false)
    }

    /// The body phase: no body chunk is needed once the owner is there.
    pub fn on_request_body(&self, request: &mut OwnerRequest) -> (action: FilterAction)
        ensures
            owner_settled(
                self.source(),
                *old(request),
                *final(request),
                true,
                action@,
                ActionView::BodyDone,
            ),
    {
        match self.resolve(request, true) {
            FilterAction::Continue => FilterAction::BodyDone,
            action => action,
        }
    }

    /// Queues removal using the mutation channel appropriate for the lifecycle.
    fn queue_header_removal(&self, request: &mut OwnerRequest, body_phase: bool)
        ensures
            removal_queued(
                *old(request),
                *final(request),
                names_view(self.ingress_headers@),
                body_phase,
            ),
            final(request).extensions == old(request).extensions,
    {
        let ordered = body_phase && request.pre_read_mutations.len() > 0;
        let ghost before = *request;
        let ghost names = names_view(self.ingress_headers@);
        let mut i: usize = 0;
        assert(names.take(0) =~= Seq::empty());
        assert(names_view(before.request_headers_to_remove@) + names.take(0) =~= names_view(
            before.request_headers_to_remove@,
        ));
        while i < self.ingress_headers.len()
            invariant
                names == names_view(self.ingress_headers@),
                before == *old(request),
                ordered == (body_phase && before.pre_read_mutations@.len() > 0),
                i <= self.ingress_headers.len(),
                removal_queued(before, *request, names.take(i as int), body_phase),
                request.extensions == before.extensions,
            decreases self.ingress_headers.len() - i,
        {
            let ghost earlier = *request;
            let name = self.ingress_headers[i].clone();
            request.request_headers_to_remove.push(name);
            if ordered {
                let name = self.ingress_headers[i].clone();
                request.pre_read_mutations.push(TrustedHeaderMutation::Remove(name));
            }
            proof {
                assert(names_view(request.request_headers_to_remove@) =~= names_view(
                    earlier.request_headers_to_remove@,
                ).push(names[i as int]));
                assert(names.take(i + 1) =~= names.take(i as int).push(names[i as int]));
                assert(names_view(request.request_headers_to_remove@) =~= names_view(
                    before.request_headers_to_remove@,
                ) + names.take(i + 1));
                if ordered {
                    assert(removals_appended(
                        before.pre_read_mutations@,
                        earlier.pre_read_mutations@,
                        names.take(i as int),
                    ));
                    assert(removals_appended(
                        before.pre_read_mutations@,
                        request.pre_read_mutations@,
                        names.take(i + 1),
                    ));
                }
            }
            i = i + 1;
        }
        assert(names.take(i as int) =~= names);
    }
}

/// An owner that a source gives is always a valid identity, whatever the request
/// holds.
pub proof fn lemma_resolved_owner_is_valid(
    config: StateOwnerConfig,
    source: SourceView,
    request: OwnerRequest,
    body_phase: bool,
)
    requires
        configured_source(config) == Ok::<SourceView, Seq<char>>(source),
        resolved_owner(source, request, body_phase) is Ok,
    ensures
        valid_owner(resolved_owner(source, request, body_phase)->Ok_0),
{
}

/// An assertion names the owner of its payload: after its version, it encodes a JSON
/// list of exactly three texts, the tenant, the issuer and the subject, in this order.
/// Where it does, and each of them is valid, the owner is made of them.
pub proof fn lemma_assertion_names_owner(
    value: Seq<char>,
    bytes: Seq<u8>,
    items: Seq<JsonView>,
)
    ensures
        owner_of_assertion(value) is Ok ==> {
            let owner = owner_of_assertion(value)->Ok_0;
            &&& value.len() > 3
            &&& value.take(3) == "v1."@
            &&& base64url_decoded(value.skip(3)) is Some
            &&& parsed(base64url_decoded(value.skip(3))->0) == Ok::<JsonView, Seq<char>>(
                JsonView::Array(
                    seq![
                        JsonView::String(owner.tenant_id),
                        JsonView::String(owner.issuer),
                        JsonView::String(owner.subject),
                    ],
                ),
            )
            &&& valid_owner(owner)
        },
        value.len() > 3 && value.take(3) == "v1."@ && base64url_decoded(value.skip(3)) == Some(
            bytes,
        ) && parsed(bytes) == Ok::<JsonView, Seq<char>>(JsonView::Array(items)) && items.len() == 3
            && items[0] is String && items[1] is String && items[2] is String && valid_component(
            items[0]->String_0,
        ) && valid_component(items[1]->String_0) && valid_component(items[2]->String_0)
            ==> owner_of_assertion(value) == Ok::<OwnerView, OwnerAssertionError>(
            OwnerView {
                tenant_id: items[0]->String_0,
                issuer: items[1]->String_0,
                subject: items[2]->String_0,
            },
        ),
{
    reveal_strlit("v1.");
    assert("v1."@.len() == 3);
    if let Ok(owner) = owner_of_assertion(value) {
        let decoded = base64url_decoded(value.skip(3))->0;
        let list = parsed(decoded)->Ok_0->Array_0;
        assert(list =~= seq![
            JsonView::String(owner.tenant_id),
            JsonView::String(owner.issuer),
            JsonView::String(owner.subject),
        ]);
        assert(value.len() > 3);
    }
}

/// Whether an answer refuses a request for its owner: its status, and a JSON body
/// with the code and the message.
pub open spec fn tells_owner_error(
    rejection: RejectionView,
    status: u16,
    code: Seq<char>,
    message: Seq<char>,
) -> bool {
    &&& rejection.status == status
    &&& exists|value: JsonView|
        {
            &&& rejection.body == utf8(#[trigger] compact_text(value))
            &&& value.get("type"@) == Some(JsonView::String("error"@))
            &&& value.get("error"@) is Some
            &&& value.get("error"@)->0.get("code"@) == Some(JsonView::String(code))
            &&& value.get("error"@)->0.get("message"@) == Some(JsonView::String(message))
            &&& value.get("error"@)->0.get("type"@) == Some(
                JsonView::String(
                    if status == 401 {
                        "authentication_error"@
                    } else {
                        "invalid_request_error"@
                    },
                ),
            )
        }
}

/// An answer that refuses a request tells why.
pub proof fn lemma_owner_error_is_told(status: u16, code: Seq<char>, message: Seq<char>)
    ensures
        tells_owner_error(owner_rejection(status, code, message), status, code, message),
{
    reveal_strlit("type");
    reveal_strlit("code");
    reveal_strlit("message");
    reveal_strlit("error");
    assert("type"@.len() == 4 && "code"@.len() == 4 && "message"@.len() == 7);
    assert("error"@.len() == 5);
    assert("code"@[0] == 'c' && "type"@[0] == 't');
    let error = seq![
        ("type"@, JsonView::String(error_kind(status))),
        ("code"@, JsonView::String(code)),
        ("message"@, JsonView::String(message)),
    ];
    let body = seq![("type"@, JsonView::String("error"@)), ("error"@, JsonView::Object(error))];
    let value = JsonView::Object(body);
    lemma_position_is(body, "type"@, 0);
    lemma_position_is(body, "error"@, 1);
    lemma_position_is(error, "type"@, 0);
    lemma_position_is(error, "code"@, 1);
    lemma_position_is(error, "message"@, 2);
    assert(owner_rejection(status, code, message).body == utf8(compact_text(value)));
}

/// Whether a source gives a component: a fixed value, or the text of the only value
/// of its header.
pub open spec fn gives_component(
    source: ComponentSourceView,
    request: OwnerRequest,
    body_phase: bool,
    text: Seq<char>,
) -> bool {
    match source {
        ComponentSourceView::Fixed(value) => text == value,
        ComponentSourceView::Header(name) => {
            let values = effective_values(request, name, body_phase);
            &&& values.len() == 1
            &&& values[0].len() == text.len()
            &&& forall|i: int| 0 <= i < text.len() ==> values[0][i] == #[trigger] text[i] as int
            &&& forall|i: int|
                0 <= i < text.len() ==> (32 <= #[trigger] values[0][i] <= 126) || values[0][i] == 9
        },
    }
}

/// An owner that is assembled takes each part from its own source.
pub proof fn lemma_owner_is_assembled(
    tenant: ComponentSourceView,
    issuer: ComponentSourceView,
    subject: ComponentSourceView,
    request: OwnerRequest,
    body_phase: bool,
)
    ensures
        ({
            let source = SourceView::TrustedComponents { tenant, issuer, subject };
            match resolved_owner(source, request, body_phase) {
                Ok(owner) => {
                    &&& gives_component(tenant, request, body_phase, owner.tenant_id)
                    &&& gives_component(issuer, request, body_phase, owner.issuer)
                    &&& gives_component(subject, request, body_phase, owner.subject)
                    &&& valid_owner(owner)
                },
                Err(rejection) => rejection.status == 401 || rejection.status == 400,
            }
        }),
{
    let source = SourceView::TrustedComponents { tenant, issuer, subject };
    if let Ok(owner) = resolved_owner(source, request, body_phase) {
        lemma_component_is_given(OwnerComponent::Tenant, tenant, request, body_phase);
        lemma_component_is_given(OwnerComponent::Issuer, issuer, request, body_phase);
        lemma_component_is_given(OwnerComponent::Subject, subject, request, body_phase);
    }
}

/// A component that is read is the one that its source gives.
proof fn lemma_component_is_given(
    component: OwnerComponent,
    source: ComponentSourceView,
    request: OwnerRequest,
    body_phase: bool,
)
    requires
        component_value(component, source, request, body_phase) is Ok,
    ensures
        gives_component(
            source,
            request,
            body_phase,
            component_value(component, source, request, body_phase)->Ok_0,
        ),
{
    if let ComponentSourceView::Header(name) = source {
        let values = effective_values(request, name, body_phase);
        let text = component_value(component, source, request, body_phase)->Ok_0;
        assert forall|i: int| 0 <= i < text.len() implies values[0][i] == #[trigger] text[i] as int by {
            let byte = values[0][i];
            assert(text[i] == byte as char);
        }
    }
}

/// A request without the assertion is answered with status 401, one with more than one
/// or with one that is no text, too large or invalid with status 400; and an owner is
/// read only from the one assertion there is.
pub proof fn lemma_one_assertion_counts(values: Seq<Seq<u8>>)
    ensures
        match asserted_owner(values) {
            Ok(owner) => {
                &&& values.len() == 1
                &&& values[0].len() <= MAX_ASSERTION_BYTES
                &&& owner_of_assertion(visible_text(values[0])) == Ok::<
                    OwnerView,
                    OwnerAssertionError,
                >(owner)
            },
            Err(rejection) => {
                &&& values.len() == 0 ==> tells_owner_error(
                    rejection,
                    401,
                    "missing_state_owner"@,
                    "trusted state owner assertion is required"@,
                )
                &&& values.len() > 0 ==> rejection.status == 400
                &&& values.len() > 1 ==> tells_owner_error(
                    rejection,
                    400,
                    "invalid_state_owner"@,
                    "trusted state owner assertion must appear exactly once"@,
                )
            },
        },
{
    lemma_owner_error_is_told(
        401,
        "missing_state_owner"@,
        "trusted state owner assertion is required"@,
    );
    lemma_owner_error_is_told(
        400,
        "invalid_state_owner"@,
        "trusted state owner assertion must appear exactly once"@,
    );
}

/// How many of the first `n` headers have a name.
pub open spec fn named_before(headers: Seq<(String, Vec<u8>)>, name: Seq<char>, n: int) -> nat
    decreases n,
{
    if n <= 0 {
        0
    } else if headers[n - 1].0@ == name {
        named_before(headers, name, n - 1) + 1
    } else {
        named_before(headers, name, n - 1)
    }
}

/// The values of a header are those of all headers with its name, in order, and no
/// others.
pub proof fn lemma_header_values_in_order(headers: Seq<(String, Vec<u8>)>, name: Seq<char>)
    ensures
        named_values(headers, name).len() == named_before(headers, name, headers.len() as int),
        forall|i: int|
            0 <= i < headers.len() && (#[trigger] headers[i]).0@ == name ==> named_before(
                headers,
                name,
                i,
            ) < named_values(headers, name).len() && named_values(headers, name)[named_before(
                headers,
                name,
                i,
            ) as int] == headers[i].1@,
    decreases headers.len(),
{
    if headers.len() > 0 {
        let front = headers.drop_last();
        lemma_header_values_in_order(front, name);
        lemma_named_in_front(headers, name, front.len() as int);
        let all = named_values(headers, name);
        assert(headers.last() == headers[headers.len() - 1]);
        assert forall|i: int|
            0 <= i < headers.len() && (#[trigger] headers[i]).0@ == name implies named_before(
            headers,
            name,
            i,
        ) < all.len() && all[named_before(headers, name, i) as int] == headers[i].1@ by {
            if i < front.len() {
                assert(front[i] == headers[i]);
                lemma_named_in_front(headers, name, i);
            }
        }
    }
}

/// Counting in the front of headers is counting in them.
proof fn lemma_named_in_front(headers: Seq<(String, Vec<u8>)>, name: Seq<char>, n: int)
    requires
        0 <= n < headers.len(),
    ensures
        named_before(headers.drop_last(), name, n) == named_before(headers, name, n),
    decreases n,
{
    if n > 0 {
        lemma_named_in_front(headers, name, n - 1);
        assert(headers.drop_last()[n - 1] == headers[n - 1]);
    }
}

/// The last mutation of a header decides: one that removes it leaves no value, one
/// that overwrites it leaves that value alone, one that adds a value leaves it behind
/// the others; and mutations of other headers do not count.
pub proof fn lemma_last_mutation_decides(
    values: Seq<Seq<u8>>,
    name: Seq<char>,
    mutations: Seq<TrustedHeaderMutation>,
    mutation: TrustedHeaderMutation,
)
    ensures
        ({
            let before = mutated_all(values, name, mutations);
            let after = mutated_all(values, name, mutations.push(mutation));
            match mutation {
                TrustedHeaderMutation::Remove(target) => if target@ == name {
                    after.len() == 0
                } else {
                    after == before
                },
                TrustedHeaderMutation::Overwrite(target, value) => if target@ == name {
                    after.len() == 1 && after[0] == value@
                } else {
                    after == before
                },
                TrustedHeaderMutation::Add(target, value) => if target@ == name && is_safe_value(
                    value@,
                ) {
                    after.len() == before.len() + 1 && after.last() == utf8(value@) && after.take(
                        before.len() as int,
                    ) == before
                } else {
                    after == before
                },
            }
        }),
{
    let all = mutations.push(mutation);
    assert(all.drop_last() =~= mutations);
    assert(all.last() == mutation);
    let before = mutated_all(values, name, mutations);
    let after = mutated_all(values, name, all);
    if after.len() == before.len() + 1 {
        assert(after.take(before.len() as int) =~= before);
    }
}

/// The values that count: in the request phase those of the request's own headers;
/// in the body phase, where the queues are empty, those after the mutations of all
/// passes.
pub proof fn lemma_values_that_count(request: OwnerRequest, name: Seq<char>)
    ensures
        effective_values(request, name, false) == named_values(request.headers@, name),
        request.prior_pre_read_mutations@.len() == 0 && request.pre_read_mutations@.len() == 0
            && request.request_headers_to_remove@.len() == 0
            && request.request_headers_to_set@.len() == 0 && request.extra_request_headers@.len()
            == 0 ==> effective_values(request, name, true) == named_values(request.headers@, name),
        request.pre_read_mutations@.len() > 0 ==> effective_values(request, name, true)
            == mutated_all(
            named_values(request.headers@, name),
            name,
            request.prior_pre_read_mutations@ + request.pre_read_mutations@,
        ),
        request.pre_read_mutations@.len() == 0 && request.request_headers_to_set@.len() > 0
            && request.request_headers_to_set@.last().0@ == name
            && request.extra_request_headers@.len() == 0 ==> effective_values(request, name, true)
            == seq![request.request_headers_to_set@.last().1@],
{
    lemma_mutations_in_order(
        named_values(request.headers@, name),
        name,
        request.prior_pre_read_mutations@,
        request.pre_read_mutations@,
    );
}

/// Mutations of two passes are those of one, in order.
proof fn lemma_mutations_in_order(
    values: Seq<Seq<u8>>,
    name: Seq<char>,
    first: Seq<TrustedHeaderMutation>,
    second: Seq<TrustedHeaderMutation>,
)
    ensures
        mutated_all(values, name, first + second) == mutated_all(
            mutated_all(values, name, first),
            name,
            second,
        ),
    decreases second.len(),
{
    if second.len() == 0 {
        assert(first + second =~= first);
    } else {
        lemma_mutations_in_order(values, name, first, second.drop_last());
        assert((first + second).drop_last() =~= first + second.drop_last());
        assert((first + second).last() == second.last());
    }
}

/// The headers that are consumed are exactly those that the source reads.
pub proof fn lemma_consumed_headers(source: SourceView, name: Seq<char>)
    ensures
        consumed_headers(source).contains(name) <==> match source {
            SourceView::Shared(_) => false,
            SourceView::TrustedHeader(header) => header == name,
            SourceView::TrustedComponents { tenant, issuer, subject } => {
                ||| tenant == ComponentSourceView::Header(name)
                ||| issuer == ComponentSourceView::Header(name)
                ||| subject == ComponentSourceView::Header(name)
            },
        },
{
    match source {
        SourceView::Shared(_) => {},
        SourceView::TrustedHeader(header) => {
            assert(consumed_headers(source)[0] == header);
        },
        SourceView::TrustedComponents { tenant, issuer, subject } => {
            let sources = seq![tenant, issuer, subject];
            lemma_headers_read(sources, name);
            assert(sources[0] == tenant && sources[1] == issuer && sources[2] == subject);
            if consumed_headers(source).contains(name) {
                let i = choose|i: int|
                    0 <= i < sources.len() && #[trigger] sources[i] == ComponentSourceView::Header(
                        name,
                    );
                assert(i == 0 || i == 1 || i == 2);
            }
        },
    }
}

/// The headers that sources read.
proof fn lemma_headers_read(sources: Seq<ComponentSourceView>, name: Seq<char>)
    ensures
        headers_read(sources).contains(name) <==> exists|i: int|
            0 <= i < sources.len() && #[trigger] sources[i] == ComponentSourceView::Header(name),
    decreases sources.len(),
{
    if sources.len() > 0 {
        let front = sources.drop_last();
        lemma_headers_read(front, name);
        let all = headers_read(sources);
        let earlier = headers_read(front);
        assert(sources.last() == sources[sources.len() - 1]);
        if earlier.contains(name) {
            let k = choose|k: int| 0 <= k < earlier.len() && earlier[k] == name;
            assert(all[k] == name);
            let i = choose|i: int|
                0 <= i < front.len() && #[trigger] front[i] == ComponentSourceView::Header(name);
            assert(sources[i] == front[i]);
        }
        if sources.last() == ComponentSourceView::Header(name) {
            assert(all[all.len() - 1] == name);
        }
        if all.contains(name) && !earlier.contains(name) {
            let k = choose|k: int| 0 <= k < all.len() && all[k] == name;
            if k < earlier.len() {
                assert(earlier[k] == name);
            }
        }
        if exists|i: int|
            0 <= i < sources.len() && #[trigger] sources[i] == ComponentSourceView::Header(name) {
            let i = choose|i: int|
                0 <= i < sources.len() && #[trigger] sources[i] == ComponentSourceView::Header(
                    name,
                );
            if i < front.len() {
                assert(front[i] == sources[i]);
            }
        }
    }
}

/// A consumed header does not reach what comes behind: once its removal is in the
/// ordered log, no value of it counts.
pub proof fn lemma_consumed_header_is_gone(
    before: OwnerRequest,
    after: OwnerRequest,
    names: Seq<Seq<char>>,
    name: Seq<char>,
)
    requires
        removal_queued(before, after, names, true),
        before.pre_read_mutations@.len() > 0,
        names.contains(name),
    ensures
        effective_values(after, name, true).len() == 0,
{
    let k = choose|k: int| 0 <= k < names.len() && names[k] == name;
    let log = after.pre_read_mutations@;
    let prior = mutated_all(
        named_values(after.headers@, name),
        name,
        after.prior_pre_read_mutations@,
    );
    lemma_removals_remove(prior, name, log, before.pre_read_mutations@.len() + k, log.len() as int);
    assert(log.take(log.len() as int) =~= log);
}

/// Behind a removal, further removals leave nothing.
proof fn lemma_removals_remove(
    values: Seq<Seq<u8>>,
    name: Seq<char>,
    log: Seq<TrustedHeaderMutation>,
    at: int,
    n: int,
)
    requires
        0 <= at < n <= log.len(),
        log[at] matches TrustedHeaderMutation::Remove(target) && target@ == name,
        forall|i: int| at <= i < log.len() ==> #[trigger] log[i] is Remove,
    ensures
        mutated_all(values, name, log.take(n)).len() == 0,
    decreases n,
{
    let upto = log.take(n);
    assert(upto.drop_last() =~= log.take(n - 1));
    assert(upto.last() == log[n - 1]);
    if n - 1 > at {
        lemma_removals_remove(values, name, log, at, n - 1);
    }
}

/// A configuration is taken as it is given: the shared owner has the configured
/// tenant, header names count in lowercase, fixed parts as they are; the reserved
/// policy mode is never accepted, and two components never read one header.
pub proof fn lemma_configured_source(config: StateOwnerConfig)
    ensures
        match configured_source(config) {
            Ok(source) => match config {
                StateOwnerConfig::SingleTenant { tenant_id } => source == SourceView::Shared(
                    OwnerView {
                        tenant_id: tenant_id@,
                        issuer: "urn:praxis:single-tenant"@,
                        subject: "shared"@,
                    },
                ) && valid_component(tenant_id@),
                StateOwnerConfig::TrustedOwner { header } => source == SourceView::TrustedHeader(
                    ascii_lower(header@),
                ) && is_header_name(header@),
                StateOwnerConfig::TrustedHeaders { tenant, issuer, subject } => {
                    &&& source is TrustedComponents
                    &&& source == (SourceView::TrustedComponents {
                        tenant: source->tenant,
                        issuer: source->issuer,
                        subject: source->subject,
                    })
                    &&& reads_as_configured(source->tenant, tenant)
                    &&& reads_as_configured(source->issuer, issuer)
                    &&& reads_as_configured(source->subject, subject)
                    &&& source->tenant is Header ==> source->tenant != source->issuer
                        && source->tenant != source->subject
                    &&& source->issuer is Header ==> source->issuer != source->subject
                },
                StateOwnerConfig::Policy { .. } => false,
            },
            Err(_) => true,
        },
{
}

/// Whether a component is read as it was configured.
pub open spec fn reads_as_configured(
    source: ComponentSourceView,
    config: OwnerComponentConfig,
) -> bool {
    match config {
        OwnerComponentConfig::Header(header) => source == ComponentSourceView::Header(
            ascii_lower(header@),
        ) && is_header_name(header@),
        OwnerComponentConfig::Fixed(value) => source == ComponentSourceView::Fixed(value@)
            && valid_component(value@),
    }
}

/// A component is valid exactly where it is not empty, has at most so many bytes, and
/// holds no control character.
pub proof fn lemma_valid_component(value: Seq<char>)
    ensures
        valid_component(value) <==> {
            &&& value.len() > 0
            &&& utf8(value).len() <= MAX_COMPONENT_BYTES
            &&& forall|i: int|
                0 <= i < value.len() ==> {
                    let c = #[trigger] value[i];
                    ' ' <= c && !('\x7f' <= c && c <= '\u{9f}')
                }
        },
{
    if valid_component(value) {
        assert forall|i: int| 0 <= i < value.len() implies {
            let c = #[trigger] value[i];
            ' ' <= c && !('\x7f' <= c && c <= '\u{9f}')
        } by {
            assert(!is_control(value[i]));
        }
    }
}

/// Sources that give valid components give the owner that is made of them.
pub proof fn lemma_valid_components_are_accepted(
    tenant: ComponentSourceView,
    issuer: ComponentSourceView,
    subject: ComponentSourceView,
    request: OwnerRequest,
    body_phase: bool,
    owner: OwnerView,
)
    requires
        gives_component(tenant, request, body_phase, owner.tenant_id),
        gives_component(issuer, request, body_phase, owner.issuer),
        gives_component(subject, request, body_phase, owner.subject),
        valid_owner(owner),
    ensures
        resolved_owner(
            (SourceView::TrustedComponents { tenant, issuer, subject }),
            request,
            body_phase,
        ) == Ok::<OwnerView, RejectionView>(owner),
{
    lemma_given_component_is_read(
        OwnerComponent::Tenant,
        tenant,
        request,
        body_phase,
        owner.tenant_id,
    );
    lemma_given_component_is_read(OwnerComponent::Issuer, issuer, request, body_phase, owner.issuer);
    lemma_given_component_is_read(
        OwnerComponent::Subject,
        subject,
        request,
        body_phase,
        owner.subject,
    );
}

/// A valid component that a source gives is read.
proof fn lemma_given_component_is_read(
    component: OwnerComponent,
    source: ComponentSourceView,
    request: OwnerRequest,
    body_phase: bool,
    text: Seq<char>,
)
    requires
        gives_component(source, request, body_phase, text),
        valid_component(text),
    ensures
        component_value(component, source, request, body_phase) == Ok::<Seq<char>, RejectionView>(
            text,
        ),
{
    if let ComponentSourceView::Header(name) = source {
        let bytes = effective_values(request, name, body_phase)[0];
        assert forall|i: int| 0 <= i < text.len() implies visible_text(bytes)[i] == #[trigger] text[i] by {
            assert(bytes[i] == text[i] as int);
        }
        assert(visible_text(bytes) =~= text);
    }
}

/// A request without a component's header is answered with status 401, one with more
/// than one, or with a value that is no text or not valid, with status 400.
pub proof fn lemma_component_errors(
    component: OwnerComponent,
    name: Seq<char>,
    request: OwnerRequest,
    body_phase: bool,
)
    ensures
        ({
            let values = effective_values(request, name, body_phase);
            let value = component_value(
                component,
                ComponentSourceView::Header(name),
                request,
                body_phase,
            );
            &&& values.len() == 0 ==> value is Err && tells_owner_error(
                value->Err_0,
                401,
                "missing_state_owner"@,
                "trusted state owner "@ + component.label() + " header is required"@,
            )
            &&& values.len() > 1 ==> value is Err && tells_owner_error(
                value->Err_0,
                400,
                "invalid_state_owner"@,
                "trusted state owner "@ + component.label() + " header must appear exactly once"@,
            )
            &&& values.len() == 1 && value is Err ==> value->Err_0.status == 400
        }),
{
    lemma_owner_error_is_told(
        401,
        "missing_state_owner"@,
        "trusted state owner "@ + component.label() + " header is required"@,
    );
    lemma_owner_error_is_told(
        400,
        "invalid_state_owner"@,
        "trusted state owner "@ + component.label() + " header must appear exactly once"@,
    );
}

/// One assertion that is visible text, small enough and valid gives its owner.
pub proof fn lemma_valid_assertion_is_accepted(bytes: Seq<u8>, owner: OwnerView)
    requires
        bytes.len() <= MAX_ASSERTION_BYTES,
        forall|i: int| 0 <= i < bytes.len() ==> 32 <= #[trigger] bytes[i] < 127,
        owner_of_assertion(visible_text(bytes)) == Ok::<OwnerView, OwnerAssertionError>(owner),
    ensures
        asserted_owner(seq![bytes]) == Ok::<OwnerView, RejectionView>(owner),
{
}

} // verus!
