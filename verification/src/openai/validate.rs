//! Validates and enriches incoming Responses API requests.

use vstd::prelude::*;

use crate::collections::{text_at, texts_of_map, TextMap};
use crate::filter::{
    MAX_JSON_BODY_BYTES, json_rejection, reject_json, ActionView, BodyAccess, BodyMode, FilterAction, Rejection, RejectionView,
};
use crate::json::{
    lemma_position_is, no_members, push_member, string, Json, JsonView, NumberView,
};
use crate::json_text::{bytes_of, compact_text, parse_json, parsed};
use crate::openai::state::{items_of, state_of_request, texts_of, ResponsesState, StateView};
use crate::openai::stream_events::emission::optional_state;
use crate::text::{chars_of, join, same_text, starts_with, utf8};

verus! {

broadcast use crate::json_model::group_json_view;

/// The body of an error answer.
pub open spec fn error_body(
    kind: Seq<char>,
    code: Option<Seq<char>>,
    message: Seq<char>,
) -> JsonView {
    JsonView::Object(
        Seq::empty().push(
            (
                "error"@,
                JsonView::Object(
                    Seq::empty().push(("message"@, JsonView::String(message))).push(
                        ("type"@, JsonView::String(kind)),
                    ).push(("param"@, JsonView::Null)).push(
                        (
                            "code"@,
                            match code {
                                Some(code) => JsonView::String(code),
                                None => JsonView::Null,
                            },
                        ),
                    ),
                ),
            ),
        ),
    )
}

/// An error answer.
pub open spec fn error_rejection(
    status: u16,
    kind: Seq<char>,
    code: Option<Seq<char>>,
    message: Seq<char>,
) -> RejectionView {
    json_rejection(status, utf8(compact_text(error_body(kind, code, message))))
}

/// Builds an error answer.
pub fn responses_error_rejection(
    status: u16,
    kind: &str,
    code: Option<&str>,
    message: &str,
) -> (rejection: Rejection)
    ensures
        rejection@ == error_rejection(
            status,
            kind@,
            match code {
                Some(code) => Some(code@),
                None => None,
            },
            message@,
        ),
{
    let mut error = no_members();
    push_member(&mut error, "message", string(message));
    push_member(&mut error, "type", string(kind));
    push_member(&mut error, "param", Json::Null);
    let code = match code {
        Some(code) => string(code),
        None => Json::Null,
    };
    push_member(&mut error, "code", code);
    let mut body = no_members();
    push_member(&mut body, "error", Json::Object(error));
    reject_json(status, bytes_of(&Json::Object(body)))
}

/// The answer to an invalid request.
pub open spec fn invalid_request(message: Seq<char>) -> RejectionView {
    error_rejection(400, "invalid_request_error"@, None, message)
}

/// Answers an invalid request.
pub fn reject_invalid(message: &str) -> (action: FilterAction)
    ensures
        action@ == ActionView::Reject(invalid_request(message@)),
{
    FilterAction::Reject(responses_error_rejection(400, "invalid_request_error", None, message))
}

/// Whether a member is there and not `null`.
pub open spec fn is_given(body: JsonView, name: Seq<char>) -> bool {
    match body.get(name) {
        Some(value) => value != JsonView::Null,
        None => false,
    }
}

/// Whether a member is there and not `null`.
fn given(body: &Json, name: &str) -> (found: bool)
    ensures
        found == is_given(body@, name@),
{
    match body.get(name) {
        Some(value) => !value.is_null(),
        None => false,
    }
}

/// Whether a request selects both sources of conversation history.
pub open spec fn selectors_conflict(body: JsonView) -> bool {
    is_given(body, "previous_response_id"@) && is_given(body, "conversation"@)
}

/// The answer to a request that selects both sources of conversation history.
pub open spec fn conflict_rejection() -> RejectionView {
    error_rejection(
        400,
        "invalid_request_error"@,
        Some("mutually_exclusive_parameters"@),
        "Mutually exclusive parameters. Ensure you are only providing one of: 'previous_response_id' or 'conversation'."@,
    )
}

/// Rejects requests that select both sources of conversation history.
pub fn reject_conflicting_history_selectors(body: &Json) -> (action: Option<FilterAction>)
    ensures
        match action {
            Some(action) => selectors_conflict(body@) && action@ == ActionView::Reject(
                conflict_rejection(),
            ),
            None => !selectors_conflict(body@),
        },
{
    if given(body, "previous_response_id") && given(body, "conversation") {
        Some(
            FilterAction::Reject(
                responses_error_rejection(
                    400,
                    "invalid_request_error",
                    Some("mutually_exclusive_parameters"),
                    "Mutually exclusive parameters. Ensure you are only providing one of: 'previous_response_id' or 'conversation'.",
                ),
            ),
        )
    } else {
        None
    }
}

/// A path without one trailing slash.
pub open spec fn without_slash(path: Seq<char>) -> Seq<char> {
    if path.len() > 0 && path.last() == '/' {
        path.drop_last()
    } else {
        path
    }
}

/// The path of the cancellation of a response.
pub open spec fn cancel_path(id: Seq<char>) -> Seq<char> {
    "/v1/responses/"@ + id + "/cancel"@
}

/// Whether a path is `/v1/responses/{id}/cancel` with one non-empty segment `{id}`.
pub open spec fn is_cancel_path(path: Seq<char>) -> bool {
    exists|id: Seq<char>|
        id.len() > 0 && !id.contains('/') && path == #[trigger] cancel_path(id)
}

/// Whether a Responses endpoint has no JSON request body.
pub open spec fn is_bodyless(method: Seq<char>, path: Seq<char>) -> bool {
    method == "GET"@ || method == "DELETE"@ || (method == "POST"@ && is_cancel_path(
        without_slash(path),
    ))
}

/// Whether characters end with a text.
fn ends_with(chars: &Vec<char>, n: usize, suffix: &str) -> (found: bool)
    requires
        n <= chars.len(),
    ensures
        found == (n >= suffix@.len() && chars@.subrange(n - suffix@.len(), n as int) == suffix@),
{
    let tail = chars_of(suffix);
    if n < tail.len() {
        return false;
    }
    let from = n - tail.len();
    let mut i: usize = 0;
    while i < tail.len()
        invariant
            tail@ == suffix@,
            n <= chars.len(),
            from == n - tail.len(),
            i <= tail.len(),
            forall|j: int| 0 <= j < i ==> #[trigger] chars@[from + j] == tail@[j],
        decreases tail.len() - i,
    {
        if chars[from + i] != tail[i] {
            assert(chars@.subrange(from as int, n as int)[i as int] != suffix@[i as int]);
            return false;
        }
        i = i + 1;
    }
    assert(chars@.subrange(from as int, n as int) =~= suffix@) by {
        assert forall|j: int| 0 <= j < suffix@.len() implies chars@.subrange(
            from as int,
            n as int,
        )[j] == suffix@[j] by {
            assert(chars@[from + j] == tail@[j]);
        }
    }
    true
}

/// Checks whether a path is that of a cancellation.
fn cancels(path: &str) -> (found: bool)
    ensures
        found == is_cancel_path(without_slash(path@)),
{
    let chars = chars_of(path);
    let n: usize = if chars.len() > 0 && chars[chars.len() - 1] == '/' {
        chars.len() - 1
    } else {
        chars.len()
    };
    let ghost bare = without_slash(path@);
    proof {
        reveal_strlit("/v1/responses/");
        reveal_strlit("/cancel");
        assert(bare =~= chars@.take(n as int));
        assert("/v1/responses/"@.len() == 14);
        assert("/cancel"@.len() == 7);
    }
    if n <= 21 || !starts_with(path, "/v1/responses/") || !ends_with(&chars, n, "/cancel") {
        proof {
            if is_cancel_path(bare) {
                let id = choose|id: Seq<char>|
                    id.len() > 0 && !id.contains('/') && bare == #[trigger] cancel_path(id);
                assert(bare.len() == id.len() + 21);
                assert(path@.take(14) =~= "/v1/responses/"@) by {
                    assert forall|i: int| 0 <= i < 14 implies path@[i] == "/v1/responses/"@[i] by {
                        assert(bare[i] == path@[i]);
                    }
                }
                assert(chars@.subrange(n - 7, n as int) =~= "/cancel"@) by {
                    assert forall|i: int| 0 <= i < 7 implies chars@[n - 7 + i] == "/cancel"@[i] by {
                        assert(bare[id.len() + 14 + i] == "/cancel"@[i]);
                    }
                }
            }
        }
        return false;
    }
    let mut i: usize = 14;
    while i < n - 7
        invariant
            chars@ == path@,
            21 < n <= chars.len(),
            bare == chars@.take(n as int),
            "/v1/responses/"@.len() == 14,
            "/cancel"@.len() == 7,
            14 <= i <= n - 7,
            forall|j: int| 14 <= j < i ==> #[trigger] chars@[j] != '/',
            bare == without_slash(path@),
        decreases n - i,
    {
        if chars[i] == '/' {
            proof {
                if is_cancel_path(bare) {
                    let id = choose|id: Seq<char>|
                        id.len() > 0 && !id.contains('/') && bare == #[trigger] cancel_path(id);
                    assert(bare.len() == n);
                    assert(id.len() == n - 21);
                    assert(cancel_path(id)[i as int] == ("/v1/responses/"@ + id)[i as int]);
                    assert(id[i - 14] == '/');
                    assert(id.contains('/'));
                }
            }
            return false;
        }
        i = i + 1;
    }
    proof {
        let id = bare.subrange(14, n - 7);
        assert(!id.contains('/')) by {
            assert forall|j: int| 0 <= j < id.len() implies id[j] != '/' by {
                assert(id[j] == chars@[14 + j]);
            }
        }
        assert(bare =~= cancel_path(id)) by {
            assert(chars@.subrange(n - 7, n as int) == "/cancel"@);
            assert forall|k: int| 0 <= k < bare.len() implies bare[k] == ("/v1/responses/"@ + id
                + "/cancel"@)[k] by {
                if k < 14 {
                    assert(path@.take(14)[k] == "/v1/responses/"@[k]);
                } else if k >= n - 7 {
                    assert(chars@.subrange(n - 7, n as int)[k - (n - 7)] == chars@[k]);
                }
            }
        }
        assert(is_cancel_path(bare));
    }
    true
}

/// Checks whether a Responses endpoint has no JSON request body to validate.
pub fn is_bodyless_responses_request(method: &str, path: &str) -> (bodyless: bool)
    ensures
        bodyless == is_bodyless(method@, path@),
{
    same_text(method, "GET") || same_text(method, "DELETE") || (same_text(method, "POST")
        && cancels(path))
}

/// The conversation that a request names: by its id, or as an object with one.
pub open spec fn named_conversation(body: JsonView) -> Option<Seq<char>> {
    match body.get("conversation"@) {
        Some(JsonView::String(id)) => Some(id),
        Some(conversation) => conversation.get_text("id"@),
        None => None,
    }
}

/// Extracts the conversation that a request names.
pub fn extract_conversation_id(body: &Json) -> (id: Option<&str>)
    ensures
        match id {
            Some(id) => named_conversation(body@) == Some(id@),
            None => named_conversation(body@) is None,
        },
{
    match body.get("conversation") {
        Some(Json::String(id)) => Some(id.as_str()),
        Some(conversation) => conversation.get_str("id"),
        None => None,
    }
}

/// The conversation of a request: the one it names, or a new one.
pub open spec fn conversation_of(body: JsonView, generated: Seq<char>) -> Seq<char> {
    match named_conversation(body) {
        Some(id) => id,
        None => "conv_"@ + generated,
    }
}

/// Extracts the conversation of a request, or takes the generated one.
pub fn resolve_conversation_id(body: &Json, generated: &str) -> (id: String)
    ensures
        id@ == conversation_of(body@, generated@),
{
    match extract_conversation_id(body) {
        Some(id) => id.to_owned(),
        None => join("conv_", generated),
    }
}

/// The text of a flag.
pub open spec fn flag_text(flag: bool) -> Seq<char> {
    if flag {
        "true"@
    } else {
        "false"@
    }
}

/// The metadata of a request that was validated: ids, and the classifier's flags
/// with their defaults.
pub open spec fn enriched(
    metadata: Map<Seq<char>, Seq<char>>,
    response_id: Seq<char>,
    conversation_id: Seq<char>,
) -> Map<Seq<char>, Seq<char>> {
    metadata.insert("responses.response_id"@, response_id).insert(
        "responses.conversation_id"@,
        conversation_id,
    ).insert(
        "responses.store"@,
        flag_text(text_at(metadata, "openai_responses_format.store"@) != Some("false"@)),
    ).insert(
        "responses.background"@,
        flag_text(text_at(metadata, "openai_responses_format.background"@) == Some("true"@)),
    ).insert(
        "responses.stream"@,
        flag_text(text_at(metadata, "openai_responses_format.stream"@) == Some("true"@)),
    )
}

/// Whether a metadata key has the text `value`.
fn metadata_is(metadata: &TextMap<String>, key: &str, value: &str) -> (same: bool)
    ensures
        same == (text_at(texts_of_map(metadata@), key@) == Some(value@)),
{
    match metadata.text(key) {
        Some(text) => same_text(text, value),
        None => false,
    }
}

/// Sets a flag.
fn put_flag(metadata: &mut TextMap<String>, key: &str, flag: bool)
    ensures
        texts_of_map(final(metadata)@) == texts_of_map(old(metadata)@).insert(
            key@,
            flag_text(flag),
        ),
{
    metadata.put_text(
        key,
        if flag {
            "true"
        } else {
            "false"
        },
    );
}

/// Enriches the metadata of a validated request.
pub fn enrich_context(metadata: &mut TextMap<String>, response_id: &str, conversation_id: &str)
    ensures
        texts_of_map(final(metadata)@) == enriched(
            texts_of_map(old(metadata)@),
            response_id@,
            conversation_id@,
        ),
{
    let store = !metadata_is(metadata, "openai_responses_format.store", "false");
    let background = metadata_is(metadata, "openai_responses_format.background", "true");
    let stream = metadata_is(metadata, "openai_responses_format.stream", "true");
    metadata.put_text("responses.response_id", response_id);
    metadata.put_text("responses.conversation_id", conversation_id);
    put_flag(metadata, "responses.store", store);
    put_flag(metadata, "responses.background", background);
    put_flag(metadata, "responses.stream", stream);
}

/// What is decided before a body is parsed: what is no Responses request, has no
/// body, or is initialized already is released; background mode is refused.
pub open spec fn policy(
    metadata: Map<Seq<char>, Seq<char>>,
    state: Option<StateView>,
    method: Seq<char>,
    path: Seq<char>,
) -> Option<ActionView> {
    if text_at(metadata, "openai_responses_format.format"@) != Some("openai_responses"@) {
        Some(ActionView::Release)
    } else if is_bodyless(method, path) {
        Some(ActionView::Release)
    } else if text_at(metadata, "openai_responses_format.background"@) == Some("true"@) {
        Some(ActionView::Reject(invalid_request("background mode is not supported"@)))
    } else if state is Some {
        Some(ActionView::Release)
    } else {
        None
    }
}

/// Applies classification and lifecycle guards before any parsing.
pub fn complete_body_policy(
    metadata: &TextMap<String>,
    state: &Option<ResponsesState>,
    method: &str,
    path: &str,
) -> (action: Option<FilterAction>)
    ensures
        ({
            let expected = policy(
                texts_of_map(metadata@),
                optional_state(*state),
                method@,
                path@,
            );
            match action {
                Some(action) => expected == Some(action@),
                None => expected is None,
            }
        }),
{
    if !metadata_is(metadata, "openai_responses_format.format", "openai_responses") {
        return Some(FilterAction::Release);
    }
    if is_bodyless_responses_request(method, path) {
        return Some(FilterAction::Release);
    }
    if metadata_is(metadata, "openai_responses_format.background", "true") {
        return Some(reject_invalid("background mode is not supported"));
    }
    if state.is_some() {
        return Some(FilterAction::Release);
    }
    None
}

/// The state of a validated request.
pub open spec fn initialized(body: JsonView, response_id: Seq<char>) -> StateView {
    StateView { response_id: Some(response_id), ..state_of_request(body) }
}

/// What a parsed request comes to: the metadata, the state and the action.
pub open spec fn parsed_validated(
    metadata: Map<Seq<char>, Seq<char>>,
    state: Option<StateView>,
    body: JsonView,
    response: Seq<char>,
    conversation: Seq<char>,
) -> (Map<Seq<char>, Seq<char>>, Option<StateView>, ActionView) {
    if selectors_conflict(body) {
        (metadata, state, ActionView::Reject(conflict_rejection()))
    } else {
        let response_id = "resp_"@ + response;
        (
            enriched(metadata, response_id, conversation_of(body, conversation)),
            Some(initialized(body, response_id)),
            ActionView::Release,
        )
    }
}

/// Freshly generated identifiers.
pub struct GeneratedIds {
    /// For the response.
    pub response: String,
    /// For a conversation that the request does not name.
    pub conversation: String,
}

/// Validates parsed fields and initializes request-scoped state.
pub fn validate_parsed_body(
    metadata: &mut TextMap<String>,
    state: &mut Option<ResponsesState>,
    body: Json,
    ids: &GeneratedIds,
) -> (action: FilterAction)
    ensures
        ({
            let expected = parsed_validated(
                texts_of_map(old(metadata)@),
                optional_state(*old(state)),
                body@,
                ids.response@,
                ids.conversation@,
            );
            &&& texts_of_map(final(metadata)@) == expected.0
            &&& optional_state(*final(state)) == expected.1
            &&& action@ == expected.2
        }),
{
    if let Some(action) = reject_conflicting_history_selectors(&body) {
        return action;
    }
    let response_id = join("resp_", ids.response.as_str());
    let conversation_id = resolve_conversation_id(&body, ids.conversation.as_str());
    enrich_context(metadata, response_id.as_str(), conversation_id.as_str());
    let ghost view = body@;
    let ghost id = response_id@;
    let mut fresh = ResponsesState::from_request_body(body);
    fresh.response_id = Some(response_id);
    assert(fresh@ =~= initialized(view, id));
    *state = Some(fresh);
    FilterAction::Release
}

/// What a complete request comes to, where `answer` is what parsing its body gave;
/// none where it has no body.
pub open spec fn body_validated(
    metadata: Map<Seq<char>, Seq<char>>,
    state: Option<StateView>,
    method: Seq<char>,
    path: Seq<char>,
    answer: Option<Result<JsonView, Seq<char>>>,
    response: Seq<char>,
    conversation: Seq<char>,
) -> (Map<Seq<char>, Seq<char>>, Option<StateView>, ActionView) {
    match policy(metadata, state, method, path) {
        Some(action) => (metadata, state, action),
        None => match answer {
            None => (
                metadata,
                state,
                ActionView::Reject(invalid_request("request body is required"@)),
            ),
            Some(Err(message)) => (
                metadata,
                state,
                ActionView::Reject(invalid_request("invalid request body: "@ + message)),
            ),
            Some(Ok(body)) => parsed_validated(metadata, state, body, response, conversation),
        },
    }
}

/// Validates and enriches Responses API requests.
pub struct OpenaiResponsesValidateFilter {}

impl OpenaiResponsesValidateFilter {
    /// The filter's name.
    pub fn name(&self) -> (name: &'static str)
        ensures
            name@ == "openai_responses_validate"@,
    {
        "openai_responses_validate"
    }

    /// The filter reads the request's body.
    pub fn request_body_access(&self) -> (access: BodyAccess)
        ensures
            access == BodyAccess::ReadOnly,
    {
        BodyAccess::ReadOnly
    }

    /// The filter reads the body that is sent to a bound upstream.
    pub fn bound_upstream_request_body_access(&self) -> (access: BodyAccess)
        ensures
            access == BodyAccess::ReadOnly,
    {
        BodyAccess::ReadOnly
    }

    /// The request's body is held back until it was validated.
    pub fn request_body_mode(&self) -> (mode: BodyMode)
        ensures
            mode == (BodyMode::StreamBuffer { max_bytes: Some(MAX_JSON_BODY_BYTES) }),
    {
        BodyMode::StreamBuffer { max_bytes: Some(MAX_JSON_BODY_BYTES) }
    }

    /// Validates one complete request body.
    pub fn validate_complete_body(
        &self,
        metadata: &mut TextMap<String>,
        state: &mut Option<ResponsesState>,
        method: &str,
        path: &str,
        body: Option<&[u8]>,
        ids: &GeneratedIds,
    ) -> (action: FilterAction)
        ensures
            ({
                let expected = body_validated(
                    texts_of_map(old(metadata)@),
                    optional_state(*old(state)),
                    method@,
                    path@,
                    match body {
                        Some(bytes) => Some(parsed(bytes@)),
                        None => None,
                    },
                    ids.response@,
                    ids.conversation@,
                );
                &&& texts_of_map(final(metadata)@) == expected.0
                &&& optional_state(*final(state)) == expected.1
                &&& action@ == expected.2
            }),
    {
        if let Some(action) = complete_body_policy(metadata, state, method, path) {
            return action;
        }
        match body {
            None => reject_invalid("request body is required"),
            Some(bytes) => match parse_json(bytes) {
                Ok(body) => validate_parsed_body(metadata, state, body, ids),
                Err(message) => reject_invalid(
                    join("invalid request body: ", message.as_str()).as_str(),
                ),
            },
        }
    }

    /// Validates a request once its body is complete.
    pub fn on_request_body(
        &self,
        metadata: &mut TextMap<String>,
        state: &mut Option<ResponsesState>,
        method: &str,
        path: &str,
        body: Option<&[u8]>,
        end_of_stream: bool,
        ids: &GeneratedIds,
    ) -> (action: FilterAction)
        ensures
            ({
                let given = texts_of_map(old(metadata)@);
                let held = optional_state(*old(state));
                let expected = if end_of_stream {
                    body_validated(
                        given,
                        held,
                        method@,
                        path@,
                        match body {
                            Some(bytes) => Some(parsed(bytes@)),
                            None => None,
                        },
                        ids.response@,
                        ids.conversation@,
                    )
                } else {
                    (given, held, ActionView::Continue)
                };
                &&& texts_of_map(final(metadata)@) == expected.0
                &&& optional_state(*final(state)) == expected.1
                &&& action@ == expected.2
            }),
    {
        if !end_of_stream {
            return FilterAction::Continue;
        }
        self.validate_complete_body(metadata, state, method, path, body, ids)
    }
}

impl OpenaiResponsesValidateFilter {
    /// Validates a request whose upstream is bound: it is refused, or goes on.
    pub fn on_bound_upstream_request_body(
        &self,
        metadata: &mut TextMap<String>,
        state: &mut Option<ResponsesState>,
        method: &str,
        path: &str,
        body: Option<&[u8]>,
        ids: &GeneratedIds,
    ) -> (refusal: Option<Rejection>)
        ensures
            ({
                let expected = body_validated(
                    texts_of_map(old(metadata)@),
                    optional_state(*old(state)),
                    method@,
                    path@,
                    match body {
                        Some(bytes) => Some(parsed(bytes@)),
                        None => None,
                    },
                    ids.response@,
                    ids.conversation@,
                );
                &&& texts_of_map(final(metadata)@) == expected.0
                &&& optional_state(*final(state)) == expected.1
                &&& match refusal {
                    Some(rejection) => expected.2 == ActionView::Reject(rejection@),
                    None => !(expected.2 is Reject),
                }
            }),
    {
        match self.validate_complete_body(metadata, state, method, path, body, ids) {
            FilterAction::Reject(rejection) => Some(rejection),
            _ => None,
        }
    }
}

/// A request that is refused leaves nothing behind, and one that is released
/// without being parsed is left alone: metadata and state change only where a
/// request is accepted and initialized.
pub proof fn lemma_only_accepted_requests_are_initialized(
    metadata: Map<Seq<char>, Seq<char>>,
    state: Option<StateView>,
    method: Seq<char>,
    path: Seq<char>,
    answer: Option<Result<JsonView, Seq<char>>>,
    response: Seq<char>,
    conversation: Seq<char>,
)
    ensures
        ({
            let (after, held, action) = body_validated(
                metadata,
                state,
                method,
                path,
                answer,
                response,
                conversation,
            );
            &&& (action is Reject ==> after == metadata && held == state)
            &&& (state is Some ==> after == metadata && held == state)
            &&& (held != state ==> action == ActionView::Release)
        }),
{
}

/// Whether a response tells of an error: its status, and a JSON body with the
/// message, the kind and the code.
pub open spec fn tells_error(
    rejection: RejectionView,
    status: u16,
    kind: Seq<char>,
    code: JsonView,
    message: Seq<char>,
) -> bool {
    &&& rejection.status == status
    &&& rejection.headers.len() == 1
    &&& rejection.headers[0] == ("content-type"@, "application/json"@)
    &&& exists|value: JsonView|
        {
            &&& rejection.body == utf8(#[trigger] compact_text(value))
            &&& value.get("error"@) is Some
            &&& value.get("error"@)->0.get("message"@) == Some(JsonView::String(message))
            &&& value.get("error"@)->0.get("type"@) == Some(JsonView::String(kind))
            &&& value.get("error"@)->0.get("code"@) == Some(code)
            &&& value.get("error"@)->0.get("param"@) == Some(JsonView::Null)
        }
}

/// An error answer tells of its error.
pub proof fn lemma_error_is_told(
    status: u16,
    kind: Seq<char>,
    code: Option<Seq<char>>,
    message: Seq<char>,
)
    ensures
        tells_error(
            error_rejection(status, kind, code, message),
            status,
            kind,
            match code {
                Some(code) => JsonView::String(code),
                None => JsonView::Null,
            },
            message,
        ),
{
    reveal_strlit("message");
    reveal_strlit("type");
    reveal_strlit("param");
    reveal_strlit("code");
    assert("message"@.len() == 7 && "type"@.len() == 4 && "param"@.len() == 5);
    assert("code"@.len() == 4 && "code"@[0] == 'c' && "type"@[0] == 't');
    let value = error_body(kind, code, message);
    lemma_position_is(value->Object_0, "error"@, 0);
    let error = value.get("error"@)->0->Object_0;
    lemma_position_is(error, "message"@, 0);
    lemma_position_is(error, "type"@, 1);
    lemma_position_is(error, "param"@, 2);
    lemma_position_is(error, "code"@, 3);
    assert(error_rejection(status, kind, code, message).body == utf8(compact_text(value)));
}

/// Whether a value is there and not `null`.
pub open spec fn is_present(value: Option<JsonView>) -> bool {
    value is Some && value->0 != JsonView::Null
}

/// Whether a request is one to be validated: a Responses request with a body, not in
/// background mode, and not initialized yet.
pub open spec fn is_to_be_validated(
    metadata: Map<Seq<char>, Seq<char>>,
    state: Option<StateView>,
    method: Seq<char>,
    path: Seq<char>,
) -> bool {
    &&& metadata.dom().contains("openai_responses_format.format"@)
    &&& metadata["openai_responses_format.format"@] == "openai_responses"@
    &&& method != "GET"@ && method != "DELETE"@
    &&& method == "POST"@ ==> forall|id: Seq<char>|
        id.len() > 0 && !id.contains('/') ==> without_slash(path) != #[trigger] cancel_path(id)
    &&& !(metadata.dom().contains("openai_responses_format.background"@)
        && metadata["openai_responses_format.background"@] == "true"@)
    &&& state is None
}

/// A request that is to be validated begins with its own body: the state holds the
/// body, its tools, the optional parts and the limit on tool calls that it states, and
/// the id that was generated; the metadata tells the ids and the classifier's flags.
/// One that selects both sources of history, has no body or no JSON body is refused
/// with status 400 and leaves nothing behind.
pub proof fn lemma_request_begins_with_its_body(
    metadata: Map<Seq<char>, Seq<char>>,
    state: Option<StateView>,
    method: Seq<char>,
    path: Seq<char>,
    answer: Option<Result<JsonView, Seq<char>>>,
    response: Seq<char>,
    conversation: Seq<char>,
)
    requires
        is_to_be_validated(metadata, state, method, path),
    ensures
        ({
            let (after, held, action) = body_validated(
                metadata,
                state,
                method,
                path,
                answer,
                response,
                conversation,
            );
            match answer {
                None => action is Reject && tells_error(
                    action->Reject_0,
                    400,
                    "invalid_request_error"@,
                    JsonView::Null,
                    "request body is required"@,
                ),
                Some(Err(message)) => action is Reject && tells_error(
                    action->Reject_0,
                    400,
                    "invalid_request_error"@,
                    JsonView::Null,
                    "invalid request body: "@ + message,
                ),
                Some(Ok(body)) => if is_present(body.get("previous_response_id"@)) && is_present(
                    body.get("conversation"@),
                ) {
                    &&& action is Reject
                    &&& action->Reject_0.status == 400
                    &&& after == metadata
                    &&& held is None
                } else {
                    &&& action == ActionView::Release
                    &&& held is Some
                    &&& held->0.request_body == body
                    &&& held->0.response_id == Some("resp_"@ + response)
                    &&& match body.get("tools"@) {
                        Some(JsonView::Array(tools)) => held->0.tools == tools,
                        _ => held->0.tools.len() == 0,
                    }
                    &&& match body.get("max_tool_calls"@) {
                        Some(JsonView::Number(NumberView::Unsigned(most))) => held->0.max_tool_calls
                            == Some(most),
                        _ => held->0.max_tool_calls is None,
                    }
                    &&& match body.get("include"@) {
                        Some(JsonView::Array(parts)) => forall|i: int|
                            0 <= i < parts.len() && #[trigger] parts[i] is String
                                ==> held->0.include_fields.contains(parts[i]->String_0),
                        _ => held->0.include_fields.len() == 0,
                    }
                    &&& held->0.output.len() == 0 && held->0.usage == JsonView::Null
                        && held->0.sequence == 0 && !held->0.payload_failed
                    &&& tells_request(metadata, after, "resp_"@ + response)
                    &&& match body.get("conversation"@) {
                        Some(JsonView::String(id)) => after["responses.conversation_id"@] == id,
                        Some(named) => match named.get("id"@) {
                            Some(JsonView::String(id)) => after["responses.conversation_id"@] == id,
                            _ => after["responses.conversation_id"@] == "conv_"@ + conversation,
                        },
                        None => after["responses.conversation_id"@] == "conv_"@ + conversation,
                    }
                },
            }
        }),
{
    lemma_metadata_names();
    lemma_error_is_told(400, "invalid_request_error"@, None, "request body is required"@);
    if let Some(Err(message)) = answer {
        lemma_error_is_told(
            400,
            "invalid_request_error"@,
            None,
            "invalid request body: "@ + message,
        );
    }
    assert(policy(metadata, state, method, path) is None);
    if let Some(Ok(body)) = answer {
        let held = initialized(body, "resp_"@ + response);
        if let Some(JsonView::Array(parts)) = body.get("include"@) {
            lemma_texts_are_kept(parts);
        } else {
            assert(items_of(body, "include"@) == Seq::<JsonView>::empty());
        }
    }
}

/// Every text of a list is among its texts.
proof fn lemma_texts_are_kept(items: Seq<JsonView>)
    ensures
        forall|i: int|
            0 <= i < items.len() && #[trigger] items[i] is String ==> texts_of(items).contains(
                items[i]->String_0,
            ),
    decreases items.len(),
{
    if items.len() > 0 {
        let front = items.drop_last();
        lemma_texts_are_kept(front);
        let texts = texts_of(items);
        assert forall|i: int| 0 <= i < items.len() && #[trigger] items[i] is String implies texts.contains(
            items[i]->String_0,
        ) by {
            if i < front.len() {
                assert(front[i] == items[i]);
                let k = choose|k: int|
                    0 <= k < texts_of(front).len() && texts_of(front)[k] == items[i]->String_0;
                assert(texts[k] == items[i]->String_0);
            } else {
                assert(texts[texts.len() - 1] == items[i]->String_0);
            }
        }
    }
}

/// Whether metadata tells of an accepted request: its id, whether it is stored, which
/// it is unless the classifier says no, and whether it is streamed, which it is only
/// where the classifier says so.
pub open spec fn tells_request(
    before: Map<Seq<char>, Seq<char>>,
    after: Map<Seq<char>, Seq<char>>,
    response_id: Seq<char>,
) -> bool {
    &&& after["responses.response_id"@] == response_id
    &&& after.dom().contains("responses.response_id"@)
    &&& after.dom().contains("responses.conversation_id"@)
    &&& after["responses.store"@] == (if before.dom().contains("openai_responses_format.store"@)
        && before["openai_responses_format.store"@] == "false"@ {
        "false"@
    } else {
        "true"@
    })
    &&& after["responses.background"@] == "false"@
    &&& after["responses.stream"@] == (if before.dom().contains("openai_responses_format.stream"@)
        && before["openai_responses_format.stream"@] == "true"@ {
        "true"@
    } else {
        "false"@
    })
}

/// The names of what metadata tells are different.
proof fn lemma_metadata_names()
    ensures
        "responses.response_id"@ != "responses.conversation_id"@,
        "responses.response_id"@ != "responses.store"@,
        "responses.response_id"@ != "responses.background"@,
        "responses.response_id"@ != "responses.stream"@,
        "responses.conversation_id"@ != "responses.store"@,
        "responses.conversation_id"@ != "responses.background"@,
        "responses.conversation_id"@ != "responses.stream"@,
        "responses.store"@ != "responses.background"@,
        "responses.store"@ != "responses.stream"@,
        "responses.background"@ != "responses.stream"@,
{
    reveal_strlit("responses.response_id");
    reveal_strlit("responses.conversation_id");
    reveal_strlit("responses.store");
    reveal_strlit("responses.background");
    reveal_strlit("responses.stream");
    assert("responses.response_id"@.len() == 21);
    assert("responses.conversation_id"@.len() == 25);
    assert("responses.store"@.len() == 15);
    assert("responses.background"@.len() == 20);
    assert("responses.stream"@.len() == 16);
}

/// Reading and deleting have no body, and neither has cancelling a response, with or
/// without a slash at the end of the path; such requests are left alone.
pub proof fn lemma_bodyless_requests_are_left(
    metadata: Map<Seq<char>, Seq<char>>,
    state: Option<StateView>,
    method: Seq<char>,
    path: Seq<char>,
    answer: Option<Result<JsonView, Seq<char>>>,
    id: Seq<char>,
)
    requires
        ({
            ||| method == "GET"@
            ||| method == "DELETE"@
            ||| method == "POST"@ && id.len() > 0 && !id.contains('/') && (path
                == "/v1/responses/"@ + id + "/cancel"@ || path == "/v1/responses/"@ + id
                + "/cancel/"@)
        }),
    ensures
        body_validated(metadata, state, method, path, answer, Seq::empty(), Seq::empty()) == (
            metadata,
            state,
            ActionView::Release,
        ),
        is_bodyless(method, path),
{
    reveal_strlit("/cancel");
    reveal_strlit("/cancel/");
    let bare = "/v1/responses/"@ + id + "/cancel"@;
    assert("/cancel"@.last() == 'l' && "/cancel/"@.last() == '/');
    assert("/cancel/"@.drop_last() =~= "/cancel"@);
    if path == "/v1/responses/"@ + id + "/cancel/"@ {
        assert(path.drop_last() =~= bare);
    }
    if method == "POST"@ && id.len() > 0 && !id.contains('/') && (path == bare || path
        == "/v1/responses/"@ + id + "/cancel/"@) {
        assert(without_slash(path) == cancel_path(id));
    }
}

/// A request that creates a response has a body, and is not cancelled by its path.
pub proof fn lemma_creating_has_a_body()
    ensures
        !is_bodyless("POST"@, "/v1/responses"@),
        !is_bodyless("POST"@, "/v1/responses/"@),
{
    reveal_strlit("POST");
    reveal_strlit("GET");
    reveal_strlit("DELETE");
    reveal_strlit("/v1/responses");
    reveal_strlit("/v1/responses/");
    reveal_strlit("/cancel");
    assert("POST"@.len() == 4 && "GET"@.len() == 3 && "DELETE"@.len() == 6);
    assert("/v1/responses"@.len() == 13 && "/v1/responses/"@.len() == 14);
    assert("/cancel"@.len() == 7);
    let slashed = without_slash("/v1/responses/"@);
    assert(slashed.len() <= 14 && without_slash("/v1/responses"@).len() <= 14);
    assert forall|id: Seq<char>| (#[trigger] cancel_path(id)).len() == id.len() + 21 by {}
    assert(!is_cancel_path(slashed));
    assert(!is_cancel_path(without_slash("/v1/responses"@)));
}

/// What is no Responses request is left alone; one in background mode is refused with
/// status 400, and one that is initialized already is left.
pub proof fn lemma_what_comes_before_parsing(
    metadata: Map<Seq<char>, Seq<char>>,
    state: Option<StateView>,
    method: Seq<char>,
    path: Seq<char>,
    answer: Option<Result<JsonView, Seq<char>>>,
    response: Seq<char>,
    conversation: Seq<char>,
)
    ensures
        ({
            let (after, held, action) = body_validated(
                metadata,
                state,
                method,
                path,
                answer,
                response,
                conversation,
            );
            let named = metadata.dom().contains("openai_responses_format.format"@)
                && metadata["openai_responses_format.format"@] == "openai_responses"@;
            let background = metadata.dom().contains("openai_responses_format.background"@)
                && metadata["openai_responses_format.background"@] == "true"@;
            &&& !named ==> action == ActionView::Release && after == metadata && held == state
            &&& named && !is_bodyless(method, path) && background ==> {
                &&& action is Reject
                &&& tells_error(
                    action->Reject_0,
                    400,
                    "invalid_request_error"@,
                    JsonView::Null,
                    "background mode is not supported"@,
                )
                &&& after == metadata && held == state
            }
            &&& named && !background && state is Some ==> action == ActionView::Release && after
                == metadata && held == state
        }),
{
    lemma_error_is_told(400, "invalid_request_error"@, None, "background mode is not supported"@);
}

/// A request that selects both sources of history is told which two they are.
pub proof fn lemma_conflict_is_told()
    ensures
        tells_error(
            conflict_rejection(),
            400,
            "invalid_request_error"@,
            JsonView::String("mutually_exclusive_parameters"@),
            "Mutually exclusive parameters. Ensure you are only providing one of: 'previous_response_id' or 'conversation'."@,
        ),
{
    lemma_error_is_told(
        400,
        "invalid_request_error"@,
        Some("mutually_exclusive_parameters"@),
        "Mutually exclusive parameters. Ensure you are only providing one of: 'previous_response_id' or 'conversation'."@,
    );
}

} // verus!
