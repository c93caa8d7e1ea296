//! Reasoning translation between Responses and Chat Completions.

use vstd::prelude::*;

use crate::json::{
    items_view, lemma_position_is, no_members, push_item, push_member, string, Json, JsonView,
};
use crate::text::{byte_len, join, same_text, utf8};

verus! {

broadcast use crate::json_model::group_json_view;

/// Default size limit for raw reasoning.
pub const DEFAULT_MAX_REASONING_BYTES: usize = 65536;

/// Backend-specific named reasoning dialect.
#[derive(Clone, Copy, Debug, PartialEq, Eq, Structural)]
pub enum ReasoningDialect {
    /// Portable Chat Completions fields only; summaries are not supported.
    Portable,
    /// `message.reasoning`, and the deprecated `message.reasoning_content`.
    Vllm,
}

impl Default for ReasoningDialect {
    fn default() -> (dialect: Self)
        ensures
            dialect == ReasoningDialect::Portable,
    {
        ReasoningDialect::Portable
    }
}

impl ReasoningDialect {
    /// Whether the dialect exposes safe summaries: none does.
    pub fn supports_safe_summary(self) -> (supported: bool)
        ensures
            !supported,
    {
        false
    }

    /// Whether a backend reasoning contract is active.
    pub fn is_enabled(self) -> (enabled: bool)
        ensures
            enabled == (self == ReasoningDialect::Vllm),
    {
        match self {
            ReasoningDialect::Portable => false,
            ReasoningDialect::Vllm => true,
        }
    }
}

/// Resolved backend-specific reasoning configuration.
#[derive(Clone, Copy, Debug, PartialEq, Eq, Structural)]
pub struct ReasoningOptions {
    /// Selected backend reasoning contract.
    pub dialect: ReasoningDialect,
    /// Maximum raw reasoning size preserved per response.
    pub max_reasoning_bytes: usize,
}

impl Default for ReasoningOptions {
    fn default() -> (options: Self)
        ensures
            options == (ReasoningOptions {
                dialect: ReasoningDialect::Portable,
                max_reasoning_bytes: DEFAULT_MAX_REASONING_BYTES,
            }),
    {
        ReasoningOptions {
            dialect: ReasoningDialect::Portable,
            max_reasoning_bytes: DEFAULT_MAX_REASONING_BYTES,
        }
    }
}

/// Why reasoning could not be translated.
pub enum TranslationError {
    /// The two summary controls ask for different summaries.
    ConflictingReasoningSummary,
    /// A summary control is of the wrong type.
    MalformedReasoningSummary {
        /// The control.
        field: &'static str,
        /// The type that it has.
        actual: &'static str,
    },
    /// The backend gives no summaries.
    UnsupportedReasoningSummary,
    /// Raw reasoning is of the wrong type.
    MalformedReasoning(&'static str),
    /// Raw reasoning is over its size limit.
    ReasoningTooLarge {
        /// The size.
        bytes: usize,
        /// The limit.
        max_bytes: usize,
    },
}

/// The model of a [`TranslationError`].
pub enum ErrorView {
    /// The two summary controls ask for different summaries.
    ConflictingReasoningSummary,
    /// A summary control is of the wrong type: its name, and the type.
    MalformedReasoningSummary(Seq<char>, Seq<char>),
    /// The backend gives no summaries.
    UnsupportedReasoningSummary,
    /// Raw reasoning is of the wrong type.
    MalformedReasoning(Seq<char>),
    /// Raw reasoning is over its size limit: the size, and the limit.
    ReasoningTooLarge(nat, nat),
}

impl View for TranslationError {
    type V = ErrorView;

    open spec fn view(&self) -> ErrorView {
        match *self {
            TranslationError::ConflictingReasoningSummary => ErrorView::ConflictingReasoningSummary,
            TranslationError::MalformedReasoningSummary {
                field,
                actual,
            } => ErrorView::MalformedReasoningSummary(field@, actual@),
            TranslationError::UnsupportedReasoningSummary => ErrorView::UnsupportedReasoningSummary,
            TranslationError::MalformedReasoning(actual) => ErrorView::MalformedReasoning(actual@),
            TranslationError::ReasoningTooLarge {
                bytes,
                max_bytes,
            } => ErrorView::ReasoningTooLarge(bytes as nat, max_bytes as nat),
        }
    }
}

/// The name of a value's type.
pub open spec fn kind_name(value: JsonView) -> Seq<char> {
    match value {
        JsonView::Null => "null"@,
        JsonView::Bool(_) => "boolean"@,
        JsonView::Number(_) => "number"@,
        JsonView::String(_) => "string"@,
        JsonView::Array(_) => "array"@,
        JsonView::Object(_) => "object"@,
    }
}

/// The name of a value's type.
pub fn json_type_name(value: &Json) -> (name: &'static str)
    ensures
        name@ == kind_name(value@),
{
    match value {
        Json::Null => "null",
        Json::Bool(_) => "boolean",
        Json::Number(_) => "number",
        Json::String(_) => "string",
        Json::Array(_) => "array",
        Json::Object(_) => "object",
    }
}

/// A summary control: its text, nothing where it is absent or `null`, and an error
/// where it is anything else.
pub open spec fn control_of(reasoning: JsonView, field: Seq<char>) -> Result<
    Option<Seq<char>>,
    ErrorView,
> {
    match reasoning.get(field) {
        None => Ok(None),
        Some(JsonView::Null) => Ok(None),
        Some(JsonView::String(summary)) => Ok(Some(summary)),
        Some(other) => Err(ErrorView::MalformedReasoningSummary(field, kind_name(other))),
    }
}

/// The summary that is asked for; the deprecated control stands for the same.
pub open spec fn summary_of(reasoning: JsonView) -> Result<Option<Seq<char>>, ErrorView> {
    match (control_of(reasoning, "summary"@), control_of(reasoning, "generate_summary"@)) {
        (Err(error), _) => Err(error),
        (_, Err(error)) => Err(error),
        (Ok(Some(summary)), Ok(Some(generate))) => if summary == generate {
            Ok(Some(summary))
        } else {
            Err(ErrorView::ConflictingReasoningSummary)
        },
        (Ok(Some(summary)), Ok(None)) => Ok(Some(summary)),
        (Ok(None), Ok(generate)) => Ok(generate),
    }
}

/// Whether `result` is the optional text or the error `expected`.
pub open spec fn text_is(
    result: Result<Option<&str>, TranslationError>,
    expected: Result<Option<Seq<char>>, ErrorView>,
) -> bool {
    match result {
        Ok(Some(text)) => expected == Ok::<Option<Seq<char>>, ErrorView>(Some(text@)),
        Ok(None) => expected == Ok::<Option<Seq<char>>, ErrorView>(None),
        Err(error) => expected == Err::<Option<Seq<char>>, ErrorView>(error@),
    }
}

/// Reads a summary control, failing on values that are neither text nor `null`.
fn summary_control<'a>(reasoning: &'a Json, field: &'static str) -> (result: Result<
    Option<&'a str>,
    TranslationError,
>)
    ensures
        text_is(result, control_of(reasoning@, field@)),
{
    match reasoning.get(field) {
        None => Ok(None),
        Some(Json::Null) => Ok(None),
        Some(Json::String(summary)) => Ok(Some(summary.as_str())),
        Some(other) => Err(
            TranslationError::MalformedReasoningSummary { field, actual: json_type_name(other) },
        ),
    }
}

/// Resolves the requested reasoning summary, treating the deprecated control as
/// an alias. Conflicting values are rejected.
pub fn requested_summary(reasoning: &Json) -> (result: Result<Option<&str>, TranslationError>)
    ensures
        text_is(result, summary_of(reasoning@)),
{
    let summary = match summary_control(reasoning, "summary") {
        Ok(summary) => summary,
        Err(error) => return Err(error),
    };
    let generate = match summary_control(reasoning, "generate_summary") {
        Ok(generate) => generate,
        Err(error) => return Err(error),
    };
    match (summary, generate) {
        (Some(summary), Some(generate)) => if same_text(summary, generate) {
            Ok(Some(summary))
        } else {
            Err(TranslationError::ConflictingReasoningSummary)
        },
        (Some(summary), None) => Ok(Some(summary)),
        (None, Some(generate)) => Ok(Some(generate)),
        (None, None) => Ok(None),
    }
}

/// What is wrong with the reasoning that a request asks for: a summary is more
/// than any dialect gives.
pub open spec fn reasoning_error(request: JsonView) -> Option<ErrorView> {
    match request.get("reasoning"@) {
        Some(reasoning) => if reasoning is Object {
            match summary_of(reasoning) {
                Err(error) => Some(error),
                Ok(Some(_)) => Some(ErrorView::UnsupportedReasoningSummary),
                Ok(None) => None,
            }
        } else {
            None
        },
        None => None,
    }
}

/// Validates that a requested reasoning summary is compatible with the dialect.
pub fn validate_requested_reasoning(request: &Json, options: &ReasoningOptions) -> (result: Result<
    (),
    TranslationError,
>)
    ensures
        match result {
            Ok(_) => reasoning_error(request@) is None,
            Err(error) => reasoning_error(request@) == Some(error@),
        },
{
    let reasoning = match request.get("reasoning") {
        Some(reasoning) => reasoning,
        None => return Ok(()),
    };
    if !reasoning.is_object() {
        return Ok(());
    }
    let asked = match requested_summary(reasoning) {
        Ok(summary) => summary.is_some(),
        Err(error) => return Err(error),
    };
    if asked && !options.dialect.supports_safe_summary() {
        return Err(TranslationError::UnsupportedReasoningSummary);
    }
    Ok(())
}

/// Builds a stable reasoning output item id.
pub fn reasoning_item_id(response_id: &str) -> (id: String)
    ensures
        id@ == "rs_"@ + response_id@,
{
    join("rs_", response_id)
}

/// One field of raw reasoning: its text, nothing where it is absent, `null` or
/// empty, and an error where it is anything else.
pub open spec fn raw_field(message: JsonView, field: Seq<char>) -> Result<
    Option<Seq<char>>,
    ErrorView,
> {
    match message.get(field) {
        None => Ok(None),
        Some(JsonView::Null) => Ok(None),
        Some(JsonView::String(text)) => if text.len() == 0 {
            Ok(None)
        } else {
            Ok(Some(text))
        },
        Some(other) => Err(ErrorView::MalformedReasoning(kind_name(other))),
    }
}

/// The raw reasoning of a message: the current field, else the deprecated one.
pub open spec fn raw_reasoning(message: JsonView, dialect: ReasoningDialect) -> Result<
    Option<Seq<char>>,
    ErrorView,
> {
    match dialect {
        ReasoningDialect::Portable => Ok(None),
        ReasoningDialect::Vllm => match raw_field(message, "reasoning"@) {
            Ok(None) => raw_field(message, "reasoning_content"@),
            found => found,
        },
    }
}

/// Reads one field of raw reasoning.
fn read_raw_field<'a>(message: &'a Json, field: &str) -> (result: Result<
    Option<&'a str>,
    TranslationError,
>)
    ensures
        text_is(result, raw_field(message@, field@)),
{
    match message.get(field) {
        None => Ok(None),
        Some(Json::Null) => Ok(None),
        Some(Json::String(text)) => if text.as_str().unicode_len() == 0 {
            Ok(None)
        } else {
            Ok(Some(text.as_str()))
        },
        Some(other) => Err(TranslationError::MalformedReasoning(json_type_name(other))),
    }
}

/// Resolves raw reasoning text from a Chat Completions message for a dialect.
///
/// A dialect without raw reasoning yields nothing.
pub fn resolve_raw_reasoning(message: &Json, dialect: ReasoningDialect) -> (result: Result<
    Option<&str>,
    TranslationError,
>)
    ensures
        text_is(result, raw_reasoning(message@, dialect)),
{
    match dialect {
        ReasoningDialect::Portable => Ok(None),
        ReasoningDialect::Vllm => match read_raw_field(message, "reasoning") {
            Ok(Some(text)) => Ok(Some(text)),
            Ok(None) => read_raw_field(message, "reasoning_content"),
            Err(error) => Err(error),
        },
    }
}

/// A reasoning item with raw reasoning.
pub open spec fn raw_item(id: Seq<char>, status: Seq<char>, text: Seq<char>) -> JsonView {
    JsonView::Object(
        Seq::empty().push(("id"@, JsonView::String(id))).push(
            ("type"@, JsonView::String("reasoning"@)),
        ).push(("status"@, JsonView::String(status))).push(
            ("summary"@, JsonView::Array(Seq::empty())),
        ).push(
            (
                "content"@,
                JsonView::Array(
                    Seq::empty().push(
                        JsonView::Object(
                            Seq::empty().push(
                                ("type"@, JsonView::String("reasoning_text"@)),
                            ).push(("text"@, JsonView::String(text))),
                        ),
                    ),
                ),
            ),
        ),
    )
}

/// Builds a schema-complete reasoning item with raw reasoning.
fn reasoning_item(id: &str, status: &str, text: &str) -> (item: Json)
    ensures
        item@ == raw_item(id@, status@, text@),
{
    let mut part = no_members();
    push_member(&mut part, "type", string("reasoning_text"));
    push_member(&mut part, "text", string(text));
    let mut content: Vec<Json> = Vec::new();
    assert(items_view(content@) =~= Seq::empty());
    push_item(&mut content, Json::Object(part));
    let summary: Vec<Json> = Vec::new();
    assert(items_view(summary@) =~= Seq::empty());
    let mut item = no_members();
    push_member(&mut item, "id", string(id));
    push_member(&mut item, "type", string("reasoning"));
    push_member(&mut item, "status", string(status));
    push_member(&mut item, "summary", Json::Array(summary));
    push_member(&mut item, "content", Json::Array(content));
    Json::Object(item)
}

/// The reasoning item of a message, where it has raw reasoning within the limit.
pub open spec fn extracted(
    message: Option<JsonView>,
    id: Seq<char>,
    status: Seq<char>,
    options: ReasoningOptions,
) -> Result<Option<JsonView>, ErrorView> {
    match message {
        None => Ok(None),
        Some(message) => if message is Object {
            match raw_reasoning(message, options.dialect) {
                Err(error) => Err(error),
                Ok(None) => Ok(None),
                Ok(Some(text)) => if utf8(text).len() > options.max_reasoning_bytes {
                    Err(
                        ErrorView::ReasoningTooLarge(
                            utf8(text).len(),
                            options.max_reasoning_bytes as nat,
                        ),
                    )
                } else {
                    Ok(Some(raw_item(id, status, text)))
                },
            }
        } else {
            Ok(None)
        },
    }
}

/// Builds a Responses reasoning output item from a Chat Completions message.
pub fn extract_reasoning_item(
    message: Option<&Json>,
    reasoning_item_id: &str,
    status: &str,
    options: &ReasoningOptions,
) -> (result: Result<Option<Json>, TranslationError>)
    ensures
        ({
            let expected = extracted(
                match message {
                    Some(message) => Some(message@),
                    None => None,
                },
                reasoning_item_id@,
                status@,
                *options,
            );
            match result {
                Ok(Some(item)) => expected == Ok::<Option<JsonView>, ErrorView>(Some(item@)),
                Ok(None) => expected == Ok::<Option<JsonView>, ErrorView>(None),
                Err(error) => expected == Err::<Option<JsonView>, ErrorView>(error@),
            }
        }),
{
    let message = match message {
        Some(message) => message,
        None => return Ok(None),
    };
    if !message.is_object() {
        return Ok(None);
    }
    let text = match resolve_raw_reasoning(message, options.dialect) {
        Ok(Some(text)) => text,
        Ok(None) => return Ok(None),
        Err(error) => return Err(error),
    };
    let bytes = byte_len(text);
    if bytes > options.max_reasoning_bytes {
        return Err(
            TranslationError::ReasoningTooLarge { bytes, max_bytes: options.max_reasoning_bytes },
        );
    }
    Ok(Some(reasoning_item(reasoning_item_id, status, text)))
}

/// The portable dialect never exposes raw reasoning, whatever the backend sends.
pub proof fn lemma_portable_exposes_nothing(
    message: Option<JsonView>,
    id: Seq<char>,
    status: Seq<char>,
    options: ReasoningOptions,
)
    requires
        options.dialect == ReasoningDialect::Portable,
    ensures
        extracted(message, id, status, options) == Ok::<Option<JsonView>, ErrorView>(None),
{
}

/// Raw reasoning that is passed on is never empty and never over its limit.
pub proof fn lemma_raw_reasoning_is_bounded(
    message: JsonView,
    id: Seq<char>,
    status: Seq<char>,
    options: ReasoningOptions,
)
    requires
        extracted(Some(message), id, status, options) is Ok,
        extracted(Some(message), id, status, options)->Ok_0 is Some,
    ensures
        ({
            let text = raw_reasoning(message, options.dialect)->Ok_0->0;
            &&& text.len() > 0
            &&& utf8(text).len() <= options.max_reasoning_bytes
            &&& extracted(Some(message), id, status, options)->Ok_0 == Some(
                raw_item(id, status, text),
            )
        }),
{
}

/// Whether a field gives no text: it is absent, `null` or empty.
pub open spec fn gives_nothing(message: JsonView, field: Seq<char>) -> bool {
    match message.get(field) {
        None => true,
        Some(JsonView::Null) => true,
        Some(JsonView::String(text)) => text.len() == 0,
        _ => false,
    }
}

/// Whether a message reasons with a text: in the current field, or in the deprecated
/// one where the current one gives nothing.
pub open spec fn reasons_with(message: JsonView, text: Seq<char>) -> bool {
    &&& text.len() > 0
    &&& message.get("reasoning"@) == Some(JsonView::String(text)) || (gives_nothing(
        message,
        "reasoning"@,
    ) && message.get("reasoning_content"@) == Some(JsonView::String(text)))
}

/// Whether an item holds reasoning: its id, its status, no summary, and one part with
/// the whole text.
pub open spec fn holds_reasoning(
    item: JsonView,
    id: Seq<char>,
    status: Seq<char>,
    text: Seq<char>,
) -> bool {
    &&& item.get("id"@) == Some(JsonView::String(id))
    &&& item.get("type"@) == Some(JsonView::String("reasoning"@))
    &&& item.get("status"@) == Some(JsonView::String(status))
    &&& item.get("summary"@) == Some(JsonView::Array(Seq::empty()))
    &&& item.get("content"@) is Some
    &&& item.get("content"@)->0 is Array
    &&& item.get("content"@)->0->Array_0.len() == 1
    &&& item.get("content"@)->0->Array_0[0].get("type"@) == Some(
        JsonView::String("reasoning_text"@),
    )
    &&& item.get("content"@)->0->Array_0[0].get("text"@) == Some(JsonView::String(text))
}

/// Raw reasoning is passed on whole: where the dialect has it, a message that reasons
/// with a text within the limit gives an item that holds this very text, one over the
/// limit is refused, and one that gives no text gives no item.
pub proof fn lemma_reasoning_is_passed_on(
    message: JsonView,
    id: Seq<char>,
    status: Seq<char>,
    options: ReasoningOptions,
    text: Seq<char>,
)
    requires
        message is Object,
        options.dialect == ReasoningDialect::Vllm,
    ensures
        ({
            let result = extracted(Some(message), id, status, options);
            &&& reasons_with(message, text) && utf8(text).len() <= options.max_reasoning_bytes ==> {
                &&& result is Ok
                &&& result->Ok_0 is Some
                &&& holds_reasoning(result->Ok_0->0, id, status, text)
            }
            &&& reasons_with(message, text) && utf8(text).len() > options.max_reasoning_bytes
                ==> result == Err::<Option<JsonView>, ErrorView>(
                ErrorView::ReasoningTooLarge(
                    utf8(text).len(),
                    options.max_reasoning_bytes as nat,
                ),
            )
            &&& gives_nothing(message, "reasoning"@) && gives_nothing(message, "reasoning_content"@)
                ==> result == Ok::<Option<JsonView>, ErrorView>(None)
        }),
{
    reveal_strlit("id");
    reveal_strlit("type");
    reveal_strlit("status");
    reveal_strlit("summary");
    reveal_strlit("content");
    reveal_strlit("text");
    assert("id"@.len() == 2 && "type"@.len() == 4 && "status"@.len() == 6);
    assert("summary"@.len() == 7 && "content"@.len() == 7 && "text"@.len() == 4);
    assert("summary"@[0] == 's' && "content"@[0] == 'c');
    assert("text"@[1] == 'e' && "type"@[1] == 'y');
    let item = raw_item(id, status, text);
    let members = item->Object_0;
    lemma_position_is(members, "id"@, 0);
    lemma_position_is(members, "type"@, 1);
    lemma_position_is(members, "status"@, 2);
    lemma_position_is(members, "summary"@, 3);
    lemma_position_is(members, "content"@, 4);
    let part = item.get("content"@)->0->Array_0[0]->Object_0;
    lemma_position_is(part, "type"@, 0);
    lemma_position_is(part, "text"@, 1);
    assert(holds_reasoning(item, id, status, text));
}

/// Whether a summary control asks for nothing.
pub open spec fn asks_for_no_summary(reasoning: JsonView, field: Seq<char>) -> bool {
    reasoning.get(field) is None || reasoning.get(field) == Some(JsonView::Null)
}

/// Whether a summary control is of the wrong type.
pub open spec fn is_malformed_control(reasoning: JsonView, field: Seq<char>) -> bool {
    !asks_for_no_summary(reasoning, field) && !(reasoning.get(field)->0 is String)
}

/// A request is refused for its reasoning exactly where one of the two summary
/// controls asks for something; two that differ conflict, and one of the wrong type is
/// malformed.
pub proof fn lemma_summaries_are_refused(request: JsonView, reasoning: JsonView)
    requires
        request.get("reasoning"@) == Some(reasoning),
        reasoning is Object,
    ensures
        ({
            let error = reasoning_error(request);
            &&& error is None <==> asks_for_no_summary(reasoning, "summary"@)
                && asks_for_no_summary(reasoning, "generate_summary"@)
            &&& error is Some ==> match error->0 {
                ErrorView::MalformedReasoningSummary(field, _) => is_malformed_control(
                    reasoning,
                    field,
                ),
                ErrorView::ConflictingReasoningSummary => {
                    &&& reasoning.get("summary"@) is Some
                    &&& reasoning.get("generate_summary"@) is Some
                    &&& reasoning.get("summary"@) != reasoning.get("generate_summary"@)
                },
                ErrorView::UnsupportedReasoningSummary => {
                    &&& !is_malformed_control(reasoning, "summary"@)
                    &&& !is_malformed_control(reasoning, "generate_summary"@)
                },
                _ => false,
            }
        }),
{
}

} // verus!
