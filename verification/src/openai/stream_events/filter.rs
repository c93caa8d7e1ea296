//! The filter that accumulates state from native Responses event streams and,
//! where asked for, normalizes successive inference rounds into one lifecycle.

use vstd::prelude::*;

use crate::collections::{text_at, texts_of_map, TextMap};
use crate::filter::{BodyAccess, BodyMode};
use crate::filter_results::published_view;
use crate::header::{header_value_text, is_visible, visible_text};
use crate::json::{no_members, push_member, string, unsigned, Json, JsonView};
use crate::openai::sse::{EventView, ParseErrorView, SseParserConfig};
use crate::openai::state::{texts_view, ResponsesState, StateView};
use crate::openai::stream_events::chunks::{
    check_timeout, chunk_accumulated, is_timed_out, parse_and_accumulate, remaining_time,
    time_left,
};
use crate::openai::stream_events::config::{
    config_error, limits_of, parser_config_of, StreamEventsConfig,
};
use crate::openai::stream_events::emission::{
    finalize_logical_round, finalized, optional_body, optional_json, optional_state,
};
use crate::openai::stream_events::logical::{events_bytes, number};
use crate::openai::stream_events::parser_state::{
    fresh_parser, AccumulationLimits, CompletionState, ParserView, StreamEventsState,
};
use crate::text::{
    ascii_lower, chars_of, same_text, string_between, to_lowercase_ascii, trim, trimmed,
};

verus! {

broadcast use crate::json_model::group_json_view;

/// What the filter reads and changes of a request.
pub struct StreamContext {
    /// The state of the request.
    pub state: Option<ResponsesState>,
    /// The parser state of the current round, while the filter is armed.
    pub parser: Option<StreamEventsState>,
    /// Metadata of the request.
    pub metadata: TextMap<String>,
    /// Results that filters published, by filter.
    pub filter_results: TextMap<TextMap<String>>,
    /// Names of request headers that are not sent upstream.
    pub request_headers_to_remove: Vec<String>,
}

/// The model of a [`StreamContext`].
#[verifier::ext_equal]
pub struct ContextView {
    /// The state of the request.
    pub state: Option<StateView>,
    /// The parser state of the current round.
    pub parser: Option<ParserView>,
    /// Metadata of the request.
    pub metadata: Map<Seq<char>, Seq<char>>,
    /// Results that filters published, by filter.
    pub results: Map<Seq<char>, Map<Seq<char>, Seq<char>>>,
    /// Names of request headers that are not sent upstream.
    pub removed: Seq<Seq<char>>,
}

/// The model of an optional parser state.
pub open spec fn optional_parser(parser: Option<StreamEventsState>) -> Option<ParserView> {
    match parser {
        Some(parser) => Some(parser@),
        None => None,
    }
}

impl View for StreamContext {
    type V = ContextView;

    open spec fn view(&self) -> ContextView {
        ContextView {
            state: optional_state(self.state),
            parser: optional_parser(self.parser),
            metadata: texts_of_map(self.metadata@),
            results: published_view(self.filter_results@),
            removed: texts_view(self.request_headers_to_remove@),
        }
    }
}

impl StreamContext {
    /// A context that holds nothing.
    pub fn new() -> (context: Self)
        ensures
            context@ == (ContextView {
                state: None,
                parser: None,
                metadata: Map::empty(),
                results: Map::empty(),
                removed: Seq::empty(),
            }),
    {
        let context = StreamContext {
            state: None,
            parser: None,
            metadata: TextMap::new(),
            filter_results: TextMap::new(),
            request_headers_to_remove: Vec::new(),
        };
        assert(context@ =~= ContextView {
            state: None,
            parser: None,
            metadata: Map::empty(),
            results: Map::empty(),
            removed: Seq::empty(),
        });
        context
    }

    /// Gives the metadata key `key` the text `value`.
    pub fn set_metadata(&mut self, key: &str, value: &str)
        ensures
            final(self)@ == (ContextView {
                metadata: old(self)@.metadata.insert(key@, value@),
                ..old(self)@
            }),
    {
        self.metadata.put_text(key, value);
    }

    /// The text of the metadata key `key`.
    pub fn get_metadata(&self, key: &str) -> (text: Option<&str>)
        ensures
            match text {
                Some(text) => text_at(self@.metadata, key@) == Some(text@),
                None => text_at(self@.metadata, key@) is None,
            },
    {
        self.metadata.text(key)
    }
}

/// Whether a metadata key has the text `value`.
fn metadata_is(context: &StreamContext, key: &str, value: &str) -> (same: bool)
    ensures
        same == (text_at(context@.metadata, key@) == Some(value@)),
{
    match context.get_metadata(key) {
        Some(text) => same_text(text, value),
        None => false,
    }
}

/// Whether a filter published the result `value` under `key`.
pub open spec fn result_is(
    results: Map<Seq<char>, Map<Seq<char>, Seq<char>>>,
    filter: Seq<char>,
    key: Seq<char>,
    value: Seq<char>,
) -> bool {
    results.dom().contains(filter) && text_at(results[filter], key) == Some(value)
}

/// Whether a filter asked for another inference round.
fn asks_for_loop(context: &StreamContext, filter: &str) -> (asks: bool)
    ensures
        asks == result_is(context@.results, filter@, "action"@, "loop"@),
{
    match context.filter_results.get(filter) {
        Some(results) => match results.text("action") {
            Some(action) => same_text(action, "loop"),
            None => false,
        },
        None => false,
    }
}

/// Whether a dispatch filter requested another inference round.
pub open spec fn continues(context: ContextView) -> bool {
    result_is(context.results, "openai_mcp_dispatch"@, "action"@, "loop"@) || result_is(
        context.results,
        "openai_web_search"@,
        "action"@,
        "loop"@,
    )
}

/// Whether a dispatch filter requested another inference round.
pub fn logical_stream_continues(context: &StreamContext) -> (more: bool)
    ensures
        more == continues(context@),
{
    asks_for_loop(context, "openai_mcp_dispatch") || asks_for_loop(context, "openai_web_search")
}

/// The payload of an error event.
pub open spec fn error_payload(code: Seq<char>, message: Seq<char>) -> JsonView {
    JsonView::Object(
        Seq::empty().push(("type"@, JsonView::String("error"@))).push(
            ("code"@, JsonView::String(code)),
        ).push(("message"@, JsonView::String(message))).push(("param"@, JsonView::Null)).push(
            ("sequence_number"@, number(0)),
        ),
    )
}

/// Builds the payload of an error event.
pub fn responses_error_sse_payload(code: &str, message: &str) -> (payload: Json)
    ensures
        payload@ == error_payload(code@, message@),
{
    let mut object = no_members();
    push_member(&mut object, "type", string("error"));
    push_member(&mut object, "code", string(code));
    push_member(&mut object, "message", string(message));
    push_member(&mut object, "param", Json::Null);
    push_member(&mut object, "sequence_number", unsigned(0));
    Json::Object(object)
}

/// The error that ends a stream that was already committed.
pub open spec fn stream_error(metadata: Map<Seq<char>, Seq<char>>) -> Option<JsonView> {
    match (
        text_at(metadata, "responses.stream_error_code"@),
        text_at(metadata, "responses.stream_error_message"@),
    ) {
        (Some(code), Some(message)) => Some(error_payload(code, message)),
        _ => None,
    }
}

/// Returns a locally generated terminal error for an already-committed stream.
pub fn logical_stream_error(context: &StreamContext) -> (error: Option<Json>)
    ensures
        optional_json(error) == stream_error(context@.metadata),
{
    let code = context.get_metadata("responses.stream_error_code")?;
    let message = context.get_metadata("responses.stream_error_message")?;
    Some(responses_error_sse_payload(code, message))
}

/// The metadata that makes a logical stream end with the given error and keeps
/// its result out of the store.
pub open spec fn with_stream_error(
    metadata: Map<Seq<char>, Seq<char>>,
    message: Seq<char>,
) -> Map<Seq<char>, Seq<char>> {
    metadata.insert("responses.stream_error_code"@, "server_error"@).insert(
        "responses.stream_error_message"@,
        message,
    ).insert("responses.skip_persist"@, "true"@)
}

/// Makes a logical stream end with the given error.
pub(crate) fn set_stream_error(context: &mut StreamContext, message: &str)
    ensures
        final(context)@ == (ContextView {
            metadata: with_stream_error(old(context)@.metadata, message@),
            ..old(context)@
        }),
{
    context.set_metadata("responses.stream_error_code", "server_error");
    context.set_metadata("responses.stream_error_message", message);
    context.set_metadata("responses.skip_persist", "true");
}

/// The name under which a completion state is published.
pub open spec fn completion_name(completion: CompletionState) -> Seq<char> {
    match completion {
        CompletionState::Open => "open"@,
        CompletionState::TerminalLifecycle => "terminal"@,
        CompletionState::Error => "error"@,
    }
}

/// A body, where it holds any bytes.
pub open spec fn body_of(bytes: Seq<u8>) -> Option<Seq<u8>> {
    if bytes.len() == 0 {
        None
    } else {
        Some(bytes)
    }
}

/// The context and the body once a chunk was parsed with the given outcome.
pub open spec fn result_handled(
    context: ContextView,
    body: Option<Seq<u8>>,
    parser: ParserView,
    result: Result<Seq<EventView>, ParseErrorView>,
) -> (ContextView, Option<Seq<u8>>) {
    match result {
        Ok(events) => (
            ContextView {
                metadata: context.metadata.insert(
                    "responses.stream_completion"@,
                    completion_name(parser.completion),
                ),
                ..context
            },
            if parser.logical {
                body_of(events_bytes(events))
            } else {
                body
            },
        ),
        Err(_) => {
            let noted = context.metadata.insert("responses.stream_parse_error"@, "true"@);
            if parser.logical {
                (
                    ContextView {
                        metadata: with_stream_error(
                            noted,
                            "upstream Responses stream could not be parsed"@,
                        ),
                        ..context
                    },
                    None,
                )
            } else {
                (ContextView { metadata: noted, ..context }, body)
            }
        },
    }
}

/// The parser at the time of its first chunk.
pub open spec fn started(parser: ParserView, now: u64) -> ParserView {
    ParserView {
        started_at: match parser.started_at {
            Some(earlier) => Some(earlier),
            None => Some(now),
        },
        ..parser
    }
}

/// The context and the body once a chunk was processed.
pub open spec fn chunk_processed(context: ContextView, body: Option<Seq<u8>>, now: u64) -> (
    ContextView,
    Option<Seq<u8>>,
) {
    match (body, context.parser) {
        (Some(bytes), Some(parser)) => {
            let (held, state, metadata, result) = chunk_accumulated(
                started(parser, now),
                context.state,
                context.metadata,
                bytes,
                now,
            );
            let (after, shown) = result_handled(
                ContextView { state, metadata, ..context },
                body,
                held,
                result,
            );
            (ContextView { parser: Some(held), ..after }, shown)
        },
        _ => (context, body),
    }
}

/// Publishes parser state and rewrites logical-stream output when needed.
fn publish_chunk(
    context: &mut StreamContext,
    completion: CompletionState,
    logical: bool,
    output: Vec<u8>,
    body: &mut Option<Vec<u8>>,
)
    ensures
        final(context)@ == (ContextView {
            metadata: old(context)@.metadata.insert(
                "responses.stream_completion"@,
                completion_name(completion),
            ),
            ..old(context)@
        }),
        optional_body(*final(body)) == (if logical {
            body_of(output@)
        } else {
            optional_body(*old(body))
        }),
{
    let name = match completion {
        CompletionState::Open => "open",
        CompletionState::TerminalLifecycle => "terminal",
        CompletionState::Error => "error",
    };
    context.set_metadata("responses.stream_completion", name);
    if logical {
        *body = if output.len() == 0 {
            None
        } else {
            Some(output)
        };
    }
}

/// Records a parse failure and suppresses unnormalized logical-stream bytes.
fn handle_parse_error(context: &mut StreamContext, logical: bool, body: &mut Option<Vec<u8>>)
    ensures
        final(context)@ == (ContextView {
            metadata: if logical {
                with_stream_error(
                    old(context)@.metadata.insert("responses.stream_parse_error"@, "true"@),
                    "upstream Responses stream could not be parsed"@,
                )
            } else {
                old(context)@.metadata.insert("responses.stream_parse_error"@, "true"@)
            },
            ..old(context)@
        }),
        optional_body(*final(body)) == (if logical {
            None
        } else {
            optional_body(*old(body))
        }),
{
    context.set_metadata("responses.stream_parse_error", "true");
    if logical {
        set_stream_error(context, "upstream Responses stream could not be parsed");
        *body = None;
    }
}

/// Parses the frames of a chunk, accumulating state and optionally normalizing
/// output.
pub fn process_chunk(context: &mut StreamContext, body: &mut Option<Vec<u8>>, now: u64)
    ensures
        final(context)@ == chunk_processed(old(context)@, optional_body(*old(body)), now).0,
        optional_body(*final(body)) == chunk_processed(
            old(context)@,
            optional_body(*old(body)),
            now,
        ).1,
{
    let ghost before = context@;
    let ghost given = optional_body(*body);
    if body.is_none() {
        return;
    }
    let mut parser = match context.parser.take() {
        Some(parser) => parser,
        None => return,
    };
    let ghost held = parser@;
    if parser.started_at.is_none() {
        parser.started_at = Some(now);
    }
    assert(parser@ =~= started(held, now));
    let parsed = match body {
        Some(bytes) => parse_and_accumulate(
            &mut parser,
            &mut context.state,
            &mut context.metadata,
            bytes.as_slice(),
            now,
        ),
        None => Ok(Vec::new()),
    };
    match parsed {
        Ok(output) => publish_chunk(
            context,
            parser.completion_state,
            parser.logical_stream,
            output,
            body,
        ),
        Err(_) => handle_parse_error(context, parser.logical_stream, body),
    }
    context.parser = Some(parser);
    assert(context@ =~= chunk_processed(before, given, now).0);
}

/// Whether a stream ended without a terminal event, or too late.
pub open spec fn is_incomplete(parser: ParserView, now: u64) -> bool {
    let checked_at = match parser.completed_at {
        Some(completed_at) => completed_at,
        None => now,
    };
    is_timed_out(parser.started_at, checked_at, parser.timeout_secs) || parser.completion
        == CompletionState::Open
}

/// The metadata once the end of a stream was checked.
pub open spec fn end_checked(
    metadata: Map<Seq<char>, Seq<char>>,
    parser: Option<ParserView>,
    now: u64,
) -> Map<Seq<char>, Seq<char>> {
    match parser {
        Some(parser) => if is_incomplete(parser, now) {
            let noted = metadata.insert("responses.stream_incomplete"@, "true"@);
            if parser.logical && text_at(noted, "responses.stream_error_code"@) is None {
                with_stream_error(noted, "upstream Responses stream did not terminate cleanly"@)
            } else {
                noted
            }
        } else {
            metadata
        },
        None => metadata,
    }
}

/// Checks that the stream terminated with a terminal event.
pub fn validate_stream_end(context: &mut StreamContext, now: u64)
    ensures
        final(context)@ == (ContextView {
            metadata: end_checked(old(context)@.metadata, old(context)@.parser, now),
            ..old(context)@
        }),
{
    let ghost before = context@;
    let logical = match &context.parser {
        Some(parser) => {
            let checked_at = match parser.completed_at {
                Some(completed_at) => completed_at,
                None => now,
            };
            let late = check_timeout(parser, checked_at).is_err();
            if late || parser.completion_state == CompletionState::Open {
                Some(parser.logical_stream)
            } else {
                None
            }
        },
        None => None,
    };
    if let Some(logical) = logical {
        context.set_metadata("responses.stream_incomplete", "true");
        if logical && context.get_metadata("responses.stream_error_code").is_none() {
            set_stream_error(context, "upstream Responses stream did not terminate cleanly");
        }
    }
    assert(context@ =~= ContextView {
        metadata: end_checked(before.metadata, before.parser, now),
        ..before
    });
}

/// The context and the body once a round ended.
pub open spec fn round_finalized(context: ContextView, body: Option<Seq<u8>>) -> (
    ContextView,
    Option<Seq<u8>>,
) {
    match context.parser {
        Some(parser) => if parser.logical {
            let (held, state, shown) = finalized(
                parser,
                context.state,
                continues(context),
                stream_error(context.metadata),
            );
            (ContextView { parser: Some(held), state, ..context }, shown)
        } else {
            (context, body)
        },
        None => (context, body),
    }
}

/// Emits the held terminal event only when the current round is the last.
pub fn finalize_logical_stream(context: &mut StreamContext, body: &mut Option<Vec<u8>>)
    ensures
        final(context)@ == round_finalized(old(context)@, optional_body(*old(body))).0,
        optional_body(*final(body)) == round_finalized(
            old(context)@,
            optional_body(*old(body)),
        ).1,
{
    let ghost before = context@;
    let ghost given = optional_body(*body);
    let more = logical_stream_continues(context);
    let error = logical_stream_error(context);
    let mut parser = match context.parser.take() {
        Some(parser) => parser,
        None => return,
    };
    if parser.logical_stream {
        *body = finalize_logical_round(&mut parser, &mut context.state, more, error);
    }
    context.parser = Some(parser);
    assert(context@ =~= round_finalized(before, given).0);
}

/// The time that a stream has left: from now to its deadline. None before its
/// first chunk, and none once the deadline has passed.
pub fn stream_time_left(context: &StreamContext, now: u64) -> (nanos: Option<u128>)
    ensures
        nanos == (match context@.parser {
            Some(parser) => time_left(parser, now),
            None => None,
        }),
{
    match &context.parser {
        Some(parser) => remaining_time(parser, now),
        None => None,
    }
}

/// Whether a request creates a response.
pub open spec fn creates_response(method: Seq<char>, path: Seq<char>) -> bool {
    method == "POST"@ && path == "/v1/responses"@
}

/// Whether a request creates a response.
pub fn is_responses_create(method: &str, path: &str) -> (creates: bool)
    ensures
        creates == creates_response(method@, path@),
{
    same_text(method, "POST") && same_text(path, "/v1/responses")
}

/// The first position of `;` in a text from `from` on, or its end.
pub open spec fn semicolon_at(text: Seq<char>, from: int) -> int
    decreases text.len() - from,
{
    if from >= text.len() || text[from] == ';' {
        from
    } else {
        semicolon_at(text, from + 1)
    }
}

/// The media type of a content type, in lowercase.
pub open spec fn media_type(value: Seq<char>) -> Seq<char> {
    ascii_lower(trimmed(value.take(semicolon_at(value, 0))))
}

/// Whether a content type is that of an event stream; parameters do not count.
pub fn is_event_stream_content_type(value: &str) -> (found: bool)
    ensures
        found == (media_type(value@) == "text/event-stream"@),
{
    let chars = chars_of(value);
    let ghost view = chars@;
    let mut end: usize = 0;
    while end < chars.len() && chars[end] != ';'
        invariant
            view == chars@,
            end <= chars.len(),
            semicolon_at(view, 0) == semicolon_at(view, end as int),
        decreases chars.len() - end,
    {
        end = end + 1;
    }
    let media = trim(string_between(&chars, 0, end).as_str());
    assert(view.subrange(0, end as int) =~= view.take(end as int));
    same_text(to_lowercase_ascii(media.as_str()).as_str(), "text/event-stream")
}

/// What the filter reads of a response's head. Header names are in lowercase.
pub struct ResponseHead {
    /// The HTTP status.
    pub status: u16,
    /// The headers, in order.
    pub headers: Vec<(String, Vec<u8>)>,
}

/// The first header of a name from `from` on.
pub open spec fn header_at(headers: Seq<(String, Vec<u8>)>, name: Seq<char>, from: int) -> Option<
    Seq<u8>,
>
    decreases headers.len() - from,
{
    if from >= headers.len() {
        None
    } else if headers[from].0@ == name {
        Some(headers[from].1@)
    } else {
        header_at(headers, name, from + 1)
    }
}

impl ResponseHead {
    /// The first header of a name.
    pub fn header(&self, name: &str) -> (value: Option<&Vec<u8>>)
        ensures
            match value {
                Some(value) => header_at(self.headers@, name@, 0) == Some(value@),
                None => header_at(self.headers@, name@, 0) is None,
            },
    {
        let mut i: usize = 0;
        while i < self.headers.len()
            invariant
                i <= self.headers.len(),
                header_at(self.headers@, name@, 0) == header_at(self.headers@, name@, i as int),
            decreases self.headers.len() - i,
        {
            if same_text(self.headers[i].0.as_str(), name) {
                return Some(&self.headers[i].1);
            }
            i = i + 1;
        }
        None
    }
}

/// Whether a response is a successful event stream; a response without a head is
/// taken for one.
pub open spec fn is_success_stream(head: Option<ResponseHead>) -> bool {
    match head {
        Some(head) => 200 <= head.status < 300 && match header_at(
            head.headers@,
            "content-type"@,
            0,
        ) {
            Some(value) => is_visible(value) && media_type(visible_text(value))
                == "text/event-stream"@,
            None => false,
        },
        None => true,
    }
}

/// Whether the response is a successful event stream.
pub fn is_success_sse_response(head: &Option<ResponseHead>) -> (success: bool)
    ensures
        success == is_success_stream(*head),
{
    let head = match head {
        Some(head) => head,
        None => return true,
    };
    if head.status < 200 || head.status >= 300 {
        return false;
    }
    match head.header("content-type") {
        Some(value) => match header_value_text(value.as_slice()) {
            Some(text) => is_event_stream_content_type(text.as_str()),
            None => false,
        },
        None => false,
    }
}

/// Whether the upstream response is encoded.
pub open spec fn is_encoded(head: Option<ResponseHead>) -> bool {
    match head {
        Some(head) => header_at(head.headers@, "content-encoding"@, 0) is Some,
        None => false,
    }
}

/// Whether the upstream response advertises a content encoding.
///
/// The frame parser consumes raw bytes, so a compressed body would be parsed as
/// opaque data.
pub fn response_is_encoded(head: &Option<ResponseHead>) -> (encoded: bool)
    ensures
        encoded == is_encoded(*head),
{
    match head {
        Some(head) => head.header("content-encoding").is_some(),
        None => false,
    }
}

/// Accumulates state from native Responses event streams.
pub struct OpenaiStreamEventsFilter {
    /// Limits of the frame parser.
    pub parser_config: SseParserConfig,
    /// Limits on what a stream accumulates.
    pub limits: AccumulationLimits,
    /// Normalize successive rounds into one logical stream.
    pub logical_stream: bool,
}

/// The context once the filter was armed for a round.
///
/// The response of the preceding round is dropped: only this round's own terminal
/// event may set it again.
pub open spec fn armed(filter: OpenaiStreamEventsFilter, context: ContextView) -> ContextView {
    let (iteration, offset, state) = match context.state {
        Some(state) => (
            state.iteration,
            state.output.len() as u64,
            Some(StateView { response_object: JsonView::Null, ..state }),
        ),
        None => (0u32, 0u64, None),
    };
    let opened = context.metadata.insert("responses.stream_completion"@, "open"@);
    ContextView {
        state,
        parser: Some(
            fresh_parser(
                filter.parser_config,
                filter.limits,
                filter.logical_stream,
                iteration,
                offset,
            ),
        ),
        metadata: if filter.logical_stream {
            opened.insert("responses.logical_stream"@, "true"@)
        } else {
            opened
        },
        ..context
    }
}

/// Whether the filter takes part in a request: it creates a response, and the
/// answer is streamed.
pub open spec fn takes_part(
    context: ContextView,
    method: Seq<char>,
    path: Seq<char>,
    typed_streaming: bool,
) -> bool {
    creates_response(method, path) && (typed_streaming || (text_at(
        context.metadata,
        "openai_responses_format.format"@,
    ) == Some("openai_responses"@) && text_at(context.metadata, "openai_responses_format.stream"@)
        == Some("true"@)))
}

/// The context once a request was seen.
pub open spec fn requested(
    filter: OpenaiStreamEventsFilter,
    context: ContextView,
    method: Seq<char>,
    path: Seq<char>,
    typed_streaming: bool,
) -> ContextView {
    if takes_part(context, method, path, typed_streaming) {
        let after = armed(filter, context);
        ContextView { removed: after.removed.push("accept-encoding"@), ..after }
    } else {
        context
    }
}

/// The context and the body once a part of a response's body was seen.
pub open spec fn body_seen(
    context: ContextView,
    body: Option<Seq<u8>>,
    end_of_stream: bool,
    now: u64,
) -> (ContextView, Option<Seq<u8>>) {
    if context.parser is None {
        (context, body)
    } else {
        let (after, shown) = chunk_processed(context, body, now);
        if end_of_stream {
            let checked = ContextView {
                metadata: end_checked(after.metadata, after.parser, now),
                ..after
            };
            round_finalized(checked, shown)
        } else {
            (after, shown)
        }
    }
}

impl OpenaiStreamEventsFilter {
    /// Creates a filter from a configuration.
    pub fn from_config(config: &StreamEventsConfig) -> (result: Result<Self, String>)
        ensures
            match result {
                Ok(filter) => config_error(*config) is None && filter.parser_config
                    == parser_config_of(*config) && filter.limits == limits_of(*config)
                    && filter.logical_stream == config.logical_stream,
                Err(message) => config_error(*config) == Some(message@),
            },
    {
        config.validate()?;
        Ok(
            OpenaiStreamEventsFilter {
                parser_config: config.to_parser_config(),
                limits: config.limits(),
                logical_stream: config.logical_stream,
            },
        )
    }

    /// The filter's name.
    pub fn name(&self) -> (name: &'static str)
        ensures
            name@ == "openai_stream_events"@,
    {
        "openai_stream_events"
    }

    /// The filter does not look at the request's body.
    pub fn request_body_access(&self) -> (access: BodyAccess)
        ensures
            access == BodyAccess::Untouched,
    {
        BodyAccess::Untouched
    }

    /// The request's body is not held back.
    pub fn request_body_mode(&self) -> (mode: BodyMode)
        ensures
            mode == BodyMode::Stream,
    {
        BodyMode::Stream
    }

    /// The response's body is not held back.
    pub fn response_body_mode(&self) -> (mode: BodyMode)
        ensures
            mode == BodyMode::Stream,
    {
        BodyMode::Stream
    }

    /// How the filter uses the response's body: it is rewritten only where the
    /// stream is normalized.
    pub fn response_body_access(&self) -> (access: BodyAccess)
        ensures
            access == (if self.logical_stream {
                BodyAccess::ReadWrite
            } else {
                BodyAccess::ReadOnly
            }),
    {
        if self.logical_stream {
            BodyAccess::ReadWrite
        } else {
            BodyAccess::ReadOnly
        }
    }

    /// Whether per-request parser state has been installed.
    pub fn is_armed(context: &StreamContext) -> (armed: bool)
        ensures
            armed == (context@.parser is Some),
    {
        context.parser.is_some()
    }

    /// Installs fresh parser state for one inference round.
    pub fn arm(&self, context: &mut StreamContext)
        ensures
            final(context)@ == armed(*self, old(context)@),
    {
        let ghost before = context@;
        let (iteration, output_index_offset) = match &mut context.state {
            Some(state) => {
                state.response_object = Json::Null;
                (state.iteration, state.accumulated_output.len() as u64)
            },
            None => (0u32, 0u64),
        };
        context.parser = Some(
            StreamEventsState::new(
                self.parser_config,
                self.limits,
                self.logical_stream,
                iteration,
                output_index_offset,
            ),
        );
        context.set_metadata("responses.stream_completion", "open");
        if self.logical_stream {
            context.set_metadata("responses.logical_stream", "true");
        }
        assert(context@ =~= armed(*self, before));
    }

    /// Arms the filter for a streaming request that creates a response, and keeps
    /// the backend from encoding the stream.
    pub fn on_request(
        &self,
        context: &mut StreamContext,
        method: &str,
        path: &str,
        typed_streaming: bool,
    )
        ensures
            final(context)@ == requested(*self, old(context)@, method@, path@, typed_streaming),
    {
        let is_responses = is_responses_create(method, path) && (typed_streaming || metadata_is(
            context,
            "openai_responses_format.format",
            "openai_responses",
        ));
        let is_streaming = typed_streaming || metadata_is(
            context,
            "openai_responses_format.stream",
            "true",
        );
        if is_responses && is_streaming {
            self.arm(context);
            let ghost before = context@;
            context.request_headers_to_remove.push("accept-encoding".to_owned());
            assert(context@ =~= ContextView {
                removed: before.removed.push("accept-encoding"@),
                ..before
            });
        }
    }

    /// Disarms the filter where the response is no successful event stream, or is
    /// encoded.
    pub fn on_response(&self, context: &mut StreamContext, head: &Option<ResponseHead>)
        ensures
            final(context)@ == (ContextView {
                parser: if is_success_stream(*head) && !is_encoded(*head) {
                    old(context)@.parser
                } else {
                    None
                },
                ..old(context)@
            }),
    {
        let ghost before = context@;
        if !Self::is_armed(context) {
            return;
        }
        if !is_success_sse_response(head) || response_is_encoded(head) {
            context.parser = None;
            assert(context@ =~= ContextView { parser: None, ..before });
        }
    }

    /// Takes in a part of the response's body; at its end the stream is checked and
    /// the logical stream is ended or held open.
    pub fn on_response_body(
        &self,
        context: &mut StreamContext,
        body: &mut Option<Vec<u8>>,
        end_of_stream: bool,
        now: u64,
    )
        ensures
            final(context)@ == body_seen(
                old(context)@,
                optional_body(*old(body)),
                end_of_stream,
                now,
            ).0,
            optional_body(*final(body)) == body_seen(
                old(context)@,
                optional_body(*old(body)),
                end_of_stream,
                now,
            ).1,
    {
        if !Self::is_armed(context) {
            return;
        }
        process_chunk(context, body, now);
        if end_of_stream {
            validate_stream_end(context, now);
            finalize_logical_stream(context, body);
        }
    }
}

} // verus!
