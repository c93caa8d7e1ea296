//! What holds of every stream that the filter sees: each frame is an event, each
//! event counts once, and what the filter does not rewrite it leaves alone.

use vstd::prelude::*;

use crate::header::{is_visible, visible_text};
use crate::json::{lemma_position_is, JsonView};
use crate::openai::sse::{
    bytes_taken, event_of, nothing_pending, EventView, FrameView, ParseErrorView,
};
use crate::openai::sse_laws::lemma_bytes_make_lines;
use crate::openai::state::StateView;
use crate::openai::stream_events::accumulation::{
    accumulates_alike, lemma_appending_accumulates_nothing,
};
use crate::openai::stream_events::accumulator::{
    metadata_accumulated, parser_accumulated, state_accumulated,
};
use crate::openai::stream_events::chunks::{
    chunk_parsed, committed, frames_parsed, is_timed_out, may_follow,
};
use crate::openai::stream_events::emission::appended;
use crate::openai::stream_events::filter::{
    armed, body_seen, chunk_processed, continues, end_checked, error_payload, header_at,
    is_encoded, is_success_stream, media_type, requested, result_handled, semicolon_at, started, stream_error,
    with_stream_error, ContextView, OpenaiStreamEventsFilter, ResponseHead,
};
use crate::openai::stream_events::logical::events_bytes;
use crate::openai::stream_events::parser_state::{CompletionState, ParserView};
use crate::text::{ascii_lower, trimmed, utf8};

verus! {

/// How many of the first `n` frames are events, and not the sentinel.
pub open spec fn events_before(frames: Seq<FrameView>, n: int) -> nat
    decreases n,
{
    if n <= 0 {
        0
    } else if frames[n - 1].data == utf8("[DONE]"@) {
        events_before(frames, n - 1)
    } else {
        events_before(frames, n - 1) + 1
    }
}

/// Every frame but the sentinel is an event, one by one and in order, and is counted
/// once. The stream is open until a terminal event or an error comes.
pub proof fn lemma_every_frame_is_an_event(
    parser: ParserView,
    frames: Seq<FrameView>,
    n: int,
    now: u64,
)
    requires
        0 <= n <= frames.len(),
        frames_parsed(parser, frames, n, now).1 is Ok,
        parser.event_count + events_before(frames, n) <= usize::MAX,
    ensures
        ({
            let (after, result) = frames_parsed(parser, frames, n, now);
            let events = result->Ok_0;
            &&& events.len() == events_before(frames, n)
            &&& forall|i: int|
                0 <= i < n && (#[trigger] frames[i]).data != utf8("[DONE]"@) ==> event_of(frames[i])
                    == Ok::<EventView, ParseErrorView>(events[events_before(frames, i) as int])
                    && events_before(frames, i) < events.len()
            &&& after.event_count == parser.event_count + events_before(frames, n)
            &&& after.logical == parser.logical && after.offset == parser.offset && after.args
                == parser.args
            &&& after.completion == CompletionState::Open ==> forall|k: int|
                0 <= k < events.len() ==> {
                    let kind = (#[trigger] events[k]).event_type;
                    kind != "error"@ && kind != "response.completed"@ && kind
                        != "response.incomplete"@ && kind != "response.failed"@
                }
            &&& after.completion != CompletionState::Open && parser.completion
                == CompletionState::Open ==> exists|k: int|
                0 <= k < events.len() && {
                    let kind = (#[trigger] events[k]).event_type;
                    kind == "error"@ || kind == "response.completed"@ || kind
                        == "response.incomplete"@ || kind == "response.failed"@
                }
        }),
    decreases n,
{
    lemma_bytes_make_lines(nothing_pending(), 0);
    if n > 0 {
        let (held, earlier) = frames_parsed(parser, frames, n - 1, now);
        lemma_every_frame_is_an_event(parser, frames, n - 1, now);
        let front = earlier->Ok_0;
        let (after, result) = frames_parsed(parser, frames, n, now);
        let events = result->Ok_0;
        assert forall|i: int| 0 <= i < n && (#[trigger] frames[i]).data != utf8(
            "[DONE]"@,
        ) implies event_of(frames[i]) == Ok::<EventView, ParseErrorView>(
            events[events_before(frames, i) as int],
        ) && events_before(frames, i) < events.len() by {
            if i < n - 1 {
                assert(front[events_before(frames, i) as int] == events[events_before(
                    frames,
                    i,
                ) as int]);
            }
        }
        assert forall|k: int| 0 <= k < front.len() implies front[k] == #[trigger] events[k] by {}
        if after.completion != CompletionState::Open && parser.completion == CompletionState::Open {
            if held.completion != CompletionState::Open {
                let k = choose|k: int|
                    0 <= k < front.len() && {
                        let kind = (#[trigger] front[k]).event_type;
                        kind == "error"@ || kind == "response.completed"@ || kind
                            == "response.incomplete"@ || kind == "response.failed"@
                    };
                assert(events[k] == front[k]);
            } else {
                assert(events[front.len() as int] == events.last());
            }
        }
        if after.completion == CompletionState::Open {
            assert(held.completion == CompletionState::Open);
        }
    }
}

/// A stream that is not normalized reaches the client byte by byte, and nothing that
/// the filter accumulates of it is shown.
pub proof fn lemma_plain_stream_is_left(
    context: ContextView,
    body: Option<Seq<u8>>,
    end_of_stream: bool,
    now: u64,
)
    requires
        match context.parser {
            Some(parser) => !parser.logical,
            None => true,
        },
    ensures
        body_seen(context, body, end_of_stream, now).1 == body,
        context.parser is None ==> body_seen(context, body, end_of_stream, now).0 == context,
{
    if let Some(parser) = context.parser {
        lemma_chunk_keeps_mode(context, body, now);
    }
}

/// A chunk does not change whether a stream is normalized.
proof fn lemma_chunk_keeps_mode(context: ContextView, body: Option<Seq<u8>>, now: u64)
    requires
        context.parser is Some,
        !context.parser->0.logical,
    ensures
        ({
            let (after, shown) = chunk_processed(context, body, now);
            &&& shown == body
            &&& after.parser is Some
            &&& !after.parser->0.logical
        }),
{
    if let Some(bytes) = body {
        let parser = started(context.parser->0, now);
        let (held, result) = chunk_parsed(parser, bytes, now);
        if let Some((pending, frames)) = bytes_taken(parser.pending, bytes, parser.limit) {
            lemma_frames_keep_mode(
                ParserView { pending, ..parser },
                frames,
                frames.len() as int,
                now,
            );
        }
        if let Ok(events) = result {
            lemma_plain_commit(held, context.state, context.metadata, events, events.len() as int);
        }
    }
}

/// Parsing frames does not change whether a stream is normalized.
proof fn lemma_frames_keep_mode(parser: ParserView, frames: Seq<FrameView>, n: int, now: u64)
    ensures
        frames_parsed(parser, frames, n, now).0.logical == parser.logical,
    decreases n,
{
    if n > 0 {
        lemma_frames_keep_mode(parser, frames, n - 1, now);
    }
}

/// Committing events of a stream that is not normalized shows nothing.
proof fn lemma_plain_commit(
    parser: ParserView,
    state: Option<StateView>,
    metadata: Map<Seq<char>, Seq<char>>,
    events: Seq<EventView>,
    n: int,
)
    requires
        !parser.logical,
    ensures
        !committed(parser, state, metadata, events, n).0.logical,
        committed(parser, state, metadata, events, n).3.len() == 0,
    decreases n,
{
    if n > 0 {
        lemma_plain_commit(parser, state, metadata, events, n - 1);
    }
}

/// A round begins fresh: its parser holds nothing and is open, counts its output from
/// that of all rounds before it, and the response of the round before is dropped, while
/// everything else of the state stays.
pub proof fn lemma_round_begins_fresh(filter: OpenaiStreamEventsFilter, context: ContextView)
    ensures
        ({
            let after = armed(filter, context);
            &&& after.parser is Some
            &&& after.parser->0.completion == CompletionState::Open
            &&& after.parser->0.event_count == 0
            &&& after.parser->0.args == Map::<Seq<char>, Seq<char>>::empty()
            &&& after.parser->0.deferred is None
            &&& after.parser->0.started_at is None
            &&& after.parser->0.logical == filter.logical_stream
            &&& after.parser->0.max_events == filter.parser_config.max_events
            &&& after.parser->0.limit == filter.parser_config.max_buffer_bytes
            &&& after.parser->0.timeout_secs == filter.parser_config.timeout_secs
            &&& match context.state {
                Some(state) => {
                    &&& after.state == Some(
                        StateView { response_object: JsonView::Null, ..state },
                    )
                    &&& state.output.len() <= u64::MAX ==> after.parser->0.offset
                        == state.output.len()
                    &&& after.parser->0.iteration == state.iteration
                },
                None => after.state is None && after.parser->0.offset == 0,
            }
            &&& after.metadata.dom().contains("responses.stream_completion"@)
            &&& filter.logical_stream ==> after.metadata.dom().contains(
                "responses.logical_stream"@,
            ) && after.metadata["responses.logical_stream"@] == "true"@
            &&& after.results == context.results && after.removed == context.removed
        }),
{
}

/// The filter takes part in a request exactly where it creates a response whose answer
/// is streamed, and then keeps the backend from encoding the stream.
pub proof fn lemma_streams_are_taken_part_in(
    filter: OpenaiStreamEventsFilter,
    context: ContextView,
    method: Seq<char>,
    path: Seq<char>,
    typed: bool,
)
    ensures
        ({
            let after = requested(filter, context, method, path, typed);
            let classified = context.metadata.dom().contains("openai_responses_format.format"@)
                && context.metadata["openai_responses_format.format"@] == "openai_responses"@
                && context.metadata.dom().contains("openai_responses_format.stream"@)
                && context.metadata["openai_responses_format.stream"@] == "true"@;
            if method == "POST"@ && path == "/v1/responses"@ && (typed || classified) {
                &&& after.parser is Some
                &&& after.removed == context.removed.push("accept-encoding"@)
            } else {
                after == context
            }
        }),
{
}

/// Another round follows exactly where one of the two dispatch filters asks for it.
pub proof fn lemma_who_asks_for_a_round(context: ContextView)
    ensures
        continues(context) <==> {
            ||| context.results.dom().contains("openai_mcp_dispatch"@)
                && context.results["openai_mcp_dispatch"@].dom().contains("action"@)
                && context.results["openai_mcp_dispatch"@]["action"@] == "loop"@
            ||| context.results.dom().contains("openai_web_search"@)
                && context.results["openai_web_search"@].dom().contains("action"@)
                && context.results["openai_web_search"@]["action"@] == "loop"@
        },
{
}

/// The error of a stream carries the code and the message that were set for it.
pub proof fn lemma_error_carries_message(
    metadata: Map<Seq<char>, Seq<char>>,
    message: Seq<char>,
)
    ensures
        ({
            let after = with_stream_error(metadata, message);
            let error = stream_error(after);
            &&& error is Some
            &&& error->0.get("type"@) == Some(JsonView::String("error"@))
            &&& error->0.get("code"@) == Some(JsonView::String("server_error"@))
            &&& error->0.get("message"@) == Some(JsonView::String(message))
            &&& after.dom().contains("responses.skip_persist"@)
            &&& after["responses.skip_persist"@] == "true"@
        }),
        ({
            let code = metadata["responses.stream_error_code"@];
            let text = metadata["responses.stream_error_message"@];
            if metadata.dom().contains("responses.stream_error_code"@) && metadata.dom().contains(
                "responses.stream_error_message"@,
            ) {
                &&& stream_error(metadata) is Some
                &&& stream_error(metadata)->0.get("code"@) == Some(JsonView::String(code))
                &&& stream_error(metadata)->0.get("message"@) == Some(JsonView::String(text))
            } else {
                stream_error(metadata) is None
            }
        }),
{
    reveal_strlit("responses.stream_error_code");
    reveal_strlit("responses.stream_error_message");
    reveal_strlit("responses.skip_persist");
    assert("responses.stream_error_code"@.len() == 27);
    assert("responses.stream_error_message"@.len() == 30);
    assert("responses.skip_persist"@.len() == 22);
    lemma_error_members("server_error"@, message);
    lemma_error_members(
        metadata["responses.stream_error_code"@],
        metadata["responses.stream_error_message"@],
    );
}

/// The members of an error's payload.
proof fn lemma_error_members(code: Seq<char>, message: Seq<char>)
    ensures
        error_payload(code, message).get("type"@) == Some(JsonView::String("error"@)),
        error_payload(code, message).get("code"@) == Some(JsonView::String(code)),
        error_payload(code, message).get("message"@) == Some(JsonView::String(message)),
{
    reveal_strlit("type");
    reveal_strlit("code");
    reveal_strlit("message");
    assert("type"@.len() == 4 && "code"@.len() == 4 && "message"@.len() == 7);
    assert("code"@[0] == 'c' && "type"@[0] == 't');
    let members = error_payload(code, message)->Object_0;
    lemma_position_is(members, "type"@, 0);
    lemma_position_is(members, "code"@, 1);
    lemma_position_is(members, "message"@, 2);
}

/// A chunk that cannot be parsed is told; a normalized stream then shows nothing of it
/// and ends with an error, and one that is not normalized is shown as it is. A chunk
/// that can be parsed is told with the completion that the stream has reached.
pub proof fn lemma_chunk_is_told(
    context: ContextView,
    body: Option<Seq<u8>>,
    parser: ParserView,
    result: Result<Seq<EventView>, ParseErrorView>,
)
    ensures
        ({
            let (after, shown) = result_handled(context, body, parser, result);
            &&& result is Err ==> {
                &&& parser.logical ==> shown is None && stream_error(after.metadata) is Some
                &&& !parser.logical ==> shown == body && after.metadata
                    == context.metadata.insert("responses.stream_parse_error"@, "true"@)
                &&& after.metadata.dom().contains("responses.stream_parse_error"@)
            }
            &&& result is Ok ==> {
                &&& parser.logical ==> match shown {
                    Some(bytes) => bytes == events_bytes(result->Ok_0) && bytes.len() > 0,
                    None => events_bytes(result->Ok_0).len() == 0,
                }
                &&& !parser.logical ==> shown == body
                &&& after.metadata == context.metadata.insert(
                    "responses.stream_completion"@,
                    after.metadata["responses.stream_completion"@],
                )
                &&& parser.completion == CompletionState::Open
                    ==> after.metadata["responses.stream_completion"@] == "open"@
                &&& parser.completion == CompletionState::TerminalLifecycle
                    ==> after.metadata["responses.stream_completion"@] == "terminal"@
                &&& parser.completion == CompletionState::Error
                    ==> after.metadata["responses.stream_completion"@] == "error"@
            }
            &&& after == (ContextView { metadata: after.metadata, ..context })
        }),
{
    if result is Err {
        lemma_error_carries_message(
            context.metadata.insert("responses.stream_parse_error"@, "true"@),
            "upstream Responses stream could not be parsed"@,
        );
    }
}

/// A stream that ends while it is open is told as incomplete, and a normalized one ends
/// with an error, the first one that there was.
pub proof fn lemma_open_end_is_told(
    metadata: Map<Seq<char>, Seq<char>>,
    parser: ParserView,
    now: u64,
)
    requires
        parser.completion == CompletionState::Open,
    ensures
        ({
            let after = end_checked(metadata, Some(parser), now);
            &&& after.dom().contains("responses.stream_incomplete"@)
            &&& after["responses.stream_incomplete"@] == "true"@
            &&& parser.logical ==> after.dom().contains("responses.stream_error_code"@)
            &&& metadata.dom().contains("responses.stream_error_code"@)
                ==> after["responses.stream_error_code"@]
                == metadata["responses.stream_error_code"@]
        }),
{
    reveal_strlit("responses.stream_error_code");
    reveal_strlit("responses.stream_error_message");
    reveal_strlit("responses.skip_persist");
    reveal_strlit("responses.stream_incomplete");
    assert("responses.stream_error_code"@.len() == 27);
    assert("responses.stream_error_message"@.len() == 30);
    assert("responses.skip_persist"@.len() == 22);
    assert("responses.stream_incomplete"@.len() == 27);
    assert("responses.stream_incomplete"@[17] == 'i' && "responses.stream_error_code"@[17] == 'e');
}

/// A stream that reached its end in time is told of nothing.
pub proof fn lemma_timely_end_changes_nothing(
    metadata: Map<Seq<char>, Seq<char>>,
    parser: ParserView,
    now: u64,
)
    requires
        parser.completion != CompletionState::Open,
        parser.started_at is Some,
        parser.completed_at is Some,
        parser.completed_at->0 - parser.started_at->0 <= parser.timeout_secs * 1000000000,
    ensures
        end_checked(metadata, Some(parser), now) == metadata,
{
}

/// The parameters of a media type do not count, nor does the case of its letters or
/// white space around it.
pub proof fn lemma_parameters_do_not_count(media: Seq<char>, parameters: Seq<char>)
    requires
        !media.contains(';'),
    ensures
        media_type(media + seq![';'] + parameters) == ascii_lower(trimmed(media)),
        media_type(media) == ascii_lower(trimmed(media)),
{
    let value = media + seq![';'] + parameters;
    assert forall|i: int| 0 <= i < media.len() implies value[i] != ';' && media[i] != ';' by {
        if media[i] == ';' {
            assert(media.contains(';'));
        }
    }
    lemma_semicolon(value, media.len() as int, 0);
    lemma_semicolon(media, media.len() as int, 0);
    assert(value.take(media.len() as int) =~= media);
    assert(media.take(media.len() as int) =~= media);
}

/// Where the first semicolon stands.
proof fn lemma_semicolon(text: Seq<char>, at: int, from: int)
    requires
        0 <= from <= at <= text.len(),
        at < text.len() ==> text[at] == ';',
        forall|i: int| 0 <= i < at ==> #[trigger] text[i] != ';',
    ensures
        semicolon_at(text, from) == at,
    decreases at - from,
{
    if from < at {
        lemma_semicolon(text, at, from + 1);
    }
}

/// Of headers with one name, the first one counts.
pub proof fn lemma_first_header_counts(
    headers: Seq<(String, Vec<u8>)>,
    name: Seq<char>,
    from: int,
)
    requires
        0 <= from <= headers.len(),
    ensures
        match header_at(headers, name, from) {
            Some(value) => exists|i: int|
                {
                    &&& from <= i < headers.len()
                    &&& (#[trigger] headers[i]).0@ == name
                    &&& headers[i].1@ == value
                    &&& forall|j: int| from <= j < i ==> (#[trigger] headers[j]).0@ != name
                },
            None => forall|j: int|
                from <= j < headers.len() ==> (#[trigger] headers[j]).0@ != name,
        },
    decreases headers.len() - from,
{
    if from < headers.len() {
        if headers[from].0@ == name {
            assert(headers[from].1@ == header_at(headers, name, from)->0);
        } else {
            lemma_first_header_counts(headers, name, from + 1);
        }
    }
}

/// Every event of a chunk counts, once and in order: it is accumulated on top of what
/// the events before it left, and what a normalized stream shows of it comes behind
/// what it showed of them.
pub proof fn lemma_every_event_counts(
    parser: ParserView,
    state: Option<StateView>,
    metadata: Map<Seq<char>, Seq<char>>,
    events: Seq<EventView>,
    n: int,
)
    requires
        0 < n <= events.len(),
    ensures
        ({
            let (p, s, m, out) = committed(parser, state, metadata, events, n - 1);
            let (after, held, told, shown) = committed(parser, state, metadata, events, n);
            let event = events[n - 1];
            let (seen_by, seen) = if parser.logical {
                (appended(p, s, event).0, appended(p, s, event).1)
            } else {
                (p, s)
            };
            &&& accumulates_alike(p, s, seen_by, seen)
            &&& after == parser_accumulated(seen_by, event)
            &&& held == state_accumulated(seen_by, seen, event)
            &&& told == metadata_accumulated(m, event)
            &&& shown.len() >= out.len()
            &&& shown.take(out.len() as int) == out
            &&& parser.logical ==> shown.skip(out.len() as int) == appended(p, s, event).2
            &&& !parser.logical ==> shown == out
        }),
{
    let (p, s, m, out) = committed(parser, state, metadata, events, n - 1);
    let event = events[n - 1];
    lemma_appending_accumulates_nothing(p, s, event);
    lemma_commit_keeps_mode(parser, state, metadata, events, n - 1);
    let more = if parser.logical {
        appended(p, s, event).2
    } else {
        Seq::empty()
    };
    assert((out + more).take(out.len() as int) =~= out);
    assert((out + more).skip(out.len() as int) =~= more);
    assert(out + Seq::<EventView>::empty() =~= out);
}

/// Committing events does not change whether a stream is normalized.
proof fn lemma_commit_keeps_mode(
    parser: ParserView,
    state: Option<StateView>,
    metadata: Map<Seq<char>, Seq<char>>,
    events: Seq<EventView>,
    n: int,
)
    ensures
        committed(parser, state, metadata, events, n).0.logical == parser.logical,
    decreases n,
{
    if n > 0 {
        lemma_commit_keeps_mode(parser, state, metadata, events, n - 1);
    }
}

/// Times are counted in nanoseconds and limits in seconds: a stream is too late exactly
/// where more than its limit passed since its first chunk.
pub proof fn lemma_timeout_in_seconds(parser: ParserView, started: u64, now: u64)
    requires
        parser.started_at == Some(started),
    ensures
        is_timed_out(parser.started_at, now, parser.timeout_secs) <==> now > started
            + parser.timeout_secs * 1000000000,
        is_timed_out(None, now, parser.timeout_secs) == false,
{
}

/// Behind a terminal event only an error may come, behind an error nothing, and while
/// the stream is open everything.
pub proof fn lemma_what_may_follow(event_type: Seq<char>)
    ensures
        may_follow(CompletionState::Open, event_type),
        may_follow(CompletionState::TerminalLifecycle, event_type) <==> event_type == "error"@,
        !may_follow(CompletionState::Error, event_type),
{
}

/// A response is a successful event stream exactly where its status says success and
/// its first content type is that of an event stream, whatever its parameters.
pub proof fn lemma_success_streams(head: ResponseHead)
    ensures
        is_success_stream(Some(head)) <==> {
            &&& 200 <= head.status <= 299
            &&& header_at(head.headers@, "content-type"@, 0) is Some
            &&& is_visible(header_at(head.headers@, "content-type"@, 0)->0)
            &&& media_type(visible_text(header_at(head.headers@, "content-type"@, 0)->0))
                == "text/event-stream"@
        },
        is_success_stream(None),
        is_encoded(Some(head)) <==> header_at(head.headers@, "content-encoding"@, 0) is Some,
        !is_encoded(None),
{
}

} // verus!
