//! The limits that a stream stays within, whatever its provider sends.

use vstd::prelude::*;

use crate::collections::text_at;
use crate::json::JsonView;
use crate::openai::sse::{
    bytes_taken, done_sentinel, event_of, pending_size, EventView, FrameView, ParseErrorView,
    PendingView, SseParserConfig,
};
use crate::openai::state::StateView;
use crate::openai::stream_events::accumulation::{
    accumulated_bytes, accumulated_items, accumulation_bounded,
};
use crate::openai::stream_events::accumulator::{
    argument_key, delta_taken, final_arguments, held_arguments, parser_accumulated,
    state_accumulated,
};
use crate::openai::stream_events::chunks::{
    chunk_accumulated, chunk_parsed, committed, counted, frames_parsed,
};
use crate::openai::stream_events::emission::appended;
use crate::openai::stream_events::filter::{
    armed, chunk_processed, started, ContextView, OpenaiStreamEventsFilter,
};
use crate::openai::stream_events::parser_state::{
    fresh_parser, AccumulationLimits, CompletionState, ParserView,
};
use crate::text::{lemma_utf8_concat, utf8};

verus! {

/// Whether no call holds more arguments than the cap allows, and no call that was
/// refused holds any.
pub open spec fn arguments_bounded(parser: ParserView) -> bool {
    forall|key: Seq<char>| #[trigger]
        parser.args.dom().contains(key) ==> utf8(parser.args[key]).len()
            <= parser.max_argument_bytes && !parser.rejected.contains(key)
}

/// Whether a parser holds no more bytes, events and arguments than it may.
pub open spec fn within_limits(parser: ParserView) -> bool {
    &&& pending_size(parser.pending) <= parser.limit
    &&& parser.event_count <= parser.max_events
    &&& arguments_bounded(parser)
}

/// A stream begins within its limits.
pub proof fn lemma_fresh_parser_is_within_limits(
    config: SseParserConfig,
    limits: AccumulationLimits,
    logical: bool,
    iteration: u32,
    offset: u64,
)
    ensures
        within_limits(fresh_parser(config, limits, logical, iteration, offset)),
{
}

/// The arguments that a call is finished with are within the cap, whether they
/// came in parts or at once.
pub proof fn lemma_finished_arguments_are_bounded(parser: ParserView, event: EventView)
    requires
        arguments_bounded(parser),
    ensures
        match final_arguments(parser, event.payload) {
            Some(arguments) => utf8(arguments).len() <= parser.max_argument_bytes,
            None => true,
        },
{
    if let Some(key) = argument_key(event.payload) {
        if parser.args.dom().contains(key) {
            assert(utf8(parser.args[key]).len() <= parser.max_argument_bytes);
        }
        assert(utf8(Seq::<char>::empty()).len() == 0);
    }
}

/// A call whose arguments were refused stays refused: no later event of it finds
/// its way into the request's state.
pub proof fn lemma_refused_call_stays_refused(
    parser: ParserView,
    state: Option<StateView>,
    event: EventView,
    key: Seq<char>,
)
    requires
        parser.rejected.contains(key),
    ensures
        parser_accumulated(parser, event).rejected.contains(key),
        event.event_type == "response.function_call_arguments.done"@ && argument_key(event.payload)
            == Some(key) ==> state_accumulated(parser, state, event) == state,
{
    reveal_strlit("response.completed");
    reveal_strlit("response.incomplete");
    reveal_strlit("response.failed");
    reveal_strlit("response.output_item.added");
    reveal_strlit("response.output_item.done");
    reveal_strlit("response.function_call_arguments.done");
    assert("response.completed"@.len() == 18);
    assert("response.incomplete"@.len() == 19);
    assert("response.failed"@.len() == 15);
    assert("response.output_item.added"@.len() == 26);
    assert("response.output_item.done"@.len() == 25);
    assert("response.function_call_arguments.done"@.len() == 37);
}

/// A delta leaves every call within the cap and no refused call with arguments.
///
/// A call that was refused stays so and changes nothing. Arguments that fit are
/// continued by the delta; where they do not, all of them are dropped and the call
/// is refused. Other calls are left as they were.
pub proof fn lemma_delta_keeps_arguments_bounded(parser: ParserView, payload: JsonView)
    requires
        arguments_bounded(parser),
    ensures
        ({
            let after = delta_taken(parser, payload);
            &&& arguments_bounded(after)
            &&& forall|key: Seq<char>| #[trigger]
                parser.rejected.contains(key) ==> after.rejected.contains(key)
            &&& match (argument_key(payload), payload.get_text("delta"@)) {
                (Some(key), Some(delta)) => {
                    &&& parser.rejected.contains(key) ==> after == parser
                    &&& !parser.rejected.contains(key) && utf8(held_arguments(parser, key)).len()
                        + utf8(delta).len() <= parser.max_argument_bytes ==> {
                        &&& after.args.dom().contains(key)
                        &&& after.args[key] == held_arguments(parser, key) + delta
                        &&& after.rejected == parser.rejected
                    }
                    &&& !parser.rejected.contains(key) && utf8(held_arguments(parser, key)).len()
                        + utf8(delta).len() > parser.max_argument_bytes ==> {
                        &&& !after.args.dom().contains(key)
                        &&& after.rejected.contains(key)
                    }
                    &&& forall|other: Seq<char>|
                        other != key ==> {
                            &&& #[trigger] after.args.dom().contains(other)
                                == parser.args.dom().contains(other)
                            &&& after.args.dom().contains(other) ==> after.args[other]
                                == parser.args[other]
                            &&& after.rejected.contains(other) == parser.rejected.contains(other)
                        }
                },
                _ => after == parser,
            }
        }),
{
    let after = delta_taken(parser, payload);
    if let (Some(key), Some(delta)) = (argument_key(payload), payload.get_text("delta"@)) {
        lemma_utf8_concat(held_arguments(parser, key), delta);
    }
    assert forall|k: Seq<char>| #[trigger] after.args.dom().contains(k) implies utf8(
        after.args[k],
    ).len() <= after.max_argument_bytes && !after.rejected.contains(k) by {
        if parser.args.dom().contains(k) {
            assert(utf8(parser.args[k]).len() <= parser.max_argument_bytes);
        }
    }
}

/// One event leaves the arguments within the cap.
proof fn lemma_event_keeps_arguments_bounded(parser: ParserView, event: EventView)
    requires
        arguments_bounded(parser),
    ensures
        arguments_bounded(parser_accumulated(parser, event)),
{
    lemma_delta_keeps_arguments_bounded(parser, event.payload);
    let after = parser_accumulated(parser, event);
    assert forall|k: Seq<char>| #[trigger] after.args.dom().contains(k) implies utf8(
        after.args[k],
    ).len() <= after.max_argument_bytes && !after.rejected.contains(k) by {
        if parser.args.dom().contains(k) {
            assert(utf8(parser.args[k]).len() <= parser.max_argument_bytes);
        }
    }
}

/// Committing events leaves the limits as they are, and the arguments within the
/// cap.
proof fn lemma_commit_keeps_limits(
    parser: ParserView,
    state: Option<StateView>,
    metadata: Map<Seq<char>, Seq<char>>,
    events: Seq<EventView>,
    n: int,
)
    requires
        within_limits(parser),
    ensures
        within_limits(committed(parser, state, metadata, events, n).0),
    decreases n,
{
    if n > 0 {
        lemma_commit_keeps_limits(parser, state, metadata, events, n - 1);
        let (p, s, m, out) = committed(parser, state, metadata, events, n - 1);
        let event = events[n - 1];
        let shown = if p.logical {
            appended(p, s, event).0
        } else {
            p
        };
        assert(arguments_bounded(shown)) by {
            assert(shown.args == p.args && shown.rejected == p.rejected);
        }
        lemma_event_keeps_arguments_bounded(shown, event);
    }
}

/// Parsing frames counts each but the sentinels, and holds no more than before.
proof fn lemma_frames_are_counted(
    parser: ParserView,
    frames: Seq<FrameView>,
    n: int,
    now: u64,
)
    requires
        0 <= n <= frames.len(),
        parser.event_count + counted(frames) <= parser.max_events,
    ensures
        ({
            let held = frames_parsed(parser, frames, n, now).0;
            &&& held.event_count <= parser.event_count + counted(frames.take(n))
            &&& held.max_events == parser.max_events
            &&& held.pending == parser.pending
            &&& held.limit == parser.limit
            &&& held.args == parser.args
            &&& held.rejected == parser.rejected
            &&& held.max_argument_bytes == parser.max_argument_bytes
        }),
    decreases n,
{
    if n > 0 {
        lemma_frames_are_counted(parser, frames, n - 1, now);
        assert(frames.take(n).drop_last() =~= frames.take(n - 1));
        lemma_counted_grows(frames, n);
    }
}

/// More frames count no less.
proof fn lemma_counted_grows(frames: Seq<FrameView>, n: int)
    requires
        0 <= n <= frames.len(),
    ensures
        counted(frames.take(n)) <= counted(frames),
    decreases frames.len() - n,
{
    if n < frames.len() {
        lemma_counted_grows(frames, n + 1);
        assert(frames.take(n + 1).drop_last() =~= frames.take(n));
    } else {
        assert(frames.take(n) =~= frames);
    }
}

/// What is held after bytes were taken in is within the limit.
proof fn lemma_taken_is_bounded(pending: PendingView, bytes: Seq<u8>, limit: nat)
    requires
        pending_size(pending) <= limit,
    ensures
        match bytes_taken(pending, bytes, limit) {
            Some((held, _)) => pending_size(held) <= limit,
            None => true,
        },
{
}

/// No chunk, accepted or refused, takes a stream over its limits: what is held of
/// incomplete frames, the events that were counted, and the arguments of every
/// call stay bounded.
pub proof fn lemma_chunk_keeps_limits(
    parser: ParserView,
    state: Option<StateView>,
    metadata: Map<Seq<char>, Seq<char>>,
    bytes: Seq<u8>,
    now: u64,
)
    requires
        within_limits(parser),
    ensures
        within_limits(chunk_accumulated(parser, state, metadata, bytes, now).0),
{
    lemma_taken_is_bounded(parser.pending, bytes, parser.limit);
    let (held, result) = chunk_parsed(parser, bytes, now);
    match bytes_taken(parser.pending, bytes, parser.limit) {
        None => {},
        Some((pending, frames)) => {
            let begun = ParserView { pending, ..parser };
            if begun.event_count + counted(frames) <= begun.max_events {
                lemma_frames_are_counted(begun, frames, frames.len() as int, now);
                assert(frames.take(frames.len() as int) =~= frames);
            }
        },
    }
    assert(arguments_bounded(held)) by {
        assert(held.args == parser.args && held.rejected == parser.rejected);
    }
    match result {
        Ok(events) => lemma_commit_keeps_limits(
            held,
            state,
            metadata,
            events,
            events.len() as int,
        ),
        Err(_) => {},
    }
}

/// A round begins with nothing accumulated, within every limit.
pub proof fn lemma_round_begins_with_nothing(
    filter: OpenaiStreamEventsFilter,
    context: ContextView,
)
    ensures
        ({
            let after = armed(filter, context);
            &&& after.parser is Some
            &&& accumulated_items(after.state).len() == 0
            &&& accumulated_bytes(after.parser->0, after.state) == 0
            &&& accumulation_bounded(after.parser->0, after.state)
        }),
{
    assert(Map::<Seq<char>, Seq<char>>::empty().dom() =~= Set::empty());
}

/// No chunk, accepted or refused, takes what is accumulated over its limits: the
/// number of output items, and the bytes of output items and arguments together.
pub proof fn lemma_chunk_keeps_accumulation_bounded(
    parser: ParserView,
    state: Option<StateView>,
    metadata: Map<Seq<char>, Seq<char>>,
    bytes: Seq<u8>,
    now: u64,
)
    requires
        accumulation_bounded(parser, state),
    ensures
        ({
            let (p, s, _, _) = chunk_accumulated(parser, state, metadata, bytes, now);
            &&& accumulation_bounded(p, s)
            &&& p.max_accumulated_bytes == parser.max_accumulated_bytes
            &&& p.max_output_items == parser.max_output_items
        }),
{
    lemma_parsing_accumulates_nothing(parser, bytes, now);
    if let (held, Ok(events)) = chunk_parsed(parser, bytes, now) {
        lemma_commit_keeps_caps(held, state, metadata, events, events.len() as int);
    }
}

/// Committing events leaves the caps on what is accumulated as they are.
proof fn lemma_commit_keeps_caps(
    parser: ParserView,
    state: Option<StateView>,
    metadata: Map<Seq<char>, Seq<char>>,
    events: Seq<EventView>,
    n: int,
)
    ensures
        ({
            let after = committed(parser, state, metadata, events, n).0;
            &&& after.max_accumulated_bytes == parser.max_accumulated_bytes
            &&& after.max_output_items == parser.max_output_items
        }),
    decreases n,
{
    if n > 0 {
        lemma_commit_keeps_caps(parser, state, metadata, events, n - 1);
    }
}

/// Parsing a chunk accumulates nothing yet.
proof fn lemma_parsing_accumulates_nothing(parser: ParserView, bytes: Seq<u8>, now: u64)
    ensures
        ({
            let held = chunk_parsed(parser, bytes, now).0;
            &&& held.args == parser.args
            &&& held.rejected == parser.rejected
            &&& held.max_accumulated_bytes == parser.max_accumulated_bytes
            &&& held.max_output_items == parser.max_output_items
            &&& held.logical == parser.logical
        }),
{
    if let Some((pending, frames)) = bytes_taken(parser.pending, bytes, parser.limit) {
        lemma_frames_accumulate_nothing(
            ParserView { pending, ..parser },
            frames,
            frames.len() as int,
            now,
        );
    }
}

/// Parsing frames accumulates nothing yet.
proof fn lemma_frames_accumulate_nothing(
    parser: ParserView,
    frames: Seq<FrameView>,
    n: int,
    now: u64,
)
    ensures
        ({
            let held = frames_parsed(parser, frames, n, now).0;
            &&& held.args == parser.args
            &&& held.rejected == parser.rejected
            &&& held.max_accumulated_bytes == parser.max_accumulated_bytes
            &&& held.max_output_items == parser.max_output_items
            &&& held.logical == parser.logical
        }),
    decreases n,
{
    if n > 0 {
        lemma_frames_accumulate_nothing(parser, frames, n - 1, now);
    }
}

/// A chunk whose events would take what is accumulated over its limits fails the
/// stream: nothing of it is kept, the failure is noted, and a logical stream shows
/// nothing of it and ends with a server error that keeps it out of the store.
pub proof fn lemma_excess_fails_stream(
    context: ContextView,
    parser: ParserView,
    events: Seq<EventView>,
    bytes: Seq<u8>,
    now: u64,
)
    requires
        context.parser == Some(parser),
        chunk_parsed(started(parser, now), bytes, now).1 == Ok::<Seq<EventView>, ParseErrorView>(
            events,
        ),
        ({
            let held = chunk_parsed(started(parser, now), bytes, now).0;
            let (p, s, _, _) = committed(
                held,
                context.state,
                context.metadata,
                events,
                events.len() as int,
            );
            !accumulation_bounded(p, s)
        }),
    ensures
        ({
            let (after, shown) = chunk_processed(context, Some(bytes), now);
            &&& after.state == context.state
            &&& after.parser is Some
            &&& after.parser->0.args == parser.args
            &&& text_at(after.metadata, "responses.stream_parse_error"@) == Some("true"@)
            &&& parser.logical ==> {
                &&& shown is None
                &&& text_at(after.metadata, "responses.stream_error_code"@) == Some(
                    "server_error"@,
                )
                &&& text_at(after.metadata, "responses.skip_persist"@) == Some("true"@)
            }
        }),
{
    lemma_parsing_accumulates_nothing(started(parser, now), bytes, now);
    reveal_strlit("responses.stream_parse_error");
    reveal_strlit("responses.stream_error_code");
    reveal_strlit("responses.stream_error_message");
    reveal_strlit("responses.skip_persist");
    assert("responses.stream_parse_error"@.len() == 28);
    assert("responses.stream_error_code"@.len() == 27);
    assert("responses.stream_error_message"@.len() == 30);
    assert("responses.skip_persist"@.len() == 22);
}

/// Behind an error nothing follows: once a stream reported one, every further
/// frame but the sentinel is refused.
pub proof fn lemma_nothing_follows_an_error(parser: ParserView, frame: FrameView, now: u64)
    requires
        parser.completion == CompletionState::Error,
        frame.data != done_sentinel(),
    ensures
        frames_parsed(parser, seq![frame], 1, now).1 is Err,
{
    reveal_with_fuel(frames_parsed, 2);
    match event_of(frame) {
        Ok(_) => {},
        Err(_) => {},
    }
}

} // verus!
