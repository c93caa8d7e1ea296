//! Parsing one chunk of a Responses stream as a whole before anything of it
//! counts.

use vstd::prelude::*;

use crate::collections::{texts_of_map, TextMap};
use crate::openai::sse::{
    bytes_taken, done_sentinel, event_of, events_view, frames_view, is_done_sentinel,
    is_terminal_type, nothing_pending, EventView, FrameView, ParseErrorView, ResponsesEvent,
    SseFrame, SseParseError,
};
use crate::openai::state::{ResponsesState, StateView};
use crate::openai::stream_events::accumulation::{
    accumulates_alike, check_limits, lemma_appending_accumulates_nothing,
    lemma_event_accumulates_alike, limit_error, set_aside,
};
use crate::openai::stream_events::accumulator::{
    accumulate_event, metadata_accumulated, parser_accumulated, state_accumulated,
};
use crate::openai::stream_events::emission::{append_logical_event, appended, optional_state};
use crate::openai::stream_events::logical::{events_bytes, lemma_events_bytes_concat};
use crate::openai::stream_events::parser_state::{CompletionState, ParserView, StreamEventsState};

verus! {

/// Whether more time passed from `started_at` to `now` than `timeout_secs`.
pub open spec fn is_timed_out(started_at: Option<u64>, now: u64, timeout_secs: u64) -> bool {
    match started_at {
        Some(started_at) => now - started_at > timeout_secs * 1000000000,
        None => false,
    }
}

/// The error of a stream that took too long: the time that passed, and the limit.
pub open spec fn timeout_error(
    started_at: Option<u64>,
    now: u64,
    timeout_secs: u64,
) -> ParseErrorView {
    ParseErrorView::Timeout {
        elapsed_nanos: match started_at {
            Some(started_at) => (now - started_at) as u64,
            None => 0,
        },
        limit_secs: timeout_secs,
    }
}

/// Checks whether the stream has exceeded its wall-clock timeout.
pub fn check_timeout(parser: &StreamEventsState, now: u64) -> (result: Result<(), SseParseError>)
    ensures
        match result {
            Ok(_) => !is_timed_out(parser@.started_at, now, parser@.timeout_secs),
            Err(error) => is_timed_out(parser@.started_at, now, parser@.timeout_secs) && error@
                == timeout_error(parser@.started_at, now, parser@.timeout_secs),
        },
{
    let started_at = match parser.started_at {
        Some(started_at) => started_at,
        None => return Ok(()),
    };
    let elapsed: u64 = now.saturating_sub(started_at);
    let limit: u128 = (parser.timeout_secs as u128) * 1000000000;
    if elapsed as u128 > limit {
        return Err(
            SseParseError::Timeout { elapsed_nanos: elapsed, limit_secs: parser.timeout_secs },
        );
    }
    Ok(())
}

/// The nanoseconds from `now` to a stream's deadline, which its first chunk sets.
/// None before that chunk, and none once the deadline has passed.
pub open spec fn time_left(parser: ParserView, now: u64) -> Option<u128> {
    match parser.started_at {
        Some(started_at) => {
            let deadline = started_at + parser.timeout_secs * 1000000000;
            if now <= deadline {
                Some((deadline - now) as u128)
            } else {
                None
            }
        },
        None => None,
    }
}

/// The time that a read may still take: the time left before the deadline.
pub fn remaining_time(parser: &StreamEventsState, now: u64) -> (nanos: Option<u128>)
    ensures
        nanos == time_left(parser@, now),
{
    let started_at = match parser.started_at {
        Some(started_at) => started_at,
        None => return None,
    };
    let deadline: u128 = started_at as u128 + (parser.timeout_secs as u128) * 1000000000;
    if now as u128 <= deadline {
        Some(deadline - now as u128)
    } else {
        None
    }
}

/// Time is left exactly while a stream that began has not timed out, and the time
/// that passed and the time left make up the limit.
pub proof fn lemma_time_left(parser: ParserView, now: u64)
    requires
        parser.started_at is Some,
    ensures
        time_left(parser, now) is None <==> is_timed_out(
            parser.started_at,
            now,
            parser.timeout_secs,
        ),
        time_left(parser, now) is Some ==> now - parser.started_at->0 + time_left(parser, now)->0
            == parser.timeout_secs * 1000000000,
{
}

/// The parser once the stream was found complete; the first time counts.
pub open spec fn completed_as(parser: ParserView, completion: CompletionState, now: u64) -> ParserView {
    ParserView {
        completion,
        completed_at: match parser.completed_at {
            Some(earlier) => Some(earlier),
            None => Some(now),
        },
        ..parser
    }
}

/// Records the first terminal-state time while allowing stronger states to
/// replace weaker ones.
fn mark_complete(parser: &mut StreamEventsState, completion: CompletionState, now: u64)
    ensures
        final(parser)@ == completed_as(old(parser)@, completion, now),
{
    let ghost before = parser@;
    parser.completion_state = completion;
    if parser.completed_at.is_none() {
        parser.completed_at = Some(now);
    }
    assert(parser@ =~= completed_as(before, completion, now));
}

/// Whether an event may still come: an error unless there was one, anything else
/// only while the stream is open.
pub open spec fn may_follow(completion: CompletionState, event_type: Seq<char>) -> bool {
    if event_type == "error"@ {
        completion != CompletionState::Error
    } else {
        completion == CompletionState::Open
    }
}

/// The parser once an event that may come was noted.
pub open spec fn completion_noted(parser: ParserView, event_type: Seq<char>, now: u64) -> ParserView {
    if event_type == "error"@ {
        completed_as(parser, CompletionState::Error, now)
    } else if is_terminal_type(event_type) {
        completed_as(parser, CompletionState::TerminalLifecycle, now)
    } else {
        parser
    }
}

/// Records whether an event signals stream completion.
pub fn record_completion(parser: &mut StreamEventsState, event: &ResponsesEvent, now: u64) -> (result:
    Result<(), SseParseError>)
    ensures
        match result {
            Ok(_) => may_follow(old(parser)@.completion, event@.event_type) && final(parser)@
                == completion_noted(old(parser)@, event@.event_type, now),
            Err(error) => !may_follow(old(parser)@.completion, event@.event_type) && final(parser)@
                == old(parser)@ && error@ == ParseErrorView::EventAfterTerminal(event@.event_type),
        },
{
    if event.is("error") {
        if parser.completion_state == CompletionState::Error {
            return Err(SseParseError::EventAfterTerminal(event.event_type.clone()));
        }
        mark_complete(parser, CompletionState::Error, now);
        return Ok(());
    }
    if parser.completion_state != CompletionState::Open {
        return Err(SseParseError::EventAfterTerminal(event.event_type.clone()));
    }
    if event.is_terminal() {
        mark_complete(parser, CompletionState::TerminalLifecycle, now);
    }
    Ok(())
}

/// The number of frames that are no sentinel.
pub open spec fn counted(frames: Seq<FrameView>) -> nat
    decreases frames.len(),
{
    if frames.len() == 0 {
        0
    } else {
        counted(frames.drop_last()) + if frames.last().data == done_sentinel() {
            0nat
        } else {
            1nat
        }
    }
}

/// Counts the frames that are no sentinel.
fn count_events(frames: &Vec<SseFrame>) -> (count: usize)
    ensures
        count == counted(frames_view(frames@)),
        count <= frames.len(),
{
    let ghost view = frames_view(frames@);
    let mut count: usize = 0;
    let mut i: usize = 0;
    assert(counted(view.take(0)) == 0);
    while i < frames.len()
        invariant
            view == frames_view(frames@),
            i <= frames.len(),
            count == counted(view.take(i as int)),
            count <= i,
        decreases frames.len() - i,
    {
        assert(view.take(i + 1).drop_last() =~= view.take(i as int));
        if !is_done_sentinel(&frames[i]) {
            count = count + 1;
        }
        i = i + 1;
    }
    assert(view.take(i as int) =~= view);
    count
}

/// The parser and the events after the first `n` frames of a chunk, or the error
/// of the first frame that is refused.
pub open spec fn frames_parsed(parser: ParserView, frames: Seq<FrameView>, n: int, now: u64) -> (
    ParserView,
    Result<Seq<EventView>, ParseErrorView>,
)
    decreases n,
{
    if n <= 0 {
        (parser, Ok(Seq::empty()))
    } else {
        let (held, result) = frames_parsed(parser, frames, n - 1, now);
        let frame = frames[n - 1];
        match result {
            Err(error) => (held, Err(error)),
            Ok(events) => if frame.data == done_sentinel() {
                (ParserView { deferred_done: held.deferred_done || held.logical, ..held }, Ok(events))
            } else {
                let numbered = ParserView {
                    event_count: (held.event_count + 1) as usize,
                    ..held
                };
                match event_of(frame) {
                    Err(error) => (numbered, Err(error)),
                    Ok(event) => if may_follow(numbered.completion, event.event_type) {
                        (
                            completion_noted(numbered, event.event_type, now),
                            Ok(events.push(event)),
                        )
                    } else {
                        (numbered, Err(ParseErrorView::EventAfterTerminal(event.event_type)))
                    },
                }
            },
        }
    }
}

/// Whether `result` is the outcome `expected`.
pub open spec fn events_are(
    result: Result<Vec<ResponsesEvent>, SseParseError>,
    expected: Result<Seq<EventView>, ParseErrorView>,
) -> bool {
    match result {
        Ok(events) => expected == Ok::<Seq<EventView>, ParseErrorView>(events_view(events@)),
        Err(error) => expected == Err::<Seq<EventView>, ParseErrorView>(error@),
    }
}

/// A refused frame refuses the chunk.
proof fn lemma_refusal_stays(
    parser: ParserView,
    frames: Seq<FrameView>,
    n: int,
    m: int,
    now: u64,
)
    requires
        0 <= n <= m <= frames.len(),
        frames_parsed(parser, frames, n, now).1 is Err,
    ensures
        frames_parsed(parser, frames, m, now) == frames_parsed(parser, frames, n, now),
    decreases m,
{
    if n < m {
        lemma_refusal_stays(parser, frames, n, m - 1, now);
    }
}

/// Counting never counts more than there are frames left.
proof fn lemma_counted_step(frames: Seq<FrameView>, i: int)
    requires
        0 <= i < frames.len(),
    ensures
        counted(frames.take(i + 1)) == counted(frames.take(i)) + (if frames[i].data
            == done_sentinel() {
            0nat
        } else {
            1nat
        }),
        counted(frames.take(i + 1)) <= counted(frames),
    decreases frames.len() - i,
{
    assert(frames.take(i + 1).drop_last() =~= frames.take(i));
    if i + 1 < frames.len() {
        lemma_counted_step(frames, i + 1);
    } else {
        assert(frames.take(i + 1) =~= frames);
    }
}

/// Parses and validates every frame in a chunk before any event counts.
///
/// Returns the parsed events without the sentinel, failing on the first malformed
/// frame so that the caller can discard the whole chunk.
pub fn parse_chunk_events(parser: &mut StreamEventsState, frames: &Vec<SseFrame>, now: u64) -> (result:
    Result<Vec<ResponsesEvent>, SseParseError>)
    requires
        old(parser)@.event_count + counted(frames_view(frames@)) <= usize::MAX,
    ensures
        final(parser)@ == frames_parsed(
            old(parser)@,
            frames_view(frames@),
            frames@.len() as int,
            now,
        ).0,
        events_are(
            result,
            frames_parsed(old(parser)@, frames_view(frames@), frames@.len() as int, now).1,
        ),
{
    let ghost start = parser@;
    let ghost view = frames_view(frames@);
    let mut events: Vec<ResponsesEvent> = Vec::new();
    let mut i: usize = 0;
    assert(events_view(events@) =~= Seq::empty());
    assert(counted(view.take(0)) == 0);
    while i < frames.len()
        invariant
            start == old(parser)@,
            view == frames_view(frames@),
            view.len() == frames@.len(),
            i <= frames.len(),
            start.event_count + counted(view) <= usize::MAX,
            parser@.event_count == start.event_count + counted(view.take(i as int)),
            frames_parsed(start, view, i as int, now) == (
                parser@,
                Ok::<Seq<EventView>, ParseErrorView>(events_view(events@)),
            ),
        decreases frames.len() - i,
    {
        let frame = &frames[i];
        let ghost held = parser@;
        let ghost earlier = events_view(events@);
        proof {
            lemma_counted_step(view, i as int);
        }
        assert(frame@ == view[i as int]);
        if is_done_sentinel(frame) {
            if parser.logical_stream {
                parser.deferred_done = true;
            }
            assert(parser@ =~= ParserView {
                deferred_done: held.deferred_done || held.logical,
                ..held
            });
        } else {
            parser.event_count = parser.event_count + 1;
            assert(parser@ =~= ParserView {
                event_count: (held.event_count + 1) as usize,
                ..held
            });
            match ResponsesEvent::from_frame(frame) {
                Ok(event) => match record_completion(parser, &event, now) {
                    Ok(_) => {
                        events.push(event);
                        assert(events_view(events@) =~= earlier.push(event@));
                    },
                    Err(error) => {
                        proof {
                            lemma_refusal_stays(start, view, i + 1, view.len() as int, now);
                        }
                        return Err(error);
                    },
                },
                Err(error) => {
                    proof {
                        lemma_refusal_stays(start, view, i + 1, view.len() as int, now);
                    }
                    return Err(error);
                },
            }
        }
        i = i + 1;
    }
    Ok(events)
}

/// The parser, the state, the metadata and the emitted events once the first `n`
/// events of a chunk were committed.
pub open spec fn committed(
    parser: ParserView,
    state: Option<StateView>,
    metadata: Map<Seq<char>, Seq<char>>,
    events: Seq<EventView>,
    n: int,
) -> (ParserView, Option<StateView>, Map<Seq<char>, Seq<char>>, Seq<EventView>)
    decreases n,
{
    if n <= 0 {
        (parser, state, metadata, Seq::empty())
    } else {
        let (p, s, m, out) = committed(parser, state, metadata, events, n - 1);
        let event = events[n - 1];
        let (shown, seen, more) = if p.logical {
            appended(p, s, event)
        } else {
            (p, s, Seq::empty())
        };
        (
            parser_accumulated(shown, event),
            state_accumulated(shown, seen, event),
            metadata_accumulated(m, event),
            out + more,
        )
    }
}

/// Commits one event.
fn commit_event(
    parser: &mut StreamEventsState,
    state: &mut Option<ResponsesState>,
    metadata: &mut TextMap<String>,
    event: ResponsesEvent,
    output: &mut Vec<u8>,
)
    ensures
        ({
            let given = optional_state(*old(state));
            let (shown, seen, more) = if old(parser)@.logical {
                appended(old(parser)@, given, event@)
            } else {
                (old(parser)@, given, Seq::empty())
            };
            &&& final(parser)@ == parser_accumulated(shown, event@)
            &&& optional_state(*final(state)) == state_accumulated(shown, seen, event@)
            &&& texts_of_map(final(metadata)@) == metadata_accumulated(
                texts_of_map(old(metadata)@),
                event@,
            )
            &&& final(output)@ == old(output)@ + events_bytes(more)
        }),
{
    assert(output@ + events_bytes(Seq::<EventView>::empty()) =~= output@);
    if parser.logical_stream {
        append_logical_event(parser, state, &event, output);
    }
    accumulate_event(parser, state, metadata, event);
}

/// Commits accumulation and logical emission for a fully parsed chunk.
///
/// Neither step can fail, so every recorded milestone corresponds to bytes that
/// actually reach the client.
pub fn commit_chunk_events(
    parser: &mut StreamEventsState,
    state: &mut Option<ResponsesState>,
    metadata: &mut TextMap<String>,
    events: Vec<ResponsesEvent>,
) -> (output: Vec<u8>)
    ensures
        ({
            let expected = committed(
                old(parser)@,
                optional_state(*old(state)),
                texts_of_map(old(metadata)@),
                events_view(events@),
                events@.len() as int,
            );
            &&& final(parser)@ == expected.0
            &&& optional_state(*final(state)) == expected.1
            &&& texts_of_map(final(metadata)@) == expected.2
            &&& output@ == events_bytes(expected.3)
        }),
{
    let ghost p0 = parser@;
    let ghost s0 = optional_state(*state);
    let ghost m0 = texts_of_map(metadata@);
    let ghost view = events_view(events@);
    let mut output: Vec<u8> = Vec::new();
    let mut i: usize = 0;
    assert(output@ =~= events_bytes(committed(p0, s0, m0, view, 0).3));
    while i < events.len()
        invariant
            view == events_view(events@),
            i <= events.len(),
            (parser@, optional_state(*state), texts_of_map(metadata@)) == (
                committed(p0, s0, m0, view, i as int).0,
                committed(p0, s0, m0, view, i as int).1,
                committed(p0, s0, m0, view, i as int).2,
            ),
            output@ == events_bytes(committed(p0, s0, m0, view, i as int).3),
        decreases events.len() - i,
    {
        let event = ResponsesEvent {
            event_type: events[i].event_type.clone(),
            payload: events[i].payload.clone(),
        };
        assert(event@ == view[i as int]);
        proof {
            let (p, s, m, out) = committed(p0, s0, m0, view, i as int);
            let more = if p.logical {
                appended(p, s, event@).2
            } else {
                Seq::empty()
            };
            lemma_events_bytes_concat(out, more);
        }
        commit_event(parser, state, metadata, event, &mut output);
        i = i + 1;
    }
    output
}

/// Checks that what is accumulated stays within its limits once the events of a
/// chunk are committed. Nothing is changed: the events are accumulated aside.
fn check_accumulation(
    parser: &StreamEventsState,
    state: &Option<ResponsesState>,
    metadata: &TextMap<String>,
    events: &Vec<ResponsesEvent>,
) -> (result: Result<(), SseParseError>)
    ensures
        ({
            let (p, s, _, _) = committed(
                parser@,
                optional_state(*state),
                texts_of_map(metadata@),
                events_view(events@),
                events@.len() as int,
            );
            match result {
                Ok(_) => limit_error(p, s) is None,
                Err(error) => limit_error(p, s) == Some(error@),
            }
        }),
{
    let ghost p0 = parser@;
    let ghost s0 = optional_state(*state);
    let ghost m0 = texts_of_map(metadata@);
    let ghost view = events_view(events@);
    let (mut aside, mut held) = set_aside(parser, state);
    let mut noted: TextMap<String> = TextMap::new();
    let mut i: usize = 0;
    while i < events.len()
        invariant
            view == events_view(events@),
            i <= events.len(),
            accumulates_alike(
                committed(p0, s0, m0, view, i as int).0,
                committed(p0, s0, m0, view, i as int).1,
                aside@,
                optional_state(held),
            ),
        decreases events.len() - i,
    {
        let event = ResponsesEvent {
            event_type: events[i].event_type.clone(),
            payload: events[i].payload.clone(),
        };
        assert(event@ == view[i as int]);
        proof {
            let (p, s, _, _) = committed(p0, s0, m0, view, i as int);
            let (shown, seen) = if p.logical {
                (appended(p, s, event@).0, appended(p, s, event@).1)
            } else {
                (p, s)
            };
            lemma_appending_accumulates_nothing(p, s, event@);
            lemma_event_accumulates_alike(shown, seen, aside@, optional_state(held), event@);
        }
        accumulate_event(&mut aside, &mut held, &mut noted, event);
        i = i + 1;
    }
    check_limits(&aside, &held)
}

/// The outcome of a chunk: the parser and, where the chunk is accepted, the
/// events that it holds.
pub open spec fn chunk_parsed(parser: ParserView, bytes: Seq<u8>, now: u64) -> (
    ParserView,
    Result<Seq<EventView>, ParseErrorView>,
) {
    if is_timed_out(parser.started_at, now, parser.timeout_secs) {
        (parser, Err(timeout_error(parser.started_at, now, parser.timeout_secs)))
    } else {
        match bytes_taken(parser.pending, bytes, parser.limit) {
            None => (
                ParserView { pending: nothing_pending(), ..parser },
                Err(ParseErrorView::BufferOverflow),
            ),
            Some((pending, frames)) => {
                let held = ParserView { pending, ..parser };
                if held.event_count + counted(frames) > held.max_events {
                    (held, Err(ParseErrorView::TooManyEvents))
                } else {
                    frames_parsed(held, frames, frames.len() as int, now)
                }
            },
        }
    }
}

/// Parses the frames of a chunk within the limits of the stream.
fn parse_chunk(parser: &mut StreamEventsState, bytes: &[u8], now: u64) -> (result: Result<
    Vec<ResponsesEvent>,
    SseParseError,
>)
    ensures
        final(parser)@ == chunk_parsed(old(parser)@, bytes@, now).0,
        events_are(result, chunk_parsed(old(parser)@, bytes@, now).1),
{
    let ghost start = parser@;
    if let Err(error) = check_timeout(parser, now) {
        return Err(error);
    }
    let frames = match parser.frame_parser.parse_chunk(bytes) {
        Ok(frames) => frames,
        Err(error) => {
            assert(parser@ =~= chunk_parsed(start, bytes@, now).0);
            return Err(error);
        },
    };
    let ghost held = parser@;
    assert(held =~= ParserView { pending: parser@.pending, ..start });
    let count = count_events(&frames);
    let room = parser.max_events >= parser.event_count;
    if !room || count > parser.max_events - parser.event_count {
        return Err(SseParseError::TooManyEvents);
    }
    parse_chunk_events(parser, &frames, now)
}

/// What a chunk does: the parser, the state, the metadata, and the events that
/// are emitted or the error that refuses the chunk as a whole.
pub open spec fn chunk_accumulated(
    parser: ParserView,
    state: Option<StateView>,
    metadata: Map<Seq<char>, Seq<char>>,
    bytes: Seq<u8>,
    now: u64,
) -> (
    ParserView,
    Option<StateView>,
    Map<Seq<char>, Seq<char>>,
    Result<Seq<EventView>, ParseErrorView>,
) {
    match chunk_parsed(parser, bytes, now) {
        (held, Err(error)) => (held, state, metadata, Err(error)),
        (held, Ok(events)) => {
            let (p, s, m, out) = committed(held, state, metadata, events, events.len() as int);
            match limit_error(p, s) {
                Some(error) => (held, state, metadata, Err(error)),
                None => (p, s, m, Ok(out)),
            }
        },
    }
}

/// Parses frames from raw bytes and accumulates their events.
///
/// A malformed frame refuses the chunk as a whole, and so do events that would take
/// what is accumulated over its limits: neither the state nor the metadata changes,
/// and nothing is emitted.
pub fn parse_and_accumulate(
    parser: &mut StreamEventsState,
    state: &mut Option<ResponsesState>,
    metadata: &mut TextMap<String>,
    bytes: &[u8],
    now: u64,
) -> (result: Result<Vec<u8>, SseParseError>)
    ensures
        ({
            let expected = chunk_accumulated(
                old(parser)@,
                optional_state(*old(state)),
                texts_of_map(old(metadata)@),
                bytes@,
                now,
            );
            &&& final(parser)@ == expected.0
            &&& optional_state(*final(state)) == expected.1
            &&& texts_of_map(final(metadata)@) == expected.2
            &&& match result {
                Ok(output) => expected.3 is Ok && output@ == events_bytes(expected.3->Ok_0),
                Err(error) => expected.3 == Err::<Seq<EventView>, ParseErrorView>(error@),
            }
        }),
{
    match parse_chunk(parser, bytes, now) {
        Ok(events) => match check_accumulation(parser, state, metadata, &events) {
            Ok(_) => Ok(commit_chunk_events(parser, state, metadata, events)),
            Err(error) => Err(error),
        },
        Err(error) => Err(error),
    }
}

/// A refused chunk is refused as a whole: it changes neither the state nor the
/// metadata.
pub proof fn lemma_refused_chunk_changes_nothing(
    parser: ParserView,
    state: Option<StateView>,
    metadata: Map<Seq<char>, Seq<char>>,
    bytes: Seq<u8>,
    now: u64,
)
    requires
        chunk_accumulated(parser, state, metadata, bytes, now).3 is Err,
    ensures
        chunk_accumulated(parser, state, metadata, bytes, now).1 == state,
        chunk_accumulated(parser, state, metadata, bytes, now).2 == metadata,
{
}

} // verus!
