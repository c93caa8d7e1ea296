//! What a stream accumulates of output items and arguments, and its limits.

use vstd::prelude::*;

use crate::collections::values_bytes;
use crate::json::{
    clone_items, items_view, lemma_get_with_other, lemma_member_with, Json, JsonView,
};
use crate::openai::retained::{items_bytes, retained_json_values_bytes, sum_of};
use crate::openai::sse::{is_terminal_type, EventView, ParseErrorView, SseParseError, SseParserConfig};
use crate::openai::state::{output_items_of, with_output_items, ResponsesState, StateView};
use crate::openai::stream_events::accumulator::{
    parser_accumulated, response_accumulated, state_accumulated, terminal_response,
};
use crate::openai::stream_events::emission::{
    appended, optional_state, output_appended, state_or_blank,
};
use crate::openai::stream_events::logical::{
    emitted_pending, flushed, pending_of, phases_emitted, PendingItemView,
};
use crate::openai::stream_events::parser_state::{ParserView, StreamEventsState};

verus! {

broadcast use crate::json_model::group_json_view;

/// The output items that a stream accumulated.
pub open spec fn accumulated_items(state: Option<StateView>) -> Seq<JsonView> {
    output_items_of(state_or_blank(state).response_object)
}

/// The bytes that a stream accumulated: the compact texts of its output items, and
/// the arguments of calls that are not finished.
pub open spec fn accumulated_bytes(parser: ParserView, state: Option<StateView>) -> nat {
    items_bytes(accumulated_items(state)) + values_bytes(parser.args)
}

/// Whether what a stream accumulated is within its limits.
pub open spec fn accumulation_bounded(parser: ParserView, state: Option<StateView>) -> bool {
    &&& accumulated_items(state).len() <= parser.max_output_items
    &&& accumulated_bytes(parser, state) <= parser.max_accumulated_bytes
}

/// The error of a stream that accumulated more than its limits allow.
pub open spec fn limit_error(parser: ParserView, state: Option<StateView>) -> Option<
    ParseErrorView,
> {
    if accumulated_items(state).len() > parser.max_output_items {
        Some(ParseErrorView::TooManyOutputItems)
    } else if accumulated_bytes(parser, state) > parser.max_accumulated_bytes {
        Some(ParseErrorView::TooMuchAccumulated)
    } else {
        None
    }
}

/// Checks that what was accumulated is within its limits.
pub fn check_limits(parser: &StreamEventsState, state: &Option<ResponsesState>) -> (result: Result<
    (),
    SseParseError,
>)
    ensures
        match result {
            Ok(_) => limit_error(parser@, optional_state(*state)) is None,
            Err(error) => limit_error(parser@, optional_state(*state)) == Some(error@),
        },
{
    let ghost items = accumulated_items(optional_state(*state));
    let (count, item_bytes) = match state {
        Some(held) => match held.output_items() {
            Some(items) => (items.len(), retained_json_values_bytes(items)),
            None => (0, Some(0)),
        },
        None => (0, Some(0)),
    };
    if count > parser.limits.max_output_items {
        return Err(SseParseError::TooManyOutputItems);
    }
    let argument_bytes = parser.tool_call_args.value_bytes();
    let bytes = sum_of(
        item_bytes,
        argument_bytes,
        Ghost(items_bytes(items)),
        Ghost(values_bytes(parser@.args)),
    );
    match bytes {
        Some(bytes) if bytes <= parser.limits.max_accumulated_bytes => Ok(()),
        _ => Err(SseParseError::TooMuchAccumulated),
    }
}

/// Whether two streams accumulated the same under the same limits, so that they
/// accumulate the same of every event.
pub open spec fn accumulates_alike(
    p: ParserView,
    s: Option<StateView>,
    q: ParserView,
    t: Option<StateView>,
) -> bool {
    &&& p.args == q.args
    &&& p.rejected == q.rejected
    &&& p.max_argument_bytes == q.max_argument_bytes
    &&& p.max_accumulated_bytes == q.max_accumulated_bytes
    &&& p.max_output_items == q.max_output_items
    &&& p.offset == q.offset
    &&& accumulated_items(s) == accumulated_items(t)
}

/// A response with given output items has them.
proof fn lemma_items_of_with_items(response: JsonView, items: Seq<JsonView>)
    ensures
        output_items_of(with_output_items(response, items)) == items,
{
    let members = match response {
        JsonView::Object(members) => members,
        _ => Seq::empty(),
    };
    lemma_member_with(members, "output"@, JsonView::Array(items));
}

/// What a stream accumulated, set aside to try events on.
pub fn set_aside(parser: &StreamEventsState, state: &Option<ResponsesState>) -> (aside: (
    StreamEventsState,
    Option<ResponsesState>,
))
    ensures
        accumulates_alike(parser@, optional_state(*state), aside.0@, optional_state(aside.1)),
{
    let mut copy = StreamEventsState::new(
        SseParserConfig::default(),
        parser.limits,
        false,
        0,
        parser.output_index_offset,
    );
    copy.tool_call_args = parser.tool_call_args.copy();
    copy.rejected_tool_call_args = parser.rejected_tool_call_args.copy();
    let items: Vec<Json> = match state {
        Some(held) => match held.output_items() {
            Some(items) => clone_items(items),
            None => Vec::new(),
        },
        None => Vec::new(),
    };
    assert(items_view(items@) =~= accumulated_items(optional_state(*state)));
    let mut held = ResponsesState::default();
    proof {
        lemma_items_of_with_items(held@.response_object, items_view(items@));
    }
    let slot = held.output_items_mut();
    *slot = items;
    (copy, Some(held))
}

/// The output of a terminal response is its own, whatever the usage was before.
proof fn lemma_terminal_items(state: StateView, response: JsonView)
    ensures
        output_items_of(response_accumulated(state, response).response_object)
            == output_items_of(response.without("usage"@)),
{
    reveal_strlit("usage");
    reveal_strlit("output");
    assert("usage"@.len() == 5);
    assert("output"@.len() == 6);
    let after = response_accumulated(state, response);
    lemma_get_with_other(response.without("usage"@), "usage"@, after.usage, "output"@);
}

/// Streams that accumulated the same accumulate the same of an event.
pub proof fn lemma_event_accumulates_alike(
    p: ParserView,
    s: Option<StateView>,
    q: ParserView,
    t: Option<StateView>,
    event: EventView,
)
    requires
        accumulates_alike(p, s, q, t),
    ensures
        accumulates_alike(
            parser_accumulated(p, event),
            state_accumulated(p, s, event),
            parser_accumulated(q, event),
            state_accumulated(q, t, event),
        ),
{
    let a = state_or_blank(s);
    let b = state_or_blank(t);
    if is_terminal_type(event.event_type) {
        lemma_terminal_items(a, terminal_response(event.payload));
        lemma_terminal_items(b, terminal_response(event.payload));
    } else {
        assert forall|items: Seq<JsonView>| #[trigger] output_items_of(
            with_output_items(a.response_object, items),
        ) == items by {
            lemma_items_of_with_items(a.response_object, items);
        }
        assert forall|items: Seq<JsonView>| #[trigger] output_items_of(
            with_output_items(b.response_object, items),
        ) == items by {
            lemma_items_of_with_items(b.response_object, items);
        }
    }
}

/// Emitting phases leaves the response.
proof fn lemma_phases_keep_response(
    state: StateView,
    item: JsonView,
    output_index: u64,
    phases: Seq<Seq<char>>,
    n: int,
)
    ensures
        phases_emitted(state, item, output_index, phases, n).0.response_object
            == state.response_object,
    decreases n,
{
    if n > 0 {
        lemma_phases_keep_response(state, item, output_index, phases, n - 1);
    }
}

/// Emitting pending items leaves the response.
proof fn lemma_pending_keep_response(state: StateView, pending: Seq<PendingItemView>, n: int)
    ensures
        emitted_pending(state, pending, n).0.response_object == state.response_object,
    decreases n,
{
    if n > 0 {
        lemma_pending_keep_response(state, pending, n - 1);
        let held = emitted_pending(state, pending, n - 1).0;
        let next = pending[n - 1];
        assert forall|opened: StateView, phases: Seq<Seq<char>>, k: int|
            (#[trigger] phases_emitted(
                opened,
                next.item,
                next.index as u64,
                phases,
                k,
            )).0.response_object == opened.response_object by {
            lemma_phases_keep_response(opened, next.item, next.index as u64, phases, k);
        }
    }
}

/// What the client is shown of an event does not count as accumulated.
pub proof fn lemma_appending_accumulates_nothing(
    parser: ParserView,
    state: Option<StateView>,
    event: EventView,
)
    ensures
        accumulates_alike(
            parser,
            state,
            appended(parser, state, event).0,
            appended(parser, state, event).1,
        ),
{
    assert forall|held: StateView| (#[trigger] flushed(held)).0.response_object
        == held.response_object by {
        let pending = pending_of(held, held.output.len() as int);
        lemma_pending_keep_response(held, pending, pending.len() as int);
    }
    assert(output_appended(parser, state_or_blank(state), event).1.response_object
        == state_or_blank(state).response_object);
}

} // verus!
