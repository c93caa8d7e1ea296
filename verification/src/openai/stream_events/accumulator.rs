//! Accumulates state from parsed Responses events.
//!
//! Terminal events are authoritative: their payloads overwrite any incrementally
//! accumulated state. Incremental events provide fallback state in case the
//! terminal event is missing.

use vstd::prelude::*;

use crate::collections::{text_at, texts_of_map, TextMap};
use crate::json::{items_view, push_item, string, Json, JsonView};
use crate::openai::sse::{is_terminal_type, EventView, ResponsesEvent};
use crate::openai::state::{
    output_items_of, with_output_items, ResponsesState, StateView,
};
use crate::openai::stream_events::emission::{optional_state, state_mut, state_or_blank};
use crate::openai::stream_events::parser_state::{ParserView, StreamEventsState};
use crate::openai::usage::{merge_usage_owned, merged};
use crate::text::{byte_len, decimal, join, same_text, utf8, with_decimal};

verus! {

broadcast use crate::json_model::group_json_view;

/// The state once a complete response was taken in: its usage is added to that of
/// earlier rounds, and the response carries the sum.
pub open spec fn response_accumulated(state: StateView, response: JsonView) -> StateView {
    let usage = match response.get("usage"@) {
        Some(usage) => usage,
        None => JsonView::Null,
    };
    let total = if usage == JsonView::Null {
        state.usage
    } else {
        merged(state.usage, usage)
    };
    let bare = response.without("usage"@);
    StateView {
        usage: total,
        response_object: if total == JsonView::Null {
            bare
        } else {
            bare.with("usage"@, total)
        },
        template: JsonView::Null,
        ..state
    }
}

/// The status of a response: the given one, its own, or `unknown`.
pub open spec fn response_status(response: JsonView, given: Option<Seq<char>>) -> Seq<char> {
    match given {
        Some(status) => status,
        None => match response.get_text("status"@) {
            Some(status) => status,
            None => "unknown"@,
        },
    }
}

/// Overwrites response fields from an authoritative complete response object.
///
/// `status_override` is authoritative for terminal events; other callers use the
/// response's own status. The result tells whether there was usage before.
pub fn accumulate_response_object(
    state: &mut Option<ResponsesState>,
    metadata: &mut TextMap<String>,
    response: Json,
    status_override: Option<&str>,
) -> (had_prior_usage: bool)
    ensures
        optional_state(*final(state)) == Some(
            response_accumulated(state_or_blank(optional_state(*old(state))), response@),
        ),
        texts_of_map(final(metadata)@) == texts_of_map(old(metadata)@).insert(
            "responses.status"@,
            response_status(
                response@,
                match status_override {
                    Some(status) => Some(status@),
                    None => None,
                },
            ),
        ),
        had_prior_usage == (state_or_blank(optional_state(*old(state))).usage != JsonView::Null),
{
    let ghost given = response@;
    let mut response = response;
    let status = match status_override {
        Some(status) => status.to_owned(),
        None => match response.get_str("status") {
            Some(status) => status.to_owned(),
            None => "unknown".to_owned(),
        },
    };
    let held = state_mut(state);
    let ghost before = held@;
    let had_prior_usage = !held.usage.is_null();
    let usage = match response.take_member("usage") {
        Some(usage) => usage,
        None => Json::Null,
    };
    if !usage.is_null() {
        merge_usage_owned(&mut held.usage, usage);
    }
    if !held.usage.is_null() {
        response.set("usage", held.usage.clone());
    }
    held.response_object = response;
    held.local_completion_response_template = Json::Null;
    assert(held@ =~= response_accumulated(before, given));
    metadata.put_text("responses.status", status.as_str());
    had_prior_usage
}

/// The status that a terminal event type states.
pub open spec fn terminal_status(event_type: Seq<char>) -> Seq<char> {
    if event_type == "response.completed"@ {
        "completed"@
    } else if event_type == "response.incomplete"@ {
        "incomplete"@
    } else {
        "failed"@
    }
}

/// The response of a terminal payload: its member of that name, or itself.
pub open spec fn terminal_response(payload: JsonView) -> JsonView {
    match payload.get("response"@) {
        Some(response) => response,
        None => payload,
    }
}

/// Overwrites the state from a terminal event's authoritative payload.
fn handle_terminal_event(
    state: &mut Option<ResponsesState>,
    metadata: &mut TextMap<String>,
    payload: Json,
    status: &str,
)
    ensures
        optional_state(*final(state)) == Some(
            response_accumulated(
                state_or_blank(optional_state(*old(state))),
                terminal_response(payload@),
            ),
        ),
        texts_of_map(final(metadata)@) == texts_of_map(old(metadata)@).insert(
            "responses.status"@,
            status@,
        ),
{
    let mut payload = payload;
    let response = match payload.take_member("response") {
        Some(response) => response,
        None => payload,
    };
    accumulate_response_object(state, metadata, response, Some(status));
}

/// A state whose response holds the given output items.
pub open spec fn with_items(state: StateView, items: Seq<JsonView>) -> StateView {
    StateView { response_object: with_output_items(state.response_object, items), ..state }
}

/// The state once an item was announced.
pub open spec fn item_added(state: StateView, payload: JsonView) -> StateView {
    match payload.get("item"@) {
        Some(item) => with_items(state, output_items_of(state.response_object).push(item)),
        None => state,
    }
}

/// Pushes a new output item.
fn handle_output_item_added(state: &mut ResponsesState, payload: Json)
    ensures
        final(state)@ == item_added(old(state)@, payload@),
{
    let mut payload = payload;
    if let Some(item) = payload.take_member("item") {
        push_item(state.output_items_mut(), item);
    }
}

/// The first item with the id `id`.
pub open spec fn first_with_id(items: Seq<JsonView>, id: Seq<char>) -> Option<int>
    decreases items.len(),
{
    if items.len() == 0 {
        None
    } else {
        match first_with_id(items.drop_last(), id) {
            Some(at) => Some(at),
            None => if items.last().get_text("id"@) == Some(id) {
                Some(items.len() - 1)
            } else {
                None
            },
        }
    }
}

/// Finds the first item with the id `id`.
fn find_by_id(items: &Vec<Json>, id: &str) -> (found: Option<usize>)
    ensures
        match found {
            Some(at) => at < items.len() && first_with_id(items_view(items@), id@) == Some(
                at as int,
            ),
            None => first_with_id(items_view(items@), id@) is None,
        },
{
    let ghost view = items_view(items@);
    let mut i: usize = 0;
    while i < items.len()
        invariant
            view == items_view(items@),
            i <= items.len(),
            first_with_id(view.take(i as int), id@) is None,
        decreases items.len() - i,
    {
        assert(view.take(i + 1).drop_last() =~= view.take(i as int));
        assert(view.take(i + 1).last() == items@[i as int]@);
        if let Some(held) = items[i].get_str("id") {
            if same_text(held, id) {
                proof {
                    lemma_first_stays(view, id@, i + 1);
                }
                return Some(i);
            }
        }
        i = i + 1;
    }
    assert(view.take(i as int) =~= view);
    None
}

/// Items behind the first one with an id do not count.
proof fn lemma_first_stays(items: Seq<JsonView>, id: Seq<char>, n: int)
    requires
        0 <= n <= items.len(),
        first_with_id(items.take(n), id) is Some,
    ensures
        first_with_id(items, id) == first_with_id(items.take(n), id),
    decreases items.len(),
{
    if n == items.len() {
        assert(items.take(n) =~= items);
    } else {
        assert(items.drop_last().take(n) =~= items.take(n));
        lemma_first_stays(items.drop_last(), id, n);
    }
}

/// The position in this round's output of the index that a payload states.
pub open spec fn position_in_round(payload: JsonView, offset: u64) -> Option<int> {
    match payload.get_unsigned("output_index"@) {
        Some(index) => Some(
            if index >= offset {
                index - offset
            } else {
                0
            },
        ),
        None => None,
    }
}

/// Reads the position in this round's output, where it is below `len`.
fn round_position(payload: &Json, offset: u64, len: usize) -> (at: Option<usize>)
    ensures
        match at {
            Some(at) => at < len && position_in_round(payload@, offset) == Some(at as int),
            None => position_in_round(payload@, offset) is None || position_in_round(
                payload@,
                offset,
            )->0 >= len,
        },
{
    let index = payload.get_u64("output_index")?;
    let position = index.saturating_sub(offset);
    if position < len as u64 {
        Some(position as usize)
    } else {
        None
    }
}

/// The items once `item` was finalized: in place of the item at its index, else of
/// the first item with its id, else behind all others.
pub open spec fn items_with_done(
    items: Seq<JsonView>,
    item: JsonView,
    position: Option<int>,
) -> Seq<JsonView> {
    if position is Some && position->0 < items.len() {
        items.update(position->0, item)
    } else {
        let same = match item.get_text("id"@) {
            Some(id) => first_with_id(items, id),
            None => None,
        };
        match same {
            Some(at) => items.update(at, item),
            None => items.push(item),
        }
    }
}

/// The state once an item was finalized.
pub open spec fn item_done(state: StateView, payload: JsonView, offset: u64) -> StateView {
    match payload.get("item"@) {
        Some(item) => with_items(
            state,
            items_with_done(
                output_items_of(state.response_object),
                item,
                position_in_round(payload, offset),
            ),
        ),
        None => state,
    }
}

/// Puts an item in the place of another.
fn replace_item(items: &mut Vec<Json>, at: usize, item: Json)
    requires
        at < old(items).len(),
    ensures
        items_view(final(items)@) == items_view(old(items)@).update(at as int, item@),
{
    let ghost before = items@;
    items.set(at, item);
    assert(items_view(items@) =~= items_view(before).update(at as int, item@));
}

/// Finalizes an item among the output items.
fn finish_item(items: &mut Vec<Json>, item: Json, payload: &Json, output_index_offset: u64)
    ensures
        items_view(final(items)@) == items_with_done(
            items_view(old(items)@),
            item@,
            position_in_round(payload@, output_index_offset),
        ),
{
    if let Some(at) = round_position(payload, output_index_offset, items.len()) {
        replace_item(items, at, item);
        return;
    }
    let same = match item.get_str("id") {
        Some(id) => find_by_id(items, id),
        None => None,
    };
    match same {
        Some(at) => replace_item(items, at, item),
        None => push_item(items, item),
    }
}

/// Replaces an existing output item by index or id, or appends it if new.
fn handle_output_item_done(state: &mut ResponsesState, payload: Json, output_index_offset: u64)
    ensures
        final(state)@ == item_done(old(state)@, payload@, output_index_offset),
{
    if let Some(item) = payload.get("item") {
        finish_item(state.output_items_mut(), item.clone(), &payload, output_index_offset);
    }
}

/// The stable key of argument events: the item's id, or its output index.
pub open spec fn argument_key(payload: JsonView) -> Option<Seq<char>> {
    match payload.get_text("item_id"@) {
        Some(id) => Some("item:"@ + id),
        None => match payload.get_unsigned("output_index"@) {
            Some(index) => Some("index:"@ + decimal(index as nat)),
            None => None,
        },
    }
}

/// Builds the stable key used by argument events.
pub fn tool_call_key(payload: &Json) -> (key: Option<String>)
    ensures
        match key {
            Some(key) => argument_key(payload@) == Some(key@),
            None => argument_key(payload@) is None,
        },
{
    match payload.get_str("item_id") {
        Some(id) => Some(join("item:", id)),
        None => match payload.get_u64("output_index") {
            Some(index) => Some(with_decimal("index:", index)),
            None => None,
        },
    }
}

/// The arguments held of a call, empty where there are none.
pub open spec fn held_arguments(parser: ParserView, key: Seq<char>) -> Seq<char> {
    match text_at(parser.args, key) {
        Some(held) => held,
        None => Seq::empty(),
    }
}

/// The parser once a call's arguments were dropped and every later event of the
/// call is refused.
pub open spec fn arguments_refused(parser: ParserView, key: Seq<char>) -> ParserView {
    ParserView { args: parser.args.remove(key), rejected: parser.rejected.insert(key), ..parser }
}

/// The parser once an argument delta was taken in.
pub open spec fn delta_taken(parser: ParserView, payload: JsonView) -> ParserView {
    match (argument_key(payload), payload.get_text("delta"@)) {
        (Some(key), Some(delta)) => if parser.rejected.contains(key) {
            parser
        } else if utf8(held_arguments(parser, key)).len() + utf8(delta).len()
            > parser.max_argument_bytes {
            arguments_refused(parser, key)
        } else {
            ParserView {
                args: parser.args.insert(key, held_arguments(parser, key) + delta),
                ..parser
            }
        },
        _ => parser,
    }
}

/// Drops an overflowing argument buffer and rejects every later event for `key`.
fn reject_overflowing_tool_call(parser: &mut StreamEventsState, key: &str)
    ensures
        final(parser)@ == arguments_refused(old(parser)@, key@),
{
    let ghost before = parser@;
    parser.tool_call_args.take_text(key);
    parser.rejected_tool_call_args.insert(key);
    assert(parser@ =~= arguments_refused(before, key@));
}

/// Appends a function-call argument delta to the running buffer.
pub fn handle_function_call_delta(parser: &mut StreamEventsState, payload: &Json)
    ensures
        final(parser)@ == delta_taken(old(parser)@, payload@),
{
    let ghost before = parser@;
    let key = match tool_call_key(payload) {
        Some(key) => key,
        None => return,
    };
    let delta = match payload.get_str("delta") {
        Some(delta) => delta,
        None => return,
    };
    if parser.rejected_tool_call_args.contains(key.as_str()) {
        return;
    }
    let longer = match parser.tool_call_args.text(key.as_str()) {
        Some(held) => join(held, delta),
        None => {
            assert(Seq::<char>::empty() + delta@ =~= delta@);
            delta.to_owned()
        },
    };
    assert(longer@ =~= held_arguments(before, key@) + delta@);
    proof {
        crate::text::lemma_utf8_concat(held_arguments(before, key@), delta@);
    }
    if byte_len(longer.as_str()) > parser.limits.max_tool_call_argument_bytes {
        reject_overflowing_tool_call(parser, key.as_str());
    } else {
        parser.tool_call_args.put_text(key.as_str(), longer.as_str());
        assert(parser@ =~= delta_taken(before, payload@));
    }
}

/// Whether finished arguments are over the cap.
pub open spec fn is_oversized(parser: ParserView, payload: JsonView) -> bool {
    match payload.get_text("arguments"@) {
        Some(arguments) => utf8(arguments).len() > parser.max_argument_bytes,
        None => false,
    }
}

/// The parser once the end of a call's arguments was taken in.
pub open spec fn done_taken(parser: ParserView, payload: JsonView) -> ParserView {
    match argument_key(payload) {
        Some(key) => if parser.rejected.contains(key) {
            parser
        } else if is_oversized(parser, payload) {
            arguments_refused(parser, key)
        } else {
            ParserView { args: parser.args.remove(key), ..parser }
        },
        None => parser,
    }
}

/// The arguments that the end of a call settles: those of the payload, else the
/// accumulated ones. `None` where the call is refused.
pub open spec fn final_arguments(parser: ParserView, payload: JsonView) -> Option<Seq<char>> {
    match argument_key(payload) {
        Some(key) => if parser.rejected.contains(key) || is_oversized(parser, payload) {
            None
        } else {
            match payload.get_text("arguments"@) {
                Some(arguments) => Some(arguments),
                None => Some(held_arguments(parser, key)),
            }
        },
        None => None,
    }
}

/// Settles the arguments of a finished call.
///
/// Arguments over the cap are dropped, and every later event for the call is
/// rejected.
fn settle_arguments(parser: &mut StreamEventsState, payload: &Json) -> (arguments: Option<String>)
    ensures
        final(parser)@ == done_taken(old(parser)@, payload@),
        match arguments {
            Some(arguments) => final_arguments(old(parser)@, payload@) == Some(arguments@),
            None => final_arguments(old(parser)@, payload@) is None,
        },
{
    let ghost before = parser@;
    let key = tool_call_key(payload)?;
    if parser.rejected_tool_call_args.contains(key.as_str()) {
        return None;
    }
    if let Some(arguments) = payload.get_str("arguments") {
        if byte_len(arguments) > parser.limits.max_tool_call_argument_bytes {
            reject_overflowing_tool_call(parser, key.as_str());
            return None;
        }
    }
    let accumulated = parser.tool_call_args.take_text(key.as_str());
    assert(parser@ =~= done_taken(before, payload@));
    match payload.get_str("arguments") {
        Some(arguments) => Some(arguments.to_owned()),
        None => match accumulated {
            Some(accumulated) => Some(accumulated),
            None => {
                let empty = String::new();
                assert(empty@ =~= Seq::<char>::empty());
                Some(empty)
            },
        },
    }
}

/// The position of the item that an argument event is about: the item with its
/// id, else the item at its index.
pub open spec fn target_of(items: Seq<JsonView>, payload: JsonView, offset: u64) -> Option<int> {
    let by_id = match payload.get_text("item_id"@) {
        Some(id) => first_with_id(items, id),
        None => None,
    };
    match by_id {
        Some(at) => Some(at),
        None => {
            let position = position_in_round(payload, offset);
            if position is Some && position->0 < items.len() {
                position
            } else {
                None
            }
        },
    }
}

/// Finds the output item targeted by a function-call arguments event.
fn find_output_item(items: &Vec<Json>, payload: &Json, output_index_offset: u64) -> (found: Option<
    usize,
>)
    ensures
        match found {
            Some(at) => at < items.len() && target_of(
                items_view(items@),
                payload@,
                output_index_offset,
            ) == Some(at as int),
            None => target_of(items_view(items@), payload@, output_index_offset) is None,
        },
{
    if let Some(id) = payload.get_str("item_id") {
        if let Some(at) = find_by_id(items, id) {
            return Some(at);
        }
    }
    round_position(payload, output_index_offset, items.len())
}

/// A function call with its final arguments; anything else is left.
pub open spec fn call_completed(item: JsonView, arguments: Seq<char>) -> JsonView {
    if item.get_text("type"@) != Some("function_call"@) {
        item
    } else {
        let filled = item.with("arguments"@, JsonView::String(arguments));
        let status = filled.get_text("status"@);
        if status == Some("completed"@) || status == Some("incomplete"@) {
            filled
        } else {
            filled.with("status"@, JsonView::String("completed"@))
        }
    }
}

/// Applies finalized arguments to an existing function-call item.
pub fn complete_function_call_item(item: &mut Json, arguments: &str)
    ensures
        final(item)@ == call_completed(old(item)@, arguments@),
{
    let is_call = match item.get_str("type") {
        Some(kind) => same_text(kind, "function_call"),
        None => false,
    };
    if !is_call {
        return;
    }
    item.set("arguments", string(arguments));
    let settled = match item.get_str("status") {
        Some(status) => same_text(status, "completed") || same_text(status, "incomplete"),
        None => false,
    };
    if !settled {
        item.set("status", string("completed"));
    }
}

/// The state once a call's arguments were settled.
pub open spec fn call_settled(
    state: StateView,
    payload: JsonView,
    arguments: Seq<char>,
    offset: u64,
) -> StateView {
    let items = output_items_of(state.response_object);
    with_items(
        state,
        match target_of(items, payload, offset) {
            Some(at) => items.update(at, call_completed(items[at], arguments)),
            None => items,
        },
    )
}

/// Completes the targeted function call among the output items.
fn complete_target(items: &mut Vec<Json>, payload: &Json, arguments: &str, offset: u64)
    ensures
        items_view(final(items)@) == (match target_of(items_view(old(items)@), payload@, offset) {
            Some(at) => items_view(old(items)@).update(
                at,
                call_completed(items_view(old(items)@)[at], arguments@),
            ),
            None => items_view(old(items)@),
        }),
{
    let ghost before = items@;
    if let Some(at) = find_output_item(items, payload, offset) {
        complete_function_call_item(&mut items[at], arguments);
        assert(items_view(items@) =~= items_view(before).update(at as int, items@[at as int]@));
    }
}

/// Applies finalized arguments to the matching canonical output item.
fn finalize_function_call(
    state: &mut ResponsesState,
    payload: &Json,
    arguments: &str,
    output_index_offset: u64,
)
    ensures
        final(state)@ == call_settled(old(state)@, payload@, arguments@, output_index_offset),
{
    complete_target(state.output_items_mut(), payload, arguments, output_index_offset);
}

/// The parser once an event was accumulated.
pub open spec fn parser_accumulated(parser: ParserView, event: EventView) -> ParserView {
    if event.event_type == "response.function_call_arguments.delta"@ {
        delta_taken(parser, event.payload)
    } else if event.event_type == "response.function_call_arguments.done"@ {
        done_taken(parser, event.payload)
    } else {
        parser
    }
}

/// The state once an event was accumulated.
pub open spec fn state_accumulated(
    parser: ParserView,
    state: Option<StateView>,
    event: EventView,
) -> Option<StateView> {
    let held = state_or_blank(state);
    if is_terminal_type(event.event_type) {
        Some(response_accumulated(held, terminal_response(event.payload)))
    } else if event.event_type == "response.output_item.added"@ {
        Some(item_added(held, event.payload))
    } else if event.event_type == "response.output_item.done"@ {
        Some(item_done(held, event.payload, parser.offset))
    } else if event.event_type == "response.function_call_arguments.done"@ {
        match final_arguments(parser, event.payload) {
            Some(arguments) => Some(call_settled(held, event.payload, arguments, parser.offset)),
            None => state,
        }
    } else {
        state
    }
}

/// The metadata once an event was accumulated.
pub open spec fn metadata_accumulated(
    metadata: Map<Seq<char>, Seq<char>>,
    event: EventView,
) -> Map<Seq<char>, Seq<char>> {
    if is_terminal_type(event.event_type) {
        metadata.insert("responses.status"@, terminal_status(event.event_type))
    } else {
        metadata
    }
}

/// Processes a single event, updating the request's state and the accumulation
/// state of the stream.
///
/// Error events and unknown event types change nothing.
pub fn accumulate_event(
    parser: &mut StreamEventsState,
    state: &mut Option<ResponsesState>,
    metadata: &mut TextMap<String>,
    event: ResponsesEvent,
)
    ensures
        final(parser)@ == parser_accumulated(old(parser)@, event@),
        optional_state(*final(state)) == state_accumulated(
            old(parser)@,
            optional_state(*old(state)),
            event@,
        ),
        texts_of_map(final(metadata)@) == metadata_accumulated(texts_of_map(old(metadata)@), event@),
{
    let ghost before = parser@;
    proof {
        lemma_types_differ();
    }
    if event.is("response.completed") {
        handle_terminal_event(state, metadata, event.payload, "completed");
    } else if event.is("response.incomplete") {
        handle_terminal_event(state, metadata, event.payload, "incomplete");
    } else if event.is("response.failed") {
        handle_terminal_event(state, metadata, event.payload, "failed");
    } else if event.is("response.output_item.added") {
        handle_output_item_added(state_mut(state), event.payload);
    } else if event.is("response.output_item.done") {
        handle_output_item_done(state_mut(state), event.payload, parser.output_index_offset);
    } else if event.is("response.function_call_arguments.delta") {
        handle_function_call_delta(parser, &event.payload);
    } else if event.is("response.function_call_arguments.done") {
        let offset = parser.output_index_offset;
        if let Some(arguments) = settle_arguments(parser, &event.payload) {
            finalize_function_call(state_mut(state), &event.payload, arguments.as_str(), offset);
        }
    }
}

/// The event types that are told apart are different.
proof fn lemma_types_differ()
    ensures
        "response.completed"@ != "response.incomplete"@,
        forall|t: Seq<char>|
            is_terminal_type(t) ==> t != "response.function_call_arguments.delta"@ && t
                != "response.function_call_arguments.done"@,
        "response.output_item.added"@ != "response.function_call_arguments.delta"@,
        "response.output_item.added"@ != "response.function_call_arguments.done"@,
        "response.output_item.done"@ != "response.function_call_arguments.delta"@,
        "response.output_item.done"@ != "response.function_call_arguments.done"@,
        "response.function_call_arguments.delta"@ != "response.function_call_arguments.done"@,
{
    reveal_strlit("response.completed");
    reveal_strlit("response.incomplete");
    reveal_strlit("response.failed");
    reveal_strlit("response.output_item.added");
    reveal_strlit("response.output_item.done");
    reveal_strlit("response.function_call_arguments.delta");
    reveal_strlit("response.function_call_arguments.done");
    assert("response.completed"@.len() == 18);
    assert("response.incomplete"@.len() == 19);
    assert("response.failed"@.len() == 15);
    assert("response.output_item.added"@.len() == 26);
    assert("response.output_item.done"@.len() == 25);
    assert("response.function_call_arguments.delta"@.len() == 38);
    assert("response.function_call_arguments.done"@.len() == 37);
}

} // verus!
