//! What of a provider's stream the client sees: pass-through, suppression,
//! deferral of the terminal event, and the end of the logical stream.

use vstd::prelude::*;

use crate::json::{clone_items, items_view, string, Json, JsonView};
use crate::openai::sse::{is_terminal_type, EventView, ResponsesEvent};
use crate::openai::state::{blank_state, EmittedView, ResponsesState, StateView};
use crate::openai::stream_events::digest::{digest_of, item_digest};
use crate::openai::stream_events::lifecycle::{
    expected_phase_events, expected_phases, is_local_tool, is_local_tool_item,
    is_local_tool_progress_event, is_progress_type,
};
use crate::openai::stream_events::logical::{
    emit_event, emitted_event, entry_of, events_bytes, flush_local_output_items, flushed,
    lemma_events_bytes_push, put_entry, state_after_payload, take_entry, with_entry,
};
use crate::openai::stream_events::parser_state::{ParserView, StreamEventsState};
use crate::text::{push_text, utf8};

verus! {

broadcast use crate::json_model::group_json_view;

/// The local tool item that a payload carries, with its id.
pub open spec fn local_item(payload: JsonView) -> Option<(Seq<char>, JsonView)> {
    match payload.get("item"@) {
        Some(item) => if is_local_tool(item) {
            match item.get_text("id"@) {
                Some(id) => Some((id, item)),
                None => None,
            }
        } else {
            None
        },
        None => None,
    }
}

/// The local tool item that a payload carries.
fn carried_item(payload: &Json) -> (found: Option<(&str, &Json)>)
    ensures
        match found {
            Some((id, item)) => local_item(payload@) == Some((id@, item@)),
            None => local_item(payload@) is None,
        },
{
    let item = payload.get("item")?;
    if !is_local_tool_item(item) {
        return None;
    }
    let id = item.get_str("id")?;
    Some((id, item))
}

/// Whether an event type announces or finalizes an output item.
pub open spec fn is_item_type(event_type: Seq<char>) -> bool {
    event_type == "response.output_item.added"@ || event_type == "response.output_item.done"@
}

/// The state once the milestones that a model event proves were recorded.
///
/// An announcement or finalization proves the announcement and the content, but
/// nothing of the tool-specific progress; only a progress event proves its phase.
pub open spec fn recorded(state: StateView, event: EventView) -> StateView {
    if is_item_type(event.event_type) {
        match local_item(event.payload) {
            Some((id, item)) => with_entry(
                state,
                id,
                EmittedView {
                    added: true,
                    content_digest: digest_of(item),
                    ..entry_of(state.emitted, id)
                },
            ),
            None => state,
        }
    } else if is_progress_type(event.event_type) {
        match event.payload.get_text("item_id"@) {
            Some(id) => {
                let entry = entry_of(state.emitted, id);
                with_entry(
                    state,
                    id,
                    EmittedView {
                        added: true,
                        phases: entry.phases.insert(event.event_type),
                        ..entry
                    },
                )
            },
            None => state,
        }
    } else {
        state
    }
}

/// Records which client-visible milestones the model backend streamed for a
/// local tool item.
pub fn record_model_output_item(state: &mut ResponsesState, event: &ResponsesEvent)
    ensures
        final(state)@ == recorded(old(state)@, event@),
{
    let ghost before = state@;
    if event.is("response.output_item.added") || event.is("response.output_item.done") {
        if let Some((id, item)) = carried_item(&event.payload) {
            let mut entry = take_entry(state, id);
            entry.added = true;
            entry.content_digest = item_digest(item);
            put_entry(state, id, entry);
            assert(state@ =~= recorded(before, event@));
        }
    } else if is_local_tool_progress_event(event.event_type.as_str()) {
        if let Some(id) = event.payload.get_str("item_id") {
            let mut entry = take_entry(state, id);
            entry.added = true;
            entry.streamed_phases.insert(event.event_type.as_str());
            put_entry(state, id, entry);
            assert(state@ =~= recorded(before, event@));
        }
    }
}

/// Whether an event finalizes a local tool item whose last expected phase was not
/// streamed.
pub open spec fn is_premature_done(state: StateView, event: EventView) -> bool {
    event.event_type == "response.output_item.done"@ && match local_item(event.payload) {
        Some((id, item)) => {
            let expected = expected_phases(item);
            expected.len() > 0 && !entry_of(state.emitted, id).phases.contains(expected.last())
        },
        None => false,
    }
}

/// Whether this event is a model-streamed finalization of a locally executed tool
/// item whose terminal lifecycle phase has not streamed in-band.
///
/// The tool runs after this round, so its progress and outcome are unknown here;
/// a later flush emits the one ordered finalization.
pub fn is_premature_local_tool_done(state: &ResponsesState, event: &ResponsesEvent) -> (premature:
    bool)
    ensures
        premature == is_premature_done(state@, event@),
{
    if !event.is("response.output_item.done") {
        return false;
    }
    let (id, item) = match carried_item(&event.payload) {
        Some(found) => found,
        None => return false,
    };
    let expected = expected_phase_events(item);
    assert(expected@.len() == expected_phases(item@).len());
    if expected.len() == 0 {
        return false;
    }
    let last = expected[expected.len() - 1];
    assert(last@ == expected_phases(item@).last());
    match state.emitted_output_items.get(id) {
        Some(entry) => !entry.streamed_phases.contains(last),
        None => true,
    }
}

/// The state once the finalization of a local tool item was passed through.
pub open spec fn done_recorded(state: StateView, event: EventView) -> StateView {
    if event.event_type == "response.output_item.done"@ {
        match local_item(event.payload) {
            Some((id, _)) => with_entry(
                state,
                id,
                EmittedView { done: true, ..entry_of(state.emitted, id) },
            ),
            None => state,
        }
    } else {
        state
    }
}

/// Records that a model-streamed finalization reached the client for a local tool
/// item, so that each local item is finalized exactly once.
pub fn mark_local_done_delivered(state: &mut ResponsesState, event: &ResponsesEvent)
    ensures
        final(state)@ == done_recorded(old(state)@, event@),
{
    let ghost before = state@;
    if !event.is("response.output_item.done") {
        return;
    }
    if let Some((id, _)) = carried_item(&event.payload) {
        let mut entry = take_entry(state, id);
        entry.done_delivered = true;
        put_entry(state, id, entry);
        assert(state@ =~= done_recorded(before, event@));
    }
}

/// The model of an optional state.
pub open spec fn optional_state(state: Option<ResponsesState>) -> Option<StateView> {
    match state {
        Some(state) => Some(state@),
        None => None,
    }
}

/// A state, blank where there is none.
pub open spec fn state_or_blank(state: Option<StateView>) -> StateView {
    match state {
        Some(state) => state,
        None => blank_state(),
    }
}

/// The state, to be changed; a blank one is put in where there is none.
pub fn state_mut(state: &mut Option<ResponsesState>) -> (held: &mut ResponsesState)
    ensures
        held@ == state_or_blank(optional_state(*old(state))),
        *final(state) == Some(*final(held)),
{
    if state.is_none() {
        *state = Some(ResponsesState::default());
    }
    match state {
        Some(held) => held,
        None => vstd::pervasive::unreached(),
    }
}

/// Whether an event type opens a response's lifecycle.
pub open spec fn is_opening_type(event_type: Seq<char>) -> bool {
    event_type == "response.created"@ || event_type == "response.queued"@ || event_type
        == "response.in_progress"@
}

/// The parser, the state and the emitted events once an event that is neither
/// deferred nor dropped was taken in.
pub open spec fn output_appended(parser: ParserView, state: StateView, event: EventView) -> (
    ParserView,
    StateView,
    Seq<EventView>,
) {
    let seen = recorded(state, event);
    let due = parser.iteration > 0 && !parser.flushed;
    let (held, earlier) = if due {
        flushed(seen)
    } else {
        (seen, Seq::empty())
    };
    let after = if due {
        ParserView { flushed: true, ..parser }
    } else {
        parser
    };
    if is_premature_done(held, event) {
        (after, held, earlier)
    } else {
        let told = done_recorded(held, event);
        (
            after,
            state_after_payload(told, event.payload),
            earlier.push(emitted_event(told, event.event_type, event.payload, parser.offset)),
        )
    }
}

/// The parser, the state and the emitted events once a provider's event was taken
/// into the logical stream: a terminal event is deferred, and the opening of a
/// later round is dropped.
pub open spec fn appended(parser: ParserView, state: Option<StateView>, event: EventView) -> (
    ParserView,
    Option<StateView>,
    Seq<EventView>,
) {
    if is_terminal_type(event.event_type) {
        (ParserView { deferred: Some(event), ..parser }, state, Seq::empty())
    } else if parser.iteration > 0 && is_opening_type(event.event_type) {
        (parser, state, Seq::empty())
    } else {
        let (after, held, events) = output_appended(parser, state_or_blank(state), event);
        (after, Some(held), events)
    }
}

/// Takes in an event that is neither deferred nor dropped.
fn append_output_event(
    parser: &mut StreamEventsState,
    state: &mut ResponsesState,
    event: &ResponsesEvent,
    output: &mut Vec<u8>,
)
    ensures
        final(parser)@ == output_appended(old(parser)@, old(state)@, event@).0,
        final(state)@ == output_appended(old(parser)@, old(state)@, event@).1,
        final(output)@ == old(output)@ + events_bytes(
            output_appended(old(parser)@, old(state)@, event@).2,
        ),
{
    let ghost start = parser@;
    let ghost given = state@;
    let ghost written = output@;
    record_model_output_item(state, event);
    let ghost seen = state@;
    let ghost due = start.iteration > 0 && !start.flushed;
    let ghost earlier = if due {
        flushed(seen).1
    } else {
        Seq::<EventView>::empty()
    };
    assert(written + events_bytes(Seq::<EventView>::empty()) =~= written);
    if parser.iteration > 0 && !parser.local_items_flushed {
        flush_local_output_items(state, output);
        parser.local_items_flushed = true;
        assert(parser@ =~= ParserView { flushed: true, ..start });
    }
    if is_premature_local_tool_done(state, event) {
        return;
    }
    mark_local_done_delivered(state, event);
    proof {
        lemma_events_bytes_push(
            earlier,
            emitted_event(state@, event@.event_type, event@.payload, parser@.offset),
        );
    }
    emit_event(
        state,
        event.event_type.as_str(),
        event.payload.clone(),
        parser.output_index_offset,
        output,
    );
    assert(output@ =~= written + events_bytes(output_appended(start, given, event@).2));
}

/// Appends one provider event to the logical stream, or defers or suppresses it.
pub fn append_logical_event(
    parser: &mut StreamEventsState,
    state: &mut Option<ResponsesState>,
    event: &ResponsesEvent,
    output: &mut Vec<u8>,
)
    ensures
        final(parser)@ == appended(old(parser)@, optional_state(*old(state)), event@).0,
        optional_state(*final(state)) == appended(
            old(parser)@,
            optional_state(*old(state)),
            event@,
        ).1,
        final(output)@ == old(output)@ + events_bytes(
            appended(old(parser)@, optional_state(*old(state)), event@).2,
        ),
{
    let ghost start = parser@;
    let ghost given = optional_state(*state);
    assert(output@ + events_bytes(Seq::<EventView>::empty()) =~= output@);
    if event.is_terminal() {
        parser.deferred_terminal = Some(
            ResponsesEvent { event_type: event.event_type.clone(), payload: event.payload.clone() },
        );
        assert(parser@ =~= appended(start, given, event@).0);
        return;
    }
    let opening = event.is("response.created") || event.is("response.queued") || event.is(
        "response.in_progress",
    );
    if parser.iteration > 0 && opening {
        return;
    }
    let held = state_mut(state);
    append_output_event(parser, held, event, output);
}

/// A response with the output and, where there is any, the usage of all rounds.
pub open spec fn with_totals(response: JsonView, output: Seq<JsonView>, usage: JsonView) -> JsonView {
    let filled = response.with("output"@, JsonView::Array(output));
    if usage == JsonView::Null {
        filled
    } else {
        filled.with("usage"@, usage)
    }
}

/// The state once its response agrees with the logical stream: logical id, output
/// and usage of all rounds.
pub open spec fn canonicalized(state: StateView) -> StateView {
    let named = match state.logical_id {
        Some(id) => state.response_object.with("id"@, JsonView::String(id)),
        None => state.response_object,
    };
    StateView { response_object: with_totals(named, state.output, state.usage), ..state }
}

/// Puts the output and the usage of all rounds into a response.
fn set_totals(response: &mut Json, output: Vec<Json>, usage: &Json)
    ensures
        final(response)@ == with_totals(old(response)@, items_view(output@), usage@),
{
    response.set("output", Json::Array(output));
    if !usage.is_null() {
        response.set("usage", usage.clone());
    }
}

/// Makes the response that is stored agree with the logical terminal event.
pub fn canonicalize_logical_response(state: &mut ResponsesState)
    ensures
        final(state)@ == canonicalized(old(state)@),
{
    let ghost before = state@;
    if let Some(id) = &state.logical_stream_response_id {
        state.response_object.set("id", string(id.as_str()));
    }
    let output = clone_items(&state.accumulated_output);
    set_totals(&mut state.response_object, output, &state.usage);
    assert(state@ =~= canonicalized(before));
}

/// A terminal payload whose response, where it has one, carries the output and
/// the usage of all rounds.
pub open spec fn terminal_payload(payload: JsonView, state: StateView) -> JsonView {
    match payload.get("response"@) {
        Some(response) => if response is Object {
            payload.with("response"@, with_totals(response, state.output, state.usage))
        } else {
            payload
        },
        None => payload,
    }
}

/// Fills the response of a terminal payload.
fn fill_terminal(payload: &mut Json, state: &ResponsesState)
    ensures
        final(payload)@ == terminal_payload(old(payload)@, state@),
{
    let filled = match payload.get("response") {
        Some(response) => if response.is_object() {
            let mut response = response.clone();
            set_totals(&mut response, clone_items(&state.accumulated_output), &state.usage);
            Some(response)
        } else {
            None
        },
        None => None,
    };
    if let Some(response) = filled {
        payload.set("response", response);
    }
}

/// The bytes of the sentinel that some providers end a stream with.
pub open spec fn sentinel_bytes(due: bool) -> Seq<u8> {
    if due {
        utf8("data: [DONE]\n\n"@)
    } else {
        Seq::empty()
    }
}

/// The state and the events that end the logical stream with the terminal event:
/// local items that are still owed, then the terminal snapshot.
pub open spec fn terminal_emitted(state: StateView, terminal: EventView, offset: u64) -> (
    StateView,
    Seq<EventView>,
) {
    let (held, events) = flushed(state);
    let stored = canonicalized(held);
    let payload = terminal_payload(terminal.payload, stored);
    (
        state_after_payload(stored, payload),
        events.push(emitted_event(stored, terminal.event_type, payload, offset)),
    )
}

/// Emits the deferred terminal snapshot as the logical stream's final event,
/// preceded by any locally generated tool items not yet streamed to the client.
pub fn emit_deferred_terminal(
    state: &mut ResponsesState,
    terminal: ResponsesEvent,
    output_index_offset: u64,
    deferred_done: bool,
    output: &mut Vec<u8>,
)
    ensures
        final(state)@ == terminal_emitted(old(state)@, terminal@, output_index_offset).0,
        final(output)@ == old(output)@ + events_bytes(
            terminal_emitted(old(state)@, terminal@, output_index_offset).1,
        ) + sentinel_bytes(deferred_done),
{
    let ghost start = state@;
    let ghost written = output@;
    flush_local_output_items(state, output);
    canonicalize_logical_response(state);
    let mut payload = terminal.payload;
    fill_terminal(&mut payload, state);
    proof {
        lemma_events_bytes_push(
            flushed(start).1,
            emitted_event(state@, terminal@.event_type, payload@, output_index_offset),
        );
    }
    emit_event(state, terminal.event_type.as_str(), payload, output_index_offset, output);
    if deferred_done {
        push_text(output, "data: [DONE]\n\n");
    }
    assert(output@ =~= written + events_bytes(
        terminal_emitted(start, terminal@, output_index_offset).1,
    ) + sentinel_bytes(deferred_done));
}

/// The state and the events that end the logical stream with an error: local
/// items that are still owed, then the error.
pub open spec fn error_emitted(state: StateView, error: JsonView, offset: u64) -> (
    StateView,
    Seq<EventView>,
) {
    let (held, events) = flushed(state);
    (
        state_after_payload(held, error),
        events.push(emitted_event(held, "error"@, error, offset)),
    )
}

/// What the end of a round does to a logical stream: nothing where another round
/// follows; else the error or, without one, the deferred terminal event ends it.
pub open spec fn finalized(
    parser: ParserView,
    state: Option<StateView>,
    continues: bool,
    error: Option<JsonView>,
) -> (ParserView, Option<StateView>, Option<Seq<u8>>) {
    if continues {
        (parser, state, None)
    } else {
        match (error, parser.deferred) {
            (Some(error), _) => {
                let (held, events) = error_emitted(state_or_blank(state), error, parser.offset);
                (parser, Some(held), Some(events_bytes(events)))
            },
            (None, Some(terminal)) => {
                let (held, events) = terminal_emitted(
                    state_or_blank(state),
                    terminal,
                    parser.offset,
                );
                (
                    ParserView { deferred: None, ..parser },
                    Some(held),
                    Some(events_bytes(events) + sentinel_bytes(parser.deferred_done)),
                )
            },
            (None, None) => (parser, state, None),
        }
    }
}

/// The bytes of an optional body.
pub open spec fn optional_body(body: Option<Vec<u8>>) -> Option<Seq<u8>> {
    match body {
        Some(body) => Some(body@),
        None => None,
    }
}

/// The model of an optional value.
pub open spec fn optional_json(value: Option<Json>) -> Option<JsonView> {
    match value {
        Some(value) => Some(value@),
        None => None,
    }
}

/// Emits the held terminal event only when the current round is the last.
///
/// An error ends the stream in its place. Locally executed tool items that never
/// reached the client come first in either case.
pub fn finalize_logical_round(
    parser: &mut StreamEventsState,
    state: &mut Option<ResponsesState>,
    continues: bool,
    error: Option<Json>,
) -> (body: Option<Vec<u8>>)
    ensures
        ({
            let expected = finalized(
                old(parser)@,
                optional_state(*old(state)),
                continues,
                optional_json(error),
            );
            &&& final(parser)@ == expected.0
            &&& optional_state(*final(state)) == expected.1
            &&& optional_body(body) == expected.2
        }),
{
    let ghost start = parser@;
    if continues {
        return None;
    }
    let mut output: Vec<u8> = Vec::new();
    if let Some(error) = error {
        let held = state_mut(state);
        let ghost given = held@;
        flush_local_output_items(held, &mut output);
        proof {
            lemma_events_bytes_push(
                flushed(given).1,
                emitted_event(held@, "error"@, error@, parser@.offset),
            );
        }
        emit_event(held, "error", error, parser.output_index_offset, &mut output);
        assert(output@ =~= events_bytes(error_emitted(given, error@, start.offset).1));
        return Some(output);
    }
    if let Some(terminal) = parser.deferred_terminal.take() {
        let held = state_mut(state);
        let ghost given = held@;
        emit_deferred_terminal(
            held,
            terminal,
            parser.output_index_offset,
            parser.deferred_done,
            &mut output,
        );
        assert(output@ =~= events_bytes(terminal_emitted(given, terminal@, start.offset).1)
            + sentinel_bytes(start.deferred_done));
        assert(parser@ =~= ParserView { deferred: None, ..start });
        return Some(output);
    }
    assert(parser@ =~= start);
    None
}

} // verus!
