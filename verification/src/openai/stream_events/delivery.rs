//! What the client of a logical stream is given: every event of the provider under
//! its own type and with what it says, one terminal event that is the provider's,
//! and the local items with their content.

use vstd::prelude::*;

use crate::json::{
    lemma_get_with, lemma_get_with_other, lemma_position_is, with_member, JsonView, NumberView,
};
use crate::openai::sse::EventView;
use crate::openai::state::{nothing_emitted, StateView};
use crate::openai::stream_events::chunks::committed;
use crate::openai::stream_events::digest::digest_of;
use crate::openai::stream_events::emission::{
    appended, canonicalized, done_recorded, error_emitted, finalized, is_premature_done,
    local_item, output_appended, recorded, state_or_blank, terminal_emitted, terminal_payload, with_totals,
};
use crate::openai::stream_events::laws::{lemma_pending, lemma_synthesized};
use crate::openai::stream_events::lifecycle::{
    expected_phases, frontier, is_progress_type, lemma_frontier, streamed_of, PlanView,
};
use crate::openai::stream_events::logical::{
    emitted_event, emitted_pending, events_bytes, flushed, is_executed_item, item_id_of,
    known_entry, lifecycle_payload, logical_id_after, marked, normalized_payload, number, owed_by,
    pending_of, phase_payload, phases_emitted, state_after_payload, synthesized, with_logical_id,
    with_offset, PendingItemView,
};
use crate::openai::stream_events::parser_state::ParserView;
use crate::openai::usage::saturating_sum;
use crate::text::utf8;

verus! {

/// The names that are told apart are different.
proof fn lemma_names()
    ensures
        "output_index"@ != "response_id"@,
        "output_index"@ != "response"@,
        "output_index"@ != "sequence_number"@,
        "response_id"@ != "response"@,
        "response_id"@ != "sequence_number"@,
        "response"@ != "sequence_number"@,
        "id"@ != "output"@,
        "id"@ != "usage"@,
        "output"@ != "usage"@,
        "item"@ != "type"@,
        "item"@ != "response_id"@,
        "item"@ != "output_index"@,
        "item"@ != "response"@,
        "item"@ != "sequence_number"@,
        "item_id"@ != "type"@,
        "item_id"@ != "response_id"@,
        "item_id"@ != "output_index"@,
        "item_id"@ != "response"@,
        "item_id"@ != "sequence_number"@,
        "type"@ != "response_id"@,
        "type"@ != "output_index"@,
        "type"@ != "response"@,
        "type"@ != "sequence_number"@,
{
    reveal_strlit("output_index");
    reveal_strlit("response_id");
    reveal_strlit("response");
    reveal_strlit("sequence_number");
    reveal_strlit("id");
    reveal_strlit("output");
    reveal_strlit("usage");
    reveal_strlit("item");
    reveal_strlit("item_id");
    reveal_strlit("type");
    assert("output_index"@.len() == 12);
    assert("response_id"@.len() == 11);
    assert("response"@.len() == 8);
    assert("sequence_number"@.len() == 15);
    assert("id"@.len() == 2);
    assert("output"@.len() == 6);
    assert("usage"@.len() == 5);
    assert("item"@.len() == 4);
    assert("item_id"@.len() == 7);
    assert("type"@.len() == 4);
    assert("item"@[0] == 'i' && "type"@[0] == 't');
}

/// Whether a payload is shown as it was sent, but for what one logical stream has in
/// common: its output index counts from the first round on, its response carries the
/// logical id, and it has its sequence number.
pub open spec fn shows_payload(
    shown: JsonView,
    sent: JsonView,
    offset: u64,
    id: Option<Seq<char>>,
    sequence: u64,
) -> bool {
    &&& shown is Object
    &&& forall|name: Seq<char>|
        #![trigger shown.get(name)]
        name != "output_index"@ && name != "response_id"@ && name != "response"@ && name
            != "sequence_number"@ ==> shown.get(name) == sent.get(name)
    &&& shown.get("sequence_number"@) == Some(JsonView::Number(NumberView::Unsigned(sequence)))
    &&& match sent.get("output_index"@) {
        Some(JsonView::Number(NumberView::Unsigned(index))) => match shown.get("output_index"@) {
            Some(JsonView::Number(NumberView::Unsigned(n))) => n == if index + offset
                <= u64::MAX {
                index + offset
            } else {
                u64::MAX as int
            },
            _ => false,
        },
        other => shown.get("output_index"@) == other,
    }
    &&& match (sent.get("response_id"@), id) {
        (Some(_), Some(id)) => shown.get("response_id"@) == Some(JsonView::String(id)),
        (other, _) => shown.get("response_id"@) == other,
    }
    &&& match (sent.get("response"@), id) {
        (Some(JsonView::Object(response)), Some(id)) => {
            &&& shown.get("response"@) is Some
            &&& shown.get("response"@)->0 is Object
            &&& shown.get("response"@)->0.get("id"@) == Some(JsonView::String(id))
            &&& forall|name: Seq<char>|
                #![trigger shown.get("response"@)->0.get(name)]
                name != "id"@ ==> shown.get("response"@)->0.get(name) == JsonView::Object(
                    response,
                ).get(name)
        },
        (other, _) => shown.get("response"@) == other,
    }
}

/// Normalizing a payload changes no more than it has to.
pub proof fn lemma_payload_is_shown(state: StateView, payload: JsonView, offset: u64)
    requires
        payload is Object,
    ensures
        shows_payload(
            normalized_payload(state, payload, offset),
            payload,
            offset,
            logical_id_after(state, payload),
            state.sequence,
        ),
{
    lemma_names();
    let moved = with_offset(payload, offset);
    let id = logical_id_after(state, payload);
    let named = with_logical_id(moved, id);
    let shown = normalized_payload(state, payload, offset);
    assert(moved is Object);
    assert(named is Object);
    let stamp = number(state.sequence);
    lemma_get_with(named, "sequence_number"@, stamp);
    assert forall|name: Seq<char>| name != "sequence_number"@ implies #[trigger] shown.get(name)
        == named.get(name) by {
        lemma_get_with_other(named, "sequence_number"@, stamp, name);
    }
    assert forall|name: Seq<char>| name != "output_index"@ implies #[trigger] moved.get(name)
        == payload.get(name) by {
        if let Some(index) = payload.get_unsigned("output_index"@) {
            lemma_get_with_other(
                payload,
                "output_index"@,
                number(saturating_sum(index, offset)),
                name,
            );
        }
    }
    if let Some(index) = payload.get_unsigned("output_index"@) {
        lemma_get_with(
            payload,
            "output_index"@,
            number(saturating_sum(index, offset)),
        );
    }
    if let Some(id) = id {
        let value = JsonView::String(id);
        let flat = if moved.get("response_id"@) is Some {
            moved.with("response_id"@, value)
        } else {
            moved
        };
        lemma_get_with(moved, "response_id"@, value);
        assert forall|name: Seq<char>| name != "response_id"@ implies #[trigger] flat.get(name)
            == moved.get(name) by {
            lemma_get_with_other(moved, "response_id"@, value, name);
        }
        if let Some(JsonView::Object(response)) = flat.get("response"@) {
            let held = JsonView::Object(response);
            let renamed = JsonView::Object(with_member(response, "id"@, value));
            assert(renamed == held.with("id"@, value));
            lemma_get_with(held, "id"@, value);
            lemma_get_with(flat, "response"@, renamed);
            assert forall|name: Seq<char>| name != "response"@ implies #[trigger] named.get(name)
                == flat.get(name) by {
                lemma_get_with_other(flat, "response"@, renamed, name);
            }
            assert forall|name: Seq<char>| name != "id"@ implies #[trigger] renamed.get(name)
                == held.get(name) by {
                lemma_get_with_other(held, "id"@, value, name);
            }
            assert(shown.get("response"@) == Some(renamed));
        }
    }
    assert(shown.get("output_index"@) == moved.get("output_index"@));
    assert(shown.get("response_id"@) == named.get("response_id"@));
}

/// Whether an event type ends a response.
pub open spec fn ends_response(event_type: Seq<char>) -> bool {
    event_type == "response.completed"@ || event_type == "response.incomplete"@ || event_type
        == "response.failed"@
}

/// Whether an event type opens a response.
pub open spec fn opens_response(event_type: Seq<char>) -> bool {
    event_type == "response.created"@ || event_type == "response.queued"@ || event_type
        == "response.in_progress"@
}

/// Whether a payload carries an item that is executed outside the model.
pub open spec fn carries_local_tool(payload: JsonView) -> bool {
    match payload.get("item"@) {
        Some(item) => {
            ||| item.get("type"@) == Some(JsonView::String("mcp_call"@))
            ||| item.get("type"@) == Some(JsonView::String("mcp_approval_request"@))
            ||| item.get("type"@) == Some(JsonView::String("web_search_call"@))
        },
        None => false,
    }
}

/// A provider's event reaches the client at once, under its own type and with what
/// it says, as the last of what is emitted. Of the first round, nothing else is
/// emitted with it.
///
/// Three kinds of events are told apart: those that end the response are held back,
/// those that open it once more are dropped, and the end of an item that is executed
/// outside the model may be held back.
pub proof fn lemma_event_reaches_client(
    parser: ParserView,
    state: Option<StateView>,
    event: EventView,
)
    requires
        event.payload is Object,
        !ends_response(event.event_type),
        parser.iteration == 0 || !opens_response(event.event_type),
        event.event_type != "response.output_item.done"@ || !carries_local_tool(event.payload),
    ensures
        ({
            let (after, held, events) = appended(parser, state, event);
            let shown = events.last();
            &&& events.len() >= 1
            &&& parser.iteration == 0 || parser.flushed ==> events.len() == 1
            &&& held is Some
            &&& shown.event_type == event.event_type
            &&& exists|sequence: u64|
                shows_payload(
                    shown.payload,
                    event.payload,
                    parser.offset,
                    held->0.logical_id,
                    sequence,
                )
            &&& after.deferred == parser.deferred
        }),
{
    let held = state_or_blank(state);
    let seen = recorded(held, event);
    let due = parser.iteration > 0 && !parser.flushed;
    let (later, earlier) = if due {
        flushed(seen)
    } else {
        (seen, Seq::<EventView>::empty())
    };
    let told = done_recorded(later, event);
    assert(output_appended(parser, held, event).2 == earlier.push(
        emitted_event(told, event.event_type, event.payload, parser.offset),
    ));
    lemma_payload_is_shown(told, event.payload, parser.offset);
    assert(shows_payload(
        appended(parser, state, event).2.last().payload,
        event.payload,
        parser.offset,
        appended(parser, state, event).1->0.logical_id,
        told.sequence,
    ));
}

/// The first payload that names a response gives the logical stream its id: the id
/// of its response, or its response id. Later payloads leave it.
pub proof fn lemma_first_id_counts(state: StateView, payload: JsonView)
    ensures
        ({
            let after = state_after_payload(state, payload).logical_id;
            let nested = match payload.get("response"@) {
                Some(response) => response.get("id"@),
                None => None,
            };
            &&& state.logical_id is Some ==> after == state.logical_id
            &&& state.logical_id is None ==> match (nested, payload.get("response_id"@)) {
                (Some(JsonView::String(id)), _) => after == Some(id),
                (None, Some(JsonView::String(id))) => after == Some(id),
                _ => after is None,
            }
        }),
{
}

/// An event that ends the response is held back as it was sent; nothing is emitted
/// and the state is left.
pub proof fn lemma_terminal_is_held(
    parser: ParserView,
    state: Option<StateView>,
    event: EventView,
)
    requires
        ends_response(event.event_type),
    ensures
        appended(parser, state, event).0.deferred == Some(event),
        appended(parser, state, event).1 == state,
        appended(parser, state, event).2.len() == 0,
{
}

/// Whatever else a chunk holds, the event in it that ends the response is what is
/// held back at its end.
pub proof fn lemma_chunk_holds_its_terminal(
    parser: ParserView,
    state: Option<StateView>,
    metadata: Map<Seq<char>, Seq<char>>,
    events: Seq<EventView>,
    n: int,
    k: int,
)
    requires
        parser.logical,
        0 <= k < n <= events.len(),
        ends_response(events[k].event_type),
        forall|i: int| k < i < n ==> !ends_response((#[trigger] events[i]).event_type),
    ensures
        committed(parser, state, metadata, events, n).0.deferred == Some(events[k]),
        committed(parser, state, metadata, events, n).0.offset == parser.offset,
    decreases n,
{
    lemma_stream_stays_logical(parser, state, metadata, events, n);
    lemma_stream_stays_logical(parser, state, metadata, events, n - 1);
    if k < n - 1 {
        lemma_chunk_holds_its_terminal(parser, state, metadata, events, n - 1, k);
    }
}

/// Committing events leaves what a stream is.
proof fn lemma_stream_stays_logical(
    parser: ParserView,
    state: Option<StateView>,
    metadata: Map<Seq<char>, Seq<char>>,
    events: Seq<EventView>,
    n: int,
)
    ensures
        committed(parser, state, metadata, events, n).0.logical == parser.logical,
        committed(parser, state, metadata, events, n).0.offset == parser.offset,
    decreases n,
{
    if n > 0 {
        lemma_stream_stays_logical(parser, state, metadata, events, n - 1);
    }
}

/// A response with totals has them, and is left otherwise.
proof fn lemma_totals(response: JsonView, output: Seq<JsonView>, usage: JsonView)
    requires
        response is Object,
    ensures
        ({
            let full = with_totals(response, output, usage);
            &&& full is Object
            &&& full.get("output"@) == Some(JsonView::Array(output))
            &&& usage != JsonView::Null ==> full.get("usage"@) == Some(usage)
            &&& usage == JsonView::Null ==> full.get("usage"@) == response.get("usage"@)
            &&& forall|name: Seq<char>|
                #![trigger full.get(name)]
                name != "output"@ && name != "usage"@ ==> full.get(name) == response.get(name)
        }),
{
    lemma_names();
    let list = JsonView::Array(output);
    let filled = response.with("output"@, list);
    lemma_get_with(response, "output"@, list);
    assert forall|name: Seq<char>| name != "output"@ implies #[trigger] filled.get(name)
        == response.get(name) by {
        lemma_get_with_other(response, "output"@, list, name);
    }
    lemma_get_with(filled, "usage"@, usage);
    assert forall|name: Seq<char>| name != "usage"@ implies #[trigger] filled.with(
        "usage"@,
        usage,
    ).get(name) == filled.get(name) by {
        lemma_get_with_other(filled, "usage"@, usage, name);
    }
}

/// Whether the terminal payload that is shown is the one that was sent, with the
/// output and the usage of all rounds in its response.
pub open spec fn shows_terminal(
    shown: JsonView,
    sent: JsonView,
    output: Seq<JsonView>,
    usage: JsonView,
) -> bool {
    &&& forall|name: Seq<char>|
        #![trigger shown.get(name)]
        name != "output_index"@ && name != "response_id"@ && name != "response"@ && name
            != "sequence_number"@ ==> shown.get(name) == sent.get(name)
    &&& match sent.get("response"@) {
        Some(JsonView::Object(response)) => {
            let told = shown.get("response"@)->0;
            &&& shown.get("response"@) is Some
            &&& told is Object
            &&& told.get("output"@) == Some(JsonView::Array(output))
            &&& usage != JsonView::Null ==> told.get("usage"@) == Some(usage)
            &&& usage == JsonView::Null ==> told.get("usage"@) == JsonView::Object(response).get(
                "usage"@,
            )
            &&& forall|name: Seq<char>|
                #![trigger told.get(name)]
                name != "id"@ && name != "output"@ && name != "usage"@ ==> told.get(name)
                    == JsonView::Object(response).get(name)
        },
        other => shown.get("response"@) == other,
    }
}

/// What a flush leaves as it is.
proof fn lemma_flush_keeps(state: StateView)
    ensures
        flushed(state).0.output == state.output,
        flushed(state).0.usage == state.usage,
        flushed(state).0.response_object == state.response_object,
{
    let pending = pending_of(state, state.output.len() as int);
    lemma_pending_keeps(state, pending, pending.len() as int);
}

/// What emitting pending items leaves as it is.
proof fn lemma_pending_keeps(state: StateView, pending: Seq<PendingItemView>, n: int)
    requires
        0 <= n <= pending.len(),
    ensures
        emitted_pending(state, pending, n).0.output == state.output,
        emitted_pending(state, pending, n).0.usage == state.usage,
        emitted_pending(state, pending, n).0.response_object == state.response_object,
    decreases n,
{
    if n > 0 {
        lemma_pending_keeps(state, pending, n - 1);
        let next = pending[n - 1];
        lemma_synthesized(
            marked(emitted_pending(state, pending, n - 1).0, next),
            next.index as u64,
            next.item,
            next.plan,
        );
    }
}

/// A logical stream that ends without an error ends with the provider's own terminal
/// event: under the type that the provider sent, be it completed, incomplete or
/// failed, and with what it says, its response carrying the output and the usage of
/// all rounds. The provider's sentinel follows where there was one. The response that
/// is stored has the same output and usage.
pub proof fn lemma_stream_ends_with_providers_terminal(
    parser: ParserView,
    state: Option<StateView>,
    terminal: EventView,
)
    requires
        parser.deferred == Some(terminal),
        terminal.payload is Object,
    ensures
        ({
            let (after, held, body) = finalized(parser, state, false, None);
            let given = state_or_blank(state);
            let sentinel = if parser.deferred_done {
                utf8("data: [DONE]\n\n"@)
            } else {
                Seq::empty()
            };
            &&& after.deferred is None
            &&& held is Some
            &&& body is Some
            &&& exists|events: Seq<EventView>|
                {
                    &&& body->0 == #[trigger] events_bytes(events) + sentinel
                    &&& events.len() >= 1
                    &&& events.last().event_type == terminal.event_type
                    &&& shows_terminal(
                        events.last().payload,
                        terminal.payload,
                        given.output,
                        given.usage,
                    )
                    &&& events.drop_last() == flushed(given).1
                }
            &&& given.response_object is Object ==> {
                let stored = held->0.response_object;
                &&& stored.get("output"@) == Some(JsonView::Array(given.output))
                &&& given.usage != JsonView::Null ==> stored.get("usage"@) == Some(given.usage)
            }
        }),
{
    lemma_names();
    let given = state_or_blank(state);
    lemma_flush_keeps(given);
    let flushed_state = flushed(given).0;
    let stored = canonicalized(flushed_state);
    let payload = terminal_payload(terminal.payload, stored);
    let shown = emitted_event(stored, terminal.event_type, payload, parser.offset);
    let events = terminal_emitted(given, terminal, parser.offset).1;
    assert(events == flushed(given).1.push(shown));
    assert(events.drop_last() =~= flushed(given).1);
    assert(payload is Object);
    lemma_payload_is_shown(stored, payload, parser.offset);
    if let Some(response) = terminal.payload.get("response"@) {
        if response is Object {
            let full = with_totals(response, stored.output, stored.usage);
            lemma_totals(response, stored.output, stored.usage);
            lemma_get_with(terminal.payload, "response"@, full);
            assert forall|name: Seq<char>| name != "response"@ implies #[trigger] payload.get(name)
                == terminal.payload.get(name) by {
                lemma_get_with_other(terminal.payload, "response"@, full, name);
            }
        }
    }
    assert(shows_terminal(shown.payload, terminal.payload, given.output, given.usage)) by {
        let told = shown.payload.get("response"@)->0;
        if let Some(JsonView::Object(response)) = terminal.payload.get("response"@) {
            let full = payload.get("response"@)->0;
            assert(full is Object);
            assert(told.get("output"@) == full.get("output"@));
            assert(told.get("usage"@) == full.get("usage"@));
        }
    }
    let sentinel = if parser.deferred_done {
        utf8("data: [DONE]\n\n"@)
    } else {
        Seq::empty()
    };
    assert(finalized(parser, state, false, None).2->0 == events_bytes(events) + sentinel);
    if given.response_object is Object {
        let named = match flushed_state.logical_id {
            Some(id) => flushed_state.response_object.with("id"@, JsonView::String(id)),
            None => flushed_state.response_object,
        };
        lemma_totals(named, flushed_state.output, flushed_state.usage);
    }
}

/// A logical stream that ends with an error ends with an `error` event that says
/// what the error says.
pub proof fn lemma_stream_ends_with_its_error(
    parser: ParserView,
    state: Option<StateView>,
    error: JsonView,
)
    requires
        error is Object,
    ensures
        ({
            let (_, held, body) = finalized(parser, state, false, Some(error));
            let given = state_or_blank(state);
            &&& held is Some
            &&& body is Some
            &&& exists|events: Seq<EventView>|
                {
                    &&& body->0 == #[trigger] events_bytes(events)
                    &&& events.len() >= 1
                    &&& events.last().event_type == "error"@
                    &&& exists|sequence: u64|
                        shows_payload(
                            events.last().payload,
                            error,
                            parser.offset,
                            held->0.logical_id,
                            sequence,
                        )
                    &&& events.drop_last() == flushed(given).1
                }
        }),
{
    let given = state_or_blank(state);
    let events = error_emitted(given, error, parser.offset).1;
    let held = flushed(given).0;
    lemma_payload_is_shown(held, error, parser.offset);
    assert(shows_payload(
        events.last().payload,
        error,
        parser.offset,
        state_after_payload(held, error).logical_id,
        held.sequence,
    ));
    assert(events.drop_last() =~= flushed(given).1);
    assert(finalized(parser, state, false, Some(error)).2->0 == events_bytes(events));
}

/// The members of a payload that announces or finalizes an item.
proof fn lemma_lifecycle_members(event_type: Seq<char>, index: u64, item: JsonView)
    ensures
        lifecycle_payload(event_type, index, item).get("item"@) == Some(item),
        lifecycle_payload(event_type, index, item).get("type"@) == Some(
            JsonView::String(event_type),
        ),
        lifecycle_payload(event_type, index, item) is Object,
{
    lemma_names();
    let members = lifecycle_payload(event_type, index, item)->Object_0;
    lemma_position_is(members, "type"@, 0);
    lemma_position_is(members, "item"@, 3);
}

/// The members of a payload that tells of a phase.
proof fn lemma_phase_members(event_type: Seq<char>, id: Seq<char>, index: u64)
    ensures
        phase_payload(event_type, id, index).get("item_id"@) == Some(JsonView::String(id)),
        phase_payload(event_type, id, index).get("type"@) == Some(JsonView::String(event_type)),
        phase_payload(event_type, id, index) is Object,
{
    lemma_names();
    let members = phase_payload(event_type, id, index)->Object_0;
    lemma_position_is(members, "type"@, 0);
    lemma_position_is(members, "item_id"@, 1);
}

/// Whether an event tells of an item as a whole.
pub open spec fn tells_item(event: EventView, event_type: Seq<char>, item: JsonView) -> bool {
    &&& event.event_type == event_type
    &&& event.payload.get("type"@) == Some(JsonView::String(event_type))
    &&& event.payload.get("item"@) == Some(item)
}

/// Whether an event tells of a phase of an item.
pub open spec fn tells_phase(event: EventView, event_type: Seq<char>, id: Seq<char>) -> bool {
    &&& event.event_type == event_type
    &&& event.payload.get("type"@) == Some(JsonView::String(event_type))
    &&& event.payload.get("item_id"@) == Some(JsonView::String(id))
}

/// The phases that are emitted are told one by one.
proof fn lemma_phases_are_told(
    state: StateView,
    item: JsonView,
    index: u64,
    phases: Seq<Seq<char>>,
    n: int,
)
    requires
        0 <= n <= phases.len(),
    ensures
        ({
            let events = phases_emitted(state, item, index, phases, n).1;
            &&& events.len() == n
            &&& forall|k: int|
                0 <= k < n ==> tells_phase(#[trigger] events[k], phases[k], item_id_of(item))
        }),
    decreases n,
{
    if n > 0 {
        lemma_phases_are_told(state, item, index, phases, n - 1);
        let held = phases_emitted(state, item, index, phases, n - 1).0;
        let payload = phase_payload(phases[n - 1], item_id_of(item), index);
        lemma_phase_members(phases[n - 1], item_id_of(item), index);
        lemma_payload_is_shown(held, payload, 0);
        lemma_names();
        assert(normalized_payload(held, payload, 0).get("type"@) == payload.get("type"@));
        assert(normalized_payload(held, payload, 0).get("item_id"@) == payload.get("item_id"@));
    }
}

/// The events of one item: its announcement with the item itself where it was not
/// announced, each missing phase under its own type, and its finalization with the
/// item itself where that is due; in this order, and nothing else.
pub proof fn lemma_item_is_told(state: StateView, index: u64, item: JsonView, plan: PlanView)
    ensures
        ({
            let events = synthesized(state, index, item, plan).1;
            let first: int = if plan.emit_added {
                1
            } else {
                0
            };
            let last: int = if plan.emit_done {
                1
            } else {
                0
            };
            &&& events.len() == first + plan.phases.len() + last
            &&& plan.emit_added ==> tells_item(events[0], "response.output_item.added"@, item)
            &&& forall|k: int|
                0 <= k < plan.phases.len() ==> tells_phase(
                    events[first + k],
                    #[trigger] plan.phases[k],
                    item_id_of(item),
                )
            &&& plan.emit_done ==> tells_item(
                events.last(),
                "response.output_item.done"@,
                item,
            )
        }),
{
    lemma_names();
    let added = "response.output_item.added"@;
    let done = "response.output_item.done"@;
    let opening = lifecycle_payload(added, index, item);
    let closing = lifecycle_payload(done, index, item);
    lemma_lifecycle_members(added, index, item);
    lemma_lifecycle_members(done, index, item);
    lemma_payload_is_shown(state, opening, 0);
    assert(normalized_payload(state, opening, 0).get("type"@) == opening.get("type"@));
    assert(normalized_payload(state, opening, 0).get("item"@) == opening.get("item"@));
    let (opened, first) = if plan.emit_added {
        (
            state_after_payload(state, opening),
            Seq::<EventView>::empty().push(emitted_event(state, added, opening, 0)),
        )
    } else {
        (state, Seq::<EventView>::empty())
    };
    let n = plan.phases.len() as int;
    lemma_phases_are_told(opened, item, index, plan.phases, n);
    let (progressed, middle) = phases_emitted(opened, item, index, plan.phases, n);
    lemma_payload_is_shown(progressed, closing, 0);
    assert(normalized_payload(progressed, closing, 0).get("type"@) == closing.get("type"@));
    assert(normalized_payload(progressed, closing, 0).get("item"@) == closing.get("item"@));
    let events = synthesized(state, index, item, plan).1;
    assert forall|k: int| 0 <= k < n implies tells_phase(
        events[first.len() + k],
        #[trigger] plan.phases[k],
        item_id_of(item),
    ) by {
        assert((first + middle)[first.len() + k] == middle[k]);
        assert(tells_phase(middle[k], plan.phases[k], item_id_of(item)));
    }
}

/// Whether the events that a pending item is told with stand among `events`.
spec fn told_at(
    events: Seq<EventView>,
    pending: PendingItemView,
    held: StateView,
    from: int,
) -> bool {
    let own = synthesized(held, pending.index as u64, pending.item, pending.plan).1;
    &&& 0 <= from
    &&& from + own.len() <= events.len()
    &&& events.subrange(from, from + own.len()) == own
}

/// The events of pending items are those of each of them, one behind the other.
proof fn lemma_pending_are_told(
    state: StateView,
    pending: Seq<PendingItemView>,
    n: int,
    j: int,
)
    requires
        0 <= j < n <= pending.len(),
    ensures
        exists|held: StateView, from: int|
            told_at(emitted_pending(state, pending, n).1, pending[j], held, from),
    decreases n,
{
    let (held, events) = emitted_pending(state, pending, n - 1);
    let next = pending[n - 1];
    let more = synthesized(marked(held, next), next.index as u64, next.item, next.plan).1;
    let all = emitted_pending(state, pending, n).1;
    assert(all == events + more);
    if j == n - 1 {
        let from = events.len() as int;
        assert(all.subrange(from, from + more.len()) =~= more);
        assert(told_at(all, pending[j], marked(held, next), from));
    } else {
        lemma_pending_are_told(state, pending, n - 1, j);
        let (earlier, from) = choose|earlier: StateView, from: int|
            told_at(events, pending[j], earlier, from);
        let own = synthesized(
            earlier,
            pending[j].index as u64,
            pending[j].item,
            pending[j].plan,
        ).1;
        assert(all.subrange(from, from + own.len()) =~= events.subrange(from, from + own.len()));
        assert(told_at(all, pending[j], earlier, from));
    }
}

/// An executed item that the client was told nothing of is told as a whole by the
/// next flush: announced with its content, then each phase of its lifecycle, then
/// finalized with its content, one directly behind the other.
#[verifier::spinoff_prover]
#[verifier::rlimit(50)]
pub proof fn lemma_executed_item_is_delivered(state: StateView, i: int, id: Seq<char>)
    requires
        0 <= i < state.output.len(),
        state.output.len() <= u64::MAX,
        ({
            let kind = state.output[i].get("type"@);
            ||| kind == Some(JsonView::String("mcp_call"@))
            ||| kind == Some(JsonView::String("mcp_approval_request"@))
            ||| kind == Some(JsonView::String("web_search_call"@))
        }),
        state.output[i].get("id"@) == Some(JsonView::String(id)),
        state.executed.contains(id),
        !state.emitted.dom().contains(id),
    ensures
        ({
            let events = flushed(state).1;
            let phases = expected_phases(state.output[i]);
            exists|from: int|
                {
                    &&& 0 <= from
                    &&& from + phases.len() + 1 < events.len()
                    &&& tells_item(
                        #[trigger] events[from],
                        "response.output_item.added"@,
                        state.output[i],
                    )
                    &&& forall|k: int|
                        0 <= k < phases.len() ==> tells_phase(
                            events[from + 1 + k],
                            #[trigger] phases[k],
                            id,
                        )
                    &&& tells_item(
                        events[from + 1 + phases.len()],
                        "response.output_item.done"@,
                        state.output[i],
                    )
                    &&& forall|k: int|
                        from <= k <= from + 1 + phases.len() ==> (#[trigger] events[k]).payload.get(
                            "output_index"@,
                        ) == Some(JsonView::Number(NumberView::Unsigned(i as u64)))
                }
        }),
{
    let item = state.output[i];
    let n = state.output.len() as int;
    let phases = expected_phases(item);
    lemma_nothing_streamed(phases);
    assert(known_entry(state.emitted, id) is None);
    assert(is_executed_item(state, item));
    let plan = owed_by(state, item)->0;
    assert(phases.skip(0) =~= phases);
    assert(plan == (PlanView { emit_added: true, phases, emit_done: true }));
    lemma_pending(state, n);
    let pending = pending_of(state, n);
    let j = choose|k: int| 0 <= k < pending.len() && (#[trigger] pending[k]).index == i;
    assert(pending[j].item == item && pending[j].plan == plan);
    lemma_pending_are_told(state, pending, pending.len() as int, j);
    let events = flushed(state).1;
    let (held, from) = choose|held: StateView, from: int| told_at(events, pending[j], held, from);
    let own = synthesized(held, i as u64, item, plan).1;
    lemma_item_is_told(held, i as u64, item, plan);
    lemma_synthesized(held, i as u64, item, plan);
    assert(own.len() == phases.len() + 2);
    assert forall|k: int| 0 <= k < own.len() implies own[k] == #[trigger] events[from + k] by {
        assert(events.subrange(from, from + own.len())[k] == events[from + k]);
    }
    assert(events[from + 0] == own[0]);
    assert(events[from + (1 + phases.len())] == own.last());
    assert forall|k: int| 0 <= k < phases.len() implies tells_phase(
        events[from + 1 + k],
        #[trigger] phases[k],
        id,
    ) by {
        assert(plan.phases[k] == phases[k]);
        assert(events[from + (1 + k)] == own[1 + k]);
    }
    assert forall|k: int| from <= k <= from + 1 + phases.len() implies (
    #[trigger] events[k]).payload.get("output_index"@) == Some(
        JsonView::Number(NumberView::Unsigned(i as u64)),
    ) by {
        assert(events[from + (k - from)] == own[k - from]);
        assert(own[k - from].payload.get_unsigned("output_index"@) == Some(i as u64));
    }
    assert(tells_item(events[from], "response.output_item.added"@, item));
}

/// Where no phase was streamed, all of them are behind.
proof fn lemma_nothing_streamed(phases: Seq<Seq<char>>)
    ensures
        frontier(phases, Set::empty()) == 0,
    decreases phases.len(),
{
    if phases.len() > 0 {
        lemma_nothing_streamed(phases.drop_last());
    }
}

/// The lifecycle of an item says how it ended: a web search is reported as completed
/// exactly where it completed, a tool call as failed exactly where it has an error
/// and else as completed; both are in progress first.
pub proof fn lemma_lifecycle_tells_outcome(item: JsonView)
    ensures
        ({
            let phases = expected_phases(item);
            let kind = item.get("type"@);
            let failed = item.get("error"@) is Some && item.get("error"@)->0 != JsonView::Null;
            &&& kind == Some(JsonView::String("web_search_call"@)) ==> {
                &&& phases.len() >= 2
                &&& phases[0] == "response.web_search_call.in_progress"@
                &&& phases[1] == "response.web_search_call.searching"@
                &&& item.get("status"@) == Some(JsonView::String("completed"@)) <==> phases.len()
                    == 3 && phases[2] == "response.web_search_call.completed"@
                &&& item.get("status"@) != Some(JsonView::String("completed"@)) ==> phases.len()
                    == 2
            }
            &&& kind == Some(JsonView::String("mcp_call"@)) ==> {
                &&& phases.len() == 2
                &&& phases[0] == "response.mcp_call.in_progress"@
                &&& failed ==> phases[1] == "response.mcp_call.failed"@
                &&& !failed ==> phases[1] == "response.mcp_call.completed"@
            }
            &&& kind != Some(JsonView::String("web_search_call"@)) && kind != Some(
                JsonView::String("mcp_call"@),
            ) ==> phases.len() == 0
        }),
{
    reveal_strlit("mcp_call");
    reveal_strlit("web_search_call");
    assert("mcp_call"@.len() == 8 && "web_search_call"@.len() == 15);
}

/// No phase of a lifecycle ends a response.
proof fn lemma_no_phase_ends_response(item: JsonView, phase: Seq<char>)
    requires
        expected_phases(item).contains(phase),
    ensures
        !ends_response(phase),
{
    lemma_lifecycle_tells_outcome(item);
    lemma_type_lengths();
    let phases = expected_phases(item);
    let k = choose|k: int| 0 <= k < phases.len() && phases[k] == phase;
    assert(phase == phases[k]);
}

/// The lengths of event types.
proof fn lemma_type_lengths()
    ensures
        "response.completed"@.len() == 18,
        "response.incomplete"@.len() == 19,
        "response.failed"@.len() == 15,
        "response.output_item.added"@.len() == 26,
        "response.output_item.done"@.len() == 25,
        "response.mcp_call.in_progress"@.len() == 29,
        "response.mcp_call.failed"@.len() == 24,
        "response.mcp_call.completed"@.len() == 27,
        "response.web_search_call.in_progress"@.len() == 36,
        "response.web_search_call.searching"@.len() == 34,
        "response.web_search_call.completed"@.len() == 34,
{
    reveal_strlit("response.completed");
    reveal_strlit("response.incomplete");
    reveal_strlit("response.failed");
    reveal_strlit("response.output_item.added");
    reveal_strlit("response.output_item.done");
    reveal_strlit("response.mcp_call.in_progress");
    reveal_strlit("response.mcp_call.failed");
    reveal_strlit("response.mcp_call.completed");
    reveal_strlit("response.web_search_call.in_progress");
    reveal_strlit("response.web_search_call.searching");
    reveal_strlit("response.web_search_call.completed");
}

/// The events of pending items end no response.
proof fn lemma_pending_end_nothing(state: StateView, given: StateView, n: int)
    requires
        0 <= n <= pending_of(given, given.output.len() as int).len(),
    ensures
        ({
            let pending = pending_of(given, given.output.len() as int);
            forall|k: int|
                0 <= k < emitted_pending(state, pending, n).1.len() ==> !ends_response(
                    (#[trigger] emitted_pending(state, pending, n).1[k]).event_type,
                )
        }),
    decreases n,
{
    if n > 0 {
        let pending = pending_of(given, given.output.len() as int);
        lemma_pending_end_nothing(state, given, n - 1);
        lemma_pending(given, given.output.len() as int);
        lemma_type_lengths();
        let (held, events) = emitted_pending(state, pending, n - 1);
        let next = pending[n - 1];
        let more = synthesized(marked(held, next), next.index as u64, next.item, next.plan).1;
        lemma_item_is_told(marked(held, next), next.index as u64, next.item, next.plan);
        let first: int = if next.plan.emit_added {
            1
        } else {
            0
        };
        let all = emitted_pending(state, pending, n).1;
        assert forall|k: int| 0 <= k < all.len() implies !ends_response(
            (#[trigger] all[k]).event_type,
        ) by {
            if k < events.len() {
                assert(all[k] == events[k]);
            } else {
                let at = k - events.len();
                assert(all[k] == more[at]);
                if first <= at < first + next.plan.phases.len() {
                    let phase = next.plan.phases[at - first];
                    assert(tells_phase(more[first + (at - first)], phase, item_id_of(next.item)));
                    assert(owed_by(given, next.item) == Some(next.plan));
                    let expected = expected_phases(next.item);
                    let skipped = expected.len() - next.plan.phases.len();
                    lemma_frontier_within(
                        expected,
                        streamed_of(
                            known_entry(given.emitted, next.item.get_text("id"@)->0),
                        ),
                    );
                    assert(phase == expected[skipped + (at - first)]);
                    assert(expected.contains(phase));
                    lemma_no_phase_ends_response(next.item, phase);
                }
            }
        }
    }
}

/// No more phases were streamed than there are.
proof fn lemma_frontier_within(expected: Seq<Seq<char>>, streamed: Set<Seq<char>>)
    ensures
        frontier(expected, streamed) <= expected.len(),
    decreases expected.len(),
{
    if expected.len() > 0 {
        lemma_frontier_within(expected.drop_last(), streamed);
    }
}

/// Only the end of the logical stream ends the response: whatever a provider sends,
/// no event that the client is shown before is of a terminal type.
pub proof fn lemma_response_ends_once(
    parser: ParserView,
    state: Option<StateView>,
    event: EventView,
)
    ensures
        forall|k: int|
            0 <= k < appended(parser, state, event).2.len() ==> !ends_response(
                (#[trigger] appended(parser, state, event).2[k]).event_type,
            ),
        forall|k: int|
            0 <= k < flushed(state_or_blank(state)).1.len() ==> !ends_response(
                (#[trigger] flushed(state_or_blank(state)).1[k]).event_type,
            ),
{
    let held = state_or_blank(state);
    let seen = recorded(held, event);
    lemma_pending_end_nothing(
        seen,
        seen,
        pending_of(seen, seen.output.len() as int).len() as int,
    );
    lemma_pending_end_nothing(
        held,
        held,
        pending_of(held, held.output.len() as int).len() as int,
    );
    let due = parser.iteration > 0 && !parser.flushed;
    let (later, earlier) = if due {
        flushed(seen)
    } else {
        (seen, Seq::<EventView>::empty())
    };
    let told = done_recorded(later, event);
    let last = emitted_event(told, event.event_type, event.payload, parser.offset);
    assert forall|k: int| 0 <= k < appended(parser, state, event).2.len() implies !ends_response(
        (#[trigger] appended(parser, state, event).2[k]).event_type,
    ) by {
        let out = appended(parser, state, event).2;
        assert(out == earlier || out == earlier.push(last));
    }
}

/// Whether an event type tells of the progress of an item that is executed outside the
/// model.
pub open spec fn tells_progress(event_type: Seq<char>) -> bool {
    ||| event_type.len() >= 25 && event_type.take(25) == "response.web_search_call."@
    ||| event_type.len() >= 18 && event_type.take(18) == "response.mcp_call."@
}

/// What the client is shown of an item that is executed outside the model is
/// remembered: an announcement as one, progress by its type, and a finalization that
/// passes as one. The memory of every other item stays.
pub proof fn lemma_milestones_are_kept(
    parser: ParserView,
    state: StateView,
    event: EventView,
    id: Seq<char>,
)
    requires
        event.payload is Object,
        parser.iteration == 0,
        !ends_response(event.event_type),
    ensures
        ({
            let (_, held, events) = appended(parser, Some(state), event);
            let before = if state.emitted.dom().contains(id) {
                state.emitted[id]
            } else {
                nothing_emitted()
            };
            let is_item = event.event_type == "response.output_item.added"@ || event.event_type
                == "response.output_item.done"@;
            let own = is_item && carries_local_tool(event.payload) && event.payload.get(
                "item"@,
            )->0.get("id"@) == Some(JsonView::String(id));
            let progress = tells_progress(event.event_type) && event.payload.get("item_id"@)
                == Some(JsonView::String(id));
            &&& held is Some
            &&& own || progress ==> {
                &&& held->0.emitted.dom().contains(id)
                &&& held->0.emitted[id].added
            }
            &&& own ==> {
                &&& held->0.emitted[id].phases == before.phases
                &&& held->0.emitted[id].done == (before.done || (event.event_type
                    == "response.output_item.done"@ && events.len() == 1))
            }
            &&& progress ==> held->0.emitted[id].phases == before.phases.insert(event.event_type)
                && held->0.emitted[id].done == before.done
            &&& !own && !progress ==> {
                &&& held->0.emitted.dom().contains(id) == state.emitted.dom().contains(id)
                &&& held->0.emitted[id] == state.emitted[id]
            }
        }),
{
    lemma_type_lengths();
    reveal_strlit("response.web_search_call.");
    reveal_strlit("response.mcp_call.");
    reveal_strlit("response.output_item.added");
    reveal_strlit("response.output_item.done");
    assert("response.web_search_call."@.len() == 25 && "response.mcp_call."@.len() == 18);
    assert("response.web_search_call."@[9] == 'w' && "response.mcp_call."@[9] == 'm');
    assert("response.output_item.added"@[9] == 'o' && "response.output_item.done"@[9] == 'o');
    if tells_progress(event.event_type) {
        if event.event_type.len() >= 25 && event.event_type.take(25)
            == "response.web_search_call."@ {
            assert(event.event_type.take(25)[9] == event.event_type[9]);
        } else {
            assert(event.event_type.take(18)[9] == event.event_type[9]);
        }
    }
    assert(is_progress_type(event.event_type) == tells_progress(event.event_type));
    let seen = recorded(state, event);
    assert(output_appended(parser, state, event).1.emitted == if is_premature_done(seen, event) {
        seen.emitted
    } else {
        done_recorded(seen, event).emitted
    });
}

/// The end of an item that is executed outside the model passes where its last phase
/// was shown, and else is held back, because the item runs only afterwards; an item
/// without phases of its own always passes.
pub proof fn lemma_end_waits_for_last_phase(
    parser: ParserView,
    state: StateView,
    event: EventView,
    id: Seq<char>,
)
    requires
        event.payload is Object,
        parser.iteration == 0,
        event.event_type == "response.output_item.done"@,
        carries_local_tool(event.payload),
        event.payload.get("item"@)->0.get("id"@) == Some(JsonView::String(id)),
    ensures
        ({
            let events = appended(parser, Some(state), event).2;
            let item = event.payload.get("item"@)->0;
            let phases = expected_phases(item);
            let shown = state.emitted.dom().contains(id) && phases.len() > 0
                && state.emitted[id].phases.contains(phases.last());
            &&& phases.len() > 0 && !shown ==> events.len() == 0
            &&& phases.len() == 0 || shown ==> {
                &&& events.len() == 1
                &&& events[0].event_type == event.event_type
                &&& events[0].payload.get("item"@) == Some(item)
            }
        }),
{
    lemma_type_lengths();
    lemma_names();
    let seen = recorded(state, event);
    let told = done_recorded(seen, event);
    lemma_payload_is_shown(told, event.payload, parser.offset);
    assert(local_item(event.payload) == Some((id, event.payload.get("item"@)->0)));
    if !is_premature_done(seen, event) {
        assert(output_appended(parser, state, event).2 =~= seq![
            emitted_event(told, event.event_type, event.payload, parser.offset),
        ]);
    }
}

/// What an executed item owes the client: its announcement where it was not announced,
/// the phases behind the last one that was shown, and its finalization where it was not
/// finalized or its content changed since.
pub proof fn lemma_what_is_owed(state: StateView, item: JsonView, id: Seq<char>)
    requires
        ({
            let kind = item.get("type"@);
            ||| kind == Some(JsonView::String("mcp_call"@))
            ||| kind == Some(JsonView::String("mcp_approval_request"@))
            ||| kind == Some(JsonView::String("web_search_call"@))
        }),
        item.get("id"@) == Some(JsonView::String(id)),
    ensures
        ({
            let owed = owed_by(state, item);
            let known = state.emitted.dom().contains(id);
            let entry = state.emitted[id];
            let phases = expected_phases(item);
            let announced = known && entry.added;
            let finalized = known && entry.done && entry.content_digest == digest_of(item);
            let ended = phases.len() == 0 || (known && entry.phases.contains(phases.last()));
            &&& !state.executed.contains(id) ==> owed is None
            &&& state.executed.contains(id) ==> {
                &&& owed is None <==> announced && finalized && ended
                &&& owed is Some ==> {
                    &&& owed->0.emit_added == !announced
                    &&& owed->0.emit_done == !finalized
                    &&& owed->0.phases.len() <= phases.len()
                    &&& owed->0.phases == phases.skip(phases.len() - owed->0.phases.len())
                    &&& forall|k: int|
                        0 <= k < owed->0.phases.len() && known ==> !entry.phases.contains(
                            #[trigger] owed->0.phases[k],
                        )
                    &&& owed->0.phases.len() < phases.len() ==> known && entry.phases.contains(
                        phases[phases.len() - owed->0.phases.len() - 1],
                    )
                }
            }
        }),
{
    let phases = expected_phases(item);
    let previous = known_entry(state.emitted, id);
    lemma_frontier(phases, streamed_of(previous));
    let reached = frontier(phases, streamed_of(previous));
    if phases.len() > 0 && streamed_of(previous).contains(phases.last()) {
        assert(reached == phases.len());
    } else if phases.len() > 0 && reached == phases.len() {
        assert(phases[reached - 1] == phases.last());
    }
    let rest = phases.skip(reached as int);
    assert forall|k: int| 0 <= k < rest.len() implies !streamed_of(previous).contains(
        #[trigger] rest[k],
    ) by {
        assert(rest[k] == phases[reached + k]);
    }
}

/// A round that another one follows ends nothing: the client is shown nothing more of
/// it and nothing of the state changes. Nor is anything shown where there is neither an
/// error nor a terminal event.
pub proof fn lemma_stream_stays_open(
    parser: ParserView,
    state: Option<StateView>,
    error: Option<JsonView>,
)
    ensures
        finalized(parser, state, true, error) == (parser, state, None::<Seq<u8>>),
        parser.deferred is None ==> finalized(parser, state, false, None) == (
            parser,
            state,
            None::<Seq<u8>>,
        ),
{
}

/// The response that is stored agrees with the one that was shown: it has the id of
/// the logical response, the output of all rounds and their usage, and everything else
/// as it was.
pub proof fn lemma_stored_response_agrees(state: StateView)
    requires
        state.response_object is Object,
    ensures
        ({
            let after = canonicalized(state);
            let stored = after.response_object;
            &&& state.logical_id is Some ==> stored.get("id"@) == Some(
                JsonView::String(state.logical_id->0),
            )
            &&& state.logical_id is None ==> stored.get("id"@) == state.response_object.get("id"@)
            &&& stored.get("output"@) == Some(JsonView::Array(state.output))
            &&& state.usage != JsonView::Null ==> stored.get("usage"@) == Some(state.usage)
            &&& forall|name: Seq<char>|
                #![trigger stored.get(name)]
                name != "id"@ && name != "output"@ && name != "usage"@ ==> stored.get(name)
                    == state.response_object.get(name)
            &&& after == (StateView { response_object: stored, ..state })
        }),
{
    lemma_names();
    let named = match state.logical_id {
        Some(id) => state.response_object.with("id"@, JsonView::String(id)),
        None => state.response_object,
    };
    lemma_totals(named, state.output, state.usage);
    let stored = canonicalized(state).response_object;
    if let Some(id) = state.logical_id {
        let value = JsonView::String(id);
        lemma_get_with(state.response_object, "id"@, value);
        assert forall|name: Seq<char>| name != "id"@ implies #[trigger] named.get(name)
            == state.response_object.get(name) by {
            lemma_get_with_other(state.response_object, "id"@, value, name);
        }
    }
    assert(stored == with_totals(named, state.output, state.usage));
}

} // verus!
