//! One downstream Responses lifecycle out of successive inference streams: event
//! normalization, and the events of locally executed tool items.

use vstd::prelude::*;

use crate::json::{
    lemma_position_of, members_view, no_members, push_member, set_member, string, unsigned,
    with_member, Json, JsonView, NumberView,
};
use crate::json_text::{compact_text, text_of};
use crate::openai::sse::EventView;
use crate::openai::state::{
    lemma_emitted_insert, nothing_emitted, optional_text, EmittedItem, EmittedView, ResponsesState,
    StateView,
};
use crate::openai::stream_events::digest::{digest_of, item_digest};
use crate::openai::stream_events::lifecycle::{
    after_plan, is_local_tool, is_local_tool_item, phases_view, plan_of, plan_pending_item,
    previous_view, EmissionPlan, PlanView,
};
use crate::openai::usage::saturating_sum;
use crate::text::{push_text, utf8};

verus! {

broadcast use crate::json_model::group_json_view;

/// An unsigned number.
pub open spec fn number(n: u64) -> JsonView {
    JsonView::Number(NumberView::Unsigned(n))
}

/// The id that a payload gives the logical response: the id of its response, or
/// its response id.
pub open spec fn payload_response_id(payload: JsonView) -> Option<Seq<char>> {
    let nested = match payload.get("response"@) {
        Some(response) => response.get("id"@),
        None => None,
    };
    match nested {
        Some(id) => id.text(),
        None => payload.get_text("response_id"@),
    }
}

/// The id of the logical response once `payload` was seen.
pub open spec fn logical_id_after(state: StateView, payload: JsonView) -> Option<Seq<char>> {
    match state.logical_id {
        Some(id) => Some(id),
        None => payload_response_id(payload),
    }
}

/// A payload with its output index moved behind the earlier rounds.
pub open spec fn with_offset(payload: JsonView, offset: u64) -> JsonView {
    match payload.get_unsigned("output_index"@) {
        Some(index) => payload.with("output_index"@, number(saturating_sum(index, offset))),
        None => payload,
    }
}

/// A payload whose response id, where it has one, is that of the logical
/// response.
pub open spec fn with_logical_id(payload: JsonView, id: Option<Seq<char>>) -> JsonView {
    match id {
        None => payload,
        Some(id) => {
            let flat = if payload.get("response_id"@) is Some {
                payload.with("response_id"@, JsonView::String(id))
            } else {
                payload
            };
            match flat.get("response"@) {
                Some(JsonView::Object(response)) => flat.with(
                    "response"@,
                    JsonView::Object(with_member(response, "id"@, JsonView::String(id))),
                ),
                _ => flat,
            }
        },
    }
}

/// The next sequence number.
pub open spec fn next_sequence(sequence: u64) -> u64 {
    saturating_sum(sequence, 1)
}

/// A payload as it is emitted: with absolute output index, logical response id,
/// and the running sequence number.
pub open spec fn normalized_payload(state: StateView, payload: JsonView, offset: u64) -> JsonView {
    with_logical_id(with_offset(payload, offset), logical_id_after(state, payload)).with(
        "sequence_number"@,
        number(state.sequence),
    )
}

/// The state once `payload` was normalized.
pub open spec fn state_after_payload(state: StateView, payload: JsonView) -> StateView {
    StateView {
        logical_id: logical_id_after(state, payload),
        sequence: next_sequence(state.sequence),
        ..state
    }
}

/// Where a response sits in a payload, to be given the logical id.
fn set_nested_id(payload: &mut Json, id: &str)
    ensures
        final(payload)@ == (match old(payload)@.get("response"@) {
            Some(JsonView::Object(response)) => old(payload)@.with(
                "response"@,
                JsonView::Object(with_member(response, "id"@, JsonView::String(id@))),
            ),
            _ => old(payload)@,
        }),
{
    let ghost before = payload@;
    if let Json::Object(members) = payload {
        let ghost held = members_view(members@);
        if let Some(at) = crate::json::find_member(members, "response") {
            proof {
                lemma_position_of(held, "response"@);
            }
            let ghost inner = members@[at as int].value@;
            if let Json::Object(response) = &mut members[at].value {
                set_member(response, "id", string(id));
            }
            proof {
                match inner {
                    JsonView::Object(response) => {
                        assert(members_view(members@) =~= held.update(
                            at as int,
                            (
                                "response"@,
                                JsonView::Object(
                                    with_member(response, "id"@, JsonView::String(id@)),
                                ),
                            ),
                        ));
                    },
                    _ => {
                        assert(members_view(members@) =~= held);
                    },
                }
            }
        }
    }
}

/// Normalizes response identity, sequence numbers, and output indices.
///
/// Every emitted event is stamped with the running sequence number, so that the
/// client always sees a contiguous series.
pub fn normalize_logical_payload(
    state: &mut ResponsesState,
    payload: &mut Json,
    output_index_offset: u64,
)
    ensures
        final(payload)@ == normalized_payload(old(state)@, old(payload)@, output_index_offset),
        final(state)@ == state_after_payload(old(state)@, old(payload)@),
{
    let ghost before = state@;
    let ghost given = payload@;
    if state.logical_stream_response_id.is_none() {
        let nested = match payload.get("response") {
            Some(response) => response.get("id"),
            None => None,
        };
        let id = match nested {
            Some(id) => id.as_str(),
            None => payload.get_str("response_id"),
        };
        state.logical_stream_response_id = match id {
            Some(id) => Some(id.to_owned()),
            None => None,
        };
    }
    assert(optional_text(state.logical_stream_response_id) == logical_id_after(before, given));
    if let Some(index) = payload.get_u64("output_index") {
        payload.set("output_index", unsigned(index.saturating_add(output_index_offset)));
    }
    assert(payload@ == with_offset(given, output_index_offset));
    if let Some(id) = &state.logical_stream_response_id {
        if payload.get("response_id").is_some() {
            payload.set("response_id", string(id.as_str()));
        }
        set_nested_id(payload, id.as_str());
    }
    payload.set("sequence_number", unsigned(state.logical_stream_sequence));
    state.logical_stream_sequence = state.logical_stream_sequence.saturating_add(1);
    assert(state@ =~= state_after_payload(before, given));
}

/// The bytes of one encoded event.
pub open spec fn event_bytes(event: EventView) -> Seq<u8> {
    utf8("event: "@) + utf8(event.event_type) + utf8("\ndata: "@) + utf8(
        compact_text(event.payload),
    ) + utf8("\n\n"@)
}

/// The bytes of encoded events, one behind the other.
pub open spec fn events_bytes(events: Seq<EventView>) -> Seq<u8>
    decreases events.len(),
{
    if events.len() == 0 {
        Seq::empty()
    } else {
        events_bytes(events.drop_last()) + event_bytes(events.last())
    }
}

/// Encodes one canonical single-line SSE event.
pub fn encode_sse_event(event_type: &str, payload: &Json, output: &mut Vec<u8>)
    ensures
        final(output)@ == old(output)@ + event_bytes(
            (EventView { event_type: event_type@, payload: payload@ }),
        ),
{
    push_text(output, "event: ");
    push_text(output, event_type);
    push_text(output, "\ndata: ");
    push_text(output, text_of(payload).as_str());
    push_text(output, "\n\n");
    assert(output@ =~= old(output)@ + event_bytes(
        (EventView { event_type: event_type@, payload: payload@ }),
    ));
}

/// An event as it is emitted.
pub open spec fn emitted_event(
    state: StateView,
    event_type: Seq<char>,
    payload: JsonView,
    offset: u64,
) -> EventView {
    EventView { event_type, payload: normalized_payload(state, payload, offset) }
}

/// Normalizes and encodes one event.
pub fn emit_event(
    state: &mut ResponsesState,
    event_type: &str,
    payload: Json,
    offset: u64,
    output: &mut Vec<u8>,
)
    ensures
        final(state)@ == state_after_payload(old(state)@, payload@),
        final(output)@ == old(output)@ + event_bytes(
            emitted_event(old(state)@, event_type@, payload@, offset),
        ),
{
    let mut payload = payload;
    normalize_logical_payload(state, &mut payload, offset);
    encode_sse_event(event_type, &payload, output);
}

/// The payload that announces or finalizes an item.
pub open spec fn lifecycle_payload(
    event_type: Seq<char>,
    output_index: u64,
    item: JsonView,
) -> JsonView {
    JsonView::Object(
        Seq::empty().push(("type"@, JsonView::String(event_type))).push(
            ("response_id"@, JsonView::Null),
        ).push(("output_index"@, number(output_index))).push(("item"@, item)).push(
            ("sequence_number"@, number(0)),
        ),
    )
}

/// Builds the payload that announces or finalizes an item.
///
/// The output index is already absolute, so callers normalize with a zero offset.
pub fn item_lifecycle_payload(event_type: &str, output_index: u64, item: Json) -> (payload: Json)
    ensures
        payload@ == lifecycle_payload(event_type@, output_index, item@),
{
    let mut object = no_members();
    push_member(&mut object, "type", string(event_type));
    push_member(&mut object, "response_id", Json::Null);
    push_member(&mut object, "output_index", unsigned(output_index));
    push_member(&mut object, "item", item);
    push_member(&mut object, "sequence_number", unsigned(0));
    Json::Object(object)
}

/// The payload of a progress or outcome event.
pub open spec fn phase_payload(
    event_type: Seq<char>,
    item_id: Seq<char>,
    output_index: u64,
) -> JsonView {
    JsonView::Object(
        Seq::empty().push(("type"@, JsonView::String(event_type))).push(
            ("item_id"@, JsonView::String(item_id)),
        ).push(("output_index"@, number(output_index))).push(("sequence_number"@, number(0))),
    )
}

/// The id of an item, empty where it has none.
pub open spec fn item_id_of(item: JsonView) -> Seq<char> {
    match item.get_text("id"@) {
        Some(id) => id,
        None => Seq::empty(),
    }
}

/// The state and the events once the first `n` phases of an item were emitted.
pub open spec fn phases_emitted(
    state: StateView,
    item: JsonView,
    output_index: u64,
    phases: Seq<Seq<char>>,
    n: int,
) -> (StateView, Seq<EventView>)
    decreases n,
{
    if n <= 0 {
        (state, Seq::empty())
    } else {
        let (held, events) = phases_emitted(state, item, output_index, phases, n - 1);
        let payload = phase_payload(phases[n - 1], item_id_of(item), output_index);
        (
            state_after_payload(held, payload),
            events.push(emitted_event(held, phases[n - 1], payload, 0)),
        )
    }
}

/// The state and the events once a plan was carried out for an item: the
/// announcement, the phases, the finalization, as far as the plan has them.
pub open spec fn synthesized(
    state: StateView,
    output_index: u64,
    item: JsonView,
    plan: PlanView,
) -> (StateView, Seq<EventView>) {
    let opening = lifecycle_payload("response.output_item.added"@, output_index, item);
    let (opened, first) = if plan.emit_added {
        (
            state_after_payload(state, opening),
            Seq::empty().push(emitted_event(state, "response.output_item.added"@, opening, 0)),
        )
    } else {
        (state, Seq::empty())
    };
    let (progressed, middle) = phases_emitted(
        opened,
        item,
        output_index,
        plan.phases,
        plan.phases.len() as int,
    );
    let closing = lifecycle_payload("response.output_item.done"@, output_index, item);
    if plan.emit_done {
        (
            state_after_payload(progressed, closing),
            (first + middle).push(
                emitted_event(progressed, "response.output_item.done"@, closing, 0),
            ),
        )
    } else {
        (progressed, first + middle)
    }
}

/// The bytes of events behind other events.
pub proof fn lemma_events_bytes_concat(a: Seq<EventView>, b: Seq<EventView>)
    ensures
        events_bytes(a + b) == events_bytes(a) + events_bytes(b),
    decreases b.len(),
{
    if b.len() == 0 {
        assert(a + b =~= a);
        assert(events_bytes(a) + events_bytes(b) =~= events_bytes(a));
    } else {
        assert((a + b).drop_last() =~= a + b.drop_last());
        lemma_events_bytes_concat(a, b.drop_last());
        assert(events_bytes(a + b) =~= events_bytes(a) + events_bytes(b));
    }
}

/// The bytes of one more event.
pub proof fn lemma_events_bytes_push(a: Seq<EventView>, event: EventView)
    ensures
        events_bytes(a.push(event)) == events_bytes(a) + event_bytes(event),
{
    assert(a.push(event).drop_last() =~= a);
}

/// Synthesizes the incremental event sequence for one locally generated item.
///
/// Announces the item, emits exactly the planned progress events, then finalizes
/// it, as far as the plan says so.
pub fn synthesize_local_item(
    state: &mut ResponsesState,
    output: &mut Vec<u8>,
    index: usize,
    item: &Json,
    plan: &EmissionPlan,
)
    ensures
        final(state)@ == synthesized(old(state)@, index as u64, item@, plan@).0,
        final(output)@ == old(output)@ + events_bytes(
            synthesized(old(state)@, index as u64, item@, plan@).1,
        ),
{
    let output_index: u64 = index as u64;
    let item_id = match item.get_str("id") {
        Some(id) => id.to_owned(),
        None => String::new(),
    };
    assert(item_id@ =~= item_id_of(item@));
    let ghost start = state@;
    let ghost written = output@;
    let ghost mut events: Seq<EventView> = Seq::empty();
    assert(written + events_bytes(events) =~= written);
    if plan.emit_added {
        let opening = item_lifecycle_payload(
            "response.output_item.added",
            output_index,
            item.clone(),
        );
        proof {
            let event = emitted_event(start, "response.output_item.added"@, opening@, 0);
            lemma_events_bytes_push(events, event);
            events = events.push(event);
        }
        emit_event(state, "response.output_item.added", opening, 0, output);
    }
    let ghost opened = state@;
    let ghost first = events;
    assert(output@ =~= written + events_bytes(first));
    let ghost phases = phases_view(plan.phases@);
    let mut i: usize = 0;
    assert(first + phases_emitted(opened, item@, output_index, phases, 0).1 =~= first);
    while i < plan.phases.len()
        invariant
            phases == phases_view(plan.phases@),
            item_id@ == item_id_of(item@),
            i <= plan.phases.len(),
            state@ == phases_emitted(opened, item@, output_index, phases, i as int).0,
            output@ == written + events_bytes(
                first + phases_emitted(opened, item@, output_index, phases, i as int).1,
            ),
        decreases plan.phases.len() - i,
    {
        let event_type = plan.phases[i];
        let mut payload = no_members();
        push_member(&mut payload, "type", string(event_type));
        push_member(&mut payload, "item_id", string(item_id.as_str()));
        push_member(&mut payload, "output_index", unsigned(output_index));
        push_member(&mut payload, "sequence_number", unsigned(0));
        let payload = Json::Object(payload);
        proof {
            assert(payload@ == phase_payload(phases[i as int], item_id_of(item@), output_index));
            let done = phases_emitted(opened, item@, output_index, phases, i as int).1;
            let event = emitted_event(state@, event_type@, payload@, 0);
            lemma_events_bytes_push(first + done, event);
            assert((first + done).push(event) =~= first + done.push(event));
        }
        emit_event(state, event_type, payload, 0, output);
        assert(output@ =~= written + events_bytes(
            first + phases_emitted(opened, item@, output_index, phases, i + 1).1,
        ));
        i = i + 1;
    }
    let ghost middle = phases_emitted(opened, item@, output_index, phases, i as int).1;
    let ghost progressed = state@;
    if plan.emit_done {
        let closing = item_lifecycle_payload(
            "response.output_item.done",
            output_index,
            item.clone(),
        );
        proof {
            let event = emitted_event(progressed, "response.output_item.done"@, closing@, 0);
            lemma_events_bytes_push(first + middle, event);
        }
        emit_event(state, "response.output_item.done", closing, 0, output);
        assert(output@ =~= written + events_bytes(
            synthesized(start, output_index, item@, plan@).1,
        ));
    }
}


/// The recorded milestones of the item `id`.
pub open spec fn entry_of(emitted: Map<Seq<char>, EmittedView>, id: Seq<char>) -> EmittedView {
    if emitted.dom().contains(id) {
        emitted[id]
    } else {
        nothing_emitted()
    }
}

/// A state with the milestones of the item `id` changed.
pub open spec fn with_entry(state: StateView, id: Seq<char>, entry: EmittedView) -> StateView {
    StateView { emitted: state.emitted.insert(id, entry), ..state }
}

/// Takes the milestones of the item `id` out, to be changed and put back.
pub fn take_entry(state: &mut ResponsesState, id: &str) -> (entry: EmittedItem)
    ensures
        entry@ == entry_of(old(state)@.emitted, id@),
        final(state)@ == (StateView { emitted: old(state)@.emitted.remove(id@), ..old(state)@ }),
{
    let ghost before = state@;
    let entry = match state.emitted_output_items.remove(id) {
        Some(entry) => entry,
        None => EmittedItem::default(),
    };
    assert(state@.emitted =~= before.emitted.remove(id@));
    entry
}

/// Puts the milestones of the item `id` in.
pub fn put_entry(state: &mut ResponsesState, id: &str, entry: EmittedItem)
    ensures
        final(state)@ == with_entry(old(state)@, id@, entry@),
{
    proof {
        lemma_emitted_insert(state.emitted_output_items@, id@, entry);
    }
    state.emitted_output_items.insert(id, entry);
}

/// An item that a flush emits events for.
#[verifier::ext_equal]
pub struct PendingItemView {
    /// Absolute output index.
    pub index: int,
    /// The item.
    pub item: JsonView,
    /// Which events it still owes.
    pub plan: PlanView,
}

/// The milestones of the item `id`, where any were recorded.
pub open spec fn known_entry(emitted: Map<Seq<char>, EmittedView>, id: Seq<char>) -> Option<
    EmittedView,
> {
    if emitted.dom().contains(id) {
        Some(emitted[id])
    } else {
        None
    }
}

/// Whether events may be synthesized for an item: it is of a local kind, has an
/// id, and a dispatch filter executed it.
pub open spec fn is_executed_item(state: StateView, item: JsonView) -> bool {
    is_local_tool(item) && item.get_text("id"@) is Some && state.executed.contains(
        item.get_text("id"@)->0,
    )
}

/// What the item still owes the client, if anything.
pub open spec fn owed_by(state: StateView, item: JsonView) -> Option<PlanView> {
    if is_executed_item(state, item) {
        plan_of(known_entry(state.emitted, item.get_text("id"@)->0), item, digest_of(item))
    } else {
        None
    }
}

/// The items among the first `n` that still owe events, in order.
pub open spec fn pending_of(state: StateView, n: int) -> Seq<PendingItemView>
    decreases n,
{
    if n <= 0 {
        Seq::empty()
    } else {
        let front = pending_of(state, n - 1);
        match owed_by(state, state.output[n - 1]) {
            Some(plan) => front.push(PendingItemView { index: n - 1, item: state.output[n - 1], plan }),
            None => front,
        }
    }
}

/// The state once the milestones of a planned item were recorded.
pub open spec fn marked(state: StateView, pending: PendingItemView) -> StateView {
    let id = item_id_of(pending.item);
    with_entry(
        state,
        id,
        after_plan(Some(entry_of(state.emitted, id)), pending.plan, digest_of(pending.item)),
    )
}

/// The state and the events once the first `n` pending items were emitted.
pub open spec fn emitted_pending(state: StateView, pending: Seq<PendingItemView>, n: int) -> (
    StateView,
    Seq<EventView>,
)
    decreases n,
{
    if n <= 0 {
        (state, Seq::empty())
    } else {
        let (held, events) = emitted_pending(state, pending, n - 1);
        let next = pending[n - 1];
        let (after, more) = synthesized(
            marked(held, next),
            next.index as u64,
            next.item,
            next.plan,
        );
        (after, events + more)
    }
}

/// The state and the events of a flush of the local items.
pub open spec fn flushed(state: StateView) -> (StateView, Seq<EventView>) {
    let pending = pending_of(state, state.output.len() as int);
    emitted_pending(state, pending, pending.len() as int)
}

/// A locally generated output item awaiting synthesis.
pub struct PendingItem {
    /// Absolute output index in the accumulated output.
    pub index: usize,
    /// The output item.
    pub item: Json,
    /// The item's content digest.
    pub digest: u64,
    /// Which lifecycle milestones this synthesis pass must emit.
    pub plan: EmissionPlan,
}

impl View for PendingItem {
    type V = PendingItemView;

    open spec fn view(&self) -> PendingItemView {
        PendingItemView { index: self.index as int, item: self.item@, plan: self.plan@ }
    }
}

/// The models of pending items.
pub open spec fn pendings_view(items: Seq<PendingItem>) -> Seq<PendingItemView> {
    Seq::new(items.len(), |i: int| items[i]@)
}

/// Whether every pending item carries its own digest and an id.
pub open spec fn digests_match(items: Seq<PendingItem>) -> bool {
    forall|i: int|
        0 <= i < items.len() ==> (#[trigger] items[i]).digest == digest_of(items[i].item@)
            && items[i].item@.get_text("id"@) is Some
}

/// Collects the locally generated tool items that must be (re)synthesized: those
/// whose lifecycle has not been streamed, or whose content changed since the
/// client last saw them.
///
/// Synthesis is gated on execution provenance, not on the item's type alone.
pub fn collect_pending_local_items(state: &ResponsesState) -> (pending: Vec<PendingItem>)
    ensures
        pendings_view(pending@) == pending_of(state@, state@.output.len() as int),
        digests_match(pending@),
{
    let ghost view = state@;
    let mut pending: Vec<PendingItem> = Vec::new();
    let mut index: usize = 0;
    assert(pendings_view(pending@) =~= pending_of(view, 0));
    while index < state.accumulated_output.len()
        invariant
            view == state@,
            index <= state.accumulated_output.len(),
            pendings_view(pending@) == pending_of(view, index as int),
            digests_match(pending@),
        decreases state.accumulated_output.len() - index,
    {
        let item = &state.accumulated_output[index];
        assert(item@ == view.output[index as int]);
        let ghost before = pending@;
        if is_local_tool_item(item) {
            if let Some(id) = item.get_str("id") {
                if state.locally_executed_output_items.contains(id) {
                    let digest = item_digest(item);
                    let previous = state.emitted_output_items.get(id);
                    assert(previous_view(previous) == known_entry(view.emitted, id@));
                    if let Some(plan) = plan_pending_item(previous, item, digest) {
                        pending.push(PendingItem { index, item: item.clone(), digest, plan });
                        assert(pendings_view(pending@) =~= pendings_view(before).push(
                            pending@.last()@,
                        ));
                    }
                }
            }
        }
        index = index + 1;
    }
    pending
}

/// Records what a pass over one pending item delivers.
fn mark_pending(state: &mut ResponsesState, pending: &PendingItem)
    requires
        pending.digest == digest_of(pending.item@),
        pending.item@.get_text("id"@) is Some,
    ensures
        final(state)@ == marked(old(state)@, pending@),
{
    let ghost before = state@;
    if let Some(id) = pending.item.get_str("id") {
        let mut entry = take_entry(state, id);
        let ghost start = entry@;
        let ghost phases = phases_view(pending.plan.phases@);
        entry.added = true;
        let mut i: usize = 0;
        assert(entry.streamed_phases@ =~= start.phases.union(phases.take(0).to_set()));
        while i < pending.plan.phases.len()
            invariant
                phases == phases_view(pending.plan.phases@),
                i <= pending.plan.phases.len(),
                entry.added,
                entry.done_delivered == start.done,
                entry.streamed_phases@ == start.phases.union(phases.take(i as int).to_set()),
            decreases pending.plan.phases.len() - i,
        {
            entry.streamed_phases.insert(pending.plan.phases[i]);
            proof {
                let front = phases.take(i as int);
                let more = phases.take(i + 1);
                assert(more =~= front.push(phases[i as int]));
                assert forall|phase: Seq<char>|
                    more.to_set().contains(phase) == front.to_set().insert(
                        phases[i as int],
                    ).contains(phase) by {
                    if more.contains(phase) {
                        let k = choose|k: int| 0 <= k < more.len() && more[k] == phase;
                        if k < i {
                            assert(front[k] == phase);
                        }
                    }
                    if front.contains(phase) {
                        let k = choose|k: int| 0 <= k < front.len() && front[k] == phase;
                        assert(more[k] == phase);
                    }
                    assert(more[i as int] == phases[i as int]);
                }
                assert(more.to_set() =~= front.to_set().insert(phases[i as int]));
            }
            i = i + 1;
            assert(entry.streamed_phases@ =~= start.phases.union(phases.take(i as int).to_set()));
        }
        assert(phases.take(i as int) =~= phases);
        if pending.plan.emit_done {
            entry.done_delivered = true;
        }
        entry.content_digest = pending.digest;
        assert(entry@ =~= after_plan(
            Some(entry_of(before.emitted, id@)),
            pending.plan@,
            digest_of(pending.item@),
        ));
        put_entry(state, id, entry);
        assert(state@ =~= marked(before, pending@));
    }
}

/// Emits incremental events for locally generated tool items that have not yet
/// reached the client or whose outcome changed since they were last streamed.
///
/// Each synthesized item reuses its absolute index in the accumulated output, so
/// that the incremental events agree with the final snapshot.
pub fn flush_local_output_items(state: &mut ResponsesState, output: &mut Vec<u8>)
    ensures
        final(state)@ == flushed(old(state)@).0,
        final(output)@ == old(output)@ + events_bytes(flushed(old(state)@).1),
{
    let ghost start = state@;
    let ghost written = output@;
    let pending = collect_pending_local_items(state);
    let ghost view = pendings_view(pending@);
    let mut i: usize = 0;
    assert(written + events_bytes(emitted_pending(start, view, 0).1) =~= written);
    while i < pending.len()
        invariant
            view == pendings_view(pending@),
            digests_match(pending@),
            i <= pending.len(),
            state@ == emitted_pending(start, view, i as int).0,
            output@ == written + events_bytes(emitted_pending(start, view, i as int).1),
        decreases pending.len() - i,
    {
        let next = &pending[i];
        assert(next@ == view[i as int]);
        proof {
            let before = emitted_pending(start, view, i as int);
            let more = synthesized(
                marked(before.0, next@),
                next.index as u64,
                next.item@,
                next.plan@,
            ).1;
            lemma_events_bytes_concat(before.1, more);
        }
        mark_pending(state, next);
        synthesize_local_item(state, output, next.index, &next.item, &next.plan);
        assert(output@ =~= written + events_bytes(emitted_pending(start, view, i + 1).1));
        i = i + 1;
    }
}

} // verus!
