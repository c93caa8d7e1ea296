//! What holds of every logical stream: contiguous sequence numbers, local items
//! that are emitted once, and events at the indices of the final snapshot.

use vstd::prelude::*;

use crate::json::{lemma_get_with, lemma_get_with_other, with_member, JsonView};
use crate::openai::sse::EventView;
use crate::openai::state::StateView;
use crate::openai::stream_events::accumulator::state_accumulated;
use crate::openai::stream_events::chunks::committed;
use crate::openai::stream_events::digest::digest_of;
use crate::openai::stream_events::emission::{
    appended, canonicalized, done_recorded, error_emitted, is_premature_done, local_item, recorded,
    state_or_blank, terminal_emitted, terminal_payload,
};
use crate::openai::stream_events::lifecycle::{
    after_plan, expected_phases, frontier, lemma_plan_settles, plan_of, streamed_of, PlanView,
};
use crate::openai::stream_events::logical::{
    emitted_event, emitted_pending, entry_of, flushed, is_executed_item, item_id_of, known_entry,
    lifecycle_payload, logical_id_after, marked, number, owed_by, pending_of, phase_payload,
    phases_emitted, state_after_payload, synthesized, with_logical_id, with_offset, PendingItemView,
};

use crate::openai::stream_events::parser_state::ParserView;

verus! {

/// The `n`-th sequence number from `start` on.
pub open spec fn nth_sequence(start: u64, n: nat) -> u64 {
    if start + n <= u64::MAX {
        (start + n) as u64
    } else {
        u64::MAX
    }
}

/// Whether events carry consecutive sequence numbers.
pub open spec fn numbered(events: Seq<EventView>, start: u64) -> bool {
    forall|k: int|
        0 <= k < events.len() ==> (#[trigger] events[k]).payload.get_unsigned("sequence_number"@)
            == Some(nth_sequence(start, k as nat))
}

/// Whether events carry consecutive sequence numbers and leave off at `end`.
pub open spec fn numbered_to(events: Seq<EventView>, start: u64, end: u64) -> bool {
    numbered(events, start) && end == nth_sequence(start, events.len())
}

/// An emitted event whose payload is an object carries the running sequence
/// number, and its output index is moved by the offset.
pub proof fn lemma_emitted_event(
    state: StateView,
    event_type: Seq<char>,
    payload: JsonView,
    offset: u64,
)
    requires
        payload is Object,
    ensures
        emitted_event(state, event_type, payload, offset).payload.get_unsigned(
            "sequence_number"@,
        ) == Some(state.sequence),
        emitted_event(state, event_type, payload, offset).payload.get_unsigned("output_index"@)
            == with_offset(payload, offset).get_unsigned("output_index"@),
{
    reveal_strlit("output_index");
    reveal_strlit("response_id");
    reveal_strlit("response");
    reveal_strlit("sequence_number");
    assert("output_index"@.len() != "response_id"@.len());
    assert("output_index"@.len() != "response"@.len());
    assert("output_index"@.len() != "sequence_number"@.len());
    let moved = with_offset(payload, offset);
    let id = logical_id_after(state, payload);
    if let Some(id) = id {
        let flat = if moved.get("response_id"@) is Some {
            moved.with("response_id"@, JsonView::String(id))
        } else {
            moved
        };
        lemma_get_with_other(moved, "response_id"@, JsonView::String(id), "output_index"@);
        if let Some(JsonView::Object(response)) = flat.get("response"@) {
            lemma_get_with_other(
                flat,
                "response"@,
                JsonView::Object(with_member(response, "id"@, JsonView::String(id))),
                "output_index"@,
            );
        }
    }
    let named = with_logical_id(moved, id);
    lemma_get_with(named, "sequence_number"@, number(state.sequence));
    lemma_get_with_other(named, "sequence_number"@, number(state.sequence), "output_index"@);
}

/// One more numbered event.
proof fn lemma_numbered_push(events: Seq<EventView>, start: u64, end: u64, event: EventView)
    requires
        numbered_to(events, start, end),
        event.payload.get_unsigned("sequence_number"@) == Some(end),
    ensures
        numbered_to(events.push(event), start, nth_sequence(end, 1)),
{
}

/// Numbered events behind numbered events.
proof fn lemma_numbered_concat(
    a: Seq<EventView>,
    b: Seq<EventView>,
    start: u64,
    middle: u64,
    end: u64,
)
    requires
        numbered_to(a, start, middle),
        numbered_to(b, middle, end),
    ensures
        numbered_to(a + b, start, end),
{
    assert forall|k: int| 0 <= k < (a + b).len() implies (#[trigger] (a
        + b)[k]).payload.get_unsigned("sequence_number"@) == Some(
        nth_sequence(start, k as nat),
    ) by {
        if k >= a.len() {
            assert((a + b)[k] == b[k - a.len()]);
        }
    }
}

/// The phases of an item carry consecutive sequence numbers, and its index.
proof fn lemma_phases_numbered(
    state: StateView,
    item: JsonView,
    index: u64,
    phases: Seq<Seq<char>>,
    n: int,
)
    requires
        0 <= n <= phases.len(),
    ensures
        numbered_to(
            phases_emitted(state, item, index, phases, n).1,
            state.sequence,
            phases_emitted(state, item, index, phases, n).0.sequence,
        ),
        all_at(phases_emitted(state, item, index, phases, n).1, index),
        phases_emitted(state, item, index, phases, n).0 == (StateView {
            logical_id: phases_emitted(state, item, index, phases, n).0.logical_id,
            sequence: phases_emitted(state, item, index, phases, n).0.sequence,
            ..state
        }),
    decreases n,
{
    if n > 0 {
        lemma_phases_numbered(state, item, index, phases, n - 1);
        let (held, events) = phases_emitted(state, item, index, phases, n - 1);
        let payload = phase_payload(phases[n - 1], item_id_of(item), index);
        lemma_phase_payload(phases[n - 1], item_id_of(item), index);
        lemma_emitted_event(held, phases[n - 1], payload, 0);
        lemma_offset_nothing(payload, index);
        lemma_numbered_push(
            events,
            state.sequence,
            held.sequence,
            emitted_event(held, phases[n - 1], payload, 0),
        );
    }
}

/// Whether all events are at one output index.
pub open spec fn all_at(events: Seq<EventView>, index: u64) -> bool {
    forall|k: int|
        0 <= k < events.len() ==> (#[trigger] events[k]).payload.get_unsigned("output_index"@)
            == Some(index)
}

/// An offset of zero leaves the output index.
proof fn lemma_offset_nothing(payload: JsonView, index: u64)
    requires
        payload is Object,
        payload.get_unsigned("output_index"@) == Some(index),
    ensures
        with_offset(payload, 0).get_unsigned("output_index"@) == Some(index),
{
    lemma_get_with(payload, "output_index"@, number(index));
}

/// The output index of a phase payload.
proof fn lemma_phase_payload(event_type: Seq<char>, item_id: Seq<char>, index: u64)
    ensures
        phase_payload(event_type, item_id, index).get_unsigned("output_index"@) == Some(index),
{
    reveal_strlit("type");
    reveal_strlit("item_id");
    reveal_strlit("output_index");
    assert("output_index"@.len() != "type"@.len());
    assert("output_index"@.len() != "item_id"@.len());
    let members = phase_payload(event_type, item_id, index)->Object_0;
    crate::json::lemma_position_is(members, "output_index"@, 2);
}

/// The output index of a lifecycle payload.
proof fn lemma_lifecycle_payload(event_type: Seq<char>, index: u64, item: JsonView)
    ensures
        lifecycle_payload(event_type, index, item).get_unsigned("output_index"@) == Some(index),
{
    reveal_strlit("type");
    reveal_strlit("response_id");
    reveal_strlit("output_index");
    assert("output_index"@.len() != "type"@.len());
    assert("output_index"@.len() != "response_id"@.len());
    let members = lifecycle_payload(event_type, index, item)->Object_0;
    crate::json::lemma_position_is(members, "output_index"@, 2);
}

/// The events of one item carry consecutive sequence numbers and its index, and
/// emitting them changes nothing but the identity and the sequence.
pub proof fn lemma_synthesized(state: StateView, index: u64, item: JsonView, plan: PlanView)
    ensures
        numbered_to(
            synthesized(state, index, item, plan).1,
            state.sequence,
            synthesized(state, index, item, plan).0.sequence,
        ),
        all_at(synthesized(state, index, item, plan).1, index),
        synthesized(state, index, item, plan).0 == (StateView {
            logical_id: synthesized(state, index, item, plan).0.logical_id,
            sequence: synthesized(state, index, item, plan).0.sequence,
            ..state
        }),
{
    let added = "response.output_item.added"@;
    let done = "response.output_item.done"@;
    let opening = lifecycle_payload(added, index, item);
    lemma_lifecycle_payload(added, index, item);
    lemma_offset_nothing(opening, index);
    lemma_emitted_event(state, added, opening, 0);
    let (opened, first) = if plan.emit_added {
        (
            state_after_payload(state, opening),
            Seq::<EventView>::empty().push(emitted_event(state, added, opening, 0)),
        )
    } else {
        (state, Seq::<EventView>::empty())
    };
    assert(numbered_to(first, state.sequence, opened.sequence));
    let n = plan.phases.len() as int;
    lemma_phases_numbered(opened, item, index, plan.phases, n);
    let (progressed, middle) = phases_emitted(opened, item, index, plan.phases, n);
    lemma_numbered_concat(first, middle, state.sequence, opened.sequence, progressed.sequence);
    assert(all_at(first + middle, index)) by {
        assert forall|k: int| 0 <= k < (first + middle).len() implies (#[trigger] (first
            + middle)[k]).payload.get_unsigned("output_index"@) == Some(index) by {
            if k >= first.len() {
                assert((first + middle)[k] == middle[k - first.len()]);
            }
        }
    }
    let closing = lifecycle_payload(done, index, item);
    lemma_lifecycle_payload(done, index, item);
    lemma_offset_nothing(closing, index);
    lemma_emitted_event(progressed, done, closing, 0);
    lemma_numbered_push(
        first + middle,
        state.sequence,
        progressed.sequence,
        emitted_event(progressed, done, closing, 0),
    );
}

/// A flush stamps its events with consecutive sequence numbers, and leaves the
/// counter behind the last of them.
pub proof fn lemma_flush_is_contiguous(state: StateView)
    ensures
        numbered_to(flushed(state).1, state.sequence, flushed(state).0.sequence),
{
    let pending = pending_of(state, state.output.len() as int);
    lemma_pending_numbered(state, pending, pending.len() as int);
}

/// The events of pending items carry consecutive sequence numbers.
proof fn lemma_pending_numbered(state: StateView, pending: Seq<PendingItemView>, n: int)
    requires
        0 <= n <= pending.len(),
    ensures
        numbered_to(
            emitted_pending(state, pending, n).1,
            state.sequence,
            emitted_pending(state, pending, n).0.sequence,
        ),
    decreases n,
{
    if n > 0 {
        lemma_pending_numbered(state, pending, n - 1);
        let (held, events) = emitted_pending(state, pending, n - 1);
        let next = pending[n - 1];
        lemma_synthesized(marked(held, next), next.index as u64, next.item, next.plan);
        let (after, more) = synthesized(
            marked(held, next),
            next.index as u64,
            next.item,
            next.plan,
        );
        lemma_numbered_concat(events, more, state.sequence, held.sequence, after.sequence);
    }
}

/// What a flush considers pending: executed items, each once, in order, with what
/// they owe; and every item that owes something.
pub proof fn lemma_pending(state: StateView, n: int)
    requires
        0 <= n <= state.output.len(),
    ensures
        forall|k: int|
            0 <= k < pending_of(state, n).len() ==> {
                let pending = #[trigger] pending_of(state, n)[k];
                &&& 0 <= pending.index < n
                &&& pending.item == state.output[pending.index]
                &&& is_executed_item(state, pending.item)
                &&& owed_by(state, pending.item) == Some(pending.plan)
            },
        forall|j: int, k: int|
            0 <= j < k < pending_of(state, n).len() ==> (#[trigger] pending_of(state, n)[j]).index
                < (#[trigger] pending_of(state, n)[k]).index,
        forall|i: int|
            0 <= i < n && owed_by(state, #[trigger] state.output[i]) is Some ==> exists|k: int|
                0 <= k < pending_of(state, n).len() && (#[trigger] pending_of(state, n)[k]).index
                    == i,
    decreases n,
{
    if n > 0 {
        lemma_pending(state, n - 1);
        let front = pending_of(state, n - 1);
        let all = pending_of(state, n);
        assert forall|i: int|
            0 <= i < n && owed_by(state, #[trigger] state.output[i]) is Some implies exists|k: int|
            0 <= k < all.len() && (#[trigger] all[k]).index == i by {
            if i < n - 1 {
                let k = choose|k: int| 0 <= k < front.len() && (#[trigger] front[k]).index == i;
                assert(all[k] == front[k]);
            } else {
                assert(all[all.len() - 1].index == i);
            }
        }
    }
}

/// Whether an event is at the index of an item that a dispatch filter executed.
pub open spec fn is_at_executed_item(state: StateView, event: EventView) -> bool {
    exists|i: int|
        0 <= i < state.output.len() && is_executed_item(state, #[trigger] state.output[i])
            && event.payload.get_unsigned("output_index"@) == Some(i as u64)
}

/// Only items that a dispatch filter executed are synthesized, and their events
/// carry the item's index in the accumulated output: every event of a flush is at
/// the index of an executed item.
pub proof fn lemma_flush_emits_executed_items(state: StateView)
    requires
        state.output.len() <= u64::MAX,
    ensures
        forall|e: int|
            0 <= e < flushed(state).1.len() ==> is_at_executed_item(
                state,
                #[trigger] flushed(state).1[e],
            ),
{
    let n = state.output.len() as int;
    lemma_pending(state, n);
    let pending = pending_of(state, n);
    lemma_pending_at(state, pending, pending.len() as int);
    let events = flushed(state).1;
    assert forall|e: int| 0 <= e < events.len() implies is_at_executed_item(
        state,
        #[trigger] events[e],
    ) by {
        let k = choose|k: int|
            0 <= k < pending.len() && events[e].payload.get_unsigned("output_index"@) == Some(
                (#[trigger] pending[k]).index as u64,
            );
        let i = pending[k].index;
        assert(is_executed_item(state, state.output[i]));
    }
}

/// Each event of pending items is at the index of one of them.
proof fn lemma_pending_at(state: StateView, pending: Seq<PendingItemView>, n: int)
    requires
        0 <= n <= pending.len(),
    ensures
        forall|e: int|
            0 <= e < emitted_pending(state, pending, n).1.len() ==> exists|k: int|
                0 <= k < n && (#[trigger] emitted_pending(
                    state,
                    pending,
                    n,
                ).1[e]).payload.get_unsigned("output_index"@) == Some(
                    (#[trigger] pending[k]).index as u64,
                ),
    decreases n,
{
    if n > 0 {
        lemma_pending_at(state, pending, n - 1);
        let (held, events) = emitted_pending(state, pending, n - 1);
        let next = pending[n - 1];
        lemma_synthesized(marked(held, next), next.index as u64, next.item, next.plan);
        let more = synthesized(
            marked(held, next),
            next.index as u64,
            next.item,
            next.plan,
        ).1;
        assert forall|e: int| 0 <= e < (events + more).len() implies exists|k: int|
            0 <= k < n && (#[trigger] (events + more)[e]).payload.get_unsigned("output_index"@)
                == Some((#[trigger] pending[k]).index as u64) by {
            if e < events.len() {
                assert((events + more)[e] == events[e]);
                let k = choose|k: int|
                    0 <= k < n - 1 && events[e].payload.get_unsigned("output_index"@) == Some(
                        (#[trigger] pending[k]).index as u64,
                    );
                assert(pending[k].index as u64 == pending[k].index as u64);
            } else {
                assert((events + more)[e] == more[e - events.len()]);
                assert(pending[n - 1].index as u64 == next.index as u64);
            }
        }
    }
}

/// Emitting pending items changes the milestones of those items alone, besides
/// the identity and the sequence.
proof fn lemma_pending_frame(state: StateView, pending: Seq<PendingItemView>, n: int)
    requires
        0 <= n <= pending.len(),
    ensures
        emitted_pending(state, pending, n).0 == (StateView {
            logical_id: emitted_pending(state, pending, n).0.logical_id,
            sequence: emitted_pending(state, pending, n).0.sequence,
            emitted: emitted_pending(state, pending, n).0.emitted,
            ..state
        }),
        forall|id: Seq<char>|
            (forall|k: int| 0 <= k < n ==> item_id_of((#[trigger] pending[k]).item) != id)
                ==> #[trigger] known_entry(emitted_pending(state, pending, n).0.emitted, id)
                == known_entry(state.emitted, id),
    decreases n,
{
    if n > 0 {
        lemma_pending_frame(state, pending, n - 1);
        let held = emitted_pending(state, pending, n - 1).0;
        let next = pending[n - 1];
        lemma_synthesized(marked(held, next), next.index as u64, next.item, next.plan);
        assert forall|id: Seq<char>|
            (forall|k: int| 0 <= k < n ==> item_id_of(
                (#[trigger] pending[k]).item,
            ) != id) implies #[trigger] known_entry(
            emitted_pending(state, pending, n).0.emitted,
            id,
        ) == known_entry(state.emitted, id) by {
            assert(item_id_of(pending[n - 1].item) != id);
            assert(known_entry(held.emitted, id) == known_entry(state.emitted, id));
        }
    }
}

/// The milestones of a pending item once it was emitted.
proof fn lemma_pending_entry(state: StateView, pending: Seq<PendingItemView>, n: int, k: int)
    requires
        0 <= k < n <= pending.len(),
        forall|i: int, j: int|
            0 <= i < j < pending.len() ==> item_id_of((#[trigger] pending[i]).item) != item_id_of(
                (#[trigger] pending[j]).item,
            ),
    ensures
        ({
            let id = item_id_of(pending[k].item);
            known_entry(emitted_pending(state, pending, n).0.emitted, id) == Some(
                after_plan(
                    Some(entry_of(state.emitted, id)),
                    pending[k].plan,
                    digest_of(pending[k].item),
                ),
            )
        }),
    decreases n,
{
    let id = item_id_of(pending[k].item);
    let held = emitted_pending(state, pending, n - 1).0;
    let next = pending[n - 1];
    lemma_synthesized(marked(held, next), next.index as u64, next.item, next.plan);
    if k < n - 1 {
        lemma_pending_entry(state, pending, n - 1, k);
        assert(item_id_of(pending[n - 1].item) != id);
    } else {
        lemma_pending_frame(state, pending, n - 1);
        assert(known_entry(held.emitted, id) == known_entry(state.emitted, id));
    }
}

/// A flush settles what is owed: a second flush emits nothing and changes
/// nothing, where no two executed items share an id.
pub proof fn lemma_flush_settles(state: StateView)
    requires
        forall|i: int, j: int|
            0 <= i < j < state.output.len() && is_executed_item(state, #[trigger] state.output[i])
                && is_executed_item(state, #[trigger] state.output[j]) ==> item_id_of(
                state.output[i],
            ) != item_id_of(state.output[j]),
    ensures
        flushed(flushed(state).0) == (flushed(state).0, Seq::<EventView>::empty()),
{
    let n = state.output.len() as int;
    let pending = pending_of(state, n);
    lemma_pending(state, n);
    let after = flushed(state).0;
    assert forall|i: int, j: int| 0 <= i < j < pending.len() implies item_id_of(
        (#[trigger] pending[i]).item,
    ) != item_id_of((#[trigger] pending[j]).item) by {
        assert(is_executed_item(state, state.output[pending[i].index]));
        assert(is_executed_item(state, state.output[pending[j].index]));
    }
    lemma_pending_frame(state, pending, pending.len() as int);
    assert forall|i: int| 0 <= i < n implies owed_by(after, #[trigger] after.output[i]) is None by {
        let item = state.output[i];
        if is_executed_item(state, item) {
            let id = item.get_text("id"@)->0;
            let previous = known_entry(state.emitted, id);
            if owed_by(state, item) is Some {
                let k = choose|k: int| 0 <= k < pending.len() && (#[trigger] pending[k]).index == i;
                lemma_pending_entry(state, pending, pending.len() as int, k);
                let plan = pending[k].plan;
                let digest = digest_of(item);
                assert(after_plan(Some(entry_of(state.emitted, id)), plan, digest) =~= after_plan(
                    previous,
                    plan,
                    digest,
                ));
                lemma_plan_settles(previous, item, digest);
            } else {
                assert forall|k: int| 0 <= k < pending.len() implies item_id_of(
                    (#[trigger] pending[k]).item,
                ) != id by {
                    let at = pending[k].index;
                    assert(at != i);
                    assert(is_executed_item(state, state.output[at]));
                    if at < i {
                        assert(item_id_of(state.output[at]) != item_id_of(state.output[i]));
                    } else {
                        assert(item_id_of(state.output[i]) != item_id_of(state.output[at]));
                    }
                }
                assert(known_entry(after.emitted, id) == previous);
            }
        }
    }
    lemma_nothing_pending(after, n);
}

/// Where no item owes anything, nothing is pending.
proof fn lemma_nothing_pending(state: StateView, n: int)
    requires
        0 <= n <= state.output.len(),
        forall|i: int| 0 <= i < n ==> owed_by(state, #[trigger] state.output[i]) is None,
    ensures
        pending_of(state, n) == Seq::<PendingItemView>::empty(),
    decreases n,
{
    if n > 0 {
        lemma_nothing_pending(state, n - 1);
        assert(owed_by(state, state.output[n - 1]) is None);
    }
}

/// A flush keeps the identity of the logical response once it is known, and
/// changes nothing but milestones, identity and sequence.
proof fn lemma_flush_frame(state: StateView)
    ensures
        flushed(state).0 == (StateView {
            logical_id: flushed(state).0.logical_id,
            sequence: flushed(state).0.sequence,
            emitted: flushed(state).0.emitted,
            ..state
        }),
        state.logical_id is Some ==> flushed(state).0.logical_id == state.logical_id,
{
    let pending = pending_of(state, state.output.len() as int);
    lemma_pending_frame(state, pending, pending.len() as int);
    if state.logical_id is Some {
        lemma_pending_identity(state, pending, pending.len() as int);
    }
}

/// Emitting pending items keeps a known identity.
proof fn lemma_pending_identity(state: StateView, pending: Seq<PendingItemView>, n: int)
    requires
        0 <= n <= pending.len(),
        state.logical_id is Some,
    ensures
        emitted_pending(state, pending, n).0.logical_id == state.logical_id,
    decreases n,
{
    if n > 0 {
        lemma_pending_identity(state, pending, n - 1);
        let held = emitted_pending(state, pending, n - 1).0;
        let next = pending[n - 1];
        lemma_synthesized_identity(
            marked(held, next),
            next.index as u64,
            next.item,
            next.plan,
        );
    }
}

/// Emitting one item keeps a known identity.
proof fn lemma_synthesized_identity(state: StateView, index: u64, item: JsonView, plan: PlanView)
    requires
        state.logical_id is Some,
    ensures
        synthesized(state, index, item, plan).0.logical_id == state.logical_id,
{
    let opening = lifecycle_payload("response.output_item.added"@, index, item);
    let opened = if plan.emit_added {
        state_after_payload(state, opening)
    } else {
        state
    };
    lemma_phases_identity(opened, item, index, plan.phases, plan.phases.len() as int);
}

/// Emitting phases keeps a known identity.
proof fn lemma_phases_identity(
    state: StateView,
    item: JsonView,
    index: u64,
    phases: Seq<Seq<char>>,
    n: int,
)
    requires
        state.logical_id is Some,
    ensures
        phases_emitted(state, item, index, phases, n).0.logical_id == state.logical_id,
    decreases n,
{
    if n > 0 {
        lemma_phases_identity(state, item, index, phases, n - 1);
    }
}

/// Once the id of the logical response is known, no event of any round changes it.
pub proof fn lemma_identity_is_kept(parser: ParserView, state: StateView, event: EventView)
    requires
        state.logical_id is Some,
    ensures
        appended(parser, Some(state), event).1 is Some,
        appended(parser, Some(state), event).1->0.logical_id == state.logical_id,
{
    lemma_flush_frame(recorded(state, event));
}

/// An event of the logical stream stamps what it emits with consecutive sequence
/// numbers, and leaves the counter behind the last of them.
pub proof fn lemma_append_is_contiguous(
    parser: ParserView,
    state: Option<StateView>,
    event: EventView,
)
    requires
        event.payload is Object,
    ensures
        numbered_to(
            appended(parser, state, event).2,
            state_or_blank(state).sequence,
            state_or_blank(appended(parser, state, event).1).sequence,
        ),
{
    let held = state_or_blank(state);
    let seen = recorded(held, event);
    lemma_flush_is_contiguous(seen);
    let due = parser.iteration > 0 && !parser.flushed;
    let (after, earlier) = if due {
        flushed(seen)
    } else {
        (seen, Seq::<EventView>::empty())
    };
    let told = done_recorded(after, event);
    lemma_emitted_event(told, event.event_type, event.payload, parser.offset);
    lemma_numbered_push(
        earlier,
        held.sequence,
        after.sequence,
        emitted_event(told, event.event_type, event.payload, parser.offset),
    );
}

/// Accumulating an event leaves the sequence.
proof fn lemma_accumulation_keeps_sequence(
    parser: ParserView,
    state: Option<StateView>,
    event: EventView,
)
    ensures
        state_or_blank(state_accumulated(parser, state, event)).sequence == state_or_blank(
            state,
        ).sequence,
{
}

/// All that a chunk emits carries consecutive sequence numbers.
pub proof fn lemma_chunk_is_contiguous(
    parser: ParserView,
    state: Option<StateView>,
    metadata: Map<Seq<char>, Seq<char>>,
    events: Seq<EventView>,
    n: int,
)
    requires
        0 <= n <= events.len(),
        forall|i: int| 0 <= i < events.len() ==> (#[trigger] events[i]).payload is Object,
    ensures
        numbered_to(
            committed(parser, state, metadata, events, n).3,
            state_or_blank(state).sequence,
            state_or_blank(committed(parser, state, metadata, events, n).1).sequence,
        ),
    decreases n,
{
    if n > 0 {
        lemma_chunk_is_contiguous(parser, state, metadata, events, n - 1);
        let (p, s, m, out) = committed(parser, state, metadata, events, n - 1);
        let event = events[n - 1];
        assert(event.payload is Object);
        lemma_append_is_contiguous(p, s, event);
        let (shown, seen, more) = if p.logical {
            appended(p, s, event)
        } else {
            (p, s, Seq::<EventView>::empty())
        };
        lemma_accumulation_keeps_sequence(shown, seen, event);
        lemma_numbered_concat(
            out,
            more,
            state_or_blank(state).sequence,
            state_or_blank(s).sequence,
            state_or_blank(seen).sequence,
        );
    }
}

/// The end of a logical stream carries consecutive sequence numbers up to its
/// last event, whether it is the terminal snapshot or an error.
pub proof fn lemma_end_is_contiguous(state: StateView, last: EventView, offset: u64)
    requires
        last.payload is Object,
    ensures
        numbered_to(
            terminal_emitted(state, last, offset).1,
            state.sequence,
            terminal_emitted(state, last, offset).0.sequence,
        ),
        numbered_to(
            error_emitted(state, last.payload, offset).1,
            state.sequence,
            error_emitted(state, last.payload, offset).0.sequence,
        ),
{
    lemma_flush_is_contiguous(state);
    let (held, events) = flushed(state);
    lemma_emitted_event(held, "error"@, last.payload, offset);
    lemma_numbered_push(
        events,
        state.sequence,
        held.sequence,
        emitted_event(held, "error"@, last.payload, offset),
    );
    let stored = canonicalized(held);
    let payload = terminal_payload(last.payload, stored);
    lemma_emitted_event(stored, last.event_type, payload, offset);
    lemma_numbered_push(
        events,
        state.sequence,
        stored.sequence,
        emitted_event(stored, last.event_type, payload, offset),
    );
}

/// A finalization that the model streamed and that was passed through settles its
/// item: a later flush of the same content emits nothing for it.
pub proof fn lemma_passed_done_settles(state: StateView, event: EventView)
    requires
        event.event_type == "response.output_item.done"@,
        local_item(event.payload) is Some,
        !is_premature_done(recorded(state, event), event),
    ensures
        ({
            let (id, item) = local_item(event.payload)->0;
            let after = done_recorded(recorded(state, event), event);
            plan_of(known_entry(after.emitted, id), item, digest_of(item)) is None
        }),
{
    let (id, item) = local_item(event.payload)->0;
    let after = done_recorded(recorded(state, event), event);
    let expected = expected_phases(item);
    let entry = known_entry(after.emitted, id)->0;
    if expected.len() > 0 {
        assert(entry.phases.contains(expected.last()));
        assert(frontier(expected, entry.phases) == expected.len());
    }
    assert(expected.skip(frontier(expected, streamed_of(Some(entry))) as int).len() == 0);
}

} // verus!
