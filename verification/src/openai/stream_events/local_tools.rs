//! Events of locally resolved file searches: which of a model's events are held
//! back, and what is synthesized at the end of a round.

use vstd::prelude::*;

use crate::collections::{text_at, TextMap};
use crate::json::{
    distinct_names, lemma_get_with, lemma_get_with_other, lemma_member_without_other,
    lemma_position_absent, lemma_position_is, lemma_position_of, lemma_with_stays_distinct, member,
    no_members, position_of, push_member, string, unsigned, without_member, Json, JsonView,
    Members, NumberView,
};
use crate::openai::sse::EventView;
use crate::openai::state::{ResponsesState, StateView, SynthesisKind};
use crate::openai::stream_events::delivery::lemma_payload_is_shown;
use crate::openai::stream_events::filter::{
    set_stream_error, stream_error, with_stream_error, ContextView, StreamContext,
};
use crate::openai::stream_events::logical::{
    emit_event, emitted_event, events_bytes, lemma_events_bytes_concat, lemma_events_bytes_push,
    number, state_after_payload,
};
use crate::openai::web_search::turns::lemma_decimal_injective;
use crate::text::{decimal, join, same_text, with_decimal};

verus! {

broadcast use crate::json_model::group_json_view;

/// Which events of an item are held back.
#[derive(Clone, Copy, Debug, PartialEq, Eq, Structural)]
pub enum LocalToolMode {
    /// Every event of the item (a fully private function call).
    Suppress,
    /// Only a finalization of an item that is still pending (a native file search
    /// that is resolved at the end of the stream).
    NativeHybridPending,
}

/// The id of the item that a payload carries.
pub open spec fn nested_id(payload: JsonView) -> Option<Seq<char>> {
    match payload.get("item"@) {
        Some(item) => item.get_text("id"@),
        None => None,
    }
}

/// The key of an item id.
pub open spec fn item_key(id: Seq<char>) -> Seq<char> {
    "item:"@ + id
}

/// The key of an output index.
pub open spec fn index_key(index: u64) -> Seq<char> {
    "index:"@ + decimal(index as nat)
}

/// The modes once an opened item was registered under both of its keys.
pub open spec fn registered(
    modes: Map<Seq<char>, LocalToolMode>,
    payload: JsonView,
    mode: LocalToolMode,
) -> Map<Seq<char>, LocalToolMode> {
    let by_id = match nested_id(payload) {
        Some(id) => modes.insert(item_key(id), mode),
        None => modes,
    };
    match payload.get_unsigned("output_index"@) {
        Some(index) => by_id.insert(index_key(index), mode),
        None => by_id,
    }
}

/// The id of the item that a payload carries.
fn item_id(payload: &Json) -> (id: Option<&str>)
    ensures
        match id {
            Some(id) => nested_id(payload@) == Some(id@),
            None => nested_id(payload@) is None,
        },
{
    match payload.get("item") {
        Some(item) => item.get_str("id"),
        None => None,
    }
}

/// Records both keys of an item opened by a raw announcement.
pub fn register_local_tool(
    modes: &mut TextMap<LocalToolMode>,
    added_payload: &Json,
    mode: LocalToolMode,
)
    ensures
        final(modes)@ == registered(old(modes)@, added_payload@, mode),
{
    if let Some(id) = item_id(added_payload) {
        modes.insert(join("item:", id).as_str(), mode);
    }
    if let Some(index) = added_payload.get_u64("output_index") {
        modes.insert(with_decimal("index:", index).as_str(), mode);
    }
}

/// The keys that an event carries: that of its item's id, nested or flat, then
/// that of its output index.
pub open spec fn event_keys(payload: JsonView) -> Seq<Seq<char>> {
    let id = match nested_id(payload) {
        Some(id) => Some(id),
        None => payload.get_text("item_id"@),
    };
    let by_id = match id {
        Some(id) => Seq::empty().push(item_key(id)),
        None => Seq::empty(),
    };
    match payload.get_unsigned("output_index"@) {
        Some(index) => by_id.push(index_key(index)),
        None => by_id,
    }
}

/// Resolves the keys that an incoming event carries.
pub fn event_local_tool_keys(payload: &Json) -> (keys: Vec<String>)
    ensures
        crate::openai::state::texts_view(keys@) == event_keys(payload@),
{
    let mut keys: Vec<String> = Vec::new();
    let id = match item_id(payload) {
        Some(id) => Some(id),
        None => payload.get_str("item_id"),
    };
    if let Some(id) = id {
        keys.push(join("item:", id));
    }
    if let Some(index) = payload.get_u64("output_index") {
        keys.push(with_decimal("index:", index));
    }
    assert(crate::openai::state::texts_view(keys@) =~= event_keys(payload@));
    keys
}

/// An event before it is normalized.
pub struct Synthesized {
    /// The event's type.
    pub event_type: &'static str,
    /// The event's payload.
    pub payload: Json,
}

impl View for Synthesized {
    type V = EventView;

    open spec fn view(&self) -> EventView {
        EventView { event_type: self.event_type@, payload: self.payload@ }
    }
}

/// The models of events before they are normalized.
pub open spec fn shapes_view(shapes: Seq<Synthesized>) -> Seq<EventView> {
    Seq::new(shapes.len(), |i: int| shapes[i]@)
}

/// An item with the given status and without results.
pub open spec fn bare_item(item: JsonView, status: Seq<char>) -> JsonView {
    item.with("status"@, JsonView::String(status)).without("results"@)
}

/// A copy of an item with the given status and without results.
fn strip_item(item: &Json, status: &str) -> (copy: Json)
    ensures
        copy@ == bare_item(item@, status@),
{
    let mut copy = item.clone();
    copy.set("status", string(status));
    copy.take_member("results");
    copy
}

/// An event that announces or finalizes an item.
pub open spec fn envelope(event_type: Seq<char>, index: u64, item: JsonView) -> EventView {
    EventView {
        event_type,
        payload: JsonView::Object(
            Seq::empty().push(("type"@, JsonView::String(event_type))).push(
                ("output_index"@, number(index)),
            ).push(("item"@, item)).push(("sequence_number"@, number(0))),
        ),
    }
}

/// Builds an event that announces or finalizes an item.
fn build_envelope(event_type: &'static str, index: u64, item: Json) -> (event: Synthesized)
    ensures
        event@ == envelope(event_type@, index, item@),
{
    let mut object = no_members();
    push_member(&mut object, "type", string(event_type));
    push_member(&mut object, "output_index", unsigned(index));
    push_member(&mut object, "item", item);
    push_member(&mut object, "sequence_number", unsigned(0));
    Synthesized { event_type, payload: Json::Object(object) }
}

/// A progress event of an item.
pub open spec fn progress(event_type: Seq<char>, index: u64, item: JsonView) -> EventView {
    let opened: Members = Seq::empty().push(("type"@, JsonView::String(event_type))).push(
        ("output_index"@, number(index)),
    );
    let named = match item.get_text("id"@) {
        Some(id) => opened.push(("item_id"@, JsonView::String(id))),
        None => opened,
    };
    EventView {
        event_type,
        payload: JsonView::Object(named.push(("sequence_number"@, number(0)))),
    }
}

/// Builds a progress event of an item.
fn build_progress(event_type: &'static str, index: u64, item: &Json) -> (event: Synthesized)
    ensures
        event@ == progress(event_type@, index, item@),
{
    let mut object = no_members();
    push_member(&mut object, "type", string(event_type));
    push_member(&mut object, "output_index", unsigned(index));
    if let Some(id) = item.get_str("id") {
        push_member(&mut object, "item_id", string(id));
    }
    push_member(&mut object, "sequence_number", unsigned(0));
    Synthesized { event_type, payload: Json::Object(object) }
}

/// One more event before it is normalized.
fn push_shape(shapes: &mut Vec<Synthesized>, shape: Synthesized)
    ensures
        shapes_view(final(shapes)@) == shapes_view(old(shapes)@).push(shape@),
{
    let ghost before = shapes_view(shapes@);
    shapes.push(shape);
    assert(shapes_view(shapes@) =~= before.push(shape@));
}

/// No events.
fn no_shapes() -> (shapes: Vec<Synthesized>)
    ensures
        shapes_view(shapes@) == Seq::<EventView>::empty(),
{
    let shapes: Vec<Synthesized> = Vec::new();
    assert(shapes_view(shapes@) =~= Seq::empty());
    shapes
}

/// The opening of a private file search: announcement and progress.
pub open spec fn private_opening(item: JsonView, index: u64) -> Seq<EventView> {
    Seq::empty().push(
        envelope("response.output_item.added"@, index, bare_item(item, "searching"@)),
    ).push(progress("response.file_search_call.in_progress"@, index, item)).push(
        progress("response.file_search_call.searching"@, index, item),
    )
}

/// The lifecycle of a private file search that completed.
pub open spec fn private_complete(item: JsonView, index: u64) -> Seq<EventView> {
    private_opening(item, index).push(
        progress("response.file_search_call.completed"@, index, item),
    ).push(envelope("response.output_item.done"@, index, item))
}

/// Pushes the opening of a private file search.
fn push_private_opening(shapes: &mut Vec<Synthesized>, item: &Json, index: u64)
    requires
        shapes_view(old(shapes)@) == Seq::<EventView>::empty(),
    ensures
        shapes_view(final(shapes)@) == private_opening(item@, index),
{
    push_shape(
        shapes,
        build_envelope("response.output_item.added", index, strip_item(item, "searching")),
    );
    push_shape(shapes, build_progress("response.file_search_call.in_progress", index, item));
    push_shape(shapes, build_progress("response.file_search_call.searching", index, item));
}

/// Synthesizes the complete lifecycle of a private file search: opening, progress,
/// completion, finalization.
pub fn synthesize_private_complete(item: &Json, round_local_index: u64) -> (events: Vec<
    Synthesized,
>)
    ensures
        shapes_view(events@) == private_complete(item@, round_local_index),
{
    let mut events = no_shapes();
    push_private_opening(&mut events, item, round_local_index);
    push_shape(
        &mut events,
        build_progress("response.file_search_call.completed", round_local_index, item),
    );
    push_shape(
        &mut events,
        build_envelope("response.output_item.done", round_local_index, item.clone()),
    );
    events
}

/// The tail of a native file search that completed.
pub open spec fn native_complete_tail(item: JsonView, index: u64) -> Seq<EventView> {
    Seq::empty().push(progress("response.file_search_call.completed"@, index, item)).push(
        envelope("response.output_item.done"@, index, item),
    )
}

/// Synthesizes the tail of a native file search that completed, at the index of
/// its opening.
pub fn synthesize_native_complete_tail(item: &Json, round_local_index: u64) -> (events: Vec<
    Synthesized,
>)
    ensures
        shapes_view(events@) == native_complete_tail(item@, round_local_index),
{
    let mut events = no_shapes();
    push_shape(
        &mut events,
        build_progress("response.file_search_call.completed", round_local_index, item),
    );
    push_shape(
        &mut events,
        build_envelope("response.output_item.done", round_local_index, item.clone()),
    );
    events
}

/// The tail of a file search that did not complete; a private one is opened first.
pub open spec fn incomplete_tail(item: JsonView, index: u64, private: bool) -> Seq<EventView> {
    let opening = if private {
        private_opening(item, index)
    } else {
        Seq::empty()
    };
    opening.push(
        envelope("response.output_item.done"@, index, bare_item(item, "incomplete"@)),
    )
}

/// Synthesizes the tail of a file search that did not complete.
pub fn synthesize_incomplete_tail(item: &Json, round_local_index: u64, private: bool) -> (events:
    Vec<Synthesized>)
    ensures
        shapes_view(events@) == incomplete_tail(item@, round_local_index, private),
{
    let mut events = no_shapes();
    if private {
        push_private_opening(&mut events, item, round_local_index);
    }
    push_shape(
        &mut events,
        build_envelope(
            "response.output_item.done",
            round_local_index,
            strip_item(item, "incomplete"),
        ),
    );
    events
}

/// The events that a queued item owes, by its origin and its status.
pub open spec fn built(item: JsonView, index: u64, kind: SynthesisKind) -> Seq<EventView> {
    let completed = item.get_text("status"@) == Some("completed"@);
    if !completed {
        incomplete_tail(item, index, kind == SynthesisKind::Private)
    } else if kind == SynthesisKind::Private {
        private_complete(item, index)
    } else {
        native_complete_tail(item, index)
    }
}

/// Chooses the events of a queued item by its origin and its status.
pub fn select_builder(item: &Json, round_local: u64, kind: SynthesisKind) -> (events: Vec<
    Synthesized,
>)
    ensures
        shapes_view(events@) == built(item@, round_local, kind),
{
    let completed = match item.get_str("status") {
        Some(status) => same_text(status, "completed"),
        None => false,
    };
    if !completed {
        synthesize_incomplete_tail(item, round_local, kind == SynthesisKind::Private)
    } else if kind == SynthesisKind::Private {
        synthesize_private_complete(item, round_local)
    } else {
        synthesize_native_complete_tail(item, round_local)
    }
}

/// A queued item with its index in the round and its origin.
pub struct Resolved {
    /// The item's index among the output of this round.
    pub round_local: u64,
    /// Where the item comes from.
    pub kind: SynthesisKind,
    /// The item.
    pub item: Json,
}

/// The models of resolved items.
pub open spec fn resolved_view(resolved: Seq<Resolved>) -> Seq<(u64, SynthesisKind, JsonView)> {
    Seq::new(
        resolved.len(),
        |i: int| (resolved[i].round_local, resolved[i].kind, resolved[i].item@),
    )
}

/// The first `n` queued items, resolved against the output of all rounds; the
/// first one that lies before this round or behind the output refuses them all.
pub open spec fn resolution(
    output: Seq<JsonView>,
    queue: Seq<(usize, SynthesisKind)>,
    offset: u64,
    n: int,
) -> Result<Seq<(u64, SynthesisKind, JsonView)>, Seq<char>>
    decreases n,
{
    if n <= 0 {
        Ok(Seq::empty())
    } else {
        match resolution(output, queue, offset, n - 1) {
            Err(message) => Err(message),
            Ok(front) => {
                let (index, kind) = queue[n - 1];
                if index < offset {
                    Err("openai_stream_events: file_search synthesis index invariant"@)
                } else if index >= output.len() {
                    Err("openai_stream_events: file_search synthesis index out of range"@)
                } else {
                    Ok(front.push(((index - offset) as u64, kind, output[index as int])))
                }
            },
        }
    }
}

/// Whether `result` is the outcome `expected`.
pub open spec fn resolution_is(
    result: Result<Vec<Resolved>, &'static str>,
    expected: Result<Seq<(u64, SynthesisKind, JsonView)>, Seq<char>>,
) -> bool {
    match result {
        Ok(resolved) => expected == Ok::<Seq<(u64, SynthesisKind, JsonView)>, Seq<char>>(
            resolved_view(resolved@),
        ),
        Err(message) => expected == Err::<Seq<(u64, SynthesisKind, JsonView)>, Seq<char>>(
            message@,
        ),
    }
}

/// A refused item refuses the queue.
proof fn lemma_resolution_stays(
    output: Seq<JsonView>,
    queue: Seq<(usize, SynthesisKind)>,
    offset: u64,
    n: int,
    m: int,
)
    requires
        0 <= n <= m <= queue.len(),
        resolution(output, queue, offset, n) is Err,
    ensures
        resolution(output, queue, offset, m) == resolution(output, queue, offset, n),
    decreases m,
{
    if n < m {
        lemma_resolution_stays(output, queue, offset, n, m - 1);
    }
}

/// Validates and resolves every queued index against the committed output.
fn resolve_queue(output: &Vec<Json>, queue: &Vec<(usize, SynthesisKind)>, offset: u64) -> (result:
    Result<Vec<Resolved>, &'static str>)
    ensures
        resolution_is(
            result,
            resolution(crate::json::items_view(output@), queue@, offset, queue@.len() as int),
        ),
{
    let ghost items = crate::json::items_view(output@);
    let mut resolved: Vec<Resolved> = Vec::new();
    let mut i: usize = 0;
    assert(resolved_view(resolved@) =~= Seq::empty());
    while i < queue.len()
        invariant
            items == crate::json::items_view(output@),
            i <= queue.len(),
            resolution(items, queue@, offset, i as int) == Ok::<
                Seq<(u64, SynthesisKind, JsonView)>,
                Seq<char>,
            >(resolved_view(resolved@)),
        decreases queue.len() - i,
    {
        let (index, kind) = queue[i];
        let ghost front = resolved_view(resolved@);
        let absolute: u64 = index as u64;
        if absolute < offset {
            proof {
                lemma_resolution_stays(items, queue@, offset, i + 1, queue@.len() as int);
            }
            return Err("openai_stream_events: file_search synthesis index invariant");
        }
        if index >= output.len() {
            proof {
                lemma_resolution_stays(items, queue@, offset, i + 1, queue@.len() as int);
            }
            return Err("openai_stream_events: file_search synthesis index out of range");
        }
        resolved.push(
            Resolved { round_local: absolute - offset, kind, item: output[index].clone() },
        );
        assert(resolved_view(resolved@) =~= front.push(
            ((index - offset) as u64, kind, items[index as int]),
        ));
        i = i + 1;
    }
    Ok(resolved)
}

/// The state and the events once the first `n` events were normalized.
pub open spec fn shapes_emitted(
    state: StateView,
    shapes: Seq<EventView>,
    offset: u64,
    n: int,
) -> (StateView, Seq<EventView>)
    decreases n,
{
    if n <= 0 {
        (state, Seq::empty())
    } else {
        let (held, events) = shapes_emitted(state, shapes, offset, n - 1);
        let shape = shapes[n - 1];
        (
            state_after_payload(held, shape.payload),
            events.push(emitted_event(held, shape.event_type, shape.payload, offset)),
        )
    }
}

/// Normalizes and encodes events.
fn emit_shapes(
    state: &mut ResponsesState,
    shapes: Vec<Synthesized>,
    offset: u64,
    output: &mut Vec<u8>,
)
    ensures
        ({
            let expected = shapes_emitted(
                old(state)@,
                shapes_view(shapes@),
                offset,
                shapes@.len() as int,
            );
            &&& final(state)@ == expected.0
            &&& final(output)@ == old(output)@ + events_bytes(expected.1)
        }),
{
    let ghost start = state@;
    let ghost written = output@;
    let ghost view = shapes_view(shapes@);
    let mut i: usize = 0;
    assert(written + events_bytes(shapes_emitted(start, view, offset, 0).1) =~= written);
    while i < shapes.len()
        invariant
            view == shapes_view(shapes@),
            i <= shapes.len(),
            state@ == shapes_emitted(start, view, offset, i as int).0,
            output@ == written + events_bytes(shapes_emitted(start, view, offset, i as int).1),
        decreases shapes.len() - i,
    {
        assert(shapes@[i as int]@ == view[i as int]);
        proof {
            lemma_events_bytes_push(
                shapes_emitted(start, view, offset, i as int).1,
                emitted_event(
                    state@,
                    view[i as int].event_type,
                    view[i as int].payload,
                    offset,
                ),
            );
        }
        emit_event(state, shapes[i].event_type, shapes[i].payload.clone(), offset, output);
        assert(output@ =~= written + events_bytes(shapes_emitted(start, view, offset, i + 1).1));
        i = i + 1;
    }
}

/// The state and the events once the first `n` resolved items were emitted.
pub open spec fn resolved_emitted(
    state: StateView,
    resolved: Seq<(u64, SynthesisKind, JsonView)>,
    offset: u64,
    n: int,
) -> (StateView, Seq<EventView>)
    decreases n,
{
    if n <= 0 {
        (state, Seq::empty())
    } else {
        let (held, events) = resolved_emitted(state, resolved, offset, n - 1);
        let (index, kind, item) = resolved[n - 1];
        let shapes = built(item, index, kind);
        let (after, more) = shapes_emitted(held, shapes, offset, shapes.len() as int);
        (after, events + more)
    }
}

/// Emits resolved items.
fn emit_resolved(
    state: &mut ResponsesState,
    resolved: &Vec<Resolved>,
    offset: u64,
    output: &mut Vec<u8>,
)
    ensures
        ({
            let expected = resolved_emitted(
                old(state)@,
                resolved_view(resolved@),
                offset,
                resolved@.len() as int,
            );
            &&& final(state)@ == expected.0
            &&& final(output)@ == old(output)@ + events_bytes(expected.1)
        }),
{
    let ghost start = state@;
    let ghost written = output@;
    let ghost view = resolved_view(resolved@);
    let mut i: usize = 0;
    assert(written + events_bytes(resolved_emitted(start, view, offset, 0).1) =~= written);
    while i < resolved.len()
        invariant
            view == resolved_view(resolved@),
            i <= resolved.len(),
            state@ == resolved_emitted(start, view, offset, i as int).0,
            output@ == written + events_bytes(resolved_emitted(start, view, offset, i as int).1),
        decreases resolved.len() - i,
    {
        let next = &resolved[i];
        assert(view[i as int] == (next.round_local, next.kind, next.item@));
        let shapes = select_builder(&next.item, next.round_local, next.kind);
        proof {
            let (held, events) = resolved_emitted(start, view, offset, i as int);
            let list = built(next.item@, next.round_local, next.kind);
            lemma_events_bytes_concat(
                events,
                shapes_emitted(held, list, offset, list.len() as int).1,
            );
        }
        emit_shapes(state, shapes, offset, output);
        assert(output@ =~= written + events_bytes(resolved_emitted(start, view, offset, i + 1).1));
        i = i + 1;
    }
}

/// What draining the queue does: the state without the queue, and the events, or
/// the message with which the stream must end.
///
/// A stream that already ends with an error drops the queue; one index that does
/// not fit drops it as a whole.
pub open spec fn drained(state: Option<StateView>, failed: bool, offset: u64) -> (
    Option<StateView>,
    Result<Seq<EventView>, Seq<char>>,
) {
    match state {
        None => (None, Ok(Seq::empty())),
        Some(state) => {
            let queue = state.synthesis;
            let emptied = StateView { synthesis: Seq::empty(), ..state };
            if failed {
                (Some(emptied), Ok(Seq::empty()))
            } else {
                match resolution(state.output, queue, offset, queue.len() as int) {
                    Err(message) => (Some(emptied), Err(message)),
                    Ok(resolved) => {
                        let (after, events) = resolved_emitted(
                            emptied,
                            resolved,
                            offset,
                            resolved.len() as int,
                        );
                        (Some(after), Ok(events))
                    },
                }
            }
        },
    }
}

/// Takes the queue of local tool items out.
pub fn drain_pending_local_tool_synthesis(state: &mut ResponsesState) -> (queue: Vec<
    (usize, SynthesisKind),
>)
    ensures
        queue@ == old(state)@.synthesis,
        final(state)@ == (StateView { synthesis: Seq::empty(), ..old(state)@ }),
{
    let ghost before = state@;
    let mut queue: Vec<(usize, SynthesisKind)> = Vec::new();
    std::mem::swap(&mut queue, &mut state.pending_local_tool_synthesis);
    assert(state@ =~= StateView { synthesis: Seq::empty(), ..before });
    queue
}

/// What draining the queue of a context does: the context, and the events.
///
/// The metadata tell whether the stream already ends with an error. An index that
/// does not fit makes it end with one.
pub open spec fn context_drained(context: ContextView, offset: u64) -> (
    ContextView,
    Seq<EventView>,
) {
    let failed = context.metadata.dom().contains("responses.stream_error_code"@);
    let (state, result) = drained(context.state, failed, offset);
    match result {
        Ok(events) => (ContextView { state, ..context }, events),
        Err(message) => (
            ContextView {
                state,
                metadata: with_stream_error(context.metadata, message),
                ..context
            },
            Seq::empty(),
        ),
    }
}

/// Drains the queue of local tool items at the end of a round and emits what they
/// owe.
///
/// An error that is already there comes first, then all indices are validated;
/// only where every index fits are events emitted. Where one does not fit, the
/// stream ends with an error.
pub fn drain_local_tool_synthesis(
    context: &mut StreamContext,
    output_index_offset: u64,
    output: &mut Vec<u8>,
)
    ensures
        final(context)@ == context_drained(old(context)@, output_index_offset).0,
        final(output)@ == old(output)@ + events_bytes(
            context_drained(old(context)@, output_index_offset).1,
        ),
{
    let ghost before = context@;
    assert(output@ + events_bytes(Seq::<EventView>::empty()) =~= output@);
    let failed = context.get_metadata("responses.stream_error_code").is_some();
    let held = match &mut context.state {
        Some(held) => held,
        None => {
            assert(context@ =~= before);
            return;
        },
    };
    let queue = drain_pending_local_tool_synthesis(held);
    if failed {
        assert(context@ =~= context_drained(before, output_index_offset).0);
        return;
    }
    match resolve_queue(&held.accumulated_output, &queue, output_index_offset) {
        Ok(resolved) => emit_resolved(held, &resolved, output_index_offset, output),
        Err(message) => set_stream_error(context, message),
    }
    assert(context@ =~= context_drained(before, output_index_offset).0);
}

/// A queued item of an earlier round, or behind the output of all rounds, ends the
/// stream with a server error: no event is emitted, not even for the items that
/// fit, the queue is dropped, and no sequence number is used. Where the stream
/// already ends with an error, the queue is dropped and nothing else changes.
pub proof fn lemma_misplaced_item_ends_stream(
    context: ContextView,
    state: StateView,
    offset: u64,
    i: int,
)
    requires
        context.state == Some(state),
        0 <= i < state.synthesis.len(),
        state.synthesis[i].0 < offset || state.synthesis[i].0 >= state.output.len(),
    ensures
        ({
            let (after, events) = context_drained(context, offset);
            let emptied = StateView { synthesis: Seq::empty(), ..state };
            &&& events.len() == 0
            &&& after.state == Some(emptied)
            &&& if context.metadata.dom().contains("responses.stream_error_code"@) {
                after.metadata == context.metadata
            } else {
                &&& text_at(after.metadata, "responses.stream_error_code"@) == Some(
                    "server_error"@,
                )
                &&& text_at(after.metadata, "responses.skip_persist"@) == Some("true"@)
                &&& stream_error(after.metadata) is Some
            }
        }),
{
    reveal_strlit("responses.stream_error_code");
    reveal_strlit("responses.stream_error_message");
    reveal_strlit("responses.skip_persist");
    assert("responses.stream_error_code"@.len() == 27);
    assert("responses.stream_error_message"@.len() == 30);
    assert("responses.skip_persist"@.len() == 22);
    let n = state.synthesis.len() as int;
    assert(resolution(state.output, state.synthesis, offset, i + 1) is Err);
    lemma_resolution_stays(state.output, state.synthesis, offset, i + 1, n);
}

/// A search that did not complete is never reported as completed and carries no
/// results, whatever its origin.
pub proof fn lemma_incomplete_search_shows_no_completion(
    item: JsonView,
    index: u64,
    kind: SynthesisKind,
)
    requires
        item.get_text("status"@) != Some("completed"@),
    ensures
        forall|i: int|
            0 <= i < built(item, index, kind).len() ==> (#[trigger] built(
                item,
                index,
                kind,
            )[i]).event_type != "response.file_search_call.completed"@,
        built(item, index, kind).last() == envelope(
            "response.output_item.done"@,
            index,
            bare_item(item, "incomplete"@),
        ),
{
    reveal_strlit("response.file_search_call.completed");
    reveal_strlit("response.file_search_call.in_progress");
    reveal_strlit("response.file_search_call.searching");
    reveal_strlit("response.output_item.added");
    reveal_strlit("response.output_item.done");
    assert("response.file_search_call.completed"@.len() == 35);
    assert("response.file_search_call.in_progress"@.len() == 37);
    assert("response.file_search_call.searching"@.len() == 35);
    assert("response.file_search_call.searching"@[26] == 's');
    assert("response.file_search_call.completed"@[26] == 'c');
    assert("response.output_item.added"@.len() == 26);
    assert("response.output_item.done"@.len() == 25);
}

/// The names in the events of local tool items are different.
proof fn lemma_tool_names()
    ensures
        "type"@ != "output_index"@,
        "type"@ != "item"@,
        "type"@ != "item_id"@,
        "type"@ != "sequence_number"@,
        "output_index"@ != "item"@,
        "output_index"@ != "item_id"@,
        "output_index"@ != "sequence_number"@,
        "item"@ != "sequence_number"@,
        "item_id"@ != "sequence_number"@,
        "status"@ != "results"@,
{
    reveal_strlit("type");
    reveal_strlit("output_index");
    reveal_strlit("item");
    reveal_strlit("item_id");
    reveal_strlit("sequence_number");
    reveal_strlit("status");
    reveal_strlit("results");
    assert("type"@.len() == 4 && "item"@.len() == 4 && "item_id"@.len() == 7);
    assert("type"@[0] == 't' && "item"@[0] == 'i');
    assert("output_index"@.len() == 12 && "sequence_number"@.len() == 15);
    assert("status"@.len() == 6 && "results"@.len() == 7);
}

/// Whether an event is of a type and about the item at an index.
pub open spec fn is_about(event: EventView, event_type: Seq<char>, index: u64) -> bool {
    &&& event.event_type == event_type
    &&& event.payload is Object
    &&& event.payload.get("type"@) == Some(JsonView::String(event_type))
    &&& event.payload.get("output_index"@) == Some(
        JsonView::Number(NumberView::Unsigned(index)),
    )
}

/// Whether an event carries an item whole.
pub open spec fn carries(event: EventView, item: JsonView) -> bool {
    event.payload.get("item"@) == Some(item)
}

/// Whether an event names an item by its id, where it has one.
pub open spec fn names(event: EventView, item: JsonView) -> bool {
    match item.get("id"@) {
        Some(JsonView::String(id)) => event.payload.get("item_id"@) == Some(JsonView::String(id)),
        _ => event.payload.get("item_id"@) is None,
    }
}

/// Whether an item is another one with a given status and without results.
pub open spec fn is_bare(bare: JsonView, item: JsonView, status: Seq<char>) -> bool {
    &&& bare.get("status"@) == Some(JsonView::String(status))
    &&& bare.get("results"@) is None
    &&& forall|name: Seq<char>|
        #![trigger bare.get(name)]
        name != "status"@ && name != "results"@ ==> bare.get(name) == item.get(name)
}

/// An envelope carries its item.
proof fn lemma_envelope(event_type: Seq<char>, index: u64, item: JsonView)
    ensures
        is_about(envelope(event_type, index, item), event_type, index),
        carries(envelope(event_type, index, item), item),
{
    lemma_tool_names();
    let members = envelope(event_type, index, item).payload->Object_0;
    lemma_position_is(members, "type"@, 0);
    lemma_position_is(members, "output_index"@, 1);
    lemma_position_is(members, "item"@, 2);
}

/// A progress event names its item.
proof fn lemma_progress(event_type: Seq<char>, index: u64, item: JsonView)
    ensures
        is_about(progress(event_type, index, item), event_type, index),
        names(progress(event_type, index, item), item),
{
    lemma_tool_names();
    let members = progress(event_type, index, item).payload->Object_0;
    lemma_position_is(members, "type"@, 0);
    lemma_position_is(members, "output_index"@, 1);
    if item.get_text("id"@) is Some {
        lemma_position_is(members, "item_id"@, 2);
    } else {
        lemma_position_absent(members, "item_id"@);
    }
}

/// A bare item is bare.
proof fn lemma_bare(item: JsonView, status: Seq<char>)
    requires
        item is Object,
        distinct_names(item->Object_0),
    ensures
        is_bare(bare_item(item, status), item, status),
{
    lemma_tool_names();
    let value = JsonView::String(status);
    let stated = item.with("status"@, value);
    lemma_get_with(item, "status"@, value);
    lemma_with_stays_distinct(item->Object_0, "status"@, value);
    lemma_member_is_gone(stated->Object_0, "results"@);
    let bare = bare_item(item, status);
    assert forall|name: Seq<char>| name != "results"@ implies #[trigger] bare.get(name)
        == stated.get(name) by {
        lemma_member_without_other(stated->Object_0, "results"@, name);
    }
    assert forall|name: Seq<char>| name != "status"@ implies #[trigger] stated.get(name)
        == item.get(name) by {
        lemma_get_with_other(item, "status"@, value, name);
    }
}

/// A member that was taken out is gone.
proof fn lemma_member_is_gone(members: Members, name: Seq<char>)
    requires
        distinct_names(members),
    ensures
        member(without_member(members, name), name) is None,
{
    lemma_position_of(members, name);
    let after = without_member(members, name);
    match position_of(members, name) {
        None => {},
        Some(gone) => {
            assert forall|j: int| 0 <= j < after.len() implies (#[trigger] after[j]).0 != name by {
                if j == gone {
                    assert(after[j] == members[members.len() - 1]);
                    assert(members[members.len() - 1].0 != members[gone].0);
                } else {
                    assert(after[j] == members[j]);
                    assert(members[j].0 != members[gone].0);
                }
            }
            lemma_position_absent(after, name);
        },
    }
}

/// A queued file search is told whole: a completed one ends with a completion and with
/// the item itself, one that did not complete with the item as incomplete and without
/// results; a private one is announced first, as searching and without results, and
/// then in progress. Every event is about the item's own index.
pub proof fn lemma_queued_search_is_told(item: JsonView, index: u64, kind: SynthesisKind)
    requires
        item is Object,
        distinct_names(item->Object_0),
    ensures
        ({
            let events = built(item, index, kind);
            let completed = item.get("status"@) == Some(JsonView::String("completed"@));
            let private = kind == SynthesisKind::Private;
            let opening = if private {
                3int
            } else {
                0int
            };
            &&& events.len() == opening + if completed {
                2int
            } else {
                1int
            }
            &&& private ==> {
                &&& is_about(events[0], "response.output_item.added"@, index)
                &&& events[0].payload.get("item"@) is Some
                &&& is_bare(events[0].payload.get("item"@)->0, item, "searching"@)
                &&& is_about(events[1], "response.file_search_call.in_progress"@, index)
                &&& names(events[1], item)
                &&& is_about(events[2], "response.file_search_call.searching"@, index)
                &&& names(events[2], item)
            }
            &&& is_about(events.last(), "response.output_item.done"@, index)
            &&& completed ==> {
                &&& is_about(events[opening], "response.file_search_call.completed"@, index)
                &&& names(events[opening], item)
                &&& carries(events.last(), item)
            }
            &&& !completed ==> {
                &&& events.last().payload.get("item"@) is Some
                &&& is_bare(events.last().payload.get("item"@)->0, item, "incomplete"@)
            }
        }),
{
    lemma_bare(item, "searching"@);
    lemma_bare(item, "incomplete"@);
    lemma_envelope("response.output_item.added"@, index, bare_item(item, "searching"@));
    lemma_progress("response.file_search_call.in_progress"@, index, item);
    lemma_progress("response.file_search_call.searching"@, index, item);
    lemma_progress("response.file_search_call.completed"@, index, item);
    lemma_envelope("response.output_item.done"@, index, item);
    lemma_envelope("response.output_item.done"@, index, bare_item(item, "incomplete"@));
}

/// Every queued item is resolved, in order: it is the output item at its index, and
/// its index counts from the beginning of the round.
pub proof fn lemma_queue_is_resolved(
    output: Seq<JsonView>,
    queue: Seq<(usize, SynthesisKind)>,
    offset: u64,
    n: int,
)
    requires
        0 <= n <= queue.len(),
    ensures
        resolution(output, queue, offset, n) is Ok <==> forall|i: int|
            0 <= i < n ==> offset <= (#[trigger] queue[i]).0 < output.len(),
        resolution(output, queue, offset, n) is Ok ==> {
            let resolved = resolution(output, queue, offset, n)->Ok_0;
            &&& resolved.len() == n
            &&& forall|i: int|
                0 <= i < n ==> {
                    let (index, kind, item) = #[trigger] resolved[i];
                    &&& index + offset == queue[i].0
                    &&& kind == queue[i].1
                    &&& item == output[queue[i].0 as int]
                }
        },
    decreases n,
{
    if n > 0 {
        lemma_queue_is_resolved(output, queue, offset, n - 1);
        if resolution(output, queue, offset, n) is Ok {
            let front = resolution(output, queue, offset, n - 1)->Ok_0;
            let resolved = resolution(output, queue, offset, n)->Ok_0;
            assert forall|i: int| 0 <= i < n implies {
                let (index, kind, item) = #[trigger] resolved[i];
                &&& index + offset == queue[i].0
                &&& kind == queue[i].1
                &&& item == output[queue[i].0 as int]
            } by {
                if i < n - 1 {
                    assert(resolved[i] == front[i]);
                }
            }
        }
    }
}

/// Every event that was built is emitted, one by one and in order, under consecutive
/// sequence numbers.
pub proof fn lemma_every_event_is_emitted(
    state: StateView,
    shapes: Seq<EventView>,
    offset: u64,
    n: int,
)
    requires
        0 <= n <= shapes.len(),
        state.sequence + n <= u64::MAX,
        forall|i: int| 0 <= i < shapes.len() ==> (#[trigger] shapes[i]).payload is Object,
    ensures
        ({
            let (after, events) = shapes_emitted(state, shapes, offset, n);
            &&& events.len() == n
            &&& forall|i: int|
                0 <= i < n ==> {
                    &&& (#[trigger] events[i]).event_type == shapes[i].event_type
                    &&& events[i].payload.get("item"@) == shapes[i].payload.get("item"@)
                    &&& events[i].payload.get("item_id"@) == shapes[i].payload.get("item_id"@)
                    &&& events[i].payload.get("sequence_number"@) == Some(
                        JsonView::Number(NumberView::Unsigned((state.sequence + i) as u64)),
                    )
                }
            &&& after.sequence == state.sequence + n
            &&& after.output == state.output
        }),
    decreases n,
{
    if n > 0 {
        lemma_every_event_is_emitted(state, shapes, offset, n - 1);
        let (held, front) = shapes_emitted(state, shapes, offset, n - 1);
        let (after, events) = shapes_emitted(state, shapes, offset, n);
        lemma_payload_is_shown(held, shapes[n - 1].payload, offset);
        lemma_kept_names();
        assert forall|i: int| 0 <= i < n implies {
            &&& (#[trigger] events[i]).event_type == shapes[i].event_type
            &&& events[i].payload.get("item"@) == shapes[i].payload.get("item"@)
            &&& events[i].payload.get("item_id"@) == shapes[i].payload.get("item_id"@)
            &&& events[i].payload.get("sequence_number"@) == Some(
                JsonView::Number(NumberView::Unsigned((state.sequence + i) as u64)),
            )
        } by {
            if i < n - 1 {
                assert(events[i] == front[i]);
            }
        }
    }
}

/// Members that normalizing keeps.
proof fn lemma_kept_names()
    ensures
        "item"@ != "output_index"@ && "item"@ != "response_id"@ && "item"@ != "response"@ && "item"@
            != "sequence_number"@,
        "item_id"@ != "output_index"@ && "item_id"@ != "response_id"@ && "item_id"@ != "response"@
            && "item_id"@ != "sequence_number"@,
{
    lemma_tool_names();
    reveal_strlit("item");
    reveal_strlit("item_id");
    reveal_strlit("response_id");
    reveal_strlit("response");
    assert("item"@.len() == 4 && "item_id"@.len() == 7);
    assert("response_id"@.len() == 11 && "response"@.len() == 8);
}

/// An item that was registered is found by every event about it: one that carries it,
/// one that names it by its id, and one that states its index; and the modes of other
/// items stay.
pub proof fn lemma_registered_item_is_found(
    modes: Map<Seq<char>, LocalToolMode>,
    opened: JsonView,
    mode: LocalToolMode,
    event: JsonView,
    id: Seq<char>,
)
    requires
        opened.get("item"@) is Some,
        opened.get("item"@)->0.get("id"@) == Some(JsonView::String(id)),
    ensures
        ({
            let after = registered(modes, opened, mode);
            let keys = event_keys(event);
            &&& (event.get("item"@) is Some && event.get("item"@)->0.get("id"@) == Some(
                JsonView::String(id),
            )) || (event.get("item"@) is None && event.get("item_id"@) == Some(
                JsonView::String(id),
            )) ==> {
                &&& keys.len() > 0
                &&& after.dom().contains(keys[0])
                &&& after[keys[0]] == mode
            }
            &&& opened.get_unsigned("output_index"@) is Some && event.get("output_index"@)
                == opened.get("output_index"@) ==> {
                &&& keys.len() > 0
                &&& after.dom().contains(keys.last())
                &&& after[keys.last()] == mode
            }
            &&& forall|key: Seq<char>|
                key != item_key(id) && (opened.get_unsigned("output_index"@) is Some ==> key
                    != index_key(opened.get_unsigned("output_index"@)->0)) ==> {
                    &&& #[trigger] after.dom().contains(key) == modes.dom().contains(key)
                    &&& modes.dom().contains(key) ==> after[key] == modes[key]
                }
        }),
{
    assert(nested_id(opened) == Some(id));
    reveal_strlit("item:");
    reveal_strlit("index:");
    assert("item:"@[1] == 't' && "index:"@[1] == 'n');
    assert(item_key(id)[1] == 't');
    if let Some(index) = opened.get_unsigned("output_index"@) {
        assert(index_key(index)[1] == 'n');
    }
}

/// Items are told apart: different ids and different indexes have different keys, and
/// no id has the key of an index.
pub proof fn lemma_keys_are_told_apart(a: Seq<char>, b: Seq<char>, m: u64, n: u64)
    ensures
        a != b ==> item_key(a) != item_key(b),
        m != n ==> index_key(m) != index_key(n),
        item_key(a) != index_key(m),
{
    reveal_strlit("item:");
    reveal_strlit("index:");
    assert(item_key(a)[1] == 't' && index_key(m)[1] == 'n');
    if item_key(a) == item_key(b) {
        assert(a =~= item_key(a).skip(5));
        assert(b =~= item_key(b).skip(5));
    }
    if index_key(m) == index_key(n) {
        assert(decimal(m as nat) =~= index_key(m).skip(6));
        assert(decimal(n as nat) =~= index_key(n).skip(6));
        lemma_decimal_injective(m as nat, n as nat);
    }
}

/// Whether events hold those of a queued item, one behind the other.
pub open spec fn tells_queued(
    events: Seq<EventView>,
    from: int,
    held: StateView,
    queued: (u64, SynthesisKind, JsonView),
    offset: u64,
) -> bool {
    let shapes = built(queued.2, queued.0, queued.1);
    let own = shapes_emitted(held, shapes, offset, shapes.len() as int).1;
    &&& 0 <= from
    &&& from + own.len() <= events.len()
    &&& events.subrange(from, from + own.len()) == own
}

/// Every resolved item is emitted: its events stand one behind the other among those
/// of the queue.
pub proof fn lemma_every_item_is_emitted(
    state: StateView,
    resolved: Seq<(u64, SynthesisKind, JsonView)>,
    offset: u64,
    n: int,
    i: int,
)
    requires
        0 <= i < n <= resolved.len(),
    ensures
        exists|from: int, held: StateView|
            #[trigger] tells_queued(
                resolved_emitted(state, resolved, offset, n).1,
                from,
                held,
                resolved[i],
                offset,
            ),
    decreases n,
{
    let (held, events) = resolved_emitted(state, resolved, offset, n - 1);
    let (index, kind, item) = resolved[n - 1];
    let shapes = built(item, index, kind);
    let more = shapes_emitted(held, shapes, offset, shapes.len() as int).1;
    let all = resolved_emitted(state, resolved, offset, n).1;
    assert(all == events + more);
    if i == n - 1 {
        let from = events.len() as int;
        assert(all.subrange(from, from + more.len()) =~= more);
        assert(tells_queued(all, from, held, resolved[i], offset));
    } else {
        lemma_every_item_is_emitted(state, resolved, offset, n - 1, i);
        let (from, earlier) = choose|from: int, earlier: StateView|
            #[trigger] tells_queued(events, from, earlier, resolved[i], offset);
        let list = built(resolved[i].2, resolved[i].0, resolved[i].1);
        let own = shapes_emitted(earlier, list, offset, list.len() as int).1;
        assert(all.subrange(from, from + own.len()) =~= events.subrange(from, from + own.len()));
        assert(tells_queued(all, from, earlier, resolved[i], offset));
    }
}

/// A queue in which every item has its place is told item by item and is empty
/// afterwards.
pub proof fn lemma_queue_is_told(context: ContextView, state: StateView, offset: u64, i: int)
    requires
        context.state == Some(state),
        !context.metadata.dom().contains("responses.stream_error_code"@),
        forall|k: int|
            0 <= k < state.synthesis.len() ==> offset <= (#[trigger] state.synthesis[k]).0
                < state.output.len(),
        0 <= i < state.synthesis.len(),
    ensures
        ({
            let (after, events) = context_drained(context, offset);
            let (index, kind) = state.synthesis[i];
            &&& after.state is Some
            &&& after.metadata == context.metadata
            &&& exists|from: int, held: StateView|
                #[trigger] tells_queued(
                    events,
                    from,
                    held,
                    ((index - offset) as u64, kind, state.output[index as int]),
                    offset,
                )
        }),
{
    let n = state.synthesis.len() as int;
    lemma_queue_is_resolved(state.output, state.synthesis, offset, n);
    let resolved = resolution(state.output, state.synthesis, offset, n)->Ok_0;
    let emptied = StateView { synthesis: Seq::empty(), ..state };
    lemma_every_item_is_emitted(emptied, resolved, offset, n, i);
    let (index, kind) = state.synthesis[i];
    let queued = ((index - offset) as u64, kind, state.output[index as int]);
    assert(resolved[i].0 + offset == index);
    assert(resolved[i] == queued);
    let events = context_drained(context, offset).1;
    assert(events == resolved_emitted(emptied, resolved, offset, n).1);
    let (from, held) = choose|from: int, held: StateView|
        #[trigger] tells_queued(events, from, held, resolved[i], offset);
    assert(tells_queued(events, from, held, queued, offset));
}

} // verus!
