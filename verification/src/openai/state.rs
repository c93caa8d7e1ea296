//! Request-scoped state of a Responses API request.

use vstd::prelude::*;

use crate::collections::{TextMap, TextSet};
use crate::json::{
    clone_items, find_member, items_view, lemma_position_of, members_view, push_item, with_member,
    Json, JsonView, Member,
};
use crate::text::same_text;

verus! {

broadcast use crate::json_model::group_json_view;

/// Which events of one output item reached the client.
pub struct EmittedItem {
    /// The item was announced.
    pub added: bool,
    /// Digest of the content that the client last saw.
    pub content_digest: u64,
    /// The progress and outcome events that were streamed.
    pub streamed_phases: TextSet,
    /// The item was finalized.
    pub done_delivered: bool,
}

/// The model of an [`EmittedItem`].
#[verifier::ext_equal]
pub struct EmittedView {
    /// The item was announced.
    pub added: bool,
    /// Digest of the content that the client last saw.
    pub content_digest: u64,
    /// The progress and outcome events that were streamed.
    pub phases: Set<Seq<char>>,
    /// The item was finalized.
    pub done: bool,
}

impl View for EmittedItem {
    type V = EmittedView;

    open spec fn view(&self) -> EmittedView {
        EmittedView {
            added: self.added,
            content_digest: self.content_digest,
            phases: self.streamed_phases@,
            done: self.done_delivered,
        }
    }
}

/// Nothing of an item reached the client.
pub open spec fn nothing_emitted() -> EmittedView {
    EmittedView { added: false, content_digest: 0, phases: Set::empty(), done: false }
}

impl Default for EmittedItem {
    fn default() -> (item: Self)
        ensures
            item@ == nothing_emitted(),
    {
        EmittedItem {
            added: false,
            content_digest: 0,
            streamed_phases: TextSet::new(),
            done_delivered: false,
        }
    }
}

/// Where a queued local tool item comes from.
#[derive(Clone, Copy, Debug, PartialEq, Eq, Structural)]
pub enum SynthesisKind {
    /// The model called a private function; the client saw nothing of it yet.
    Private,
    /// The model opened a native item; the client saw its opening.
    Native,
}

/// One pending web search: the output item that it fills, and its position among
/// the searches of the model round.
#[derive(Clone, Copy, Debug, PartialEq, Eq, Structural)]
pub struct SearchAssignment {
    /// Absolute output index replaced by the result.
    pub output_index: usize,
    /// Position among web-search calls in this model round.
    pub ordinal: usize,
}

/// A failure that ends the agentic loop.
pub struct DispatchFailure {
    /// The HTTP status.
    pub status: u16,
    /// The machine-readable code.
    pub code: String,
    /// The explanation.
    pub message: String,
}

/// The model of a [`DispatchFailure`].
#[verifier::ext_equal]
pub struct FailureView {
    /// The HTTP status.
    pub status: u16,
    /// The machine-readable code.
    pub code: Seq<char>,
    /// The explanation.
    pub message: Seq<char>,
}

impl View for DispatchFailure {
    type V = FailureView;

    open spec fn view(&self) -> FailureView {
        FailureView { status: self.status, code: self.code@, message: self.message@ }
    }
}

/// Request-scoped state of a Responses API request, shared by the filters of its
/// pipeline and kept across inference rounds.
pub struct ResponsesState {
    /// The response's id, once it was assigned.
    pub response_id: Option<String>,
    /// The request body.
    pub request_body: Json,
    /// The response of the current round.
    pub response_object: Json,
    /// Token usage, summed over the rounds.
    pub usage: Json,
    /// The response that a local completion starts from.
    pub local_completion_response_template: Json,
    /// The output items of all rounds.
    pub accumulated_output: Vec<Json>,
    /// What of each output item reached the client, by item id.
    pub emitted_output_items: TextMap<EmittedItem>,
    /// The ids of the items that a dispatch filter executed.
    pub locally_executed_output_items: TextSet,
    /// The id of the logical response.
    pub logical_stream_response_id: Option<String>,
    /// The sequence number of the next logical event.
    pub logical_stream_sequence: u64,
    /// The inference round.
    pub iteration: u32,
    /// Local tool items to be synthesized at the end of the stream: output index
    /// and origin.
    pub pending_local_tool_synthesis: Vec<(usize, SynthesisKind)>,
    /// Pending web searches of the current round.
    pub web_search_calls: Vec<SearchAssignment>,
    /// The web searches that were dispatched so far.
    pub web_search_calls_executed: u32,
    /// The client's limit on built-in tool calls.
    pub max_tool_calls: Option<u64>,
    /// The tools of the request.
    pub tools: Vec<Json>,
    /// The optional parts that the client asked for.
    pub include_fields: Vec<String>,
    /// The model-facing history.
    pub messages: Vec<Json>,
    /// The history that is persisted.
    pub persisted_messages: Vec<Json>,
    /// The limit on the payload that the request may retain.
    pub retained_payload_limit: Option<usize>,
    /// Payload that filters hold outside this state.
    pub external_payload_bytes: usize,
    /// The retained payload was discarded for exceeding its limit.
    pub retained_payload_failed: bool,
    /// The failure that ends the agentic loop.
    pub dispatch_failure: Option<DispatchFailure>,
    /// The loop ends locally because a tool call was over the client's limit.
    pub deferred_tool_limit_completion: bool,
}

/// The model of a [`ResponsesState`].
#[verifier::ext_equal]
pub struct StateView {
    /// The response's id.
    pub response_id: Option<Seq<char>>,
    /// The request body.
    pub request_body: JsonView,
    /// The response of the current round.
    pub response_object: JsonView,
    /// Token usage, summed over the rounds.
    pub usage: JsonView,
    /// The response that a local completion starts from.
    pub template: JsonView,
    /// The output items of all rounds.
    pub output: Seq<JsonView>,
    /// What of each output item reached the client.
    pub emitted: Map<Seq<char>, EmittedView>,
    /// The ids of the items that a dispatch filter executed.
    pub executed: Set<Seq<char>>,
    /// The bytes of those ids, all together.
    pub executed_bytes: nat,
    /// The id of the logical response.
    pub logical_id: Option<Seq<char>>,
    /// The sequence number of the next logical event.
    pub sequence: u64,
    /// The inference round.
    pub iteration: u32,
    /// Local tool items to be synthesized at the end of the stream.
    pub synthesis: Seq<(usize, SynthesisKind)>,
    /// Pending web searches of the current round.
    pub searches: Seq<SearchAssignment>,
    /// The web searches that were dispatched so far.
    pub searches_executed: u32,
    /// The client's limit on built-in tool calls.
    pub max_tool_calls: Option<u64>,
    /// The tools of the request.
    pub tools: Seq<JsonView>,
    /// The optional parts that the client asked for.
    pub include_fields: Seq<Seq<char>>,
    /// The model-facing history.
    pub messages: Seq<JsonView>,
    /// The history that is persisted.
    pub persisted_messages: Seq<JsonView>,
    /// The limit on the payload that the request may retain.
    pub limit: Option<usize>,
    /// Payload that filters hold outside this state.
    pub external: usize,
    /// The retained payload was discarded for exceeding its limit.
    pub payload_failed: bool,
    /// The failure that ends the agentic loop.
    pub dispatch_failure: Option<FailureView>,
    /// The loop ends locally because a tool call was over the client's limit.
    pub tool_limit: bool,
}

/// The text of an optional string.
pub open spec fn optional_text(text: Option<String>) -> Option<Seq<char>> {
    match text {
        Some(text) => Some(text@),
        None => None,
    }
}

/// What the map of emitted items holds.
pub open spec fn emitted_view(items: Map<Seq<char>, EmittedItem>) -> Map<Seq<char>, EmittedView> {
    Map::new(|id: Seq<char>| items.dom().contains(id), |id: Seq<char>| items[id]@)
}

/// The texts of a list.
pub open spec fn texts_view(texts: Seq<String>) -> Seq<Seq<char>> {
    Seq::new(texts.len(), |i: int| texts[i]@)
}

/// The model of an optional failure.
pub open spec fn failure_view(failure: Option<DispatchFailure>) -> Option<FailureView> {
    match failure {
        Some(failure) => Some(failure@),
        None => None,
    }
}

impl View for ResponsesState {
    type V = StateView;

    open spec fn view(&self) -> StateView {
        StateView {
            response_id: optional_text(self.response_id),
            request_body: self.request_body@,
            response_object: self.response_object@,
            usage: self.usage@,
            template: self.local_completion_response_template@,
            output: items_view(self.accumulated_output@),
            emitted: emitted_view(self.emitted_output_items@),
            executed: self.locally_executed_output_items@,
            executed_bytes: self.locally_executed_output_items.byte_size(),
            logical_id: optional_text(self.logical_stream_response_id),
            sequence: self.logical_stream_sequence,
            iteration: self.iteration,
            synthesis: self.pending_local_tool_synthesis@,
            searches: self.web_search_calls@,
            searches_executed: self.web_search_calls_executed,
            max_tool_calls: self.max_tool_calls,
            tools: items_view(self.tools@),
            include_fields: texts_view(self.include_fields@),
            messages: items_view(self.messages@),
            persisted_messages: items_view(self.persisted_messages@),
            limit: self.retained_payload_limit,
            external: self.external_payload_bytes,
            payload_failed: self.retained_payload_failed,
            dispatch_failure: failure_view(self.dispatch_failure),
            tool_limit: self.deferred_tool_limit_completion,
        }
    }
}

/// The state of a request that nothing is known of yet.
pub open spec fn blank_state() -> StateView {
    StateView {
        response_id: None,
        request_body: JsonView::Null,
        response_object: JsonView::Null,
        usage: JsonView::Null,
        template: JsonView::Null,
        output: Seq::empty(),
        emitted: Map::empty(),
        executed: Set::empty(),
        executed_bytes: 0,
        logical_id: None,
        sequence: 0,
        iteration: 0,
        synthesis: Seq::empty(),
        searches: Seq::empty(),
        searches_executed: 0,
        max_tool_calls: None,
        tools: Seq::empty(),
        include_fields: Seq::empty(),
        messages: Seq::empty(),
        persisted_messages: Seq::empty(),
        limit: None,
        external: 0,
        payload_failed: false,
        dispatch_failure: None,
        tool_limit: false,
    }
}

impl Default for ResponsesState {
    fn default() -> (state: Self)
        ensures
            state@ == blank_state(),
    {
        let state = ResponsesState {
            response_id: None,
            request_body: Json::Null,
            response_object: Json::Null,
            usage: Json::Null,
            local_completion_response_template: Json::Null,
            accumulated_output: Vec::new(),
            emitted_output_items: TextMap::new(),
            locally_executed_output_items: TextSet::new(),
            logical_stream_response_id: None,
            logical_stream_sequence: 0,
            iteration: 0,
            pending_local_tool_synthesis: Vec::new(),
            web_search_calls: Vec::new(),
            web_search_calls_executed: 0,
            max_tool_calls: None,
            tools: Vec::new(),
            include_fields: Vec::new(),
            messages: Vec::new(),
            persisted_messages: Vec::new(),
            retained_payload_limit: None,
            external_payload_bytes: 0,
            retained_payload_failed: false,
            dispatch_failure: None,
            deferred_tool_limit_completion: false,
        };
        assert(state@ =~= blank_state());
        state
    }
}

/// The output items that a response holds.
pub open spec fn output_items_of(response: JsonView) -> Seq<JsonView> {
    match response.get("output"@) {
        Some(JsonView::Array(items)) => items,
        _ => Seq::empty(),
    }
}

/// A response with the given output items; what is no object becomes one.
pub open spec fn with_output_items(response: JsonView, items: Seq<JsonView>) -> JsonView {
    let members = match response {
        JsonView::Object(members) => members,
        _ => Seq::empty(),
    };
    JsonView::Object(with_member(members, "output"@, JsonView::Array(items)))
}

/// The texts in a JSON array, in order; other items are left out.
pub open spec fn texts_of(items: Seq<JsonView>) -> Seq<Seq<char>>
    decreases items.len(),
{
    if items.len() == 0 {
        Seq::empty()
    } else {
        let front = texts_of(items.drop_last());
        match items.last().text() {
            Some(text) => front.push(text),
            None => front,
        }
    }
}

/// The items of the member `name`, none where it is no array.
pub open spec fn items_of(body: JsonView, name: Seq<char>) -> Seq<JsonView> {
    match body.get(name) {
        Some(JsonView::Array(items)) => items,
        _ => Seq::empty(),
    }
}

/// The state that a request body begins with.
pub open spec fn state_of_request(body: JsonView) -> StateView {
    StateView {
        request_body: body,
        tools: items_of(body, "tools"@),
        include_fields: texts_of(items_of(body, "include"@)),
        max_tool_calls: body.get_unsigned("max_tool_calls"@),
        ..blank_state()
    }
}

/// A copy of the items of the member `name`.
fn copy_items(body: &Json, name: &str) -> (items: Vec<Json>)
    ensures
        items_view(items@) == items_of(body@, name@),
{
    match body.get(name) {
        Some(Json::Array(items)) => clone_items(items),
        _ => {
            let items: Vec<Json> = Vec::new();
            assert(items_view(items@) =~= Seq::empty());
            items
        },
    }
}

/// The texts among `items`.
fn copy_texts(items: &Vec<Json>) -> (texts: Vec<String>)
    ensures
        texts_view(texts@) == texts_of(items_view(items@)),
{
    let ghost view = items_view(items@);
    let mut texts: Vec<String> = Vec::new();
    let mut i: usize = 0;
    assert(texts_view(texts@) =~= texts_of(view.take(0)));
    while i < items.len()
        invariant
            view == items_view(items@),
            i <= items.len(),
            texts_view(texts@) == texts_of(view.take(i as int)),
        decreases items.len() - i,
    {
        assert(view.take(i + 1).drop_last() =~= view.take(i as int));
        let ghost before = texts_view(texts@);
        if let Some(text) = items[i].as_str() {
            texts.push(text.to_owned());
            assert(texts_view(texts@) =~= before.push(text@));
        }
        i = i + 1;
    }
    assert(view.take(i as int) =~= view);
    texts
}

/// The emitted items after the one of `id` was changed to `item`.
pub proof fn lemma_emitted_insert(
    items: Map<Seq<char>, EmittedItem>,
    id: Seq<char>,
    item: EmittedItem,
)
    ensures
        emitted_view(items.insert(id, item)) == emitted_view(items).insert(id, item@),
{
    assert(emitted_view(items.insert(id, item)) =~= emitted_view(items).insert(id, item@));
}

/// Whether an item is a function call whose arguments are complete.
pub open spec fn is_completed_call(item: JsonView) -> bool {
    item.get_text("type"@) == Some("function_call"@) && item.get_text("status"@) == Some(
        "completed"@,
    )
}

/// The completed function calls among items, in order.
pub open spec fn completed_calls(items: Seq<JsonView>) -> Seq<JsonView>
    decreases items.len(),
{
    if items.len() == 0 {
        Seq::empty()
    } else {
        let before = completed_calls(items.drop_last());
        if is_completed_call(items.last()) {
            before.push(items.last())
        } else {
            before
        }
    }
}

impl ResponsesState {
    /// The state that a request body begins with.
    pub fn from_request_body(body: Json) -> (state: Self)
        ensures
            state@ == state_of_request(body@),
    {
        let tools = copy_items(&body, "tools");
        let include_items = copy_items(&body, "include");
        let include_fields = copy_texts(&include_items);
        let max_tool_calls = body.get_u64("max_tool_calls");
        let mut state = ResponsesState::default();
        state.tools = tools;
        state.include_fields = include_fields;
        state.max_tool_calls = max_tool_calls;
        state.request_body = body;
        assert(state@ =~= state_of_request(body@));
        state
    }

    /// The output items of the current response.
    pub fn output_items(&self) -> (items: Option<&Vec<Json>>)
        ensures
            match items {
                Some(items) => output_items_of(self@.response_object) == items_view(items@),
                None => output_items_of(self@.response_object) == Seq::<JsonView>::empty(),
            },
    {
        match self.response_object.get("output") {
            Some(Json::Array(items)) => Some(items),
            _ => None,
        }
    }

    /// The completed function calls of the current response, in output order.
    pub fn tool_calls(&self) -> (calls: Vec<Json>)
        ensures
            items_view(calls@) == completed_calls(output_items_of(self@.response_object)),
    {
        let mut calls: Vec<Json> = Vec::new();
        assert(items_view(calls@) =~= Seq::empty());
        let items = match self.output_items() {
            Some(items) => items,
            None => return calls,
        };
        let ghost view = items_view(items@);
        let mut i: usize = 0;
        assert(view.take(0) =~= Seq::empty());
        while i < items.len()
            invariant
                i <= items.len(),
                view == items_view(items@),
                items_view(calls@) == completed_calls(view.take(i as int)),
            decreases items.len() - i,
        {
            assert(view.take(i + 1).drop_last() =~= view.take(i as int));
            let item = &items[i];
            let called = match item.get_str("type") {
                Some(kind) => same_text(kind, "function_call"),
                None => false,
            };
            let completed = match item.get_str("status") {
                Some(status) => same_text(status, "completed"),
                None => false,
            };
            if called && completed {
                push_item(&mut calls, item.clone());
            }
            i = i + 1;
        }
        assert(view.take(i as int) =~= view);
        calls
    }

    /// The output items of the current response, to be changed; a response
    /// without such a list gets an empty one.
    pub fn output_items_mut(&mut self) -> (items: &mut Vec<Json>)
        ensures
            items_view(items@) == output_items_of(old(self)@.response_object),
            final(self)@ == (StateView {
                response_object: with_output_items(
                    old(self)@.response_object,
                    items_view(final(items)@),
                ),
                ..old(self)@
            }),
    {
        let response = output_slot(&mut self.response_object);
        items_slot(response)
    }
}

/// The items of an array, to be changed; what is no array becomes an empty one.
fn items_slot(value: &mut Json) -> (items: &mut Vec<Json>)
    ensures
        items_view(items@) == (match old(value)@ {
            JsonView::Array(items) => items,
            _ => Seq::empty(),
        }),
        final(value)@ == JsonView::Array(items_view(final(items)@)),
{
    let is_array = match value {
        Json::Array(_) => true,
        _ => false,
    };
    if !is_array {
        *value = Json::Array(Vec::new());
        assert(items_view(Seq::<Json>::empty()) =~= Seq::empty());
    }
    match value {
        Json::Array(items) => items,
        _ => vstd::pervasive::unreached(),
    }
}

/// The member `output` of a response, to be changed; what is no object becomes
/// one, and a missing member becomes `null`.
fn output_slot(response: &mut Json) -> (slot: &mut Json)
    ensures
        slot@ == (match old(response)@.get("output"@) {
            Some(value) => value,
            None => JsonView::Null,
        }),
        final(response)@ == JsonView::Object(
            with_member(
                match old(response)@ {
                    JsonView::Object(members) => members,
                    _ => Seq::empty(),
                },
                "output"@,
                final(slot)@,
            ),
        ),
{
    let is_object = response.is_object();
    if !is_object {
        *response = Json::Object(Vec::new());
        assert(members_view(Seq::<Member>::empty()) =~= Seq::empty());
    }
    match response {
        Json::Object(members) => {
            let ghost before = members_view(members@);
            proof {
                lemma_position_of(before, "output"@);
            }
            let at = match find_member(members, "output") {
                Some(at) => at,
                None => {
                    members.push(Member { name: "output".to_owned(), value: Json::Null });
                    members.len() - 1
                },
            };
            let ghost held = members@;
            let slot = &mut members[at].value;
            proof {
                assert forall|value: Json|
                    members_view(
                        #[trigger] held.update(
                            at as int,
                            Member { name: held[at as int].name, value },
                        ),
                    ) == with_member(before, "output"@, value@) by {
                    assert(members_view(
                        held.update(at as int, Member { name: held[at as int].name, value }),
                    ) =~= with_member(before, "output"@, value@));
                }
            }
            slot
        },
        _ => vstd::pervasive::unreached(),
    }
}

/// How many of the first `n` items are completed function calls.
pub open spec fn calls_before(items: Seq<JsonView>, n: int) -> nat
    decreases n,
{
    if n <= 0 {
        0
    } else if items[n - 1].get("type"@) == Some(JsonView::String("function_call"@))
        && items[n - 1].get("status"@) == Some(JsonView::String("completed"@)) {
        calls_before(items, n - 1) + 1
    } else {
        calls_before(items, n - 1)
    }
}

/// The completed calls of a response are all of them, as they are and in output order.
pub proof fn lemma_completed_calls_in_order(items: Seq<JsonView>)
    ensures
        completed_calls(items).len() == calls_before(items, items.len() as int),
        forall|i: int|
            0 <= i < items.len() && (#[trigger] items[i]).get("type"@) == Some(
                JsonView::String("function_call"@),
            ) && items[i].get("status"@) == Some(JsonView::String("completed"@)) ==> calls_before(
                items,
                i,
            ) < completed_calls(items).len() && completed_calls(items)[calls_before(items, i) as int]
                == items[i],
    decreases items.len(),
{
    if items.len() > 0 {
        let front = items.drop_last();
        lemma_completed_calls_in_order(front);
        lemma_calls_of_front(items, front.len() as int);
        let all = completed_calls(items);
        assert(items.last() == items[items.len() - 1]);
        assert forall|i: int|
            0 <= i < items.len() && (#[trigger] items[i]).get("type"@) == Some(
                JsonView::String("function_call"@),
            ) && items[i].get("status"@) == Some(
                JsonView::String("completed"@),
            ) implies calls_before(items, i) < all.len() && all[calls_before(items, i) as int]
            == items[i] by {
            if i < front.len() {
                assert(front[i] == items[i]);
                lemma_calls_of_front(items, i);
            }
        }
    }
}

/// Counting in the front of items is counting in them.
proof fn lemma_calls_of_front(items: Seq<JsonView>, n: int)
    requires
        0 <= n < items.len(),
    ensures
        calls_before(items.drop_last(), n) == calls_before(items, n),
    decreases n,
{
    if n > 0 {
        lemma_calls_of_front(items, n - 1);
        assert(items.drop_last()[n - 1] == items[n - 1]);
    }
}

} // verus!
