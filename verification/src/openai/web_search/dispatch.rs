//! The dispatcher of pending web searches: which of them are executed, within
//! which limits, and what of each reaches the request's state.

use vstd::prelude::*;

use crate::collections::{text_at, texts_of_map, TextMap};
use crate::filter::{BodyAccess, BodyMode, MAX_JSON_BODY_BYTES};
use crate::filter_results::{publish_result, published, published_view};
use crate::json::{items_view, Json, JsonView};
use crate::openai::retained::{
    budget_failed, can_retain, multiple_of, retained_bytes, sum_of,
};
use crate::openai::state::{
    optional_text, texts_view, ResponsesState, SearchAssignment, StateView,
};
use crate::openai::usage::fitting;
use crate::openai::web_search::config::{
    build_config, context_size_or_medium, lookup_view, validated, SearchContextSize, ValidatedConfig,
    ValidatedView, WebSearchFilterConfig,
};
use crate::openai::web_search::provider::{
    results_view, OutcomeView, ResultView, SearchOutcome, SearchResult,
};
use crate::openai::web_search::turns::{
    bridge_call_id, bridge_id, bridge_pair, build_failed_tool_result_messages_with_output,
    build_incomplete_tool_result_messages, build_output_item, build_tool_result_messages,
    push_search_turn, search_arguments, search_failure, search_item, search_output, turn_pushed,
};
use crate::text::{
    byte_len, decimal, join, lemma_usize_of_decimal, parse_usize, push_decimal, same_text, usize_of,
    utf8, with_decimal,
};

verus! {

broadcast use crate::json_model::group_json_view;

/// Server-side hard cap on web searches dispatched in one continuation.
pub const MAX_WEB_SEARCH_CALLS_PER_CONTINUATION: usize = 64;

/// What a search that was dispatched came to.
pub enum DispatchOutcome {
    /// The provider answered with these results.
    Results(Vec<SearchResult>),
    /// The answer was over the limit that it was given.
    RetainedLimitExceeded,
    /// The provider failed.
    Failed,
}

/// The model of a [`DispatchOutcome`].
pub enum DispatchView {
    /// The provider answered with these results.
    Results(Seq<ResultView>),
    /// The answer was over the limit that it was given.
    RetainedLimitExceeded,
    /// The provider failed.
    Failed,
}

impl View for DispatchOutcome {
    type V = DispatchView;

    open spec fn view(&self) -> DispatchView {
        match *self {
            DispatchOutcome::Results(results) => DispatchView::Results(results_view(results@)),
            DispatchOutcome::RetainedLimitExceeded => DispatchView::RetainedLimitExceeded,
            DispatchOutcome::Failed => DispatchView::Failed,
        }
    }
}

/// What a search within its limit came to: without results the provider failed,
/// whatever its failure mode.
pub fn settled(outcome: SearchOutcome) -> (settled: DispatchOutcome)
    ensures
        settled@ == (match outcome@ {
            OutcomeView::Results(results) => DispatchView::Results(results),
            _ => DispatchView::Failed,
        }),
{
    match outcome {
        SearchOutcome::Results(results) => DispatchOutcome::Results(results),
        SearchOutcome::Skipped => DispatchOutcome::Failed,
        SearchOutcome::Rejected(_) => DispatchOutcome::Failed,
    }
}

/// One pending search: what is needed of its output item while it runs.
pub struct PendingSearchCall {
    /// Absolute output index replaced by the result.
    pub output_index: usize,
    /// Position among web-search calls in this model round.
    pub ordinal: usize,
    /// Public call id.
    pub id: String,
    /// Search query, absent for malformed calls.
    pub query: Option<String>,
}

/// The model of a [`PendingSearchCall`].
#[verifier::ext_equal]
pub struct CallView {
    /// Absolute output index replaced by the result.
    pub output_index: usize,
    /// Position among web-search calls in this model round.
    pub ordinal: usize,
    /// Public call id.
    pub id: Seq<char>,
    /// Search query.
    pub query: Option<Seq<char>>,
}

impl View for PendingSearchCall {
    type V = CallView;

    open spec fn view(&self) -> CallView {
        CallView {
            output_index: self.output_index,
            ordinal: self.ordinal,
            id: self.id@,
            query: optional_text(self.query),
        }
    }
}

/// The models of pending searches.
pub open spec fn calls_view(calls: Seq<PendingSearchCall>) -> Seq<CallView> {
    Seq::new(calls.len(), |i: int| calls[i]@)
}

/// The query of a search item.
pub open spec fn item_query(item: JsonView) -> Option<Seq<char>> {
    match item.get("action"@) {
        Some(action) => action.get_text("query"@),
        None => None,
    }
}

/// The id of a search item.
pub open spec fn item_call_id(item: JsonView) -> Seq<char> {
    match item.get_text("id"@) {
        Some(id) => id,
        None => "ws_unknown"@,
    }
}

/// The pending search of an assignment.
pub open spec fn call_of(output: Seq<JsonView>, assignment: SearchAssignment) -> CallView {
    let item = output[assignment.output_index as int];
    CallView {
        output_index: assignment.output_index,
        ordinal: assignment.ordinal,
        id: item_call_id(item),
        query: item_query(item),
    }
}

/// The pending searches of assignments.
pub open spec fn calls_of(
    output: Seq<JsonView>,
    assignments: Seq<SearchAssignment>,
) -> Seq<CallView> {
    Seq::new(assignments.len(), |i: int| call_of(output, assignments[i]))
}

/// Whether every assignment is about an output item.
pub open spec fn all_assigned(
    output: Seq<JsonView>,
    assignments: Seq<SearchAssignment>,
) -> bool {
    forall|i: int|
        0 <= i < assignments.len() ==> (#[trigger] assignments[i]).output_index < output.len()
}

/// The bytes of a text, none where there is none.
pub open spec fn optional_bytes(text: Option<Seq<char>>) -> nat {
    match text {
        Some(text) => utf8(text).len(),
        None => 0,
    }
}

/// The payload of pending searches.
pub open spec fn calls_bytes(calls: Seq<CallView>) -> nat
    decreases calls.len(),
{
    if calls.len() == 0 {
        0
    } else {
        calls_bytes(calls.drop_last()) + utf8(calls.last().id).len() + optional_bytes(
            calls.last().query,
        )
    }
}

/// The pending searches that are taken over, with their payload; `None` where an
/// assignment is about no output item, or the payload does not fit.
pub open spec fn taken_calls(state: StateView) -> Option<(Seq<CallView>, usize)> {
    let calls = calls_of(state.output, state.searches);
    let bytes = calls_bytes(calls);
    if all_assigned(state.output, state.searches) && bytes <= usize::MAX && can_retain(state, bytes)
        && state.external + bytes <= usize::MAX {
        Some((calls, bytes as usize))
    } else {
        None
    }
}

/// The state once its pending searches were taken over.
pub open spec fn calls_taken(state: StateView) -> StateView {
    match taken_calls(state) {
        Some((_, bytes)) => StateView {
            searches: Seq::empty(),
            external: (state.external + bytes) as usize,
            ..state
        },
        None => state,
    }
}

/// Reads the pending searches of assignments, with their payload; `None` where an
/// assignment is about no output item, or the payload is no `usize`.
fn stage_calls(output: &Vec<Json>, assignments: &Vec<SearchAssignment>) -> (staged: Option<
    (Vec<PendingSearchCall>, usize),
>)
    ensures
        match staged {
            Some((calls, bytes)) => {
                &&& all_assigned(items_view(output@), assignments@)
                &&& calls_view(calls@) == calls_of(items_view(output@), assignments@)
                &&& bytes == calls_bytes(calls_of(items_view(output@), assignments@))
            },
            None => !all_assigned(items_view(output@), assignments@) || calls_bytes(
                calls_of(items_view(output@), assignments@),
            ) > usize::MAX,
        },
{
    let ghost items = items_view(output@);
    let ghost all = calls_of(items, assignments@);
    let mut calls: Vec<PendingSearchCall> = Vec::new();
    let mut bytes: usize = 0;
    let mut i: usize = 0;
    assert(calls_view(calls@) =~= all.take(0));
    while i < assignments.len()
        invariant
            items == items_view(output@),
            all == calls_of(items, assignments@),
            i <= assignments.len(),
            all_assigned(items, assignments@.take(i as int)),
            calls_view(calls@) == all.take(i as int),
            bytes == calls_bytes(all.take(i as int)),
        decreases assignments.len() - i,
    {
        let assignment = assignments[i];
        if assignment.output_index >= output.len() {
            assert(assignments@[i as int].output_index >= items.len());
            return None;
        }
        let item = &output[assignment.output_index];
        let id = match item.get_str("id") {
            Some(id) => id.to_owned(),
            None => "ws_unknown".to_owned(),
        };
        let query = match item.get("action") {
            Some(action) => match action.get_str("query") {
                Some(query) => Some(query.to_owned()),
                None => None,
            },
            None => None,
        };
        let query_bytes: usize = match &query {
            Some(query) => byte_len(query.as_str()),
            None => 0,
        };
        let ghost before = calls_view(calls@);
        let call = PendingSearchCall {
            output_index: assignment.output_index,
            ordinal: assignment.ordinal,
            id,
            query,
        };
        assert(call@ =~= all[i as int]);
        proof {
            assert(all.take(i + 1).drop_last() =~= all.take(i as int));
            lemma_calls_bytes_grow(all, i + 1);
        }
        bytes = match bytes.checked_add(byte_len(call.id.as_str())) {
            Some(sum) => match sum.checked_add(query_bytes) {
                Some(sum) => sum,
                None => return None,
            },
            None => return None,
        };
        calls.push(call);
        assert(calls_view(calls@) =~= before.push(call@));
        assert(all.take(i + 1) =~= all.take(i as int).push(all[i as int]));
        assert(assignments@.take(i + 1) =~= assignments@.take(i as int).push(
            assignments@[i as int],
        ));
        i = i + 1;
    }
    assert(all.take(i as int) =~= all);
    assert(assignments@.take(i as int) =~= assignments@);
    Some((calls, bytes))
}

/// Fewer searches have no more payload.
proof fn lemma_calls_bytes_grow(calls: Seq<CallView>, n: int)
    requires
        0 <= n <= calls.len(),
    ensures
        calls_bytes(calls.take(n)) <= calls_bytes(calls),
    decreases calls.len(),
{
    if n == calls.len() {
        assert(calls.take(n) =~= calls);
    } else {
        assert(calls.drop_last().take(n) =~= calls.take(n));
        lemma_calls_bytes_grow(calls.drop_last(), n);
    }
}

/// Moves the pending searches to the dispatcher without making their payload
/// disappear from the budget.
pub fn take_pending_search_calls(state: &mut ResponsesState) -> (taken: Option<
    (Vec<PendingSearchCall>, usize),
>)
    ensures
        match taken {
            Some((calls, bytes)) => taken_calls(old(state)@) == Some((calls_view(calls@), bytes)),
            None => taken_calls(old(state)@) is None,
        },
        final(state)@ == calls_taken(old(state)@),
{
    let ghost before = state@;
    let (calls, bytes) = match stage_calls(&state.accumulated_output, &state.web_search_calls) {
        Some(staged) => staged,
        None => return None,
    };
    if !state.can_retain_payload(bytes) {
        return None;
    }
    if !state.retain_external_payload_bytes(bytes) {
        return None;
    }
    state.web_search_calls = Vec::new();
    assert(state@ =~= calls_taken(before));
    Some((calls, bytes))
}

/// The remaining searches that this continuation may dispatch: what is left of the
/// client's allowance, at most the server's cap.
pub open spec fn search_budget(max_tool_calls: Option<u64>, used: usize) -> usize {
    match max_tool_calls {
        Some(max) => if max <= used {
            0
        } else if max - used >= MAX_WEB_SEARCH_CALLS_PER_CONTINUATION {
            MAX_WEB_SEARCH_CALLS_PER_CONTINUATION
        } else {
            (max - used) as usize
        },
        None => MAX_WEB_SEARCH_CALLS_PER_CONTINUATION,
    }
}

/// Remaining web searches this continuation may dispatch, where `used` built-in
/// calls were admitted in earlier rounds.
pub fn remaining_web_search_budget(max_tool_calls: Option<u64>, used: usize) -> (budget: usize)
    ensures
        budget == search_budget(max_tool_calls, used),
{
    let max = match max_tool_calls {
        Some(max) => max,
        None => return MAX_WEB_SEARCH_CALLS_PER_CONTINUATION,
    };
    let left: u64 = max.saturating_sub(used as u64);
    if left >= 64 {
        MAX_WEB_SEARCH_CALLS_PER_CONTINUATION
    } else {
        left as usize
    }
}

/// Whether a tool type is a web search.
pub open spec fn is_search_type(kind: Seq<char>) -> bool {
    kind == "web_search"@ || kind == "web_search_preview"@ || kind
        == "web_search_preview_2025_03_11"@ || kind == "web_search_2025_08_26"@
}

/// Whether a tool type is a web search.
pub fn is_web_search_tool_type(kind: &str) -> (search: bool)
    ensures
        search == is_search_type(kind@),
{
    same_text(kind, "web_search") || same_text(kind, "web_search_preview") || same_text(
        kind,
        "web_search_preview_2025_03_11",
    ) || same_text(kind, "web_search_2025_08_26")
}

/// The context size that a tool asks for, where it is a web search.
pub open spec fn tool_size(tool: JsonView) -> Option<Seq<char>> {
    match tool.get_text("type"@) {
        Some(kind) => if is_search_type(kind) {
            tool.get_text("search_context_size"@)
        } else {
            None
        },
        None => None,
    }
}

/// The context size of the first tool from `from` on that asks for one.
pub open spec fn first_tool_size(tools: Seq<JsonView>, from: int) -> Option<Seq<char>>
    decreases tools.len() - from,
{
    if from >= tools.len() {
        None
    } else {
        match tool_size(tools[from]) {
            Some(size) => Some(size),
            None => first_tool_size(tools, from + 1),
        }
    }
}

/// Recovers the per-request search context from the request's tools.
pub fn web_search_context_size_from_state(state: &ResponsesState) -> (size: Option<&str>)
    ensures
        match size {
            Some(size) => first_tool_size(state@.tools, 0) == Some(size@),
            None => first_tool_size(state@.tools, 0) is None,
        },
{
    let mut i: usize = 0;
    while i < state.tools.len()
        invariant
            i <= state.tools.len(),
            first_tool_size(state@.tools, 0) == first_tool_size(state@.tools, i as int),
        decreases state.tools.len() - i,
    {
        let tool = &state.tools[i];
        assert(tool@ == state@.tools[i as int]);
        if let Some(kind) = tool.get_str("type") {
            if is_web_search_tool_type(kind) {
                if let Some(size) = tool.get_str("search_context_size") {
                    return Some(size);
                }
            }
        }
        i = i + 1;
    }
    None
}

/// The context size of a request: that of its metadata, else that of its tools,
/// else the default.
pub open spec fn request_size(
    metadata: Option<Seq<char>>,
    tools: Seq<JsonView>,
    default: SearchContextSize,
) -> SearchContextSize {
    match metadata {
        Some(name) => context_size_or_medium(name),
        None => match first_tool_size(tools, 0) {
            Some(name) => context_size_or_medium(name),
            None => default,
        },
    }
}

/// Whether the client asked for the sources of searches.
pub open spec fn wants_sources(state: StateView) -> bool {
    state.include_fields.contains("web_search_call.action.sources"@)
}

/// Whether the client asked for the sources of searches.
pub fn include_action_sources(state: &ResponsesState) -> (wanted: bool)
    ensures
        wanted == wants_sources(state@),
{
    let ghost fields = state@.include_fields;
    let mut i: usize = 0;
    while i < state.include_fields.len()
        invariant
            fields == texts_view(state.include_fields@),
            i <= state.include_fields.len(),
            forall|j: int|
                0 <= j < i ==> #[trigger] fields[j] != "web_search_call.action.sources"@,
        decreases state.include_fields.len() - i,
    {
        if same_text(state.include_fields[i].as_str(), "web_search_call.action.sources") {
            assert(fields[i as int] == "web_search_call.action.sources"@);
            return true;
        }
        i = i + 1;
    }
    false
}

/// The decoded payload of search results.
pub open spec fn results_bytes(results: Seq<ResultView>) -> nat
    decreases results.len(),
{
    if results.len() == 0 {
        0
    } else {
        let last = results.last();
        results_bytes(results.drop_last()) + utf8(last.title).len() + utf8(last.url).len() + utf8(
            last.snippet,
        ).len()
    }
}

/// Fewer results have no more payload.
proof fn lemma_results_bytes_grow(results: Seq<ResultView>, n: int)
    requires
        0 <= n <= results.len(),
    ensures
        results_bytes(results.take(n)) <= results_bytes(results),
    decreases results.len(),
{
    if n == results.len() {
        assert(results.take(n) =~= results);
    } else {
        assert(results.drop_last().take(n) =~= results.take(n));
        lemma_results_bytes_grow(results.drop_last(), n);
    }
}

/// Counts the decoded payload of search results.
pub fn web_search_results_bytes(results: &Vec<SearchResult>) -> (bytes: Option<usize>)
    ensures
        bytes == fitting(results_bytes(results_view(results@))),
{
    let ghost view = results_view(results@);
    let mut bytes: usize = 0;
    let mut i: usize = 0;
    assert(results_bytes(view.take(0)) == 0);
    while i < results.len()
        invariant
            view == results_view(results@),
            i <= results.len(),
            bytes == results_bytes(view.take(i as int)),
        decreases results.len() - i,
    {
        proof {
            assert(view.take(i + 1).drop_last() =~= view.take(i as int));
            lemma_results_bytes_grow(view, i + 1);
        }
        let result = &results[i];
        assert(result@ == view[i as int]);
        let with_title = match bytes.checked_add(byte_len(result.title.as_str())) {
            Some(sum) => sum,
            None => return None,
        };
        let with_url = match with_title.checked_add(byte_len(result.url.as_str())) {
            Some(sum) => sum,
            None => return None,
        };
        bytes = match with_url.checked_add(byte_len(result.snippet.as_str())) {
            Some(sum) => sum,
            None => return None,
        };
        i = i + 1;
    }
    assert(view.take(i as int) =~= view);
    Some(bytes)
}

/// The bound on the sources of search results.
pub open spec fn sources_bound(results: Seq<ResultView>) -> nat
    decreases results.len(),
{
    if results.len() == 0 {
        0
    } else {
        sources_bound(results.drop_last()) + utf8(results.last().url).len() * 6 + 128
    }
}

/// Fewer results have no larger bound.
proof fn lemma_sources_bound_grows(results: Seq<ResultView>, n: int)
    requires
        0 <= n <= results.len(),
    ensures
        sources_bound(results.take(n)) <= sources_bound(results),
    decreases results.len(),
{
    if n == results.len() {
        assert(results.take(n) =~= results);
    } else {
        assert(results.drop_last().take(n) =~= results.take(n));
        lemma_sources_bound_grows(results.drop_last(), n);
    }
}

/// Computes the bound on the sources of search results.
fn bound_sources(results: &Vec<SearchResult>) -> (bound: Option<usize>)
    ensures
        bound == fitting(sources_bound(results_view(results@))),
{
    let ghost view = results_view(results@);
    let mut bound: usize = 0;
    let mut i: usize = 0;
    assert(sources_bound(view.take(0)) == 0);
    while i < results.len()
        invariant
            view == results_view(results@),
            i <= results.len(),
            bound == sources_bound(view.take(i as int)),
        decreases results.len() - i,
    {
        proof {
            assert(view.take(i + 1).drop_last() =~= view.take(i as int));
            lemma_sources_bound_grows(view, i + 1);
        }
        let url = byte_len(results[i].url.as_str());
        assert(url == utf8(view[i as int].url).len());
        let escaped = match url.checked_mul(6) {
            Some(product) => product,
            None => return None,
        };
        let with_url = match bound.checked_add(escaped) {
            Some(sum) => sum,
            None => return None,
        };
        bound = match with_url.checked_add(128) {
            Some(sum) => sum,
            None => return None,
        };
        i = i + 1;
    }
    assert(view.take(i as int) =~= view);
    Some(bound)
}

/// The names under which one search is known: the client's, and the bridge's.
pub struct SearchCallIds<'a> {
    /// Client-facing id of the public output item.
    pub public: &'a str,
    /// Bounded, backend-valid id for the synthetic bridge pair.
    pub bridge: &'a str,
    /// Absolute output index replaced by the result.
    pub output_index: usize,
}

/// The bound on the public item of a search: six bytes for each byte of its texts
/// and a fixed envelope.
pub open spec fn output_bound(
    public: Seq<char>,
    status: Seq<char>,
    query: Seq<char>,
    results: Seq<ResultView>,
    include_sources: bool,
) -> nat {
    (if include_sources {
        sources_bound(results)
    } else {
        0
    }) + utf8(query).len() * 6 + utf8(public).len() * 6 + utf8(status).len() * 6 + 512
}

/// The bound on the bridge of a search.
pub open spec fn bridge_bound(
    bridge: Seq<char>,
    query: Seq<char>,
    results: Seq<ResultView>,
    source_bytes: nat,
) -> nat {
    (source_bytes + results.len() * 64 + utf8(query).len() + utf8(bridge).len() * 2) * 6 + 2048
}

/// The bound on all that building a turn holds at once.
pub open spec fn construction_bound(
    public: Seq<char>,
    bridge: Seq<char>,
    status: Seq<char>,
    query: Seq<char>,
    results: Seq<ResultView>,
    include_sources: bool,
    source_bytes: nat,
) -> nat {
    source_bytes + output_bound(public, status, query, results, include_sources) + bridge_bound(
        bridge,
        query,
        results,
        source_bytes,
    ) * 3
}

/// Whether a turn may be built.
pub open spec fn construction_fits(
    state: StateView,
    public: Seq<char>,
    bridge: Seq<char>,
    status: Seq<char>,
    query: Seq<char>,
    results: Seq<ResultView>,
    include_sources: bool,
    source_bytes: nat,
) -> bool {
    let bound = construction_bound(
        public,
        bridge,
        status,
        query,
        results,
        include_sources,
        source_bytes,
    );
    bound <= usize::MAX && can_retain(state, bound)
}

/// Admits every construction of a result's size before provider strings are
/// formatted or copied.
pub fn web_search_construction_fits(
    state: &ResponsesState,
    ids: &SearchCallIds<'_>,
    status: &str,
    query: &str,
    results: &Vec<SearchResult>,
    include_sources: bool,
    source_bytes: usize,
) -> (fits: bool)
    ensures
        fits == construction_fits(
            state@,
            ids.public@,
            ids.bridge@,
            status@,
            query@,
            results_view(results@),
            include_sources,
            source_bytes as nat,
        ),
{
    let ghost view = results_view(results@);
    let ghost sources_nat = if include_sources {
        sources_bound(view)
    } else {
        0nat
    };
    let ghost q = utf8(query@).len();
    let ghost p = utf8(ids.public@).len();
    let ghost s = utf8(status@).len();
    let ghost b = utf8(ids.bridge@).len();
    let ghost r = results@.len();
    let ghost src = source_bytes as nat;
    let sources = if include_sources {
        bound_sources(results)
    } else {
        Some(0usize)
    };
    let query_part = multiple_of(Some(byte_len(query)), 6, Ghost(q));
    let public_part = multiple_of(Some(byte_len(ids.public)), 6, Ghost(p));
    let status_part = multiple_of(Some(byte_len(status)), 6, Ghost(s));
    let o1 = sum_of(sources, query_part, Ghost(sources_nat), Ghost(q * 6));
    let o2 = sum_of(o1, public_part, Ghost(sources_nat + q * 6), Ghost(p * 6));
    let o3 = sum_of(o2, status_part, Ghost(sources_nat + q * 6 + p * 6), Ghost(s * 6));
    let output = sum_of(
        o3,
        Some(512),
        Ghost(sources_nat + q * 6 + p * 6 + s * 6),
        Ghost(512),
    );
    let formatting = multiple_of(Some(results.len()), 64, Ghost(r));
    let ids_part = multiple_of(Some(byte_len(ids.bridge)), 2, Ghost(b));
    let b1 = sum_of(Some(source_bytes), formatting, Ghost(src), Ghost(r * 64));
    let b2 = sum_of(b1, Some(byte_len(query)), Ghost(src + r * 64), Ghost(q));
    let b3 = sum_of(b2, ids_part, Ghost(src + r * 64 + q), Ghost(b * 2));
    let b4 = multiple_of(b3, 6, Ghost(src + r * 64 + q + b * 2));
    let bridge = sum_of(b4, Some(2048), Ghost((src + r * 64 + q + b * 2) * 6), Ghost(2048));
    let bridges = multiple_of(bridge, 3, Ghost((src + r * 64 + q + b * 2) * 6 + 2048));
    let held = sum_of(
        Some(source_bytes),
        output,
        Ghost(src),
        Ghost(sources_nat + q * 6 + p * 6 + s * 6 + 512),
    );
    let bound = sum_of(
        held,
        bridges,
        Ghost(src + (sources_nat + q * 6 + p * 6 + s * 6 + 512)),
        Ghost(((src + r * 64 + q + b * 2) * 6 + 2048) * 3),
    );
    match bound {
        Some(bound) => state.can_retain_payload(bound),
        None => false,
    }
}

/// The state once a turn was built and pushed, or its budget was exceeded.
#[verifier::opaque]
pub open spec fn turn_built(
    state: StateView,
    call: CallView,
    status: Seq<char>,
    results: Seq<ResultView>,
    arguments: Seq<char>,
    output: Seq<char>,
) -> StateView {
    let query = match call.query {
        Some(query) => query,
        None => Seq::empty(),
    };
    let bridge = bridge_id(call.id, query, call.ordinal as nat);
    let source_bytes = results_bytes(results);
    if source_bytes <= usize::MAX && construction_fits(
        state,
        call.id,
        bridge,
        status,
        query,
        results,
        wants_sources(state),
        source_bytes,
    ) {
        turn_pushed(
            state,
            search_item(call.id, status, query, results, wants_sources(state)),
            bridge_pair(bridge, arguments, output),
            call.output_index as nat,
            source_bytes,
        )
    } else {
        budget_failed(state, search_failure())
    }
}

/// The query of a call, empty where it has none.
pub open spec fn call_query(call: CallView) -> Seq<char> {
    match call.query {
        Some(query) => query,
        None => Seq::empty(),
    }
}

/// The state once a search's results, or that it was not performed, were
/// appended.
pub open spec fn result_appended(
    state: StateView,
    call: CallView,
    status: Seq<char>,
    results: Seq<ResultView>,
) -> StateView {
    turn_built(
        state,
        call,
        status,
        results,
        search_arguments(call_query(call)),
        search_output(status, results),
    )
}

/// The state once a call without a query was appended.
pub open spec fn incomplete_appended(state: StateView, call: CallView) -> StateView {
    turn_built(
        state,
        call,
        "incomplete"@,
        Seq::empty(),
        "{}"@,
        "Web search could not run because the query was missing."@,
    )
}

/// The state once a failed search was appended, with what the model is told.
pub open spec fn failure_appended(
    state: StateView,
    call: CallView,
    output: Seq<char>,
) -> StateView {
    turn_built(
        state,
        call,
        "failed"@,
        Seq::empty(),
        search_arguments(call_query(call)),
        output,
    )
}

/// The query of a call, empty where it has none.
fn query_of(call: &PendingSearchCall) -> (query: &str)
    ensures
        query@ == call_query(call@),
{
    match &call.query {
        Some(query) => query.as_str(),
        None => {
            proof {
                reveal_strlit("");
            }
            assert(""@ =~= Seq::<char>::empty());
            ""
        },
    }
}

/// Stops dispatch and hands one failure to the loop's owner.
pub fn record_web_search_budget_failure(state: &mut ResponsesState)
    ensures
        final(state)@ == budget_failed(old(state)@, search_failure()),
{
    state.fail_budget(
        "agentic retained payload exceeded openai_agentic_loop.max_retained_bytes while executing web search",
    );
}

/// What the model is told of a search.
enum Told<'a> {
    /// What came of it.
    Outcome,
    /// That its query was missing.
    QueryMissing,
    /// That it failed, in these words.
    Failure(&'a str),
}

/// The arguments of the call that the model is shown.
spec fn told_arguments(told: Told<'_>, query: Seq<char>) -> Seq<char> {
    match told {
        Told::QueryMissing => "{}"@,
        _ => search_arguments(query),
    }
}

/// The output of the call that the model is shown.
spec fn told_output(told: Told<'_>, status: Seq<char>, results: Seq<ResultView>) -> Seq<char> {
    match told {
        Told::Outcome => search_output(status, results),
        Told::QueryMissing => "Web search could not run because the query was missing."@,
        Told::Failure(output) => output@,
    }
}

/// Builds what the model is told of a search.
fn build_bridge(
    told: &Told<'_>,
    name: &str,
    status: &str,
    query: &str,
    results: &Vec<SearchResult>,
) -> (bridge: Vec<Json>)
    ensures
        items_view(bridge@) == bridge_pair(
            name@,
            told_arguments(*told, query@),
            told_output(*told, status@, results_view(results@)),
        ),
{
    match told {
        Told::Outcome => build_tool_result_messages(name, status, query, results),
        Told::QueryMissing => build_incomplete_tool_result_messages(name),
        Told::Failure(output) => build_failed_tool_result_messages_with_output(name, query, output),
    }
}

/// Builds the item of a turn and what the model is told, and pushes both. Nothing
/// is built before all of it is admitted.
fn append_turn(
    state: &mut ResponsesState,
    call: &PendingSearchCall,
    status: &str,
    results: &Vec<SearchResult>,
    told: Told<'_>,
)
    ensures
        final(state)@ == turn_built(
            old(state)@,
            call@,
            status@,
            results_view(results@),
            told_arguments(told, call_query(call@)),
            told_output(told, status@, results_view(results@)),
        ),
{
    proof {
        reveal(turn_built);
    }
    let query = query_of(call);
    let name = bridge_call_id(call.id.as_str(), query, call.ordinal);
    let sources = include_action_sources(state);
    let source_bytes = match web_search_results_bytes(results) {
        Some(bytes) => bytes,
        None => {
            record_web_search_budget_failure(state);
            return;
        },
    };
    let ids = SearchCallIds {
        public: call.id.as_str(),
        bridge: name.as_str(),
        output_index: call.output_index,
    };
    if !web_search_construction_fits(state, &ids, status, query, results, sources, source_bytes) {
        record_web_search_budget_failure(state);
        return;
    }
    let item = build_output_item(ids.public, status, query, results, sources);
    let bridge = build_bridge(&told, ids.bridge, status, query, results);
    push_search_turn(state, item, bridge, ids.output_index, source_bytes);
}

/// Appends a completed search, or one that was never dispatched.
///
/// No results are a successful search without results; the model is told the
/// truth of a search that was not performed.
pub fn append_result(
    state: &mut ResponsesState,
    call: &PendingSearchCall,
    status: &str,
    results: &Vec<SearchResult>,
)
    ensures
        final(state)@ == result_appended(old(state)@, call@, status@, results_view(results@)),
{
    append_turn(state, call, status, results, Told::Outcome);
}

/// No results.
fn empty_results() -> (results: Vec<SearchResult>)
    ensures
        results_view(results@) == Seq::<ResultView>::empty(),
{
    let results: Vec<SearchResult> = Vec::new();
    assert(results_view(results@) =~= Seq::empty());
    results
}

/// Appends a call without a query.
pub fn append_incomplete(state: &mut ResponsesState, call: &PendingSearchCall)
    ensures
        final(state)@ == incomplete_appended(old(state)@, call@),
{
    append_turn(state, call, "incomplete", &empty_results(), Told::QueryMissing);
}

/// Appends a failed search, with what the model is told.
fn append_failure_turn(state: &mut ResponsesState, call: &PendingSearchCall, output: &str)
    ensures
        final(state)@ == failure_appended(old(state)@, call@, output@),
{
    append_turn(state, call, "failed", &empty_results(), Told::Failure(output));
}

/// Appends a search whose provider failed.
pub fn append_failed(state: &mut ResponsesState, call: &PendingSearchCall)
    ensures
        final(state)@ == failure_appended(old(state)@, call@, "Web search unavailable."@),
{
    append_failure_turn(state, call, "Web search unavailable.");
}

/// Appends a call that the client's limit on tool calls refused.
pub fn append_tool_limit_exceeded(state: &mut ResponsesState, call: &PendingSearchCall)
    ensures
        final(state)@ == failure_appended(
            old(state)@,
            call@,
            "Web search was not executed because max_tool_calls was exhausted."@,
        ),
{
    append_failure_turn(
        state,
        call,
        "Web search was not executed because max_tool_calls was exhausted.",
    );
}

/// Appends a call over the provider budget as incomplete, without dispatching it.
pub fn append_excess_incomplete(state: &mut ResponsesState, call: &PendingSearchCall)
    ensures
        final(state)@ == result_appended(old(state)@, call@, "incomplete"@, Seq::empty()),
{
    append_result(state, call, "incomplete", &empty_results());
}

/// The most bytes that a provider's answer may have: one part in thirty-two of what
/// is left of the budget once the request itself is accounted for, at most
/// `ceiling`. `None` where nothing is left.
pub open spec fn response_limit(state: StateView, query: Seq<char>, ceiling: usize) -> Option<usize> {
    match state.limit {
        None => Some(ceiling),
        Some(limit) => {
            let share = (limit - retained_bytes(state) - (utf8(query).len() * 8 + 4096)) / 32;
            if retained_bytes(state) + utf8(query).len() * 8 + 4096 > limit || share <= 0 {
                None
            } else if share < ceiling {
                Some(share as usize)
            } else {
                Some(ceiling)
            }
        },
    }
}

/// Bounds what a search may bring in before it is dispatched.
pub fn web_search_response_limit(state: &ResponsesState, query: &str, ceiling: usize) -> (limit:
    Option<usize>)
    ensures
        limit == response_limit(state@, query@, ceiling),
{
    let limit = match state.retained_payload_limit {
        Some(limit) => limit,
        None => return Some(ceiling),
    };
    let current = match state.retained_payload_bytes() {
        Some(current) => current,
        None => return None,
    };
    let ghost q = utf8(query@).len();
    let staging = sum_of(
        multiple_of(Some(byte_len(query)), 8, Ghost(q)),
        Some(4096),
        Ghost(q * 8),
        Ghost(4096),
    );
    let staging = match staging {
        Some(staging) => staging,
        None => return None,
    };
    if current > limit || staging > limit - current {
        return None;
    }
    let available = limit - current - staging;
    let share = available / 32;
    if share == 0 {
        return None;
    }
    if share < ceiling {
        Some(share)
    } else {
        Some(ceiling)
    }
}

/// One batch of searches on its way.
pub struct SearchRun {
    /// The searches, in order.
    pub calls: Vec<PendingSearchCall>,
    /// Their payload, which counts until the batch is finished.
    pub calls_bytes: usize,
    /// The decisions of the client's limit on tool calls, in order.
    pub admissions: Option<Vec<bool>>,
    /// The provider requests that may be made.
    pub provider_budget: usize,
    /// The context size of the searches.
    pub context_size: SearchContextSize,
    /// The search that is next.
    pub position: usize,
    /// The provider requests that were made.
    pub dispatched: usize,
    /// Whether the client's limit refused a search.
    pub tool_limit_exceeded: bool,
}

/// The model of a [`SearchRun`].
#[verifier::ext_equal]
pub struct RunView {
    /// The searches, in order.
    pub calls: Seq<CallView>,
    /// Their payload.
    pub calls_bytes: usize,
    /// The decisions of the client's limit on tool calls.
    pub admissions: Option<Seq<bool>>,
    /// The provider requests that may be made.
    pub provider_budget: usize,
    /// The context size of the searches.
    pub context_size: SearchContextSize,
    /// The search that is next.
    pub position: nat,
    /// The provider requests that were made.
    pub dispatched: usize,
    /// Whether the client's limit refused a search.
    pub tool_limit_exceeded: bool,
}

impl View for SearchRun {
    type V = RunView;

    open spec fn view(&self) -> RunView {
        RunView {
            calls: calls_view(self.calls@),
            calls_bytes: self.calls_bytes,
            admissions: match self.admissions {
                Some(admissions) => Some(admissions@),
                None => None,
            },
            provider_budget: self.provider_budget,
            context_size: self.context_size,
            position: self.position as nat,
            dispatched: self.dispatched,
            tool_limit_exceeded: self.tool_limit_exceeded,
        }
    }
}

/// A search to be made.
pub struct SearchTask {
    /// The query.
    pub query: String,
    /// The context size.
    pub context_size: SearchContextSize,
    /// The most bytes that the answer may have.
    pub max_response_bytes: usize,
}

/// The model of a [`SearchTask`].
#[verifier::ext_equal]
pub struct TaskView {
    /// The query.
    pub query: Seq<char>,
    /// The context size.
    pub context_size: SearchContextSize,
    /// The most bytes that the answer may have.
    pub max_response_bytes: usize,
}

impl View for SearchTask {
    type V = TaskView;

    open spec fn view(&self) -> TaskView {
        TaskView {
            query: self.query@,
            context_size: self.context_size,
            max_response_bytes: self.max_response_bytes,
        }
    }
}

/// Whether the client's limit admits the search at a position.
pub open spec fn is_admitted(run: RunView, position: int) -> bool {
    match run.admissions {
        Some(admissions) => position >= admissions.len() || admissions[position],
        None => true,
    }
}

/// What is to be done next: the batch and the state once every search up to the
/// next provider request was settled, and that request.
///
/// A search that the client's limit refused fails; one over the provider budget,
/// or without a query, is incomplete; one for which no room is left ends the
/// batch with a budget error.
pub open spec fn advanced(run: RunView, state: StateView, ceiling: usize) -> (
    RunView,
    StateView,
    Option<TaskView>,
)
    decreases run.calls.len() - run.position,
{
    if run.position >= run.calls.len() || state.payload_failed {
        (run, state, None)
    } else {
        let call = run.calls[run.position as int];
        let next = RunView { position: run.position + 1, ..run };
        if !is_admitted(run, run.position as int) {
            advanced(
                RunView { tool_limit_exceeded: true, ..next },
                failure_appended(
                    state,
                    call,
                    "Web search was not executed because max_tool_calls was exhausted."@,
                ),
                ceiling,
            )
        } else if run.dispatched >= run.provider_budget {
            advanced(next, result_appended(state, call, "incomplete"@, Seq::empty()), ceiling)
        } else {
            match call.query {
                None => advanced(next, incomplete_appended(state, call), ceiling),
                Some(query) => match response_limit(state, query, ceiling) {
                    None => advanced(next, budget_failed(state, search_failure()), ceiling),
                    Some(limit) => (
                        run,
                        state,
                        Some(
                            TaskView {
                                query,
                                context_size: run.context_size,
                                max_response_bytes: limit,
                            },
                        ),
                    ),
                },
            }
        }
    }
}

/// The model of an optional task.
pub open spec fn optional_task(task: Option<SearchTask>) -> Option<TaskView> {
    match task {
        Some(task) => Some(task@),
        None => None,
    }
}

/// Settles searches up to the next provider request, and gives that request.
pub fn next_search(run: &mut SearchRun, state: &mut ResponsesState, ceiling: usize) -> (task: Option<
    SearchTask,
>)
    requires
        old(run).position <= old(run).calls.len(),
    ensures
        ({
            let expected = advanced(old(run)@, old(state)@, ceiling);
            &&& final(run)@ == expected.0
            &&& final(state)@ == expected.1
            &&& optional_task(task) == expected.2
        }),
        final(run).position <= final(run).calls.len(),
        task is Some ==> final(run).position < final(run).calls.len(),
{
    let ghost start = run@;
    let ghost given = state@;
    while run.position < run.calls.len() && !state.retained_payload_failed
        invariant
            start == old(run)@,
            given == old(state)@,
            run.position <= run.calls.len(),
            advanced(start, given, ceiling) == advanced(run@, state@, ceiling),
        decreases run.calls.len() - run.position,
    {
        let ghost before = run@;
        let position = run.position;
        assert(run.calls@[position as int]@ == before.calls[position as int]);
        let admitted = match &run.admissions {
            Some(admissions) => position >= admissions.len() || admissions[position],
            None => true,
        };
        if !admitted {
            append_tool_limit_exceeded(state, &run.calls[position]);
            run.tool_limit_exceeded = true;
            run.position = position + 1;
            assert(run@ =~= RunView {
                position: (position + 1) as nat,
                tool_limit_exceeded: true,
                ..before
            });
        } else if run.dispatched >= run.provider_budget {
            append_excess_incomplete(state, &run.calls[position]);
            run.position = position + 1;
            assert(run@ =~= RunView { position: (position + 1) as nat, ..before });
        } else {
            let query = match &run.calls[position].query {
                Some(query) => Some(query.clone()),
                None => None,
            };
            match query {
                None => {
                    append_incomplete(state, &run.calls[position]);
                    run.position = position + 1;
                    assert(run@ =~= RunView { position: (position + 1) as nat, ..before });
                },
                Some(query) => match web_search_response_limit(state, query.as_str(), ceiling) {
                    None => {
                        record_web_search_budget_failure(state);
                        run.position = position + 1;
                        assert(run@ =~= RunView { position: (position + 1) as nat, ..before });
                    },
                    Some(limit) => {
                        let task = SearchTask {
                            query,
                            context_size: run.context_size,
                            max_response_bytes: limit,
                        };
                        return Some(task);
                    },
                },
            }
        }
    }
    None
}

/// The state once a dispatched search was settled.
pub open spec fn outcome_appended(
    state: StateView,
    call: CallView,
    outcome: DispatchView,
) -> StateView {
    match outcome {
        DispatchView::Results(results) => result_appended(state, call, "completed"@, results),
        DispatchView::RetainedLimitExceeded => budget_failed(state, search_failure()),
        DispatchView::Failed => failure_appended(state, call, "Web search unavailable."@),
    }
}

/// The batch once a provider request was made and settled.
pub open spec fn run_after_outcome(run: RunView) -> RunView {
    RunView {
        position: run.position + 1,
        dispatched: if run.dispatched < usize::MAX {
            (run.dispatched + 1) as usize
        } else {
            usize::MAX
        },
        ..run
    }
}

/// Settles the search that was dispatched last.
///
/// A provider failure never rejects the response: the model is told of it and the
/// loop goes on.
pub fn record_outcome(run: &mut SearchRun, state: &mut ResponsesState, outcome: DispatchOutcome)
    requires
        old(run).position < old(run).calls.len(),
    ensures
        final(run)@ == run_after_outcome(old(run)@),
        final(state)@ == outcome_appended(
            old(state)@,
            old(run)@.calls[old(run)@.position as int],
            outcome@,
        ),
        final(run).position <= final(run).calls.len(),
{
    let ghost before = run@;
    let position = run.position;
    assert(run.calls@[position as int]@ == before.calls[position as int]);
    match outcome {
        DispatchOutcome::Results(results) => append_result(
            state,
            &run.calls[position],
            "completed",
            &results,
        ),
        DispatchOutcome::RetainedLimitExceeded => record_web_search_budget_failure(state),
        DispatchOutcome::Failed => append_failed(state, &run.calls[position]),
    }
    run.position = position + 1;
    run.dispatched = run.dispatched.saturating_add(1);
    assert(run@ =~= run_after_outcome(before));
}

/// The state once a batch was finished: its requests are counted, its payload is
/// released, and a search that the client's limit refused ends the loop.
pub open spec fn run_finished(run: RunView, state: StateView) -> StateView {
    let made = if run.dispatched <= u32::MAX {
        run.dispatched as u32
    } else {
        u32::MAX
    };
    StateView {
        searches_executed: if state.searches_executed + made <= u32::MAX {
            (state.searches_executed + made) as u32
        } else {
            u32::MAX
        },
        searches: Seq::empty(),
        tool_limit: state.tool_limit || run.tool_limit_exceeded,
        external: if state.external >= run.calls_bytes {
            (state.external - run.calls_bytes) as usize
        } else {
            0
        },
        ..state
    }
}

/// Finishes a batch of searches.
pub fn finish_run(run: SearchRun, state: &mut ResponsesState)
    ensures
        final(state)@ == run_finished(run@, old(state)@),
{
    let ghost before = state@;
    let made: u32 = if run.dispatched as u64 <= u32::MAX as u64 {
        run.dispatched as u32
    } else {
        u32::MAX
    };
    state.web_search_calls_executed = state.web_search_calls_executed.saturating_add(made);
    state.web_search_calls = Vec::new();
    if run.tool_limit_exceeded {
        state.deferred_tool_limit_completion = true;
    }
    state.release_external_payload_bytes(run.calls_bytes);
    assert(state@ =~= run_finished(run@, before));
}

/// The batch that a continuation begins with.
pub open spec fn run_of(
    calls: Seq<CallView>,
    calls_bytes: usize,
    admissions: Option<Seq<bool>>,
    provider_budget: usize,
    context_size: SearchContextSize,
) -> RunView {
    RunView {
        calls,
        calls_bytes,
        admissions,
        provider_budget,
        context_size,
        position: 0,
        dispatched: 0,
        tool_limit_exceeded: false,
    }
}

/// What a continuation begins with: the state, and the batch where there is one.
///
/// Without pending searches there is nothing to do; pending searches that do not
/// fit end the loop with a budget error. Where the client set no limit on tool
/// calls, every search is admitted.
pub open spec fn begun(
    state: StateView,
    admissions: Option<Seq<bool>>,
    used: usize,
    size: SearchContextSize,
) -> (StateView, Option<RunView>) {
    if state.searches.len() == 0 {
        (state, None)
    } else {
        match taken_calls(state) {
            None => (budget_failed(state, search_failure()), None),
            Some((calls, bytes)) => (
                calls_taken(state),
                Some(
                    run_of(
                        calls,
                        bytes,
                        if state.max_tool_calls is Some {
                            admissions
                        } else {
                            None
                        },
                        search_budget(state.max_tool_calls, used),
                        size,
                    ),
                ),
            ),
        }
    }
}

/// The model of an optional batch.
pub open spec fn optional_run(run: Option<SearchRun>) -> Option<RunView> {
    match run {
        Some(run) => Some(run@),
        None => None,
    }
}

/// The model of optional decisions.
pub open spec fn optional_flags(flags: Option<Vec<bool>>) -> Option<Seq<bool>> {
    match flags {
        Some(flags) => Some(flags@),
        None => None,
    }
}

/// Begins the searches of a continuation.
///
/// `admissions` are the ordered decisions of the client's limit on tool calls,
/// where there is one, and `used` the built-in calls admitted in earlier rounds.
pub fn begin_searches(
    state: &mut ResponsesState,
    admissions: Option<Vec<bool>>,
    used: usize,
    context_size: SearchContextSize,
) -> (run: Option<SearchRun>)
    ensures
        final(state)@ == begun(old(state)@, optional_flags(admissions), used, context_size).0,
        optional_run(run) == begun(
            old(state)@,
            optional_flags(admissions),
            used,
            context_size,
        ).1,
        match run {
            Some(run) => run.position <= run.calls.len(),
            None => true,
        },
{
    if state.web_search_calls.len() == 0 {
        return None;
    }
    let admissions = if state.max_tool_calls.is_some() {
        admissions
    } else {
        None
    };
    let budget = remaining_web_search_budget(state.max_tool_calls, used);
    match take_pending_search_calls(state) {
        Some((calls, calls_bytes)) => {
            let run = SearchRun {
                calls,
                calls_bytes,
                admissions,
                provider_budget: budget,
                context_size,
                position: 0,
                dispatched: 0,
                tool_limit_exceeded: false,
            };
            Some(run)
        },
        None => {
            record_web_search_budget_failure(state);
            None
        },
    }
}

/// What the dispatcher holds for the life of the process.
pub struct WebSearchFilter {
    /// Default search context size.
    pub default_context_size: SearchContextSize,
    /// Maximum calls accepted from one model response.
    pub max_calls_per_round: usize,
}

/// The message for a number of calls out of its bounds.
pub open spec fn calls_message(ceiling: usize) -> Seq<char> {
    "openai_web_search: max_calls_per_round must be between 1 and "@ + decimal(ceiling as nat)
}

impl WebSearchFilter {
    /// Builds a dispatcher that accepts `max_calls_per_round` calls of one model
    /// response, at least one and at most `ceiling`, and the configuration of its
    /// provider. `variable` is what looking the variable of the API key up gave.
    pub fn from_config(
        raw: &WebSearchFilterConfig,
        max_calls_per_round: usize,
        ceiling: usize,
        variable: &Result<String, String>,
    ) -> (result: Result<(Self, ValidatedConfig), String>)
        ensures
            ({
                let within = 0 < max_calls_per_round <= ceiling;
                let expected = validated(*raw, lookup_view(*variable));
                match result {
                    Ok((filter, config)) => {
                        &&& within
                        &&& expected == Ok::<ValidatedView, Seq<char>>(config@)
                        &&& filter.max_calls_per_round == max_calls_per_round
                        &&& filter.default_context_size == config.default_context_size
                    },
                    Err(message) => if within {
                        expected == Err::<ValidatedView, Seq<char>>(message@)
                    } else {
                        message@ == calls_message(ceiling)
                    },
                }
            }),
    {
        if max_calls_per_round == 0 || max_calls_per_round > ceiling {
            return Err(
                with_decimal(
                    "openai_web_search: max_calls_per_round must be between 1 and ",
                    ceiling as u64,
                ),
            );
        }
        match build_config(raw, variable) {
            Ok(config) => {
                let default_context_size = config.default_context_size;
                Ok((WebSearchFilter { default_context_size, max_calls_per_round }, config))
            },
            Err(message) => Err(message),
        }
    }

    /// The filter's name.
    pub fn name(&self) -> (name: &'static str)
        ensures
            name@ == "openai_web_search"@,
    {
        "openai_web_search"
    }

    /// The filter reads the request's body.
    pub fn request_body_access(&self) -> (access: BodyAccess)
        ensures
            access == BodyAccess::ReadOnly,
    {
        BodyAccess::ReadOnly
    }

    /// The request's body is held back while searches are executed.
    pub fn request_body_mode(&self) -> (mode: BodyMode)
        ensures
            mode == (BodyMode::StreamBuffer { max_bytes: Some(MAX_JSON_BODY_BYTES) }),
    {
        BodyMode::StreamBuffer { max_bytes: Some(MAX_JSON_BODY_BYTES) }
    }

    /// The filter reads the response's body.
    pub fn response_body_access(&self) -> (access: BodyAccess)
        ensures
            access == BodyAccess::ReadOnly,
    {
        BodyAccess::ReadOnly
    }

    /// The response's body is not held back.
    pub fn response_body_mode(&self) -> (mode: BodyMode)
        ensures
            mode == BodyMode::Stream,
    {
        BodyMode::Stream
    }

    /// The context size of a request.
    pub fn context_size(&self, metadata: &TextMap<String>, state: &ResponsesState) -> (size:
        SearchContextSize)
        ensures
            size == request_size(
                text_at(texts_of_map(metadata@), "tool_parse.search_context_size"@),
                state@.tools,
                self.default_context_size,
            ),
    {
        match metadata.text("tool_parse.search_context_size") {
            Some(name) => SearchContextSize::from_str_or_default(name),
            None => match web_search_context_size_from_state(state) {
                Some(name) => SearchContextSize::from_str_or_default(name),
                None => self.default_context_size,
            },
        }
    }

    /// Publishes the cap on calls of one response to the loop's owner.
    pub fn publish_cap(&self, metadata: &mut TextMap<String>)
        ensures
            texts_of_map(final(metadata)@) == texts_of_map(old(metadata)@).insert(
                "responses.web_search_max_calls_per_round"@,
                decimal(self.max_calls_per_round as nat),
            ),
    {
        let mut text = String::new();
        push_decimal(&mut text, self.max_calls_per_round as u64);
        assert(text@ =~= decimal(self.max_calls_per_round as nat));
        metadata.put_text("responses.web_search_max_calls_per_round", text.as_str());
    }

    /// Says at the end of a response whether searches are pending: then another
    /// inference round follows.
    pub fn on_response_body(
        &self,
        state: &Option<ResponsesState>,
        results: &mut TextMap<TextMap<String>>,
        end_of_stream: bool,
    )
        ensures
            published_view(final(results)@) == (match *state {
                Some(held) => if end_of_stream {
                    published(
                        published_view(old(results)@),
                        "openai_web_search"@,
                        "action"@,
                        if held@.searches.len() > 0 {
                            "loop"@
                        } else {
                            "done"@
                        },
                    )
                } else {
                    published_view(old(results)@)
                },
                None => published_view(old(results)@),
            }),
    {
        if !end_of_stream {
            return;
        }
        if let Some(held) = state {
            let action = if held.web_search_calls.len() > 0 {
                "loop"
            } else {
                "done"
            };
            publish_result(results, "openai_web_search", "action", action);
        }
    }

    /// Begins the searches of a request at the end of its body.
    pub fn on_request_body(
        &self,
        metadata: &mut TextMap<String>,
        state: &mut Option<ResponsesState>,
        admissions: Option<Vec<bool>>,
        used: usize,
        end_of_stream: bool,
    ) -> (run: Option<SearchRun>)
        ensures
            match run {
                Some(run) => run.position <= run.calls.len(),
                None => true,
            },
            ({
                let published = texts_of_map(old(metadata)@).insert(
                    "responses.web_search_max_calls_per_round"@,
                    decimal(self.max_calls_per_round as nat),
                );
                if !end_of_stream {
                    &&& run is None
                    &&& *final(state) == *old(state)
                    &&& texts_of_map(final(metadata)@) == texts_of_map(old(metadata)@)
                } else {
                    &&& texts_of_map(final(metadata)@) == published
                    &&& match *old(state) {
                        None => run is None && *final(state) is None,
                        Some(held) => {
                            let expected = begun(
                                held@,
                                optional_flags(admissions),
                                used,
                                request_size(
                                    text_at(published, "tool_parse.search_context_size"@),
                                    held@.tools,
                                    self.default_context_size,
                                ),
                            );
                            &&& *final(state) is Some
                            &&& (*final(state))->0@ == expected.0
                            &&& optional_run(run) == expected.1
                        },
                    }
                }
            }),
    {
        if !end_of_stream {
            return None;
        }
        self.publish_cap(metadata);
        match state {
            None => None,
            Some(held) => {
                let size = self.context_size(metadata, held);
                begin_searches(held, admissions, used, size)
            },
        }
    }
}

/// The cap on calls of one response that the dispatcher published.
pub fn configured_max_calls_per_round(metadata: &TextMap<String>) -> (cap: Option<usize>)
    ensures
        cap == published_cap(texts_of_map(metadata@)),
{
    match metadata.text("responses.web_search_max_calls_per_round") {
        Some(text) => parse_usize(text),
        None => None,
    }
}

/// The cap that metadata holds.
pub open spec fn published_cap(metadata: Map<Seq<char>, Seq<char>>) -> Option<usize> {
    match text_at(metadata, "responses.web_search_max_calls_per_round"@) {
        Some(text) => usize_of(text),
        None => None,
    }
}

/// What reads the cap gets the cap that was published.
pub proof fn lemma_published_cap_is_read(metadata: Map<Seq<char>, Seq<char>>, cap: usize)
    ensures
        published_cap(
            metadata.insert("responses.web_search_max_calls_per_round"@, decimal(cap as nat)),
        ) == Some(cap),
{
    lemma_usize_of_decimal(cap);
}

/// Publishes the status of a search.
pub fn emit_status(results: &mut TextMap<TextMap<String>>, call_id: &str, status: &str)
    ensures
        published_view(final(results)@) == published(
            published_view(old(results)@),
            "openai_web_search"@,
            "web_search_call_"@ + call_id@,
            status@,
        ),
{
    let key = join("web_search_call_", call_id);
    publish_result(results, "openai_web_search", key.as_str(), status);
}

/// A provider request is made only for a search that the client's limit admits,
/// within the provider budget, with a query, and with room for an answer of the
/// size that it may have.
pub proof fn lemma_task_is_within_limits(run: RunView, state: StateView, ceiling: usize)
    requires
        run.position <= run.calls.len(),
    ensures
        ({
            let (after, held, task) = advanced(run, state, ceiling);
            task is Some ==> {
                &&& after.position < after.calls.len()
                &&& is_admitted(after, after.position as int)
                &&& after.dispatched < after.provider_budget
                &&& after.calls[after.position as int].query == Some(task->0.query)
                &&& task->0.max_response_bytes <= ceiling
                &&& match held.limit {
                    Some(limit) => retained_bytes(held) + task->0.max_response_bytes * 32
                        <= limit,
                    None => true,
                }
            }
        }),
    decreases run.calls.len() - run.position,
{
    if run.position < run.calls.len() && !state.payload_failed {
        let call = run.calls[run.position as int];
        let next = RunView { position: run.position + 1, ..run };
        if !is_admitted(run, run.position as int) {
            lemma_task_is_within_limits(
                RunView { tool_limit_exceeded: true, ..next },
                failure_appended(
                    state,
                    call,
                    "Web search was not executed because max_tool_calls was exhausted."@,
                ),
                ceiling,
            );
        } else if run.dispatched >= run.provider_budget {
            lemma_task_is_within_limits(
                next,
                result_appended(state, call, "incomplete"@, Seq::empty()),
                ceiling,
            );
        } else if let Some(query) = call.query {
            if response_limit(state, query, ceiling) is None {
                lemma_task_is_within_limits(
                    next,
                    budget_failed(state, search_failure()),
                    ceiling,
                );
            }
        } else {
            lemma_task_is_within_limits(next, incomplete_appended(state, call), ceiling);
        }
    }
}

/// Taking pending searches over leaves what counts toward the budget within the
/// limit.
pub proof fn lemma_taking_keeps_budget(state: StateView, limit: usize)
    requires
        state.limit == Some(limit),
        taken_calls(state) is Some,
    ensures
        retained_bytes(calls_taken(state)) <= limit,
{
}

} // verus!
