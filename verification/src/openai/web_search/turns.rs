//! One web-search turn: the public output item, the model-facing bridge pair, and
//! its commit to the request's state within the payload budget.

use vstd::prelude::*;

use crate::json::{
    items_view, no_members, push_item, push_member, string, Json, JsonView, Members,
};
use crate::json_text::{compact_text, text_of};
use crate::openai::retained::{
    budget_failed, can_replace, items_bytes, lemma_items_bytes_concat, lemma_items_bytes_update,
    multiple_of, retained_bytes, retained_json_bytes, retained_json_values_bytes, sum_of,
};
use crate::openai::state::{ResponsesState, StateView};
use crate::openai::usage::text_len;
use crate::openai::web_search::provider::{results_view, ResultView, SearchResult};
use crate::text::{byte_len, decimal, push_decimal, same_text, utf8, with_decimal};
use vstd::string::StringExecFns;

verus! {

broadcast use crate::json_model::group_json_view;

/// The step of the hash of bridge ids: FNV-1a.
pub open spec fn hash_step(hash: u64, byte: u8) -> u64 {
    (hash ^ (byte as u64)).wrapping_mul(0x0000_0100_0000_01B3)
}

/// The hash of bytes, from `hash` on.
pub open spec fn hash_bytes(hash: u64, bytes: Seq<u8>) -> u64
    decreases bytes.len(),
{
    if bytes.len() == 0 {
        hash
    } else {
        hash_step(hash_bytes(hash, bytes.drop_last()), bytes.last())
    }
}

/// The hash of a source id and a query, each ended by a byte that no text holds.
pub open spec fn bridge_hash(source_id: Seq<char>, query: Seq<char>) -> u64 {
    hash_bytes(
        0xCBF2_9CE4_8422_2325,
        utf8(source_id).push(0xFF) + utf8(query).push(0xFF),
    )
}

/// The lowercase hexadecimal digit of a value below sixteen.
pub open spec fn lower_hex(d: nat) -> char {
    if d < 10 {
        (48 + d) as char
    } else {
        (87 + d) as char
    }
}

/// The last `n` hexadecimal digits of a value.
pub open spec fn hex_digits(value: nat, n: nat) -> Seq<char>
    decreases n,
{
    if n == 0 {
        Seq::empty()
    } else {
        hex_digits(value / 16, (n - 1) as nat).push(lower_hex(value % 16))
    }
}

/// The id of a bridge: `ws_`, the call's position, `_`, and the hash in sixteen
/// hexadecimal digits.
pub open spec fn bridge_id(source_id: Seq<char>, query: Seq<char>, index: nat) -> Seq<char> {
    "ws_"@ + decimal(index) + "_"@ + hex_digits(bridge_hash(source_id, query) as nat, 16)
}

/// The hash of bytes behind other bytes.
proof fn lemma_hash_concat(hash: u64, a: Seq<u8>, b: Seq<u8>)
    ensures
        hash_bytes(hash, a + b) == hash_bytes(hash_bytes(hash, a), b),
    decreases b.len(),
{
    if b.len() == 0 {
        assert(a + b =~= a);
    } else {
        assert((a + b).drop_last() =~= a + b.drop_last());
        lemma_hash_concat(hash, a, b.drop_last());
    }
}

/// Hashes the bytes of a text and the byte that ends it.
fn hash_part(hash: u64, part: &str) -> (after: u64)
    ensures
        after == hash_bytes(hash, utf8(part@).push(0xFF)),
{
    let bytes = part.as_bytes();
    let ghost view = bytes@;
    let mut after = hash;
    let mut i: usize = 0;
    assert(view.take(0) =~= Seq::empty());
    while i < bytes.len()
        invariant
            view == bytes@,
            i <= bytes.len(),
            after == hash_bytes(hash, view.take(i as int)),
        decreases bytes.len() - i,
    {
        assert(view.take(i + 1).drop_last() =~= view.take(i as int));
        after = (after ^ (bytes[i] as u64)).wrapping_mul(0x0000_0100_0000_01B3);
        i = i + 1;
    }
    assert(view.take(i as int) =~= view);
    assert(view.push(0xFF).drop_last() =~= view);
    (after ^ 0xFFu64).wrapping_mul(0x0000_0100_0000_01B3)
}

/// The lowercase hexadecimal digit of a value below sixteen.
fn hex_digit(d: u64) -> (c: char)
    requires
        d < 16,
    ensures
        c == lower_hex(d as nat),
{
    if d < 10 {
        (48 + d as u8) as char
    } else {
        (87 + d as u8) as char
    }
}

/// Appends the last `n` hexadecimal digits of a value.
fn push_hex(out: &mut String, value: u64, n: u64)
    ensures
        final(out)@ == old(out)@ + hex_digits(value as nat, n as nat),
    decreases n,
{
    if n > 0 {
        push_hex(out, value / 16, n - 1);
        out.push(hex_digit(value % 16));
    }
    assert(out@ =~= old(out)@ + hex_digits(value as nat, n as nat));
}

/// Derives a deterministic, bounded call id for the synthetic bridge.
///
/// A hosted search id is unbounded, but the id of a function call is not. The
/// call's position keeps ids distinct even where the source ids collide or are
/// absent.
pub fn bridge_call_id(source_id: &str, query: &str, index: usize) -> (id: String)
    ensures
        id@ == bridge_id(source_id@, query@, index as nat),
{
    let first = hash_part(0xCBF2_9CE4_8422_2325, source_id);
    let hash = hash_part(first, query);
    proof {
        lemma_hash_concat(
            0xCBF2_9CE4_8422_2325,
            utf8(source_id@).push(0xFF),
            utf8(query@).push(0xFF),
        );
    }
    let mut id = with_decimal("ws_", index as u64);
    id.append("_");
    push_hex(&mut id, hash, 16);
    id
}

/// A number has as many hexadecimal digits as are asked for.
proof fn lemma_hex_len(value: nat, n: nat)
    ensures
        hex_digits(value, n).len() == n,
    decreases n,
{
    if n > 0 {
        lemma_hex_len(value / 16, (n - 1) as nat);
    }
}

/// Different numbers have different decimal digits.
pub proof fn lemma_decimal_injective(a: nat, b: nat)
    requires
        decimal(a) == decimal(b),
    ensures
        a == b,
    decreases a,
{
    let x = decimal(a);
    let y = decimal(b);
    lemma_decimal_last(a);
    lemma_decimal_last(b);
    assert(x.last() as int == 48 + a % 10);
    assert(y.last() as int == 48 + b % 10);
    assert(a % 10 == b % 10);
    if a < 10 && b < 10 {
        assert(a == b);
    } else if a >= 10 && b >= 10 {
        assert(x.drop_last() =~= decimal(a / 10));
        assert(y.drop_last() =~= decimal(b / 10));
        lemma_decimal_injective(a / 10, b / 10);
        assert(a == (a / 10) * 10 + a % 10);
        assert(b == (b / 10) * 10 + b % 10);
    } else if a < 10 {
        lemma_decimal_len(b / 10);
        assert(x.len() == 1);
        assert(y.len() == decimal(b / 10).len() + 1);
    } else {
        lemma_decimal_len(a / 10);
        assert(y.len() == 1);
        assert(x.len() == decimal(a / 10).len() + 1);
    }
}

/// The last decimal digit of a number is its remainder by ten.
proof fn lemma_decimal_last(n: nat)
    ensures
        decimal(n).len() >= 1,
        decimal(n).last() as int == 48 + n % 10,
{
    if n >= 10 {
        assert(decimal(n) == decimal(n / 10).push(decimal(n).last()));
    }
}

/// A number has at least one decimal digit.
proof fn lemma_decimal_len(n: nat)
    ensures
        decimal(n).len() >= 1,
    decreases n,
{
    if n >= 10 {
        lemma_decimal_len(n / 10);
    }
}

/// A number below a power of ten has at most so many decimal digits.
proof fn lemma_decimal_bound(n: nat, digits: nat)
    requires
        digits >= 1,
        n < vstd::arithmetic::power::pow(10, digits),
    ensures
        decimal(n).len() <= digits,
    decreases digits,
{
    reveal(vstd::arithmetic::power::pow);
    if n >= 10 {
        if digits == 1 {
            assert(vstd::arithmetic::power::pow(10, 1) == 10) by {
                vstd::arithmetic::power::lemma_pow1(10);
            }
        } else {
            let rest = (digits - 1) as nat;
            assert(vstd::arithmetic::power::pow(10, digits) == 10
                * vstd::arithmetic::power::pow(10, rest));
            assert(n / 10 < vstd::arithmetic::power::pow(10, rest));
            lemma_decimal_bound(n / 10, rest);
        }
    }
}

/// The id of a bridge is at most forty characters long, however long the hosted id
/// and the query are; and calls at different positions have different ids.
pub proof fn lemma_bridge_ids(
    source_a: Seq<char>,
    query_a: Seq<char>,
    a: nat,
    source_b: Seq<char>,
    query_b: Seq<char>,
    b: nat,
)
    requires
        a <= u64::MAX,
    ensures
        bridge_id(source_a, query_a, a).len() <= 40,
        a != b ==> bridge_id(source_a, query_a, a) != bridge_id(source_b, query_b, b),
{
    reveal_strlit("ws_");
    reveal_strlit("_");
    let hex_a = hex_digits(bridge_hash(source_a, query_a) as nat, 16);
    let hex_b = hex_digits(bridge_hash(source_b, query_b) as nat, 16);
    lemma_hex_len(bridge_hash(source_a, query_a) as nat, 16);
    lemma_hex_len(bridge_hash(source_b, query_b) as nat, 16);
    let x = bridge_id(source_a, query_a, a);
    let y = bridge_id(source_b, query_b, b);
    assert(vstd::arithmetic::power::pow(10, 20) > u64::MAX) by {
        lemma_ten_to_twenty();
    }
    lemma_decimal_bound(a, 20);
    if x == y {
        let da = decimal(a);
        let db = decimal(b);
        assert(x.len() == da.len() + 20);
        assert(y.len() == db.len() + 20);
        assert(da =~= x.subrange(3, (3 + da.len()) as int));
        assert(db =~= y.subrange(3, (3 + db.len()) as int));
        lemma_decimal_injective(a, b);
    }
}

/// Ten to the twentieth is more than any 64-bit number.
proof fn lemma_ten_to_twenty()
    ensures
        vstd::arithmetic::power::pow(10, 20) == 100000000000000000000,
{
    use_pow_step(20);
    use_pow_step(15);
    use_pow_step(10);
    use_pow_step(5);
    reveal(vstd::arithmetic::power::pow);
    assert(vstd::arithmetic::power::pow(10, 0) == 1);
}

/// Five factors of ten at once.
proof fn use_pow_step(n: nat)
    requires
        n >= 5,
    ensures
        vstd::arithmetic::power::pow(10, n) == 100000 * vstd::arithmetic::power::pow(
            10,
            (n - 5) as nat,
        ),
{
    reveal_with_fuel(vstd::arithmetic::power::pow, 6);
}

/// One search result as the model sees it.
pub open spec fn formatted_result(result: ResultView, position: nat) -> Seq<char> {
    "["@ + decimal(position) + "] "@ + result.title + "\n"@ + result.url + "\n"@ + result.snippet
}

/// Search results as the model sees them: numbered from one, with an empty line
/// between two of them.
pub open spec fn formatted_results(results: Seq<ResultView>) -> Seq<char>
    decreases results.len(),
{
    if results.len() == 0 {
        Seq::empty()
    } else {
        let front = formatted_results(results.drop_last());
        let last = formatted_result(results.last(), results.len());
        if results.len() == 1 {
            last
        } else {
            front + "\n\n"@ + last
        }
    }
}

/// Formats search results for the model.
pub fn format_search_results(results: &Vec<SearchResult>) -> (text: String)
    ensures
        text@ == formatted_results(results_view(results@)),
{
    let ghost view = results_view(results@);
    let mut text = String::new();
    let mut i: usize = 0;
    assert(text@ =~= formatted_results(view.take(0)));
    while i < results.len()
        invariant
            view == results_view(results@),
            i <= results.len(),
            text@ == formatted_results(view.take(i as int)),
        decreases results.len() - i,
    {
        assert(view.take(i + 1).drop_last() =~= view.take(i as int));
        assert(view.take(i + 1).last() == results@[i as int]@);
        let ghost before = text@;
        if i > 0 {
            text.append("\n\n");
        }
        let ghost opened = text@;
        text.append("[");
        push_decimal(&mut text, i as u64 + 1);
        text.append("] ");
        text.append(results[i].title.as_str());
        text.append("\n");
        text.append(results[i].url.as_str());
        text.append("\n");
        text.append(results[i].snippet.as_str());
        assert(text@ =~= opened + formatted_result(view[i as int], (i + 1) as nat));
        assert(text@ =~= formatted_results(view.take(i + 1)));
        i = i + 1;
    }
    assert(view.take(i as int) =~= view);
    text
}

/// The sources of search results.
pub open spec fn sources_of(results: Seq<ResultView>) -> Seq<JsonView> {
    Seq::new(
        results.len(),
        |i: int|
            JsonView::Object(
                Seq::empty().push(("type"@, JsonView::String("url"@))).push(
                    ("url"@, JsonView::String(results[i].url)),
                ),
            ),
    )
}

/// Builds the sources of search results.
fn build_sources(results: &Vec<SearchResult>) -> (sources: Vec<Json>)
    ensures
        items_view(sources@) == sources_of(results_view(results@)),
{
    let ghost view = sources_of(results_view(results@));
    let mut sources: Vec<Json> = Vec::new();
    let mut i: usize = 0;
    assert(items_view(sources@) =~= view.take(0));
    while i < results.len()
        invariant
            view == sources_of(results_view(results@)),
            view.len() == results@.len(),
            i <= results.len(),
            items_view(sources@) == view.take(i as int),
        decreases results.len() - i,
    {
        let mut source = no_members();
        push_member(&mut source, "type", string("url"));
        push_member(&mut source, "url", string(results[i].url.as_str()));
        push_item(&mut sources, Json::Object(source));
        assert(view.take(i + 1) =~= view.take(i as int).push(view[i as int]));
        i = i + 1;
    }
    assert(view.take(i as int) =~= view);
    sources
}

/// The public output item of a search.
pub open spec fn search_item(
    call_id: Seq<char>,
    status: Seq<char>,
    query: Seq<char>,
    results: Seq<ResultView>,
    include_sources: bool,
) -> JsonView {
    let searched: Members = Seq::empty().push(("type"@, JsonView::String("search"@))).push(
        ("query"@, JsonView::String(query)),
    );
    let action = if include_sources {
        searched.push(("sources"@, JsonView::Array(sources_of(results))))
    } else {
        searched
    };
    JsonView::Object(
        Seq::empty().push(("type"@, JsonView::String("web_search_call"@))).push(
            ("id"@, JsonView::String(call_id)),
        ).push(("status"@, JsonView::String(status))).push(("action"@, JsonView::Object(action))),
    )
}

/// Builds the public output item of a search; the sources are there only where
/// the client asked for them.
pub fn build_output_item(
    call_id: &str,
    status: &str,
    query: &str,
    results: &Vec<SearchResult>,
    include_sources: bool,
) -> (item: Json)
    ensures
        item@ == search_item(call_id@, status@, query@, results_view(results@), include_sources),
{
    let mut action = no_members();
    push_member(&mut action, "type", string("search"));
    push_member(&mut action, "query", string(query));
    if include_sources {
        push_member(&mut action, "sources", Json::Array(build_sources(results)));
    }
    let mut item = no_members();
    push_member(&mut item, "type", string("web_search_call"));
    push_member(&mut item, "id", string(call_id));
    push_member(&mut item, "status", string(status));
    push_member(&mut item, "action", Json::Object(action));
    Json::Object(item)
}

/// The arguments of a search call.
pub open spec fn search_arguments(query: Seq<char>) -> Seq<char> {
    compact_text(
        JsonView::Object(Seq::empty().push(("query"@, JsonView::String(query)))),
    )
}

/// The function call of a bridge.
pub open spec fn bridge_call(call_id: Seq<char>, arguments: Seq<char>) -> JsonView {
    JsonView::Object(
        Seq::empty().push(("type"@, JsonView::String("function_call"@))).push(
            ("call_id"@, JsonView::String(call_id)),
        ).push(("name"@, JsonView::String("web_search"@))).push(
            ("arguments"@, JsonView::String(arguments)),
        ).push(("status"@, JsonView::String("completed"@))),
    )
}

/// The function call's output of a bridge.
pub open spec fn bridge_output(call_id: Seq<char>, output: Seq<char>) -> JsonView {
    JsonView::Object(
        Seq::empty().push(("type"@, JsonView::String("function_call_output"@))).push(
            ("call_id"@, JsonView::String(call_id)),
        ).push(("output"@, JsonView::String(output))),
    )
}

/// A bridge: a function call and its output, under one id.
pub open spec fn bridge_pair(
    call_id: Seq<char>,
    arguments: Seq<char>,
    output: Seq<char>,
) -> Seq<JsonView> {
    Seq::empty().push(bridge_call(call_id, arguments)).push(bridge_output(call_id, output))
}

/// Builds a bridge.
fn build_bridge(call_id: &str, arguments: &str, output: &str) -> (bridge: Vec<Json>)
    ensures
        items_view(bridge@) == bridge_pair(call_id@, arguments@, output@),
{
    let mut call = no_members();
    push_member(&mut call, "type", string("function_call"));
    push_member(&mut call, "call_id", string(call_id));
    push_member(&mut call, "name", string("web_search"));
    push_member(&mut call, "arguments", string(arguments));
    push_member(&mut call, "status", string("completed"));
    let mut result = no_members();
    push_member(&mut result, "type", string("function_call_output"));
    push_member(&mut result, "call_id", string(call_id));
    push_member(&mut result, "output", string(output));
    let mut bridge: Vec<Json> = Vec::new();
    assert(items_view(bridge@) =~= Seq::empty());
    push_item(&mut bridge, Json::Object(call));
    push_item(&mut bridge, Json::Object(result));
    bridge
}

/// Builds the arguments of a search call.
fn build_arguments(query: &str) -> (arguments: String)
    ensures
        arguments@ == search_arguments(query@),
{
    let mut object = no_members();
    push_member(&mut object, "query", string(query));
    text_of(&Json::Object(object))
}

/// What the model is told of a search.
pub open spec fn search_output(status: Seq<char>, results: Seq<ResultView>) -> Seq<char> {
    if status != "completed"@ {
        "Web search not performed."@
    } else if results.len() == 0 {
        "No search results found."@
    } else {
        formatted_results(results)
    }
}

/// Builds the backend-valid continuation for a search.
///
/// A call that was never dispatched carries a truthful output in place of an
/// empty result.
pub fn build_tool_result_messages(
    call_id: &str,
    status: &str,
    query: &str,
    results: &Vec<SearchResult>,
) -> (bridge: Vec<Json>)
    ensures
        items_view(bridge@) == bridge_pair(
            call_id@,
            search_arguments(query@),
            search_output(status@, results_view(results@)),
        ),
{
    let content = if !same_text(status, "completed") {
        "Web search not performed.".to_owned()
    } else if results.len() == 0 {
        "No search results found.".to_owned()
    } else {
        format_search_results(results)
    };
    build_bridge(call_id, build_arguments(query).as_str(), content.as_str())
}

/// Builds the backend-valid continuation for a call without a query.
pub fn build_incomplete_tool_result_messages(call_id: &str) -> (bridge: Vec<Json>)
    ensures
        items_view(bridge@) == bridge_pair(
            call_id@,
            "{}"@,
            "Web search could not run because the query was missing."@,
        ),
{
    build_bridge(call_id, "{}", "Web search could not run because the query was missing.")
}

/// Builds the backend-valid continuation for a failed search.
pub fn build_failed_tool_result_messages(call_id: &str, query: &str) -> (bridge: Vec<Json>)
    ensures
        items_view(bridge@) == bridge_pair(
            call_id@,
            search_arguments(query@),
            "Web search unavailable."@,
        ),
{
    build_failed_tool_result_messages_with_output(call_id, query, "Web search unavailable.")
}

/// Builds a failed web-search bridge with the given message.
pub fn build_failed_tool_result_messages_with_output(call_id: &str, query: &str, output: &str) -> (bridge:
    Vec<Json>)
    ensures
        items_view(bridge@) == bridge_pair(call_id@, search_arguments(query@), output@),
{
    build_bridge(call_id, build_arguments(query).as_str(), output)
}

/// The output items once one of them was replaced by position, or appended where
/// there is none at that position.
pub open spec fn upserted(items: Seq<JsonView>, index: nat, item: JsonView) -> Seq<JsonView> {
    if index < items.len() {
        items.update(index as int, item)
    } else {
        items.push(item)
    }
}

/// Replaces one output item by position, or appends it.
pub fn upsert_output_item(accumulated: &mut Vec<Json>, index: usize, output_item: Json)
    ensures
        items_view(final(accumulated)@) == upserted(
            items_view(old(accumulated)@),
            index as nat,
            output_item@,
        ),
{
    let ghost before = items_view(accumulated@);
    if index < accumulated.len() {
        accumulated.set(index, output_item);
        assert(items_view(accumulated@) =~= before.update(index as int, output_item@));
    } else {
        push_item(accumulated, output_item);
    }
}

/// The id of an output item.
pub open spec fn item_id_bytes(item: JsonView) -> nat {
    match item.get_text("id"@) {
        Some(id) => utf8(id).len(),
        None => 0,
    }
}

/// The payload that a turn adds: its item, its bridge in both histories, and the
/// id of the item.
pub open spec fn turn_added(item: JsonView, bridge: Seq<JsonView>) -> nat {
    text_len(item) + 2 * items_bytes(bridge) + item_id_bytes(item)
}

/// The payload that a turn holds while it is committed.
pub open spec fn turn_staging(item: JsonView, bridge: Seq<JsonView>, source_bytes: nat) -> nat {
    text_len(item) + items_bytes(bridge) + source_bytes
}

/// The payload that a turn replaces.
pub open spec fn turn_removed(state: StateView, index: nat) -> nat {
    if index < state.output.len() {
        text_len(state.output[index as int])
    } else {
        0
    }
}

/// Whether a turn fits the payload budget.
pub open spec fn turn_fits(
    state: StateView,
    item: JsonView,
    bridge: Seq<JsonView>,
    index: nat,
    source_bytes: nat,
) -> bool {
    let added = turn_added(item, bridge);
    let staging = turn_staging(item, bridge, source_bytes);
    added <= usize::MAX && staging <= usize::MAX && can_replace(
        state,
        turn_removed(state, index),
        added,
        staging,
    )
}

/// The ids of executed items once `item` was executed.
pub open spec fn with_executed(state: StateView, item: JsonView) -> StateView {
    match item.get_text("id"@) {
        Some(id) => StateView {
            executed: state.executed.insert(id),
            executed_bytes: state.executed_bytes + if state.executed.contains(id) {
                0
            } else {
                utf8(id).len()
            },
            ..state
        },
        None => state,
    }
}

/// The state once a turn was committed.
pub open spec fn turn_committed(
    state: StateView,
    item: JsonView,
    bridge: Seq<JsonView>,
    index: nat,
) -> StateView {
    let told = with_executed(state, item);
    StateView {
        messages: state.messages + bridge,
        persisted_messages: state.persisted_messages + bridge,
        output: upserted(state.output, index, item),
        ..told
    }
}

/// The message of a turn that does not fit.
pub open spec fn append_failure() -> Seq<char> {
    "agentic retained payload exceeded openai_agentic_loop.max_retained_bytes while appending web-search results"@
}

/// The message of a search that does not fit.
pub open spec fn search_failure() -> Seq<char> {
    "agentic retained payload exceeded openai_agentic_loop.max_retained_bytes while executing web search"@
}

/// The state once a turn was pushed: committed where it fits, else dropped with a
/// budget error. A request that already failed its budget takes nothing in.
pub open spec fn turn_pushed(
    state: StateView,
    item: JsonView,
    bridge: Seq<JsonView>,
    index: nat,
    source_bytes: nat,
) -> StateView {
    if state.payload_failed {
        state
    } else if turn_fits(state, item, bridge, index, source_bytes) {
        turn_committed(state, item, bridge, index)
    } else {
        budget_failed(state, append_failure())
    }
}

/// Appends copies of messages to a history.
fn extend_history(history: &mut Vec<Json>, bridge: &Vec<Json>)
    ensures
        items_view(final(history)@) == items_view(old(history)@) + items_view(bridge@),
{
    let ghost start = items_view(history@);
    let ghost view = items_view(bridge@);
    let mut i: usize = 0;
    assert(start + view.take(0) =~= start);
    while i < bridge.len()
        invariant
            view == items_view(bridge@),
            i <= bridge.len(),
            items_view(history@) == start + view.take(i as int),
        decreases bridge.len() - i,
    {
        push_item(history, bridge[i].clone());
        assert((start + view.take(i as int)).push(view[i as int]) =~= start + view.take(i + 1));
        i = i + 1;
    }
    assert(view.take(i as int) =~= view);
}

/// The part of a payload that is replaced is a part of it.
proof fn lemma_removed_is_retained(state: StateView, index: nat)
    ensures
        turn_removed(state, index) <= retained_bytes(state),
{
    if index < state.output.len() {
        lemma_items_bytes_update(state.output, index as int, state.output[index as int]);
    }
}

/// Pushes a search turn, the public output item and the model-facing bridge, into
/// the state.
///
/// The item replaces the placeholder of its position and is recorded as executed;
/// the bridge goes to both histories.
pub fn push_search_turn(
    state: &mut ResponsesState,
    output_item: Json,
    bridge: Vec<Json>,
    index: usize,
    source_bytes: usize,
)
    ensures
        final(state)@ == turn_pushed(
            old(state)@,
            output_item@,
            items_view(bridge@),
            index as nat,
            source_bytes as nat,
        ),
{
    let ghost before = state@;
    let ghost pair = items_view(bridge@);
    if state.retained_payload_failed {
        return;
    }
    let removed: usize = if index < state.accumulated_output.len() {
        retained_json_bytes(&state.accumulated_output[index])
    } else {
        0
    };
    let bridge_bytes = retained_json_values_bytes(&bridge);
    let output_bytes = retained_json_bytes(&output_item);
    let id_bytes: usize = match output_item.get_str("id") {
        Some(id) => byte_len(id),
        None => 0,
    };
    let ghost b = items_bytes(pair);
    let ghost o = text_len(output_item@);
    let doubled = multiple_of(bridge_bytes, 2, Ghost(b));
    let added = sum_of(
        sum_of(Some(output_bytes), doubled, Ghost(o), Ghost(2 * b)),
        Some(id_bytes),
        Ghost(o + 2 * b),
        Ghost(id_bytes as nat),
    );
    let staging = sum_of(
        sum_of(Some(output_bytes), bridge_bytes, Ghost(o), Ghost(b)),
        Some(source_bytes),
        Ghost(o + b),
        Ghost(source_bytes as nat),
    );
    proof {
        lemma_removed_is_retained(before, index as nat);
    }
    let fits = match (added, staging) {
        (Some(added), Some(staging)) => state.can_replace_retained_payload(removed, added, staging),
        _ => false,
    };
    if !fits {
        state.fail_budget(
            "agentic retained payload exceeded openai_agentic_loop.max_retained_bytes while appending web-search results",
        );
        return;
    }
    extend_history(&mut state.messages, &bridge);
    extend_history(&mut state.persisted_messages, &bridge);
    if let Some(id) = output_item.get_str("id") {
        state.locally_executed_output_items.insert(id);
    }
    upsert_output_item(&mut state.accumulated_output, index, output_item);
    assert(state@ =~= turn_committed(before, output_item@, pair, index as nat));
}

/// A turn never takes a request over its payload budget: what is retained after it
/// is within the limit, or the payload was dropped.
pub proof fn lemma_turn_keeps_budget(
    state: StateView,
    item: JsonView,
    bridge: Seq<JsonView>,
    index: nat,
    source_bytes: nat,
    limit: usize,
)
    requires
        state.limit == Some(limit),
        !state.payload_failed,
    ensures
        ({
            let after = turn_pushed(state, item, bridge, index, source_bytes);
            after.payload_failed || retained_bytes(after) <= limit
        }),
{
    if turn_fits(state, item, bridge, index, source_bytes) {
        lemma_items_bytes_concat(state.messages, bridge);
        lemma_items_bytes_concat(state.persisted_messages, bridge);
        if index < state.output.len() {
            lemma_items_bytes_update(state.output, index as int, item);
        } else {
            assert(state.output.push(item).drop_last() =~= state.output);
        }
    }
}

} // verus!
