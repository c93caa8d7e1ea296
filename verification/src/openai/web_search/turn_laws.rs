//! What holds of every web search that is dispatched: what came of it reaches the
//! client's item and the model's history, in its place and in order.

use vstd::prelude::*;

use crate::json::{lemma_position_absent, lemma_position_is, JsonView};
use crate::json_text::compact_text;
use crate::openai::retained::{budget_failed, retained_bytes};
use crate::openai::state::StateView;
use crate::openai::web_search::config::{lemma_larger_context_asks_for_more, SearchContextSize};
use crate::openai::web_search::dispatch::{
    advanced, begun, call_query, calls_bytes, calls_of, calls_taken, failure_appended, first_tool_size,
    incomplete_appended, is_admitted, outcome_appended, request_size, response_limit,
    result_appended, results_bytes,
    run_after_outcome, run_finished, run_of, search_budget, taken_calls, tool_size, turn_built,
    wants_sources, CallView, DispatchView, RunView,
    TaskView,
};
use crate::openai::web_search::provider::ResultView;
use crate::openai::web_search::turns::{
    bridge_call, bridge_id, bridge_output, bridge_pair, formatted_results, search_arguments,
    search_failure, search_item, search_output, sources_of,
};
use crate::text::{decimal, utf8};

verus! {

/// The names in a search item and in what the model is told are different.
proof fn lemma_turn_names()
    ensures
        "type"@ != "id"@,
        "type"@ != "status"@,
        "type"@ != "action"@,
        "id"@ != "status"@,
        "id"@ != "action"@,
        "status"@ != "action"@,
        "type"@ != "query"@,
        "type"@ != "sources"@,
        "query"@ != "sources"@,
        "type"@ != "url"@,
        "type"@ != "call_id"@,
        "type"@ != "name"@,
        "type"@ != "arguments"@,
        "type"@ != "output"@,
        "call_id"@ != "name"@,
        "call_id"@ != "arguments"@,
        "call_id"@ != "status"@,
        "call_id"@ != "output"@,
        "name"@ != "arguments"@,
        "name"@ != "status"@,
        "arguments"@ != "status"@,
{
    reveal_strlit("type");
    reveal_strlit("id");
    reveal_strlit("status");
    reveal_strlit("action");
    reveal_strlit("query");
    reveal_strlit("sources");
    reveal_strlit("url");
    reveal_strlit("call_id");
    reveal_strlit("name");
    reveal_strlit("arguments");
    reveal_strlit("output");
    assert("type"@.len() == 4 && "id"@.len() == 2 && "status"@.len() == 6);
    assert("action"@.len() == 6 && "action"@[0] == 'a' && "status"@[0] == 's');
    assert("query"@.len() == 5 && "sources"@.len() == 7 && "url"@.len() == 3);
    assert("call_id"@.len() == 7 && "name"@.len() == 4 && "arguments"@.len() == 9);
    assert("name"@[0] == 'n' && "type"@[0] == 't');
    assert("output"@.len() == 6);
}

/// Whether a value is the source of a search result.
pub open spec fn is_source(source: JsonView, result: ResultView) -> bool {
    &&& source.get("type"@) == Some(JsonView::String("url"@))
    &&& source.get("url"@) == Some(JsonView::String(result.url))
}

/// Whether an item shows the client a search: its id, its status, its query and, only
/// where they are wanted, the sources of its results, in order.
pub open spec fn shows_search(
    item: JsonView,
    id: Seq<char>,
    status: Seq<char>,
    query: Seq<char>,
    results: Seq<ResultView>,
    wanted: bool,
) -> bool {
    &&& item.get("type"@) == Some(JsonView::String("web_search_call"@))
    &&& item.get("id"@) == Some(JsonView::String(id))
    &&& item.get("status"@) == Some(JsonView::String(status))
    &&& item.get("action"@) is Some
    &&& item.get("action"@)->0.get("type"@) == Some(JsonView::String("search"@))
    &&& item.get("action"@)->0.get("query"@) == Some(JsonView::String(query))
    &&& wanted ==> {
        &&& item.get("action"@)->0.get("sources"@) is Some
        &&& item.get("action"@)->0.get("sources"@)->0 is Array
        &&& {
            let sources = item.get("action"@)->0.get("sources"@)->0->Array_0;
            &&& sources.len() == results.len()
            &&& forall|i: int|
                0 <= i < results.len() ==> is_source(#[trigger] sources[i], results[i])
        }
    }
    &&& !wanted ==> item.get("action"@)->0.get("sources"@) is None
}

/// The item of a search shows it.
proof fn lemma_item_shows_search(
    id: Seq<char>,
    status: Seq<char>,
    query: Seq<char>,
    results: Seq<ResultView>,
    wanted: bool,
)
    ensures
        shows_search(search_item(id, status, query, results, wanted), id, status, query, results, wanted),
{
    lemma_turn_names();
    let item = search_item(id, status, query, results, wanted);
    let members = item->Object_0;
    lemma_position_is(members, "type"@, 0);
    lemma_position_is(members, "id"@, 1);
    lemma_position_is(members, "status"@, 2);
    lemma_position_is(members, "action"@, 3);
    let action = item.get("action"@)->0->Object_0;
    lemma_position_is(action, "type"@, 0);
    lemma_position_is(action, "query"@, 1);
    if wanted {
        lemma_position_is(action, "sources"@, 2);
        let sources = sources_of(results);
        assert forall|i: int| 0 <= i < results.len() implies is_source(
            #[trigger] sources[i],
            results[i],
        ) by {
            let source = sources[i]->Object_0;
            lemma_position_is(source, "type"@, 0);
            lemma_position_is(source, "url"@, 1);
        }
    } else {
        lemma_position_absent(action, "sources"@);
    }
}

/// Whether two messages tell the model of a search: a call of the search function
/// with its arguments, and the output that answers this very call.
pub open spec fn tells_search(
    call: JsonView,
    answer: JsonView,
    arguments: Seq<char>,
    output: Seq<char>,
) -> bool {
    &&& call.get("type"@) == Some(JsonView::String("function_call"@))
    &&& call.get("name"@) == Some(JsonView::String("web_search"@))
    &&& call.get("status"@) == Some(JsonView::String("completed"@))
    &&& call.get("arguments"@) == Some(JsonView::String(arguments))
    &&& call.get("call_id"@) is Some
    &&& call.get("call_id"@)->0 is String
    &&& answer.get("type"@) == Some(JsonView::String("function_call_output"@))
    &&& answer.get("call_id"@) == call.get("call_id"@)
    &&& answer.get("output"@) == Some(JsonView::String(output))
}

/// The messages of a search tell the model of it.
proof fn lemma_pair_tells_search(id: Seq<char>, arguments: Seq<char>, output: Seq<char>)
    ensures
        bridge_pair(id, arguments, output).len() == 2,
        tells_search(
            bridge_pair(id, arguments, output)[0],
            bridge_pair(id, arguments, output)[1],
            arguments,
            output,
        ),
{
    lemma_turn_names();
    let call = bridge_call(id, arguments)->Object_0;
    lemma_position_is(call, "type"@, 0);
    lemma_position_is(call, "call_id"@, 1);
    lemma_position_is(call, "name"@, 2);
    lemma_position_is(call, "arguments"@, 3);
    lemma_position_is(call, "status"@, 4);
    let answer = bridge_output(id, output)->Object_0;
    lemma_position_is(answer, "type"@, 0);
    lemma_position_is(answer, "call_id"@, 1);
    lemma_position_is(answer, "output"@, 2);
}

/// Whether a history grew by two messages that tell of a search.
pub open spec fn history_grew(
    before: Seq<JsonView>,
    after: Seq<JsonView>,
    arguments: Seq<char>,
    output: Seq<char>,
) -> bool {
    &&& after.len() == before.len() + 2
    &&& after.take(before.len() as int) == before
    &&& tells_search(
        after[before.len() as int],
        after[before.len() as int + 1],
        arguments,
        output,
    )
}

/// Whether a search was taken in: its item stands in its place, the model is told of
/// it in both histories, its id is known as executed, and nothing else changed.
pub open spec fn search_taken_in(
    before: StateView,
    after: StateView,
    call: CallView,
    status: Seq<char>,
    results: Seq<ResultView>,
    arguments: Seq<char>,
    output: Seq<char>,
) -> bool {
    let at = if call.output_index < before.output.len() {
        call.output_index as int
    } else {
        before.output.len() as int
    };
    &&& history_grew(before.messages, after.messages, arguments, output)
    &&& history_grew(before.persisted_messages, after.persisted_messages, arguments, output)
    &&& after.messages.skip(before.messages.len() as int) == after.persisted_messages.skip(
        before.persisted_messages.len() as int,
    )
    &&& after.output.len() == if at < before.output.len() {
        before.output.len()
    } else {
        before.output.len() + 1
    }
    &&& shows_search(
        after.output[at],
        call.id,
        status,
        call_query(call),
        results,
        before.include_fields.contains("web_search_call.action.sources"@),
    )
    &&& forall|i: int|
        0 <= i < before.output.len() && i != at ==> #[trigger] after.output[i] == before.output[i]
    &&& after.executed == before.executed.insert(call.id)
    &&& after == (StateView {
        messages: after.messages,
        persisted_messages: after.persisted_messages,
        output: after.output,
        executed: after.executed,
        executed_bytes: after.executed_bytes,
        ..before
    })
}

/// A turn is taken in whole, or ends the loop with a server error.
proof fn lemma_turn_is_taken_in(
    state: StateView,
    call: CallView,
    status: Seq<char>,
    results: Seq<ResultView>,
    arguments: Seq<char>,
    output: Seq<char>,
)
    ensures
        ({
            let after = turn_built(state, call, status, results, arguments, output);
            &&& !after.payload_failed ==> search_taken_in(
                state,
                after,
                call,
                status,
                results,
                arguments,
                output,
            )
            &&& state.payload_failed ==> after.payload_failed
            &&& after.payload_failed && !state.payload_failed ==> {
                &&& after.dispatch_failure is Some
                &&& after.dispatch_failure->0.status == 502
            }
        }),
{
    reveal(turn_built);
    let after = turn_built(state, call, status, results, arguments, output);
    let query = call_query(call);
    let pair = bridge_pair(bridge_id(call.id, query, call.ordinal as nat), arguments, output);
    let item = search_item(call.id, status, query, results, wants_sources(state));
    lemma_pair_tells_search(bridge_id(call.id, query, call.ordinal as nat), arguments, output);
    lemma_item_shows_search(call.id, status, query, results, wants_sources(state));
    if !after.payload_failed {
        assert(item.get_text("id"@) == Some(call.id));
        assert(after.messages == state.messages + pair);
        assert(after.messages.take(state.messages.len() as int) =~= state.messages);
        assert(after.persisted_messages.take(state.persisted_messages.len() as int)
            =~= state.persisted_messages);
        assert(after.messages.skip(state.messages.len() as int) =~= pair);
        assert(after.persisted_messages.skip(state.persisted_messages.len() as int) =~= pair);
        assert(after =~= (StateView {
            messages: after.messages,
            persisted_messages: after.persisted_messages,
            output: after.output,
            executed: after.executed,
            executed_bytes: after.executed_bytes,
            ..state
        }));
    }
}

/// Whether arguments are those of a call with a query.
pub open spec fn carries_query(arguments: Seq<char>, query: Seq<char>) -> bool {
    exists|value: JsonView|
        arguments == #[trigger] compact_text(value) && value.get("query"@) == Some(
            JsonView::String(query),
        )
}

/// The arguments of a search carry its query.
proof fn lemma_arguments_carry_query(query: Seq<char>)
    ensures
        carries_query(search_arguments(query), query),
{
    let value = JsonView::Object(Seq::empty().push(("query"@, JsonView::String(query))));
    lemma_position_is(value->Object_0, "query"@, 0);
    assert(search_arguments(query) == compact_text(value));
}

/// One search result as the model sees it, at a position counted from one.
pub open spec fn shown_result(result: ResultView, position: nat) -> Seq<char> {
    "["@ + decimal(position) + "] "@ + result.title + "\n"@ + result.url + "\n"@ + result.snippet
}

/// Whether a text holds a part at a place.
pub open spec fn holds_at(text: Seq<char>, at: int, part: Seq<char>) -> bool {
    0 <= at && at + part.len() <= text.len() && text.subrange(at, at + part.len()) == part
}

/// Whether a text holds search results at places, numbered and in order.
pub open spec fn holds_results(text: Seq<char>, results: Seq<ResultView>, places: Seq<int>) -> bool {
    &&& places.len() == results.len()
    &&& forall|i: int|
        0 <= i < results.len() ==> holds_at(
            text,
            #[trigger] places[i],
            shown_result(results[i], (i + 1) as nat),
        )
    &&& forall|i: int, j: int|
        0 <= i < j < results.len() ==> #[trigger] places[i] + shown_result(
            results[i],
            (i + 1) as nat,
        ).len() <= #[trigger] places[j]
}

/// Every search result reaches the model, with its title, its address and its
/// snippet, numbered from one and in the order in which the provider gave them.
pub proof fn lemma_every_result_is_shown(results: Seq<ResultView>)
    ensures
        exists|places: Seq<int>| #[trigger] holds_results(formatted_results(results), results, places),
    decreases results.len(),
{
    let text = formatted_results(results);
    if results.len() == 0 {
        assert(holds_results(text, results, Seq::empty()));
    } else {
        let front = results.drop_last();
        lemma_every_result_is_shown(front);
        let before = formatted_results(front);
        let places = choose|places: Seq<int>| #[trigger] holds_results(before, front, places);
        let last = shown_result(results.last(), results.len());
        let at = text.len() - last.len();
        if results.len() > 1 {
            assert(text == before + "\n\n"@ + last);
        }
        assert(holds_at(text, at, last)) by {
            assert(text.subrange(at, at + last.len()) =~= last);
        }
        let all = places.push(at);
        assert forall|i: int| 0 <= i < results.len() implies holds_at(
            text,
            #[trigger] all[i],
            shown_result(results[i], (i + 1) as nat),
        ) by {
            if i < front.len() {
                let part = shown_result(results[i], (i + 1) as nat);
                assert(front[i] == results[i]);
                assert(holds_at(before, places[i], part));
                assert(text.subrange(all[i], all[i] + part.len()) =~= before.subrange(
                    all[i],
                    all[i] + part.len(),
                ));
            }
        }
        assert forall|i: int, j: int| 0 <= i < j < results.len() implies #[trigger] all[i]
            + shown_result(results[i], (i + 1) as nat).len() <= #[trigger] all[j] by {
            assert(front[i] == results[i]);
            assert(holds_at(before, places[i], shown_result(results[i], (i + 1) as nat)));
            if j < front.len() {
                assert(all[i] == places[i] && all[j] == places[j]);
            }
        }
        assert(holds_results(text, results, all));
    }
}

/// What came of a dispatched search reaches the client and the model: results are a
/// completed search whose sources and texts are the provider's, in order; a failed
/// provider is a failed search of which the model is told. Unless the budget is
/// exceeded, which ends the loop with a server error, the item stands in its place
/// and nothing else changes.
pub proof fn lemma_outcome_is_told(state: StateView, call: CallView, outcome: DispatchView)
    ensures
        ({
            let after = outcome_appended(state, call, outcome);
            &&& !after.payload_failed ==> match outcome {
                DispatchView::Results(results) => exists|arguments: Seq<char>, output: Seq<char>|
                    {
                        &&& #[trigger] search_taken_in(
                            state,
                            after,
                            call,
                            "completed"@,
                            results,
                            arguments,
                            output,
                        )
                        &&& carries_query(arguments, call_query(call))
                        &&& if results.len() == 0 {
                            output == "No search results found."@
                        } else {
                            exists|places: Seq<int>| #[trigger] holds_results(output, results, places)
                        }
                    },
                DispatchView::RetainedLimitExceeded => false,
                DispatchView::Failed => exists|arguments: Seq<char>|
                    {
                        &&& #[trigger] search_taken_in(
                            state,
                            after,
                            call,
                            "failed"@,
                            Seq::empty(),
                            arguments,
                            "Web search unavailable."@,
                        )
                        &&& carries_query(arguments, call_query(call))
                    },
            }
            &&& after.payload_failed && !state.payload_failed ==> {
                &&& after.dispatch_failure is Some
                &&& after.dispatch_failure->0.status == 502
            }
        }),
{
    let after = outcome_appended(state, call, outcome);
    let arguments = search_arguments(call_query(call));
    lemma_arguments_carry_query(call_query(call));
    match outcome {
        DispatchView::Results(results) => {
            let output = if results.len() == 0 {
                "No search results found."@
            } else {
                formatted_results(results)
            };
            lemma_every_result_is_shown(results);
            lemma_turn_is_taken_in(state, call, "completed"@, results, arguments, output);
        },
        DispatchView::RetainedLimitExceeded => {},
        DispatchView::Failed => {
            lemma_turn_is_taken_in(
                state,
                call,
                "failed"@,
                Seq::empty(),
                arguments,
                "Web search unavailable."@,
            );
        },
    }
}

/// Whether a call's item stands in the output with a status.
pub open spec fn item_has_status(output: Seq<JsonView>, call: CallView, status: Seq<char>) -> bool {
    &&& call.output_index < output.len()
    &&& output[call.output_index as int].get("id"@) == Some(JsonView::String(call.id))
    &&& output[call.output_index as int].get("status"@) == Some(JsonView::String(status))
}

/// Whether searches have output items of their own, from a position on.
pub open spec fn have_own_items(calls: Seq<CallView>, from: int, items: nat) -> bool {
    &&& forall|p: int| from <= p < calls.len() ==> (#[trigger] calls[p]).output_index < items
    &&& forall|p: int, q: int|
        from <= p < q < calls.len() ==> (#[trigger] calls[p]).output_index != (
        #[trigger] calls[q]).output_index
}

/// Whether an output item belongs to one of the searches in a range.
pub open spec fn is_item_of(calls: Seq<CallView>, from: int, to: int, i: int) -> bool {
    exists|p: int| from <= p < to && (#[trigger] calls[p]).output_index == i
}

/// Between two provider requests no search is passed over in silence: each one that
/// is not dispatched is refused by the client's limit and failed, or is over the
/// provider budget or without a query and incomplete, and its item says so. What the
/// batch is made of stays, no other item changes, and without a next request every
/// search is settled or the budget is exceeded.
pub proof fn lemma_no_search_is_lost(run: RunView, state: StateView, ceiling: usize)
    requires
        run.position <= run.calls.len(),
        have_own_items(run.calls, run.position as int, state.output.len()),
    ensures
        ({
            let (after, held, task) = advanced(run, state, ceiling);
            &&& after == (RunView {
                position: after.position,
                tool_limit_exceeded: after.tool_limit_exceeded,
                ..run
            })
            &&& run.position <= after.position <= run.calls.len()
            &&& task is None ==> after.position == run.calls.len() || held.payload_failed
            &&& task is Some ==> !held.payload_failed && task->0.context_size == run.context_size
            &&& after.tool_limit_exceeded == (run.tool_limit_exceeded || exists|p: int|
                run.position <= p < after.position && !#[trigger] is_admitted(run, p))
            &&& !held.payload_failed ==> {
                &&& held.output.len() == state.output.len()
                &&& forall|p: int|
                    run.position <= p < after.position ==> if is_admitted(run, p) {
                        &&& item_has_status(held.output, #[trigger] run.calls[p], "incomplete"@)
                        &&& run.dispatched >= run.provider_budget || run.calls[p].query is None
                    } else {
                        item_has_status(held.output, run.calls[p], "failed"@)
                    }
                &&& forall|i: int|
                    0 <= i < state.output.len() && !is_item_of(
                        run.calls,
                        run.position as int,
                        after.position as int,
                        i,
                    ) ==> #[trigger] held.output[i] == state.output[i]
            }
        }),
    decreases run.calls.len() - run.position,
{
    if run.position < run.calls.len() && !state.payload_failed {
        let here = run.position as int;
        let call = run.calls[here];
        let moved = RunView { position: run.position + 1, ..run };
        let admitted = is_admitted(run, here);
        let next = if admitted {
            moved
        } else {
            RunView { tool_limit_exceeded: true, ..moved }
        };
        let refusal = "Web search was not executed because max_tool_calls was exhausted."@;
        let settled = if !admitted {
            failure_appended(state, call, refusal)
        } else if run.dispatched >= run.provider_budget {
            result_appended(state, call, "incomplete"@, Seq::empty())
        } else {
            incomplete_appended(state, call)
        };
        let status = if admitted {
            "incomplete"@
        } else {
            "failed"@
        };
        if !admitted || run.dispatched >= run.provider_budget || call.query is None {
            lemma_settled_has_status(state, call, refusal);
            let (after, held, task) = advanced(next, settled, ceiling);
            assert(advanced(run, state, ceiling) == (after, held, task));
            if settled.payload_failed {
                assert(after == next && held == settled && task is None);
                assert(run.position < after.position);
            } else {
                assert(settled.output.len() == state.output.len());
                assert(item_has_status(settled.output, call, status));
                lemma_no_search_is_lost(next, settled, ceiling);
                assert forall|p: int| is_admitted(next, p) == is_admitted(run, p) by {}
                if !held.payload_failed {
                    assert(!is_item_of(
                        run.calls,
                        here + 1,
                        after.position as int,
                        call.output_index as int,
                    ));
                    assert(held.output[call.output_index as int]
                        == settled.output[call.output_index as int]);
                    assert forall|p: int| run.position <= p < after.position implies if is_admitted(
                        run,
                        p,
                    ) {
                        &&& item_has_status(held.output, #[trigger] run.calls[p], "incomplete"@)
                        &&& run.dispatched >= run.provider_budget || run.calls[p].query is None
                    } else {
                        item_has_status(held.output, run.calls[p], "failed"@)
                    } by {
                        if p > here {
                            assert(is_admitted(next, p) == is_admitted(run, p));
                            assert(next.calls[p] == run.calls[p]);
                        }
                    }
                    assert forall|i: int|
                        0 <= i < state.output.len() && !is_item_of(
                            run.calls,
                            here,
                            after.position as int,
                            i,
                        ) implies #[trigger] held.output[i] == state.output[i] by {
                        if is_item_of(run.calls, here + 1, after.position as int, i) {
                            let p = choose|p: int|
                                here + 1 <= p < after.position && (
                                #[trigger] run.calls[p]).output_index == i;
                            assert(run.calls[p].output_index == i);
                        }
                        assert(run.calls[here].output_index != i);
                        assert(settled.output[i] == state.output[i]);
                    }
                }
            }
            if !admitted {
                assert(!is_admitted(run, here) && run.position <= here < after.position);
            } else {
                assert forall|p: int|
                    run.position <= p < after.position && !#[trigger] is_admitted(
                        run,
                        p,
                    ) implies next.position <= p && !is_admitted(next, p) by {}
                assert forall|p: int|
                    next.position <= p < after.position && !#[trigger] is_admitted(
                        next,
                        p,
                    ) implies !is_admitted(run, p) by {}
            }
        } else if let Some(query) = call.query {
            if response_limit(state, query, ceiling) is None {
                let failed = budget_failed(state, search_failure());
                assert(advanced(next, failed, ceiling) == (next, failed, None::<TaskView>));
                assert forall|p: int| run.position <= p < next.position implies is_admitted(
                    run,
                    p,
                ) by {}
            }
        }
    }
}

/// A search that is not dispatched has an item that says so, and no other item
/// changes.
proof fn lemma_settled_has_status(state: StateView, call: CallView, output: Seq<char>)
    requires
        call.output_index < state.output.len(),
    ensures
        ({
            let failed = failure_appended(state, call, output);
            &&& !failed.payload_failed ==> {
                &&& item_has_status(failed.output, call, "failed"@)
                &&& failed.output.len() == state.output.len()
                &&& forall|i: int|
                    0 <= i < state.output.len() && i != call.output_index
                        ==> #[trigger] failed.output[i] == state.output[i]
            }
        }),
        ({
            let excess = result_appended(state, call, "incomplete"@, Seq::empty());
            &&& !excess.payload_failed ==> {
                &&& item_has_status(excess.output, call, "incomplete"@)
                &&& excess.output.len() == state.output.len()
                &&& forall|i: int|
                    0 <= i < state.output.len() && i != call.output_index
                        ==> #[trigger] excess.output[i] == state.output[i]
            }
        }),
        ({
            let blank = incomplete_appended(state, call);
            &&& !blank.payload_failed ==> {
                &&& item_has_status(blank.output, call, "incomplete"@)
                &&& blank.output.len() == state.output.len()
                &&& forall|i: int|
                    0 <= i < state.output.len() && i != call.output_index
                        ==> #[trigger] blank.output[i] == state.output[i]
            }
        }),
{
    let arguments = search_arguments(call_query(call));
    lemma_turn_is_taken_in(state, call, "failed"@, Seq::empty(), arguments, output);
    lemma_turn_is_taken_in(
        state,
        call,
        "incomplete"@,
        Seq::empty(),
        arguments,
        search_output("incomplete"@, Seq::empty()),
    );
    lemma_turn_is_taken_in(
        state,
        call,
        "incomplete"@,
        Seq::empty(),
        "{}"@,
        "Web search could not run because the query was missing."@,
    );
}

/// A search that was not performed is told as such: refused by the client's limit,
/// over the provider budget, or without a query.
pub proof fn lemma_model_is_told_the_truth(state: StateView, call: CallView)
    ensures
        ({
            let after = failure_appended(
                state,
                call,
                "Web search was not executed because max_tool_calls was exhausted."@,
            );
            !after.payload_failed ==> exists|arguments: Seq<char>|
                #[trigger] search_taken_in(
                    state,
                    after,
                    call,
                    "failed"@,
                    Seq::empty(),
                    arguments,
                    "Web search was not executed because max_tool_calls was exhausted."@,
                )
        }),
        ({
            let after = result_appended(state, call, "incomplete"@, Seq::empty());
            !after.payload_failed ==> exists|arguments: Seq<char>|
                #[trigger] search_taken_in(
                    state,
                    after,
                    call,
                    "incomplete"@,
                    Seq::empty(),
                    arguments,
                    "Web search not performed."@,
                )
        }),
        ({
            let after = incomplete_appended(state, call);
            !after.payload_failed ==> exists|arguments: Seq<char>|
                #[trigger] search_taken_in(
                    state,
                    after,
                    call,
                    "incomplete"@,
                    Seq::empty(),
                    arguments,
                    "Web search could not run because the query was missing."@,
                )
        }),
{
    reveal_strlit("incomplete");
    reveal_strlit("completed");
    assert("incomplete"@.len() == 10 && "completed"@.len() == 9);
    let arguments = search_arguments(call_query(call));
    lemma_turn_is_taken_in(
        state,
        call,
        "failed"@,
        Seq::empty(),
        arguments,
        "Web search was not executed because max_tool_calls was exhausted."@,
    );
    lemma_turn_is_taken_in(
        state,
        call,
        "incomplete"@,
        Seq::empty(),
        arguments,
        "Web search not performed."@,
    );
    lemma_turn_is_taken_in(
        state,
        call,
        "incomplete"@,
        Seq::empty(),
        "{}"@,
        "Web search could not run because the query was missing."@,
    );
}

/// The searches that are taken over are the pending ones, in order, each with the id
/// and the query of its own output item; the pending list is empty after it and
/// nothing but the payload held outside changes.
pub proof fn lemma_pending_searches_are_read(state: StateView)
    requires
        taken_calls(state) is Some,
    ensures
        ({
            let calls = (taken_calls(state)->0).0;
            &&& calls.len() == state.searches.len()
            &&& forall|i: int|
                0 <= i < calls.len() ==> {
                    let call = #[trigger] calls[i];
                    let item = state.output[state.searches[i].output_index as int];
                    &&& call.output_index == state.searches[i].output_index
                    &&& call.output_index < state.output.len()
                    &&& call.ordinal == state.searches[i].ordinal
                    &&& match item.get("id"@) {
                        Some(JsonView::String(id)) => call.id == id,
                        _ => call.id == "ws_unknown"@,
                    }
                    &&& match item.get("action"@) {
                        Some(action) => match action.get("query"@) {
                            Some(JsonView::String(query)) => call.query == Some(query),
                            _ => call.query is None,
                        },
                        None => call.query is None,
                    }
                }
            &&& calls_taken(state) == (StateView {
                searches: Seq::empty(),
                external: calls_taken(state).external,
                ..state
            })
            &&& calls_taken(state).external == state.external + (taken_calls(state)->0).1
        }),
{
    let calls = calls_of(state.output, state.searches);
    assert forall|i: int| 0 <= i < calls.len() implies (
    #[trigger] calls[i]).output_index < state.output.len() by {
        assert(state.searches[i].output_index < state.output.len());
    }
}

/// A batch gives back what it held: once it is finished, the payload held outside is
/// what it was before, the provider requests that were made are counted, and a search
/// that the client's limit refused is remembered.
pub proof fn lemma_batch_gives_back(state: StateView, run: RunView)
    requires
        taken_calls(state) is Some,
        run.calls_bytes == (taken_calls(state)->0).1,
    ensures
        ({
            let after = run_finished(run, calls_taken(state));
            &&& after.external == state.external
            &&& after.searches.len() == 0
            &&& state.searches_executed + run.dispatched <= u32::MAX ==> after.searches_executed
                == state.searches_executed + run.dispatched
            &&& after.searches_executed >= state.searches_executed
            &&& after.tool_limit == (state.tool_limit || run.tool_limit_exceeded)
            &&& after.output == state.output
            &&& after.messages == state.messages
            &&& after.persisted_messages == state.persisted_messages
        }),
{
}

/// A batch begins with its first search and nothing dispatched, and settling one
/// search is one step and one provider request.
pub proof fn lemma_outcomes_are_counted(run: RunView)
    ensures
        run_after_outcome(run).position == run.position + 1,
        run.dispatched < usize::MAX ==> run_after_outcome(run).dispatched == run.dispatched + 1,
        run_after_outcome(run).calls == run.calls,
        ({
            let fresh = run_of(
                run.calls,
                run.calls_bytes,
                run.admissions,
                run.provider_budget,
                run.context_size,
            );
            fresh.position == 0 && fresh.dispatched == 0 && !fresh.tool_limit_exceeded
                && fresh.calls == run.calls && fresh.admissions == run.admissions
                && fresh.provider_budget == run.provider_budget
        }),
{
}

/// The budget of a continuation is the most that the client's allowance and the
/// server's cap of sixty-four leave: not one search over either of them, and not one
/// under both.
pub proof fn lemma_budget_is_what_is_left(max_tool_calls: Option<u64>, used: usize)
    ensures
        ({
            let budget = search_budget(max_tool_calls, used);
            &&& budget <= 64
            &&& match max_tool_calls {
                None => budget == 64,
                Some(max) => {
                    &&& used <= max ==> used + budget <= max
                    &&& used >= max ==> budget == 0
                    &&& budget == 64 || used + budget >= max
                },
            }
        }),
{
}

/// The size that an answer may have is the largest that its share allows: thirty-two
/// times it fits what is left of the budget beside the request, and thirty-two times
/// one byte more does not, unless it is at the ceiling.
pub proof fn lemma_response_share_is_largest(state: StateView, query: Seq<char>, ceiling: usize)
    ensures
        match (state.limit, response_limit(state, query, ceiling)) {
            (None, share) => share == Some(ceiling),
            (Some(limit), Some(share)) => {
                let used = retained_bytes(state) + utf8(query).len() * 8 + 4096;
                &&& share <= ceiling
                &&& used + 32 * share <= limit
                &&& share == ceiling || used + 32 * (share + 1) > limit
            },
            (Some(limit), None) => retained_bytes(state) + utf8(query).len() * 8 + 4096 + 32 > limit,
        },
{
}

/// Whether a tool is a web search that asks for a context size.
pub open spec fn asks_for_size(tool: JsonView) -> bool {
    &&& tool.get("type"@) == Some(JsonView::String("web_search"@)) || tool.get("type"@) == Some(
        JsonView::String("web_search_preview"@),
    ) || tool.get("type"@) == Some(JsonView::String("web_search_preview_2025_03_11"@)) || tool.get(
        "type"@,
    ) == Some(JsonView::String("web_search_2025_08_26"@))
    &&& tool.get("search_context_size"@) is Some
    &&& tool.get("search_context_size"@)->0 is String
}

/// The context size of a request's tools is that of the first web search among them
/// that asks for one.
pub proof fn lemma_first_size_counts(tools: Seq<JsonView>, from: int)
    requires
        0 <= from <= tools.len(),
    ensures
        match first_tool_size(tools, from) {
            Some(size) => exists|i: int|
                {
                    &&& from <= i < tools.len()
                    &&& asks_for_size(#[trigger] tools[i])
                    &&& tools[i].get("search_context_size"@) == Some(JsonView::String(size))
                    &&& forall|j: int| from <= j < i ==> !asks_for_size(#[trigger] tools[j])
                },
            None => forall|j: int| from <= j < tools.len() ==> !asks_for_size(#[trigger] tools[j]),
        },
    decreases tools.len() - from,
{
    if from < tools.len() {
        assert((tool_size(tools[from]) is Some) == asks_for_size(tools[from]));
        if tool_size(tools[from]) is None {
            lemma_first_size_counts(tools, from + 1);
        } else {
            assert(asks_for_size(tools[from]));
        }
    }
}

/// The context size of a request is the one that its metadata name, else the one that
/// its tools ask for, else the default; an unknown name is taken for medium.
pub proof fn lemma_request_size(
    metadata: Option<Seq<char>>,
    tools: Seq<JsonView>,
    default: SearchContextSize,
)
    ensures
        metadata == Some("low"@) ==> request_size(metadata, tools, default)
            == SearchContextSize::Low,
        metadata == Some("high"@) ==> request_size(metadata, tools, default)
            == SearchContextSize::High,
        metadata is Some && metadata->0 != "low"@ && metadata->0 != "high"@ ==> request_size(
            metadata,
            tools,
            default,
        ) == SearchContextSize::Medium,
        metadata is None && first_tool_size(tools, 0) is None ==> request_size(
            metadata,
            tools,
            default,
        ) == default,
        metadata is None && first_tool_size(tools, 0) is Some ==> request_size(
            metadata,
            tools,
            default,
        ) == request_size(first_tool_size(tools, 0), Seq::empty(), default),
{
    if let Some(name) = metadata {
        lemma_larger_context_asks_for_more(name);
    }
}

/// The payload of pending searches is that of their ids and queries, and that of
/// results that of their titles, addresses and snippets: each one more counts its own.
pub proof fn lemma_payload_counts(
    calls: Seq<CallView>,
    call: CallView,
    results: Seq<ResultView>,
    result: ResultView,
)
    ensures
        calls_bytes(Seq::empty()) == 0,
        calls_bytes(calls.push(call)) == calls_bytes(calls) + utf8(call.id).len() + match call.query {
            Some(query) => utf8(query).len(),
            None => 0,
        },
        results_bytes(Seq::empty()) == 0,
        results_bytes(results.push(result)) == results_bytes(results) + utf8(result.title).len()
            + utf8(result.url).len() + utf8(result.snippet).len(),
{
    assert(calls.push(call).drop_last() =~= calls);
    assert(results.push(result).drop_last() =~= results);
}

/// A continuation begins with its pending searches: without any there is no batch and
/// nothing changes; pending ones that do not fit end the loop with a server error; and
/// else the batch holds all of them, with the decisions of the client's limit where it
/// set one, and the budget that is left.
pub proof fn lemma_continuation_begins(
    state: StateView,
    admissions: Option<Seq<bool>>,
    used: usize,
    size: SearchContextSize,
)
    ensures
        ({
            let (after, run) = begun(state, admissions, used, size);
            &&& state.searches.len() == 0 ==> after == state && run is None
            &&& state.searches.len() > 0 && taken_calls(state) is None ==> {
                &&& run is None
                &&& after.payload_failed
                &&& after.dispatch_failure is Some
                &&& after.dispatch_failure->0.status == 502
            }
            &&& state.searches.len() > 0 && taken_calls(state) is Some ==> {
                &&& run is Some
                &&& run->0.calls == (taken_calls(state)->0).0
                &&& run->0.calls_bytes == (taken_calls(state)->0).1
                &&& run->0.position == 0 && run->0.dispatched == 0 && !run->0.tool_limit_exceeded
                &&& run->0.context_size == size
                &&& run->0.provider_budget == search_budget(state.max_tool_calls, used)
                &&& state.max_tool_calls is Some ==> run->0.admissions == admissions
                &&& state.max_tool_calls is None ==> run->0.admissions is None
                &&& after == calls_taken(state)
            }
        }),
{
}

/// A search is admitted unless there is a decision against it.
pub proof fn lemma_admission(run: RunView, position: int)
    requires
        0 <= position,
    ensures
        !is_admitted(run, position) <==> run.admissions is Some && position
            < run.admissions->0.len() && !run.admissions->0[position],
{
}

} // verus!
