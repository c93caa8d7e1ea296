//! What holds of every orchestrated request: the model's calls become searches one
//! by one, their results reach the model, and nothing else of the request is lost.

use vstd::prelude::*;

use crate::json::{
    lemma_get_with, lemma_get_with_other, lemma_position_absent, lemma_position_is, JsonView,
};
use crate::json_text::{compact_text, parsed};
use crate::openai::web_search::orchestrator::{
    answer_taken, any_search_tool, asks_for_search, body_decision, bounded_error, call_output, call_outputs, calls_among, calls_in,
    decision_on, inputs_of, is_search_call, is_search_tool, key_in, normalized_tools, output_of,
    passed_fields, response_taken, search_function, search_of, search_parameters, search_result, searches_of,
    service_output, service_request, started, startup_error, tools_of, usable_query, with_normalized_tools, with_outputs,
    without_slashes, DecisionView, OrchestrationView, ServiceSearchView, StepView, WebSearchConfig,
};
use crate::text::{trimmed, utf8};

verus! {

/// The names in what the model is told of a search are different.
proof fn lemma_told_names()
    ensures
        "query"@ != "results"@,
        "query"@ != "metadata"@,
        "results"@ != "metadata"@,
        "web"@ != "news"@,
        "type"@ != "call_id"@,
        "type"@ != "output"@,
        "call_id"@ != "output"@,
        "tools"@ != "stream"@,
        "tools"@ != "input"@,
        "stream"@ != "input"@,
        "call_id"@ != "arguments"@,
        "type"@ != "role"@,
        "type"@ != "content"@,
        "role"@ != "content"@,
        "type"@ != "name"@,
{
    reveal_strlit("query");
    reveal_strlit("results");
    reveal_strlit("metadata");
    reveal_strlit("web");
    reveal_strlit("news");
    reveal_strlit("type");
    reveal_strlit("call_id");
    reveal_strlit("output");
    reveal_strlit("tools");
    reveal_strlit("stream");
    reveal_strlit("input");
    reveal_strlit("arguments");
    reveal_strlit("role");
    reveal_strlit("content");
    reveal_strlit("name");
    assert("query"@.len() == 5 && "results"@.len() == 7 && "metadata"@.len() == 8);
    assert("web"@.len() == 3 && "news"@.len() == 4);
    assert("type"@.len() == 4 && "call_id"@.len() == 7 && "output"@.len() == 6);
    assert("tools"@.len() == 5 && "stream"@.len() == 6 && "input"@.len() == 5);
    assert("tools"@[0] == 't' && "input"@[0] == 'i');
    assert("arguments"@.len() == 9 && "role"@.len() == 4 && "content"@.len() == 7);
    assert("name"@.len() == 4);
    assert("type"@[0] == 't' && "role"@[0] == 'r' && "name"@[0] == 'n');
}

/// Whether a value tells the model of a search: the query, the results that the
/// service gave, and its metadata. Only an answer without results gives empty lists.
pub open spec fn tells_results(told: JsonView, query: Seq<char>, answer: JsonView) -> bool {
    &&& told.get("query"@) == Some(JsonView::String(query))
    &&& answer.get("results"@) is Some ==> told.get("results"@) == answer.get("results"@)
    &&& answer.get("results"@) is None ==> {
        &&& told.get("results"@) is Some
        &&& told.get("results"@)->0.get("web"@) == Some(JsonView::Array(Seq::empty()))
        &&& told.get("results"@)->0.get("news"@) == Some(JsonView::Array(Seq::empty()))
    }
    &&& answer.get("metadata"@) is Some ==> told.get("metadata"@) == answer.get("metadata"@)
    &&& answer.get("metadata"@) is None ==> told.get("metadata"@) == Some(JsonView::Null)
}

/// What the search service found reaches the model: of every answer with a success
/// status that is JSON, the model is given the text of a value that holds the query,
/// and the results and metadata exactly as the service gave them. Every other answer
/// is an error.
pub proof fn lemma_results_reach_model(
    query: Seq<char>,
    status: u16,
    status_text: Seq<char>,
    body: Seq<char>,
    answer: Result<JsonView, Seq<char>>,
)
    ensures
        ({
            let result = search_result(query, status, status_text, body, answer);
            &&& result is Ok <==> 200 <= status <= 299 && answer is Ok
            &&& result is Ok ==> exists|told: JsonView|
                result->Ok_0 == #[trigger] compact_text(told) && tells_results(
                    told,
                    query,
                    answer->Ok_0,
                )
        }),
{
    if 200 <= status <= 299 {
        if let Ok(answer) = answer {
            lemma_told_names();
            let told = service_output(query, answer);
            let members = told->Object_0;
            lemma_position_is(members, "query"@, 0);
            lemma_position_is(members, "results"@, 1);
            lemma_position_is(members, "metadata"@, 2);
            if answer.get("results"@) is None {
                let none = told.get("results"@)->0->Object_0;
                lemma_position_is(none, "web"@, 0);
                lemma_position_is(none, "news"@, 1);
            }
            assert(tells_results(told, query, answer));
            assert(search_result(query, status, status_text, body, Ok(answer))->Ok_0
                == compact_text(told));
        }
    }
}

/// The items that a response lists.
pub open spec fn told_items(response: JsonView) -> Seq<JsonView> {
    match response.get("output"@) {
        Some(JsonView::Array(items)) => items,
        _ => Seq::empty(),
    }
}

/// Whether an output item is a finished call of the search function.
pub open spec fn calls_search(item: JsonView) -> bool {
    &&& item.get("type"@) == Some(JsonView::String("function_call"@))
    &&& item.get("name"@) == Some(JsonView::String("web_search"@))
    &&& item.get("status"@) == Some(JsonView::String("completed"@))
}

/// How many of the first `n` output items call the search function.
pub open spec fn calls_before(output: Seq<JsonView>, n: int) -> nat
    decreases n,
{
    if n <= 0 {
        0
    } else if calls_search(output[n - 1]) {
        calls_before(output, n - 1) + 1
    } else {
        calls_before(output, n - 1)
    }
}

/// Whether a name is that of an option that the search service understands.
pub open spec fn is_search_option(name: Seq<char>) -> bool {
    ||| name == "count"@
    ||| name == "freshness"@
    ||| name == "country"@
    ||| name == "language"@
    ||| name == "safesearch"@
    ||| name == "livecrawl"@
    ||| name == "livecrawl_formats"@
    ||| name == "crawl_timeout"@
    ||| name == "include_domains"@
    ||| name == "exclude_domains"@
    ||| name == "boost_domains"@
}

/// Whether a search is the one that a call asks for: it answers the call, and the
/// service is sent the call's query and the options that the call gives, no more.
pub open spec fn serves_call(search: ServiceSearchView, item: JsonView) -> bool {
    &&& item.get("call_id"@) == Some(JsonView::String(search.call_id))
    &&& item.get("arguments"@) is Some
    &&& item.get("arguments"@)->0 is String
    &&& {
        let args = parsed(utf8(item.get("arguments"@)->0->String_0));
        &&& args is Ok
        &&& args->Ok_0.get("query"@) == Some(JsonView::String(search.query))
        &&& search.request is Object
        &&& search.request.get("query"@) == Some(JsonView::String(search.query))
        &&& forall|name: Seq<char>|
            #![trigger search.request.get(name)]
            is_search_option(name) ==> search.request.get(name) == args->Ok_0.get(name)
        &&& forall|name: Seq<char>|
            #![trigger search.request.get(name)]
            !is_search_option(name) && name != "query"@ ==> search.request.get(name) is None
    }
}

/// No option is the query.
proof fn lemma_query_is_no_option()
    ensures
        !is_search_option("query"@),
{
    reveal_strlit("query");
    reveal_strlit("count");
    reveal_strlit("freshness");
    reveal_strlit("country");
    reveal_strlit("language");
    reveal_strlit("safesearch");
    reveal_strlit("livecrawl");
    reveal_strlit("livecrawl_formats");
    reveal_strlit("crawl_timeout");
    reveal_strlit("include_domains");
    reveal_strlit("exclude_domains");
    reveal_strlit("boost_domains");
    assert("query"@.len() == 5 && "query"@[0] == 'q');
    assert("count"@.len() == 5 && "count"@[0] == 'c');
    assert("freshness"@.len() == 9);
    assert("country"@.len() == 7);
    assert("language"@.len() == 8);
    assert("safesearch"@.len() == 10);
    assert("livecrawl"@.len() == 9);
    assert("livecrawl_formats"@.len() == 17);
    assert("crawl_timeout"@.len() == 13);
    assert("include_domains"@.len() == 15);
    assert("exclude_domains"@.len() == 15);
    assert("boost_domains"@.len() == 13);
}

/// The first `n` fields are passed on as they are given, and nothing else but the
/// query.
proof fn lemma_fields_are_passed(args: JsonView, query: Seq<char>, n: int)
    requires
        0 <= n <= 11,
    ensures
        ({
            let request = service_request(args, query, n);
            &&& request is Object
            &&& request.get("query"@) == Some(JsonView::String(query))
            &&& forall|name: Seq<char>|
                #![trigger request.get(name)]
                name != "query"@ ==> request.get(name) == if passed_fields().take(n).contains(
                    name,
                ) {
                    args.get(name)
                } else {
                    None
                }
        }),
    decreases n,
{
    lemma_query_is_no_option();
    let fields = passed_fields();
    assert(fields.len() == 11);
    if n == 0 {
        let request = service_request(args, query, 0);
        lemma_position_is(request->Object_0, "query"@, 0);
        assert forall|name: Seq<char>| name != "query"@ implies #[trigger] request.get(
            name,
        ) is None by {
            lemma_position_absent(request->Object_0, name);
        }
        assert(fields.take(0) =~= Seq::empty());
    } else {
        lemma_fields_are_passed(args, query, n - 1);
        let front = service_request(args, query, n - 1);
        let request = service_request(args, query, n);
        let field = fields[n - 1];
        assert(is_search_option(field));
        assert(fields.take(n) =~= fields.take(n - 1).push(field));
        assert forall|name: Seq<char>| name != "query"@ implies #[trigger] request.get(name)
            == if fields.take(n).contains(name) {
            args.get(name)
        } else {
            None
        } by {
            lemma_pushed(fields.take(n - 1), field, name);
            if let Some(value) = args.get(field) {
                if name == field {
                    lemma_get_with(front, field, value);
                } else {
                    lemma_get_with_other(front, field, value, name);
                }
            }
            assert(front.get(name) == if fields.take(n - 1).contains(name) {
                args.get(name)
            } else {
                None
            });
        }
        if let Some(value) = args.get(field) {
            lemma_get_with_other(front, field, value, "query"@);
        }
    }
}

/// What one more name adds.
proof fn lemma_pushed(names: Seq<Seq<char>>, name: Seq<char>, other: Seq<char>)
    ensures
        names.push(name).contains(other) == (names.contains(other) || other == name),
{
    let more = names.push(name);
    if names.contains(other) {
        let i = choose|i: int| 0 <= i < names.len() && names[i] == other;
        assert(more[i] == other);
    }
    assert(more[names.len() as int] == name);
    if more.contains(other) {
        let i = choose|i: int| 0 <= i < more.len() && more[i] == other;
        if i < names.len() {
            assert(names[i] == other);
        }
    }
}

/// The fields that are passed on are the options of the search service.
proof fn lemma_fields_are_options(name: Seq<char>)
    ensures
        passed_fields().contains(name) == is_search_option(name),
{
    let fields = passed_fields();
    assert(fields[0] == "count"@ && fields[1] == "freshness"@ && fields[2] == "country"@);
    assert(fields[3] == "language"@ && fields[4] == "safesearch"@ && fields[5] == "livecrawl"@);
    assert(fields[6] == "livecrawl_formats"@ && fields[7] == "crawl_timeout"@);
    assert(fields[8] == "include_domains"@ && fields[9] == "exclude_domains"@);
    assert(fields[10] == "boost_domains"@);
    assert(fields.len() == 11);
}

/// The search of a call with its arguments.
proof fn lemma_search_serves_call(item: JsonView, args: JsonView)
    requires
        item is Object,
        item.get("arguments"@) is Some,
        item.get("arguments"@)->0 is String,
        parsed(utf8(item.get("arguments"@)->0->String_0)) == Ok::<JsonView, Seq<char>>(args),
        search_of(item.with("arguments"@, args)) is Ok,
    ensures
        serves_call(search_of(item.with("arguments"@, args))->Ok_0, item),
{
    lemma_told_names();
    let call = item.with("arguments"@, args);
    lemma_get_with(item, "arguments"@, args);
    lemma_get_with_other(item, "arguments"@, args, "call_id"@);
    let query = usable_query(args)->0;
    lemma_fields_are_passed(args, query, 11);
    assert(passed_fields().take(11) =~= passed_fields());
    let request = service_request(args, query, 11);
    assert forall|name: Seq<char>| name != "query"@ implies #[trigger] request.get(name)
        == if is_search_option(name) {
        args.get(name)
    } else {
        None
    } by {
        lemma_fields_are_options(name);
    }
    lemma_query_is_no_option();
}

/// The calls of a response, one by one and in order.
proof fn lemma_calls_in_order(output: Seq<JsonView>, n: int)
    requires
        0 <= n <= output.len(),
        calls_among(output, n) is Ok,
    ensures
        ({
            let calls = calls_among(output, n)->Ok_0;
            &&& calls.len() == calls_before(output, n)
            &&& forall|i: int|
                0 <= i < n && calls_search(#[trigger] output[i]) ==> {
                    let item = output[i];
                    &&& calls_before(output, i) < calls.len()
                    &&& item.get("arguments"@) is Some
                    &&& item.get("arguments"@)->0 is String
                    &&& parsed(utf8(item.get("arguments"@)->0->String_0)) is Ok
                    &&& calls[calls_before(output, i) as int] == item.with(
                        "arguments"@,
                        parsed(utf8(item.get("arguments"@)->0->String_0))->Ok_0,
                    )
                }
        }),
    decreases n,
{
    if n > 0 {
        lemma_calls_in_order(output, n - 1);
        let front = calls_among(output, n - 1)->Ok_0;
        let calls = calls_among(output, n)->Ok_0;
        let item = output[n - 1];
        assert(is_search_call(item) == calls_search(item));
        assert forall|i: int| 0 <= i < n && calls_search(#[trigger] output[i]) implies {
            let item = output[i];
            &&& calls_before(output, i) < calls.len()
            &&& item.get("arguments"@) is Some
            &&& item.get("arguments"@)->0 is String
            &&& parsed(utf8(item.get("arguments"@)->0->String_0)) is Ok
            &&& calls[calls_before(output, i) as int] == item.with(
                "arguments"@,
                parsed(utf8(item.get("arguments"@)->0->String_0))->Ok_0,
            )
        } by {
            if i < n - 1 {
                assert(calls[calls_before(output, i) as int] == front[calls_before(
                    output,
                    i,
                ) as int]);
            }
        }
    }
}

/// The searches of calls, one by one and in order.
proof fn lemma_searches_in_order(calls: Seq<JsonView>, n: int)
    requires
        0 <= n <= calls.len(),
        searches_of(calls, n) is Ok,
    ensures
        searches_of(calls, n)->Ok_0.len() == n,
        forall|k: int|
            0 <= k < n ==> #[trigger] search_of(calls[k]) == Ok::<ServiceSearchView, Seq<char>>(
                searches_of(calls, n)->Ok_0[k],
            ),
    decreases n,
{
    if n > 0 {
        lemma_searches_in_order(calls, n - 1);
    }
}

/// Where another round follows, the model's calls are served one by one and in
/// order: there is one search for each finished call of the search function, it
/// answers that call, and the service is sent the query and the options of the call's
/// own arguments. The response is the answer exactly where it holds no such call.
pub proof fn lemma_calls_are_served(run: OrchestrationView, response: JsonView)
    ensures
        ({
            let output = told_items(response);
            let count = calls_before(output, output.len() as int);
            match response_taken(run, response).1 {
                Ok(StepView::Finished(answer)) => answer == response && count == 0,
                Ok(StepView::Search(searches)) => {
                    &&& count > 0
                    &&& searches.len() == count
                    &&& forall|i: int|
                        0 <= i < output.len() && calls_search(#[trigger] output[i])
                            ==> serves_call(searches[calls_before(output, i) as int], output[i])
                },
                Err(_) => count > 0,
            }
        }),
{
    let output = told_items(response);
    assert(output == output_of(response));
    let n = output.len() as int;
    if calls_among(output, n) is Err {
        lemma_some_call(output, n);
    }
    if let Ok(calls) = calls_in(response) {
        lemma_calls_in_order(output, n);
        if let Ok(searches) = searches_of(calls, calls.len() as int) {
            lemma_searches_in_order(calls, calls.len() as int);
            assert forall|i: int| 0 <= i < output.len() && calls_search(
                #[trigger] output[i],
            ) implies serves_call(searches[calls_before(output, i) as int], output[i]) by {
                let item = output[i];
                let args = parsed(utf8(item.get("arguments"@)->0->String_0))->Ok_0;
                let k = calls_before(output, i) as int;
                assert(calls[k] == item.with("arguments"@, args));
                assert(search_of(calls[k]) == Ok::<ServiceSearchView, Seq<char>>(searches[k]));
                lemma_search_serves_call(item, args);
            }
        }
    }
}

/// A call that cannot be read is a call.
proof fn lemma_some_call(output: Seq<JsonView>, n: int)
    requires
        0 <= n <= output.len(),
        calls_among(output, n) is Err,
    ensures
        calls_before(output, n) > 0,
    decreases n,
{
    if n > 0 && calls_among(output, n - 1) is Err {
        lemma_some_call(output, n - 1);
    }
}

/// The outputs of searches are handed back by call: each says which call it answers
/// and what came of it, in order.
pub proof fn lemma_outputs_answer_calls(outputs: Seq<(String, String)>)
    ensures
        call_outputs(outputs).len() == outputs.len(),
        forall|k: int|
            0 <= k < outputs.len() ==> {
                let item = #[trigger] call_outputs(outputs)[k];
                &&& item.get("type"@) == Some(JsonView::String("function_call_output"@))
                &&& item.get("call_id"@) == Some(JsonView::String(outputs[k].0@))
                &&& item.get("output"@) == Some(JsonView::String(outputs[k].1@))
            },
{
    lemma_told_names();
    assert forall|k: int| 0 <= k < outputs.len() implies {
        let item = #[trigger] call_outputs(outputs)[k];
        &&& item.get("type"@) == Some(JsonView::String("function_call_output"@))
        &&& item.get("call_id"@) == Some(JsonView::String(outputs[k].0@))
        &&& item.get("output"@) == Some(JsonView::String(outputs[k].1@))
    } by {
        let members = call_output(outputs[k].0@, outputs[k].1@)->Object_0;
        lemma_position_is(members, "type"@, 0);
        lemma_position_is(members, "call_id"@, 1);
        lemma_position_is(members, "output"@, 2);
    }
}

/// Whether a tool is a hosted web search.
pub open spec fn is_hosted_search(tool: JsonView) -> bool {
    ||| tool.get("type"@) == Some(JsonView::String("web_search"@))
    ||| tool.get("type"@) == Some(JsonView::String("web_search_preview"@))
    ||| tool.get("type"@) == Some(JsonView::String("web_search_preview_2025_03_11"@))
    ||| tool.get("type"@) == Some(JsonView::String("web_search_2025_08_26"@))
}

/// The tools that are no hosted web search, in order.
pub open spec fn other_tools(tools: Seq<JsonView>) -> Seq<JsonView>
    decreases tools.len(),
{
    if tools.len() == 0 {
        Seq::empty()
    } else if is_hosted_search(tools.last()) {
        other_tools(tools.drop_last())
    } else {
        other_tools(tools.drop_last()).push(tools.last())
    }
}

/// Tools that hold no hosted web search are all others.
proof fn lemma_all_others(tools: Seq<JsonView>)
    requires
        forall|i: int| 0 <= i < tools.len() ==> !is_hosted_search(#[trigger] tools[i]),
    ensures
        other_tools(tools) == tools,
        !any_search_tool(tools),
    decreases tools.len(),
{
    if tools.len() > 0 {
        lemma_all_others(tools.drop_last());
        assert(!is_hosted_search(tools[tools.len() - 1]));
        assert(tools.drop_last().push(tools.last()) =~= tools);
    }
}

/// The model is offered one function in place of all hosted web searches, where the
/// first of them stood; every other tool stays, in its place.
pub proof fn lemma_other_tools_are_kept(tools: Seq<JsonView>, first: int)
    requires
        0 <= first < tools.len(),
        is_hosted_search(tools[first]),
        forall|i: int| 0 <= i < first ==> !is_hosted_search(#[trigger] tools[i]),
    ensures
        ({
            let normal = normalized_tools(tools);
            &&& normal.len() == first + 1 + other_tools(tools.skip(first + 1)).len()
            &&& normal.take(first) == tools.take(first)
            &&& normal[first].get("type"@) == Some(JsonView::String("function"@))
            &&& normal[first].get("name"@) == Some(JsonView::String("web_search"@))
            &&& normal.skip(first + 1) == other_tools(tools.skip(first + 1))
        }),
{
    lemma_told_names();
    lemma_position_is(search_function()->Object_0, "type"@, 0);
    lemma_position_is(search_function()->Object_0, "name"@, 1);
    lemma_tools_from(tools, first, tools.len() as int);
    assert(tools.take(tools.len() as int) =~= tools);
    let rest = other_tools(tools.skip(first + 1));
    assert(tools.subrange(first + 1, tools.len() as int) =~= tools.skip(first + 1));
    let normal = normalized_tools(tools);
    assert(normal =~= tools.take(first).push(search_function()) + rest);
    assert(normal.take(first) =~= tools.take(first));
    assert(normal.skip(first + 1) =~= rest);
}

/// The tools up to `n`, once a hosted web search was among them.
proof fn lemma_tools_from(tools: Seq<JsonView>, first: int, n: int)
    requires
        0 <= first < n <= tools.len(),
        is_hosted_search(tools[first]),
        forall|i: int| 0 <= i < first ==> !is_hosted_search(#[trigger] tools[i]),
    ensures
        normalized_tools(tools.take(n)) == tools.take(first).push(search_function())
            + other_tools(tools.subrange(first + 1, n)),
        any_search_tool(tools.take(n)),
    decreases n,
{
    let upto = tools.take(n);
    assert(upto.drop_last() =~= tools.take(n - 1));
    assert(upto.last() == tools[n - 1]);
    assert(is_search_tool(tools[n - 1]) == is_hosted_search(tools[n - 1]));
    if n == first + 1 {
        let before = tools.take(first);
        assert forall|i: int| 0 <= i < before.len() implies !is_hosted_search(
            #[trigger] before[i],
        ) by {
            assert(before[i] == tools[i]);
        }
        lemma_all_others(before);
        lemma_untouched(before);
        assert(tools.subrange(first + 1, n) =~= Seq::empty());
        assert(tools.take(first).push(search_function()) + Seq::<JsonView>::empty()
            =~= tools.take(first).push(search_function()));
    } else {
        lemma_tools_from(tools, first, n - 1);
        let rest = tools.subrange(first + 1, n);
        assert(rest.drop_last() =~= tools.subrange(first + 1, n - 1));
        assert(rest.last() == tools[n - 1]);
        let head = tools.take(first).push(search_function());
        let others = other_tools(tools.subrange(first + 1, n - 1));
        assert((head + others).push(tools[n - 1]) =~= head + others.push(tools[n - 1]));
    }
}

/// Tools without a hosted web search are left.
proof fn lemma_untouched(tools: Seq<JsonView>)
    requires
        forall|i: int| 0 <= i < tools.len() ==> !is_hosted_search(#[trigger] tools[i]),
    ensures
        normalized_tools(tools) == tools,
    decreases tools.len(),
{
    if tools.len() > 0 {
        lemma_untouched(tools.drop_last());
        assert(!is_hosted_search(tools[tools.len() - 1]));
        assert(tools.drop_last().push(tools.last()) =~= tools);
    } else {
        assert(normalized_tools(tools) =~= tools);
    }
}

/// The request of the first model round is the one that was made: every member but
/// the tools, the input and the streaming flag stands as it was, the answer is not
/// streamed, and the input is the list or, as one message of the user, the text that
/// was given.
pub proof fn lemma_request_is_kept(request: JsonView, max_rounds: u32)
    requires
        request is Object,
    ensures
        ({
            let run = started(request, max_rounds);
            let sent = run.request.with("input"@, JsonView::Array(run.input));
            &&& sent.get("stream"@) == Some(JsonView::Bool(false))
            &&& sent.get("input"@) == Some(JsonView::Array(run.input))
            &&& forall|name: Seq<char>|
                #![trigger sent.get(name)]
                name != "tools"@ && name != "stream"@ && name != "input"@ ==> sent.get(name)
                    == request.get(name)
            &&& match request.get("tools"@) {
                Some(JsonView::Array(tools)) => sent.get("tools"@) == Some(
                    JsonView::Array(normalized_tools(tools)),
                ),
                other => sent.get("tools"@) == other,
            }
            &&& match request.get("input"@) {
                Some(JsonView::Array(items)) => run.input == items,
                Some(JsonView::String(text)) => {
                    &&& run.input.len() == 1
                    &&& run.input[0].get("type"@) == Some(JsonView::String("message"@))
                    &&& run.input[0].get("role"@) == Some(JsonView::String("user"@))
                    &&& run.input[0].get("content"@) == Some(JsonView::String(text))
                },
                _ => run.input.len() == 0,
            }
            &&& run.round == 0
            &&& run.max_rounds == max_rounds
        }),
{
    lemma_told_names();
    let run = started(request, max_rounds);
    let tooled = with_normalized_tools(request);
    let off = JsonView::Bool(false);
    let list = JsonView::Array(run.input);
    let sent = run.request.with("input"@, list);
    lemma_get_with(tooled, "stream"@, off);
    lemma_get_with(run.request, "input"@, list);
    assert forall|name: Seq<char>| name != "tools"@ implies #[trigger] tooled.get(name)
        == request.get(name) by {
        if let Some(JsonView::Array(tools)) = request.get("tools"@) {
            lemma_get_with_other(
                request,
                "tools"@,
                JsonView::Array(normalized_tools(tools)),
                name,
            );
        }
    }
    if let Some(JsonView::Array(tools)) = request.get("tools"@) {
        lemma_get_with(request, "tools"@, JsonView::Array(normalized_tools(tools)));
    }
    assert forall|name: Seq<char>| name != "stream"@ implies #[trigger] run.request.get(name)
        == tooled.get(name) by {
        lemma_get_with_other(tooled, "stream"@, off, name);
    }
    assert forall|name: Seq<char>| name != "input"@ implies #[trigger] sent.get(name)
        == run.request.get(name) by {
        lemma_get_with_other(run.request, "input"@, list, name);
    }
    assert(run.request.get("input"@) == request.get("input"@));
    assert(sent.get("stream"@) == run.request.get("stream"@));
    assert(sent.get("tools"@) == tooled.get("tools"@));
    if let Some(JsonView::String(text)) = request.get("input"@) {
        let members = inputs_of(run.request)[0]->Object_0;
        lemma_position_is(members, "type"@, 0);
        lemma_position_is(members, "role"@, 1);
        lemma_position_is(members, "content"@, 2);
    }
}

/// A request is orchestrated exactly where it offers a hosted web search and is not
/// streamed; a streamed one is answered with status 501, and every other one goes on.
pub proof fn lemma_request_is_told_apart(request: JsonView)
    ensures
        ({
            let hosted = match request.get("tools"@) {
                Some(JsonView::Array(tools)) => exists|i: int|
                    0 <= i < tools.len() && is_hosted_search(#[trigger] tools[i]),
                _ => false,
            };
            let streamed = request.get("stream"@) == Some(JsonView::Bool(true));
            match decision_on(request) {
                DecisionView::Pass => !hosted,
                DecisionView::Reject(rejection) => hosted && streamed && rejection.status == 501,
                DecisionView::Orchestrate(given) => hosted && !streamed && given == request,
            }
        }),
{
    if let Some(JsonView::Array(tools)) = request.get("tools"@) {
        if exists|i: int| 0 <= i < tools.len() && is_hosted_search(#[trigger] tools[i]) {
            let i = choose|i: int| 0 <= i < tools.len() && is_hosted_search(#[trigger] tools[i]);
            assert(tools_of(request) == Some(tools));
            assert(is_search_tool(tools_of(request)->0[i]));
        }
        if asks_for_search(request) {
            let i = choose|i: int| 0 <= i < tools.len() && is_search_tool(#[trigger] tools[i]);
            assert(is_hosted_search(tools[i]));
        }
    }
}

/// A base URL loses its trailing slashes, and nothing else.
pub proof fn lemma_base_loses_slashes(base: Seq<char>)
    ensures
        ({
            let bare = without_slashes(base);
            &&& bare.len() <= base.len()
            &&& base.take(bare.len() as int) == bare
            &&& forall|i: int| bare.len() <= i < base.len() ==> #[trigger] base[i] == '/'
            &&& bare.len() > 0 ==> bare.last() != '/'
        }),
    decreases base.len(),
{
    if base.len() > 0 && base.last() == '/' {
        lemma_base_loses_slashes(base.drop_last());
        let bare = without_slashes(base);
        assert(base.take(bare.len() as int) =~= base.drop_last().take(bare.len() as int));
        assert forall|i: int| bare.len() <= i < base.len() implies #[trigger] base[i] == '/' by {
            if i < base.len() - 1 {
                assert(base.drop_last()[i] == base[i]);
            }
        }
    } else {
        assert(base.take(base.len() as int) =~= base);
    }
}

/// Whether a call can be served: it has an id, and arguments that are JSON with a query
/// that is not blank.
pub open spec fn can_be_served(item: JsonView) -> bool {
    &&& item.get("call_id"@) is Some && item.get("call_id"@)->0 is String
    &&& item.get("arguments"@) is Some && item.get("arguments"@)->0 is String
    &&& {
        let args = parsed(utf8(item.get("arguments"@)->0->String_0));
        &&& args is Ok
        &&& args->Ok_0.get("query"@) is Some && args->Ok_0.get("query"@)->0 is String
        &&& trimmed(args->Ok_0.get("query"@)->0->String_0).len() > 0
    }
}

/// Calls that can be served are served: another round follows unless the rounds are
/// used up, the model is told its own output, and a call that cannot be served ends
/// the request with an error.
pub proof fn lemma_servable_calls_are_served(run: OrchestrationView, response: JsonView)
    ensures
        ({
            let output = told_items(response);
            let count = calls_before(output, output.len() as int);
            let servable = forall|i: int|
                0 <= i < output.len() && calls_search(#[trigger] output[i]) ==> can_be_served(
                    output[i],
                );
            let (after, step) = response_taken(run, response);
            &&& count == 0 ==> after == run && step == Ok::<StepView, Seq<char>>(
                StepView::Finished(response),
            )
            &&& count > 0 && servable && run.round + 1 != run.max_rounds ==> {
                &&& step is Ok
                &&& step->Ok_0 is Search
                &&& after.input == run.input + output
                &&& after.request == run.request && after.round == run.round
            }
            &&& count > 0 && (!servable || run.round + 1 == run.max_rounds) ==> step is Err
        }),
{
    let output = told_items(response);
    assert(output == output_of(response));
    let n = output.len() as int;
    lemma_told_names();
    if calls_among(output, n) is Err {
        lemma_some_call(output, n);
        lemma_unreadable_call(output, n);
    } else {
        lemma_calls_in_order(output, n);
        let calls = calls_among(output, n)->Ok_0;
        let m = calls.len() as int;
        if searches_of(calls, m) is Ok {
            lemma_searches_in_order(calls, m);
            assert forall|i: int| 0 <= i < output.len() && calls_search(
                #[trigger] output[i],
            ) implies can_be_served(output[i]) by {
                let item = output[i];
                let args = parsed(utf8(item.get("arguments"@)->0->String_0))->Ok_0;
                let k = calls_before(output, i) as int;
                assert(calls[k] == item.with("arguments"@, args));
                assert(search_of(calls[k]) is Ok);
                lemma_get_with(item, "arguments"@, args);
                lemma_get_with_other(item, "arguments"@, args, "call_id"@);
            }
        } else {
            lemma_unusable_call(calls, m);
            let k = choose|k: int| 0 <= k < m && #[trigger] search_of(calls[k]) is Err;
            lemma_call_has_item(output, n, k);
            let i = choose|i: int|
                0 <= i < n && calls_search(#[trigger] output[i]) && calls_before(output, i) == k;
            let item = output[i];
            let args = parsed(utf8(item.get("arguments"@)->0->String_0))->Ok_0;
            assert(calls[k] == item.with("arguments"@, args));
            lemma_get_with(item, "arguments"@, args);
            lemma_get_with_other(item, "arguments"@, args, "call_id"@);
            assert(!can_be_served(item));
        }
    }
}

/// Where calls cannot be read, one of them cannot.
proof fn lemma_unreadable_call(output: Seq<JsonView>, n: int)
    requires
        0 <= n <= output.len(),
        calls_among(output, n) is Err,
    ensures
        exists|i: int|
            0 <= i < n && calls_search(#[trigger] output[i]) && !can_be_served(output[i]),
    decreases n,
{
    if n > 0 {
        if calls_among(output, n - 1) is Err {
            lemma_unreadable_call(output, n - 1);
            let i = choose|i: int|
                0 <= i < n - 1 && calls_search(#[trigger] output[i]) && !can_be_served(output[i]);
            assert(calls_search(output[i]));
        } else {
            assert(calls_search(output[n - 1]) && !can_be_served(output[n - 1]));
        }
    }
}

/// Where searches cannot be made, one of them cannot.
proof fn lemma_unusable_call(calls: Seq<JsonView>, n: int)
    requires
        0 <= n <= calls.len(),
        searches_of(calls, n) is Err,
    ensures
        exists|k: int| 0 <= k < n && #[trigger] search_of(calls[k]) is Err,
    decreases n,
{
    if n > 0 && searches_of(calls, n - 1) is Err {
        lemma_unusable_call(calls, n - 1);
        let k = choose|k: int| 0 <= k < n - 1 && #[trigger] search_of(calls[k]) is Err;
        assert(search_of(calls[k]) is Err);
    } else if n > 0 {
        assert(search_of(calls[n - 1]) is Err);
    }
}

/// Every call that is counted has its item.
proof fn lemma_call_has_item(output: Seq<JsonView>, n: int, k: int)
    requires
        0 <= n <= output.len(),
        0 <= k < calls_before(output, n),
    ensures
        exists|i: int|
            0 <= i < n && calls_search(#[trigger] output[i]) && calls_before(output, i) == k,
    decreases n,
{
    if n > 0 {
        if calls_search(output[n - 1]) && k == calls_before(output, n - 1) {
            assert(calls_search(output[n - 1]));
        } else {
            lemma_call_has_item(output, n - 1, k);
            let i = choose|i: int|
                0 <= i < n - 1 && calls_search(#[trigger] output[i]) && calls_before(output, i)
                    == k;
            assert(calls_search(output[i]));
        }
    }
}

/// A backend's answer with a success status that is JSON is its response; every other
/// answer ends the request with an error that names the backend, the status and the
/// beginning of the body, and changes nothing.
pub proof fn lemma_backend_answer_is_told_apart(
    run: OrchestrationView,
    status: u16,
    status_text: Seq<char>,
    body: Seq<char>,
    answer: Result<JsonView, Seq<char>>,
)
    ensures
        ({
            let (after, step) = answer_taken(run, status, status_text, body, answer);
            if 200 <= status <= 299 && answer is Ok {
                (after, step) == response_taken(run, answer->Ok_0)
            } else {
                &&& after == run
                &&& step is Err
                &&& status < 200 || status > 299 ==> step->Err_0 == "vLLM"@ + " returned HTTP "@
                    + status_text + ": "@ + bounded_error(body)
            }
        }),
{
}

/// Only the complete body of a request that creates a response is looked at; one that
/// is no JSON is an error.
pub proof fn lemma_only_complete_bodies_count(
    path: Seq<char>,
    body: Option<Seq<u8>>,
    end_of_stream: bool,
)
    ensures
        ({
            let decision = body_decision(path, body, end_of_stream);
            if end_of_stream && path == "/v1/responses"@ && body is Some {
                match parsed(body->0) {
                    Ok(request) => decision == Ok::<DecisionView, Seq<char>>(decision_on(request)),
                    Err(_) => decision is Err,
                }
            } else {
                decision == Ok::<DecisionView, Seq<char>>(DecisionView::Pass)
            }
        }),
{
}

/// Whether a schema says that a parameter is of a type.
pub open spec fn has_parameter(properties: JsonView, name: Seq<char>, kind: Seq<char>) -> bool {
    properties.get(name) is Some && properties.get(name)->0.get("type"@) == Some(
        JsonView::String(kind),
    )
}

/// The function that the model is offered has a query, which it must give, and the
/// options of a search, each of its own type.
pub proof fn lemma_offered_function()
    ensures
        ({
            let function = search_function();
            let parameters = function.get("parameters"@)->0;
            let properties = parameters.get("properties"@)->0;
            &&& function.get("type"@) == Some(JsonView::String("function"@))
            &&& function.get("name"@) == Some(JsonView::String("web_search"@))
            &&& function.get("strict"@) == Some(JsonView::Bool(false))
            &&& function.get("parameters"@) is Some
            &&& parameters.get("type"@) == Some(JsonView::String("object"@))
            &&& parameters.get("required"@) == Some(
                JsonView::Array(seq![JsonView::String("query"@)]),
            )
            &&& parameters.get("properties"@) is Some
            &&& has_parameter(properties, "query"@, "string"@)
            &&& has_parameter(properties, "count"@, "integer"@)
            &&& has_parameter(properties, "freshness"@, "string"@)
            &&& has_parameter(properties, "country"@, "string"@)
            &&& has_parameter(properties, "language"@, "string"@)
            &&& has_parameter(properties, "include_domains"@, "array"@)
            &&& has_parameter(properties, "exclude_domains"@, "array"@)
        }),
{
    lemma_query_is_no_option();
    reveal_strlit("type");
    reveal_strlit("name");
    reveal_strlit("description");
    reveal_strlit("parameters");
    reveal_strlit("strict");
    reveal_strlit("properties");
    reveal_strlit("required");
    reveal_strlit("items");
    assert("type"@.len() == 4 && "name"@.len() == 4 && "description"@.len() == 11);
    assert("type"@[0] == 't' && "name"@[0] == 'n');
    assert("parameters"@.len() == 10 && "strict"@.len() == 6 && "properties"@.len() == 10);
    assert("required"@.len() == 8 && "items"@.len() == 5);
    let function = search_function()->Object_0;
    lemma_position_is(function, "type"@, 0);
    lemma_position_is(function, "name"@, 1);
    lemma_position_is(function, "parameters"@, 3);
    lemma_position_is(function, "strict"@, 4);
    let parameters = search_parameters()->Object_0;
    lemma_position_is(parameters, "type"@, 0);
    lemma_position_is(parameters, "properties"@, 1);
    lemma_position_is(parameters, "required"@, 2);
    assert(Seq::<JsonView>::empty().push(JsonView::String("query"@)) =~= seq![
        JsonView::String("query"@),
    ]);
    let properties = search_parameters().get("properties"@)->0->Object_0;
    lemma_parameter_names();
    lemma_position_is(properties, "query"@, 0);
    lemma_position_is(properties, "count"@, 1);
    lemma_position_is(properties, "freshness"@, 2);
    lemma_position_is(properties, "country"@, 3);
    lemma_position_is(properties, "language"@, 4);
    lemma_position_is(properties, "include_domains"@, 5);
    lemma_position_is(properties, "exclude_domains"@, 6);
    lemma_position_is(properties[0].1->Object_0, "type"@, 0);
    lemma_position_is(properties[1].1->Object_0, "type"@, 0);
    lemma_position_is(properties[2].1->Object_0, "type"@, 0);
    lemma_position_is(properties[3].1->Object_0, "type"@, 0);
    lemma_position_is(properties[4].1->Object_0, "type"@, 0);
    lemma_position_is(properties[5].1->Object_0, "type"@, 0);
    lemma_position_is(properties[6].1->Object_0, "type"@, 0);
}

/// The names of the function's parameters are different.
proof fn lemma_parameter_names()
    ensures
        "query"@.len() == 5 && "query"@[0] == 'q',
        "count"@.len() == 5 && "count"@[0] == 'c',
        "freshness"@.len() == 9,
        "country"@.len() == 7,
        "language"@.len() == 8,
        "include_domains"@.len() == 15 && "include_domains"@[0] == 'i',
        "exclude_domains"@.len() == 15 && "exclude_domains"@[0] == 'e',
{
    reveal_strlit("query");
    reveal_strlit("count");
    reveal_strlit("freshness");
    reveal_strlit("country");
    reveal_strlit("language");
    reveal_strlit("include_domains");
    reveal_strlit("exclude_domains");
}

/// The outputs of calls come behind the input of a request, which stays: a list item by
/// item, a text as one message; and they are named apart too.
pub proof fn lemma_outputs_follow_input(body: JsonView, outputs: Seq<JsonView>)
    requires
        body is Object,
    ensures
        ({
            let after = with_outputs(body, outputs);
            &&& after.get("input_items"@) == Some(JsonView::Array(outputs))
            &&& after.get("input"@) is Some && after.get("input"@)->0 is Array
            &&& {
                let input = after.get("input"@)->0->Array_0;
                match body.get("input"@) {
                    Some(JsonView::Array(items)) => input == items + outputs,
                    Some(JsonView::String(text)) => {
                        &&& input.len() == 1 + outputs.len()
                        &&& input.skip(1) == outputs
                        &&& input[0].get("role"@) == Some(JsonView::String("user"@))
                        &&& input[0].get("content"@) == Some(JsonView::String(text))
                    },
                    _ => input == outputs,
                }
            }
            &&& forall|name: Seq<char>|
                #![trigger after.get(name)]
                name != "input"@ && name != "input_items"@ ==> after.get(name) == body.get(name)
        }),
{
    lemma_told_names();
    reveal_strlit("input");
    reveal_strlit("input_items");
    assert("input"@.len() == 5 && "input_items"@.len() == 11);
    let list = JsonView::Array(outputs);
    let all = JsonView::Array(inputs_of(body) + outputs);
    let named = body.with("input_items"@, list);
    let after = with_outputs(body, outputs);
    lemma_get_with(body, "input_items"@, list);
    lemma_get_with(named, "input"@, all);
    assert forall|name: Seq<char>| name != "input"@ implies #[trigger] after.get(name)
        == named.get(name) by {
        lemma_get_with_other(named, "input"@, all, name);
    }
    assert forall|name: Seq<char>| name != "input_items"@ implies #[trigger] named.get(name)
        == body.get(name) by {
        lemma_get_with_other(body, "input_items"@, list, name);
    }
    let input = inputs_of(body) + outputs;
    match body.get("input"@) {
        Some(JsonView::Array(items)) => {},
        Some(JsonView::String(text)) => {
            let members = inputs_of(body)[0]->Object_0;
            lemma_position_is(members, "type"@, 0);
            lemma_position_is(members, "role"@, 1);
            lemma_position_is(members, "content"@, 2);
            assert(input.skip(1) =~= outputs);
        },
        _ => {
            assert(input =~= outputs);
        },
    }
}

/// A configuration is accepted at startup exactly where there is a backend, there may
/// be two rounds at least, a request may take some time, and there is a key; white
/// space alone is neither a backend nor a key.
pub proof fn lemma_accepted_at_startup(config: WebSearchConfig, variable: Option<Seq<char>>)
    ensures
        startup_error(config, variable) is None <==> {
            &&& trimmed(config.vllm_base_url@).len() > 0
            &&& config.max_tool_rounds >= 2
            &&& config.timeout_secs > 0
            &&& variable is Some
            &&& trimmed(variable->0).len() > 0
        },
        variable is Some ==> key_in(variable) == trimmed(variable->0),
        variable is None ==> key_in(variable).len() == 0,
{
}

} // verus!
