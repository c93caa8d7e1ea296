//! The blocking orchestrator: a model backend and a search service are asked in
//! turn until the model needs no more searches.

use vstd::prelude::*;

use crate::filter::{
    json_rejection, reject_json, BodyAccess, BodyMode, Rejection, RejectionView,
};
use crate::json::{
    clone_items, items_view, no_members, push_item, push_member, string, Json, JsonView, Members,
};
use crate::json_text::{bytes_of, compact_text, parse_json, parsed, text_of};
use crate::openai::web_search::dispatch::{is_search_type, is_web_search_tool_type};
use crate::text::{chars_of, join, same_text, string_between, trim, trimmed, utf8};
use vstd::string::StringExecFns;

verus! {

broadcast use crate::json_model::group_json_view;

/// Largest request body that is buffered (16 MiB).
pub const MAX_BODY_BYTES: usize = 16777216;

/// Most characters of an error body that are passed on.
pub const MAX_ERROR_BODY_CHARS: usize = 4096;

/// Configuration of the orchestrator.
pub struct WebSearchConfig {
    /// Base URL of the model backend.
    pub vllm_base_url: String,
    /// Base URL of the search service.
    pub you_api_base_url: String,
    /// Most model rounds of one request.
    pub max_tool_rounds: u32,
    /// Seconds that one request may take.
    pub timeout_secs: u64,
}

/// Where the search service is, unless the configuration says otherwise.
pub fn default_you_base_url() -> (url: String)
    ensures
        url@ == "https://api.you.com"@,
{
    "https://api.you.com".to_owned()
}

/// How many model rounds a request has, unless the configuration says otherwise.
pub fn default_max_rounds() -> (rounds: u32)
    ensures
        rounds == 5,
{
    5
}

/// How many seconds a request may take, unless the configuration says otherwise.
pub fn default_timeout_secs() -> (secs: u64)
    ensures
        secs == 30,
{
    30
}

/// Whether a configuration is usable.
pub open spec fn is_usable(config: WebSearchConfig) -> bool {
    trimmed(config.vllm_base_url@).len() > 0 && config.max_tool_rounds >= 2 && config.timeout_secs
        > 0
}

/// Validates a configuration.
pub fn validate_config(config: &WebSearchConfig) -> (result: Result<(), String>)
    ensures
        match result {
            Ok(_) => is_usable(*config),
            Err(message) => !is_usable(*config) && message@
                == "openai_web_search requires a non-empty vllm_base_url, max_tool_rounds >= 2, and timeout_secs > 0"@,
        },
{
    let base = trim(config.vllm_base_url.as_str());
    if base.as_str().unicode_len() == 0 || config.max_tool_rounds < 2 || config.timeout_secs == 0 {
        return Err(
            "openai_web_search requires a non-empty vllm_base_url, max_tool_rounds >= 2, and timeout_secs > 0".to_owned(),
        );
    }
    Ok(())
}

/// The key of the search service in an environment variable; empty where there is
/// none.
pub open spec fn key_in(variable: Option<Seq<char>>) -> Seq<char> {
    match variable {
        Some(value) => trimmed(value),
        None => Seq::empty(),
    }
}

/// The key of the search service, where `variable` is the environment variable
/// that holds it.
pub fn usable_api_key(variable: Option<&str>) -> (result: Result<String, String>)
    ensures
        ({
            let key = key_in(
                match variable {
                    Some(value) => Some(value@),
                    None => None,
                },
            );
            match result {
                Ok(found) => key.len() > 0 && found@ == key,
                Err(message) => key.len() == 0 && message@
                    == "openai_web_search requires YOU_API_KEY at startup"@,
            }
        }),
{
    if let Some(value) = variable {
        let key = trim(value);
        if key.as_str().unicode_len() > 0 {
            return Ok(key);
        }
    }
    Err("openai_web_search requires YOU_API_KEY at startup".to_owned())
}

/// A text without trailing slashes.
pub open spec fn without_slashes(text: Seq<char>) -> Seq<char>
    decreases text.len(),
{
    if text.len() > 0 && text.last() == '/' {
        without_slashes(text.drop_last())
    } else {
        text
    }
}

/// The URL of a path below a base URL.
pub fn url_below(base: &str, path: &str) -> (url: String)
    ensures
        url@ == without_slashes(base@) + path@,
{
    let chars = chars_of(base);
    let ghost view = chars@;
    let mut to: usize = chars.len();
    assert(view.take(to as int) =~= view);
    while to > 0 && chars[to - 1] == '/'
        invariant
            view == chars@,
            to <= chars.len(),
            without_slashes(view) == without_slashes(view.take(to as int)),
        decreases to,
    {
        assert(view.take(to as int).drop_last() =~= view.take(to - 1));
        to = to - 1;
    }
    let bare = string_between(&chars, 0, to);
    assert(view.subrange(0, to as int) =~= view.take(to as int));
    join(bare.as_str(), path)
}

/// The leading part of an error body that is passed on; `...` where there is more.
pub open spec fn bounded_error(body: Seq<char>) -> Seq<char> {
    if body.len() > MAX_ERROR_BODY_CHARS {
        body.take(MAX_ERROR_BODY_CHARS as int) + "..."@
    } else {
        body
    }
}

/// Bounds the error body of a service.
pub fn bounded_error_body(body: &str) -> (bounded: String)
    ensures
        bounded@ == bounded_error(body@),
{
    let chars = chars_of(body);
    if chars.len() > MAX_ERROR_BODY_CHARS {
        let start = string_between(&chars, 0, MAX_ERROR_BODY_CHARS);
        assert(chars@.subrange(0, MAX_ERROR_BODY_CHARS as int) =~= body@.take(
            MAX_ERROR_BODY_CHARS as int,
        ));
        join(start.as_str(), "...")
    } else {
        body.to_owned()
    }
}

/// An error body that is passed on has at most three characters more than the
/// bound, and begins as the body did.
pub proof fn lemma_error_is_bounded(body: Seq<char>)
    ensures
        bounded_error(body).len() <= MAX_ERROR_BODY_CHARS + 3,
        body.len() <= MAX_ERROR_BODY_CHARS ==> bounded_error(body) == body,
        body.len() > MAX_ERROR_BODY_CHARS ==> bounded_error(body).take(MAX_ERROR_BODY_CHARS as int)
            == body.take(MAX_ERROR_BODY_CHARS as int),
{
    reveal_strlit("...");
    if body.len() > MAX_ERROR_BODY_CHARS {
        assert(bounded_error(body).take(MAX_ERROR_BODY_CHARS as int) =~= body.take(
            MAX_ERROR_BODY_CHARS as int,
        ));
    }
}

/// Whether a tool is a hosted web search.
pub open spec fn is_search_tool(tool: JsonView) -> bool {
    match tool.get_text("type"@) {
        Some(kind) => is_search_type(kind),
        None => false,
    }
}

/// Whether a tool is a hosted web search.
pub fn is_web_search_tool(tool: &Json) -> (search: bool)
    ensures
        search == is_search_tool(tool@),
{
    match tool.get_str("type") {
        Some(kind) => is_web_search_tool_type(kind),
        None => false,
    }
}

/// The tools of a request, none where it has no list of them.
pub open spec fn tools_of(body: JsonView) -> Option<Seq<JsonView>> {
    match body.get("tools"@) {
        Some(JsonView::Array(tools)) => Some(tools),
        _ => None,
    }
}

/// Whether a request has a hosted web-search tool.
pub open spec fn asks_for_search(body: JsonView) -> bool {
    match tools_of(body) {
        Some(tools) => exists|i: int| 0 <= i < tools.len() && is_search_tool(#[trigger] tools[i]),
        None => false,
    }
}

/// Whether a request has a hosted web-search tool.
pub fn has_web_search(body: &Json) -> (found: bool)
    ensures
        found == asks_for_search(body@),
{
    let tools = match body.get("tools") {
        Some(Json::Array(tools)) => tools,
        _ => return false,
    };
    let ghost view = items_view(tools@);
    let mut i: usize = 0;
    while i < tools.len()
        invariant
            view == items_view(tools@),
            tools_of(body@) == Some(view),
            i <= tools.len(),
            forall|j: int| 0 <= j < i ==> !is_search_tool(#[trigger] view[j]),
        decreases tools.len() - i,
    {
        if is_web_search_tool(&tools[i]) {
            proof {
                let listed = tools_of(body@)->0;
                assert(listed == view);
                assert(is_search_tool(listed[i as int]));
                assert(exists|j: int| 0 <= j < listed.len() && is_search_tool(#[trigger] listed[j]));
            }
            return true;
        }
        i = i + 1;
    }
    false
}

/// A property of an object in a tool's schema.
pub open spec fn typed_property(name: Seq<char>, kind: Seq<char>) -> (Seq<char>, JsonView) {
    (name, JsonView::Object(Seq::empty().push(("type"@, JsonView::String(kind)))))
}

/// A list of strings in a tool's schema.
pub open spec fn list_property(name: Seq<char>) -> (Seq<char>, JsonView) {
    (
        name,
        JsonView::Object(
            Seq::empty().push(("type"@, JsonView::String("array"@))).push(
                typed_property("items"@, "string"@),
            ),
        ),
    )
}

/// The parameters of the function that stands in for the hosted search.
pub open spec fn search_parameters() -> JsonView {
    let properties: Members = Seq::empty().push(typed_property("query"@, "string"@)).push(
        typed_property("count"@, "integer"@),
    ).push(typed_property("freshness"@, "string"@)).push(
        typed_property("country"@, "string"@),
    ).push(typed_property("language"@, "string"@)).push(list_property("include_domains"@)).push(
        list_property("exclude_domains"@),
    );
    JsonView::Object(
        Seq::empty().push(("type"@, JsonView::String("object"@))).push(
            ("properties"@, JsonView::Object(properties)),
        ).push(
            ("required"@, JsonView::Array(Seq::empty().push(JsonView::String("query"@)))),
        ),
    )
}

/// The function that stands in for the hosted search.
pub open spec fn search_function() -> JsonView {
    JsonView::Object(
        Seq::empty().push(("type"@, JsonView::String("function"@))).push(
            ("name"@, JsonView::String("web_search"@)),
        ).push(
            (
                "description"@,
                JsonView::String(
                    "Search the public web for current information and return structured results."@,
                ),
            ),
        ).push(("parameters"@, search_parameters())).push(("strict"@, JsonView::Bool(false))),
    )
}

/// Adds a property to a schema.
fn push_typed(members: &mut Vec<crate::json::Member>, name: &str, kind: &str)
    ensures
        crate::json::members_view(final(members)@) == crate::json::members_view(
            old(members)@,
        ).push(typed_property(name@, kind@)),
{
    let mut property = no_members();
    push_member(&mut property, "type", string(kind));
    push_member(members, name, Json::Object(property));
}

/// Adds a list of strings to a schema.
fn push_list(members: &mut Vec<crate::json::Member>, name: &str)
    ensures
        crate::json::members_view(final(members)@) == crate::json::members_view(
            old(members)@,
        ).push(list_property(name@)),
{
    let mut property = no_members();
    push_member(&mut property, "type", string("array"));
    push_typed(&mut property, "items", "string");
    push_member(members, name, Json::Object(property));
}

/// Builds the function that stands in for the hosted search.
pub fn web_search_function_tool() -> (tool: Json)
    ensures
        tool@ == search_function(),
{
    let mut properties = no_members();
    push_typed(&mut properties, "query", "string");
    push_typed(&mut properties, "count", "integer");
    push_typed(&mut properties, "freshness", "string");
    push_typed(&mut properties, "country", "string");
    push_typed(&mut properties, "language", "string");
    push_list(&mut properties, "include_domains");
    push_list(&mut properties, "exclude_domains");
    let mut required: Vec<Json> = Vec::new();
    assert(items_view(required@) =~= Seq::empty());
    push_item(&mut required, string("query"));
    let mut parameters = no_members();
    push_member(&mut parameters, "type", string("object"));
    push_member(&mut parameters, "properties", Json::Object(properties));
    push_member(&mut parameters, "required", Json::Array(required));
    let mut tool = no_members();
    push_member(&mut tool, "type", string("function"));
    push_member(&mut tool, "name", string("web_search"));
    push_member(
        &mut tool,
        "description",
        string("Search the public web for current information and return structured results."),
    );
    push_member(&mut tool, "parameters", Json::Object(parameters));
    push_member(&mut tool, "strict", Json::Bool(false));
    Json::Object(tool)
}

/// Whether any of the tools is a hosted web search.
pub open spec fn any_search_tool(tools: Seq<JsonView>) -> bool
    decreases tools.len(),
{
    tools.len() > 0 && (any_search_tool(tools.drop_last()) || is_search_tool(tools.last()))
}

/// The tools with one function in place of all hosted web searches, at the
/// position of the first.
pub open spec fn normalized_tools(tools: Seq<JsonView>) -> Seq<JsonView>
    decreases tools.len(),
{
    if tools.len() == 0 {
        Seq::empty()
    } else {
        let front = normalized_tools(tools.drop_last());
        if !is_search_tool(tools.last()) {
            front.push(tools.last())
        } else if any_search_tool(tools.drop_last()) {
            front
        } else {
            front.push(search_function())
        }
    }
}

/// Puts one function in place of all hosted web searches.
pub fn normalize_tools(tools: &Vec<Json>) -> (normalized: Vec<Json>)
    ensures
        items_view(normalized@) == normalized_tools(items_view(tools@)),
{
    let ghost view = items_view(tools@);
    let mut normalized: Vec<Json> = Vec::new();
    let mut added = false;
    let mut i: usize = 0;
    assert(items_view(normalized@) =~= normalized_tools(view.take(0)));
    while i < tools.len()
        invariant
            view == items_view(tools@),
            i <= tools.len(),
            items_view(normalized@) == normalized_tools(view.take(i as int)),
            added == any_search_tool(view.take(i as int)),
        decreases tools.len() - i,
    {
        assert(view.take(i + 1).drop_last() =~= view.take(i as int));
        assert(view.take(i + 1).last() == tools@[i as int]@);
        if is_web_search_tool(&tools[i]) {
            if !added {
                push_item(&mut normalized, web_search_function_tool());
                added = true;
            }
        } else {
            push_item(&mut normalized, tools[i].clone());
        }
        i = i + 1;
    }
    assert(view.take(i as int) =~= view);
    normalized
}

/// A request whose hosted web searches were replaced.
pub open spec fn with_normalized_tools(body: JsonView) -> JsonView {
    match tools_of(body) {
        Some(tools) => body.with("tools"@, JsonView::Array(normalized_tools(tools))),
        None => body,
    }
}

/// Replaces the hosted web searches of a request.
pub fn normalize_web_search_tools_in_place(body: &mut Json)
    ensures
        final(body)@ == with_normalized_tools(old(body)@),
{
    let normalized = match body.get("tools") {
        Some(Json::Array(tools)) => Some(normalize_tools(tools)),
        _ => None,
    };
    if let Some(normalized) = normalized {
        body.set("tools", Json::Array(normalized));
    }
}

/// The normalized tools of a request, none where it has no list of them.
pub fn normalize_web_search_tools(body: &Json) -> (normalized: Vec<Json>)
    ensures
        items_view(normalized@) == (match tools_of(body@) {
            Some(tools) => normalized_tools(tools),
            None => Seq::empty(),
        }),
{
    match body.get("tools") {
        Some(Json::Array(tools)) => normalize_tools(tools),
        _ => {
            let none: Vec<Json> = Vec::new();
            assert(items_view(none@) =~= Seq::empty());
            none
        },
    }
}

/// The function that stands in for the hosted search is none itself.
proof fn lemma_function_is_no_search_tool()
    ensures
        !is_search_tool(search_function()),
{
    reveal_strlit("type");
    reveal_strlit("function");
    reveal_strlit("web_search");
    reveal_strlit("web_search_preview");
    reveal_strlit("web_search_preview_2025_03_11");
    reveal_strlit("web_search_2025_08_26");
    assert("function"@.len() == 8);
    assert("web_search"@.len() == 10);
    assert("web_search_preview"@.len() == 18);
    assert("web_search_preview_2025_03_11"@.len() == 29);
    assert("web_search_2025_08_26"@.len() == 21);
    crate::json::lemma_position_is(search_function()->Object_0, "type"@, 0);
}

/// Normalized tools hold no hosted web search: the backend never sees one, and
/// normalizing once more changes nothing.
pub proof fn lemma_normalized_tools_hold_no_search(tools: Seq<JsonView>)
    ensures
        forall|i: int|
            0 <= i < normalized_tools(tools).len() ==> !is_search_tool(
                #[trigger] normalized_tools(tools)[i],
            ),
        normalized_tools(normalized_tools(tools)) == normalized_tools(tools),
    decreases tools.len(),
{
    lemma_function_is_no_search_tool();
    if tools.len() > 0 {
        lemma_normalized_tools_hold_no_search(tools.drop_last());
    }
    lemma_nothing_to_normalize(normalized_tools(tools));
}

/// Tools without a hosted web search are left as they are.
pub proof fn lemma_nothing_to_normalize(tools: Seq<JsonView>)
    requires
        forall|i: int| 0 <= i < tools.len() ==> !is_search_tool(#[trigger] tools[i]),
    ensures
        normalized_tools(tools) == tools,
    decreases tools.len(),
{
    if tools.len() > 0 {
        lemma_nothing_to_normalize(tools.drop_last());
        assert(!is_search_tool(tools[tools.len() - 1]));
        assert(tools.drop_last().push(tools.last()) =~= tools);
    } else {
        assert(normalized_tools(tools) =~= tools);
    }
}

/// Whether an output item is a finished call of the search function.
pub open spec fn is_search_call(item: JsonView) -> bool {
    item.get_text("type"@) == Some("function_call"@) && item.get_text("name"@) == Some(
        "web_search"@,
    ) && item.get_text("status"@) == Some("completed"@)
}

/// Whether a member has the given text.
fn member_is(item: &Json, name: &str, text: &str) -> (same: bool)
    ensures
        same == (item@.get_text(name@) == Some(text@)),
{
    match item.get_str(name) {
        Some(held) => same_text(held, text),
        None => false,
    }
}

/// A finished call with its arguments, where `arguments` is what parsing them
/// gave.
pub open spec fn call_with_arguments(
    item: JsonView,
    arguments: Option<Result<JsonView, Seq<char>>>,
) -> Result<JsonView, Seq<char>> {
    match arguments {
        None => Err("web_search arguments missing"@),
        Some(Err(message)) => Err("web_search arguments invalid JSON: "@ + message),
        Some(Ok(arguments)) => Ok(item.with("arguments"@, arguments)),
    }
}

/// What parsing the arguments of a call gives.
pub open spec fn parsed_arguments(item: JsonView) -> Option<Result<JsonView, Seq<char>>> {
    match item.get_text("arguments"@) {
        Some(text) => Some(parsed(utf8(text))),
        None => None,
    }
}

/// The finished search calls among the first `n` output items, with their
/// arguments; or the first reason why a call cannot be read.
pub open spec fn calls_among(output: Seq<JsonView>, n: int) -> Result<Seq<JsonView>, Seq<char>>
    decreases n,
{
    if n <= 0 {
        Ok(Seq::empty())
    } else {
        match calls_among(output, n - 1) {
            Err(message) => Err(message),
            Ok(calls) => {
                let item = output[n - 1];
                if is_search_call(item) {
                    match call_with_arguments(item, parsed_arguments(item)) {
                        Ok(call) => Ok(calls.push(call)),
                        Err(message) => Err(message),
                    }
                } else {
                    Ok(calls)
                }
            },
        }
    }
}

/// The output items of a response.
pub open spec fn output_of(response: JsonView) -> Seq<JsonView> {
    match response.get("output"@) {
        Some(JsonView::Array(items)) => items,
        _ => Seq::empty(),
    }
}

/// The finished search calls of a response.
pub open spec fn calls_in(response: JsonView) -> Result<Seq<JsonView>, Seq<char>> {
    calls_among(output_of(response), output_of(response).len() as int)
}

/// Whether `result` is the list of values or the message `expected`.
pub open spec fn values_are(
    result: Result<Vec<Json>, String>,
    expected: Result<Seq<JsonView>, Seq<char>>,
) -> bool {
    match result {
        Ok(values) => expected == Ok::<Seq<JsonView>, Seq<char>>(items_view(values@)),
        Err(message) => expected == Err::<Seq<JsonView>, Seq<char>>(message@),
    }
}

/// Whether `result` is the value or the message `expected`.
pub open spec fn value_is(
    result: Result<Json, String>,
    expected: Result<JsonView, Seq<char>>,
) -> bool {
    match result {
        Ok(value) => expected == Ok::<JsonView, Seq<char>>(value@),
        Err(message) => expected == Err::<JsonView, Seq<char>>(message@),
    }
}

/// Puts the parsed arguments of a call in place of their text.
pub fn with_arguments(item: &Json, arguments: Option<Result<Json, String>>) -> (result: Result<
    Json,
    String,
>)
    ensures
        value_is(
            result,
            call_with_arguments(
                item@,
                match arguments {
                    Some(Ok(value)) => Some(Ok(value@)),
                    Some(Err(message)) => Some(Err(message@)),
                    None => None,
                },
            ),
        ),
{
    match arguments {
        None => Err("web_search arguments missing".to_owned()),
        Some(Err(message)) => Err(join("web_search arguments invalid JSON: ", message.as_str())),
        Some(Ok(arguments)) => {
            let mut call = item.clone();
            call.set("arguments", arguments);
            Ok(call)
        },
    }
}

/// A call that cannot be read refuses the response.
proof fn lemma_calls_stay(output: Seq<JsonView>, n: int, m: int)
    requires
        0 <= n <= m,
        calls_among(output, n) is Err,
    ensures
        calls_among(output, m) == calls_among(output, n),
    decreases m,
{
    if n < m {
        lemma_calls_stay(output, n, m - 1);
    }
}

/// Collects the finished search calls of a response, with their arguments parsed.
pub fn search_calls(response: &Json) -> (result: Result<Vec<Json>, String>)
    ensures
        values_are(result, calls_in(response@)),
{
    let mut calls: Vec<Json> = Vec::new();
    assert(items_view(calls@) =~= Seq::empty());
    let output = match response.get("output") {
        Some(Json::Array(output)) => output,
        _ => return Ok(calls),
    };
    let ghost view = items_view(output@);
    let mut i: usize = 0;
    while i < output.len()
        invariant
            view == items_view(output@),
            output_of(response@) == view,
            view.len() == output@.len(),
            i <= output.len(),
            calls_among(view, i as int) == Ok::<Seq<JsonView>, Seq<char>>(items_view(calls@)),
        decreases output.len() - i,
    {
        let item = &output[i];
        assert(item@ == view[i as int]);
        let is_call = member_is(item, "type", "function_call") && member_is(
            item,
            "name",
            "web_search",
        ) && member_is(item, "status", "completed");
        if is_call {
            let arguments = match item.get_str("arguments") {
                Some(text) => Some(parse_json(text.as_bytes())),
                None => None,
            };
            match with_arguments(item, arguments) {
                Ok(call) => push_item(&mut calls, call),
                Err(message) => {
                    proof {
                        lemma_calls_stay(view, i + 1, view.len() as int);
                    }
                    return Err(message);
                },
            }
        }
        i = i + 1;
    }
    Ok(calls)
}

/// The input items of a request: its list, or its text as a user message.
pub open spec fn inputs_of(body: JsonView) -> Seq<JsonView> {
    match body.get("input"@) {
        Some(JsonView::Array(items)) => items,
        Some(JsonView::String(text)) => Seq::empty().push(
            JsonView::Object(
                Seq::empty().push(("type"@, JsonView::String("message"@))).push(
                    ("role"@, JsonView::String("user"@)),
                ).push(("content"@, JsonView::String(text))),
            ),
        ),
        _ => Seq::empty(),
    }
}

/// Reads the input items of a request.
pub fn input_items(body: &Json) -> (items: Vec<Json>)
    ensures
        items_view(items@) == inputs_of(body@),
{
    match body.get("input") {
        Some(Json::Array(items)) => clone_items(items),
        Some(Json::String(text)) => {
            let mut message = no_members();
            push_member(&mut message, "type", string("message"));
            push_member(&mut message, "role", string("user"));
            push_member(&mut message, "content", string(text.as_str()));
            let mut items: Vec<Json> = Vec::new();
            assert(items_view(items@) =~= Seq::empty());
            push_item(&mut items, Json::Object(message));
            items
        },
        _ => {
            let items: Vec<Json> = Vec::new();
            assert(items_view(items@) =~= Seq::empty());
            items
        },
    }
}

/// Appends copies of items.
fn extend_items(items: &mut Vec<Json>, more: &Vec<Json>)
    ensures
        items_view(final(items)@) == items_view(old(items)@) + items_view(more@),
{
    let ghost start = items_view(items@);
    let ghost view = items_view(more@);
    let mut i: usize = 0;
    assert(start + view.take(0) =~= start);
    while i < more.len()
        invariant
            view == items_view(more@),
            i <= more.len(),
            items_view(items@) == start + view.take(i as int),
        decreases more.len() - i,
    {
        push_item(items, more[i].clone());
        assert((start + view.take(i as int)).push(view[i as int]) =~= start + view.take(i + 1));
        i = i + 1;
    }
    assert(view.take(i as int) =~= view);
}

/// A request whose input is followed by the outputs of its calls.
pub open spec fn with_outputs(body: JsonView, outputs: Seq<JsonView>) -> JsonView {
    body.with("input_items"@, JsonView::Array(outputs)).with(
        "input"@,
        JsonView::Array(inputs_of(body) + outputs),
    )
}

/// Appends the outputs of function calls to a request without replacing its
/// original input.
pub fn append_function_call_outputs(body: &mut Json, outputs: &Vec<Json>)
    ensures
        final(body)@ == with_outputs(old(body)@, items_view(outputs@)),
{
    let mut items = input_items(body);
    extend_items(&mut items, outputs);
    body.set("input_items", Json::Array(clone_items(outputs)));
    body.set("input", Json::Array(items));
}

/// The fields of a call's arguments that are passed on to the search service.
pub open spec fn passed_fields() -> Seq<Seq<char>> {
    Seq::empty().push("count"@).push("freshness"@).push("country"@).push("language"@).push(
        "safesearch"@,
    ).push("livecrawl"@).push("livecrawl_formats"@).push("crawl_timeout"@).push(
        "include_domains"@,
    ).push("exclude_domains"@).push("boost_domains"@)
}

/// The request to the search service with the first `n` fields passed on.
pub open spec fn service_request(args: JsonView, query: Seq<char>, n: int) -> JsonView
    decreases n,
{
    if n <= 0 {
        JsonView::Object(Seq::empty().push(("query"@, JsonView::String(query))))
    } else {
        let front = service_request(args, query, n - 1);
        let field = passed_fields()[n - 1];
        match args.get(field) {
            Some(value) => front.with(field, value),
            None => front,
        }
    }
}

/// Passes one field on.
fn pass_field(request: &mut Json, args: &Json, field: &str)
    ensures
        final(request)@ == (match args@.get(field@) {
            Some(value) => old(request)@.with(field@, value),
            None => old(request)@,
        }),
{
    if let Some(value) = args.get(field) {
        request.set(field, value.clone());
    }
}

/// Builds the request to the search service from a call's arguments.
pub fn you_search_request(args: &Json, query: &str) -> (request: Json)
    ensures
        request@ == service_request(args@, query@, 11),
{
    let mut object = no_members();
    push_member(&mut object, "query", string(query));
    let mut request = Json::Object(object);
    let ghost q = query@;
    assert(request@ == service_request(args@, q, 0));
    pass_field(&mut request, args, "count");
    assert(request@ == service_request(args@, q, 1));
    pass_field(&mut request, args, "freshness");
    assert(request@ == service_request(args@, q, 2));
    pass_field(&mut request, args, "country");
    assert(request@ == service_request(args@, q, 3));
    pass_field(&mut request, args, "language");
    assert(request@ == service_request(args@, q, 4));
    pass_field(&mut request, args, "safesearch");
    assert(request@ == service_request(args@, q, 5));
    pass_field(&mut request, args, "livecrawl");
    assert(request@ == service_request(args@, q, 6));
    pass_field(&mut request, args, "livecrawl_formats");
    assert(request@ == service_request(args@, q, 7));
    pass_field(&mut request, args, "crawl_timeout");
    assert(request@ == service_request(args@, q, 8));
    pass_field(&mut request, args, "include_domains");
    assert(request@ == service_request(args@, q, 9));
    pass_field(&mut request, args, "exclude_domains");
    assert(request@ == service_request(args@, q, 10));
    pass_field(&mut request, args, "boost_domains");
    request
}

/// A search to be made at the search service.
pub struct ServiceSearch {
    /// The call that the result answers.
    pub call_id: String,
    /// The query.
    pub query: String,
    /// The request's body.
    pub request: Json,
}

/// The model of a [`ServiceSearch`].
#[verifier::ext_equal]
pub struct ServiceSearchView {
    /// The call that the result answers.
    pub call_id: Seq<char>,
    /// The query.
    pub query: Seq<char>,
    /// The request's body.
    pub request: JsonView,
}

impl View for ServiceSearch {
    type V = ServiceSearchView;

    open spec fn view(&self) -> ServiceSearchView {
        ServiceSearchView {
            call_id: self.call_id@,
            query: self.query@,
            request: self.request@,
        }
    }
}

/// The models of searches.
pub open spec fn searches_view(searches: Seq<ServiceSearch>) -> Seq<ServiceSearchView> {
    Seq::new(searches.len(), |i: int| searches[i]@)
}

/// The query of a call's arguments, where there is one that is not blank.
pub open spec fn usable_query(args: JsonView) -> Option<Seq<char>> {
    match args.get_text("query"@) {
        Some(query) => if trimmed(query).len() > 0 {
            Some(query)
        } else {
            None
        },
        None => None,
    }
}

/// The search of a call.
pub open spec fn search_of(call: JsonView) -> Result<ServiceSearchView, Seq<char>> {
    match (call.get_text("call_id"@), call.get("arguments"@)) {
        (None, _) => Err("web_search call missing call_id"@),
        (_, None) => Err("web_search call missing arguments"@),
        (Some(call_id), Some(args)) => match usable_query(args) {
            None => Err("web_search query is required"@),
            Some(query) => Ok(
                ServiceSearchView { call_id, query, request: service_request(args, query, 11) },
            ),
        },
    }
}

/// The searches of the first `n` calls, or the first reason why one cannot be
/// made.
pub open spec fn searches_of(calls: Seq<JsonView>, n: int) -> Result<
    Seq<ServiceSearchView>,
    Seq<char>,
>
    decreases n,
{
    if n <= 0 {
        Ok(Seq::empty())
    } else {
        match searches_of(calls, n - 1) {
            Err(message) => Err(message),
            Ok(front) => match search_of(calls[n - 1]) {
                Ok(search) => Ok(front.push(search)),
                Err(message) => Err(message),
            },
        }
    }
}

/// Prepares the search of a call.
fn prepare_search(call: &Json) -> (result: Result<ServiceSearch, String>)
    ensures
        match result {
            Ok(search) => search_of(call@) == Ok::<ServiceSearchView, Seq<char>>(search@),
            Err(message) => search_of(call@) == Err::<ServiceSearchView, Seq<char>>(message@),
        },
{
    let call_id = match call.get_str("call_id") {
        Some(call_id) => call_id,
        None => return Err("web_search call missing call_id".to_owned()),
    };
    let args = match call.get("arguments") {
        Some(args) => args,
        None => return Err("web_search call missing arguments".to_owned()),
    };
    if let Some(query) = args.get_str("query") {
        let bare = trim(query);
        if bare.as_str().unicode_len() > 0 {
            return Ok(
                ServiceSearch {
                    call_id: call_id.to_owned(),
                    query: query.to_owned(),
                    request: you_search_request(args, query),
                },
            );
        }
    }
    Err("web_search query is required".to_owned())
}

/// A search that cannot be made refuses the round.
proof fn lemma_searches_stay(calls: Seq<JsonView>, n: int, m: int)
    requires
        0 <= n <= m,
        searches_of(calls, n) is Err,
    ensures
        searches_of(calls, m) == searches_of(calls, n),
    decreases m,
{
    if n < m {
        lemma_searches_stay(calls, n, m - 1);
    }
}

/// Whether `result` is the list of searches or the message `expected`.
pub open spec fn searches_are(
    result: Result<Vec<ServiceSearch>, String>,
    expected: Result<Seq<ServiceSearchView>, Seq<char>>,
) -> bool {
    match result {
        Ok(searches) => expected == Ok::<Seq<ServiceSearchView>, Seq<char>>(
            searches_view(searches@),
        ),
        Err(message) => expected == Err::<Seq<ServiceSearchView>, Seq<char>>(message@),
    }
}

/// Prepares the searches of calls.
pub fn prepare_searches(calls: &Vec<Json>) -> (result: Result<Vec<ServiceSearch>, String>)
    ensures
        searches_are(result, searches_of(items_view(calls@), calls@.len() as int)),
{
    let ghost view = items_view(calls@);
    let mut searches: Vec<ServiceSearch> = Vec::new();
    let mut i: usize = 0;
    assert(searches_view(searches@) =~= Seq::empty());
    while i < calls.len()
        invariant
            view == items_view(calls@),
            view.len() == calls@.len(),
            i <= calls.len(),
            searches_of(view, i as int) == Ok::<Seq<ServiceSearchView>, Seq<char>>(
                searches_view(searches@),
            ),
        decreases calls.len() - i,
    {
        let ghost front = searches_view(searches@);
        assert(calls@[i as int]@ == view[i as int]);
        match prepare_search(&calls[i]) {
            Ok(search) => {
                searches.push(search);
                assert(searches_view(searches@) =~= front.push(search@));
            },
            Err(message) => {
                proof {
                    lemma_searches_stay(view, i + 1, view.len() as int);
                }
                return Err(message);
            },
        }
        i = i + 1;
    }
    Ok(searches)
}

/// Whether an HTTP status is a success.
pub open spec fn is_success(status: u16) -> bool {
    200 <= status < 300
}

/// The message of a service's error answer.
pub open spec fn http_failure(
    service: Seq<char>,
    status_text: Seq<char>,
    body: Seq<char>,
) -> Seq<char> {
    service + " returned HTTP "@ + status_text + ": "@ + bounded_error(body)
}

/// Builds the message of a service's error answer.
fn describe_http_failure(service: &str, status_text: &str, body: &str) -> (message: String)
    ensures
        message@ == http_failure(service@, status_text@, body@),
{
    let mut message = join(service, " returned HTTP ");
    message.append(status_text);
    message.append(": ");
    message.append(bounded_error_body(body).as_str());
    message
}

/// The results of a search service's answer; empty lists where it has none.
pub open spec fn service_results(answer: JsonView) -> JsonView {
    match answer.get("results"@) {
        Some(results) => results,
        None => JsonView::Object(
            Seq::empty().push(("web"@, JsonView::Array(Seq::empty()))).push(
                ("news"@, JsonView::Array(Seq::empty())),
            ),
        ),
    }
}

/// What the model is told of a search service's answer.
pub open spec fn service_output(query: Seq<char>, answer: JsonView) -> JsonView {
    JsonView::Object(
        Seq::empty().push(("query"@, JsonView::String(query))).push(
            ("results"@, service_results(answer)),
        ).push(
            (
                "metadata"@,
                match answer.get("metadata"@) {
                    Some(metadata) => metadata,
                    None => JsonView::Null,
                },
            ),
        ),
    )
}

/// An empty list.
fn empty_list() -> (list: Json)
    ensures
        list@ == JsonView::Array(Seq::empty()),
{
    let none: Vec<Json> = Vec::new();
    assert(items_view(none@) =~= Seq::empty());
    Json::Array(none)
}

/// Builds what the model is told of a search service's answer.
pub fn describe_answer(query: &str, answer: &Json) -> (text: String)
    ensures
        text@ == compact_text(service_output(query@, answer@)),
{
    let results = match answer.get("results") {
        Some(results) => results.clone(),
        None => {
            let mut none = no_members();
            push_member(&mut none, "web", empty_list());
            push_member(&mut none, "news", empty_list());
            Json::Object(none)
        },
    };
    let metadata = match answer.get("metadata") {
        Some(metadata) => metadata.clone(),
        None => Json::Null,
    };
    let mut output = no_members();
    push_member(&mut output, "query", string(query));
    push_member(&mut output, "results", results);
    push_member(&mut output, "metadata", metadata);
    text_of(&Json::Object(output))
}

/// What a search came to, where `answer` is what parsing the service's body gave.
pub open spec fn search_result(
    query: Seq<char>,
    status: u16,
    status_text: Seq<char>,
    body: Seq<char>,
    answer: Result<JsonView, Seq<char>>,
) -> Result<Seq<char>, Seq<char>> {
    if !is_success(status) {
        Err(http_failure("You.com"@, status_text, body))
    } else {
        match answer {
            Ok(answer) => Ok(compact_text(service_output(query, answer))),
            Err(message) => Err("You.com returned invalid JSON: "@ + message),
        }
    }
}

/// Reads the answer of the search service.
pub fn read_search_answer(query: &str, status: u16, status_text: &str, body: &str) -> (result: Result<
    String,
    String,
>)
    ensures
        ({
            let expected = search_result(
                query@,
                status,
                status_text@,
                body@,
                parsed(utf8(body@)),
            );
            match result {
                Ok(text) => expected == Ok::<Seq<char>, Seq<char>>(text@),
                Err(message) => expected == Err::<Seq<char>, Seq<char>>(message@),
            }
        }),
{
    if status < 200 || status >= 300 {
        return Err(describe_http_failure("You.com", status_text, body));
    }
    match parse_json(body.as_bytes()) {
        Ok(answer) => Ok(describe_answer(query, &answer)),
        Err(message) => Err(join("You.com returned invalid JSON: ", message.as_str())),
    }
}

/// One request on its way through model rounds.
pub struct Orchestration {
    /// The request, with its tools normalized.
    pub request: Json,
    /// The input of the next model round.
    pub input_items: Vec<Json>,
    /// The model round.
    pub round: u32,
    /// The most model rounds.
    pub max_rounds: u32,
}

/// The model of an [`Orchestration`].
#[verifier::ext_equal]
pub struct OrchestrationView {
    /// The request, with its tools normalized.
    pub request: JsonView,
    /// The input of the next model round.
    pub input: Seq<JsonView>,
    /// The model round.
    pub round: u32,
    /// The most model rounds.
    pub max_rounds: u32,
}

impl View for Orchestration {
    type V = OrchestrationView;

    open spec fn view(&self) -> OrchestrationView {
        OrchestrationView {
            request: self.request@,
            input: items_view(self.input_items@),
            round: self.round,
            max_rounds: self.max_rounds,
        }
    }
}

/// What a model round came to.
pub enum RoundStep {
    /// The model needs no more searches; this is its response.
    Finished(Json),
    /// The model needs these searches.
    Search(Vec<ServiceSearch>),
}

/// The model of a [`RoundStep`].
pub enum StepView {
    /// The model needs no more searches.
    Finished(JsonView),
    /// The model needs these searches.
    Search(Seq<ServiceSearchView>),
}

impl View for RoundStep {
    type V = StepView;

    open spec fn view(&self) -> StepView {
        match *self {
            RoundStep::Finished(response) => StepView::Finished(response@),
            RoundStep::Search(searches) => StepView::Search(searches_view(searches@)),
        }
    }
}

/// The orchestration that a request begins with.
pub open spec fn started(request: JsonView, max_rounds: u32) -> OrchestrationView {
    let normalized = with_normalized_tools(request).with("stream"@, JsonView::Bool(false));
    OrchestrationView { request: normalized, input: inputs_of(normalized), round: 0, max_rounds }
}

/// What a model's response comes to: the orchestration and the next step.
pub open spec fn response_taken(run: OrchestrationView, response: JsonView) -> (
    OrchestrationView,
    Result<StepView, Seq<char>>,
) {
    match calls_in(response) {
        Err(message) => (run, Err(message)),
        Ok(calls) => if calls.len() == 0 {
            (run, Ok(StepView::Finished(response)))
        } else if run.round + 1 == run.max_rounds {
            (run, Err("web_search tool loop exceeded max_tool_rounds"@))
        } else {
            let told = OrchestrationView { input: run.input + output_of(response), ..run };
            match searches_of(calls, calls.len() as int) {
                Err(message) => (told, Err(message)),
                Ok(searches) => (told, Ok(StepView::Search(searches))),
            }
        },
    }
}

/// What a model backend's answer comes to, where `answer` is what parsing its body
/// gave.
pub open spec fn answer_taken(
    run: OrchestrationView,
    status: u16,
    status_text: Seq<char>,
    body: Seq<char>,
    answer: Result<JsonView, Seq<char>>,
) -> (OrchestrationView, Result<StepView, Seq<char>>) {
    if !is_success(status) {
        (run, Err(http_failure("vLLM"@, status_text, body)))
    } else {
        match answer {
            Ok(response) => response_taken(run, response),
            Err(message) => (run, Err("vLLM returned invalid JSON: "@ + message)),
        }
    }
}

/// Whether `result` is the step or the message `expected`.
pub open spec fn step_is(
    result: Result<RoundStep, String>,
    expected: Result<StepView, Seq<char>>,
) -> bool {
    match result {
        Ok(step) => expected == Ok::<StepView, Seq<char>>(step@),
        Err(message) => expected == Err::<StepView, Seq<char>>(message@),
    }
}

/// The output of a search call.
pub open spec fn call_output(call_id: Seq<char>, output: Seq<char>) -> JsonView {
    JsonView::Object(
        Seq::empty().push(("type"@, JsonView::String("function_call_output"@))).push(
            ("call_id"@, JsonView::String(call_id)),
        ).push(("output"@, JsonView::String(output))),
    )
}

/// The outputs of search calls.
pub open spec fn call_outputs(outputs: Seq<(String, String)>) -> Seq<JsonView> {
    Seq::new(outputs.len(), |i: int| call_output(outputs[i].0@, outputs[i].1@))
}

impl Orchestration {
    /// Begins a request: hosted web searches become one function, and the answer
    /// is not streamed.
    pub fn start(request: Json, max_rounds: u32) -> (run: Self)
        ensures
            run@ == started(request@, max_rounds),
    {
        let mut request = request;
        normalize_web_search_tools_in_place(&mut request);
        request.set("stream", Json::Bool(false));
        let input = input_items(&request);
        Orchestration { request, input_items: input, round: 0, max_rounds }
    }

    /// The request of the next model round.
    pub fn model_request(&self) -> (request: Json)
        ensures
            request@ == self@.request.with("input"@, JsonView::Array(self@.input)),
    {
        let mut request = self.request.clone();
        request.set("input", Json::Array(clone_items(&self.input_items)));
        request
    }

    /// Takes in the model backend's answer.
    pub fn on_model_answer(&mut self, status: u16, status_text: &str, body: &str) -> (result: Result<
        RoundStep,
        String,
    >)
        requires
            old(self).round < old(self).max_rounds,
        ensures
            ({
                let expected = answer_taken(
                    old(self)@,
                    status,
                    status_text@,
                    body@,
                    parsed(utf8(body@)),
                );
                &&& final(self)@ == expected.0
                &&& step_is(result, expected.1)
            }),
    {
        if status < 200 || status >= 300 {
            return Err(describe_http_failure("vLLM", status_text, body));
        }
        match parse_json(body.as_bytes()) {
            Ok(response) => self.on_model_response(response),
            Err(message) => Err(join("vLLM returned invalid JSON: ", message.as_str())),
        }
    }

    /// Takes in the model's response: its output joins the input of the next
    /// round where searches are needed.
    pub fn on_model_response(&mut self, response: Json) -> (result: Result<RoundStep, String>)
        requires
            old(self).round < old(self).max_rounds,
        ensures
            final(self)@ == response_taken(old(self)@, response@).0,
            step_is(result, response_taken(old(self)@, response@).1),
    {
        let ghost before = self@;
        let calls = match search_calls(&response) {
            Ok(calls) => calls,
            Err(message) => return Err(message),
        };
        if calls.len() == 0 {
            return Ok(RoundStep::Finished(response));
        }
        if self.round + 1 == self.max_rounds {
            return Err("web_search tool loop exceeded max_tool_rounds".to_owned());
        }
        match response.get("output") {
            Some(Json::Array(output)) => extend_items(&mut self.input_items, output),
            _ => {
                assert(before.input + Seq::<JsonView>::empty() =~= before.input);
            },
        }
        assert(self@ =~= OrchestrationView {
            input: before.input + output_of(response@),
            ..before
        });
        match prepare_searches(&calls) {
            Ok(searches) => Ok(RoundStep::Search(searches)),
            Err(message) => Err(message),
        }
    }

    /// Takes in the outputs of a round's searches, by call id, and goes on to the
    /// next round.
    pub fn on_search_outputs(&mut self, outputs: &Vec<(String, String)>)
        requires
            old(self).round < old(self).max_rounds,
        ensures
            final(self)@ == (OrchestrationView {
                input: old(self)@.input + call_outputs(outputs@),
                round: (old(self)@.round + 1) as u32,
                ..old(self)@
            }),
    {
        let ghost start = self@;
        let ghost view = call_outputs(outputs@);
        let mut i: usize = 0;
        assert(start.input + view.take(0) =~= start.input);
        while i < outputs.len()
            invariant
                view == call_outputs(outputs@),
                view.len() == outputs@.len(),
                i <= outputs.len(),
                self.round < self.max_rounds,
                self@ == (OrchestrationView {
                    input: start.input + view.take(i as int),
                    ..start
                }),
            decreases outputs.len() - i,
        {
            let ghost before = self@;
            let mut output = no_members();
            push_member(&mut output, "type", string("function_call_output"));
            push_member(&mut output, "call_id", string(outputs[i].0.as_str()));
            push_member(&mut output, "output", string(outputs[i].1.as_str()));
            push_item(&mut self.input_items, Json::Object(output));
            assert((start.input + view.take(i as int)).push(view[i as int]) =~= start.input
                + view.take(i + 1));
            i = i + 1;
        }
        assert(view.take(i as int) =~= view);
        self.round = self.round + 1;
    }
}

/// Between two rounds nothing of the input is lost: the earlier input, the model's
/// output, and the outputs of its searches follow each other.
pub proof fn lemma_input_grows(
    run: OrchestrationView,
    response: JsonView,
    outputs: Seq<JsonView>,
)
    requires
        response_taken(run, response).1 is Ok,
        response_taken(run, response).1->Ok_0 is Search,
    ensures
        response_taken(run, response).0.input == run.input + output_of(response),
        (response_taken(run, response).0.input + outputs).take(run.input.len() as int)
            == run.input,
{
    let told = run.input + output_of(response);
    assert((told + outputs).take(run.input.len() as int) =~= run.input);
}

/// Searches are asked for only where another model round may follow: no request
/// has more model rounds than its limit.
pub proof fn lemma_rounds_are_bounded(run: OrchestrationView, response: JsonView)
    requires
        run.round < run.max_rounds,
        response_taken(run, response).1 is Ok,
        response_taken(run, response).1->Ok_0 is Search,
    ensures
        run.round + 1 < run.max_rounds,
{
}

/// What is done with a request.
pub enum RequestDecision {
    /// It goes on to the next filter.
    Pass,
    /// It is answered with this response.
    Reject(Rejection),
    /// It is orchestrated.
    Orchestrate(Json),
}

/// The model of a [`RequestDecision`].
pub enum DecisionView {
    /// It goes on to the next filter.
    Pass,
    /// It is answered with this response.
    Reject(RejectionView),
    /// It is orchestrated.
    Orchestrate(JsonView),
}

impl View for RequestDecision {
    type V = DecisionView;

    open spec fn view(&self) -> DecisionView {
        match *self {
            RequestDecision::Pass => DecisionView::Pass,
            RequestDecision::Reject(rejection) => DecisionView::Reject(rejection@),
            RequestDecision::Orchestrate(request) => DecisionView::Orchestrate(request@),
        }
    }
}

/// The answer to a streaming request.
pub open spec fn streaming_refusal() -> JsonView {
    JsonView::Object(
        Seq::empty().push(
            (
                "error"@,
                JsonView::Object(
                    Seq::empty().push(
                        (
                            "message"@,
                            JsonView::String(
                                "streaming web_search orchestration is not supported by this blocking filter"@,
                            ),
                        ),
                    ),
                ),
            ),
        ),
    )
}

/// What is done with a parsed request.
pub open spec fn decision_on(request: JsonView) -> DecisionView {
    if !asks_for_search(request) {
        DecisionView::Pass
    } else if request.get("stream"@) == Some(JsonView::Bool(true)) {
        DecisionView::Reject(json_rejection(501, utf8(compact_text(streaming_refusal()))))
    } else {
        DecisionView::Orchestrate(request)
    }
}

/// Decides what is done with a parsed request: one without a hosted web search
/// goes on, a streaming one is refused.
pub fn decide_request(request: Json) -> (decision: RequestDecision)
    ensures
        decision@ == decision_on(request@),
{
    if !has_web_search(&request) {
        return RequestDecision::Pass;
    }
    let streams = match request.get("stream") {
        Some(value) => match value.as_bool() {
            Some(streams) => streams,
            None => false,
        },
        None => false,
    };
    if streams {
        let mut error = no_members();
        push_member(
            &mut error,
            "message",
            string("streaming web_search orchestration is not supported by this blocking filter"),
        );
        let mut body = no_members();
        push_member(&mut body, "error", Json::Object(error));
        return RequestDecision::Reject(reject_json(501, bytes_of(&Json::Object(body))));
    }
    RequestDecision::Orchestrate(request)
}

/// What is done with a request's body.
pub open spec fn body_decision(
    path: Seq<char>,
    body: Option<Seq<u8>>,
    end_of_stream: bool,
) -> Result<DecisionView, Seq<char>> {
    if !end_of_stream || path != "/v1/responses"@ || body is None {
        Ok(DecisionView::Pass)
    } else {
        match parsed(body->0) {
            Ok(request) => Ok(decision_on(request)),
            Err(message) => Err("openai_web_search request JSON: "@ + message),
        }
    }
}

/// The blocking filter in front of a model backend: it owns the loop between the
/// backend and the search service, and answers with the completed response.
pub struct WebSearchOrchestratorFilter {
    /// The configuration.
    pub config: WebSearchConfig,
    /// The key of the search service.
    pub api_key: String,
}

/// What a configuration and the environment variable that holds the key are
/// refused for.
pub open spec fn startup_error(config: WebSearchConfig, variable: Option<Seq<char>>) -> Option<
    Seq<char>,
> {
    if !is_usable(config) {
        Some(
            "openai_web_search requires a non-empty vllm_base_url, max_tool_rounds >= 2, and timeout_secs > 0"@,
        )
    } else if key_in(variable).len() == 0 {
        Some("openai_web_search requires YOU_API_KEY at startup"@)
    } else {
        None
    }
}

impl WebSearchOrchestratorFilter {
    /// Creates a filter from a configuration and the environment variable that
    /// holds the key of the search service.
    pub fn from_config(config: WebSearchConfig, variable: Option<&str>) -> (result: Result<
        Self,
        String,
    >)
        ensures
            ({
                let held = match variable {
                    Some(value) => Some(value@),
                    None => None,
                };
                match result {
                    Ok(filter) => startup_error(config, held) is None && filter.config == config
                        && filter.api_key@ == key_in(held),
                    Err(message) => startup_error(config, held) == Some(message@),
                }
            }),
    {
        if let Err(message) = validate_config(&config) {
            return Err(message);
        }
        match usable_api_key(variable) {
            Ok(api_key) => Ok(WebSearchOrchestratorFilter { config, api_key }),
            Err(message) => Err(message),
        }
    }

    /// The filter's name.
    pub fn name(&self) -> (name: &'static str)
        ensures
            name@ == "openai_web_search"@,
    {
        "openai_web_search"
    }

    /// The filter takes the request over.
    pub fn request_body_access(&self) -> (access: BodyAccess)
        ensures
            access == BodyAccess::ReadWrite,
    {
        BodyAccess::ReadWrite
    }

    /// The request's body is held back.
    pub fn request_body_mode(&self) -> (mode: BodyMode)
        ensures
            mode == (BodyMode::StreamBuffer { max_bytes: Some(MAX_BODY_BYTES) }),
    {
        BodyMode::StreamBuffer { max_bytes: Some(MAX_BODY_BYTES) }
    }

    /// Decides what is done with a request's body.
    pub fn on_request_body(&self, path: &str, body: &Option<Vec<u8>>, end_of_stream: bool) -> (result:
        Result<RequestDecision, String>)
        ensures
            ({
                let expected = body_decision(
                    path@,
                    match *body {
                        Some(bytes) => Some(bytes@),
                        None => None,
                    },
                    end_of_stream,
                );
                match result {
                    Ok(decision) => expected == Ok::<DecisionView, Seq<char>>(decision@),
                    Err(message) => expected == Err::<DecisionView, Seq<char>>(message@),
                }
            }),
    {
        if !end_of_stream || !same_text(path, "/v1/responses") {
            return Ok(RequestDecision::Pass);
        }
        let bytes = match body {
            Some(bytes) => bytes,
            None => return Ok(RequestDecision::Pass),
        };
        match parse_json(bytes.as_slice()) {
            Ok(request) => Ok(decide_request(request)),
            Err(message) => Err(join("openai_web_search request JSON: ", message.as_str())),
        }
    }
}

/// Answers a request with the response of its orchestration.
pub fn answer_with(response: &Json) -> (rejection: Rejection)
    ensures
        rejection@ == json_rejection(200, utf8(compact_text(response@))),
{
    reject_json(200, bytes_of(response))
}

} // verus!
