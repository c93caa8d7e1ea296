//! Search providers: the requests that are sent to them, and what their answers
//! hold.

use vstd::prelude::*;

use crate::header::{is_safe_value, parse_header_value};
use crate::json::{
    lemma_position_is, no_members, push_member, string, unsigned, Json, JsonView, NumberView,
};
use crate::json_text::{bytes_of, compact_text, parse_json, parsed};
use crate::openai::web_search::config::{
    results_of_size, FailureMode, SearchContextSize, SearchProvider, ValidatedConfig,
};
use crate::text::{decimal, join, push_decimal, utf8};
use vstd::string::StringExecFns;

verus! {

broadcast use crate::json_model::group_json_view;

/// A single search result.
pub struct SearchResult {
    /// Result title.
    pub title: String,
    /// Result URL.
    pub url: String,
    /// Snippet or description.
    pub snippet: String,
}

/// The model of a [`SearchResult`].
#[verifier::ext_equal]
pub struct ResultView {
    /// Result title.
    pub title: Seq<char>,
    /// Result URL.
    pub url: Seq<char>,
    /// Snippet or description.
    pub snippet: Seq<char>,
}

impl View for SearchResult {
    type V = ResultView;

    open spec fn view(&self) -> ResultView {
        ResultView { title: self.title@, url: self.url@, snippet: self.snippet@ }
    }
}

/// The models of search results.
pub open spec fn results_view(results: Seq<SearchResult>) -> Seq<ResultView> {
    Seq::new(results.len(), |i: int| results[i]@)
}

/// Outcome of a search execution.
pub enum SearchOutcome {
    /// Search succeeded with results.
    Results(Vec<SearchResult>),
    /// Search failed but failure mode is open: continue without results.
    Skipped,
    /// Search failed and failure mode is closed: reject with this HTTP status.
    Rejected(u16),
}

/// The model of a [`SearchOutcome`].
pub enum OutcomeView {
    /// Search succeeded with results.
    Results(Seq<ResultView>),
    /// Search failed but failure mode is open.
    Skipped,
    /// Search failed and failure mode is closed.
    Rejected(u16),
}

impl View for SearchOutcome {
    type V = OutcomeView;

    open spec fn view(&self) -> OutcomeView {
        match *self {
            SearchOutcome::Results(results) => OutcomeView::Results(results_view(results@)),
            SearchOutcome::Skipped => OutcomeView::Skipped,
            SearchOutcome::Rejected(status) => OutcomeView::Rejected(status),
        }
    }
}

/// What a callout to a provider came to.
pub enum CalloutOutcome {
    /// The provider answered with this body.
    Success(Vec<u8>),
    /// The callout failed, and failures are tolerated.
    Failed,
    /// The callout failed, and the request is to be rejected with this status.
    Rejected(u16),
}

/// A request to a provider.
pub struct SearchRequest {
    /// Whether the request is a `POST`; else it is a `GET`.
    pub is_post: bool,
    /// The URL.
    pub url: String,
    /// Header names, in lowercase, with the bytes of their values.
    pub headers: Vec<(&'static str, Vec<u8>)>,
    /// The body.
    pub body: Option<Vec<u8>>,
}

/// The model of a [`SearchRequest`].
#[verifier::ext_equal]
pub struct RequestView {
    /// Whether the request is a `POST`.
    pub is_post: bool,
    /// The URL.
    pub url: Seq<char>,
    /// Header names with the bytes of their values.
    pub headers: Seq<(Seq<char>, Seq<u8>)>,
    /// The body.
    pub body: Option<Seq<u8>>,
}

/// The models of headers.
pub open spec fn headers_view(headers: Seq<(&'static str, Vec<u8>)>) -> Seq<(Seq<char>, Seq<u8>)> {
    Seq::new(headers.len(), |i: int| (headers[i].0@, headers[i].1@))
}

impl View for SearchRequest {
    type V = RequestView;

    open spec fn view(&self) -> RequestView {
        RequestView {
            is_post: self.is_post,
            url: self.url@,
            headers: headers_view(self.headers@),
            body: match self.body {
                Some(body) => Some(body@),
                None => None,
            },
        }
    }
}

/// The uppercase hexadecimal digit of a value below sixteen.
pub open spec fn upper_hex(d: int) -> char {
    if d < 10 {
        (48 + d) as char
    } else {
        (55 + d) as char
    }
}

/// Whether a byte is an ASCII letter or digit.
pub open spec fn is_alphanumeric(byte: u8) -> bool {
    48 <= byte <= 57 || 65 <= byte <= 90 || 97 <= byte <= 122
}

/// Bytes in percent-encoding: ASCII letters and digits as they are, any other byte
/// as `%` and its two hexadecimal digits.
pub open spec fn percent_encoded(bytes: Seq<u8>) -> Seq<char>
    decreases bytes.len(),
{
    if bytes.len() == 0 {
        Seq::empty()
    } else {
        let front = percent_encoded(bytes.drop_last());
        let byte = bytes.last();
        if is_alphanumeric(byte) {
            front.push(byte as char)
        } else {
            front.push('%').push(upper_hex(byte as int / 16)).push(upper_hex(byte as int % 16))
        }
    }
}

/// `percent_encoding::utf8_percent_encode` with `NON_ALPHANUMERIC` gives the
/// percent-encoding of a text's UTF-8 bytes, in which only ASCII letters and
/// digits stand as they are.
#[verifier::external_body]
fn encode_query(text: &str) -> (encoded: String)
    ensures
        encoded@ == percent_encoded(utf8(text@)),
{
    percent_encoding::utf8_percent_encode(text, percent_encoding::NON_ALPHANUMERIC).to_string()
}

/// The bytes of a header value; empty where a header cannot hold the text.
pub open spec fn header_bytes(text: Seq<char>) -> Seq<u8> {
    if is_safe_value(text) {
        utf8(text)
    } else {
        Seq::empty()
    }
}

/// The bytes of a header value.
fn header_bytes_of(text: &str) -> (bytes: Vec<u8>)
    ensures
        bytes@ == header_bytes(text@),
{
    match parse_header_value(text) {
        Some(bytes) => bytes,
        None => Vec::new(),
    }
}

/// Adds a header.
fn push_header(headers: &mut Vec<(&'static str, Vec<u8>)>, name: &'static str, value: Vec<u8>)
    ensures
        headers_view(final(headers)@) == headers_view(old(headers)@).push((name@, value@)),
{
    let ghost before = headers_view(headers@);
    headers.push((name, value));
    assert(headers_view(headers@) =~= before.push((name@, value@)));
}

/// No headers.
fn no_headers() -> (headers: Vec<(&'static str, Vec<u8>)>)
    ensures
        headers_view(headers@) == Seq::<(Seq<char>, Seq<u8>)>::empty(),
{
    let headers: Vec<(&'static str, Vec<u8>)> = Vec::new();
    assert(headers_view(headers@) =~= Seq::empty());
    headers
}

/// A request to the Brave Search API.
pub open spec fn brave_request(api_key: Seq<char>, query: Seq<char>, count: u32) -> RequestView {
    RequestView {
        is_post: false,
        url: "https://api.search.brave.com/res/v1/web/search?q="@ + percent_encoded(utf8(query))
            + "&count="@ + decimal(count as nat),
        headers: Seq::empty().push(("accept"@, header_bytes("application/json"@))).push(
            ("x-subscription-token"@, header_bytes(api_key)),
        ),
        body: None,
    }
}

/// The body of a request to the Tavily Search API.
pub open spec fn tavily_body(
    api_key: Seq<char>,
    query: Seq<char>,
    size: SearchContextSize,
) -> JsonView {
    let depth = if size == SearchContextSize::High {
        "advanced"@
    } else {
        "basic"@
    };
    JsonView::Object(
        Seq::empty().push(("api_key"@, JsonView::String(api_key))).push(
            ("query"@, JsonView::String(query)),
        ).push(("search_depth"@, JsonView::String(depth))).push(
            (
                "max_results"@,
                crate::openai::stream_events::logical::number(results_of_size(size) as u64),
            ),
        ),
    )
}

/// A request to the Tavily Search API.
pub open spec fn tavily_request(
    api_key: Seq<char>,
    query: Seq<char>,
    size: SearchContextSize,
) -> RequestView {
    RequestView {
        is_post: true,
        url: "https://api.tavily.com/search"@,
        headers: Seq::empty().push(("content-type"@, header_bytes("application/json"@))).push(
            ("accept"@, header_bytes("application/json"@)),
        ),
        body: Some(utf8(compact_text(tavily_body(api_key, query, size)))),
    }
}

/// The body of a request to the You.com Search API.
pub open spec fn you_body(query: Seq<char>, count: u32) -> JsonView {
    JsonView::Object(
        Seq::empty().push(("query"@, JsonView::String(query))).push(
            ("count"@, crate::openai::stream_events::logical::number(count as u64)),
        ),
    )
}

/// A request to the You.com Search API.
pub open spec fn you_request(api_key: Seq<char>, query: Seq<char>, count: u32) -> RequestView {
    RequestView {
        is_post: true,
        url: "https://api.you.com/v1/search"@,
        headers: Seq::empty().push(("content-type"@, header_bytes("application/json"@))).push(
            ("accept"@, header_bytes("application/json"@)),
        ).push(("x-api-key"@, header_bytes(api_key))),
        body: Some(utf8(compact_text(you_body(query, count)))),
    }
}

/// The request of a search.
pub open spec fn search_request(
    provider: SearchProvider,
    api_key: Seq<char>,
    query: Seq<char>,
    size: SearchContextSize,
) -> RequestView {
    match provider {
        SearchProvider::Brave => brave_request(api_key, query, results_of_size(size)),
        SearchProvider::Tavily => tavily_request(api_key, query, size),
        SearchProvider::You => you_request(api_key, query, results_of_size(size)),
    }
}

/// One result, with its snippet in the member `snippet`; `None` where it has no
/// title or no URL.
pub open spec fn result_of(value: JsonView, snippet: Seq<char>) -> Option<ResultView> {
    match (value.get_text("title"@), value.get_text("url"@)) {
        (Some(title), Some(url)) => Some(
            ResultView {
                title,
                url,
                snippet: match value.get_text(snippet) {
                    Some(text) => text,
                    None => Seq::empty(),
                },
            },
        ),
        _ => None,
    }
}

/// The results among the given values; values that are no results are left out.
pub open spec fn results_among(values: Seq<JsonView>, snippet: Seq<char>) -> Seq<ResultView>
    decreases values.len(),
{
    if values.len() == 0 {
        Seq::empty()
    } else {
        let front = results_among(values.drop_last(), snippet);
        match result_of(values.last(), snippet) {
            Some(result) => front.push(result),
            None => front,
        }
    }
}

/// The items of the member `name` of an optional value, none where it is no array.
pub open spec fn items_under(value: Option<JsonView>, name: Seq<char>) -> Seq<JsonView> {
    match value {
        Some(value) => match value.get(name) {
            Some(JsonView::Array(items)) => items,
            _ => Seq::empty(),
        },
        None => Seq::empty(),
    }
}

/// The results of an answer of the Brave Search API.
pub open spec fn brave_results(answer: JsonView) -> Seq<ResultView> {
    results_among(items_under(answer.get("web"@), "results"@), "description"@)
}

/// The results of an answer of the Tavily Search API.
pub open spec fn tavily_results(answer: JsonView) -> Seq<ResultView> {
    results_among(items_under(Some(answer), "results"@), "content"@)
}

/// The results of an answer of the You.com Search API: those of the web, then the
/// news.
pub open spec fn you_results(answer: JsonView) -> Seq<ResultView> {
    results_among(items_under(answer.get("results"@), "web"@), "description"@) + results_among(
        items_under(answer.get("results"@), "news"@),
        "description"@,
    )
}

/// The results of a provider's answer.
pub open spec fn provider_results(provider: SearchProvider, answer: JsonView) -> Seq<ResultView> {
    match provider {
        SearchProvider::Brave => brave_results(answer),
        SearchProvider::Tavily => tavily_results(answer),
        SearchProvider::You => you_results(answer),
    }
}

/// Adds the results among the items of the member `name` of `value`.
fn push_results(
    results: &mut Vec<SearchResult>,
    value: Option<&Json>,
    name: &str,
    snippet: &str,
)
    ensures
        results_view(final(results)@) == results_view(old(results)@) + results_among(
            items_under(
                match value {
                    Some(value) => Some(value@),
                    None => None,
                },
                name@,
            ),
            snippet@,
        ),
{
    let ghost start = results_view(results@);
    assert(start + Seq::<ResultView>::empty() =~= start);
    let value = match value {
        Some(value) => value,
        None => return,
    };
    let items = match value.get(name) {
        Some(Json::Array(items)) => items,
        _ => return,
    };
    let ghost view = crate::json::items_view(items@);
    let mut i: usize = 0;
    assert(results_among(view.take(0), snippet@) =~= Seq::empty());
    while i < items.len()
        invariant
            view == crate::json::items_view(items@),
            i <= items.len(),
            results_view(results@) == start + results_among(view.take(i as int), snippet@),
        decreases items.len() - i,
    {
        let item = &items[i];
        assert(view.take(i + 1).drop_last() =~= view.take(i as int));
        assert(view.take(i + 1).last() == item@);
        let ghost before = results_view(results@);
        if let Some(title) = item.get_str("title") {
            if let Some(url) = item.get_str("url") {
                let text = match item.get_str(snippet) {
                    Some(text) => text.to_owned(),
                    None => String::new(),
                };
                let result = SearchResult { title: title.to_owned(), url: url.to_owned(), snippet: text };
                assert(result@ =~= result_of(item@, snippet@)->0);
                results.push(result);
                assert(results_view(results@) =~= before.push(result@));
                assert(results_view(results@) =~= start + results_among(
                    view.take(i + 1),
                    snippet@,
                ));
            }
        }
        i = i + 1;
    }
    assert(view.take(i as int) =~= view);
}

/// No results.
fn no_results() -> (results: Vec<SearchResult>)
    ensures
        results_view(results@) == Seq::<ResultView>::empty(),
{
    let results: Vec<SearchResult> = Vec::new();
    assert(results_view(results@) =~= Seq::empty());
    results
}

/// Parses an answer of the Brave Search API.
pub fn parse_brave_results(json: &Json) -> (results: Vec<SearchResult>)
    ensures
        results_view(results@) == brave_results(json@),
{
    let mut results = no_results();
    push_results(&mut results, json.get("web"), "results", "description");
    assert(results_view(results@) =~= brave_results(json@));
    results
}

/// Parses an answer of the Tavily Search API.
pub fn parse_tavily_results(json: &Json) -> (results: Vec<SearchResult>)
    ensures
        results_view(results@) == tavily_results(json@),
{
    let mut results = no_results();
    push_results(&mut results, Some(json), "results", "content");
    assert(results_view(results@) =~= tavily_results(json@));
    results
}

/// Parses an answer of the You.com Search API.
pub fn parse_you_results(json: &Json) -> (results: Vec<SearchResult>)
    ensures
        results_view(results@) == you_results(json@),
{
    let mut results = no_results();
    push_results(&mut results, json.get("results"), "web", "description");
    push_results(&mut results, json.get("results"), "news", "description");
    assert(results_view(results@) =~= you_results(json@));
    results
}

/// How callouts to a provider are made.
#[derive(Clone, Copy, Debug, PartialEq, Eq, Structural)]
pub struct CalloutConfig {
    /// Failures in a row after which callouts are suspended.
    pub consecutive_failures: u32,
    /// How long callouts are suspended, in milliseconds.
    pub recovery_window_ms: u64,
    /// What a failed callout does to the request.
    pub failure_mode: FailureMode,
    /// HTTP status of a rejected request.
    pub status_on_error: u16,
    /// How long a callout may take, in milliseconds.
    pub timeout_ms: u64,
}

/// Builds the callout configuration: after five failures in a row callouts are
/// suspended for thirty seconds.
pub fn build_callout_config(config: &ValidatedConfig) -> (callouts: CalloutConfig)
    ensures
        callouts == (CalloutConfig {
            consecutive_failures: 5,
            recovery_window_ms: 30000,
            failure_mode: config.failure_mode,
            status_on_error: config.status_on_error,
            timeout_ms: config.timeout_ms,
        }),
{
    CalloutConfig {
        consecutive_failures: 5,
        recovery_window_ms: 30000,
        failure_mode: config.failure_mode,
        status_on_error: config.status_on_error,
        timeout_ms: config.timeout_ms,
    }
}

/// What is decided of a search, without the connection it runs over.
pub struct SearchClient {
    /// Search backend provider.
    pub provider: SearchProvider,
    /// API key for the search provider.
    pub api_key: String,
    /// Default search context size.
    pub default_context_size: SearchContextSize,
    /// Failure mode governing what happens on parse errors.
    pub failure_mode: FailureMode,
    /// HTTP status to return on rejection.
    pub status_on_error: u16,
}

/// What an answer that cannot be parsed comes to.
pub open spec fn parse_failure(mode: FailureMode, status_on_error: u16) -> OutcomeView {
    match mode {
        FailureMode::Closed => OutcomeView::Rejected(status_on_error),
        FailureMode::Open => OutcomeView::Skipped,
    }
}

/// What a provider's answer comes to, where `answer` is what parsing it gave.
pub open spec fn answer_outcome(client: SearchClient, answer: Result<JsonView, Seq<char>>) -> OutcomeView {
    match answer {
        Ok(answer) => OutcomeView::Results(provider_results(client.provider, answer)),
        Err(_) => parse_failure(client.failure_mode, client.status_on_error),
    }
}

impl SearchClient {
    /// Builds a search client from a validated configuration.
    pub fn from_config(config: &ValidatedConfig) -> (client: Self)
        ensures
            client.provider == config.provider,
            client.api_key@ == config.api_key@,
            client.default_context_size == config.default_context_size,
            client.failure_mode == config.failure_mode,
            client.status_on_error == config.status_on_error,
    {
        SearchClient {
            provider: config.provider,
            api_key: config.api_key.clone(),
            default_context_size: config.default_context_size,
            failure_mode: config.failure_mode,
            status_on_error: config.status_on_error,
        }
    }

    /// Builds the request of a search.
    pub fn build_request(&self, query: &str, context_size: Option<SearchContextSize>) -> (request:
        SearchRequest)
        ensures
            request@ == search_request(
                self.provider,
                self.api_key@,
                query@,
                match context_size {
                    Some(size) => size,
                    None => self.default_context_size,
                },
            ),
    {
        let size = match context_size {
            Some(size) => size,
            None => self.default_context_size,
        };
        let count = size.result_count();
        match self.provider {
            SearchProvider::Brave => self.build_brave_request(query, count),
            SearchProvider::Tavily => self.build_tavily_request(query, size),
            SearchProvider::You => self.build_you_request(query, count),
        }
    }

    /// Builds a Brave Search API request.
    pub fn build_brave_request(&self, query: &str, count: u32) -> (request: SearchRequest)
        ensures
            request@ == brave_request(self.api_key@, query@, count),
    {
        let mut url = join(
            "https://api.search.brave.com/res/v1/web/search?q=",
            encode_query(query).as_str(),
        );
        url.append("&count=");
        push_decimal(&mut url, count as u64);
        let mut headers = no_headers();
        push_header(&mut headers, "accept", header_bytes_of("application/json"));
        push_header(&mut headers, "x-subscription-token", header_bytes_of(self.api_key.as_str()));
        SearchRequest { is_post: false, url, headers, body: None }
    }

    /// Builds a Tavily Search API request.
    pub fn build_tavily_request(&self, query: &str, context_size: SearchContextSize) -> (request:
        SearchRequest)
        ensures
            request@ == tavily_request(self.api_key@, query@, context_size),
    {
        let search_depth = match context_size {
            SearchContextSize::Low => "basic",
            SearchContextSize::Medium => "basic",
            SearchContextSize::High => "advanced",
        };
        let mut body = no_members();
        push_member(&mut body, "api_key", string(self.api_key.as_str()));
        push_member(&mut body, "query", string(query));
        push_member(&mut body, "search_depth", string(search_depth));
        push_member(&mut body, "max_results", unsigned(context_size.result_count() as u64));
        let mut headers = no_headers();
        push_header(&mut headers, "content-type", header_bytes_of("application/json"));
        push_header(&mut headers, "accept", header_bytes_of("application/json"));
        SearchRequest {
            is_post: true,
            url: "https://api.tavily.com/search".to_owned(),
            headers,
            body: Some(bytes_of(&Json::Object(body))),
        }
    }

    /// Builds a You.com Search API request.
    pub fn build_you_request(&self, query: &str, count: u32) -> (request: SearchRequest)
        ensures
            request@ == you_request(self.api_key@, query@, count),
    {
        let mut body = no_members();
        push_member(&mut body, "query", string(query));
        push_member(&mut body, "count", unsigned(count as u64));
        let mut headers = no_headers();
        push_header(&mut headers, "content-type", header_bytes_of("application/json"));
        push_header(&mut headers, "accept", header_bytes_of("application/json"));
        push_header(&mut headers, "x-api-key", header_bytes_of(self.api_key.as_str()));
        SearchRequest {
            is_post: true,
            url: "https://api.you.com/v1/search".to_owned(),
            headers,
            body: Some(bytes_of(&Json::Object(body))),
        }
    }

    /// Maps what a callout came to onto what the search comes to.
    pub fn handle_callout_result(&self, result: CalloutOutcome) -> (outcome: SearchOutcome)
        ensures
            outcome@ == (match result {
                CalloutOutcome::Success(body) => answer_outcome(*self, parsed(body@)),
                CalloutOutcome::Failed => OutcomeView::Skipped,
                CalloutOutcome::Rejected(status) => OutcomeView::Rejected(status),
            }),
    {
        match result {
            CalloutOutcome::Success(body) => self.parse_response(body.as_slice()),
            CalloutOutcome::Failed => SearchOutcome::Skipped,
            CalloutOutcome::Rejected(status) => SearchOutcome::Rejected(status),
        }
    }

    /// Parses search results from the provider's answer.
    pub fn parse_response(&self, body: &[u8]) -> (outcome: SearchOutcome)
        ensures
            outcome@ == answer_outcome(*self, parsed(body@)),
    {
        self.read_answer(parse_json(body))
    }

    /// Reads the search results from a provider's parsed answer.
    pub fn read_answer(&self, answer: Result<Json, String>) -> (outcome: SearchOutcome)
        ensures
            outcome@ == answer_outcome(
                *self,
                match answer {
                    Ok(json) => Ok(json@),
                    Err(message) => Err(message@),
                },
            ),
    {
        match answer {
            Ok(json) => SearchOutcome::Results(
                match self.provider {
                    SearchProvider::Brave => parse_brave_results(&json),
                    SearchProvider::Tavily => parse_tavily_results(&json),
                    SearchProvider::You => parse_you_results(&json),
                },
            ),
            Err(_) => self.parse_failure_outcome(),
        }
    }

    /// Outcome for an answer that could not be parsed: an error in closed mode,
    /// silently skipped in open mode.
    pub fn parse_failure_outcome(&self) -> (outcome: SearchOutcome)
        ensures
            outcome@ == parse_failure(self.failure_mode, self.status_on_error),
    {
        match self.failure_mode {
            FailureMode::Closed => SearchOutcome::Rejected(self.status_on_error),
            FailureMode::Open => SearchOutcome::Skipped,
        }
    }
}

/// Every result that is read has the title and the URL of some item, in the order
/// of the items.
pub proof fn lemma_results_come_from_items(values: Seq<JsonView>, snippet: Seq<char>)
    ensures
        results_among(values, snippet).len() <= values.len(),
        forall|k: int|
            0 <= k < results_among(values, snippet).len() ==> exists|i: int|
                0 <= i < values.len() && result_of(#[trigger] values[i], snippet) == Some(
                    #[trigger] results_among(values, snippet)[k],
                ),
    decreases values.len(),
{
    if values.len() > 0 {
        let front = values.drop_last();
        lemma_results_come_from_items(front, snippet);
        let all = results_among(values, snippet);
        let earlier = results_among(front, snippet);
        assert forall|k: int| 0 <= k < all.len() implies exists|i: int|
            0 <= i < values.len() && result_of(#[trigger] values[i], snippet) == Some(
                #[trigger] all[k],
            ) by {
            if k < earlier.len() {
                let i = choose|i: int|
                    0 <= i < front.len() && result_of(#[trigger] front[i], snippet) == Some(
                        earlier[k],
                    );
                assert(values[i] == front[i]);
                assert(all[k] == earlier[k]);
            } else {
                assert(values[values.len() - 1] == values.last());
            }
        }
    }
}

/// Whether a value is a search result: it has a title and a URL.
pub open spec fn is_hit(value: JsonView) -> bool {
    &&& value.get("title"@) is Some && value.get("title"@)->0 is String
    &&& value.get("url"@) is Some && value.get("url"@)->0 is String
}

/// How many of the first `n` values are search results.
pub open spec fn hits_before(values: Seq<JsonView>, n: int) -> nat
    decreases n,
{
    if n <= 0 {
        0
    } else if is_hit(values[n - 1]) {
        hits_before(values, n - 1) + 1
    } else {
        hits_before(values, n - 1)
    }
}

/// Whether results are those among values, one by one and in order, each with its own
/// title, URL and snippet.
pub open spec fn reads_hits(
    results: Seq<ResultView>,
    values: Seq<JsonView>,
    snippet: Seq<char>,
) -> bool {
    &&& results.len() == hits_before(values, values.len() as int)
    &&& forall|i: int|
        0 <= i < values.len() && is_hit(#[trigger] values[i]) ==> {
            let result = results[hits_before(values, i) as int];
            &&& hits_before(values, i) < results.len()
            &&& values[i].get("title"@) == Some(JsonView::String(result.title))
            &&& values[i].get("url"@) == Some(JsonView::String(result.url))
            &&& match values[i].get(snippet) {
                Some(JsonView::String(text)) => result.snippet == text,
                _ => result.snippet.len() == 0,
            }
        }
}

/// The values that a list holds.
pub open spec fn list_at(value: Option<JsonView>, name: Seq<char>) -> Seq<JsonView> {
    match value {
        Some(held) => match held.get(name) {
            Some(JsonView::Array(values)) => values,
            _ => Seq::empty(),
        },
        None => Seq::empty(),
    }
}

/// The results among values are read one by one.
proof fn lemma_hits_are_read(values: Seq<JsonView>, snippet: Seq<char>)
    ensures
        reads_hits(results_among(values, snippet), values, snippet),
    decreases values.len(),
{
    if values.len() > 0 {
        let front = values.drop_last();
        lemma_hits_are_read(front, snippet);
        lemma_hits_of_front(values, front.len() as int);
        let all = results_among(values, snippet);
        let earlier = results_among(front, snippet);
        assert(values.last() == values[values.len() - 1]);
        assert forall|i: int| 0 <= i < values.len() && is_hit(#[trigger] values[i]) implies {
            let result = all[hits_before(values, i) as int];
            &&& hits_before(values, i) < all.len()
            &&& values[i].get("title"@) == Some(JsonView::String(result.title))
            &&& values[i].get("url"@) == Some(JsonView::String(result.url))
            &&& match values[i].get(snippet) {
                Some(JsonView::String(text)) => result.snippet == text,
                _ => result.snippet.len() == 0,
            }
        } by {
            if i < front.len() {
                assert(front[i] == values[i]);
                lemma_hits_of_front(values, i);
                assert(all[hits_before(values, i) as int] == earlier[hits_before(front, i) as int]);
            }
        }
    }
}

/// Counting in the front of values is counting in them.
proof fn lemma_hits_of_front(values: Seq<JsonView>, n: int)
    requires
        0 <= n < values.len(),
    ensures
        hits_before(values.drop_last(), n) == hits_before(values, n),
    decreases n,
{
    if n > 0 {
        lemma_hits_of_front(values, n - 1);
        assert(values.drop_last()[n - 1] == values[n - 1]);
    }
}

/// Every result of a provider's answer is read, and nothing else: those of the web
/// for the Brave Search API, those of the list for the Tavily Search API, those of the
/// web and behind them the news for the You.com Search API.
pub proof fn lemma_every_result_is_read(provider: SearchProvider, answer: JsonView)
    ensures
        ({
            let results = provider_results(provider, answer);
            match provider {
                SearchProvider::Brave => reads_hits(
                    results,
                    list_at(answer.get("web"@), "results"@),
                    "description"@,
                ),
                SearchProvider::Tavily => reads_hits(
                    results,
                    list_at(Some(answer), "results"@),
                    "content"@,
                ),
                SearchProvider::You => {
                    let web = list_at(answer.get("results"@), "web"@);
                    let news = list_at(answer.get("results"@), "news"@);
                    let n = hits_before(web, web.len() as int) as int;
                    &&& n <= results.len()
                    &&& reads_hits(results.take(n), web, "description"@)
                    &&& reads_hits(results.skip(n), news, "description"@)
                },
            }
        }),
{
    match provider {
        SearchProvider::Brave => lemma_hits_are_read(
            list_at(answer.get("web"@), "results"@),
            "description"@,
        ),
        SearchProvider::Tavily => lemma_hits_are_read(
            list_at(Some(answer), "results"@),
            "content"@,
        ),
        SearchProvider::You => {
            let web = list_at(answer.get("results"@), "web"@);
            let news = list_at(answer.get("results"@), "news"@);
            lemma_hits_are_read(web, "description"@);
            lemma_hits_are_read(news, "description"@);
            let results = you_results(answer);
            let n = hits_before(web, web.len() as int) as int;
            assert(results.take(n) =~= results_among(web, "description"@));
            assert(results.skip(n) =~= results_among(news, "description"@));
        },
    }
}

/// Whether a request has a header with a value.
pub open spec fn has_header(request: RequestView, name: Seq<char>, value: Seq<char>) -> bool {
    exists|i: int|
        0 <= i < request.headers.len() && #[trigger] request.headers[i] == (name, utf8(value))
}

/// Whether a request posts a JSON value.
pub open spec fn posts(request: RequestView, value: JsonView) -> bool {
    request.is_post && request.body == Some(utf8(compact_text(value)))
}

/// A request carries the key, the query and the number of results that its context
/// size asks for, where its provider expects them.
pub proof fn lemma_request_carries_query(
    provider: SearchProvider,
    api_key: Seq<char>,
    query: Seq<char>,
    size: SearchContextSize,
)
    requires
        is_safe_value(api_key),
    ensures
        ({
            let request = search_request(provider, api_key, query, size);
            let count = match size {
                SearchContextSize::Low => 3u64,
                SearchContextSize::Medium => 5u64,
                SearchContextSize::High => 10u64,
            };
            match provider {
                SearchProvider::Brave => {
                    &&& !request.is_post && request.body is None
                    &&& request.url == "https://api.search.brave.com/res/v1/web/search?q="@
                        + percent_encoded(utf8(query)) + "&count="@ + decimal(count as nat)
                    &&& has_header(request, "x-subscription-token"@, api_key)
                },
                SearchProvider::Tavily => {
                    &&& request.url == "https://api.tavily.com/search"@
                    &&& has_header(request, "content-type"@, "application/json"@)
                    &&& exists|value: JsonView|
                        #[trigger] posts(request, value) && value.get("api_key"@) == Some(
                            JsonView::String(api_key),
                        ) && value.get("query"@) == Some(JsonView::String(query)) && value.get(
                            "max_results"@,
                        ) == Some(JsonView::Number(NumberView::Unsigned(count))) && value.get(
                            "search_depth"@,
                        ) == Some(
                            JsonView::String(
                                if size == SearchContextSize::High {
                                    "advanced"@
                                } else {
                                    "basic"@
                                },
                            ),
                        )
                },
                SearchProvider::You => {
                    &&& request.url == "https://api.you.com/v1/search"@
                    &&& has_header(request, "content-type"@, "application/json"@)
                    &&& has_header(request, "x-api-key"@, api_key)
                    &&& exists|value: JsonView|
                        #[trigger] posts(request, value) && value.get("query"@) == Some(
                            JsonView::String(query),
                        ) && value.get("count"@) == Some(
                            JsonView::Number(NumberView::Unsigned(count)),
                        )
                },
            }
        }),
{
    reveal_strlit("application/json");
    reveal_strlit("api_key");
    reveal_strlit("query");
    reveal_strlit("search_depth");
    reveal_strlit("max_results");
    reveal_strlit("count");
    assert("api_key"@.len() == 7 && "query"@.len() == 5 && "search_depth"@.len() == 12);
    assert("max_results"@.len() == 11 && "count"@.len() == 5);
    assert("query"@[0] == 'q' && "count"@[0] == 'c');
    assert(is_safe_value("application/json"@));
    let request = search_request(provider, api_key, query, size);
    match provider {
        SearchProvider::Brave => {
            assert(request.headers[1] == ("x-subscription-token"@, utf8(api_key)));
        },
        SearchProvider::Tavily => {
            assert(request.headers[0] == ("content-type"@, utf8("application/json"@)));
            let value = tavily_body(api_key, query, size);
            lemma_position_is(value->Object_0, "api_key"@, 0);
            lemma_position_is(value->Object_0, "query"@, 1);
            lemma_position_is(value->Object_0, "search_depth"@, 2);
            lemma_position_is(value->Object_0, "max_results"@, 3);
            assert(posts(request, value));
        },
        SearchProvider::You => {
            assert(request.headers[0] == ("content-type"@, utf8("application/json"@)));
            assert(request.headers[2] == ("x-api-key"@, utf8(api_key)));
            let value = you_body(query, results_of_size(size));
            lemma_position_is(value->Object_0, "query"@, 0);
            lemma_position_is(value->Object_0, "count"@, 1);
            assert(posts(request, value));
        },
    }
}

/// An answer that is JSON is never a failure; one that is not is what the failure
/// mode says: rejected with the configured status, or left out.
pub proof fn lemma_answer_is_told_apart(client: SearchClient, answer: Result<JsonView, Seq<char>>)
    ensures
        match answer_outcome(client, answer) {
            OutcomeView::Results(_) => answer is Ok,
            OutcomeView::Rejected(status) => answer is Err && client.failure_mode
                == FailureMode::Closed && status == client.status_on_error,
            OutcomeView::Skipped => answer is Err && client.failure_mode == FailureMode::Open,
        },
{
}

} // verus!
