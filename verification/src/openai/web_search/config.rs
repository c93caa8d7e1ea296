//! Configuration of the web-search filter.

use vstd::prelude::*;

use crate::filter::MAX_JSON_BODY_BYTES;
use crate::text::{
    begins_with, chars_of, decimal, join, push_decimal, same_text, starts_with, string_between,
    trim, trimmed, with_decimal,
};
use vstd::string::StringExecFns;

verus! {

/// Default callout timeout (10 seconds).
pub const DEFAULT_TIMEOUT_MS: u64 = 10000;

/// Default HTTP status when the search callout fails in closed mode.
pub const DEFAULT_STATUS_ON_ERROR: u16 = 502;

/// Supported search backend providers.
#[derive(Clone, Copy, Debug, PartialEq, Eq, Structural)]
pub enum SearchProvider {
    /// Brave Search API.
    Brave,
    /// Tavily Search API.
    Tavily,
    /// You.com Search API.
    You,
}

impl SearchProvider {
    /// Provider name for logging and diagnostics.
    pub fn as_str(self) -> (name: &'static str)
        ensures
            name@ == (match self {
                SearchProvider::Brave => "brave"@,
                SearchProvider::Tavily => "tavily"@,
                SearchProvider::You => "you"@,
            }),
    {
        match self {
            SearchProvider::Brave => "brave",
            SearchProvider::Tavily => "tavily",
            SearchProvider::You => "you",
        }
    }
}

/// Controls how much surrounding context to fetch with results.
#[derive(Clone, Copy, Debug, PartialEq, Eq, Structural)]
pub enum SearchContextSize {
    /// Minimal context: fewer results, faster.
    Low,
    /// Balanced context (default).
    Medium,
    /// Maximum context: more results, slower.
    High,
}

/// The context size of a name.
pub open spec fn context_size_of(name: Seq<char>) -> Option<SearchContextSize> {
    if name == "low"@ {
        Some(SearchContextSize::Low)
    } else if name == "medium"@ {
        Some(SearchContextSize::Medium)
    } else if name == "high"@ {
        Some(SearchContextSize::High)
    } else {
        None
    }
}

/// The context size of a name, `Medium` where it is unknown.
pub open spec fn context_size_or_medium(name: Seq<char>) -> SearchContextSize {
    match context_size_of(name) {
        Some(size) => size,
        None => SearchContextSize::Medium,
    }
}

/// The number of results that a context size asks for.
pub open spec fn results_of_size(size: SearchContextSize) -> u32 {
    match size {
        SearchContextSize::Low => 3,
        SearchContextSize::Medium => 5,
        SearchContextSize::High => 10,
    }
}

impl SearchContextSize {
    /// Parses a name, returning `None` on an unknown one.
    pub fn from_str(s: &str) -> (size: Option<Self>)
        ensures
            size == context_size_of(s@),
    {
        if same_text(s, "low") {
            Some(SearchContextSize::Low)
        } else if same_text(s, "medium") {
            Some(SearchContextSize::Medium)
        } else if same_text(s, "high") {
            Some(SearchContextSize::High)
        } else {
            None
        }
    }

    /// Parses a name, defaulting to `Medium` on an unknown one.
    pub fn from_str_or_default(s: &str) -> (size: Self)
        ensures
            size == context_size_or_medium(s@),
    {
        match SearchContextSize::from_str(s) {
            Some(size) => size,
            None => SearchContextSize::Medium,
        }
    }

    /// Result count hint for search API queries.
    pub fn result_count(self) -> (count: u32)
        ensures
            count == results_of_size(self),
    {
        match self {
            SearchContextSize::Low => 3,
            SearchContextSize::Medium => 5,
            SearchContextSize::High => 10,
        }
    }
}

/// What happens when a search callout fails.
#[derive(Clone, Copy, Debug, PartialEq, Eq, Structural)]
pub enum FailureMode {
    /// Reject the request on search failure (default).
    Closed,
    /// Continue without search results on failure.
    Open,
}

/// Raw configuration, before validation.
pub struct WebSearchFilterConfig {
    /// Search backend provider.
    pub provider: SearchProvider,
    /// API key for the search provider; `${NAME}` names an environment variable.
    pub api_key: Option<String>,
    /// Default search context size when the client omits it.
    pub default_context_size: Option<String>,
    /// Callout timeout in milliseconds.
    pub timeout_ms: Option<u64>,
    /// Maximum request body bytes to buffer.
    pub max_body_bytes: Option<usize>,
    /// Failure mode for search callouts.
    pub failure_mode: Option<FailureMode>,
    /// HTTP status code to return when rejecting on error.
    pub status_on_error: Option<u16>,
}

/// Validated configuration with defaults applied.
pub struct ValidatedConfig {
    /// Search backend provider.
    pub provider: SearchProvider,
    /// Resolved API key.
    pub api_key: String,
    /// Default search context size.
    pub default_context_size: SearchContextSize,
    /// Callout timeout in milliseconds.
    pub timeout_ms: u64,
    /// Maximum request body bytes to buffer.
    pub max_body_bytes: usize,
    /// Failure mode for search callouts.
    pub failure_mode: FailureMode,
    /// HTTP status on error.
    pub status_on_error: u16,
}

/// The model of a [`ValidatedConfig`].
#[verifier::ext_equal]
pub struct ValidatedView {
    /// Search backend provider.
    pub provider: SearchProvider,
    /// Resolved API key.
    pub api_key: Seq<char>,
    /// Default search context size.
    pub default_context_size: SearchContextSize,
    /// Callout timeout in milliseconds.
    pub timeout_ms: u64,
    /// Maximum request body bytes to buffer.
    pub max_body_bytes: usize,
    /// Failure mode for search callouts.
    pub failure_mode: FailureMode,
    /// HTTP status on error.
    pub status_on_error: u16,
}

impl View for ValidatedConfig {
    type V = ValidatedView;

    open spec fn view(&self) -> ValidatedView {
        ValidatedView {
            provider: self.provider,
            api_key: self.api_key@,
            default_context_size: self.default_context_size,
            timeout_ms: self.timeout_ms,
            max_body_bytes: self.max_body_bytes,
            failure_mode: self.failure_mode,
            status_on_error: self.status_on_error,
        }
    }
}

/// Where an API key comes from.
pub enum ApiKeySource {
    /// The key itself.
    Literal(String),
    /// The environment variable of this name.
    Variable(String),
}

/// The model of an [`ApiKeySource`].
pub enum KeySourceView {
    /// The key itself.
    Literal(Seq<char>),
    /// The environment variable of this name.
    Variable(Seq<char>),
}

impl View for ApiKeySource {
    type V = KeySourceView;

    open spec fn view(&self) -> KeySourceView {
        match *self {
            ApiKeySource::Literal(key) => KeySourceView::Literal(key@),
            ApiKeySource::Variable(name) => KeySourceView::Variable(name@),
        }
    }
}

/// Where the key of a configuration comes from: `${NAME}` names a variable,
/// anything else is the key itself. White space around it does not count.
pub open spec fn key_source_of(raw: Seq<char>) -> KeySourceView {
    let bare = trimmed(raw);
    if begins_with(bare, "${"@) && bare.len() > 2 && bare.last() == '}' {
        KeySourceView::Variable(bare.subrange(2, bare.len() - 1))
    } else {
        KeySourceView::Literal(bare)
    }
}

/// Tells where the key of a configuration comes from.
pub fn api_key_source(raw: &str) -> (source: ApiKeySource)
    ensures
        source@ == key_source_of(raw@),
{
    let bare = trim(raw);
    let chars = chars_of(bare.as_str());
    let n = chars.len();
    proof {
        reveal_strlit("${");
    }
    if starts_with(bare.as_str(), "${") && n > 2 && chars[n - 1] == '}' {
        ApiKeySource::Variable(string_between(&chars, 2, n - 1))
    } else {
        ApiKeySource::Literal(bare)
    }
}

/// The outcome of looking a variable up.
pub open spec fn lookup_view(variable: Result<String, String>) -> Result<Seq<char>, Seq<char>> {
    match variable {
        Ok(value) => Ok(value@),
        Err(error) => Err(error@),
    }
}

/// The message for a variable that is not set.
pub open spec fn unset_message(name: Seq<char>, error: Seq<char>) -> Seq<char> {
    "openai_web_search: environment variable "@ + name + " not set for api_key: "@ + error
}

/// The key of a configuration, where `variable` is what looking its variable up
/// gave.
pub open spec fn resolved_key(raw: Seq<char>, variable: Result<Seq<char>, Seq<char>>) -> Result<
    Seq<char>,
    Seq<char>,
> {
    match key_source_of(raw) {
        KeySourceView::Literal(key) => Ok(key),
        KeySourceView::Variable(name) => match variable {
            Ok(value) => Ok(value),
            Err(error) => Err(unset_message(name, error)),
        },
    }
}

/// Whether `result` is the text or the message `expected`.
pub open spec fn text_result_is(
    result: Result<String, String>,
    expected: Result<Seq<char>, Seq<char>>,
) -> bool {
    lookup_view(result) == expected
}

/// Resolves `${NAME}` references in the API key, where `variable` is what looking
/// the named variable up gave.
pub fn resolve_api_key(raw: &str, variable: &Result<String, String>) -> (result: Result<
    String,
    String,
>)
    ensures
        text_result_is(result, resolved_key(raw@, lookup_view(*variable))),
{
    match api_key_source(raw) {
        ApiKeySource::Literal(key) => Ok(key),
        ApiKeySource::Variable(name) => match variable {
            Ok(value) => Ok(value.clone()),
            Err(error) => {
                let mut message = join("openai_web_search: environment variable ", name.as_str());
                message.append(" not set for api_key: ");
                message.append(error.as_str());
                Err(message)
            },
        },
    }
}

/// The timeout of a configuration.
pub open spec fn timeout_of(raw: Option<u64>) -> Result<u64, Seq<char>> {
    let value = match raw {
        Some(value) => value,
        None => DEFAULT_TIMEOUT_MS,
    };
    if value == 0 {
        Err("openai_web_search: timeout_ms must be greater than 0"@)
    } else {
        Ok(value)
    }
}

/// Validates the timeout, applying the default and rejecting zero.
fn validate_timeout_ms(raw: Option<u64>) -> (result: Result<u64, String>)
    ensures
        match result {
            Ok(value) => timeout_of(raw) == Ok::<u64, Seq<char>>(value),
            Err(message) => timeout_of(raw) == Err::<u64, Seq<char>>(message@),
        },
{
    let value = raw.unwrap_or(DEFAULT_TIMEOUT_MS);
    if value == 0 {
        return Err("openai_web_search: timeout_ms must be greater than 0".to_owned());
    }
    Ok(value)
}

/// The status of a configuration.
pub open spec fn status_of(raw: Option<u16>) -> Result<u16, Seq<char>> {
    let value = match raw {
        Some(value) => value,
        None => DEFAULT_STATUS_ON_ERROR,
    };
    if value < 100 || value > 599 {
        Err(
            "openai_web_search: status_on_error must be between 100 and 599, got "@ + decimal(
                value as nat,
            ),
        )
    } else {
        Ok(value)
    }
}

/// Validates the HTTP status code, applying the default and rejecting
/// out-of-range values.
fn validate_status_on_error(raw: Option<u16>) -> (result: Result<u16, String>)
    ensures
        match result {
            Ok(value) => status_of(raw) == Ok::<u16, Seq<char>>(value),
            Err(message) => status_of(raw) == Err::<u16, Seq<char>>(message@),
        },
{
    let value = raw.unwrap_or(DEFAULT_STATUS_ON_ERROR);
    if value < 100 || value > 599 {
        return Err(
            with_decimal(
                "openai_web_search: status_on_error must be between 100 and 599, got ",
                value as u64,
            ),
        );
    }
    Ok(value)
}

/// The default context size of a configuration.
pub open spec fn default_size_of(raw: Option<Seq<char>>) -> Result<SearchContextSize, Seq<char>> {
    match raw {
        None => Ok(SearchContextSize::Medium),
        Some(name) => match context_size_of(name) {
            Some(size) => Ok(size),
            None => Err(
                "openai_web_search: default_context_size must be low, medium, or high, got '"@
                    + name + "'"@,
            ),
        },
    }
}

/// Validates the default context size, defaulting to `Medium` when absent and
/// rejecting unknown values.
fn validate_context_size(raw: &Option<String>) -> (result: Result<SearchContextSize, String>)
    ensures
        ({
            let expected = default_size_of(crate::openai::state::optional_text(*raw));
            match result {
                Ok(size) => expected == Ok::<SearchContextSize, Seq<char>>(size),
                Err(message) => expected == Err::<SearchContextSize, Seq<char>>(message@),
            }
        }),
{
    match raw {
        None => Ok(SearchContextSize::Medium),
        Some(name) => match SearchContextSize::from_str(name.as_str()) {
            Some(size) => Ok(size),
            None => {
                let mut message = join(
                    "openai_web_search: default_context_size must be low, medium, or high, got '",
                    name.as_str(),
                );
                message.append("'");
                Err(message)
            },
        },
    }
}

/// The body limit of a configuration.
pub open spec fn body_limit_of(raw: Option<usize>) -> Result<usize, Seq<char>> {
    let value = match raw {
        Some(value) => value,
        None => MAX_JSON_BODY_BYTES,
    };
    if value == 0 {
        Err("openai_web_search: 'max_body_bytes' must be greater than 0"@)
    } else if value > MAX_JSON_BODY_BYTES {
        Err(
            "openai_web_search: max_body_bytes ("@ + decimal(value as nat)
                + ") exceeds maximum ("@ + decimal(MAX_JSON_BODY_BYTES as nat) + ")"@,
        )
    } else {
        Ok(value)
    }
}

/// Validates the body limit, applying the default and rejecting zero and
/// oversized values.
fn validate_max_body_bytes_field(raw: Option<usize>) -> (result: Result<usize, String>)
    ensures
        match result {
            Ok(value) => body_limit_of(raw) == Ok::<usize, Seq<char>>(value),
            Err(message) => body_limit_of(raw) == Err::<usize, Seq<char>>(message@),
        },
{
    let value = raw.unwrap_or(MAX_JSON_BODY_BYTES);
    if value == 0 {
        return Err("openai_web_search: 'max_body_bytes' must be greater than 0".to_owned());
    }
    if value > MAX_JSON_BODY_BYTES {
        let mut message = with_decimal("openai_web_search: max_body_bytes (", value as u64);
        message.append(") exceeds maximum (");
        push_decimal(&mut message, MAX_JSON_BODY_BYTES as u64);
        message.append(")");
        return Err(message);
    }
    Ok(value)
}

/// The validated form of a configuration, or what is wrong with it: the key comes
/// first, then context size, timeout, status and body limit.
pub open spec fn validated(
    raw: WebSearchFilterConfig,
    variable: Result<Seq<char>, Seq<char>>,
) -> Result<ValidatedView, Seq<char>> {
    match raw.api_key {
        None => Err("openai_web_search: api_key is required"@),
        Some(raw_key) => match resolved_key(raw_key@, variable) {
            Err(message) => Err(message),
            Ok(api_key) => if api_key.len() == 0 {
                Err("openai_web_search: api_key must not be empty"@)
            } else {
                match (
                    default_size_of(crate::openai::state::optional_text(raw.default_context_size)),
                    timeout_of(raw.timeout_ms),
                    status_of(raw.status_on_error),
                    body_limit_of(raw.max_body_bytes),
                ) {
                    (Err(message), _, _, _) => Err(message),
                    (_, Err(message), _, _) => Err(message),
                    (_, _, Err(message), _) => Err(message),
                    (_, _, _, Err(message)) => Err(message),
                    (
                        Ok(default_context_size),
                        Ok(timeout_ms),
                        Ok(status_on_error),
                        Ok(max_body_bytes),
                    ) => Ok(
                        ValidatedView {
                            provider: raw.provider,
                            api_key,
                            default_context_size,
                            timeout_ms,
                            max_body_bytes,
                            failure_mode: match raw.failure_mode {
                                Some(mode) => mode,
                                None => FailureMode::Closed,
                            },
                            status_on_error,
                        },
                    ),
                }
            },
        },
    }
}

/// Validates a raw configuration and applies defaults, where `variable` is what
/// looking the variable of the API key up gave.
pub fn build_config(raw: &WebSearchFilterConfig, variable: &Result<String, String>) -> (result:
    Result<ValidatedConfig, String>)
    ensures
        match result {
            Ok(config) => validated(*raw, lookup_view(*variable)) == Ok::<
                ValidatedView,
                Seq<char>,
            >(config@),
            Err(message) => validated(*raw, lookup_view(*variable)) == Err::<
                ValidatedView,
                Seq<char>,
            >(message@),
        },
{
    let raw_key = match &raw.api_key {
        Some(raw_key) => raw_key,
        None => return Err("openai_web_search: api_key is required".to_owned()),
    };
    let api_key = resolve_api_key(raw_key.as_str(), variable)?;
    if api_key.as_str().unicode_len() == 0 {
        return Err("openai_web_search: api_key must not be empty".to_owned());
    }
    let default_context_size = validate_context_size(&raw.default_context_size)?;
    let timeout_ms = validate_timeout_ms(raw.timeout_ms)?;
    let status_on_error = validate_status_on_error(raw.status_on_error)?;
    let max_body_bytes = validate_max_body_bytes_field(raw.max_body_bytes)?;
    let config = ValidatedConfig {
        provider: raw.provider,
        api_key,
        default_context_size,
        timeout_ms,
        max_body_bytes,
        failure_mode: match raw.failure_mode {
            Some(mode) => mode,
            None => FailureMode::Closed,
        },
        status_on_error,
    };
    Ok(config)
}

/// A configuration that is accepted has a key, a positive timeout, an HTTP status
/// and a body limit within bounds.
pub proof fn lemma_accepted_config(
    raw: WebSearchFilterConfig,
    variable: Result<Seq<char>, Seq<char>>,
)
    requires
        validated(raw, variable) is Ok,
    ensures
        validated(raw, variable)->Ok_0.api_key.len() > 0,
        validated(raw, variable)->Ok_0.timeout_ms > 0,
        100 <= validated(raw, variable)->Ok_0.status_on_error <= 599,
        0 < validated(raw, variable)->Ok_0.max_body_bytes <= MAX_JSON_BODY_BYTES,
{
}

/// The settings that are accepted are those that were given, and each one that was
/// not given has its default; a configuration is accepted exactly where its key is
/// there and not empty and every given setting is within its bounds.
pub proof fn lemma_given_settings_are_kept(
    raw: WebSearchFilterConfig,
    variable: Result<Seq<char>, Seq<char>>,
)
    ensures
        ({
            let size_known = match raw.default_context_size {
                None => true,
                Some(name) => name@ == "low"@ || name@ == "medium"@ || name@ == "high"@,
            };
            let key_known = raw.api_key is Some && resolved_key(raw.api_key->0@, variable) is Ok
                && resolved_key(raw.api_key->0@, variable)->Ok_0.len() > 0;
            &&& validated(raw, variable) is Ok <==> {
                &&& key_known
                &&& size_known
                &&& raw.timeout_ms != Some(0u64)
                &&& match raw.status_on_error {
                    Some(status) => 100 <= status <= 599,
                    None => true,
                }
                &&& match raw.max_body_bytes {
                    Some(bytes) => 0 < bytes <= 67108864,
                    None => true,
                }
            }
            &&& validated(raw, variable) is Ok ==> {
                let config = validated(raw, variable)->Ok_0;
                &&& config.provider == raw.provider
                &&& resolved_key(raw.api_key->0@, variable) == Ok::<Seq<char>, Seq<char>>(
                    config.api_key,
                )
                &&& config.timeout_ms == match raw.timeout_ms {
                    Some(given) => given,
                    None => 10000,
                }
                &&& config.status_on_error == match raw.status_on_error {
                    Some(given) => given,
                    None => 502,
                }
                &&& config.max_body_bytes == match raw.max_body_bytes {
                    Some(given) => given,
                    None => 67108864,
                }
                &&& config.failure_mode == match raw.failure_mode {
                    Some(given) => given,
                    None => FailureMode::Closed,
                }
                &&& match raw.default_context_size {
                    None => config.default_context_size == SearchContextSize::Medium,
                    Some(name) => {
                        &&& name@ == "low"@ ==> config.default_context_size
                            == SearchContextSize::Low
                        &&& name@ == "medium"@ ==> config.default_context_size
                            == SearchContextSize::Medium
                        &&& name@ == "high"@ ==> config.default_context_size
                            == SearchContextSize::High
                    },
                }
            }
        }),
{
    lemma_size_names();
}

/// The names of context sizes are different.
proof fn lemma_size_names()
    ensures
        "low"@ != "medium"@,
        "low"@ != "high"@,
        "medium"@ != "high"@,
{
    reveal_strlit("low");
    reveal_strlit("medium");
    reveal_strlit("high");
    assert("low"@.len() == 3 && "medium"@.len() == 6 && "high"@.len() == 4);
}

/// A larger context asks for more results, and an unknown name for what the medium
/// one asks for.
pub proof fn lemma_larger_context_asks_for_more(name: Seq<char>)
    ensures
        0 < results_of_size(SearchContextSize::Low) < results_of_size(SearchContextSize::Medium)
            < results_of_size(SearchContextSize::High),
        name == "low"@ ==> context_size_or_medium(name) == SearchContextSize::Low,
        name == "high"@ ==> context_size_or_medium(name) == SearchContextSize::High,
        name != "low"@ && name != "high"@ ==> context_size_or_medium(name)
            == SearchContextSize::Medium,
{
    lemma_size_names();
}

/// The name of a variable is what stands between the braces of `${NAME}`, whatever
/// white space surrounds it; anything else is the key itself.
pub proof fn lemma_key_source(raw: Seq<char>, name: Seq<char>)
    ensures
        trimmed(raw) == "${"@ + name + "}"@ ==> key_source_of(raw) == KeySourceView::Variable(name),
        trimmed(raw).len() > 0 && trimmed(raw)[0] != '$' ==> key_source_of(raw)
            == KeySourceView::Literal(trimmed(raw)),
{
    reveal_strlit("${");
    reveal_strlit("}");
    let bare = trimmed(raw);
    if bare == "${"@ + name + "}"@ {
        assert(bare.take(2) =~= "${"@);
        assert(bare.subrange(2, bare.len() - 1) =~= name);
    }
    if begins_with(bare, "${"@) {
        assert(bare.take(2)[0] == '$');
    }
}

/// A literal key is used without the white space around it; a key in a variable is the
/// variable's value, and a variable that is not set is named with the reason.
pub proof fn lemma_resolved_key(raw: Seq<char>, name: Seq<char>, variable: Result<Seq<char>, Seq<char>>)
    ensures
        trimmed(raw).len() > 0 && trimmed(raw)[0] != '$' ==> resolved_key(raw, variable) == Ok::<
            Seq<char>,
            Seq<char>,
        >(trimmed(raw)),
        trimmed(raw) == "${"@ + name + "}"@ ==> match variable {
            Ok(value) => resolved_key(raw, variable) == Ok::<Seq<char>, Seq<char>>(value),
            Err(error) => resolved_key(raw, variable) == Err::<Seq<char>, Seq<char>>(
                "openai_web_search: environment variable "@ + name + " not set for api_key: "@
                    + error,
            ),
        },
{
    lemma_key_source(raw, name);
}

} // verus!
