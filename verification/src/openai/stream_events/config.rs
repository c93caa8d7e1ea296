//! Configuration of the stream-events filter.

use vstd::prelude::*;

use crate::filter::MAX_JSON_BODY_BYTES;
use crate::openai::sse::{default_parser_config, SseParserConfig};
use crate::openai::stream_events::parser_state::AccumulationLimits;
use crate::text::{decimal, join, push_decimal};
use vstd::string::StringExecFns;

verus! {

/// Default cap for accumulated function-call argument bytes (1 MiB).
pub const DEFAULT_MAX_TOOL_CALL_ARGUMENT_BYTES: usize = 1048576;

/// Default aggregate accumulation ceiling (64 MiB).
pub const DEFAULT_MAX_ACCUMULATED_BYTES: usize = 67108864;

/// Default cap on accumulated streaming output items.
pub const DEFAULT_MAX_OUTPUT_ITEMS: usize = 100000;

/// Hard upper bound on the configurable event count.
pub const MAX_EVENTS_CEILING: usize = 10000000;

/// Hard upper bound on the configurable output-item count.
pub const MAX_OUTPUT_ITEMS_CEILING: usize = 10000000;

/// Configuration of the stream-events filter; omitted values fall back to
/// defaults.
#[derive(Clone, Copy, Debug, PartialEq, Eq, Structural)]
pub struct StreamEventsConfig {
    /// Whether successive inference rounds are normalized into one logical stream.
    pub logical_stream: bool,
    /// Maximum bytes held for incomplete lines and data. Default: 10 MiB.
    pub max_buffer_bytes: Option<usize>,
    /// Maximum number of events. Default: 100,000.
    pub max_events: Option<usize>,
    /// Maximum seconds from the first chunk to stream completion. Default: 300.
    pub timeout_secs: Option<u64>,
    /// Maximum bytes accepted per function-call argument string. Default: 1 MiB.
    pub max_tool_call_argument_bytes: Option<usize>,
    /// Maximum bytes accumulated across output items and function-call argument
    /// strings; a stream above it fails. Default: 64 MiB.
    pub max_accumulated_bytes: Option<usize>,
    /// Maximum number of output items accumulated; a stream above it fails.
    /// Default: 100,000.
    pub max_output_items: Option<usize>,
}

/// The message for a value of zero.
pub open spec fn zero_message(field: Seq<char>) -> Seq<char> {
    "openai_stream_events: '"@ + field + "' must be greater than 0"@
}

/// The message for a value above its maximum.
pub open spec fn above_message(field: Seq<char>, value: nat, max: nat) -> Seq<char> {
    "openai_stream_events: "@ + field + " ("@ + decimal(value) + ") exceeds maximum ("@ + decimal(
        max,
    ) + ")"@
}

/// What is wrong with a value that must be positive and at most `max`.
pub open spec fn bound_error(value: Option<usize>, field: Seq<char>, max: nat) -> Option<Seq<char>> {
    match value {
        Some(value) => if value == 0 {
            Some(zero_message(field))
        } else if value > max {
            Some(above_message(field, value as nat, max))
        } else {
            None
        },
        None => None,
    }
}

/// The first of two findings.
pub open spec fn first_finding(a: Option<Seq<char>>, b: Option<Seq<char>>) -> Option<Seq<char>> {
    match a {
        Some(found) => Some(found),
        None => b,
    }
}

/// What is wrong with a timeout.
pub open spec fn timeout_error(timeout_secs: Option<u64>) -> Option<Seq<char>> {
    if timeout_secs == Some(0u64) {
        Some(zero_message("timeout_secs"@))
    } else {
        None
    }
}

/// What is wrong with a configuration: the first value out of its bounds.
pub open spec fn config_error(config: StreamEventsConfig) -> Option<Seq<char>> {
    let cap = MAX_JSON_BODY_BYTES as nat;
    first_finding(
        bound_error(config.max_buffer_bytes, "max_buffer_bytes"@, cap),
        first_finding(
            bound_error(config.max_events, "max_events"@, MAX_EVENTS_CEILING as nat),
            first_finding(
                timeout_error(config.timeout_secs),
                first_finding(
                    bound_error(
                        config.max_tool_call_argument_bytes,
                        "max_tool_call_argument_bytes"@,
                        cap,
                    ),
                    first_finding(
                        bound_error(config.max_accumulated_bytes, "max_accumulated_bytes"@, cap),
                        bound_error(
                            config.max_output_items,
                            "max_output_items"@,
                            MAX_OUTPUT_ITEMS_CEILING as nat,
                        ),
                    ),
                ),
            ),
        ),
    )
}

/// Whether `result` is refused with the finding `expected`, or accepted where
/// there is none.
pub open spec fn check_is(result: Result<(), String>, expected: Option<Seq<char>>) -> bool {
    match result {
        Ok(_) => expected is None,
        Err(message) => expected == Some(message@),
    }
}

/// Rejects a zero value for a named configuration field.
fn reject_zero(value: usize, field: &str) -> (result: Result<(), String>)
    ensures
        check_is(
            result,
            if value == 0 {
                Some(zero_message(field@))
            } else {
                None
            },
        ),
{
    if value == 0 {
        let mut message = join("openai_stream_events: '", field);
        message.append("' must be greater than 0");
        return Err(message);
    }
    Ok(())
}

/// Rejects a value for `field` that exceeds `max`.
fn reject_above(value: usize, field: &str, max: usize) -> (result: Result<(), String>)
    ensures
        check_is(
            result,
            if value > max {
                Some(above_message(field@, value as nat, max as nat))
            } else {
                None
            },
        ),
{
    if value > max {
        let mut message = join("openai_stream_events: ", field);
        message.append(" (");
        push_decimal(&mut message, value as u64);
        message.append(") exceeds maximum (");
        push_decimal(&mut message, max as u64);
        message.append(")");
        return Err(message);
    }
    Ok(())
}

/// Rejects a value that is zero or above `max`.
fn check_bound(value: Option<usize>, field: &str, max: usize) -> (result: Result<(), String>)
    ensures
        check_is(result, bound_error(value, field@, max as nat)),
{
    if let Some(value) = value {
        reject_zero(value, field)?;
        reject_above(value, field, max)?;
    }
    Ok(())
}

/// The value of an option, or the default.
pub open spec fn value_or(value: Option<usize>, default: usize) -> usize {
    match value {
        Some(value) => value,
        None => default,
    }
}

/// The parser limits of a configuration.
pub open spec fn parser_config_of(config: StreamEventsConfig) -> SseParserConfig {
    let defaults = default_parser_config();
    SseParserConfig {
        max_buffer_bytes: value_or(config.max_buffer_bytes, defaults.max_buffer_bytes),
        max_events: value_or(config.max_events, defaults.max_events),
        timeout_secs: match config.timeout_secs {
            Some(seconds) => seconds,
            None => defaults.timeout_secs,
        },
    }
}

impl Default for StreamEventsConfig {
    fn default() -> (config: Self)
        ensures
            config == (StreamEventsConfig {
                logical_stream: false,
                max_buffer_bytes: None,
                max_events: None,
                timeout_secs: None,
                max_tool_call_argument_bytes: None,
                max_accumulated_bytes: None,
                max_output_items: None,
            }),
    {
        StreamEventsConfig {
            logical_stream: false,
            max_buffer_bytes: None,
            max_events: None,
            timeout_secs: None,
            max_tool_call_argument_bytes: None,
            max_accumulated_bytes: None,
            max_output_items: None,
        }
    }
}

/// The limits on what a stream accumulates, with defaults for any omitted fields.
pub open spec fn limits_of(config: StreamEventsConfig) -> AccumulationLimits {
    AccumulationLimits {
        max_tool_call_argument_bytes: value_or(
            config.max_tool_call_argument_bytes,
            DEFAULT_MAX_TOOL_CALL_ARGUMENT_BYTES,
        ),
        max_accumulated_bytes: value_or(
            config.max_accumulated_bytes,
            DEFAULT_MAX_ACCUMULATED_BYTES,
        ),
        max_output_items: value_or(config.max_output_items, DEFAULT_MAX_OUTPUT_ITEMS),
    }
}

impl StreamEventsConfig {
    /// Validates explicitly set values. Omitted fields use safe defaults.
    pub fn validate(&self) -> (result: Result<(), String>)
        ensures
            check_is(result, config_error(*self)),
    {
        check_bound(self.max_buffer_bytes, "max_buffer_bytes", MAX_JSON_BODY_BYTES)?;
        check_bound(self.max_events, "max_events", MAX_EVENTS_CEILING)?;
        if let Some(seconds) = self.timeout_secs {
            if seconds == 0 {
                reject_zero(0, "timeout_secs")?;
            }
        }
        check_bound(
            self.max_tool_call_argument_bytes,
            "max_tool_call_argument_bytes",
            MAX_JSON_BODY_BYTES,
        )?;
        check_bound(self.max_accumulated_bytes, "max_accumulated_bytes", MAX_JSON_BODY_BYTES)?;
        check_bound(self.max_output_items, "max_output_items", MAX_OUTPUT_ITEMS_CEILING)
    }

    /// The parser limits, with defaults for any omitted fields.
    pub fn to_parser_config(&self) -> (config: SseParserConfig)
        ensures
            config == parser_config_of(*self),
    {
        let defaults = SseParserConfig::default();
        SseParserConfig {
            max_buffer_bytes: self.max_buffer_bytes.unwrap_or(defaults.max_buffer_bytes),
            max_events: self.max_events.unwrap_or(defaults.max_events),
            timeout_secs: self.timeout_secs.unwrap_or(defaults.timeout_secs),
        }
    }

    /// Resolved cap for per-tool-call accumulated argument bytes.
    pub fn max_tool_call_argument_bytes(&self) -> (bytes: usize)
        ensures
            bytes == value_or(
                self.max_tool_call_argument_bytes,
                DEFAULT_MAX_TOOL_CALL_ARGUMENT_BYTES,
            ),
    {
        self.max_tool_call_argument_bytes.unwrap_or(DEFAULT_MAX_TOOL_CALL_ARGUMENT_BYTES)
    }

    /// Resolved aggregate accumulation byte ceiling.
    pub fn max_accumulated_bytes(&self) -> (bytes: usize)
        ensures
            bytes == value_or(self.max_accumulated_bytes, DEFAULT_MAX_ACCUMULATED_BYTES),
    {
        self.max_accumulated_bytes.unwrap_or(DEFAULT_MAX_ACCUMULATED_BYTES)
    }

    /// Resolved cap on accumulated streaming output items.
    pub fn max_output_items(&self) -> (items: usize)
        ensures
            items == value_or(self.max_output_items, DEFAULT_MAX_OUTPUT_ITEMS),
    {
        self.max_output_items.unwrap_or(DEFAULT_MAX_OUTPUT_ITEMS)
    }

    /// Resolved limits on what a stream accumulates.
    pub fn limits(&self) -> (limits: AccumulationLimits)
        ensures
            limits == limits_of(*self),
    {
        AccumulationLimits {
            max_tool_call_argument_bytes: self.max_tool_call_argument_bytes(),
            max_accumulated_bytes: self.max_accumulated_bytes(),
            max_output_items: self.max_output_items(),
        }
    }
}

/// A configuration that is accepted gives usable limits: every resolved limit is
/// positive and at most its ceiling.
pub proof fn lemma_accepted_limits(config: StreamEventsConfig)
    requires
        config_error(config) is None,
    ensures
        0 < parser_config_of(config).max_buffer_bytes <= MAX_JSON_BODY_BYTES,
        0 < parser_config_of(config).max_events <= MAX_EVENTS_CEILING,
        0 < parser_config_of(config).timeout_secs,
        0 < limits_of(config).max_tool_call_argument_bytes <= MAX_JSON_BODY_BYTES,
        0 < limits_of(config).max_accumulated_bytes <= MAX_JSON_BODY_BYTES,
        0 < limits_of(config).max_output_items <= MAX_OUTPUT_ITEMS_CEILING,
{
}

/// Whether a value that was given is positive and at most its ceiling.
pub open spec fn is_within(value: Option<usize>, ceiling: nat) -> bool {
    match value {
        Some(value) => 0 < value <= ceiling,
        None => true,
    }
}

/// The limits that are used are those that were given, and each one that was not given
/// has its default; a configuration is accepted exactly where every given limit is
/// positive and within its ceiling.
pub proof fn lemma_given_limits_are_kept(config: StreamEventsConfig)
    ensures
        config_error(config) is None <==> {
            &&& is_within(config.max_buffer_bytes, 67108864)
            &&& is_within(config.max_events, 10000000)
            &&& config.timeout_secs != Some(0u64)
            &&& is_within(config.max_tool_call_argument_bytes, 67108864)
            &&& is_within(config.max_accumulated_bytes, 67108864)
            &&& is_within(config.max_output_items, 10000000)
        },
        match config.max_buffer_bytes {
            Some(given) => parser_config_of(config).max_buffer_bytes == given,
            None => parser_config_of(config).max_buffer_bytes == 10485760,
        },
        match config.max_events {
            Some(given) => parser_config_of(config).max_events == given,
            None => parser_config_of(config).max_events == 100000,
        },
        match config.timeout_secs {
            Some(given) => parser_config_of(config).timeout_secs == given,
            None => parser_config_of(config).timeout_secs == 300,
        },
        match config.max_tool_call_argument_bytes {
            Some(given) => limits_of(config).max_tool_call_argument_bytes == given,
            None => limits_of(config).max_tool_call_argument_bytes == 1048576,
        },
        match config.max_accumulated_bytes {
            Some(given) => limits_of(config).max_accumulated_bytes == given,
            None => limits_of(config).max_accumulated_bytes == 67108864,
        },
        match config.max_output_items {
            Some(given) => limits_of(config).max_output_items == given,
            None => limits_of(config).max_output_items == 100000,
        },
{
}

} // verus!
