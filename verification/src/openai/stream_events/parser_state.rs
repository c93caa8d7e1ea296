//! Per-request parser and accumulation state of one inference stream.

use vstd::prelude::*;

use crate::collections::{texts_of_map, TextMap, TextSet};
use crate::openai::sse::{
    nothing_pending, EventView, PendingView, ResponsesEvent, SseFrameParser, SseParserConfig,
};

verus! {

/// Completion state observed while parsing a Responses SSE stream.
#[derive(Clone, Copy, Debug, PartialEq, Eq, Structural)]
pub enum CompletionState {
    /// No completion signal has been observed.
    Open,
    /// A terminal lifecycle event was observed.
    TerminalLifecycle,
    /// A stream-level error event was observed.
    Error,
}

/// Limits on what a stream accumulates.
#[derive(Clone, Copy, Debug, PartialEq, Eq, Structural)]
pub struct AccumulationLimits {
    /// Cap on accumulated bytes per tool-call argument string.
    pub max_tool_call_argument_bytes: usize,
    /// Cap on the bytes of output items and argument strings together.
    pub max_accumulated_bytes: usize,
    /// Cap on the number of output items.
    pub max_output_items: usize,
}

/// Per-request parser and accumulation state.
///
/// Instants are nanoseconds on one clock.
pub struct StreamEventsState {
    /// Byte-level SSE frame parser.
    pub frame_parser: SseFrameParser,
    /// Number of non-sentinel events parsed so far.
    pub event_count: usize,
    /// Maximum allowed event count.
    pub max_events: usize,
    /// Maximum allowed seconds.
    pub timeout_secs: u64,
    /// When the first chunk came.
    pub started_at: Option<u64>,
    /// When a terminal state was first observed.
    pub completed_at: Option<u64>,
    /// Stream completion state.
    pub completion_state: CompletionState,
    /// Accumulated function-call argument deltas, by item id or output index.
    pub tool_call_args: TextMap<String>,
    /// Tool-call keys whose arguments exceeded the configured byte cap.
    pub rejected_tool_call_args: TextSet,
    /// Limits on what is accumulated.
    pub limits: AccumulationLimits,
    /// Whether successive rounds are normalized into one logical stream.
    pub logical_stream: bool,
    /// Inference round.
    pub iteration: u32,
    /// Output index offset contributed by preceding rounds.
    pub output_index_offset: u64,
    /// Terminal event withheld until the transition is known.
    pub deferred_terminal: Option<ResponsesEvent>,
    /// Whether a provider's sentinel should follow the logical terminal.
    pub deferred_done: bool,
    /// Whether this round already flushed the pending local tool items in-band.
    pub local_items_flushed: bool,
}

/// The model of a [`StreamEventsState`].
#[verifier::ext_equal]
pub struct ParserView {
    /// What the frame parser holds.
    pub pending: PendingView,
    /// What the frame parser may hold.
    pub limit: nat,
    /// Number of non-sentinel events parsed so far.
    pub event_count: usize,
    /// Maximum allowed event count.
    pub max_events: usize,
    /// Maximum allowed seconds.
    pub timeout_secs: u64,
    /// When the first chunk came.
    pub started_at: Option<u64>,
    /// When a terminal state was first observed.
    pub completed_at: Option<u64>,
    /// Stream completion state.
    pub completion: CompletionState,
    /// Accumulated function-call argument deltas.
    pub args: Map<Seq<char>, Seq<char>>,
    /// Tool-call keys whose arguments exceeded the cap.
    pub rejected: Set<Seq<char>>,
    /// Cap on accumulated bytes per tool-call argument string.
    pub max_argument_bytes: usize,
    /// Cap on the bytes of output items and argument strings together.
    pub max_accumulated_bytes: usize,
    /// Cap on the number of output items.
    pub max_output_items: usize,
    /// Whether successive rounds are normalized into one logical stream.
    pub logical: bool,
    /// Inference round.
    pub iteration: u32,
    /// Output index offset contributed by preceding rounds.
    pub offset: u64,
    /// Terminal event withheld until the transition is known.
    pub deferred: Option<EventView>,
    /// Whether a provider's sentinel should follow the logical terminal.
    pub deferred_done: bool,
    /// Whether this round already flushed the pending local tool items in-band.
    pub flushed: bool,
}

/// The model of an optional event.
pub open spec fn optional_event(event: Option<ResponsesEvent>) -> Option<EventView> {
    match event {
        Some(event) => Some(event@),
        None => None,
    }
}

impl View for StreamEventsState {
    type V = ParserView;

    open spec fn view(&self) -> ParserView {
        ParserView {
            pending: self.frame_parser.pending(),
            limit: self.frame_parser.limit(),
            event_count: self.event_count,
            max_events: self.max_events,
            timeout_secs: self.timeout_secs,
            started_at: self.started_at,
            completed_at: self.completed_at,
            completion: self.completion_state,
            args: texts_of_map(self.tool_call_args@),
            rejected: self.rejected_tool_call_args@,
            max_argument_bytes: self.limits.max_tool_call_argument_bytes,
            max_accumulated_bytes: self.limits.max_accumulated_bytes,
            max_output_items: self.limits.max_output_items,
            logical: self.logical_stream,
            iteration: self.iteration,
            offset: self.output_index_offset,
            deferred: optional_event(self.deferred_terminal),
            deferred_done: self.deferred_done,
            flushed: self.local_items_flushed,
        }
    }
}

/// The parser state at the start of a round.
pub open spec fn fresh_parser(
    config: SseParserConfig,
    limits: AccumulationLimits,
    logical: bool,
    iteration: u32,
    offset: u64,
) -> ParserView {
    ParserView {
        pending: nothing_pending(),
        limit: config.max_buffer_bytes as nat,
        event_count: 0,
        max_events: config.max_events,
        timeout_secs: config.timeout_secs,
        started_at: None,
        completed_at: None,
        completion: CompletionState::Open,
        args: Map::empty(),
        rejected: Set::empty(),
        max_argument_bytes: limits.max_tool_call_argument_bytes,
        max_accumulated_bytes: limits.max_accumulated_bytes,
        max_output_items: limits.max_output_items,
        logical,
        iteration,
        offset,
        deferred: None,
        deferred_done: false,
        flushed: false,
    }
}

impl StreamEventsState {
    /// The parser state at the start of a round.
    pub fn new(
        config: SseParserConfig,
        limits: AccumulationLimits,
        logical_stream: bool,
        iteration: u32,
        output_index_offset: u64,
    ) -> (state: Self)
        ensures
            state@ == fresh_parser(
                config,
                limits,
                logical_stream,
                iteration,
                output_index_offset,
            ),
    {
        let state = StreamEventsState {
            frame_parser: SseFrameParser::new(config.max_buffer_bytes),
            event_count: 0,
            max_events: config.max_events,
            timeout_secs: config.timeout_secs,
            started_at: None,
            completed_at: None,
            completion_state: CompletionState::Open,
            tool_call_args: TextMap::new(),
            rejected_tool_call_args: TextSet::new(),
            limits,
            logical_stream,
            iteration,
            output_index_offset,
            deferred_terminal: None,
            deferred_done: false,
            local_items_flushed: false,
        };
        assert(state@ =~= fresh_parser(
            config,
            limits,
            logical_stream,
            iteration,
            output_index_offset,
        ));
        state
    }
}

} // verus!
