//! Server-sent events: frames from byte chunks, and typed events from frames.

use vstd::prelude::*;
use vstd::utf8::{decode_utf8, valid_utf8};

use crate::json::{Json, JsonView};
use crate::json_text::{parse_json, parsed};
use crate::text::same_text;

verus! {

broadcast use crate::json_model::group_json_view;

/// Limits of the event parser.
#[derive(Clone, Copy, Debug, PartialEq, Eq, Structural)]
pub struct SseParserConfig {
    /// Maximum bytes held for incomplete lines and frames.
    pub max_buffer_bytes: usize,
    /// Maximum number of events.
    pub max_events: usize,
    /// Maximum seconds from the first chunk to the end of the stream.
    pub timeout_secs: u64,
}

/// 10 MiB, 100,000 events, five minutes.
pub open spec fn default_parser_config() -> SseParserConfig {
    SseParserConfig { max_buffer_bytes: 10485760, max_events: 100000, timeout_secs: 300 }
}

impl Default for SseParserConfig {
    fn default() -> (config: Self)
        ensures
            config == default_parser_config(),
    {
        SseParserConfig { max_buffer_bytes: 10485760, max_events: 100000, timeout_secs: 300 }
    }
}

/// Why a stream could not be parsed.
pub enum SseParseError {
    /// More bytes were held than the limit allows.
    BufferOverflow,
    /// There were more events than the limit allows.
    TooManyEvents,
    /// More output items were accumulated than the limit allows.
    TooManyOutputItems,
    /// More bytes of output items and arguments were accumulated than the limit
    /// allows.
    TooMuchAccumulated,
    /// The stream took longer than the limit allows.
    Timeout {
        /// The nanoseconds that passed.
        elapsed_nanos: u64,
        /// The seconds that the limit allows.
        limit_secs: u64,
    },
    /// A frame's data is no JSON value.
    InvalidJson(String),
    /// A frame has no event type.
    MissingEventType,
    /// An event came behind the end of the stream.
    EventAfterTerminal(String),
}

/// The model of an [`SseParseError`].
pub enum ParseErrorView {
    /// More bytes were held than the limit allows.
    BufferOverflow,
    /// There were more events than the limit allows.
    TooManyEvents,
    /// More output items were accumulated than the limit allows.
    TooManyOutputItems,
    /// More bytes of output items and arguments were accumulated than the limit
    /// allows.
    TooMuchAccumulated,
    /// The stream took longer than the limit allows.
    Timeout {
        /// The nanoseconds that passed.
        elapsed_nanos: u64,
        /// The seconds that the limit allows.
        limit_secs: u64,
    },
    /// A frame's data is no JSON value.
    InvalidJson(Seq<char>),
    /// A frame has no event type.
    MissingEventType,
    /// An event came behind the end of the stream.
    EventAfterTerminal(Seq<char>),
}

impl View for SseParseError {
    type V = ParseErrorView;

    open spec fn view(&self) -> ParseErrorView {
        match *self {
            SseParseError::BufferOverflow => ParseErrorView::BufferOverflow,
            SseParseError::TooManyEvents => ParseErrorView::TooManyEvents,
            SseParseError::TooManyOutputItems => ParseErrorView::TooManyOutputItems,
            SseParseError::TooMuchAccumulated => ParseErrorView::TooMuchAccumulated,
            SseParseError::Timeout { elapsed_nanos, limit_secs } => ParseErrorView::Timeout {
                elapsed_nanos,
                limit_secs,
            },
            SseParseError::InvalidJson(message) => ParseErrorView::InvalidJson(message@),
            SseParseError::MissingEventType => ParseErrorView::MissingEventType,
            SseParseError::EventAfterTerminal(event_type) => ParseErrorView::EventAfterTerminal(
                event_type@,
            ),
        }
    }
}

/// One complete frame.
pub struct SseFrame {
    /// The value of the last `event` field; empty where there was none.
    pub event: Vec<u8>,
    /// The values of the `data` fields, with line feeds between them.
    pub data: Vec<u8>,
}

/// The model of an [`SseFrame`].
#[verifier::ext_equal]
pub struct FrameView {
    /// The value of the last `event` field.
    pub event: Seq<u8>,
    /// The values of the `data` fields, with line feeds between them.
    pub data: Seq<u8>,
}

impl View for SseFrame {
    type V = FrameView;

    open spec fn view(&self) -> FrameView {
        FrameView { event: self.event@, data: self.data@ }
    }
}

/// The models of frames.
pub open spec fn frames_view(frames: Seq<SseFrame>) -> Seq<FrameView> {
    Seq::new(frames.len(), |i: int| frames[i]@)
}

/// What a parser holds of a frame that is not complete.
#[verifier::ext_equal]
pub struct PendingView {
    /// The bytes of the line that has not ended.
    pub line: Seq<u8>,
    /// The value of the last `event` field.
    pub event: Seq<u8>,
    /// The values of the `data` fields, where there was one.
    pub data: Option<Seq<u8>>,
}

/// Nothing is held.
pub open spec fn nothing_pending() -> PendingView {
    PendingView { line: Seq::empty(), event: Seq::empty(), data: None }
}

/// The number of bytes that are held.
pub open spec fn pending_size(pending: PendingView) -> nat {
    pending.line.len() + pending.event.len() + match pending.data {
        Some(data) => data.len(),
        None => 0,
    }
}

/// The first colon at or behind `from`, or the end of the line.
pub open spec fn colon_at(line: Seq<u8>, from: int) -> int
    decreases line.len() - from,
{
    if from < 0 || from >= line.len() {
        line.len() as int
    } else if line[from] == 58 {
        from
    } else {
        colon_at(line, from + 1)
    }
}

/// The name of a field.
pub open spec fn field_name(line: Seq<u8>) -> Seq<u8> {
    line.take(colon_at(line, 0))
}

/// The value of a field: what is behind the colon, without one leading space.
pub open spec fn field_value(line: Seq<u8>) -> Seq<u8> {
    let start = colon_at(line, 0) + 1;
    if start >= line.len() {
        Seq::empty()
    } else if line[start] == 32 {
        line.skip(start + 1)
    } else {
        line.skip(start)
    }
}

/// The bytes of the field name `data`.
pub open spec fn data_name() -> Seq<u8> {
    seq![100u8, 97u8, 116u8, 97u8]
}

/// The bytes of the field name `event`.
pub open spec fn event_name() -> Seq<u8> {
    seq![101u8, 118u8, 101u8, 110u8, 116u8]
}

/// A line without a carriage return at its end.
pub open spec fn trimmed(line: Seq<u8>) -> Seq<u8> {
    if line.len() > 0 && line.last() == 13 {
        line.drop_last()
    } else {
        line
    }
}

/// What is held after one line has ended, and the frame that the line completed:
/// an empty line ends a frame, and only a frame with data counts.
pub open spec fn line_ended(pending: PendingView) -> (PendingView, Option<FrameView>) {
    let line = trimmed(pending.line);
    if line.len() == 0 {
        (
            nothing_pending(),
            match pending.data {
                Some(data) => Some(FrameView { event: pending.event, data }),
                None => None,
            },
        )
    } else if field_name(line) == data_name() {
        (
            PendingView {
                line: Seq::empty(),
                event: pending.event,
                data: Some(
                    match pending.data {
                        Some(data) => data.push(10) + field_value(line),
                        None => field_value(line),
                    },
                ),
            },
            None,
        )
    } else if field_name(line) == event_name() {
        (
            PendingView { line: Seq::empty(), event: field_value(line), data: pending.data },
            None,
        )
    } else {
        (PendingView { line: Seq::empty(), event: pending.event, data: pending.data }, None)
    }
}

/// What is held after one more byte, and the frame that it completed.
pub open spec fn byte_taken(pending: PendingView, byte: u8) -> (PendingView, Option<FrameView>) {
    if byte == 10 {
        line_ended(pending)
    } else {
        (PendingView { line: pending.line.push(byte), ..pending }, None)
    }
}

/// What is held after `bytes`, and the frames that they completed; `None` where
/// more than `limit` bytes had to be held at some point.
pub open spec fn bytes_taken(pending: PendingView, bytes: Seq<u8>, limit: nat) -> Option<
    (PendingView, Seq<FrameView>),
>
    decreases bytes.len(),
{
    if bytes.len() == 0 {
        Some((pending, Seq::empty()))
    } else {
        match bytes_taken(pending, bytes.drop_last(), limit) {
            None => None,
            Some((held, frames)) => {
                let (next, frame) = byte_taken(held, bytes.last());
                if pending_size(next) > limit {
                    None
                } else {
                    match frame {
                        Some(frame) => Some((next, frames.push(frame))),
                        None => Some((next, frames)),
                    }
                }
            },
        }
    }
}

/// How a stream is cut into chunks does not count: the frames of two chunks are
/// those of their bytes in one.
pub proof fn lemma_chunking_does_not_count(
    pending: PendingView,
    first: Seq<u8>,
    second: Seq<u8>,
    limit: nat,
)
    ensures
        bytes_taken(pending, first + second, limit) == (match bytes_taken(pending, first, limit) {
            None => None,
            Some((held, frames)) => match bytes_taken(held, second, limit) {
                None => None,
                Some((end, more)) => Some((end, frames + more)),
            },
        }),
    decreases second.len(),
{
    if second.len() == 0 {
        assert(first + second =~= first);
        match bytes_taken(pending, first, limit) {
            None => {},
            Some((held, frames)) => {
                assert(frames + Seq::<FrameView>::empty() =~= frames);
            },
        }
    } else {
        assert((first + second).drop_last() =~= first + second.drop_last());
        lemma_chunking_does_not_count(pending, first, second.drop_last(), limit);
        match bytes_taken(pending, first, limit) {
            None => {},
            Some((held, frames)) => match bytes_taken(held, second.drop_last(), limit) {
                None => {},
                Some((middle, more)) => {
                    let (next, frame) = byte_taken(middle, second.last());
                    match frame {
                        Some(frame) => {
                            assert((frames + more).push(frame) =~= frames + more.push(frame));
                        },
                        None => {},
                    }
                },
            },
        }
    }
}

/// Reassembles frames from chunks of bytes.
pub struct SseFrameParser {
    limit: usize,
    line: Vec<u8>,
    event: Vec<u8>,
    data: Option<Vec<u8>>,
}

/// The bytes of an optional value.
pub open spec fn optional_bytes(bytes: Option<Vec<u8>>) -> Option<Seq<u8>> {
    match bytes {
        Some(bytes) => Some(bytes@),
        None => None,
    }
}

/// Whether two byte strings are equal.
fn same_bytes(a: &Vec<u8>, b: &[u8]) -> (same: bool)
    ensures
        same == (a@ == b@),
{
    if a.len() != b.len() {
        return false;
    }
    let mut i: usize = 0;
    while i < a.len()
        invariant
            a.len() == b.len(),
            i <= a.len(),
            forall|j: int| 0 <= j < i ==> a@[j] == b@[j],
        decreases a.len() - i,
    {
        if a[i] != b[i] {
            return false;
        }
        i = i + 1;
    }
    assert(a@ =~= b@);
    true
}

/// The part of `bytes` from `from` up to `to`.
fn part_of(bytes: &Vec<u8>, from: usize, to: usize) -> (part: Vec<u8>)
    requires
        from <= to <= bytes.len(),
    ensures
        part@ == bytes@.subrange(from as int, to as int),
{
    let mut part: Vec<u8> = Vec::new();
    let mut i: usize = from;
    while i < to
        invariant
            from <= i <= to <= bytes.len(),
            part@ == bytes@.subrange(from as int, i as int),
        decreases to - i,
    {
        part.push(bytes[i]);
        assert(part@ =~= bytes@.subrange(from as int, i + 1));
        i = i + 1;
    }
    part
}

/// Where the first colon stands.
fn find_colon(line: &Vec<u8>) -> (at: usize)
    ensures
        at == colon_at(line@, 0),
        at <= line.len(),
{
    let mut at: usize = 0;
    while at < line.len() && line[at] != 58
        invariant
            at <= line.len(),
            colon_at(line@, 0) == colon_at(line@, at as int),
        decreases line.len() - at,
    {
        at = at + 1;
    }
    at
}

impl SseFrameParser {
    /// What the parser holds of a frame that is not complete.
    pub closed spec fn pending(self) -> PendingView {
        PendingView { line: self.line@, event: self.event@, data: optional_bytes(self.data) }
    }

    /// The most bytes that the parser may hold.
    pub closed spec fn limit(self) -> nat {
        self.limit as nat
    }

    /// A parser that may hold `limit` bytes.
    pub fn new(limit: usize) -> (parser: Self)
        ensures
            parser.pending() == nothing_pending(),
            parser.limit() == limit,
    {
        let parser = SseFrameParser { limit, line: Vec::new(), event: Vec::new(), data: None };
        assert(parser.pending() =~= nothing_pending());
        parser
    }

    /// Ends the line that is held.
    fn end_line(&mut self) -> (frame: Option<SseFrame>)
        ensures
            final(self).pending() == line_ended(old(self).pending()).0,
            match frame {
                Some(frame) => line_ended(old(self).pending()).1 == Some(frame@),
                None => line_ended(old(self).pending()).1 is None,
            },
            final(self).limit() == old(self).limit(),
    {
        let ghost before = self.pending();
        let mut line: Vec<u8> = Vec::new();
        std::mem::swap(&mut line, &mut self.line);
        if line.len() > 0 && line[line.len() - 1] == 13 {
            let _ = line.pop();
            assert(line@ =~= trimmed(before.line));
        }
        assert(line@ == trimmed(before.line));
        if line.len() == 0 {
            let mut event: Vec<u8> = Vec::new();
            std::mem::swap(&mut event, &mut self.event);
            let data = self.data.take();
            assert(self.pending() =~= nothing_pending());
            return match data {
                Some(data) => Some(SseFrame { event, data }),
                None => None,
            };
        }
        let colon = find_colon(&line);
        let name = part_of(&line, 0, colon);
        assert(name@ =~= field_name(line@));
        let value = if colon >= line.len() - 1 {
            Vec::new()
        } else if line[colon + 1] == 32 {
            part_of(&line, colon + 2, line.len())
        } else {
            part_of(&line, colon + 1, line.len())
        };
        assert(value@ =~= field_value(line@));
        let data_bytes: [u8; 4] = [100, 97, 116, 97];
        let event_bytes: [u8; 5] = [101, 118, 101, 110, 116];
        assert(data_bytes@ =~= data_name());
        assert(event_bytes@ =~= event_name());
        if same_bytes(&name, &data_bytes) {
            let held = self.data.take();
            match held {
                Some(mut data) => {
                    data.push(10);
                    data.extend_from_slice(value.as_slice());
                    assert(data@ =~= before.data->0.push(10) + value@);
                    self.data = Some(data);
                },
                None => {
                    self.data = Some(value);
                },
            }
        } else if same_bytes(&name, &event_bytes) {
            self.event = value;
        }
        assert(self.pending() =~= line_ended(before).0);
        None
    }

    /// Whether more is held than the limit allows.
    fn overflows(&self) -> (over: bool)
        ensures
            over == (pending_size(self.pending()) > self.limit()),
    {
        let held: usize = match &self.data {
            Some(data) => data.len(),
            None => 0,
        };
        match self.line.len().checked_add(self.event.len()) {
            Some(sum) => match sum.checked_add(held) {
                Some(sum) => sum > self.limit,
                None => true,
            },
            None => true,
        }
    }

    /// Takes a chunk in, and gives the frames that it completes.
    ///
    /// Where more would have to be held than the limit allows, nothing of the
    /// chunk counts and nothing is held any more.
    pub fn parse_chunk(&mut self, bytes: &[u8]) -> (result: Result<Vec<SseFrame>, SseParseError>)
        ensures
            match result {
                Ok(frames) => bytes_taken(old(self).pending(), bytes@, old(self).limit()) == Some(
                    (final(self).pending(), frames_view(frames@)),
                ),
                Err(error) => {
                    &&& bytes_taken(old(self).pending(), bytes@, old(self).limit()) is None
                    &&& error@ == ParseErrorView::BufferOverflow
                    &&& final(self).pending() == nothing_pending()
                },
            },
            final(self).limit() == old(self).limit(),
    {
        let ghost start = self.pending();
        let ghost limit = self.limit();
        let mut frames: Vec<SseFrame> = Vec::new();
        let mut i: usize = 0;
        assert(frames_view(frames@) =~= Seq::empty());
        assert(bytes@.take(0) =~= Seq::empty());
        while i < bytes.len()
            invariant
                start == old(self).pending(),
                limit == old(self).limit(),
                self.limit() == limit,
                i <= bytes.len(),
                bytes_taken(start, bytes@.take(i as int), limit) == Some(
                    (self.pending(), frames_view(frames@)),
                ),
            decreases bytes.len() - i,
        {
            let ghost part = bytes@.take(i + 1);
            assert(part.drop_last() =~= bytes@.take(i as int));
            assert(part.last() == bytes@[i as int]);
            let ghost held = self.pending();
            let ghost earlier = frames_view(frames@);
            if bytes[i] == 10 {
                if let Some(frame) = self.end_line() {
                    frames.push(frame);
                    assert(frames_view(frames@) =~= earlier.push(frame@));
                }
            } else {
                self.line.push(bytes[i]);
                assert(self.pending() =~= byte_taken(held, bytes@[i as int]).0);
            }
            if self.overflows() {
                proof {
                    assert(bytes_taken(start, part, limit) is None);
                    lemma_overflow_stays(start, bytes@, i + 1, limit);
                }
                self.line = Vec::new();
                self.event = Vec::new();
                self.data = None;
                assert(self.pending() =~= nothing_pending());
                return Err(SseParseError::BufferOverflow);
            }
            i = i + 1;
        }
        assert(bytes@.take(i as int) =~= bytes@);
        Ok(frames)
    }
}

/// Where a leading part of a chunk is too much to hold, so is the chunk.
proof fn lemma_overflow_stays(pending: PendingView, bytes: Seq<u8>, n: int, limit: nat)
    requires
        0 <= n <= bytes.len(),
        bytes_taken(pending, bytes.take(n), limit) is None,
    ensures
        bytes_taken(pending, bytes, limit) is None,
    decreases bytes.len(),
{
    if n == bytes.len() {
        assert(bytes.take(n) =~= bytes);
    } else {
        assert(bytes.drop_last().take(n) =~= bytes.take(n));
        lemma_overflow_stays(pending, bytes.drop_last(), n, limit);
    }
}

/// The bytes of the sentinel that some providers end a stream with.
pub open spec fn done_sentinel() -> Seq<u8> {
    seq![91u8, 68u8, 79u8, 78u8, 69u8, 93u8]
}

/// Whether a frame is the sentinel that some providers end a stream with.
pub fn is_done_sentinel(frame: &SseFrame) -> (done: bool)
    ensures
        done == (frame@.data == done_sentinel()),
{
    let bytes: [u8; 6] = [91, 68, 79, 78, 69, 93];
    assert(bytes@ =~= done_sentinel());
    same_bytes(&frame.data, &bytes)
}

/// One event of a Responses stream.
pub struct ResponsesEvent {
    /// The event's type.
    pub event_type: String,
    /// The event's payload.
    pub payload: Json,
}

/// The model of a [`ResponsesEvent`].
#[verifier::ext_equal]
pub struct EventView {
    /// The event's type.
    pub event_type: Seq<char>,
    /// The event's payload.
    pub payload: JsonView,
}

impl View for ResponsesEvent {
    type V = EventView;

    open spec fn view(&self) -> EventView {
        EventView { event_type: self.event_type@, payload: self.payload@ }
    }
}

/// The models of events.
pub open spec fn events_view(events: Seq<ResponsesEvent>) -> Seq<EventView> {
    Seq::new(events.len(), |i: int| events[i]@)
}

/// Whether an event type ends a response's lifecycle.
pub open spec fn is_terminal_type(event_type: Seq<char>) -> bool {
    event_type == "response.completed"@ || event_type == "response.incomplete"@ || event_type
        == "response.failed"@
}

/// `String::from_utf8` gives the text that valid UTF-8 bytes encode, and refuses
/// other bytes.
#[verifier::external_body]
fn text_from_utf8(bytes: Vec<u8>) -> (text: Option<String>)
    ensures
        match text {
            Some(text) => valid_utf8(bytes@) && text@ == decode_utf8(bytes@),
            None => !valid_utf8(bytes@),
        },
{
    String::from_utf8(bytes).ok()
}

/// The event of a frame with the payload `payload`: the type is the frame's event
/// field, or the payload's `type` where the frame has none.
pub open spec fn typed_event(event: Seq<u8>, payload: JsonView) -> Result<
    EventView,
    ParseErrorView,
> {
    if event.len() > 0 {
        if valid_utf8(event) {
            Ok(EventView { event_type: decode_utf8(event), payload })
        } else {
            Err(ParseErrorView::MissingEventType)
        }
    } else {
        match payload.get_text("type"@) {
            Some(event_type) => Ok(EventView { event_type, payload }),
            None => Err(ParseErrorView::MissingEventType),
        }
    }
}

/// The event that a frame holds.
pub open spec fn event_of(frame: FrameView) -> Result<EventView, ParseErrorView> {
    match parsed(frame.data) {
        Ok(payload) => typed_event(frame.event, payload),
        Err(message) => Err(ParseErrorView::InvalidJson(message)),
    }
}

/// Whether `result` is the outcome `expected`.
pub open spec fn event_result_is(
    result: Result<ResponsesEvent, SseParseError>,
    expected: Result<EventView, ParseErrorView>,
) -> bool {
    match result {
        Ok(event) => expected == Ok::<EventView, ParseErrorView>(event@),
        Err(error) => expected == Err::<EventView, ParseErrorView>(error@),
    }
}

/// Types a parsed payload.
pub fn type_event(event: &Vec<u8>, payload: Json) -> (result: Result<ResponsesEvent, SseParseError>)
    ensures
        event_result_is(result, typed_event(event@, payload@)),
{
    if event.len() > 0 {
        match text_from_utf8(part_of(event, 0, event.len())) {
            Some(event_type) => {
                assert(event@.subrange(0, event@.len() as int) =~= event@);
                Ok(ResponsesEvent { event_type, payload })
            },
            None => {
                assert(event@.subrange(0, event@.len() as int) =~= event@);
                Err(SseParseError::MissingEventType)
            },
        }
    } else {
        let event_type = match payload.get_str("type") {
            Some(event_type) => event_type.to_owned(),
            None => return Err(SseParseError::MissingEventType),
        };
        Ok(ResponsesEvent { event_type, payload })
    }
}

impl ResponsesEvent {
    /// Reads the event that a frame holds.
    pub fn from_frame(frame: &SseFrame) -> (result: Result<Self, SseParseError>)
        ensures
            event_result_is(result, event_of(frame@)),
    {
        match parse_json(frame.data.as_slice()) {
            Ok(payload) => type_event(&frame.event, payload),
            Err(message) => Err(SseParseError::InvalidJson(message)),
        }
    }

    /// Whether the event ends a response's lifecycle.
    pub fn is_terminal(&self) -> (terminal: bool)
        ensures
            terminal == is_terminal_type(self@.event_type),
    {
        self.is("response.completed") || self.is("response.incomplete") || self.is(
            "response.failed",
        )
    }

    /// Whether the event is of the given type.
    pub fn is(&self, event_type: &str) -> (same: bool)
        ensures
            same == (self@.event_type == event_type@),
    {
        same_text(self.event_type.as_str(), event_type)
    }
}

} // verus!
