//! What holds of every event stream: how lines make up frames, and frames events.

use vstd::prelude::*;
use vstd::utf8::{decode_utf8, is_ascii_chars, is_ascii_chars_encode_utf8, valid_utf8};

use crate::json::JsonView;
use crate::json_text::parsed;
use crate::openai::sse::{
    byte_taken, colon_at, done_sentinel, event_of, field_name, field_value, line_ended,
    nothing_pending, trimmed, FrameView, PendingView,
};
use crate::text::utf8;

verus! {

/// The bytes of a field: its name, a colon, and its value.
pub open spec fn field(name: Seq<u8>, value: Seq<u8>) -> Seq<u8> {
    name + seq![58u8] + value
}

/// A value without one space at its front.
pub open spec fn without_space(value: Seq<u8>) -> Seq<u8> {
    if value.len() > 0 && value[0] == 32 {
        value.skip(1)
    } else {
        value
    }
}

/// Where the first colon of a line stands.
proof fn lemma_first_colon(line: Seq<u8>, at: int, from: int)
    requires
        0 <= from <= at < line.len(),
        line[at] == 58,
        forall|i: int| 0 <= i < at ==> #[trigger] line[i] != 58,
    ensures
        colon_at(line, from) == at,
    decreases at - from,
{
    if from < at {
        lemma_first_colon(line, at, from + 1);
    }
}

/// A field has its name, and its value without one space at its front.
proof fn lemma_field_is_read(name: Seq<u8>, value: Seq<u8>)
    requires
        forall|i: int| 0 <= i < name.len() ==> #[trigger] name[i] != 58,
    ensures
        field_name(field(name, value)) == name,
        field_value(field(name, value)) == without_space(value),
{
    let line = field(name, value);
    lemma_first_colon(line, name.len() as int, 0);
    assert(line.take(name.len() as int) =~= name);
    let start = name.len() as int + 1;
    assert(line.skip(start) =~= value);
    if value.len() > 0 {
        assert(line[start] == value[0]);
        assert(line.skip(start + 1) =~= value.skip(1));
    } else {
        assert(value =~= Seq::empty());
    }
}

/// The bytes of the field names.
proof fn lemma_field_names()
    ensures
        utf8("data"@) == seq![100u8, 97u8, 116u8, 97u8],
        utf8("event"@) == seq![101u8, 118u8, 101u8, 110u8, 116u8],
        utf8("[DONE]"@) == seq![91u8, 68u8, 79u8, 78u8, 69u8, 93u8],
{
    reveal_strlit("data");
    reveal_strlit("event");
    reveal_strlit("[DONE]");
    assert(is_ascii_chars("data"@));
    assert(is_ascii_chars("event"@));
    assert(is_ascii_chars("[DONE]"@));
    is_ascii_chars_encode_utf8("data"@);
    is_ascii_chars_encode_utf8("event"@);
    is_ascii_chars_encode_utf8("[DONE]"@);
    assert(utf8("data"@) =~= seq![100u8, 97u8, 116u8, 97u8]);
    assert(utf8("event"@) =~= seq![101u8, 118u8, 101u8, 110u8, 116u8]);
    assert(utf8("[DONE]"@) =~= seq![91u8, 68u8, 79u8, 78u8, 69u8, 93u8]);
}

/// The data of a frame are the values of all its `data` lines, in order and with one
/// line feed between them; such a line completes no frame and leaves the event's type.
pub proof fn lemma_data_lines_add_up(pending: PendingView, value: Seq<u8>)
    requires
        pending.line == field(utf8("data"@), value),
        value.len() > 0 ==> value.last() != 13,
    ensures
        ({
            let (after, frame) = line_ended(pending);
            &&& frame is None
            &&& after.line.len() == 0
            &&& after.event == pending.event
            &&& after.data is Some
            &&& match pending.data {
                Some(data) => after.data->0 == data + seq![10u8] + without_space(value),
                None => after.data->0 == without_space(value),
            }
        }),
{
    lemma_field_names();
    let line = pending.line;
    lemma_field_is_read(utf8("data"@), value);
    if value.len() > 0 {
        assert(line.last() == value.last());
    } else {
        assert(line.last() == 58);
    }
    assert(trimmed(line) == line);
    if let Some(data) = pending.data {
        assert(data.push(10) + without_space(value) =~= data + seq![10u8] + without_space(value));
    }
}

/// The event's type is the value of the last `event` line.
pub proof fn lemma_last_event_line_counts(pending: PendingView, value: Seq<u8>)
    requires
        pending.line == field(utf8("event"@), value),
        value.len() > 0 ==> value.last() != 13,
    ensures
        ({
            let (after, frame) = line_ended(pending);
            &&& frame is None
            &&& after.line.len() == 0
            &&& after.event == without_space(value)
            &&& after.data == pending.data
        }),
{
    lemma_field_names();
    let line = pending.line;
    lemma_field_is_read(utf8("event"@), value);
    if value.len() > 0 {
        assert(line.last() == value.last());
    } else {
        assert(line.last() == 58);
    }
    assert(trimmed(line) == line);
    assert(utf8("event"@).len() != utf8("data"@).len());
}

/// Comments and other fields do not count.
pub proof fn lemma_other_lines_do_not_count(pending: PendingView, name: Seq<u8>, value: Seq<u8>)
    requires
        pending.line == field(name, value),
        name != utf8("data"@),
        name != utf8("event"@),
        forall|i: int| 0 <= i < name.len() ==> #[trigger] name[i] != 58,
        value.len() > 0 ==> value.last() != 13,
    ensures
        line_ended(pending).1 is None,
        line_ended(pending).0.event == pending.event,
        line_ended(pending).0.data == pending.data,
        line_ended(pending).0.line.len() == 0,
{
    lemma_field_names();
    let line = pending.line;
    lemma_field_is_read(name, value);
    if value.len() > 0 {
        assert(line.last() == value.last());
    } else {
        assert(line.last() == 58);
    }
    assert(trimmed(line) == line);
}

/// An empty line ends a frame: what was gathered is the frame, where there are data,
/// and nothing is left of it.
pub proof fn lemma_empty_line_ends_frame(pending: PendingView)
    requires
        pending.line.len() == 0,
    ensures
        ({
            let (after, frame) = line_ended(pending);
            &&& after.line.len() == 0 && after.event.len() == 0 && after.data is None
            &&& match pending.data {
                Some(data) => frame == Some(FrameView { event: pending.event, data }),
                None => frame is None,
            }
        }),
{
}

/// A carriage return before the line feed does not count.
pub proof fn lemma_carriage_return_does_not_count(pending: PendingView)
    requires
        pending.line.len() > 0 ==> pending.line.last() != 13,
    ensures
        line_ended(PendingView { line: pending.line.push(13), ..pending }) == line_ended(pending),
{
    assert(pending.line.push(13).drop_last() =~= pending.line);
}

/// Every byte but a line feed lengthens the line.
pub proof fn lemma_bytes_make_lines(pending: PendingView, byte: u8)
    ensures
        byte != 10 ==> byte_taken(pending, byte) == (
            PendingView { line: pending.line.push(byte), ..pending },
            None::<FrameView>,
        ),
        byte == 10 ==> byte_taken(pending, byte) == line_ended(pending),
        nothing_pending().line.len() == 0 && nothing_pending().event.len() == 0
            && nothing_pending().data is None,
        done_sentinel() == utf8("[DONE]"@),
{
    lemma_field_names();
}

/// The event of a frame has the payload that its data encode, and the type that the
/// frame states, or the one that the payload states where the frame states none.
pub proof fn lemma_event_is_read(frame: FrameView)
    ensures
        match event_of(frame) {
            Ok(event) => {
                &&& parsed(frame.data) == Ok::<JsonView, Seq<char>>(event.payload)
                &&& frame.event.len() > 0 ==> valid_utf8(frame.event) && event.event_type
                    == decode_utf8(frame.event)
                &&& frame.event.len() == 0 ==> event.payload.get("type"@) == Some(
                    JsonView::String(event.event_type),
                )
            },
            Err(_) => {
                ||| parsed(frame.data) is Err
                ||| frame.event.len() > 0 && !valid_utf8(frame.event)
                ||| frame.event.len() == 0 && match parsed(frame.data)->Ok_0.get("type"@) {
                    Some(JsonView::String(_)) => false,
                    _ => true,
                }
            },
        },
{
}

} // verus!
