//! What encoded events look like to whoever parses them.

use vstd::prelude::*;
use vstd::utf8::{encode_scalar, is_ascii_chars, is_ascii_chars_encode_utf8};

use crate::json_text::{
    compact_text, floats_are_plain, is_plain, lemma_compact_text_is_plain, parsed,
};
use crate::openai::sse::{
    byte_taken, bytes_taken, colon_at, data_name, event_name, event_of, field_name, field_value,
    lemma_chunking_does_not_count, line_ended, nothing_pending, pending_size, trimmed, EventView,
    FrameView, ParseErrorView, PendingView,
};
use crate::openai::stream_events::logical::{event_bytes, events_bytes};
use crate::text::utf8;

verus! {

/// The bytes of a plain text are no control bytes.
proof fn lemma_plain_bytes(text: Seq<char>)
    requires
        is_plain(text),
    ensures
        forall|i: int| 0 <= i < utf8(text).len() ==> #[trigger] utf8(text)[i] >= 32,
    decreases text.len(),
{
    if text.len() > 0 {
        let c = text[0] as u32;
        let rest = text.drop_first();
        assert(is_plain(rest)) by {
            assert forall|i: int| 0 <= i < rest.len() implies #[trigger] rest[i] >= ' ' by {
                assert(rest[i] == text[i + 1]);
            }
        }
        lemma_plain_bytes(rest);
        let first = encode_scalar(c);
        vstd::utf8::char_u32_cast(text[0], c);
        assert(c >= 32);
        assert(c >= 32 && c <= 0x7F ==> (c & 0x7F) as u8 >= 32) by (bit_vector);
        assert(0xC0u8 | ((c >> 6) & 0x1F) as u8 >= 32) by (bit_vector);
        assert(0xE0u8 | ((c >> 12) & 0x0F) as u8 >= 32) by (bit_vector);
        assert(0xF0u8 | ((c >> 18) & 0x7) as u8 >= 32) by (bit_vector);
        assert(0x80u8 | (c & 0x3F) as u8 >= 32) by (bit_vector);
        assert(0x80u8 | ((c >> 6) & 0x3F) as u8 >= 32) by (bit_vector);
        assert(0x80u8 | ((c >> 12) & 0x3F) as u8 >= 32) by (bit_vector);
        assert forall|i: int| 0 <= i < first.len() implies #[trigger] first[i] >= 32 by {}
        assert forall|i: int| 0 <= i < utf8(text).len() implies #[trigger] utf8(text)[i] >= 32 by {
            if i < first.len() {
                assert(utf8(text)[i] == first[i]);
            } else {
                assert(utf8(text)[i] == utf8(rest)[i - first.len()]);
            }
        }
    }
}

/// Bytes without a line feed lengthen the line that is held.
proof fn lemma_line_grows(pending: PendingView, bytes: Seq<u8>, limit: nat)
    requires
        forall|i: int| 0 <= i < bytes.len() ==> #[trigger] bytes[i] != 10,
        pending_size(pending) + bytes.len() <= limit,
    ensures
        bytes_taken(pending, bytes, limit) == Some(
            (PendingView { line: pending.line + bytes, ..pending }, Seq::<FrameView>::empty()),
        ),
    decreases bytes.len(),
{
    if bytes.len() == 0 {
        assert(pending.line + bytes =~= pending.line);
    } else {
        let front = bytes.drop_last();
        assert forall|i: int| 0 <= i < front.len() implies #[trigger] front[i] != 10 by {
            assert(front[i] == bytes[i]);
        }
        lemma_line_grows(pending, front, limit);
        assert(bytes.last() == bytes[bytes.len() - 1]);
        assert((pending.line + front).push(bytes.last()) =~= pending.line + bytes);
    }
}

/// A line feed ends the line that is held.
proof fn lemma_line_ends(pending: PendingView, limit: nat)
    requires
        pending_size(line_ended(pending).0) <= limit,
    ensures
        bytes_taken(pending, seq![10u8], limit) == Some(
            (
                line_ended(pending).0,
                match line_ended(pending).1 {
                    Some(frame) => seq![frame],
                    None => Seq::empty(),
                },
            ),
        ),
{
    let feed = seq![10u8];
    assert(feed.drop_last() =~= Seq::empty());
    reveal_with_fuel(bytes_taken, 2);
    assert(bytes_taken(pending, feed.drop_last(), limit) == Some(
        (pending, Seq::<FrameView>::empty()),
    ));
    assert(byte_taken(pending, 10) == line_ended(pending));
    match line_ended(pending).1 {
        Some(frame) => {
            assert(Seq::<FrameView>::empty().push(frame) =~= seq![frame]);
        },
        None => {},
    }
}

/// The name and the value of a field whose name is given.
proof fn lemma_field(name: Seq<u8>, value: Seq<u8>)
    requires
        forall|i: int| 0 <= i < name.len() ==> #[trigger] name[i] != 58,
    ensures
        field_name(name + seq![58u8, 32u8] + value) == name,
        field_value(name + seq![58u8, 32u8] + value) == value,
{
    let line = name + seq![58u8, 32u8] + value;
    lemma_colon(line, name.len() as int, 0);
    assert(line.take(name.len() as int) =~= name);
    assert(line[name.len() as int + 1] == 32);
    assert(line.skip(name.len() as int + 2) =~= value);
}

/// Where the first colon stands.
proof fn lemma_colon(line: Seq<u8>, at: int, from: int)
    requires
        0 <= from <= at < line.len(),
        line[at] == 58,
        forall|i: int| 0 <= i < at ==> #[trigger] line[i] != 58,
    ensures
        colon_at(line, from) == at,
    decreases at - from,
{
    if from < at {
        lemma_colon(line, at, from + 1);
    }
}

/// The bytes that frame an event.
proof fn lemma_framing()
    ensures
        utf8("event: "@) == event_name() + seq![58u8, 32u8],
        utf8("\ndata: "@) == seq![10u8] + data_name() + seq![58u8, 32u8],
        utf8("\n\n"@) == seq![10u8] + seq![10u8],
{
    reveal_strlit("event: ");
    reveal_strlit("\ndata: ");
    reveal_strlit("\n\n");
    assert(is_ascii_chars("event: "@));
    assert(is_ascii_chars("\ndata: "@));
    assert(is_ascii_chars("\n\n"@));
    is_ascii_chars_encode_utf8("event: "@);
    is_ascii_chars_encode_utf8("\ndata: "@);
    is_ascii_chars_encode_utf8("\n\n"@);
    assert(utf8("event: "@) =~= event_name() + seq![58u8, 32u8]);
    assert(utf8("\ndata: "@) =~= seq![10u8] + data_name() + seq![58u8, 32u8]);
    assert(utf8("\n\n"@) =~= seq![10u8] + seq![10u8]);
}

/// Whether an event can be written in lines: neither its type nor the text of a
/// number in it holds a control character.
pub open spec fn is_writable(event: EventView) -> bool {
    is_plain(event.event_type) && floats_are_plain(event.payload)
}

/// The frame that carries an event.
pub open spec fn frame_of(event: EventView) -> FrameView {
    FrameView { event: utf8(event.event_type), data: utf8(compact_text(event.payload)) }
}

/// An encoded event is one frame: whatever its strings hold, it is parsed as its
/// own type and its own JSON text, and nothing of it is left over.
pub proof fn lemma_encoded_event_is_one_frame(event: EventView, limit: nat)
    requires
        is_writable(event),
        event_bytes(event).len() <= limit,
    ensures
        bytes_taken(nothing_pending(), event_bytes(event), limit) == Some(
            (nothing_pending(), seq![frame_of(event)]),
        ),
{
    let kind = utf8(event.event_type);
    let text = utf8(compact_text(event.payload));
    lemma_framing();
    lemma_plain_bytes(event.event_type);
    lemma_compact_text_is_plain(event.payload);
    lemma_plain_bytes(compact_text(event.payload));
    let line_1 = event_name() + seq![58u8, 32u8] + kind;
    let line_2 = data_name() + seq![58u8, 32u8] + text;
    let feed = seq![10u8];
    assert(event_bytes(event) =~= line_1 + feed + line_2 + feed + feed);
    assert forall|i: int| 0 <= i < line_1.len() implies #[trigger] line_1[i] >= 32 by {
        if i >= 7 {
            assert(line_1[i] == kind[i - 7]);
        }
    }
    assert forall|i: int| 0 <= i < line_2.len() implies #[trigger] line_2[i] >= 32 by {
        if i >= 6 {
            assert(line_2[i] == text[i - 6]);
        }
    }
    lemma_field(event_name(), kind);
    lemma_field(data_name(), text);
    assert(event_name() != data_name()) by {
        assert(event_name().len() != data_name().len());
    }
    let p0 = nothing_pending();
    let p1 = PendingView { line: line_1, ..p0 };
    let p2 = PendingView { line: Seq::empty(), event: kind, data: None };
    let p3 = PendingView { line: line_2, ..p2 };
    let p4 = PendingView { line: Seq::empty(), event: kind, data: Some(text) };
    lemma_line_grows(p0, line_1, limit);
    assert(p0.line + line_1 =~= line_1);
    assert(trimmed(line_1) == line_1);
    assert(line_ended(p1) == (p2, None::<FrameView>));
    lemma_line_ends(p1, limit);
    lemma_line_grows(p2, line_2, limit);
    assert(p2.line + line_2 =~= line_2);
    assert(trimmed(line_2) == line_2);
    assert(line_ended(p3) == (p4, None::<FrameView>));
    lemma_line_ends(p3, limit);
    assert(trimmed(p4.line) == Seq::<u8>::empty());
    assert(line_ended(p4) == (p0, Some(frame_of(event))));
    lemma_line_ends(p4, limit);
    let none = Seq::<FrameView>::empty();
    assert(none + none =~= none);
    lemma_chunking_does_not_count(p0, line_1, feed, limit);
    lemma_chunking_does_not_count(p0, line_1 + feed, line_2, limit);
    lemma_chunking_does_not_count(p0, line_1 + feed + line_2, feed, limit);
    lemma_chunking_does_not_count(p0, line_1 + feed + line_2 + feed, feed, limit);
    assert(none + seq![frame_of(event)] =~= seq![frame_of(event)]);
}

/// Encoded events one behind the other are one frame each, in order.
pub proof fn lemma_encoded_events_are_frames(events: Seq<EventView>, limit: nat)
    requires
        forall|i: int|
            0 <= i < events.len() ==> is_writable(#[trigger] events[i]) && event_bytes(
                events[i],
            ).len() <= limit,
    ensures
        bytes_taken(nothing_pending(), events_bytes(events), limit) == Some(
            (nothing_pending(), Seq::new(events.len(), |i: int| frame_of(events[i]))),
        ),
    decreases events.len(),
{
    let frames = Seq::new(events.len(), |i: int| frame_of(events[i]));
    if events.len() == 0 {
        assert(frames =~= Seq::empty());
    } else {
        let front = events.drop_last();
        assert forall|i: int| 0 <= i < front.len() implies is_writable(#[trigger] front[i])
            && event_bytes(front[i]).len() <= limit by {
            assert(front[i] == events[i]);
        }
        lemma_encoded_events_are_frames(front, limit);
        assert(events.last() == events[events.len() - 1]);
        lemma_encoded_event_is_one_frame(events.last(), limit);
        lemma_chunking_does_not_count(
            nothing_pending(),
            events_bytes(front),
            event_bytes(events.last()),
            limit,
        );
        let earlier = Seq::new(front.len(), |i: int| frame_of(front[i]));
        assert(earlier + seq![frame_of(events.last())] =~= frames);
    }
}

/// An event that was written is the event that is read: its type comes back, and
/// its payload is what the parser makes of the payload's JSON text.
pub proof fn lemma_written_event_is_read(event: EventView)
    requires
        event.event_type.len() > 0,
    ensures
        event_of(frame_of(event)) == (match parsed(utf8(compact_text(event.payload))) {
            Ok(payload) => Ok(EventView { event_type: event.event_type, payload }),
            Err(message) => Err(ParseErrorView::InvalidJson(message)),
        }),
{
    vstd::utf8::encode_utf8_valid_utf8(event.event_type);
    vstd::utf8::encode_utf8_decode_utf8(event.event_type);
    assert(utf8(event.event_type).len() > 0);
}

} // verus!
