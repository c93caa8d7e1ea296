//! Event streams on the wire.

use praxis_apis::json::Json;
use praxis_apis::json_text::{bytes_of, parse_json, quoted_byte_len, text_of};
use praxis_apis::openai::sse::{
    is_done_sentinel, ResponsesEvent, SseFrame, SseFrameParser, SseParseError,
};
use praxis_apis::openai::stream_events::logical::encode_sse_event;

fn j(text: &str) -> Json {
    parse_json(text.as_bytes()).unwrap()
}

fn frames(parser: &mut SseFrameParser, bytes: &[u8]) -> Vec<SseFrame> {
    parser.parse_chunk(bytes).ok().unwrap()
}

#[test]
fn how_a_stream_is_cut_does_not_count() {
    let stream = b"event: a\r\ndata: 1\r\n\r\n: note\ndata:x\ndata: y\n\ndata: [DONE]\n\n";
    let whole = frames(&mut SseFrameParser::new(100), stream);
    let mut parser = SseFrameParser::new(100);
    let mut parts = Vec::new();
    for byte in stream {
        parts.extend(frames(&mut parser, &[*byte]));
    }
    assert_eq!(whole.len(), 3);
    assert_eq!(parts.len(), 3);
    for (a, b) in whole.iter().zip(&parts) {
        assert_eq!((&a.event, &a.data), (&b.event, &b.data));
    }
    assert_eq!(whole[0].event, b"a");
    assert_eq!(whole[0].data, b"1");
    assert_eq!(whole[1].data, b"x\ny");
    assert!(is_done_sentinel(&whole[2]));
}

#[test]
fn frames_without_data_do_not_count() {
    assert!(frames(&mut SseFrameParser::new(100), b"event: a\n\n\n").is_empty());
}

#[test]
fn no_more_is_held_than_the_limit() {
    let mut parser = SseFrameParser::new(8);
    assert!(frames(&mut parser, b"data: 12").is_empty());
    assert!(matches!(parser.parse_chunk(b"3"), Err(SseParseError::BufferOverflow)));
    assert_eq!(frames(&mut parser, b"data: 1\n\n").len(), 1, "nothing is held any more");
}

#[test]
fn events_are_typed_by_field_or_payload() {
    let event = |event: &[u8], data: &str| {
        ResponsesEvent::from_frame(&SseFrame { event: event.to_vec(), data: data.as_bytes().to_vec() })
    };
    assert_eq!(event(b"a", r#"{"type":"b"}"#).ok().unwrap().event_type, "a");
    assert_eq!(event(b"", r#"{"type":"b"}"#).ok().unwrap().event_type, "b");
    assert_eq!(event("ä".as_bytes(), "{}").ok().unwrap().event_type, "ä");
    assert!(matches!(event(b"", "{}"), Err(SseParseError::MissingEventType)));
    assert!(matches!(event(b"\xff", "{}"), Err(SseParseError::MissingEventType)));
    assert!(matches!(event(b"a", "{"), Err(SseParseError::InvalidJson(_))));
}

#[test]
fn terminal_events_end_a_response() {
    let event = |kind: &str| ResponsesEvent { event_type: kind.to_owned(), payload: Json::Null };
    for kind in ["response.completed", "response.incomplete", "response.failed"] {
        assert!(event(kind).is_terminal());
    }
    assert!(!event("error").is_terminal());
    assert!(!event("response.created").is_terminal());
}

#[test]
fn an_encoded_event_is_read_back_as_one_frame() {
    let payload = j(r#"{"type":"x","text":"line\nbreak\r\u0000 \"quoted\" ä","n":[1,-2,3.5,null,true]}"#);
    let mut output = Vec::new();
    encode_sse_event("x", &payload, &mut output);
    encode_sse_event("response.completed", &j("{}"), &mut output);
    let read = frames(&mut SseFrameParser::new(output.len()), &output);
    assert_eq!(read.len(), 2);
    assert_eq!(read[0].event, b"x");
    assert_eq!(read[0].data, bytes_of(&payload));
    let event = ResponsesEvent::from_frame(&read[0]).ok().unwrap();
    assert_eq!(text_of(&event.payload), text_of(&payload));
    assert_eq!(read[1].event, b"response.completed");
}

#[test]
fn values_are_written_as_serde_writes_them() {
    for text in [
        r#"{"b":1,"a":{"c":[],"d":{}},"e":"\u0001\u001f\b\f\n\r\t\"\\/ü😀"}"#,
        r#"[0,18446744073709551615,-9223372036854775808,1.5,1e300,-0.0,null,true,false]"#,
        r#""""#,
    ] {
        let expected = serde_json::from_str::<serde_json::Value>(text).unwrap().to_string();
        assert_eq!(text_of(&j(text)), expected);
    }
}

#[test]
fn quoted_sizes_count_escapes() {
    for text in ["", "plain", "\"\\\n\u{1}", "ä😀"] {
        assert_eq!(quoted_byte_len(text), serde_json::to_string(text).unwrap().len());
    }
}

#[test]
fn malformed_json_is_described() {
    let expected = serde_json::from_slice::<serde_json::Value>(b"{\"a\":}").err().unwrap();
    assert_eq!(parse_json(b"{\"a\":}").err().unwrap(), expected.to_string());
}
