use kxen_core::json::Json;
use kxen_core::llm::sse::{payload_error, SseFrame, SseParser, MAX_LINE_BYTES};

#[test]
fn parses_frames_across_chunks() {
    let mut p = SseParser::new();
    let mut frames = p.feed(b"data: {\"a\":1}\n\nda");
    frames.extend(p.feed(b"ta: {\"b\":2}\n"));
    frames.extend(p.feed(b"data: [DONE]\n"));
    let datas: Vec<&str> = frames
        .iter()
        .filter_map(|f| match f {
            SseFrame::Data(d) => Some(d.as_str()),
            _ => None,
        })
        .collect();
    assert_eq!(datas, vec!["{\"a\":1}", "{\"b\":2}"]);
    assert!(frames.iter().any(|f| matches!(f, SseFrame::Done)));
}

#[test]
fn skips_heartbeat_and_empty() {
    let mut p = SseParser::new();
    let frames = p.feed(b": ping\n\n\ndata: x\n");
    assert_eq!(frames, vec![SseFrame::Data("x".into())]);
}

#[test]
fn preserves_multibyte_utf8_across_every_chunk_boundary() {
    let bytes = "data: 中文\n".as_bytes();
    for split in 1..bytes.len() {
        let mut parser = SseParser::new();
        let mut frames = parser.feed(&bytes[..split]);
        frames.extend(parser.feed(&bytes[split..]));
        assert_eq!(frames, vec![SseFrame::Data("中文".into())], "split={split}");
    }
}

#[test]
fn invalid_utf8_is_not_lossily_replaced() {
    let mut parser = SseParser::new();
    let frames = parser.feed(b"data: \xff\n");
    assert!(matches!(frames.as_slice(), [SseFrame::Invalid(error)] if error.contains("invalid utf-8")));
}

#[test]
fn oversized_line_fails_once_without_retaining_the_payload() {
    let mut parser = SseParser::new();
    let frames = parser.feed(&vec![b'x'; MAX_LINE_BYTES + 1]);
    assert!(matches!(frames.as_slice(), [SseFrame::Invalid(error)] if error.contains("exceeded")));
    assert_eq!(parser.pending_len(), 0);
    assert!(parser.feed(b"data: ignored\n").is_empty());
}

#[test]
fn finish_flushes_an_unterminated_line() {
    let mut parser = SseParser::new();
    assert!(parser.feed(b"data: tail\r").is_empty());
    assert_eq!(parser.finish(), vec![SseFrame::Data("tail".into())]);
    assert!(parser.finish().is_empty());
}

#[test]
fn payload_errors_are_put_into_words() {
    assert_eq!(
        payload_error("xai", r#"{"error":{"type":"invalid_request_error","message":"bad key"}}"#).as_deref(),
        Some("xai stream error: invalid_request_error - bad key")
    );
    assert_eq!(
        payload_error("openai", r#"{"response":{"error":{"message":"denied"}}}"#).as_deref(),
        Some("openai stream error: denied")
    );
    assert_eq!(payload_error("p", r#"{"error":{"a":[1,2.5,-3]}}"#).as_deref(), Some("p stream error: {\"a\":[1,2.5,-3]}"));
    assert_eq!(payload_error("p", r#"{"error":"plain"}"#).as_deref(), Some("p stream error: plain"));
    assert_eq!(payload_error("p", r#"{"error":null}"#).as_deref(), Some("p stream error: null"));
    assert_eq!(payload_error("p", r#"{"ok":true}"#), None);
    assert_eq!(payload_error("p", "{"), None);
}

#[test]
fn json_is_read_and_written() {
    let value = Json::parse(" {\"a\": [1, true, null, 0.5], \"b\": \"x\"} ").unwrap();
    assert_eq!(value.text_at("b").map(String::as_str), Some("x"));
    assert_eq!(value.get("a").and_then(Json::as_array).map(Vec::len), Some(4));
    assert_eq!(value.to_text(), "{\"a\":[1,true,null,0.5],\"b\":\"x\"}");
    assert!(Json::parse("{").unwrap_err().contains("EOF"));
}
