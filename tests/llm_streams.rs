use std::io::Write;

use honeybeepf::processor::{LlmDirection, ProcessorState, StreamProcessor};
use honeybeepf::protocol::{
    extract_json_string, extract_text_from_incomplete_json, extract_text_from_json, Http11Parser,
    Http2Parser, ProtocolParser,
};
use honeybeepf::providers::ProviderRegistry;
use honeybeepf::streams::StreamTable;

const REQUEST: &str = "POST /v1/chat/completions HTTP/1.1\r\nHost: api.openai.com\r\n\r\n{\"model\":\"gpt-4\",\"messages\":[{\"role\":\"user\",\"content\":\"hi\"}]}";

fn run(p: &mut StreamProcessor, reg: &ProviderRegistry, response: &[u8]) -> Option<honeybeepf::processor::LlmSummary> {
    assert!(p.handle_event(reg, LlmDirection::Write, REQUEST.as_bytes(), 1_000).is_none());
    assert!(p.is_llm());
    // The first read only ends the request; parsing starts with the next.
    let (a, b) = response.split_at(response.len() / 2);
    assert!(p.handle_event(reg, LlmDirection::Read, a, 2_000).is_none());
    assert!(p.est_input_tokens() > 0);
    p.handle_event(reg, LlmDirection::Read, b, 5_000)
}

#[test]
fn http1_json_response_with_usage() {
    let reg = ProviderRegistry::with_defaults();
    let mut p = StreamProcessor::new();
    let resp = b"HTTP/1.1 200 OK\r\nContent-Type: application/json\r\n\r\n{\"model\":\"gpt-4\",\"usage\":{\"prompt_tokens\":3,\"completion_tokens\":7}}";
    let s = run(&mut p, &reg, resp).expect("one summary");
    assert_eq!(s.usage.model, Some("gpt-4".to_string()));
    assert_eq!(s.usage.prompt_tokens, 3);
    assert_eq!(s.usage.completion_tokens, 7);
    assert_eq!(s.usage.thoughts_tokens, None);
    assert_eq!(s.latency_ns, 4_000);
    assert!(p.state() == ProcessorState::Finished);
    // Reads after completion are ignored.
    assert!(p.handle_event(&reg, LlmDirection::Read, b"x", 6_000).is_none());
    assert_eq!(p.last_activity(), 6_000);
}

#[test]
fn http1_chunked_gzip_response() {
    let reg = ProviderRegistry::with_defaults();
    let mut p = StreamProcessor::new();
    let json = b"{\"model\":\"gpt-4\",\"usage\":{\"prompt_tokens\":1,\"completion_tokens\":2}}";
    let mut enc = flate2::write::GzEncoder::new(Vec::new(), flate2::Compression::default());
    enc.write_all(json).unwrap();
    let gz = enc.finish().unwrap();
    let mut resp = b"HTTP/1.1 200 OK\r\nTransfer-Encoding: chunked\r\nContent-Encoding: gzip\r\n\r\n".to_vec();
    let half = gz.len() / 2;
    for part in [&gz[..half], &gz[half..]] {
        resp.extend_from_slice(format!("{:x}\r\n", part.len()).as_bytes());
        resp.extend_from_slice(part);
        resp.extend_from_slice(b"\r\n");
    }
    resp.extend_from_slice(b"0\r\n\r\n");
    let s = run(&mut p, &reg, &resp).expect("one summary");
    assert_eq!(s.usage.prompt_tokens, 1);
    assert_eq!(s.usage.completion_tokens, 2);
    assert_eq!(s.usage.model, Some("gpt-4".to_string()));
}

#[test]
fn sse_terminated_by_done() {
    let reg = ProviderRegistry::with_defaults();
    let mut p = StreamProcessor::new();
    let resp = b"HTTP/1.1 200 OK\r\nContent-Type: text/event-stream\r\n\r\ndata: {\"choices\":[{\"delta\":{\"content\":\"a\"}}]}\n\ndata: {\"choices\":[{\"delta\":{\"content\":\"b\"}}],\"usage\":null}\n\ndata: {\"model\":\"gpt-4\",\"usage\":{\"prompt_tokens\":5,\"completion_tokens\":9}}\n\ndata: [DONE]\n\n";
    let s = run(&mut p, &reg, resp).expect("one summary");
    assert_eq!(s.usage.prompt_tokens, 5);
    assert_eq!(s.usage.completion_tokens, 9);
}

#[test]
fn sse_without_end_is_incomplete() {
    let reg = ProviderRegistry::with_defaults();
    let resp = b"HTTP/1.1 200 OK\r\nContent-Type: text/event-stream\r\n\r\ndata: {\"usage\":{\"prompt_tokens\":5,\"completion_tokens\":9}}\n\n";
    assert!(Http11Parser.parse_response(&reg, resp).is_none());
}

#[test]
fn gemini_over_http2() {
    let reg = ProviderRegistry::with_defaults();
    let mut p = StreamProcessor::new();
    let mut req = b"\x00\x00\x3f\x01\x04\x88\x82".to_vec();
    req.extend_from_slice(b"{\"contents\":[{\"parts\":[{\"text\":\"hello\"}]}]}");
    req.extend_from_slice(b"\x00\x00\x00\x00\x01");
    assert!(p.handle_event(&reg, LlmDirection::Write, &req, 10).is_none());
    assert!(p.is_llm());
    assert!(p.handle_event(&reg, LlmDirection::Read, b"\x00\x00\x10\x01\x04\x88", 20).is_none());
    let mut resp = b"\x00\x01\x02".to_vec();
    resp.extend_from_slice(b"{\"usageMetadata\":{\"promptTokenCount\":4,\"candidatesTokenCount\":11,\"thoughtsTokenCount\":17},\"modelVersion\":\"gemini-1.5-pro\"}");
    resp.extend_from_slice(b"\x00\x00");
    let s = p.handle_event(&reg, LlmDirection::Read, &resp, 50).expect("one summary");
    assert_eq!(s.usage.model, Some("gemini-1.5-pro".to_string()));
    assert_eq!(s.usage.prompt_tokens, 4);
    assert_eq!(s.usage.completion_tokens, 11);
    assert_eq!(s.usage.thoughts_tokens, Some(17));
    assert_eq!(s.latency_ns, 40);
}

#[test]
fn http2_request_echo_is_not_a_response() {
    let reg = ProviderRegistry::with_defaults();
    let buf = b"{\"model\":\"gpt-4\",\"messages\":[]} {\"model\":\"gpt-4\",\"usage\":{\"prompt_tokens\":2,\"completion_tokens\":3}}";
    let u = Http2Parser.parse_response(&reg, buf).unwrap();
    assert_eq!((u.prompt_tokens, u.completion_tokens), (2, 3));
}

#[test]
fn http2_detection_rejects_http1_methods() {
    let reg = ProviderRegistry::with_defaults();
    assert!(Http2Parser.detect_request(&reg, b"POST /x HTTP/1.1\r\n\r\n{\"model\":1}").is_none());
    assert_eq!(Http2Parser.detect_request(&reg, b"..{\"model\":1}").unwrap(), "h2_body_detected");
    assert_eq!(Http2Parser.detect_request(&reg, b"..:path /v1/messages").unwrap(), "h2_path_detected");
    assert!(Http2Parser.detect_request(&reg, b"nothing here").is_none());
}

#[test]
fn http1_detection_needs_a_provider() {
    let reg = ProviderRegistry::with_defaults();
    assert_eq!(Http11Parser.detect_request(&reg, REQUEST.as_bytes()).unwrap(), "/v1/chat/completions");
    let other = b"POST /v1/chat/completions HTTP/1.1\r\nHost: example.com\r\n\r\n";
    assert!(Http11Parser.detect_request(&reg, other).is_none());
    assert_eq!(Http11Parser.extract_request_text(&reg, REQUEST.as_bytes()), "hi");
}

#[test]
fn undetected_stream_gives_up() {
    let reg = ProviderRegistry::with_defaults();
    let mut p = StreamProcessor::new();
    let noise = vec![b'x'; 5000];
    assert!(p.handle_event(&reg, LlmDirection::Write, &noise, 1).is_none());
    assert!(p.state() == ProcessorState::Finished);
    // A new write starts over.
    assert!(p.handle_event(&reg, LlmDirection::Write, REQUEST.as_bytes(), 2).is_none());
    assert!(p.is_llm());
}

#[test]
fn handshake_is_not_buffered() {
    let reg = ProviderRegistry::with_defaults();
    let mut p = StreamProcessor::new();
    assert!(p.handle_event(&reg, LlmDirection::Handshake, REQUEST.as_bytes(), 1).is_none());
    assert!(p.state() == ProcessorState::Detecting);
    assert_eq!(LlmDirection::from_raw(1), LlmDirection::Write);
    assert_eq!(LlmDirection::from_raw(9), LlmDirection::Unknown);
}

#[test]
fn streams_are_isolated() {
    let reg = ProviderRegistry::with_defaults();
    let mut table = StreamTable::new();
    let a = (10u32, 1u32);
    let b = (10u32, 2u32);
    let resp = b"HTTP/1.1 200 OK\r\n\r\n{\"model\":\"gpt-4\",\"usage\":{\"prompt_tokens\":3,\"completion_tokens\":7}}";
    assert!(table.handle_event(&reg, a, LlmDirection::Write, REQUEST.as_bytes(), 1).is_none());
    // Stream b's bytes do not complete stream a's exchange.
    assert!(table.handle_event(&reg, b, LlmDirection::Read, resp, 2).is_none());
    assert!(table.handle_event(&reg, b, LlmDirection::Read, resp, 3).is_none());
    assert!(table.handle_event(&reg, a, LlmDirection::Read, b"", 4).is_none());
    let s = table.handle_event(&reg, a, LlmDirection::Read, resp, 5).expect("stream a completes");
    assert_eq!(s.usage.completion_tokens, 7);
    assert_eq!(table.len(), 2);
    // Idle streams are swept after the retention period.
    table.sweep(300_000_000_004);
    assert_eq!(table.len(), 1);
    table.sweep(300_000_000_005);
    assert_eq!(table.len(), 0);
}

#[test]
fn incomplete_json_text_recovery() {
    let cut = r#"{"messages":[{"role":"user","content":"tell me a long story about \"ships\""},{"text":"short"#;
    assert_eq!(extract_text_from_incomplete_json(cut), "tell me a long story about \"ships\"");
    assert_eq!(extract_json_string(r#"a\nb" rest"#), Some("a\nb".to_string()));
    assert_eq!(extract_json_string(r#"""#), Some(String::new()));
    assert_eq!(extract_json_string(""), None);
    assert_eq!(extract_json_string("partial"), Some("partial".to_string()));
    let reg = ProviderRegistry::with_defaults();
    assert_eq!(extract_text_from_json(&reg, r#"{"contents":[{"parts":[{"text":"hello"}]}]}"#), "hello");
}

#[test]
fn s1_response_in_one_read_emits_once() {
    let reg = ProviderRegistry::with_defaults();
    let mut p = StreamProcessor::new();
    let resp = b"HTTP/1.1 200 OK\r\nContent-Type: application/json\r\n\r\n{\"model\":\"gpt-4\",\"usage\":{\"prompt_tokens\":3,\"completion_tokens\":7}}";
    assert!(p.handle_event(&reg, LlmDirection::Write, REQUEST.as_bytes(), 1).is_none());
    let s = p.handle_event(&reg, LlmDirection::Read, resp, 2).expect("one summary");
    assert_eq!(s.usage.model, Some("gpt-4".to_string()));
    assert_eq!((s.usage.prompt_tokens, s.usage.completion_tokens, s.usage.thoughts_tokens), (3, 7, None));
    assert!(s.est_input_tokens > 0);
    assert!(!p.is_llm());
    assert!(p.state() == ProcessorState::Finished);
    assert!(p.handle_event(&reg, LlmDirection::Read, resp, 3).is_none());
}

#[test]
fn captured_records_are_filtered() {
    let reg = ProviderRegistry::with_defaults();
    let mut table = StreamTable::new();
    let mut buf = vec![0u8; 4096];
    buf[..REQUEST.len()].copy_from_slice(REQUEST.as_bytes());
    // Handshakes are counted and go no further.
    assert!(table.handle_capture(&reg, 1, 1, 2, 1, 1, 10, &buf, 1).is_none());
    assert_eq!(table.handshakes(), 1);
    assert_eq!(table.len(), 0);
    // Unfilled and empty records are dropped.
    assert!(table.handle_capture(&reg, 1, 1, 1, 0, 0, 10, &buf, 2).is_none());
    assert!(table.handle_capture(&reg, 1, 1, 1, 0, 1, 0, &buf, 3).is_none());
    assert_eq!(table.len(), 0);
    // A write of `len` bytes reaches stream (1, 1); a length past the buffer is cut.
    assert!(table.handle_capture(&reg, 1, 1, 1, 0, 1, REQUEST.len() as u32, &buf, 4).is_none());
    assert_eq!(table.len(), 1);
    let resp = b"HTTP/1.1 200 OK\r\n\r\n{\"model\":\"gpt-4\",\"usage\":{\"prompt_tokens\":3,\"completion_tokens\":7}}";
    let s = table.handle_capture(&reg, 1, 1, 0, 0, 1, 100_000, resp, 5).expect("summary");
    assert_eq!(s.usage.completion_tokens, 7);
}
