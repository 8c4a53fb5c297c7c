use llm_free_gateway_v2::handlers::chat::{sse_stream_from_chunks, StreamItem};
use llm_free_gateway_v2::sse::{data_frame, SseDecoder, SseEvent};

/// Feeds the stream of a provider in pieces, and gives what a client is sent.
fn passed_through(pieces: &[&[u8]]) -> String {
    let mut decoder = SseDecoder::new();
    let mut out = String::new();
    for piece in pieces {
        decoder.push_bytes(piece);
        loop {
            match decoder.next_event() {
                SseEvent::NeedMore => break,
                SseEvent::Data(payload) => {
                    out.push_str(&sse_stream_from_chunks("p", StreamItem::Chunk(payload)).text);
                }
                SseEvent::Done => return out,
            }
        }
    }
    out
}

const SIMPLE_TEXT_STREAM: &str = "\
data: {\"id\":\"chatcmpl-001\",\"object\":\"chat.completion.chunk\",\"created\":1000,\"model\":\"test-model\",\"choices\":[{\"index\":0,\"delta\":{\"role\":\"assistant\"}}]}\n\n\
data: {\"id\":\"chatcmpl-001\",\"object\":\"chat.completion.chunk\",\"created\":1000,\"model\":\"test-model\",\"choices\":[{\"index\":0,\"delta\":{\"content\":\"Bonjour\"}}]}\n\n\
data: {\"id\":\"chatcmpl-001\",\"object\":\"chat.completion.chunk\",\"created\":1000,\"model\":\"test-model\",\"choices\":[{\"index\":0,\"delta\":{\"content\":\" c'est\"}}]}\n\n\
data: {\"id\":\"chatcmpl-001\",\"object\":\"chat.completion.chunk\",\"created\":1000,\"model\":\"test-model\",\"choices\":[{\"index\":0,\"delta\":{\"content\":\" Clara\"}}]}\n\n\
data: {\"id\":\"chatcmpl-001\",\"object\":\"chat.completion.chunk\",\"created\":1000,\"model\":\"test-model\",\"choices\":[{\"index\":0,\"delta\":{},\"finish_reason\":\"stop\"}]}\n\n\
data: [DONE]\n\n";

const LENGTH_LIMIT_STREAM: &str = "\
data: {\"id\":\"chatcmpl-002\",\"object\":\"chat.completion.chunk\",\"created\":1001,\"model\":\"test-model\",\"choices\":[{\"index\":0,\"delta\":{\"role\":\"assistant\"}}]}\n\n\
data: {\"id\":\"chatcmpl-002\",\"object\":\"chat.completion.chunk\",\"created\":1001,\"model\":\"test-model\",\"choices\":[{\"index\":0,\"delta\":{\"content\":\"Le texte\"}}]}\n\n\
data: {\"id\":\"chatcmpl-002\",\"object\":\"chat.completion.chunk\",\"created\":1001,\"model\":\"test-model\",\"choices\":[{\"index\":0,\"delta\":{\"content\":\" est coupé car\"}}]}\n\n\
data: {\"id\":\"chatcmpl-002\",\"object\":\"chat.completion.chunk\",\"created\":1001,\"model\":\"test-model\",\"choices\":[{\"index\":0,\"delta\":{},\"finish_reason\":\"length\"}]}\n\n\
data: [DONE]\n\n";

const CONTENT_FILTER_STREAM: &str = "\
data: {\"id\":\"chatcmpl-003\",\"object\":\"chat.completion.chunk\",\"created\":1002,\"model\":\"test-model\",\"choices\":[{\"index\":0,\"delta\":{\"role\":\"assistant\"}}]}\n\n\
data: {\"id\":\"chatcmpl-003\",\"object\":\"chat.completion.chunk\",\"created\":1002,\"model\":\"test-model\",\"choices\":[{\"index\":0,\"delta\":{\"content\":\"Je ne peux pas\"}}]}\n\n\
data: {\"id\":\"chatcmpl-003\",\"object\":\"chat.completion.chunk\",\"created\":1002,\"model\":\"test-model\",\"choices\":[{\"index\":0,\"delta\":{},\"finish_reason\":\"content_filter\"}]}\n\n\
data: [DONE]\n\n";

const WITH_USAGE_STREAM: &str = "\
data: {\"id\":\"chatcmpl-004\",\"object\":\"chat.completion.chunk\",\"created\":1003,\"model\":\"test-model\",\"choices\":[{\"index\":0,\"delta\":{\"role\":\"assistant\"}}]}\n\n\
data: {\"id\":\"chatcmpl-004\",\"object\":\"chat.completion.chunk\",\"created\":1003,\"model\":\"test-model\",\"choices\":[{\"index\":0,\"delta\":{\"content\":\"Réponse\"}}]}\n\n\
data: {\"id\":\"chatcmpl-004\",\"object\":\"chat.completion.chunk\",\"created\":1003,\"model\":\"test-model\",\"choices\":[{\"index\":0,\"delta\":{},\"finish_reason\":\"stop\"}],\"usage\":{\"prompt_tokens\":42,\"completion_tokens\":7,\"total_tokens\":49}}\n\n\
data: [DONE]\n\n";

const MULTITURN_STREAM: &str = "\
data: {\"id\":\"chatcmpl-005\",\"object\":\"chat.completion.chunk\",\"created\":1004,\"model\":\"test-model\",\"choices\":[{\"index\":0,\"delta\":{\"role\":\"assistant\"}}]}\n\n\
data: {\"id\":\"chatcmpl-005\",\"object\":\"chat.completion.chunk\",\"created\":1004,\"model\":\"test-model\",\"choices\":[{\"index\":0,\"delta\":{\"content\":\"Vous aviez demandé\"}}]}\n\n\
data: {\"id\":\"chatcmpl-005\",\"object\":\"chat.completion.chunk\",\"created\":1004,\"model\":\"test-model\",\"choices\":[{\"index\":0,\"delta\":{\"content\":\" comment faire quelque chose.\"}}]}\n\n\
data: {\"id\":\"chatcmpl-005\",\"object\":\"chat.completion.chunk\",\"created\":1004,\"model\":\"test-model\",\"choices\":[{\"index\":0,\"delta\":{\"content\":\" Voici la réponse.\"}}]}\n\n\
data: {\"id\":\"chatcmpl-005\",\"object\":\"chat.completion.chunk\",\"created\":1004,\"model\":\"test-model\",\"choices\":[{\"index\":0,\"delta\":{},\"finish_reason\":\"stop\"}]}\n\n\
data: [DONE]\n\n";

const MOCK_SSE_TOOL_CALLS: &str = "\
data: {\"id\":\"c1\",\"object\":\"chat.completion.chunk\",\"created\":1,\"model\":\"test\",\"choices\":[{\"index\":0,\"delta\":{\"role\":\"assistant\"}}]}\n\n\
data: {\"id\":\"c1\",\"object\":\"chat.completion.chunk\",\"created\":1,\"model\":\"test\",\"choices\":[{\"index\":0,\"delta\":{\"tool_calls\":[{\"index\":0,\"id\":\"tc-123\",\"type\":\"function\",\"function\":{\"name\":\"get_weather\",\"arguments\":\"{\"}}]}}]}\n\n\
data: {\"id\":\"c1\",\"object\":\"chat.completion.chunk\",\"created\":1,\"model\":\"test\",\"choices\":[{\"index\":0,\"delta\":{\"tool_calls\":[{\"index\":0,\"function\":{\"arguments\":\"\\\"city\\\":\\\"Paris\\\"}\"}}]}}]}\n\n\
data: {\"id\":\"c1\",\"object\":\"chat.completion.chunk\",\"created\":1,\"model\":\"test\",\"choices\":[{\"index\":0,\"delta\":{},\"finish_reason\":\"tool_calls\"}]}\n\n\
data: [DONE]\n\n";

#[test]
fn sse_simple_text_passthrough_works() {
    let body = passed_through(&[SIMPLE_TEXT_STREAM.as_bytes()]);
    assert!(body.contains("\"role\":\"assistant\""));
    assert!(body.contains("\"content\":\"Bonjour\""));
    assert!(body.contains("\"content\":\" c'est\""));
    assert!(body.contains("\"content\":\" Clara\""));
    assert!(body.contains("\"finish_reason\":\"stop\""));
    assert!(!body.contains("[DONE]"));
    assert_eq!(body.matches("chat.completion.chunk").count(), 5);
}

#[test]
fn sse_wire_format_compliance() {
    let body = passed_through(&[SIMPLE_TEXT_STREAM.as_bytes()]);
    assert_eq!(body + "data: [DONE]\n\n", SIMPLE_TEXT_STREAM);
}

#[test]
fn sse_tcp_fragmented_buffering() {
    let whole = passed_through(&[SIMPLE_TEXT_STREAM.as_bytes()]);
    for size in [1, 2, 3, 7, 100, 1000] {
        let pieces: Vec<&[u8]> = SIMPLE_TEXT_STREAM.as_bytes().chunks(size).collect();
        assert_eq!(passed_through(&pieces), whole, "pieces of {} bytes", size);
    }
    for line in whole.lines() {
        if let Some(data) = line.strip_prefix("data: ") {
            let parsed: Result<serde_json::Value, serde_json::Error> = serde_json::from_str(data);
            assert!(parsed.is_ok(), "not JSON: {}", data);
        }
    }
}

#[test]
fn sse_role_only_in_first_chunk() {
    let body = passed_through(&[SIMPLE_TEXT_STREAM.as_bytes()]);
    assert_eq!(body.matches("\"role\":\"assistant\"").count(), 1);
}

#[test]
fn sse_tool_calls_passthrough_works() {
    let body = passed_through(&[MOCK_SSE_TOOL_CALLS.as_bytes()]);
    assert!(body.contains("\"tool_calls\""));
    assert!(body.contains("\"name\":\"get_weather\""));
    assert!(body.contains("\"id\":\"tc-123\""));
    assert!(body.contains("\"type\":\"function\""));
    assert!(body.contains("\"arguments\""));
    assert!(body.contains("Paris"));
    assert!(body.contains("\"finish_reason\":\"tool_calls\""));
    assert_eq!(body.matches("chat.completion.chunk").count(), 4);
}

#[test]
fn sse_length_limit_finish_reason_passthrough() {
    let body = passed_through(&[LENGTH_LIMIT_STREAM.as_bytes()]);
    assert!(body.contains("\"finish_reason\":\"length\""));
    assert!(body.contains("\"content\":\"Le texte\""));
}

#[test]
fn sse_content_filter_finish_reason_passthrough() {
    let body = passed_through(&[CONTENT_FILTER_STREAM.as_bytes()]);
    assert!(body.contains("\"finish_reason\":\"content_filter\""));
}

#[test]
fn sse_usage_stats_passthrough() {
    let body = passed_through(&[WITH_USAGE_STREAM.as_bytes()]);
    assert!(body.contains("chat.completion.chunk"));
    assert!(body.contains("\"choices\""));
    assert!(body.contains("\"finish_reason\""));
    assert!(body.contains("\"total_tokens\":49"));
}

#[test]
fn sse_multiturn_conversation_passthrough() {
    let body = passed_through(&[MULTITURN_STREAM.as_bytes()]);
    assert!(body.contains("\"content\":\"Vous aviez demandé\""));
    assert!(body.contains("\"content\":\" comment faire quelque chose.\""));
    assert!(body.contains("\"content\":\" Voici la réponse.\""));
    assert!(body.contains("\"finish_reason\":\"stop\""));
    assert_eq!(body.matches("chat.completion.chunk").count(), 5);
}

#[test]
fn characters_may_be_cut_anywhere() {
    let text = "data: é\ndata: €uro\ndata: 𝄞!\ndata: [DONE]\n";
    let whole = "data: é\n\ndata: €uro\n\ndata: 𝄞!\n\n";
    for size in 1..8 {
        let pieces: Vec<&[u8]> = text.as_bytes().chunks(size).collect();
        assert_eq!(passed_through(&pieces), whole, "pieces of {} bytes", size);
    }
    for size in [1, 2, 3, 5, 11] {
        let pieces: Vec<&[u8]> = MULTITURN_STREAM.as_bytes().chunks(size).collect();
        assert_eq!(passed_through(&pieces), passed_through(&[MULTITURN_STREAM.as_bytes()]));
    }
}

#[test]
fn a_character_that_is_never_completed_is_replaced() {
    let mut decoder = SseDecoder::new();
    decoder.push_bytes(b"data: a\xe2\x82");
    decoder.push_bytes(b"b\n");
    assert_eq!(event_text(decoder.next_event()), "data(a\u{fffd}b)");
    decoder.push_bytes(b"data: \xf8\n");
    assert_eq!(event_text(decoder.next_event()), "data(\u{fffd})");
}

fn event_text(event: SseEvent) -> String {
    match event {
        SseEvent::NeedMore => "more".to_string(),
        SseEvent::Data(payload) => format!("data({})", payload),
        SseEvent::Done => "done".to_string(),
    }
}

#[test]
fn other_lines_are_skipped() {
    let mut decoder = SseDecoder::new();
    decoder.push_str(": comment\n\nevent: x\ndata:tight\ndata: a\r\r\nDATA: b\ndata: \ndata: [DONE] \n");
    assert_eq!(event_text(decoder.next_event()), "data(a)");
    assert_eq!(event_text(decoder.next_event()), "data()");
    assert_eq!(event_text(decoder.next_event()), "data([DONE] )");
    assert_eq!(event_text(decoder.next_event()), "more");
}

#[test]
fn a_line_waits_for_its_end() {
    let mut decoder = SseDecoder::new();
    decoder.push_str("data: a");
    assert_eq!(event_text(decoder.next_event()), "more");
    decoder.push_str("b\r");
    assert_eq!(event_text(decoder.next_event()), "more");
    decoder.push_str("\ndata: [DONE]\r\ndata: c\n");
    assert_eq!(event_text(decoder.next_event()), "data(ab)");
    assert_eq!(event_text(decoder.next_event()), "done");
}

#[test]
fn invalid_bytes_are_replaced() {
    let mut decoder = SseDecoder::new();
    decoder.push_bytes(b"data: a\xffb\n");
    assert_eq!(event_text(decoder.next_event()), "data(a\u{fffd}b)");
    decoder.push_bytes("data: é\n".as_bytes());
    assert_eq!(event_text(decoder.next_event()), "data(é)");
}

#[test]
fn frames_read_back_and_the_end_mark_ends() {
    let mut decoder = SseDecoder::new();
    decoder.push_str(&data_frame("{}"));
    decoder.push_str(&data_frame("x y"));
    decoder.push_str(&data_frame("[DONE]"));
    assert_eq!(event_text(decoder.next_event()), "data({})");
    assert_eq!(event_text(decoder.next_event()), "data(x y)");
    assert_eq!(event_text(decoder.next_event()), "done");
}
