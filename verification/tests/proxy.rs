use std::sync::Arc;

use pi_agent::json::{write_json, Json};
use pi_agent::proxy::{
    is_success, proxy_error, proxy_error_with, request_body, request_headers, stream_url,
    DoneReason, ErrorReason, LineBuffer, ProxyAssistantMessageEvent, ProxyPartial,
    ProxyRequestOptions, StreamEvent,
};
use pi_agent::types::{AssistantContent, StopReason, ToolCall, Usage};

fn none() -> Arc<Vec<(String, Json)>> {
    Arc::new(Vec::new())
}

fn usage(input: u64) -> Usage {
    Usage { input, ..Usage::default() }
}

#[test]
fn texts_are_put_together() {
    let mut partial = ProxyPartial::new();
    let started = partial.process_proxy_event(
        ProxyAssistantMessageEvent::TextStart { content_index: 0 },
        none(),
    );
    assert!(matches!(started, Ok(Some(StreamEvent::TextStart { content_index: 0 }))));
    for delta in ["he", "llo"] {
        let event = ProxyAssistantMessageEvent::TextDelta {
            content_index: 0,
            delta: delta.to_string(),
        };
        assert!(partial.process_proxy_event(event, none()).is_ok());
    }
    let event = ProxyAssistantMessageEvent::TextEnd {
        content_index: 0,
        content_signature: Some("sig".to_string()),
    };
    match partial.process_proxy_event(event, none()) {
        Ok(Some(StreamEvent::TextEnd { content, .. })) => assert_eq!(content, "hello"),
        _ => panic!("not an end"),
    }
    assert!(matches!(&partial.content[0], AssistantContent::Text(t)
        if t.text == "hello" && t.text_signature.as_deref() == Some("sig")));
    let done = ProxyAssistantMessageEvent::Done { reason: DoneReason::Stop, usage: usage(3) };
    assert!(matches!(partial.process_proxy_event(done, none()),
        Ok(Some(StreamEvent::Done { reason: DoneReason::Stop }))));
    assert_eq!(partial.stop_reason, StopReason::Stop);
    assert_eq!(partial.usage.input, 3);
}

#[test]
fn tool_calls_take_their_arguments_from_what_came_in() {
    let mut partial = ProxyPartial::new();
    let start = ProxyAssistantMessageEvent::ToolcallStart {
        content_index: 0,
        id: "c".to_string(),
        tool_name: "read".to_string(),
    };
    assert!(partial.process_proxy_event(start, none()).is_ok());
    let delta = ProxyAssistantMessageEvent::ToolcallDelta {
        content_index: 0,
        delta: "{\"a\":1}".to_string(),
    };
    assert_eq!(partial.json_after(&delta), Some("{\"a\":1}".to_string()));
    let arguments = Arc::new(vec![("a".to_string(), Json::Unsigned(1))]);
    assert!(partial.process_proxy_event(delta, arguments).is_ok());
    match &partial.content[0] {
        AssistantContent::ToolCall(ToolCall { id, name, arguments, .. }) => {
            assert_eq!(id, "c");
            assert_eq!(name, "read");
            assert!(matches!(arguments[0].1, Json::Unsigned(1)));
        }
        _ => panic!("not a call"),
    }
}

#[test]
fn refused_events_change_nothing() {
    let mut partial = ProxyPartial::new();
    let event = ProxyAssistantMessageEvent::TextDelta {
        content_index: 4,
        delta: "x".to_string(),
    };
    assert!(partial.process_proxy_event(event, none()).is_err());
    assert!(partial.content.is_empty());
}

#[test]
fn failures_end_the_answer() {
    let mut partial = ProxyPartial::new();
    assert!(matches!(partial.fail(true, "stopped".to_string()),
        StreamEvent::Error { reason: ErrorReason::Aborted }));
    assert_eq!(partial.stop_reason, StopReason::Aborted);
    assert_eq!(partial.error_message.as_deref(), Some("stopped"));
}

#[test]
fn chunks_are_put_together_to_lines() {
    let mut buffer = LineBuffer::new();
    let mut all = buffer.push_chunk(b"data: {\"a\"");
    all.extend(buffer.push_chunk(b":1}\ndata: b\n"));
    assert_eq!(all.len(), 2);
    assert!(all[0].ends_with("{\"a\":1}"));
}

#[test]
fn requests_are_addressed() {
    assert_eq!(stream_url("http://x"), "http://x/api/stream");
    let headers = request_headers("t");
    assert!(headers.iter().any(|(k, v)| k == "Authorization" && v == "Bearer t"));
    assert!(is_success(200) && is_success(299));
    assert!(!is_success(300) && !is_success(199));
}

#[test]
fn refusals_of_the_server_are_told() {
    assert_eq!(proxy_error(404, b"not json"), "Proxy error: 404 Not Found");
    assert_eq!(proxy_error(500, b"{\"error\":\"no room\"}"), "Proxy error: no room");
    assert_eq!(proxy_error_with(418, "Odd", &None), "Proxy error: 418 Odd");
}

#[test]
fn requests_hold_the_options_that_are_given() {
    let options = ProxyRequestOptions {
        temperature: None,
        sampling_params: None,
        max_tokens: Some(9),
        reasoning: Some(Json::Text("high".to_string())),
        cache_retention: None,
        session_id: Some("s".to_string()),
        headers: None,
        metadata: None,
        transport: None,
        thinking_budgets: None,
        max_retry_delay_ms: None,
    };
    let body = request_body(Json::Text("m".to_string()), Json::Null, options);
    assert_eq!(
        write_json(&body),
        "{\"model\":\"m\",\"context\":null,\"options\":{\"maxTokens\":9,\"reasoning\":\"high\",\"sessionId\":\"s\"}}"
    );
}

#[test]
fn chunks_of_other_bytes_are_replaced() {
    let mut buffer = LineBuffer::new();
    assert_eq!(buffer.push_chunk(b"data: a\xffb\n"), vec!["a\u{fffd}b".to_string()]);
    assert_eq!(buffer.push_text("data: c\n"), vec!["c".to_string()]);
}
