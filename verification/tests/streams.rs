use llmman::cmd::serve::chunks::{
    anthropic_opening, chat_chunk, collect_completion, completion_payloads, event_text,
    generate_chunk, oai_chunk_to_content, stream_anthropic, stream_anthropic_start,
    stream_ollama_chat, stream_ollama_generate, BackendError, OAIChunk, OAIChunkChoice,
    OAIChunkDelta,
};
use llmman::cmd::serve::lines::{lines_of, payload_of, payloads_of, LineBuffer};

fn delta(content: Option<&str>, finish: Option<&str>) -> Option<OAIChunk> {
    thought(content, None, None, finish)
}

fn thought(
    content: Option<&str>,
    reasoning: Option<&str>,
    thinking: Option<&str>,
    finish: Option<&str>,
) -> Option<OAIChunk> {
    Some(OAIChunk {
        choices: vec![OAIChunkChoice {
            delta: OAIChunkDelta {
                content: content.map(|s| s.to_string()),
                reasoning_content: reasoning.map(|s| s.to_string()),
                thinking: thinking.map(|s| s.to_string()),
            },
            finish_reason: finish.map(|s| s.to_string()),
        }],
    })
}

#[test]
fn lines_come_out_when_they_are_complete() {
    let mut b = LineBuffer::new();
    assert!(b.bytes_to_lines(b"data: {\"a\"").is_empty());
    assert_eq!(b.bytes_to_lines(b":1}\r\n\ndata"), vec!["data: {\"a\":1}", ""]);
    assert_eq!(b.on_text(": x\n"), vec!["data: x"]);
    assert!(b.on_text("rest").is_empty());
    assert!(b.on_text("").is_empty());
}

#[test]
fn a_line_without_its_end_is_no_line() {
    let mut b = LineBuffer::new();
    assert_eq!(b.bytes_to_lines(b"data: a\nda"), vec!["data: a"]);
    assert!(b.bytes_to_lines(b"").is_empty());
}

#[test]
fn the_same_text_gives_the_same_lines_in_any_pieces() {
    let text = "one\ntwo\r\n\nthree";
    let expected = LineBuffer::new().on_text(text);
    assert_eq!(expected, vec!["one", "two", ""]);
    for cut in 0..text.len() {
        let mut b = LineBuffer::new();
        let mut lines = b.on_text(&text[..cut]);
        lines.extend(b.on_text(&text[cut..]));
        assert_eq!(lines, expected, "cut at {cut}");
    }
}

#[test]
fn whole_texts_come_apart_into_lines() {
    assert_eq!(lines_of("a\nb\r\nc"), vec!["a", "b", "c"]);
    assert_eq!(lines_of("a\n"), vec!["a"]);
    assert!(lines_of("").is_empty());
    assert_eq!(payload_of("data: x"), Some("x"));
    assert_eq!(payload_of("data:x"), None);
    assert_eq!(payloads_of("data: a\nevent: e\n\ndata: b"), vec!["a", "b"]);
}

#[test]
fn the_end_mark_ends_the_answer() {
    let p = oai_chunk_to_content("[DONE]", &None).unwrap();
    assert_eq!((p.content.as_str(), p.thinking, p.done), ("", None, true));
    assert!(oai_chunk_to_content("garbage", &None).is_none());
    assert!(oai_chunk_to_content("{}", &Some(OAIChunk { choices: vec![] })).is_none());
}

#[test]
fn pieces_carry_contents_and_thoughts() {
    let p = oai_chunk_to_content("x", &thought(Some("c"), Some("r"), Some("t"), None)).unwrap();
    assert_eq!((p.content.as_str(), p.thinking.as_deref(), p.done), ("c", Some("r"), false));
    let p = oai_chunk_to_content("x", &thought(None, None, Some("t"), Some("stop"))).unwrap();
    assert_eq!((p.content.as_str(), p.thinking.as_deref(), p.done), ("", Some("t"), true));
    let p = oai_chunk_to_content("x", &thought(None, Some(""), Some("t"), Some("null"))).unwrap();
    assert_eq!((p.thinking.as_deref(), p.done), (None, false));
    let p = oai_chunk_to_content("x", &delta(None, Some(""))).unwrap();
    assert!(!p.done);
}

#[test]
fn a_completion_is_collected_up_to_its_end() {
    let data = completion_payloads("data: 1\n\ndata: 2\ndata: 3\ndata: 4\n".as_bytes()).unwrap();
    assert_eq!(data, vec!["1", "2", "3", "4"]);
    let chunks = vec![
        delta(Some("Hel"), None),
        None,
        delta(Some("lo"), Some("stop")),
        delta(Some("more"), None),
    ];
    assert_eq!(collect_completion(&data, &chunks), "Hello");
    assert_eq!(collect_completion(&data, &vec![]), "");
    let data = completion_payloads(b"data: \xff\n").unwrap();
    assert_eq!(data, vec!["\u{fffd}"]);
}

#[test]
fn an_empty_answer_is_an_error() {
    let e = completion_payloads(b"").unwrap_err();
    assert_eq!(e.message(), "inference backend returned empty response body");
    let e = BackendError::Refused {
        status: "503 Service Unavailable".to_string(),
        body: "loading".to_string(),
    };
    assert_eq!(e.message(), "inference backend 503 Service Unavailable: loading");
}

#[test]
fn chat_chunks_follow_the_pieces() {
    let c = chat_chunk("data: x", &thought(Some("hi"), None, Some("t"), None), "m", "now").unwrap();
    assert_eq!((c.model.as_str(), c.created_at.as_str()), ("m", "now"));
    assert_eq!((c.message.role.as_str(), c.message.content.as_str()), ("assistant", "hi"));
    assert_eq!(c.message.thinking.as_deref(), Some("t"));
    assert_eq!((c.done, c.done_reason), (false, None));
    let c = chat_chunk("data: [DONE]", &None, "m", "now").unwrap();
    assert_eq!((c.done, c.done_reason.as_deref()), (true, Some("stop")));
    assert!(chat_chunk(": comment", &delta(Some("x"), None), "m", "now").is_none());
    let c = stream_ollama_chat("data: x", &delta(Some("hi"), None), "m").unwrap();
    assert_eq!(c.message.content, "hi");
    assert!(c.created_at.ends_with('Z') && c.created_at.len() >= 20);
}

#[test]
fn generate_chunks_follow_the_pieces() {
    let c = generate_chunk("data: x", &delta(Some("hi"), Some("length")), "m", "now").unwrap();
    assert_eq!((c.response.as_str(), c.done, c.done_reason.as_deref()), ("hi", true, Some("stop")));
    assert_eq!(c.created_at, "now");
    assert!(stream_ollama_generate("", &None, "m").is_none());
    assert_eq!(stream_ollama_generate("data: [DONE]", &None, "m").unwrap().model, "m");
}

#[test]
fn anthropic_streams_open_with_two_events() {
    assert_eq!(event_text("e", "d"), "event: e\ndata: d\n\n");
    let o = anthropic_opening("id", "m");
    let (first, second) = o.split_once("\n\n").unwrap();
    let data = first.strip_prefix("event: message_start\ndata: ").unwrap();
    let v: serde_json::Value = serde_json::from_str(data).unwrap();
    assert_eq!(v["type"], "message_start");
    assert_eq!(v["message"]["id"], "id");
    assert_eq!(v["message"]["role"], "assistant");
    assert_eq!(v["message"]["model"], "m");
    assert_eq!(v["message"]["content"], serde_json::Value::Array(vec![]));
    assert!(v["message"]["stop_reason"].is_null());
    assert_eq!(v["message"]["usage"]["input_tokens"], 0);
    let data = second.strip_prefix("event: content_block_start\ndata: ").unwrap();
    let v: serde_json::Value = serde_json::from_str(data.trim_end()).unwrap();
    assert_eq!(v["index"], 0);
    assert_eq!(v["content_block"]["type"], "text");
    assert_eq!(v["content_block"]["text"], "");
    let id = stream_anthropic_start("m");
    assert!(id.starts_with("event: message_start\ndata: {\"message\":{\"content\":[],\"id\":\""));
}

#[test]
fn anthropic_streams_carry_contents_and_close() {
    assert_eq!(
        stream_anthropic("data: x", &delta(Some("hi \"you\""), None)),
        "event: content_block_delta\ndata: {\"delta\":{\"text\":\"hi \\\"you\\\"\",\
         \"type\":\"text_delta\"},\"index\":0,\"type\":\"content_block_delta\"}\n\n"
    );
    assert_eq!(
        stream_anthropic("data: [DONE]", &None),
        "event: content_block_stop\ndata: {\"type\":\"content_block_stop\",\"index\":0}\n\n\
         event: message_delta\ndata: {\"delta\":{\"stop_reason\":\"end_turn\",\
         \"stop_sequence\":null},\"type\":\"message_delta\",\"usage\":{\"output_tokens\":0}}\n\n\
         event: message_stop\ndata: {\"type\":\"message_stop\"}\n\n"
    );
    for quiet in [
        stream_anthropic("data: x", &delta(Some(""), Some("stop"))),
        stream_anthropic("data: x", &delta(None, None)),
        stream_anthropic("data: x", &Some(OAIChunk { choices: vec![] })),
        stream_anthropic("data: x", &None),
        stream_anthropic("event: x", &delta(Some("a"), None)),
    ] {
        assert_eq!(quiet, "");
    }
}
