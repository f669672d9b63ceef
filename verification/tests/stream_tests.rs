use chat_engine::protocol::{ChatResponse, OllamaMessage};
use chat_engine::stream::StreamReassembler;

fn rec(thinking: Option<&str>, content: &str, done: bool) -> ChatResponse {
    ChatResponse {
        model: "m".to_string(),
        created_at: "t".to_string(),
        message: Some(OllamaMessage {
            role: "assistant".to_string(),
            content: content.to_string(),
            images: None,
            thinking: thinking.map(|s| s.to_string()),
        }),
        done,
    }
}

fn done_rec() -> ChatResponse {
    ChatResponse {
        model: "m".to_string(),
        created_at: "t".to_string(),
        message: None,
        done: true,
    }
}

#[test]
fn round_trip_think_then_answer() {
    let mut r = StreamReassembler::new();
    let mut frags: Vec<String> = Vec::new();
    frags.extend(r.feed_record(&rec(Some("a"), "", false)));
    frags.extend(r.feed_record(&rec(Some("b"), "", false)));
    frags.extend(r.feed_record(&rec(None, "c", false)));
    frags.extend(r.feed_record(&done_rec()));
    assert_eq!(
        frags,
        vec![
            "<think>\n".to_string(),
            "a".to_string(),
            "b".to_string(),
            "\n</think>\n".to_string(),
            "c".to_string(),
        ]
    );
    assert_eq!(r.transcript().as_str(), "<think>\nab\n</think>\nc");
    assert!(r.is_done());
}

#[test]
fn done_while_reasoning_closes_the_segment() {
    let mut r = StreamReassembler::new();
    let mut frags: Vec<String> = Vec::new();
    frags.extend(r.feed_record(&rec(Some("hm"), "", false)));
    frags.extend(r.feed_record(&done_rec()));
    assert_eq!(
        frags,
        vec![
            "<think>\n".to_string(),
            "hm".to_string(),
            "\n</think>\n".to_string(),
        ]
    );
    assert_eq!(r.transcript().as_str(), "<think>\nhm\n</think>\n");
}

#[test]
fn answer_only_stream_carries_no_markers() {
    let mut r = StreamReassembler::new();
    let mut frags: Vec<String> = Vec::new();
    frags.extend(r.feed_record(&rec(None, "hello", false)));
    frags.extend(r.feed_record(&rec(None, " world", false)));
    frags.extend(r.feed_record(&done_rec()));
    assert_eq!(frags, vec!["hello".to_string(), " world".to_string()]);
    assert_eq!(r.transcript().as_str(), "hello world");
}

#[test]
fn records_after_done_are_ignored() {
    let mut r = StreamReassembler::new();
    r.feed_record(&rec(None, "x", false));
    r.feed_record(&done_rec());
    let frags = r.feed_record(&rec(None, "ignored", false));
    assert!(frags.is_empty());
    assert_eq!(r.transcript().as_str(), "x");
}

#[test]
fn feed_chunk_parses_line_delimited_records() {
    let mut r = StreamReassembler::new();
    let chunk = "{\"model\":\"m\",\"created_at\":\"t\",\"message\":{\"role\":\"assistant\",\"content\":\"\",\"thinking\":\"a\"},\"done\":false}\n{\"model\":\"m\",\"created_at\":\"t\",\"message\":{\"role\":\"assistant\",\"content\":\"c\"},\"done\":false}\n{\"model\":\"m\",\"created_at\":\"t\",\"done\":true}\n";
    let frags = r.feed_chunk(chunk.as_bytes());
    assert_eq!(
        frags,
        vec![
            "<think>\n".to_string(),
            "a".to_string(),
            "\n</think>\n".to_string(),
            "c".to_string(),
        ]
    );
    assert_eq!(r.transcript().as_str(), "<think>\na\n</think>\nc");
    assert!(r.is_done());
}

#[test]
fn feed_chunk_skips_malformed_and_empty_lines() {
    let mut r = StreamReassembler::new();
    let chunk = "not json at all\n\n{\"model\":\"m\",\"created_at\":\"t\"}\n{\"model\":\"m\",\"created_at\":\"t\",\"message\":{\"role\":\"assistant\",\"content\":\"ok\"},\"done\":false}\r\n";
    let frags = r.feed_chunk(chunk.as_bytes());
    assert_eq!(frags, vec!["ok".to_string()]);
    assert!(!r.is_done());
}
