use chat_engine::parse::{parse_model_names, parse_record};

#[test]
fn parses_a_full_record() {
    let line = "{\"model\":\"llama\",\"created_at\":\"2024-01-01T00:00:00Z\",\"message\":{\"role\":\"assistant\",\"content\":\"hey\",\"thinking\":\"hm\",\"images\":[\"aa\",\"bb\"]},\"done\":false}";
    let rec = parse_record(line.as_bytes()).unwrap();
    assert_eq!(rec.model, "llama");
    assert_eq!(rec.created_at, "2024-01-01T00:00:00Z");
    assert!(!rec.done);
    let msg = rec.message.unwrap();
    assert_eq!(msg.role, "assistant");
    assert_eq!(msg.content, "hey");
    assert_eq!(msg.thinking, Some("hm".to_string()));
    assert_eq!(msg.images, Some(vec!["aa".to_string(), "bb".to_string()]));
}

#[test]
fn absent_and_null_optionals_collapse() {
    let line = "{\"model\":\"m\",\"created_at\":\"t\",\"message\":{\"role\":\"assistant\",\"content\":\"x\",\"thinking\":null,\"images\":null},\"done\":true}";
    let rec = parse_record(line.as_bytes()).unwrap();
    assert!(rec.done);
    let msg = rec.message.unwrap();
    assert_eq!(msg.thinking, None);
    assert_eq!(msg.images, None);

    let line2 = "{\"model\":\"m\",\"created_at\":\"t\",\"done\":true}";
    let rec2 = parse_record(line2.as_bytes()).unwrap();
    assert!(rec2.message.is_none());
}

#[test]
fn malformed_records_are_rejected() {
    assert!(parse_record(b"not json").is_none());
    assert!(parse_record(b"{\"model\":\"m\",\"created_at\":\"t\"}").is_none());
    assert!(parse_record(b"{\"model\":7,\"created_at\":\"t\",\"done\":true}").is_none());
    assert!(
        parse_record(
            b"{\"model\":\"m\",\"created_at\":\"t\",\"message\":{\"role\":\"assistant\",\"content\":3},\"done\":false}"
        )
        .is_none()
    );
    assert!(
        parse_record(
            b"{\"model\":\"m\",\"created_at\":\"t\",\"message\":{\"role\":\"assistant\",\"content\":\"x\",\"images\":[1]},\"done\":false}"
        )
        .is_none()
    );
}

#[test]
fn reads_model_names_from_a_listing() {
    let body = "{\"models\":[{\"name\":\"llama3\",\"size\":1},{\"name\":\"phi\"}]}";
    assert_eq!(
        parse_model_names(body.as_bytes()),
        Some(vec!["llama3".to_string(), "phi".to_string()])
    );
    assert_eq!(parse_model_names(b"{\"models\":[{\"size\":1}]}"), None);
    assert_eq!(parse_model_names(b"nope"), None);
}
