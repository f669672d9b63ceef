use chat_engine::attach::decode_attachment;
use chat_engine::engine::{
    build_context, complete_generation, compose_user_content, create_thread, edit_message,
    make_chat_request, regenerate_from_message, regenerate_response, send_message,
};
use chat_engine::protocol::{ChatResponse, OllamaMessage};
use chat_engine::store::{Database, Role, StoreError};

fn answer_rec(content: &str, done: bool) -> ChatResponse {
    ChatResponse {
        model: "m".to_string(),
        created_at: "t".to_string(),
        message: Some(OllamaMessage {
            role: "assistant".to_string(),
            content: content.to_string(),
            images: None,
            thinking: None,
        }),
        done,
    }
}

fn reply_records(text: &str) -> Vec<ChatResponse> {
    vec![answer_rec(text, false), answer_rec("", true)]
}

#[test]
fn generation_persists_the_transcript() {
    let mut db = Database::new();
    let t = db.create_thread("Gen", None).unwrap();
    db.add_message(t, Role::User, "hi", None, None, None).unwrap();
    let g = complete_generation(&mut db, t, "mdl", &reply_records("hello there")).unwrap();
    assert_eq!(g.fragments, vec!["hello there".to_string()]);
    let msgs = db.get_messages(t).unwrap();
    assert_eq!(msgs.len(), 2);
    assert_eq!(msgs[1].id, g.message_id);
    assert_eq!(msgs[1].role, Role::Assistant);
    assert_eq!(msgs[1].content, "hello there");
    assert_eq!(msgs[1].model, Some("mdl".to_string()));
}

#[test]
fn generation_on_a_missing_thread_persists_nothing() {
    let mut db = Database::new();
    let r = complete_generation(&mut db, 42, "mdl", &reply_records("x"));
    assert_eq!(r.unwrap_err(), StoreError::ForeignKey);
}

#[test]
fn edit_truncates_and_regenerates() {
    let mut db = Database::new();
    let t = db.create_thread("Edit", None).unwrap();
    let u1 = db.add_message(t, Role::User, "u1", None, None, None).unwrap();
    let a1 = db
        .add_message(t, Role::Assistant, "a1", None, Some("m".to_string()), None)
        .unwrap();
    let u2 = db.add_message(t, Role::User, "u2", None, None, None).unwrap();
    let _a2 = db
        .add_message(t, Role::Assistant, "a2", None, Some("m".to_string()), None)
        .unwrap();

    let g = edit_message(&mut db, t, u2, "new", "m", &reply_records("fresh")).unwrap();

    let msgs = db.get_messages(t).unwrap();
    assert_eq!(msgs.len(), 4);
    assert_eq!(msgs[0].id, u1);
    assert_eq!(msgs[0].content, "u1");
    assert_eq!(msgs[1].id, a1);
    assert_eq!(msgs[1].content, "a1");
    assert_eq!(msgs[2].id, u2);
    assert_eq!(msgs[2].content, "new");
    assert_eq!(msgs[3].id, g.message_id);
    assert_eq!(msgs[3].role, Role::Assistant);
    assert_eq!(msgs[3].content, "fresh");
}

#[test]
fn regenerate_replaces_a_trailing_assistant_turn() {
    let mut db = Database::new();
    let t = db.create_thread("Regen", None).unwrap();
    let u1 = db.add_message(t, Role::User, "u1", None, None, None).unwrap();
    let _a1 = db
        .add_message(t, Role::Assistant, "a1", None, Some("m".to_string()), None)
        .unwrap();

    let g = regenerate_response(&mut db, t, "m", &reply_records("better")).unwrap();
    let msgs = db.get_messages(t).unwrap();
    assert_eq!(msgs.len(), 2);
    assert_eq!(msgs[0].id, u1);
    assert_eq!(msgs[1].id, g.message_id);
    assert_eq!(msgs[1].content, "better");
}

#[test]
fn regenerate_after_a_user_turn_only_appends() {
    let mut db = Database::new();
    let t = db.create_thread("Regen2", None).unwrap();
    let u1 = db.add_message(t, Role::User, "u1", None, None, None).unwrap();

    let g = regenerate_response(&mut db, t, "m", &reply_records("answer")).unwrap();
    let msgs = db.get_messages(t).unwrap();
    assert_eq!(msgs.len(), 2);
    assert_eq!(msgs[0].id, u1);
    assert_eq!(msgs[0].content, "u1");
    assert_eq!(msgs[1].id, g.message_id);
    assert_eq!(msgs[1].content, "answer");
}

#[test]
fn regenerate_from_discards_the_target_too() {
    let mut db = Database::new();
    let t = db.create_thread("RegenFrom", None).unwrap();
    let u1 = db.add_message(t, Role::User, "u1", None, None, None).unwrap();
    let a1 = db
        .add_message(t, Role::Assistant, "a1", None, Some("m".to_string()), None)
        .unwrap();
    let _u2 = db.add_message(t, Role::User, "u2", None, None, None).unwrap();

    let g = regenerate_from_message(&mut db, t, a1, "m", &reply_records("redo")).unwrap();
    let msgs = db.get_messages(t).unwrap();
    assert_eq!(msgs.len(), 2);
    assert_eq!(msgs[0].id, u1);
    assert_eq!(msgs[1].id, g.message_id);
    assert_eq!(msgs[1].content, "redo");
}

#[test]
fn send_appends_user_then_assistant() {
    let mut db = Database::new();
    let t = db.create_thread("Send", None).unwrap();
    let docs: Vec<Option<String>> = Vec::new();
    let g = send_message(
        &mut db,
        t,
        "question",
        None,
        &docs,
        "mdl",
        None,
        &reply_records("reply"),
    )
    .unwrap();
    let msgs = db.get_messages(t).unwrap();
    assert_eq!(msgs.len(), 2);
    assert_eq!(msgs[0].role, Role::User);
    assert_eq!(msgs[0].content, "question");
    assert_eq!(msgs[0].model, Some("mdl".to_string()));
    assert_eq!(msgs[1].role, Role::Assistant);
    assert_eq!(msgs[1].content, "reply");
    assert_eq!(msgs[1].id, g.message_id);
}

#[test]
fn compose_appends_blocks_and_error_markers() {
    let docs = vec![Some("PAGE TEXT".to_string()), None];
    let composed = compose_user_content("ask", &docs);
    assert_eq!(
        composed,
        "ask\n\n--- Attachment Content ---\nPAGE TEXT\n--------------------------\n\n\n[Attachment text extraction failed]"
    );
}

#[test]
fn context_prepends_a_nonempty_system_prompt() {
    let mut db = Database::new();
    let t = db
        .create_thread("Ctx", Some("be terse".to_string()))
        .unwrap();
    db.add_message(t, Role::User, "q", None, None, None).unwrap();
    db.add_message(t, Role::Assistant, "a", None, Some("m".to_string()), None)
        .unwrap();
    let ctx = build_context(&db, t);
    assert_eq!(ctx.len(), 3);
    assert_eq!(ctx[0].role, "system");
    assert_eq!(ctx[0].content, "be terse");
    assert_eq!(ctx[1].role, "user");
    assert_eq!(ctx[1].content, "q");
    assert_eq!(ctx[2].role, "assistant");
    assert_eq!(ctx[2].content, "a");

    let req = make_chat_request("mdl", ctx);
    assert_eq!(req.model, "mdl");
    assert!(req.stream);
    assert_eq!(req.messages.len(), 3);
}

#[test]
fn context_skips_an_empty_system_prompt() {
    let mut db = Database::new();
    let t = db.create_thread("Ctx2", Some("".to_string())).unwrap();
    db.add_message(t, Role::User, "q", None, None, None).unwrap();
    let ctx = build_context(&db, t);
    assert_eq!(ctx.len(), 1);
    assert_eq!(ctx[0].role, "user");
}

#[test]
fn create_thread_hands_back_the_stored_shape() {
    let mut db = Database::new();
    let th = create_thread(&mut db, "Title", Some("sp".to_string())).unwrap();
    assert_eq!(th.title, "Title");
    assert_eq!(th.system_prompt, Some("sp".to_string()));
    assert!(!th.is_archived);
    let listed = db.get_threads().unwrap();
    assert_eq!(listed.len(), 1);
    assert_eq!(listed[0].id, th.id);
}

#[test]
fn decode_attachment_strips_the_data_url_prefix() {
    let payload = b"data:application/pdf;base64,aGVsbG8=";
    assert_eq!(decode_attachment(payload), Some(b"hello".to_vec()));
    assert_eq!(decode_attachment(b"aGVsbG8="), Some(b"hello".to_vec()));
    assert_eq!(decode_attachment(b"data:application/pdf;base64,!!!"), None);
}
