use chat_engine::store::{Database, Role, StoreError};

#[test]
fn test_db_creation() {
    let db = Database::new();
    let threads = db.get_threads().unwrap();
    assert!(threads.is_empty());
}

#[test]
fn test_create_thread_and_message() {
    let mut db = Database::new();
    let thread_id = db.create_thread("Test Thread", None).unwrap();

    let threads = db.get_threads().unwrap();
    assert_eq!(threads.len(), 1);
    assert_eq!(threads[0].title, "Test Thread");

    db.add_message(thread_id, Role::User, "Hello", None, None, None)
        .unwrap();
    db.add_message(
        thread_id,
        Role::Assistant,
        "Hi",
        None,
        Some("llama2".to_string()),
        None,
    )
    .unwrap();

    let messages = db.get_messages(thread_id).unwrap();
    assert_eq!(messages.len(), 2);
    assert_eq!(messages[0].content, "Hello");
    assert_eq!(messages[1].content, "Hi");
    assert_eq!(messages[1].model, Some("llama2".to_string()));
}

#[test]
fn test_db_performance() {
    let mut db = Database::new();
    let start = std::time::Instant::now();

    let thread_id = db.create_thread("Benchmark", None).unwrap();
    for i in 0..100 {
        db.add_message(
            thread_id,
            Role::User,
            &format!("Message {}", i),
            None,
            None,
            None,
        )
        .unwrap();
    }

    let messages = db.get_messages(thread_id).unwrap();
    assert_eq!(messages.len(), 100);

    let duration = start.elapsed();
    println!("Inserted and retrieved 100 messages in {:?}", duration);
    assert!(duration.as_millis() < 500);
}

#[test]
fn test_edit_and_delete() {
    let mut db = Database::new();
    let thread_id = db.create_thread("Edit Test", None).unwrap();

    let m1 = db
        .add_message(thread_id, Role::User, "msg1", None, None, None)
        .unwrap();
    db.add_message(thread_id, Role::Assistant, "msg2", None, None, None)
        .unwrap();
    db.add_message(thread_id, Role::User, "msg3", None, None, None)
        .unwrap();

    db.update_message(m1, "msg1_updated").unwrap();
    let msgs = db.get_messages(thread_id).unwrap();
    assert_eq!(msgs[0].content, "msg1_updated");

    db.delete_messages_after(thread_id, m1).unwrap();
    let msgs = db.get_messages(thread_id).unwrap();
    assert_eq!(msgs.len(), 1);
    assert_eq!(msgs[0].id, m1);

    db.delete_last_message(thread_id).unwrap();
    let msgs = db.get_messages(thread_id).unwrap();
    assert!(msgs.is_empty());
}

#[test]
fn insertion_order_is_listing_order() {
    let mut db = Database::new();
    let t = db.create_thread("Order", None).unwrap();
    let mut ids = Vec::new();
    for i in 0..10 {
        let id = db
            .add_message(t, Role::User, &format!("m{}", i), None, None, None)
            .unwrap();
        ids.push(id);
    }
    let msgs = db.get_messages(t).unwrap();
    assert_eq!(msgs.len(), 10);
    for (k, m) in msgs.iter().enumerate() {
        assert_eq!(m.id, ids[k]);
        assert_eq!(m.content, format!("m{}", k));
    }
    for w in msgs.windows(2) {
        assert!(w[0].id < w[1].id);
    }
}

#[test]
fn delete_thread_empties_it_and_unlists_it() {
    let mut db = Database::new();
    let t1 = db.create_thread("One", None).unwrap();
    let t2 = db.create_thread("Two", None).unwrap();
    db.add_message(t1, Role::User, "a", None, None, None).unwrap();
    db.add_message(t2, Role::User, "b", None, None, None).unwrap();

    db.delete_thread(t1).unwrap();
    assert!(db.get_messages(t1).unwrap().is_empty());
    let listed = db.get_threads().unwrap();
    assert!(listed.iter().all(|th| th.id != t1));
    assert_eq!(db.get_messages(t2).unwrap().len(), 1);
}

#[test]
fn update_message_touches_content_only() {
    let mut db = Database::new();
    let t = db.create_thread("Upd", None).unwrap();
    let m = db
        .add_message(t, Role::User, "before", None, Some("mdl".to_string()), None)
        .unwrap();
    let old = db.get_messages(t).unwrap().remove(0);
    db.update_message(m, "after").unwrap();
    let new = db.get_messages(t).unwrap().remove(0);
    assert_eq!(new.content, "after");
    assert_eq!(new.id, old.id);
    assert_eq!(new.role, old.role);
    assert_eq!(new.created_at, old.created_at);
    assert_eq!(new.model, old.model);
    assert_eq!(new.total_duration, old.total_duration);
}

#[test]
fn suffix_deletes_keep_exactly_the_prefix() {
    let mut db = Database::new();
    let t = db.create_thread("Del", None).unwrap();
    let mut ids = Vec::new();
    for i in 0..5 {
        ids.push(
            db.add_message(t, Role::User, &format!("m{}", i), None, None, None)
                .unwrap(),
        );
    }
    db.delete_messages_after(t, ids[2]).unwrap();
    let kept: Vec<i64> = db.get_messages(t).unwrap().iter().map(|m| m.id).collect();
    assert_eq!(kept, vec![ids[0], ids[1], ids[2]]);

    db.delete_messages_from(t, ids[1]).unwrap();
    let kept: Vec<i64> = db.get_messages(t).unwrap().iter().map(|m| m.id).collect();
    assert_eq!(kept, vec![ids[0]]);
}

#[test]
fn add_message_rejects_unknown_rows() {
    let mut db = Database::new();
    let t = db.create_thread("FK", None).unwrap();
    assert_eq!(
        db.add_message(t + 1, Role::User, "x", None, None, None),
        Err(StoreError::ForeignKey)
    );
    assert_eq!(
        db.add_message(t, Role::User, "x", None, None, Some(12345)),
        Err(StoreError::ForeignKey)
    );
    let m = db.add_message(t, Role::User, "x", None, None, None).unwrap();
    let r = db.add_message(t, Role::User, "y", None, None, Some(m)).unwrap();
    let msgs = db.get_messages(t).unwrap();
    assert_eq!(msgs[1].id, r);
    assert_eq!(msgs[1].reply_to_id, Some(m));
}

#[test]
fn archive_hides_and_rename_retitles() {
    let mut db = Database::new();
    let t1 = db.create_thread("Keep", None).unwrap();
    let t2 = db.create_thread("Hide", None).unwrap();
    db.archive_thread(t2).unwrap();
    db.archive_thread(t2).unwrap();
    let listed = db.get_threads().unwrap();
    assert_eq!(listed.len(), 1);
    assert_eq!(listed[0].id, t1);

    db.update_thread_title(t1, "Kept").unwrap();
    let listed = db.get_threads().unwrap();
    assert_eq!(listed[0].title, "Kept");
}

#[test]
fn listing_is_most_recent_first() {
    let mut db = Database::new();
    let t1 = db.create_thread("first", None).unwrap();
    let t2 = db.create_thread("second", None).unwrap();
    let t3 = db.create_thread("third", None).unwrap();
    let listed: Vec<i64> = db.get_threads().unwrap().iter().map(|t| t.id).collect();
    assert_eq!(listed, vec![t3, t2, t1]);
}

#[test]
fn system_prompt_lookup_tags_missing_threads() {
    let mut db = Database::new();
    let t1 = db.create_thread("NoPrompt", None).unwrap();
    let t2 = db
        .create_thread("Prompted", Some("be brief".to_string()))
        .unwrap();
    assert_eq!(db.get_thread_system_prompt(t1), Some(None));
    assert_eq!(
        db.get_thread_system_prompt(t2),
        Some(Some("be brief".to_string()))
    );
    assert_eq!(db.get_thread_system_prompt(t2 + 7), None);
}

#[test]
fn store_error_describes_itself() {
    assert_eq!(
        StoreError::ForeignKey.describe(),
        "referenced row does not exist"
    );
    assert_eq!(StoreError::Full.describe(), "identifier space exhausted");
}
