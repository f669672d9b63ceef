//! The generation orchestrator: context assembly from the store, the
//! pull-based generation cycle over a stream of backend records, and the
//! edit / regenerate / send operations with their invalidation rules.

use vstd::prelude::*;

use crate::clock::now_rfc3339;
use crate::protocol::{ChatRequest, ChatResponse, OllamaMessage, OllamaMessageV};
use crate::store::{
    added_message, clone_opt_images, clone_opt_string, has_thread, id_at_most, id_below,
    opt_images_view, opt_str_view, reply_target_ok, s_thread, spec_delete_suffix,
    spec_update_message, thread_messages, with_content, created_thread, Database,
    MessageV, Role, StoreError, Thread,
};
use crate::stream::{
    concat_frags, lemma_reasm_run_push, lemma_transcript_is_fragment_concat, reasm_init,
    reasm_run, StreamReassembler,
};

verus! {

/// The wire name of a role.
pub open spec fn role_str(r: Role) -> Seq<char> {
    match r {
        Role::System => "system"@,
        Role::User => "user"@,
        Role::Assistant => "assistant"@,
    }
}

/// The wire name of a role.
pub fn role_name(r: Role) -> (s: &'static str)
    ensures
        s@ == role_str(r),
{
    match r {
        Role::System => "system",
        Role::User => "user",
        Role::Assistant => "assistant",
    }
}

/// A stored message as the backend sees it.
pub open spec fn oll_entry(m: MessageV) -> OllamaMessageV {
    OllamaMessageV { role: role_str(m.role), content: m.content, images: m.images, thinking: None }
}

pub open spec fn oll_map() -> spec_fn(MessageV) -> OllamaMessageV {
    |m: MessageV| oll_entry(m)
}

/// The system-prompt entry prepended to a context.
pub open spec fn system_entry(p: Seq<char>) -> OllamaMessageV {
    OllamaMessageV { role: "system"@, content: p, images: None, thinking: None }
}

/// The prompt context of a thread: its non-empty system prompt, if any,
/// followed by its messages in order, each mapped to the backend's shape.
pub open spec fn spec_context(s: crate::store::StoreModel, t: i64) -> Seq<OllamaMessageV> {
    let base = thread_messages(s, t).map_values(oll_map());
    if has_thread(s, t) {
        match s_thread(s, t).system_prompt {
            Some(p) => if p.len() > 0 {
                seq![system_entry(p)] + base
            } else {
                base
            },
            None => base,
        }
    } else {
        base
    }
}

/// Reads the thread's system prompt and messages and maps them into the
/// backend's message shape, in order. The first phase of a generation.
pub fn build_context(db: &Database, thread_id: i64) -> (ctx: Vec<OllamaMessage>)
    requires
        db.inv(),
    ensures
        ctx.deep_view() == spec_context(db@, thread_id),
{
    let mut ctx: Vec<OllamaMessage> = Vec::new();
    match db.get_thread_system_prompt(thread_id) {
        Some(op) => match op {
            Some(p) => {
                if !p.as_str().is_empty() {
                    let entry = OllamaMessage {
                        role: "system".to_owned(),
                        content: p,
                        images: None,
                        thinking: None,
                    };
                    let ghost dv0 = ctx.deep_view();
                    ctx.push(entry);
                    proof {
                        assert(ctx.deep_view() =~= dv0.push(entry@));
                    }
                }
            },
            None => {},
        },
        None => {},
    }
    let ghost head = ctx.deep_view();
    let msgs = match db.get_messages(thread_id) {
        Ok(v) => v,
        Err(_) => unreached(),
    };
    let ghost tm = thread_messages(db@, thread_id);
    let n = msgs.len();
    proof {
        assert(head + tm.take(0).map_values(oll_map()) =~= head);
    }
    let mut i: usize = 0;
    while i < n
        invariant
            n == msgs@.len(),
            msgs.deep_view() == tm,
            i <= n,
            ctx.deep_view() == head + tm.take(i as int).map_values(oll_map()),
        decreases n - i,
    {
        let m = &msgs[i];
        let entry = OllamaMessage {
            role: role_name(m.role).to_owned(),
            content: m.content.clone(),
            images: clone_opt_images(&m.images),
            thinking: None,
        };
        proof {
            assert(m@ == tm[i as int]);
            assert(entry@ == oll_entry(tm[i as int]));
            assert(tm.take(i as int + 1) =~= tm.take(i as int).push(tm[i as int]));
            assert(tm.take(i as int + 1).map_values(oll_map()) =~= tm.take(i as int).map_values(
                oll_map(),
            ).push(oll_entry(tm[i as int])));
        }
        let ghost dv0 = ctx.deep_view();
        ctx.push(entry);
        proof {
            assert(ctx.deep_view() =~= dv0.push(oll_entry(tm[i as int])));
            assert(ctx.deep_view() =~= head + tm.take(i as int + 1).map_values(oll_map()));
        }
        i += 1;
    }
    proof {
        assert(tm.take(n as int) =~= tm);
    }
    ctx
}

/// Wraps a context into the request the backend takes; the engine always
/// asks for a streamed response.
pub fn make_chat_request(model: &str, messages: Vec<OllamaMessage>) -> (r: ChatRequest)
    ensures
        r.model@ == model@,
        r.messages == messages,
        r.stream == true,
{
    ChatRequest { model: model.to_owned(), messages, stream: true }
}

/// What one finished generation hands back: every fragment that was emitted,
/// in order, and the identifier of the assistant message that was persisted.
#[derive(Debug)]
pub struct Generated {
    pub fragments: Vec<String>,
    pub message_id: i64,
}

/// Reassembles a full record stream and persists the transcript as one new
/// assistant message of the thread. The final two phases of a generation:
/// the caller obtains the records from the backend with the context that
/// `build_context` gave, and nothing is persisted when that exchange fails.
pub fn complete_generation(
    db: &mut Database,
    thread_id: i64,
    model: &str,
    records: &Vec<ChatResponse>,
) -> (r: Result<Generated, StoreError>)
    requires
        old(db).inv(),
    ensures
        final(db).inv(),
        r is Ok <==> has_thread(old(db)@, thread_id) && old(db)@.next_message_id < i64::MAX,
        match r {
            Ok(g) => ({
                let run = reasm_run(reasm_init(), records.deep_view());
                &&& g.fragments.deep_view() == run.1
                &&& run.0.transcript == concat_frags(run.1)
                &&& g.message_id == old(db)@.next_message_id
                &&& final(db)@.threads == old(db)@.threads
                &&& final(db)@.next_thread_id == old(db)@.next_thread_id
                &&& final(db)@.next_message_id == old(db)@.next_message_id + 1
                &&& final(db)@.messages.len() == old(db)@.messages.len() + 1
                &&& final(db)@.messages.drop_last() == old(db)@.messages
                &&& added_message(
                    final(db)@.messages.last(),
                    g.message_id,
                    thread_id,
                    Role::Assistant,
                    run.0.transcript,
                    None,
                    Some(model@),
                    None,
                )
                &&& thread_messages(final(db)@, thread_id) == thread_messages(
                    old(db)@,
                    thread_id,
                ).push(final(db)@.messages.last())
                &&& forall|t2: i64|
                    t2 != thread_id ==> thread_messages(final(db)@, t2) == thread_messages(
                        old(db)@,
                        t2,
                    )
            }),
            Err(e) => ({
                &&& final(db)@ == old(db)@
                &&& (e == StoreError::ForeignKey <==> !has_thread(old(db)@, thread_id))
                &&& (e == StoreError::Full <==> has_thread(old(db)@, thread_id) && old(
                    db,
                )@.next_message_id == i64::MAX)
            }),
        },
{
    let ghost recsv = records.deep_view();
    let mut reasm = StreamReassembler::new();
    let mut fragments: Vec<String> = Vec::new();
    let n = records.len();
    proof {
        assert(recsv.take(0) =~= Seq::<crate::protocol::ChatResponseV>::empty());
        assert(fragments.deep_view() =~= reasm_run(reasm_init(), recsv.take(0)).1);
    }
    let mut i: usize = 0;
    while i < n
        invariant
            n == records@.len(),
            recsv == records.deep_view(),
            i <= n,
            reasm@ == reasm_run(reasm_init(), recsv.take(i as int)).0,
            fragments.deep_view() == reasm_run(reasm_init(), recsv.take(i as int)).1,
        decreases n - i,
    {
        let mut fs = reasm.feed_record(&records[i]);
        let ghost fsdv = fs.deep_view();
        let ghost f0 = fragments.deep_view();
        proof {
            assert(records[i as int]@ == recsv[i as int]);
            assert(recsv.take(i as int + 1) =~= recsv.take(i as int).push(recsv[i as int]));
            lemma_reasm_run_push(reasm_init(), recsv.take(i as int), recsv[i as int]);
        }
        fragments.append(&mut fs);
        proof {
            assert(fragments.deep_view() =~= f0 + fsdv);
        }
        i += 1;
    }
    proof {
        assert(recsv.take(n as int) =~= recsv);
    }
    proof {
        lemma_transcript_is_fragment_concat(reasm_init(), recsv);
    }
    let content = reasm.transcript();
    match db.add_message(thread_id, Role::Assistant, content.as_str(), None, Some(
        model.to_owned(),
    ), None) {
        Ok(id) => Ok(Generated { fragments, message_id: id }),
        Err(e) => Err(e),
    }
}

/// Creates a thread and hands back its stored shape; the returned timestamp
/// is read from the clock alongside the stored one.
pub fn create_thread(db: &mut Database, title: &str, system_prompt: Option<String>) -> (r: Result<
    Thread,
    StoreError,
>)
    requires
        old(db).inv(),
    ensures
        final(db).inv(),
        r is Ok <==> old(db)@.next_thread_id < i64::MAX,
        match r {
            Ok(th) => ({
                &&& created_thread(th@, old(db)@.next_thread_id, title@, opt_str_view(
                    system_prompt,
                ))
                &&& final(db)@.threads.len() == old(db)@.threads.len() + 1
                &&& final(db)@.threads.drop_last() == old(db)@.threads
                &&& created_thread(
                    final(db)@.threads.last(),
                    old(db)@.next_thread_id,
                    title@,
                    opt_str_view(system_prompt),
                )
                &&& final(db)@.messages == old(db)@.messages
                &&& has_thread(final(db)@, th@.id)
            }),
            Err(e) => e == StoreError::Full && final(db)@ == old(db)@,
        },
{
    let sp = clone_opt_string(&system_prompt);
    match db.create_thread(title, system_prompt) {
        Ok(id) => Ok(
            Thread {
                id,
                title: title.to_owned(),
                created_at: now_rfc3339(),
                system_prompt: sp,
                is_archived: false,
            },
        ),
        Err(e) => Err(e),
    }
}

/// Overwrites the target message's content, discards every later message of
/// the thread, and re-derives the answer from that point: the thread keeps
/// exactly its prefix through the edited message, with that content
/// replaced, and gains one fresh assistant message.
pub fn edit_message(
    db: &mut Database,
    thread_id: i64,
    message_id: i64,
    new_content: &str,
    model: &str,
    records: &Vec<ChatResponse>,
) -> (r: Result<Generated, StoreError>)
    requires
        old(db).inv(),
    ensures
        final(db).inv(),
        r is Ok <==> has_thread(old(db)@, thread_id) && old(db)@.next_message_id < i64::MAX,
        match r {
            Ok(g) => ({
                let run = reasm_run(reasm_init(), records.deep_view());
                let kept = thread_messages(old(db)@, thread_id).map_values(
                    with_content(message_id, new_content@),
                ).filter(id_at_most(message_id));
                &&& g.fragments.deep_view() == run.1
                &&& g.message_id == old(db)@.next_message_id
                &&& final(db)@.threads == old(db)@.threads
                &&& thread_messages(final(db)@, thread_id) == kept.push(
                    final(db)@.messages.last(),
                )
                &&& added_message(
                    final(db)@.messages.last(),
                    g.message_id,
                    thread_id,
                    Role::Assistant,
                    run.0.transcript,
                    None,
                    Some(model@),
                    None,
                )
                &&& forall|t2: i64|
                    t2 != thread_id ==> thread_messages(final(db)@, t2) == thread_messages(
                        old(db)@,
                        t2,
                    ).map_values(with_content(message_id, new_content@))
            }),
            Err(e) => ({
                &&& final(db)@ == spec_delete_suffix(
                    spec_update_message(old(db)@, message_id, new_content@),
                    thread_id,
                    message_id,
                    false,
                )
                &&& (e == StoreError::ForeignKey <==> !has_thread(old(db)@, thread_id))
                &&& (e == StoreError::Full <==> has_thread(old(db)@, thread_id) && old(
                    db,
                )@.next_message_id == i64::MAX)
            }),
        },
{
    let _ = db.update_message(message_id, new_content);
    let _ = db.delete_messages_after(thread_id, message_id);
    complete_generation(db, thread_id, model, records)
}

/// When the thread's newest message is an assistant message, removes exactly
/// that message and derives a fresh answer in its place; otherwise only
/// appends a fresh answer. Nothing else changes.
pub fn regenerate_response(
    db: &mut Database,
    thread_id: i64,
    model: &str,
    records: &Vec<ChatResponse>,
) -> (r: Result<Generated, StoreError>)
    requires
        old(db).inv(),
    ensures
        final(db).inv(),
        r is Ok <==> has_thread(old(db)@, thread_id) && old(db)@.next_message_id < i64::MAX,
        match r {
            Ok(g) => ({
                let run = reasm_run(reasm_init(), records.deep_view());
                let tm0 = thread_messages(old(db)@, thread_id);
                let kept = if tm0.len() > 0 && tm0.last().role == Role::Assistant {
                    tm0.drop_last()
                } else {
                    tm0
                };
                &&& g.fragments.deep_view() == run.1
                &&& g.message_id == old(db)@.next_message_id
                &&& final(db)@.threads == old(db)@.threads
                &&& thread_messages(final(db)@, thread_id) == kept.push(
                    final(db)@.messages.last(),
                )
                &&& added_message(
                    final(db)@.messages.last(),
                    g.message_id,
                    thread_id,
                    Role::Assistant,
                    run.0.transcript,
                    None,
                    Some(model@),
                    None,
                )
                &&& forall|t2: i64|
                    t2 != thread_id ==> thread_messages(final(db)@, t2) == thread_messages(
                        old(db)@,
                        t2,
                    )
            }),
            Err(e) => ({
                let tm0 = thread_messages(old(db)@, thread_id);
                let kept = if tm0.len() > 0 && tm0.last().role == Role::Assistant {
                    tm0.drop_last()
                } else {
                    tm0
                };
                &&& final(db)@.threads == old(db)@.threads
                &&& thread_messages(final(db)@, thread_id) == kept
                &&& forall|t2: i64|
                    t2 != thread_id ==> thread_messages(final(db)@, t2) == thread_messages(
                        old(db)@,
                        t2,
                    )
                &&& (e == StoreError::ForeignKey <==> !has_thread(old(db)@, thread_id))
                &&& (e == StoreError::Full <==> has_thread(old(db)@, thread_id) && old(
                    db,
                )@.next_message_id == i64::MAX)
            }),
        },
{
    let msgs = match db.get_messages(thread_id) {
        Ok(v) => v,
        Err(_) => unreached(),
    };
    if msgs.len() > 0 {
        let last = &msgs[msgs.len() - 1];
        proof {
            assert(last@ == thread_messages(db@, thread_id).last());
        }
        if last.role == Role::Assistant {
            let _ = db.delete_last_message(thread_id);
        }
    }
    complete_generation(db, thread_id, model, records)
}

/// Discards the target message and everything after it in the thread, then
/// derives a fresh answer: coarser than an edit, which keeps the target.
pub fn regenerate_from_message(
    db: &mut Database,
    thread_id: i64,
    message_id: i64,
    model: &str,
    records: &Vec<ChatResponse>,
) -> (r: Result<Generated, StoreError>)
    requires
        old(db).inv(),
    ensures
        final(db).inv(),
        r is Ok <==> has_thread(old(db)@, thread_id) && old(db)@.next_message_id < i64::MAX,
        match r {
            Ok(g) => ({
                let run = reasm_run(reasm_init(), records.deep_view());
                let kept = thread_messages(old(db)@, thread_id).filter(id_below(message_id));
                &&& g.fragments.deep_view() == run.1
                &&& g.message_id == old(db)@.next_message_id
                &&& final(db)@.threads == old(db)@.threads
                &&& thread_messages(final(db)@, thread_id) == kept.push(
                    final(db)@.messages.last(),
                )
                &&& added_message(
                    final(db)@.messages.last(),
                    g.message_id,
                    thread_id,
                    Role::Assistant,
                    run.0.transcript,
                    None,
                    Some(model@),
                    None,
                )
                &&& forall|t2: i64|
                    t2 != thread_id ==> thread_messages(final(db)@, t2) == thread_messages(
                        old(db)@,
                        t2,
                    )
            }),
            Err(e) => ({
                &&& final(db)@ == spec_delete_suffix(old(db)@, thread_id, message_id, true)
                &&& (e == StoreError::ForeignKey <==> !has_thread(old(db)@, thread_id))
                &&& (e == StoreError::Full <==> has_thread(old(db)@, thread_id) && old(
                    db,
                )@.next_message_id == i64::MAX)
            }),
        },
{
    let _ = db.delete_messages_from(thread_id, message_id);
    complete_generation(db, thread_id, model, records)
}


/// The fence opening an attachment's extracted text in a user message.
pub open spec fn att_open() -> Seq<char> {
    "\n\n--- Attachment Content ---\n"@
}

/// The fence closing an attachment's extracted text.
pub open spec fn att_close() -> Seq<char> {
    "\n--------------------------\n"@
}

/// The visible marker substituted when extraction of an attachment failed.
pub open spec fn att_err() -> Seq<char> {
    "\n\n[Attachment text extraction failed]"@
}

/// The block one attachment contributes to the user message.
pub open spec fn doc_block(d: Option<Seq<char>>) -> Seq<char> {
    match d {
        Some(t) => att_open() + t + att_close(),
        None => att_err(),
    }
}

/// The user message text with every attachment's block appended in order.
pub open spec fn composed_content(c: Seq<char>, docs: Seq<Option<Seq<char>>>) -> Seq<char>
    decreases docs.len(),
{
    if docs.len() == 0 {
        c
    } else {
        composed_content(c + doc_block(docs.first()), docs.drop_first())
    }
}

/// Appends to the user's text one fenced block per extracted attachment
/// text, and a visible error marker for each attachment whose extraction
/// failed (`None`): extraction failure degrades the message, it does not
/// abort the send.
pub fn compose_user_content(content: &str, doc_texts: &Vec<Option<String>>) -> (r: String)
    ensures
        r@ == composed_content(content@, doc_texts.deep_view()),
{
    let ghost docs = doc_texts.deep_view();
    let mut acc = content.to_owned();
    let n = doc_texts.len();
    proof {
        assert(docs.skip(0) =~= docs);
    }
    let mut i: usize = 0;
    while i < n
        invariant
            n == doc_texts@.len(),
            docs == doc_texts.deep_view(),
            i <= n,
            composed_content(content@, docs) == composed_content(acc@, docs.skip(i as int)),
        decreases n - i,
    {
        let ghost acc0 = acc@;
        proof {
            assert(docs.skip(i as int).first() == docs[i as int]);
            assert(docs.skip(i as int).drop_first() =~= docs.skip(i as int + 1));
        }
        match &doc_texts[i] {
            Some(t) => {
                acc.append("\n\n--- Attachment Content ---\n");
                acc.append(t.as_str());
                acc.append("\n--------------------------\n");
                proof {
                    assert(docs[i as int] == Some(t@));
                    assert(acc@ =~= acc0 + doc_block(docs[i as int]));
                }
            },
            None => {
                acc.append("\n\n[Attachment text extraction failed]");
                proof {
                    assert(docs[i as int] is None);
                    assert(acc@ =~= acc0 + doc_block(docs[i as int]));
                }
            },
        }
        i += 1;
    }
    proof {
        assert(docs.skip(n as int) =~= Seq::<Option<Seq<char>>>::empty());
    }
    acc
}

/// Persists the user's message — its text first composed with each
/// attachment's extracted text or error marker — and then runs a full
/// generation over the given record stream. The thread gains the user
/// message and one fresh assistant message, in that order.
pub fn send_message(
    db: &mut Database,
    thread_id: i64,
    content: &str,
    images: Option<Vec<String>>,
    doc_texts: &Vec<Option<String>>,
    model: &str,
    reply_to_id: Option<i64>,
    records: &Vec<ChatResponse>,
) -> (r: Result<Generated, StoreError>)
    requires
        old(db).inv(),
    ensures
        final(db).inv(),
        r is Ok <==> has_thread(old(db)@, thread_id) && reply_target_ok(
            old(db)@,
            thread_id,
            reply_to_id,
        ) && old(db)@.next_message_id as int + 1 < i64::MAX as int,
        match r {
            Ok(g) => ({
                let run = reasm_run(reasm_init(), records.deep_view());
                let user = thread_messages(final(db)@, thread_id)[thread_messages(
                    final(db)@,
                    thread_id,
                ).len() - 2];
                &&& g.fragments.deep_view() == run.1
                &&& g.message_id == old(db)@.next_message_id + 1
                &&& final(db)@.threads == old(db)@.threads
                &&& final(db)@.messages.len() == old(db)@.messages.len() + 2
                &&& thread_messages(final(db)@, thread_id) == thread_messages(
                    old(db)@,
                    thread_id,
                ).push(user).push(final(db)@.messages.last())
                &&& added_message(
                    user,
                    old(db)@.next_message_id,
                    thread_id,
                    Role::User,
                    composed_content(content@, doc_texts.deep_view()),
                    opt_images_view(images),
                    Some(model@),
                    reply_to_id,
                )
                &&& added_message(
                    final(db)@.messages.last(),
                    g.message_id,
                    thread_id,
                    Role::Assistant,
                    run.0.transcript,
                    None,
                    Some(model@),
                    None,
                )
                &&& forall|t2: i64|
                    t2 != thread_id ==> thread_messages(final(db)@, t2) == thread_messages(
                        old(db)@,
                        t2,
                    )
            }),
            Err(e) => ({
                &&& final(db)@.threads == old(db)@.threads
                &&& (e == StoreError::ForeignKey <==> !(has_thread(old(db)@, thread_id)
                    && reply_target_ok(old(db)@, thread_id, reply_to_id)))
                &&& (e == StoreError::Full <==> has_thread(old(db)@, thread_id)
                    && reply_target_ok(old(db)@, thread_id, reply_to_id) && old(
                    db,
                )@.next_message_id as int + 1 >= i64::MAX as int)
                &&& (e == StoreError::ForeignKey ==> final(db)@ == old(db)@)
                &&& (e == StoreError::Full && old(db)@.next_message_id == i64::MAX ==> final(db)@
                    == old(db)@)
                &&& (e == StoreError::Full && old(db)@.next_message_id < i64::MAX ==> ({
                    &&& final(db)@.messages.drop_last() == old(db)@.messages
                    &&& added_message(
                        final(db)@.messages.last(),
                        old(db)@.next_message_id,
                        thread_id,
                        Role::User,
                        composed_content(content@, doc_texts.deep_view()),
                        opt_images_view(images),
                        Some(model@),
                        reply_to_id,
                    )
                }))
            }),
        },
{
    let composed = compose_user_content(content, doc_texts);
    match db.add_message(
        thread_id,
        Role::User,
        composed.as_str(),
        images,
        Some(model.to_owned()),
        reply_to_id,
    ) {
        Ok(_user_id) => {
            let res = complete_generation(db, thread_id, model, records);
            proof {
                if res is Ok {
                    let tmf = thread_messages(final(db)@, thread_id);
                    assert(tmf.drop_last() =~= thread_messages(old(db)@, thread_id).push(
                        tmf[tmf.len() - 2],
                    ));
                }
            }
            res
        },
        Err(e) => Err(e),
    }
}

} // verus!
