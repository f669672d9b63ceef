//! The persistent store: threads and messages with ordering, cascading
//! deletion, and weak reply references.
//!
//! The store keeps all state in memory. Its model (`StoreModel`) is the
//! sequence of threads and the sequence of messages, each in insertion
//! order, together with the next free identifiers. Identifiers are
//! allocated monotonically, so insertion order and identifier order agree;
//! this is the canonical ordering key for a thread's messages.

use vstd::prelude::*;

use crate::clock::now_rfc3339;
use crate::seq_facts::{
    lemma_filter_push, lemma_filter_none, lemma_filter_all, lemma_filter_preserves_prop,
    lemma_filter_elems_contained, lemma_filter_keeps_increasing, lemma_filter_map_values,
};

verus! {

/// The author of one message.
#[derive(Clone, Copy, PartialEq, Eq, Structural, Debug)]
pub enum Role {
    System,
    User,
    Assistant,
}

/// A persisted conversation: an ordered list of messages plus shared
/// settings (title, optional system prompt, archived flag).
pub struct Thread {
    pub id: i64,
    pub title: String,
    pub created_at: String,
    pub system_prompt: Option<String>,
    pub is_archived: bool,
}

/// One turn in a thread. Metric fields are assistant-only and may be absent.
pub struct Message {
    pub id: i64,
    pub thread_id: i64,
    pub role: Role,
    pub content: String,
    pub images: Option<Vec<String>>,
    pub model: Option<String>,
    pub created_at: String,
    pub thinking_process: Option<String>,
    pub total_duration: Option<i64>,
    pub load_duration: Option<i64>,
    pub prompt_eval_count: Option<i64>,
    pub eval_count: Option<i64>,
    pub eval_duration: Option<i64>,
    pub reply_to_id: Option<i64>,
}

/// Mathematical value of a `Thread`.
pub ghost struct ThreadV {
    pub id: i64,
    pub title: Seq<char>,
    pub created_at: Seq<char>,
    pub system_prompt: Option<Seq<char>>,
    pub is_archived: bool,
}

/// Mathematical value of a `Message`.
pub ghost struct MessageV {
    pub id: i64,
    pub thread_id: i64,
    pub role: Role,
    pub content: Seq<char>,
    pub images: Option<Seq<Seq<char>>>,
    pub model: Option<Seq<char>>,
    pub created_at: Seq<char>,
    pub thinking_process: Option<Seq<char>>,
    pub total_duration: Option<i64>,
    pub load_duration: Option<i64>,
    pub prompt_eval_count: Option<i64>,
    pub eval_count: Option<i64>,
    pub eval_duration: Option<i64>,
    pub reply_to_id: Option<i64>,
}

pub open spec fn opt_str_view(o: Option<String>) -> Option<Seq<char>> {
    match o {
        Some(s) => Some(s@),
        None => None,
    }
}

pub open spec fn opt_images_view(o: Option<Vec<String>>) -> Option<Seq<Seq<char>>> {
    match o {
        Some(v) => Some(v.deep_view()),
        None => None,
    }
}

impl View for Thread {
    type V = ThreadV;

    open spec fn view(&self) -> ThreadV {
        ThreadV {
            id: self.id,
            title: self.title@,
            created_at: self.created_at@,
            system_prompt: opt_str_view(self.system_prompt),
            is_archived: self.is_archived,
        }
    }
}

impl DeepView for Thread {
    type V = ThreadV;

    open spec fn deep_view(&self) -> ThreadV {
        self.view()
    }
}

impl View for Message {
    type V = MessageV;

    open spec fn view(&self) -> MessageV {
        MessageV {
            id: self.id,
            thread_id: self.thread_id,
            role: self.role,
            content: self.content@,
            images: opt_images_view(self.images),
            model: opt_str_view(self.model),
            created_at: self.created_at@,
            thinking_process: opt_str_view(self.thinking_process),
            total_duration: self.total_duration,
            load_duration: self.load_duration,
            prompt_eval_count: self.prompt_eval_count,
            eval_count: self.eval_count,
            eval_duration: self.eval_duration,
            reply_to_id: self.reply_to_id,
        }
    }
}

impl DeepView for Message {
    type V = MessageV;

    open spec fn deep_view(&self) -> MessageV {
        self.view()
    }
}

/// A failure of the store. `ForeignKey` reports a reference to a row that
/// does not exist; `Full` reports an exhausted identifier space.
#[derive(Clone, Copy, PartialEq, Eq, Structural, Debug)]
pub enum StoreError {
    ForeignKey,
    Full,
}

impl StoreError {
    /// A textual description of the failure.
    pub fn describe(&self) -> (r: &'static str)
        ensures
            *self is ForeignKey ==> r@ == "referenced row does not exist"@,
            *self is Full ==> r@ == "identifier space exhausted"@,
    {
        match self {
            StoreError::ForeignKey => "referenced row does not exist",
            StoreError::Full => "identifier space exhausted",
        }
    }
}

/// The store: all threads and all messages, in insertion order.
pub struct Database {
    threads: Vec<Thread>,
    messages: Vec<Message>,
    next_thread_id: i64,
    next_message_id: i64,
}

/// Mathematical value of the whole store.
pub ghost struct StoreModel {
    pub threads: Seq<ThreadV>,
    pub messages: Seq<MessageV>,
    pub next_thread_id: i64,
    pub next_message_id: i64,
}

impl View for Database {
    type V = StoreModel;

    closed spec fn view(&self) -> StoreModel {
        StoreModel {
            threads: self.threads.deep_view(),
            messages: self.messages.deep_view(),
            next_thread_id: self.next_thread_id,
            next_message_id: self.next_message_id,
        }
    }
}

/// Some thread with identifier `t` exists.
pub open spec fn has_thread(s: StoreModel, t: i64) -> bool {
    exists|i: int| 0 <= i < s.threads.len() && (#[trigger] s.threads[i]).id == t
}

/// Some message with identifier `id` exists in thread `t`.
pub open spec fn has_msg(msgs: Seq<MessageV>, t: i64, id: i64) -> bool {
    exists|i: int| 0 <= i < msgs.len() && (#[trigger] msgs[i]).id == id && msgs[i].thread_id == t
}

/// Thread identifiers are positive, strictly increasing in insertion
/// order, and below the next free identifier.
pub open spec fn threads_ok(s: StoreModel) -> bool {
    &&& forall|i: int| 0 <= i < s.threads.len() ==> 1 <= (#[trigger] s.threads[i]).id
        < s.next_thread_id
    &&& forall|i: int, j: int|
        #![trigger s.threads[i], s.threads[j]]
        0 <= i < j < s.threads.len() ==> s.threads[i].id < s.threads[j].id
}

/// Message identifiers are positive, strictly increasing in insertion
/// order, and below the next free identifier.
pub open spec fn msgs_ok(s: StoreModel) -> bool {
    &&& forall|i: int| 0 <= i < s.messages.len() ==> 1 <= (#[trigger] s.messages[i]).id
        < s.next_message_id
    &&& forall|i: int, j: int|
        #![trigger s.messages[i], s.messages[j]]
        0 <= i < j < s.messages.len() ==> s.messages[i].id < s.messages[j].id
}

/// Every message belongs to an existing thread.
pub open spec fn msg_threads_ok(s: StoreModel) -> bool {
    forall|i: int| 0 <= i < s.messages.len() ==> has_thread(s, (#[trigger] s.messages[i]).thread_id)
}

/// A reply reference, if set, names an earlier message of the same thread.
pub open spec fn replies_ok(msgs: Seq<MessageV>) -> bool {
    forall|i: int|
        0 <= i < msgs.len() ==> match (#[trigger] msgs[i]).reply_to_id {
            Some(r) => r < msgs[i].id && has_msg(msgs, msgs[i].thread_id, r),
            None => true,
        }
}

/// The store's invariant, established by `Database::new` and preserved by
/// every operation.
pub open spec fn store_inv(s: StoreModel) -> bool {
    &&& 1 <= s.next_thread_id
    &&& 1 <= s.next_message_id
    &&& threads_ok(s)
    &&& msgs_ok(s)
    &&& msg_threads_ok(s)
    &&& replies_ok(s.messages)
}

/// Membership of a message in thread `t`.
pub open spec fn in_thread(t: i64) -> spec_fn(MessageV) -> bool {
    |m: MessageV| m.thread_id == t
}

/// The messages of thread `t`, in insertion order.
pub open spec fn thread_messages(s: StoreModel, t: i64) -> Seq<MessageV> {
    s.messages.filter(in_thread(t))
}

/// A thread that a default listing shows.
pub open spec fn not_archived() -> spec_fn(ThreadV) -> bool {
    |t: ThreadV| !t.is_archived
}

/// The threads shown by a default listing: the non-archived ones, most
/// recently created first.
pub open spec fn listed_threads(s: StoreModel) -> Seq<ThreadV> {
    s.threads.reverse().filter(not_archived())
}

/// The position of thread `t` in the store, when it exists.
pub open spec fn thread_index_of(s: StoreModel, t: i64) -> int {
    choose|i: int| 0 <= i < s.threads.len() && (#[trigger] s.threads[i]).id == t
}

impl Database {
    pub open spec fn inv(&self) -> bool {
        store_inv(self@)
    }

    /// Opens an empty store: no threads, no messages, identifiers start at 1.
    pub fn new() -> (db: Database)
        ensures
            db.inv(),
            db@.threads == Seq::<ThreadV>::empty(),
            db@.messages == Seq::<MessageV>::empty(),
            db@.next_thread_id == 1,
            db@.next_message_id == 1,
    {
        let db = Database {
            threads: Vec::new(),
            messages: Vec::new(),
            next_thread_id: 1,
            next_message_id: 1,
        };
        proof {
            assert(db@.threads =~= Seq::<ThreadV>::empty());
            assert(db@.messages =~= Seq::<MessageV>::empty());
        }
        db
    }

    /// Position of the thread with identifier `thread_id`, if any.
    fn find_thread(&self, thread_id: i64) -> (r: Option<usize>)
        ensures
            match r {
                Some(i) => i < self.threads@.len() && self@.threads[i as int].id == thread_id,
                None => !has_thread(self@, thread_id),
            },
    {
        let n = self.threads.len();
        for i in 0..n
            invariant
                n == self.threads@.len(),
                forall|k: int| 0 <= k < i ==> (#[trigger] self@.threads[k]).id != thread_id,
        {
            if self.threads[i].id == thread_id {
                return Some(i);
            }
        }
        None
    }

    /// Returns the system prompt of thread `thread_id`: `None` when the
    /// thread does not exist, `Some(p)` with the thread's (possibly unset)
    /// prompt when it does.
    pub fn get_thread_system_prompt(&self, thread_id: i64) -> (r: Option<Option<String>>)
        requires
            self.inv(),
        ensures
            match r {
                Some(p) => has_thread(self@, thread_id) && opt_str_view(p) == s_thread(
                    self@,
                    thread_id,
                ).system_prompt,
                None => !has_thread(self@, thread_id),
            },
    {
        match self.find_thread(thread_id) {
            Some(i) => {
                proof {
                    lemma_thread_index_unique(self@, thread_id, i as int);
                }
                Some(self.threads[i].system_prompt.clone())
            },
            None => None,
        }
    }
}

/// The thread with identifier `t`, when one exists.
pub open spec fn s_thread(s: StoreModel, t: i64) -> ThreadV {
    s.threads[thread_index_of(s, t)]
}

/// Copies an optional string; the view is preserved.
pub(crate) fn clone_opt_string(o: &Option<String>) -> (r: Option<String>)
    ensures
        opt_str_view(r) == opt_str_view(*o),
{
    match o {
        Some(s) => Some(s.clone()),
        None => None,
    }
}

/// Copies an optional image list; the view is preserved.
pub(crate) fn clone_opt_images(o: &Option<Vec<String>>) -> (r: Option<Vec<String>>)
    ensures
        opt_images_view(r) == opt_images_view(*o),
{
    match o {
        Some(v) => {
            let w = v.clone();
            proof {
                assert forall|k: int| 0 <= k < v@.len() implies w.deep_view()[k]
                    == v.deep_view()[k] by {
                    assert(cloned::<String>(v[k], w[k]));
                }
                assert(w.deep_view() =~= v.deep_view());
            }
            Some(w)
        },
        None => None,
    }
}

impl Clone for Thread {
    /// A copy with the same view.
    fn clone(&self) -> (r: Thread)
        ensures
            r@ == self@,
    {
        Thread {
            id: self.id,
            title: self.title.clone(),
            created_at: self.created_at.clone(),
            system_prompt: clone_opt_string(&self.system_prompt),
            is_archived: self.is_archived,
        }
    }
}

impl Clone for Message {
    /// A copy with the same view.
    fn clone(&self) -> (r: Message)
        ensures
            r@ == self@,
    {
        Message {
            id: self.id,
            thread_id: self.thread_id,
            role: self.role,
            content: self.content.clone(),
            images: clone_opt_images(&self.images),
            model: clone_opt_string(&self.model),
            created_at: self.created_at.clone(),
            thinking_process: clone_opt_string(&self.thinking_process),
            total_duration: self.total_duration,
            load_duration: self.load_duration,
            prompt_eval_count: self.prompt_eval_count,
            eval_count: self.eval_count,
            eval_duration: self.eval_duration,
            reply_to_id: self.reply_to_id,
        }
    }
}

/// Under the invariant, any position holding identifier `t` is the one
/// that `thread_index_of` picks.
pub proof fn lemma_thread_index_unique(s: StoreModel, t: i64, i: int)
    requires
        threads_ok(s),
        0 <= i < s.threads.len(),
        s.threads[i].id == t,
    ensures
        thread_index_of(s, t) == i,
        has_thread(s, t),
{
    assert(has_thread(s, t));
    let j = thread_index_of(s, t);
    if j < i {
        assert(s.threads[j].id < s.threads[i].id);
    } else if j > i {
        assert(s.threads[i].id < s.threads[j].id);
    }
}

/// What `create_thread` promises of the new row: everything but the
/// timestamp, which comes from the clock.
pub open spec fn created_thread(
    th: ThreadV,
    id: i64,
    title: Seq<char>,
    prompt: Option<Seq<char>>,
) -> bool {
    &&& th.id == id
    &&& th.title == title
    &&& th.system_prompt == prompt
    &&& !th.is_archived
}

/// Archiving maps one thread's flag and leaves everything else alone.
pub open spec fn arch_fn(t: i64) -> spec_fn(ThreadV) -> ThreadV {
    |th: ThreadV|
        if th.id == t {
            ThreadV { is_archived: true, ..th }
        } else {
            th
        }
}

pub open spec fn spec_archive_thread(s: StoreModel, t: i64) -> StoreModel {
    StoreModel { threads: s.threads.map_values(arch_fn(t)), ..s }
}

/// Renaming maps one thread's title and leaves everything else alone.
pub open spec fn title_fn(t: i64, title: Seq<char>) -> spec_fn(ThreadV) -> ThreadV {
    |th: ThreadV|
        if th.id == t {
            ThreadV { title: title, ..th }
        } else {
            th
        }
}

pub open spec fn spec_update_thread_title(s: StoreModel, t: i64, title: Seq<char>) -> StoreModel {
    StoreModel { threads: s.threads.map_values(title_fn(t, title)), ..s }
}

/// A content overwrite touches exactly the content field of the message
/// with the given identifier.
pub open spec fn with_content(id: i64, c: Seq<char>) -> spec_fn(MessageV) -> MessageV {
    |m: MessageV|
        if m.id == id {
            MessageV { content: c, ..m }
        } else {
            m
        }
}

pub open spec fn spec_update_message(s: StoreModel, id: i64, c: Seq<char>) -> StoreModel {
    StoreModel { messages: s.messages.map_values(with_content(id, c)), ..s }
}

impl Database {
    /// Creates a thread with a fresh identifier, the current time as its
    /// creation timestamp, and the archived flag cleared. Fails only when
    /// the identifier space is exhausted.
    pub fn create_thread(&mut self, title: &str, system_prompt: Option<String>) -> (r: Result<
        i64,
        StoreError,
    >)
        requires
            old(self).inv(),
        ensures
            final(self).inv(),
            r is Ok <==> old(self)@.next_thread_id < i64::MAX,
            match r {
                Ok(id) => ({
                    &&& id == old(self)@.next_thread_id
                    &&& final(self)@.next_thread_id == old(self)@.next_thread_id + 1
                    &&& final(self)@.next_message_id == old(self)@.next_message_id
                    &&& final(self)@.messages == old(self)@.messages
                    &&& final(self)@.threads.len() == old(self)@.threads.len() + 1
                    &&& final(self)@.threads.drop_last() == old(self)@.threads
                    &&& created_thread(
                        final(self)@.threads.last(),
                        id,
                        title@,
                        opt_str_view(system_prompt),
                    )
                    &&& has_thread(final(self)@, id)
                }),
                Err(e) => e == StoreError::Full && final(self)@ == old(self)@,
            },
    {
        if self.next_thread_id == i64::MAX {
            return Err(StoreError::Full);
        }
        let id = self.next_thread_id;
        let th = Thread {
            id,
            title: title.to_owned(),
            created_at: now_rfc3339(),
            system_prompt,
            is_archived: false,
        };
        self.threads.push(th);
        self.next_thread_id = id + 1;
        proof {
            let s0 = old(self)@;
            assert(self@.threads.drop_last() =~= s0.threads);
            assert(self@.threads.last().id == id);
            assert forall|k: int| 0 <= k < s0.threads.len() implies self@.threads[k]
                == s0.threads[k] by {}
            assert forall|x: i64| has_thread(s0, x) implies has_thread(self@, x) by {
                let k = choose|k: int|
                    0 <= k < s0.threads.len() && (#[trigger] s0.threads[k]).id == x;
                assert((self@.threads[k]).id == x);
            }
            assert((self@.threads[s0.threads.len() as int]).id == id);
            assert(has_thread(self@, id));
            assert forall|k: int, l: int|
                #![trigger self@.threads[k], self@.threads[l]]
                0 <= k < l < self@.threads.len() implies self@.threads[k].id
                < self@.threads[l].id by {
                assert(self@.threads[k] == s0.threads[k]);
                if l < s0.threads.len() {
                    assert(self@.threads[l] == s0.threads[l]);
                } else {
                    assert(self@.threads[l].id == id);
                    assert(1 <= s0.threads[k].id < s0.next_thread_id);
                }
            }
            assert forall|k: int| 0 <= k < self@.threads.len() implies 1 <= (
            #[trigger] self@.threads[k]).id < self@.next_thread_id by {
                if k < s0.threads.len() {
                    assert(self@.threads[k] == s0.threads[k]);
                }
            }
            assert forall|i: int| 0 <= i < self@.messages.len() implies has_thread(
                self@,
                (#[trigger] self@.messages[i]).thread_id,
            ) by {
                assert(has_thread(s0, s0.messages[i].thread_id));
            }
        }
        Ok(id)
    }

    /// Position of the message with identifier `message_id`, if any.
    fn find_message(&self, message_id: i64) -> (r: Option<usize>)
        ensures
            match r {
                Some(i) => i < self.messages@.len() && self@.messages[i as int].id == message_id,
                None => forall|k: int|
                    0 <= k < self@.messages.len() ==> (#[trigger] self@.messages[k]).id
                        != message_id,
            },
    {
        let n = self.messages.len();
        for i in 0..n
            invariant
                n == self.messages@.len(),
                forall|k: int| 0 <= k < i ==> (#[trigger] self@.messages[k]).id != message_id,
        {
            if self.messages[i].id == message_id {
                return Some(i);
            }
        }
        None
    }

    /// Sets the archived flag of thread `thread_id`; a no-op when no such
    /// thread exists. Idempotent.
    pub fn archive_thread(&mut self, thread_id: i64) -> (r: Result<(), StoreError>)
        requires
            old(self).inv(),
        ensures
            final(self).inv(),
            r is Ok,
            final(self)@ == spec_archive_thread(old(self)@, thread_id),
    {
        let ghost s0 = self@;
        match self.find_thread(thread_id) {
            Some(i) => {
                let t = &self.threads[i];
                let nt = Thread {
                    id: t.id,
                    title: t.title.clone(),
                    created_at: t.created_at.clone(),
                    system_prompt: clone_opt_string(&t.system_prompt),
                    is_archived: true,
                };
                proof {
                    assert(nt@ == arch_fn(thread_id)(s0.threads[i as int]));
                }
                self.threads.set(i, nt);
                proof {
                    assert(self@.threads =~= s0.threads.update(
                        i as int,
                        arch_fn(thread_id)(s0.threads[i as int]),
                    ));
                    self.lemma_threads_pointwise(s0, arch_fn(thread_id), i as int, thread_id);
                }
                Ok(())
            },
            None => {
                proof {
                    assert forall|k: int| 0 <= k < s0.threads.len() implies arch_fn(thread_id)(
                        s0.threads[k],
                    ) == s0.threads[k] by {}
                    assert(s0.threads.map_values(arch_fn(thread_id)) =~= s0.threads);
                }
                Ok(())
            },
        }
    }

    /// Overwrites the title of thread `thread_id`; a no-op when no such
    /// thread exists. Idempotent.
    pub fn update_thread_title(&mut self, thread_id: i64, new_title: &str) -> (r: Result<
        (),
        StoreError,
    >)
        requires
            old(self).inv(),
        ensures
            final(self).inv(),
            r is Ok,
            final(self)@ == spec_update_thread_title(old(self)@, thread_id, new_title@),
    {
        let ghost s0 = self@;
        match self.find_thread(thread_id) {
            Some(i) => {
                let t = &self.threads[i];
                let nt = Thread {
                    id: t.id,
                    title: new_title.to_owned(),
                    created_at: t.created_at.clone(),
                    system_prompt: clone_opt_string(&t.system_prompt),
                    is_archived: t.is_archived,
                };
                proof {
                    assert(nt@ == title_fn(thread_id, new_title@)(s0.threads[i as int]));
                }
                self.threads.set(i, nt);
                proof {
                    assert(self@.threads =~= s0.threads.update(
                        i as int,
                        title_fn(thread_id, new_title@)(s0.threads[i as int]),
                    ));
                    self.lemma_threads_pointwise(
                        s0,
                        title_fn(thread_id, new_title@),
                        i as int,
                        thread_id,
                    );
                }
                Ok(())
            },
            None => {
                proof {
                    assert forall|k: int| 0 <= k < s0.threads.len() implies title_fn(
                        thread_id,
                        new_title@,
                    )(s0.threads[k]) == s0.threads[k] by {}
                    assert(s0.threads.map_values(title_fn(thread_id, new_title@)) =~= s0.threads);
                }
                Ok(())
            },
        }
    }

    /// After replacing position `i` (the unique position of thread `t`) by
    /// `f` of its old value, the thread list is the map of `f` over the old
    /// list, and the invariant still holds, provided `f` changes neither
    /// identifiers nor any other thread.
    proof fn lemma_threads_pointwise(
        &self,
        s0: StoreModel,
        f: spec_fn(ThreadV) -> ThreadV,
        i: int,
        t: i64,
    )
        requires
            store_inv(s0),
            0 <= i < s0.threads.len(),
            s0.threads[i].id == t,
            self@.messages == s0.messages,
            self@.next_thread_id == s0.next_thread_id,
            self@.next_message_id == s0.next_message_id,
            self@.threads == s0.threads.update(i, f(s0.threads[i])),
            forall|th: ThreadV| (#[trigger] f(th)).id == th.id,
            forall|th: ThreadV| th.id != t ==> f(th) == th,
        ensures
            self@.threads == s0.threads.map_values(f),
            store_inv(self@),
    {
        assert forall|k: int| 0 <= k < s0.threads.len() implies self@.threads[k] == f(
            #[trigger] s0.threads[k],
        ) by {
            if k != i {
                if k < i {
                    assert(s0.threads[k].id < s0.threads[i].id);
                } else {
                    assert(s0.threads[i].id < s0.threads[k].id);
                }
                assert(s0.threads[k].id != t);
            }
        }
        assert(self@.threads =~= s0.threads.map_values(f));
        assert forall|x: i64| has_thread(s0, x) implies has_thread(self@, x) by {
            let k = choose|k: int| 0 <= k < s0.threads.len() && (#[trigger] s0.threads[k]).id == x;
            assert((self@.threads[k]).id == x);
        }
        assert forall|j: int| 0 <= j < self@.messages.len() implies has_thread(
            self@,
            (#[trigger] self@.messages[j]).thread_id,
        ) by {
            assert(has_thread(s0, s0.messages[j].thread_id));
        }
        assert forall|k: int, l: int|
            #![trigger self@.threads[k], self@.threads[l]]
            0 <= k < l < self@.threads.len() implies self@.threads[k].id < self@.threads[l].id by {
            assert(self@.threads[k].id == s0.threads[k].id);
            assert(self@.threads[l].id == s0.threads[l].id);
        }
    }

    /// Overwrites the content of the message with identifier `message_id`,
    /// leaving its identifier, thread, role, timestamp, images, model and
    /// metrics untouched, and every other message unchanged; a no-op when no
    /// such message exists. Idempotent.
    pub fn update_message(&mut self, message_id: i64, content: &str) -> (r: Result<
        (),
        StoreError,
    >)
        requires
            old(self).inv(),
        ensures
            final(self).inv(),
            r is Ok,
            final(self)@ == spec_update_message(old(self)@, message_id, content@),
            forall|t: i64| #[trigger]
                thread_messages(final(self)@, t) == thread_messages(old(self)@, t).map_values(
                    with_content(message_id, content@),
                ),
    {
        let ghost s0 = self@;
        let ghost f = with_content(message_id, content@);
        match self.find_message(message_id) {
            Some(i) => {
                let m = &self.messages[i];
                let nm = Message {
                    id: m.id,
                    thread_id: m.thread_id,
                    role: m.role,
                    content: content.to_owned(),
                    images: clone_opt_images(&m.images),
                    model: clone_opt_string(&m.model),
                    created_at: m.created_at.clone(),
                    thinking_process: clone_opt_string(&m.thinking_process),
                    total_duration: m.total_duration,
                    load_duration: m.load_duration,
                    prompt_eval_count: m.prompt_eval_count,
                    eval_count: m.eval_count,
                    eval_duration: m.eval_duration,
                    reply_to_id: m.reply_to_id,
                };
                proof {
                    assert(nm@ == f(s0.messages[i as int]));
                }
                self.messages.set(i, nm);
                proof {
                    assert(self@.messages =~= s0.messages.update(
                        i as int,
                        f(s0.messages[i as int]),
                    ));
                    self.lemma_messages_mapped(s0, f, i as int, message_id);
                }
                Ok(())
            },
            None => {
                proof {
                    assert forall|k: int| 0 <= k < s0.messages.len() implies f(s0.messages[k])
                        == s0.messages[k] by {}
                    assert(s0.messages.map_values(f) =~= s0.messages);
                    assert forall|t: i64| #[trigger]
                        thread_messages(self@, t) == thread_messages(s0, t).map_values(
                            f,
                        ) by {
                        lemma_filter_map_values(s0.messages, f, in_thread(t));
                    }
                }
                Ok(())
            },
        }
    }

    /// As `lemma_threads_pointwise`, for a content-preserving rewrite of one
    /// message.
    proof fn lemma_messages_mapped(&self, s0: StoreModel, f: spec_fn(MessageV) -> MessageV, i: int, id: i64)
        requires
            store_inv(s0),
            0 <= i < s0.messages.len(),
            s0.messages[i].id == id,
            self@.threads == s0.threads,
            self@.next_thread_id == s0.next_thread_id,
            self@.next_message_id == s0.next_message_id,
            self@.messages == s0.messages.update(i, f(s0.messages[i])),
            forall|m: MessageV| (#[trigger] f(m)).id == m.id,
            forall|m: MessageV| (#[trigger] f(m)).thread_id == m.thread_id,
            forall|m: MessageV| (#[trigger] f(m)).reply_to_id == m.reply_to_id,
            forall|m: MessageV| m.id != id ==> f(m) == m,
        ensures
            self@.messages == s0.messages.map_values(f),
            store_inv(self@),
            forall|t: i64| #[trigger]
                thread_messages(self@, t) == thread_messages(s0, t).map_values(f),
    {
        assert forall|k: int| 0 <= k < s0.messages.len() implies self@.messages[k] == f(
            #[trigger] s0.messages[k],
        ) by {
            if k != i {
                if k < i {
                    assert(s0.messages[k].id < s0.messages[i].id);
                } else {
                    assert(s0.messages[i].id < s0.messages[k].id);
                }
                assert(s0.messages[k].id != id);
            }
        }
        assert(self@.messages =~= s0.messages.map_values(f));
        assert forall|k: int, l: int|
            #![trigger self@.messages[k], self@.messages[l]]
            0 <= k < l < self@.messages.len() implies self@.messages[k].id
            < self@.messages[l].id by {
            assert(self@.messages[k] == f(s0.messages[k]));
            assert(self@.messages[l] == f(s0.messages[l]));
        }
        assert forall|j: int| 0 <= j < self@.messages.len() implies has_thread(
            self@,
            (#[trigger] self@.messages[j]).thread_id,
        ) by {
            assert(self@.messages[j] == f(s0.messages[j]));
            assert(has_thread(s0, s0.messages[j].thread_id));
        }
        assert forall|j: int| 0 <= j < self@.messages.len() implies match (
        #[trigger] self@.messages[j]).reply_to_id {
            Some(rr) => rr < self@.messages[j].id && has_msg(
                self@.messages,
                self@.messages[j].thread_id,
                rr,
            ),
            None => true,
        } by {
            assert(self@.messages[j] == f(s0.messages[j]));
            match s0.messages[j].reply_to_id {
                Some(rr) => {
                    let k = choose|k: int|
                        0 <= k < s0.messages.len() && (#[trigger] s0.messages[k]).id == rr
                            && s0.messages[k].thread_id == s0.messages[j].thread_id;
                    assert(self@.messages[k] == f(s0.messages[k]));
                    assert((self@.messages[k]).id == rr);
                },
                None => {},
            }
        }
        assert forall|t: i64| #[trigger]
            thread_messages(self@, t) == thread_messages(s0, t).map_values(f) by {
            lemma_filter_map_values(s0.messages, f, in_thread(t));
        }
    }

    /// The non-archived threads, most recently created first. Pure read.
    pub fn get_threads(&self) -> (r: Result<Vec<Thread>, StoreError>)
        ensures
            r matches Ok(v) && v.deep_view() == listed_threads(self@),
    {
        let n = self.threads.len();
        let mut out: Vec<Thread> = Vec::new();
        let ghost rev = self@.threads.reverse();
        let ghost pred = not_archived();
        let mut k: usize = 0;
        proof {
            assert(rev.take(0) =~= Seq::<ThreadV>::empty());
            lemma_filter_none(rev.take(0), pred);
            assert(out.deep_view() =~= rev.take(0).filter(pred));
        }
        while k < n
            invariant
                n == self.threads@.len(),
                rev == self@.threads.reverse(),
                pred == not_archived(),
                k <= n,
                out.deep_view() == rev.take(k as int).filter(pred),
            decreases n - k,
        {
            let t = &self.threads[n - 1 - k];
            proof {
                assert(rev[k as int] == self@.threads[n - 1 - k as int]);
                assert(rev.take(k as int + 1) =~= rev.take(k as int).push(rev[k as int]));
                lemma_filter_push(rev.take(k as int), pred, rev[k as int]);
            }
            if !t.is_archived {
                let ghost dv0 = out.deep_view();
                let c = t.clone();
                out.push(c);
                proof {
                    assert(out.deep_view() =~= dv0.push(c@));
                }
            }
            k += 1;
        }
        proof {
            assert(rev.take(n as int) =~= rev);
        }
        Ok(out)
    }
}


/// The reply target, when given, must name a message of the same thread.
pub open spec fn reply_target_ok(s: StoreModel, t: i64, rep: Option<i64>) -> bool {
    match rep {
        Some(x) => has_msg(s.messages, t, x),
        None => true,
    }
}

/// What `add_message` promises of the new row: everything but the
/// timestamp, which comes from the clock.
pub open spec fn added_message(
    m: MessageV,
    id: i64,
    t: i64,
    role: Role,
    content: Seq<char>,
    images: Option<Seq<Seq<char>>>,
    model: Option<Seq<char>>,
    reply_to: Option<i64>,
) -> bool {
    &&& m.id == id
    &&& m.thread_id == t
    &&& m.role == role
    &&& m.content == content
    &&& m.images == images
    &&& m.model == model
    &&& m.thinking_process is None
    &&& m.total_duration is None
    &&& m.load_duration is None
    &&& m.prompt_eval_count is None
    &&& m.eval_count is None
    &&& m.eval_duration is None
    &&& m.reply_to_id == reply_to
}

/// A thread other than `t`.
pub open spec fn thread_id_not(t: i64) -> spec_fn(ThreadV) -> bool {
    |th: ThreadV| th.id != t
}

/// A message that survives deleting thread `t`.
pub open spec fn keep_other_thread(t: i64) -> spec_fn(MessageV) -> bool {
    |m: MessageV| m.thread_id != t
}

/// A message that survives a suffix deletion in thread `t`: when `with_target`
/// is set the message with identifier `id` goes too, otherwise it stays.
pub open spec fn keep_pred(t: i64, id: i64, with_target: bool) -> spec_fn(MessageV) -> bool {
    |m: MessageV| !(m.thread_id == t && (if with_target { m.id >= id } else { m.id > id }))
}

pub open spec fn id_below(id: i64) -> spec_fn(MessageV) -> bool {
    |m: MessageV| m.id < id
}

pub open spec fn id_at_most(id: i64) -> spec_fn(MessageV) -> bool {
    |m: MessageV| m.id <= id
}

pub open spec fn spec_delete_thread(s: StoreModel, t: i64) -> StoreModel {
    StoreModel {
        threads: s.threads.filter(thread_id_not(t)),
        messages: s.messages.filter(keep_other_thread(t)),
        ..s
    }
}

pub open spec fn spec_delete_suffix(s: StoreModel, t: i64, id: i64, with_target: bool) -> StoreModel {
    StoreModel { messages: s.messages.filter(keep_pred(t, id, with_target)), ..s }
}

/// Restricting a filtered message sequence to one thread: a filter whose
/// predicate holds everywhere outside thread `t` and agrees with `q` on
/// thread `t` touches only thread `t`, where it acts as `q`.
proof fn lemma_filter_restrict(
    msgs: Seq<MessageV>,
    t: i64,
    p: spec_fn(MessageV) -> bool,
    q: spec_fn(MessageV) -> bool,
)
    requires
        forall|m: MessageV| #![trigger p(m)] m.thread_id == t ==> (p(m) <==> q(m)),
        forall|m: MessageV| #![trigger p(m)] m.thread_id != t ==> p(m),
    ensures
        msgs.filter(p).filter(in_thread(t)) == msgs.filter(in_thread(t)).filter(q),
        forall|t2: i64|
            t2 != t ==> #[trigger] msgs.filter(p).filter(in_thread(t2)) == msgs.filter(
                in_thread(t2),
            ),
    decreases msgs.len(),
{
    reveal(Seq::filter);
    if msgs.len() == 0 {
        assert(msgs.filter(p) =~= msgs);
        assert forall|t2: i64|
            t2 != t implies #[trigger] msgs.filter(p).filter(in_thread(t2)) == msgs.filter(
            in_thread(t2),
        ) by {}
    } else {
        let d = msgs.drop_last();
        let l = msgs.last();
        lemma_filter_restrict(d, t, p, q);
        assert(p(l) ==> msgs.filter(p) == d.filter(p).push(l));
        assert(!p(l) ==> msgs.filter(p) == d.filter(p));
        if p(l) {
            lemma_filter_push(d.filter(p), in_thread(t), l);
        }
        lemma_filter_push(d, in_thread(t), l);
        if l.thread_id == t {
            lemma_filter_push(d.filter(in_thread(t)), q, l);
        }
        assert(msgs.filter(p).filter(in_thread(t)) == msgs.filter(in_thread(t)).filter(q));
        assert forall|t2: i64|
            t2 != t implies #[trigger] msgs.filter(p).filter(in_thread(t2)) == msgs.filter(
            in_thread(t2),
        ) by {
            if p(l) {
                lemma_filter_push(d.filter(p), in_thread(t2), l);
            }
            lemma_filter_push(d, in_thread(t2), l);
            assert(d.filter(p).filter(in_thread(t2)) == d.filter(in_thread(t2)));
            if !p(l) {
                assert(l.thread_id == t);
            }
        }
    }
}

/// Filtering preserves reply validity, provided a kept message's possible
/// reply targets are kept too.
proof fn lemma_filter_replies_ok(msgs: Seq<MessageV>, pred: spec_fn(MessageV) -> bool)
    requires
        replies_ok(msgs),
        forall|i: int, j: int|
            0 <= i < msgs.len() && 0 <= j < msgs.len() && pred(#[trigger] msgs[i]) && (
            #[trigger] msgs[j]).thread_id == msgs[i].thread_id && msgs[i].reply_to_id == Some(
                msgs[j].id,
            ) ==> pred(msgs[j]),
    ensures
        replies_ok(msgs.filter(pred)),
{
    let fm = msgs.filter(pred);
    lemma_filter_elems_contained(msgs, pred);
    assert forall|k: int| 0 <= k < fm.len() implies match (#[trigger] fm[k]).reply_to_id {
        Some(r) => r < fm[k].id && has_msg(fm, fm[k].thread_id, r),
        None => true,
    } by {
        assert(msgs.contains(fm[k]));
        let i = choose|i: int| 0 <= i < msgs.len() && msgs[i] == fm[k];
        msgs.lemma_filter_pred(pred, k);
        match msgs[i].reply_to_id {
            Some(r) => {
                assert(r < msgs[i].id && has_msg(msgs, msgs[i].thread_id, r));
                let j = choose|j: int|
                    0 <= j < msgs.len() && (#[trigger] msgs[j]).id == r && msgs[j].thread_id
                        == msgs[i].thread_id;
                assert(pred(msgs[j]));
                msgs.lemma_filter_contains(pred, j);
                assert(fm.contains(msgs[j]));
                let l = choose|l: int| 0 <= l < fm.len() && fm[l] == msgs[j];
                assert((fm[l]).id == r && fm[l].thread_id == fm[k].thread_id);
                assert(has_msg(fm, fm[k].thread_id, r));
            },
            None => {},
        }
    }
}

impl Database {
    /// Whether thread `t` holds a message with identifier `id`.
    fn contains_message(&self, t: i64, id: i64) -> (b: bool)
        ensures
            b == has_msg(self@.messages, t, id),
    {
        let n = self.messages.len();
        for i in 0..n
            invariant
                n == self.messages@.len(),
                forall|k: int|
                    0 <= k < i ==> !((#[trigger] self@.messages[k]).id == id
                        && self@.messages[k].thread_id == t),
        {
            if self.messages[i].id == id && self.messages[i].thread_id == t {
                proof {
                    assert((self@.messages[i as int]).id == id);
                }
                return true;
            }
        }
        false
    }

    /// Appends a message to thread `thread_id` with a fresh identifier and
    /// the current time as its creation timestamp. Fails with `ForeignKey`
    /// when the thread does not exist or a given reply target does not name
    /// a message of that thread; fails with `Full` when the identifier space
    /// is exhausted.
    pub fn add_message(
        &mut self,
        thread_id: i64,
        role: Role,
        content: &str,
        images: Option<Vec<String>>,
        model: Option<String>,
        reply_to_id: Option<i64>,
    ) -> (r: Result<i64, StoreError>)
        requires
            old(self).inv(),
        ensures
            final(self).inv(),
            r is Ok <==> has_thread(old(self)@, thread_id) && reply_target_ok(
                old(self)@,
                thread_id,
                reply_to_id,
            ) && old(self)@.next_message_id < i64::MAX,
            match r {
                Ok(id) => ({
                    &&& id == old(self)@.next_message_id
                    &&& final(self)@.next_message_id == old(self)@.next_message_id + 1
                    &&& final(self)@.next_thread_id == old(self)@.next_thread_id
                    &&& final(self)@.threads == old(self)@.threads
                    &&& final(self)@.messages.len() == old(self)@.messages.len() + 1
                    &&& final(self)@.messages.drop_last() == old(self)@.messages
                    &&& added_message(
                        final(self)@.messages.last(),
                        id,
                        thread_id,
                        role,
                        content@,
                        opt_images_view(images),
                        opt_str_view(model),
                        reply_to_id,
                    )
                    &&& thread_messages(final(self)@, thread_id) == thread_messages(
                        old(self)@,
                        thread_id,
                    ).push(final(self)@.messages.last())
                    &&& forall|t2: i64|
                        t2 != thread_id ==> thread_messages(final(self)@, t2) == thread_messages(
                            old(self)@,
                            t2,
                        )
                }),
                Err(e) => ({
                    &&& final(self)@ == old(self)@
                    &&& (e == StoreError::ForeignKey <==> !(has_thread(old(self)@, thread_id)
                        && reply_target_ok(old(self)@, thread_id, reply_to_id)))
                    &&& (e == StoreError::Full <==> has_thread(old(self)@, thread_id)
                        && reply_target_ok(old(self)@, thread_id, reply_to_id) && old(
                        self,
                    )@.next_message_id == i64::MAX)
                }),
            },
    {
        let ghost s0 = self@;
        if self.find_thread(thread_id).is_none() {
            return Err(StoreError::ForeignKey);
        }
        match reply_to_id {
            Some(rid) => {
                if !self.contains_message(thread_id, rid) {
                    return Err(StoreError::ForeignKey);
                }
            },
            None => {},
        }
        if self.next_message_id == i64::MAX {
            return Err(StoreError::Full);
        }
        let id = self.next_message_id;
        let m = Message {
            id,
            thread_id,
            role,
            content: content.to_owned(),
            images,
            model,
            created_at: now_rfc3339(),
            thinking_process: None,
            total_duration: None,
            load_duration: None,
            prompt_eval_count: None,
            eval_count: None,
            eval_duration: None,
            reply_to_id,
        };
        let ghost mv = m@;
        self.messages.push(m);
        self.next_message_id = id + 1;
        proof {
            assert(self@.messages.drop_last() =~= s0.messages);
            assert(self@.messages.last() == mv);
            assert forall|k: int| 0 <= k < s0.messages.len() implies self@.messages[k]
                == s0.messages[k] by {}
            assert forall|k: int, l: int|
                #![trigger self@.messages[k], self@.messages[l]]
                0 <= k < l < self@.messages.len() implies self@.messages[k].id
                < self@.messages[l].id by {
                assert(self@.messages[k] == s0.messages[k]);
                if l < s0.messages.len() {
                    assert(self@.messages[l] == s0.messages[l]);
                } else {
                    assert(1 <= s0.messages[k].id < s0.next_message_id);
                }
            }
            assert forall|k: int| 0 <= k < self@.messages.len() implies 1 <= (
            #[trigger] self@.messages[k]).id < self@.next_message_id by {
                if k < s0.messages.len() {
                    assert(self@.messages[k] == s0.messages[k]);
                }
            }
            assert forall|k: int| 0 <= k < self@.messages.len() implies has_thread(
                self@,
                (#[trigger] self@.messages[k]).thread_id,
            ) by {
                if k < s0.messages.len() {
                    assert(self@.messages[k] == s0.messages[k]);
                    assert(has_thread(s0, s0.messages[k].thread_id));
                } else {
                    assert(has_thread(s0, thread_id));
                }
            }
            assert forall|k: int| 0 <= k < self@.messages.len() implies match (
            #[trigger] self@.messages[k]).reply_to_id {
                Some(rr) => rr < self@.messages[k].id && has_msg(
                    self@.messages,
                    self@.messages[k].thread_id,
                    rr,
                ),
                None => true,
            } by {
                if k < s0.messages.len() {
                    assert(self@.messages[k] == s0.messages[k]);
                    match s0.messages[k].reply_to_id {
                        Some(rr) => {
                            let w = choose|w: int|
                                0 <= w < s0.messages.len() && (#[trigger] s0.messages[w]).id == rr
                                    && s0.messages[w].thread_id == s0.messages[k].thread_id;
                            assert((self@.messages[w]).id == rr);
                        },
                        None => {},
                    }
                } else {
                    match reply_to_id {
                        Some(rid) => {
                            let w = choose|w: int|
                                0 <= w < s0.messages.len() && (#[trigger] s0.messages[w]).id == rid
                                    && s0.messages[w].thread_id == thread_id;
                            assert((self@.messages[w]).id == rid);
                            assert(1 <= s0.messages[w].id < s0.next_message_id);
                        },
                        None => {},
                    }
                }
            }
            lemma_filter_push(s0.messages, in_thread(thread_id), mv);
            assert(self@.messages =~= s0.messages.push(mv));
            assert forall|t2: i64|
                t2 != thread_id implies thread_messages(self@, t2) == thread_messages(
                s0,
                t2,
            ) by {
                lemma_filter_push(s0.messages, in_thread(t2), mv);
            }
        }
        Ok(id)
    }

    /// The messages of thread `thread_id`, in insertion (and so creation)
    /// order; an unknown thread yields the empty sequence. Pure read.
    pub fn get_messages(&self, thread_id: i64) -> (r: Result<Vec<Message>, StoreError>)
        ensures
            r matches Ok(v) && v.deep_view() == thread_messages(self@, thread_id),
    {
        let n = self.messages.len();
        let mut out: Vec<Message> = Vec::new();
        proof {
            assert(self@.messages.take(0) =~= Seq::<MessageV>::empty());
            lemma_filter_none(self@.messages.take(0), in_thread(thread_id));
            assert(out.deep_view() =~= self@.messages.take(0).filter(in_thread(thread_id)));
        }
        let mut i: usize = 0;
        while i < n
            invariant
                n == self.messages@.len(),
                i <= n,
                out.deep_view() == self@.messages.take(i as int).filter(in_thread(thread_id)),
            decreases n - i,
        {
            let m = &self.messages[i];
            proof {
                assert(self@.messages.take(i as int + 1) =~= self@.messages.take(i as int).push(
                    self@.messages[i as int],
                ));
                lemma_filter_push(
                    self@.messages.take(i as int),
                    in_thread(thread_id),
                    self@.messages[i as int],
                );
            }
            if m.thread_id == thread_id {
                let ghost dv0 = out.deep_view();
                let c = m.clone();
                out.push(c);
                proof {
                    assert(out.deep_view() =~= dv0.push(c@));
                }
            }
            i += 1;
        }
        proof {
            assert(self@.messages.take(n as int) =~= self@.messages);
        }
        Ok(out)
    }
}


impl Database {
    /// Deletes thread `thread_id` and, atomically with it, every message it
    /// owns. A no-op when no such thread exists.
    pub fn delete_thread(&mut self, thread_id: i64) -> (r: Result<(), StoreError>)
        requires
            old(self).inv(),
        ensures
            final(self).inv(),
            r is Ok,
            final(self)@ == spec_delete_thread(old(self)@, thread_id),
            thread_messages(final(self)@, thread_id) == Seq::<MessageV>::empty(),
            !has_thread(final(self)@, thread_id),
            forall|k: int|
                0 <= k < listed_threads(final(self)@).len() ==> (#[trigger] listed_threads(
                    final(self)@,
                )[k]).id != thread_id,
            forall|t2: i64|
                t2 != thread_id ==> thread_messages(final(self)@, t2) == thread_messages(
                    old(self)@,
                    t2,
                ),
    {
        let ghost s0 = self@;
        let n = self.threads.len();
        let mut kept_threads: Vec<Thread> = Vec::new();
        proof {
            assert(s0.threads.take(0) =~= Seq::<ThreadV>::empty());
            lemma_filter_none(s0.threads.take(0), thread_id_not(thread_id));
            assert(kept_threads.deep_view() =~= s0.threads.take(0).filter(
                thread_id_not(thread_id),
            ));
        }
        let mut i: usize = 0;
        while i < n
            invariant
                self@ == s0,
                n == self.threads@.len(),
                i <= n,
                kept_threads.deep_view() == s0.threads.take(i as int).filter(
                    thread_id_not(thread_id),
                ),
            decreases n - i,
        {
            let t = &self.threads[i];
            proof {
                assert(s0.threads.take(i as int + 1) =~= s0.threads.take(i as int).push(
                    s0.threads[i as int],
                ));
                lemma_filter_push(
                    s0.threads.take(i as int),
                    thread_id_not(thread_id),
                    s0.threads[i as int],
                );
            }
            if t.id != thread_id {
                let ghost dv0 = kept_threads.deep_view();
                let c = t.clone();
                kept_threads.push(c);
                proof {
                    assert(kept_threads.deep_view() =~= dv0.push(c@));
                }
            }
            i += 1;
        }
        let m = self.messages.len();
        let mut kept_msgs: Vec<Message> = Vec::new();
        proof {
            assert(s0.threads.take(n as int) =~= s0.threads);
            assert(s0.messages.take(0) =~= Seq::<MessageV>::empty());
            lemma_filter_none(s0.messages.take(0), keep_other_thread(thread_id));
            assert(kept_msgs.deep_view() =~= s0.messages.take(0).filter(
                keep_other_thread(thread_id),
            ));
        }
        let mut j: usize = 0;
        while j < m
            invariant
                self@ == s0,
                m == self.messages@.len(),
                j <= m,
                kept_msgs.deep_view() == s0.messages.take(j as int).filter(
                    keep_other_thread(thread_id),
                ),
            decreases m - j,
        {
            let mm = &self.messages[j];
            proof {
                assert(s0.messages.take(j as int + 1) =~= s0.messages.take(j as int).push(
                    s0.messages[j as int],
                ));
                lemma_filter_push(
                    s0.messages.take(j as int),
                    keep_other_thread(thread_id),
                    s0.messages[j as int],
                );
            }
            if mm.thread_id != thread_id {
                let ghost dv0 = kept_msgs.deep_view();
                let c = mm.clone();
                kept_msgs.push(c);
                proof {
                    assert(kept_msgs.deep_view() =~= dv0.push(c@));
                }
            }
            j += 1;
        }
        self.threads = kept_threads;
        self.messages = kept_msgs;
        proof {
            assert(s0.messages.take(m as int) =~= s0.messages);
            let s1 = self@;
            assert(s1.threads == s0.threads.filter(thread_id_not(thread_id)));
            assert(s1.messages == s0.messages.filter(keep_other_thread(thread_id)));
            self.lemma_delete_thread_shape(s0, thread_id);
        }
        Ok(())
    }

    /// The invariant and the listing claims of `delete_thread`.
    proof fn lemma_delete_thread_shape(&self, s0: StoreModel, t: i64)
        requires
            store_inv(s0),
            self@.threads == s0.threads.filter(thread_id_not(t)),
            self@.messages == s0.messages.filter(keep_other_thread(t)),
            self@.next_thread_id == s0.next_thread_id,
            self@.next_message_id == s0.next_message_id,
        ensures
            store_inv(self@),
            thread_messages(self@, t) == Seq::<MessageV>::empty(),
            !has_thread(self@, t),
            forall|k: int|
                0 <= k < listed_threads(self@).len() ==> (#[trigger] listed_threads(self@)[k]).id
                    != t,
            forall|t2: i64|
                t2 != t ==> thread_messages(self@, t2) == thread_messages(s0, t2),
    {
        let s1 = self@;
        // thread identifiers stay increasing and bounded
        lemma_filter_keeps_increasing(s0.threads, thread_id_not(t), |th: ThreadV| th.id as int);
        lemma_filter_preserves_prop(
            s0.threads,
            thread_id_not(t),
            |th: ThreadV| 1 <= th.id < s0.next_thread_id,
        );
        // message identifiers stay increasing and bounded
        lemma_filter_keeps_increasing(s0.messages, keep_other_thread(t), |m: MessageV| m.id as int);
        lemma_filter_preserves_prop(
            s0.messages,
            keep_other_thread(t),
            |m: MessageV| 1 <= m.id < s0.next_message_id,
        );
        // every kept message's thread is kept
        lemma_filter_elems_contained(s0.messages, keep_other_thread(t));
        assert forall|k: int| 0 <= k < s1.messages.len() implies has_thread(
            s1,
            (#[trigger] s1.messages[k]).thread_id,
        ) by {
            s0.messages.lemma_filter_pred(keep_other_thread(t), k);
            assert(s0.messages.contains(s1.messages[k]));
            let i = choose|i: int| 0 <= i < s0.messages.len() && s0.messages[i] == s1.messages[k];
            assert(has_thread(s0, s0.messages[i].thread_id));
            let w = choose|w: int|
                0 <= w < s0.threads.len() && (#[trigger] s0.threads[w]).id
                    == s0.messages[i].thread_id;
            assert(thread_id_not(t)(s0.threads[w]));
            s0.threads.lemma_filter_contains(thread_id_not(t), w);
            assert(s1.threads.contains(s0.threads[w]));
            let l = choose|l: int| 0 <= l < s1.threads.len() && s1.threads[l] == s0.threads[w];
            assert((s1.threads[l]).id == s1.messages[k].thread_id);
        }
        // replies stay valid: a kept message's target lives in its own thread
        lemma_filter_replies_ok(s0.messages, keep_other_thread(t));
        // no kept message is in thread t
        assert forall|k: int| 0 <= k < s1.messages.len() implies !in_thread(t)(
            #[trigger] s1.messages[k],
        ) by {
            s0.messages.lemma_filter_pred(keep_other_thread(t), k);
        }
        lemma_filter_none(s1.messages, in_thread(t));
        // the thread is gone from the store and from the listing
        assert forall|k: int| 0 <= k < s1.threads.len() implies (#[trigger] s1.threads[k]).id
            != t by {
            s0.threads.lemma_filter_pred(thread_id_not(t), k);
        }
        let rev = s1.threads.reverse();
        lemma_filter_elems_contained(rev, not_archived());
        assert forall|k: int| 0 <= k < listed_threads(s1).len() implies (#[trigger] listed_threads(
            s1,
        )[k]).id != t by {
            assert(rev.contains(listed_threads(s1)[k]));
            let l = choose|l: int| 0 <= l < rev.len() && rev[l] == listed_threads(s1)[k];
            assert(rev[l] == s1.threads[s1.threads.len() - 1 - l]);
        }
        // other threads keep their messages
        lemma_filter_restrict(
            s0.messages,
            t,
            keep_other_thread(t),
            |m: MessageV| false,
        );
    }

    /// Removes from thread `thread_id` every message whose identifier is
    /// greater than `message_id`, and the named message itself when
    /// `with_target` is set.
    fn remove_suffix(&mut self, thread_id: i64, message_id: i64, with_target: bool)
        requires
            old(self).inv(),
        ensures
            final(self).inv(),
            final(self)@ == spec_delete_suffix(old(self)@, thread_id, message_id, with_target),
            with_target ==> thread_messages(final(self)@, thread_id) == thread_messages(
                old(self)@,
                thread_id,
            ).filter(id_below(message_id)),
            !with_target ==> thread_messages(final(self)@, thread_id) == thread_messages(
                old(self)@,
                thread_id,
            ).filter(id_at_most(message_id)),
            forall|t2: i64|
                t2 != thread_id ==> thread_messages(final(self)@, t2) == thread_messages(
                    old(self)@,
                    t2,
                ),
    {
        let ghost s0 = self@;
        let ghost pred = keep_pred(thread_id, message_id, with_target);
        let m = self.messages.len();
        let mut kept: Vec<Message> = Vec::new();
        proof {
            assert(s0.messages.take(0) =~= Seq::<MessageV>::empty());
            lemma_filter_none(s0.messages.take(0), pred);
            assert(kept.deep_view() =~= s0.messages.take(0).filter(pred));
        }
        let mut j: usize = 0;
        while j < m
            invariant
                self@ == s0,
                pred == keep_pred(thread_id, message_id, with_target),
                m == self.messages@.len(),
                j <= m,
                kept.deep_view() == s0.messages.take(j as int).filter(pred),
            decreases m - j,
        {
            let mm = &self.messages[j];
            proof {
                assert(s0.messages.take(j as int + 1) =~= s0.messages.take(j as int).push(
                    s0.messages[j as int],
                ));
                lemma_filter_push(s0.messages.take(j as int), pred, s0.messages[j as int]);
            }
            let goes = mm.thread_id == thread_id && (if with_target {
                mm.id >= message_id
            } else {
                mm.id > message_id
            });
            if !goes {
                let ghost dv0 = kept.deep_view();
                let c = mm.clone();
                kept.push(c);
                proof {
                    assert(kept.deep_view() =~= dv0.push(c@));
                }
            }
            j += 1;
        }
        self.messages = kept;
        proof {
            assert(s0.messages.take(m as int) =~= s0.messages);
            let s1 = self@;
            assert(s1.messages == s0.messages.filter(pred));
            // identifiers stay increasing and bounded
            lemma_filter_keeps_increasing(s0.messages, pred, |mm: MessageV| mm.id as int);
            lemma_filter_preserves_prop(
                s0.messages,
                pred,
                |mm: MessageV| 1 <= mm.id < s0.next_message_id,
            );
            // threads unchanged; kept messages keep their thread
            lemma_filter_elems_contained(s0.messages, pred);
            assert forall|k: int| 0 <= k < s1.messages.len() implies has_thread(
                s1,
                (#[trigger] s1.messages[k]).thread_id,
            ) by {
                assert(s0.messages.contains(s1.messages[k]));
                let i = choose|i: int|
                    0 <= i < s0.messages.len() && s0.messages[i] == s1.messages[k];
                assert(has_thread(s0, s0.messages[i].thread_id));
                let w = choose|w: int|
                    0 <= w < s0.threads.len() && (#[trigger] s0.threads[w]).id
                        == s0.messages[i].thread_id;
                assert((s1.threads[w]).id == s1.messages[k].thread_id);
            }
            // replies stay valid: targets sit earlier in the same thread
            assert forall|i: int, j2: int|
                0 <= i < s0.messages.len() && 0 <= j2 < s0.messages.len() && pred(
                    #[trigger] s0.messages[i],
                ) && (#[trigger] s0.messages[j2]).thread_id == s0.messages[i].thread_id
                    && s0.messages[i].reply_to_id == Some(s0.messages[j2].id) implies pred(
                s0.messages[j2],
            ) by {
                assert(match s0.messages[i].reply_to_id {
                    Some(rr) => rr < s0.messages[i].id,
                    None => true,
                });
            }
            lemma_filter_replies_ok(s0.messages, pred);
            // the effect per thread
            if with_target {
                lemma_filter_restrict(s0.messages, thread_id, pred, id_below(message_id));
            } else {
                lemma_filter_restrict(s0.messages, thread_id, pred, id_at_most(message_id));
            }
        }
    }

    /// Removes `message_id` and every later message of thread `thread_id`:
    /// exactly the messages of the thread with identifier below `message_id`
    /// remain; other threads are untouched.
    pub fn delete_messages_from(&mut self, thread_id: i64, message_id: i64) -> (r: Result<
        (),
        StoreError,
    >)
        requires
            old(self).inv(),
        ensures
            final(self).inv(),
            r is Ok,
            final(self)@ == spec_delete_suffix(old(self)@, thread_id, message_id, true),
            thread_messages(final(self)@, thread_id) == thread_messages(
                old(self)@,
                thread_id,
            ).filter(id_below(message_id)),
            forall|t2: i64|
                t2 != thread_id ==> thread_messages(final(self)@, t2) == thread_messages(
                    old(self)@,
                    t2,
                ),
    {
        self.remove_suffix(thread_id, message_id, true);
        Ok(())
    }

    /// Removes every message of thread `thread_id` later than `message_id`:
    /// exactly the messages of the thread with identifier at most
    /// `message_id` remain; other threads are untouched.
    pub fn delete_messages_after(&mut self, thread_id: i64, message_id: i64) -> (r: Result<
        (),
        StoreError,
    >)
        requires
            old(self).inv(),
        ensures
            final(self).inv(),
            r is Ok,
            final(self)@ == spec_delete_suffix(old(self)@, thread_id, message_id, false),
            thread_messages(final(self)@, thread_id) == thread_messages(
                old(self)@,
                thread_id,
            ).filter(id_at_most(message_id)),
            forall|t2: i64|
                t2 != thread_id ==> thread_messages(final(self)@, t2) == thread_messages(
                    old(self)@,
                    t2,
                ),
    {
        self.remove_suffix(thread_id, message_id, false);
        Ok(())
    }
}


/// The position of the last (and so newest) message of thread `t`, when the
/// thread has one.
pub open spec fn last_index_in_thread(msgs: Seq<MessageV>, t: i64) -> int {
    choose|j: int|
        0 <= j < msgs.len() && (#[trigger] msgs[j]).thread_id == t && (forall|k: int|
            j < k < msgs.len() ==> (#[trigger] msgs[k]).thread_id != t)
}

impl Database {
    /// Removes the newest message of thread `thread_id`; a no-op when the
    /// thread has none.
    pub fn delete_last_message(&mut self, thread_id: i64) -> (r: Result<(), StoreError>)
        requires
            old(self).inv(),
        ensures
            final(self).inv(),
            r is Ok,
            final(self)@.threads == old(self)@.threads,
            final(self)@.next_thread_id == old(self)@.next_thread_id,
            final(self)@.next_message_id == old(self)@.next_message_id,
            thread_messages(old(self)@, thread_id).len() == 0 ==> final(self)@ == old(self)@,
            thread_messages(old(self)@, thread_id).len() > 0 ==> ({
                &&& final(self)@.messages == old(self)@.messages.remove(
                    last_index_in_thread(old(self)@.messages, thread_id),
                )
                &&& thread_messages(final(self)@, thread_id) == thread_messages(
                    old(self)@,
                    thread_id,
                ).drop_last()
                &&& forall|t2: i64|
                    t2 != thread_id ==> thread_messages(final(self)@, t2) == thread_messages(
                        old(self)@,
                        t2,
                    )
            }),
    {
        let ghost s0 = self@;
        let n = self.messages.len();
        let mut found: Option<usize> = None;
        let mut i: usize = 0;
        while i < n
            invariant
                self@ == s0,
                n == self.messages@.len(),
                i <= n,
                match found {
                    Some(j) => j < i && s0.messages[j as int].thread_id == thread_id && (forall|
                        k: int,
                    |
                        j < k < i ==> (#[trigger] s0.messages[k]).thread_id != thread_id),
                    None => forall|k: int|
                        0 <= k < i ==> (#[trigger] s0.messages[k]).thread_id != thread_id,
                },
            decreases n - i,
        {
            if self.messages[i].thread_id == thread_id {
                found = Some(i);
            }
            i += 1;
        }
        match found {
            Some(j) => {
                let _gone = self.messages.remove(j);
                proof {
                    assert forall|k: int| 0 <= k < self@.messages.len() implies self@.messages[k]
                        == s0.messages.remove(j as int)[k] by {
                        if k < j as int {
                            assert(self.messages@[k] == old(self).messages@[k]);
                        } else {
                            assert(self.messages@[k] == old(self).messages@[k + 1]);
                        }
                    }
                    assert(self@.messages =~= s0.messages.remove(j as int));
                    self.lemma_delete_last_shape(s0, thread_id, j as int);
                }
                Ok(())
            },
            None => {
                proof {
                    lemma_filter_none(s0.messages, in_thread(thread_id));
                }
                Ok(())
            },
        }
    }

    /// The shape of the store after removing the last message of a thread.
    #[verifier::rlimit(100)]
    proof fn lemma_delete_last_shape(&self, s0: StoreModel, t: i64, j: int)
        requires
            store_inv(s0),
            0 <= j < s0.messages.len(),
            s0.messages[j].thread_id == t,
            forall|k: int| j < k < s0.messages.len() ==> (#[trigger] s0.messages[k]).thread_id != t,
            self@.messages == s0.messages.remove(j),
            self@.threads == s0.threads,
            self@.next_thread_id == s0.next_thread_id,
            self@.next_message_id == s0.next_message_id,
        ensures
            store_inv(self@),
            thread_messages(s0, t).len() > 0,
            last_index_in_thread(s0.messages, t) == j,
            thread_messages(self@, t) == thread_messages(s0, t).drop_last(),
            forall|t2: i64|
                t2 != t ==> thread_messages(self@, t2) == thread_messages(s0, t2),
    {
        let s1 = self@;
        let x = s0.messages[j];
        let a = s0.messages.take(j);
        let b = s0.messages.skip(j + 1);
        assert(s0.messages =~= a + seq![x] + b);
        assert(s1.messages =~= a + b);
        // the chosen index is ours
        assert(0 <= j < s0.messages.len() && (s0.messages[j]).thread_id == t && (forall|k: int|
            j < k < s0.messages.len() ==> (#[trigger] s0.messages[k]).thread_id != t));
        let jc = last_index_in_thread(s0.messages, t);
        assert(0 <= jc < s0.messages.len() && (s0.messages[jc]).thread_id == t && (forall|k: int|
            jc < k < s0.messages.len() ==> (#[trigger] s0.messages[k]).thread_id != t));
        if jc < j {
            assert(s0.messages[j].thread_id != t);
        } else if j < jc {
            assert(s0.messages[jc].thread_id != t);
        }
        assert(jc == j);
        // split the filters around the removed element
        assert forall|t2: i64| true implies #[trigger] (a + seq![x] + b).filter(in_thread(t2))
            == a.filter(in_thread(t2)) + seq![x].filter(in_thread(t2)) + b.filter(
            in_thread(t2),
        ) by {
            Seq::filter_distributes_over_add(a + seq![x], b, in_thread(t2));
            Seq::filter_distributes_over_add(a, seq![x], in_thread(t2));
        }
        assert forall|t2: i64| true implies #[trigger] (a + b).filter(in_thread(t2)) == a.filter(
            in_thread(t2),
        ) + b.filter(in_thread(t2)) by {
            Seq::filter_distributes_over_add(a, b, in_thread(t2));
        }
        assert(seq![x] =~= Seq::<MessageV>::empty().push(x));
        lemma_filter_push(Seq::<MessageV>::empty(), in_thread(t), x);
        reveal(Seq::filter);
        assert(Seq::<MessageV>::empty().filter(in_thread(t)) =~= Seq::<MessageV>::empty());
        assert(seq![x].filter(in_thread(t)) =~= seq![x]);
        assert forall|k: int| 0 <= k < b.len() implies !in_thread(t)(#[trigger] b[k]) by {
            assert(b[k] == s0.messages[j + 1 + k]);
        }
        lemma_filter_none(b, in_thread(t));
        assert(thread_messages(s0, t) =~= a.filter(in_thread(t)).push(x));
        assert(thread_messages(s1, t) =~= a.filter(in_thread(t)));
        assert(thread_messages(s1, t) =~= thread_messages(s0, t).drop_last());
        assert(thread_messages(s0, t).len() > 0);
        // other threads: the singleton contributes nothing
        assert forall|t2: i64| t2 != t implies thread_messages(s1, t2) == thread_messages(
            s0,
            t2,
        ) by {
            lemma_filter_push(Seq::<MessageV>::empty(), in_thread(t2), x);
            assert(Seq::<MessageV>::empty().filter(in_thread(t2)) =~= Seq::<MessageV>::empty());
            assert(seq![x].filter(in_thread(t2)) =~= Seq::<MessageV>::empty());
            assert(thread_messages(s1, t2) =~= thread_messages(s0, t2));
        }
        // the invariant survives the removal
        assert forall|k: int, l: int|
            #![trigger s1.messages[k], s1.messages[l]]
            0 <= k < l < s1.messages.len() implies s1.messages[k].id < s1.messages[l].id by {
            let k0 = if k < j { k } else { k + 1 };
            let l0 = if l < j { l } else { l + 1 };
            assert(s1.messages[k] == s0.messages[k0]);
            assert(s1.messages[l] == s0.messages[l0]);
        }
        assert forall|k: int| 0 <= k < s1.messages.len() implies 1 <= (
        #[trigger] s1.messages[k]).id < s1.next_message_id by {
            let k0 = if k < j { k } else { k + 1 };
            assert(s1.messages[k] == s0.messages[k0]);
        }
        assert forall|k: int| 0 <= k < s1.messages.len() implies has_thread(
            s1,
            (#[trigger] s1.messages[k]).thread_id,
        ) by {
            let k0 = if k < j { k } else { k + 1 };
            assert(s1.messages[k] == s0.messages[k0]);
            assert(has_thread(s0, s0.messages[k0].thread_id));
            let w = choose|w: int|
                0 <= w < s0.threads.len() && (#[trigger] s0.threads[w]).id
                    == s0.messages[k0].thread_id;
            assert((s1.threads[w]).id == s1.messages[k].thread_id);
        }
        assert forall|k: int| 0 <= k < s1.messages.len() implies match (
        #[trigger] s1.messages[k]).reply_to_id {
            Some(rr) => rr < s1.messages[k].id && has_msg(s1.messages, s1.messages[k].thread_id, rr),
            None => true,
        } by {
            let k0 = if k < j { k } else { k + 1 };
            assert(s1.messages[k] == s0.messages[k0]);
            match s0.messages[k0].reply_to_id {
                Some(rr) => {
                    let w = choose|w: int|
                        0 <= w < s0.messages.len() && (#[trigger] s0.messages[w]).id == rr
                            && s0.messages[w].thread_id == s0.messages[k0].thread_id;
                    // the referenced message is not the removed one
                    assert(rr < s0.messages[k0].id);
                    if w == j {
                        // then the referencing message sits in thread t after
                        // position j, which the choice of j rules out, unless
                        // it sits before j with a larger identifier, which the
                        // ordering rules out
                        assert(s0.messages[k0].thread_id == t);
                        if k0 > j {
                            assert(s0.messages[k0].thread_id != t);
                        } else {
                            assert(s0.messages[k0].id < s0.messages[j].id);
                        }
                        assert(false);
                    }
                    let w1 = if w < j { w } else { w - 1 };
                    assert(s1.messages[w1] == s0.messages[w]);
                    assert((s1.messages[w1]).id == rr);
                },
                None => {},
            }
        }
    }
}

/// Within one thread, the listing is strictly ordered by identifier; since
/// identifiers are handed out monotonically, the listing order is the
/// insertion order, which stands in for non-decreasing creation time.
pub proof fn lemma_thread_messages_ordered(s: StoreModel, t: i64)
    requires
        store_inv(s),
    ensures
        forall|i: int, j: int|
            #![trigger thread_messages(s, t)[i], thread_messages(s, t)[j]]
            0 <= i < j < thread_messages(s, t).len() ==> thread_messages(s, t)[i].id
                < thread_messages(s, t)[j].id,
{
    lemma_filter_keeps_increasing(s.messages, in_thread(t), |m: MessageV| m.id as int);
}


/// On an identifier-sorted message sequence, keeping the messages with
/// identifier at most that of position `k` keeps exactly the prefix through
/// `k`, and keeping those strictly below keeps exactly the prefix before it.
pub proof fn lemma_sorted_filter_is_take(ms: Seq<MessageV>, cut: i64, k: int)
    requires
        forall|i: int, j: int|
            #![trigger ms[i], ms[j]]
            0 <= i < j < ms.len() ==> ms[i].id < ms[j].id,
        0 <= k < ms.len(),
        ms[k].id == cut,
    ensures
        ms.filter(id_at_most(cut)) == ms.take(k + 1),
        ms.filter(id_below(cut)) == ms.take(k),
    decreases ms.len(),
{
    reveal(Seq::filter);
    let d = ms.drop_last();
    let l = ms.last();
    if k == ms.len() - 1 {
        assert forall|i: int| 0 <= i < d.len() implies id_at_most(cut)(#[trigger] d[i]) by {
            assert(d[i] == ms[i]);
            assert(ms[i].id < ms[k].id);
        }
        assert forall|i: int| 0 <= i < d.len() implies id_below(cut)(#[trigger] d[i]) by {
            assert(d[i] == ms[i]);
            assert(ms[i].id < ms[k].id);
        }
        lemma_filter_all(d, id_at_most(cut));
        lemma_filter_all(d, id_below(cut));
        assert(l == ms[k]);
        assert(ms.filter(id_at_most(cut)) == d.push(l));
        assert(d.push(l) =~= ms.take(k + 1));
        assert(ms.filter(id_below(cut)) == d);
        assert(d =~= ms.take(k));
    } else {
        assert forall|i: int, j: int|
            #![trigger d[i], d[j]]
            0 <= i < j < d.len() implies d[i].id < d[j].id by {
            assert(d[i] == ms[i]);
            assert(d[j] == ms[j]);
        }
        assert(d[k] == ms[k]);
        lemma_sorted_filter_is_take(d, cut, k);
        assert(l == ms[ms.len() - 1]);
        assert(ms[k].id < l.id);
        assert(!id_at_most(cut)(l));
        assert(!id_below(cut)(l));
        assert(ms.filter(id_at_most(cut)) == d.filter(id_at_most(cut)));
        assert(ms.filter(id_below(cut)) == d.filter(id_below(cut)));
        assert(d.take(k + 1) =~= ms.take(k + 1));
        assert(d.take(k) =~= ms.take(k));
    }
}

/// The suffix deletions keep, in the literal sense, a prefix of the
/// thread's listing: through the named message for the one that keeps it,
/// up to it for the one that removes it.
pub proof fn lemma_retained_is_a_prefix(s: StoreModel, t: i64, mid: i64, k: int)
    requires
        store_inv(s),
        0 <= k < thread_messages(s, t).len(),
        thread_messages(s, t)[k].id == mid,
    ensures
        thread_messages(s, t).filter(id_at_most(mid)) == thread_messages(s, t).take(k + 1),
        thread_messages(s, t).filter(id_below(mid)) == thread_messages(s, t).take(k),
{
    lemma_thread_messages_ordered(s, t);
    lemma_sorted_filter_is_take(thread_messages(s, t), mid, k);
}

/// An edit keeps, in the literal sense, the prefix of the thread's listing
/// through the edited message, that message's content replaced.
pub proof fn lemma_edit_keeps_a_prefix(s: StoreModel, t: i64, mid: i64, c: Seq<char>, k: int)
    requires
        store_inv(s),
        0 <= k < thread_messages(s, t).len(),
        thread_messages(s, t)[k].id == mid,
    ensures
        thread_messages(s, t).map_values(with_content(mid, c)).filter(id_at_most(mid))
            == thread_messages(s, t).take(k + 1).map_values(with_content(mid, c)),
{
    let tm = thread_messages(s, t);
    let mapped = tm.map_values(with_content(mid, c));
    lemma_thread_messages_ordered(s, t);
    assert forall|i: int, j: int|
        #![trigger mapped[i], mapped[j]]
        0 <= i < j < mapped.len() implies mapped[i].id < mapped[j].id by {
        assert(mapped[i] == with_content(mid, c)(tm[i]));
        assert(mapped[j] == with_content(mid, c)(tm[j]));
    }
    assert(mapped[k] == with_content(mid, c)(tm[k]));
    lemma_sorted_filter_is_take(mapped, mid, k);
    assert(mapped.take(k + 1) =~= tm.take(k + 1).map_values(with_content(mid, c)));
}

} // verus!
