use vstd::prelude::*;
use crate::error::MessagingError;
use crate::guard::{
    distinct_principals, is_stale, rate_limited, timestamp_out_of_tolerance, valid_nonce_records,
    window_after, NonceRecord, NonceRegistry, RateLimit, RateLimiter, WindowView,
};
use crate::model::{Conversation, ConversationView, Message, MessageView, UserKey, UserKeyView};

verus! {

/// Conversations with pairwise distinct ids.
pub open spec fn distinct_ids(s: Seq<Conversation>) -> bool {
    forall|i: int, j: int|
        0 <= i < s.len() && 0 <= j < s.len() && (#[trigger] s[i]).id@ == (#[trigger] s[j]).id@ ==> i
            == j
}

/// The conversation with id `id`, if any.
pub open spec fn conversation_of(s: Seq<Conversation>, id: Seq<char>) -> Option<ConversationView> {
    if exists|i: int| 0 <= i < s.len() && (#[trigger] s[i]).id@ == id {
        Some(s[choose|i: int| 0 <= i < s.len() && (#[trigger] s[i]).id@ == id]@)
    } else {
        None
    }
}

/// Key records with pairwise distinct owners.
pub open spec fn distinct_owners(s: Seq<UserKey>) -> bool {
    forall|i: int, j: int|
        0 <= i < s.len() && 0 <= j < s.len() && (#[trigger] s[i]).user_id@ == (#[trigger] s[j]).user_id@
            ==> i == j
}

/// The key record of `p`, if any.
pub open spec fn user_key_of(s: Seq<UserKey>, p: Seq<u8>) -> Option<UserKeyView> {
    if exists|i: int| 0 <= i < s.len() && (#[trigger] s[i]).user_id@ == p {
        Some(s[choose|i: int| 0 <= i < s.len() && (#[trigger] s[i]).user_id@ == p]@)
    } else {
        None
    }
}

/// The contents of each message, in order.
pub open spec fn message_views(s: Seq<Message>) -> Seq<MessageView> {
    s.map_values(|m: Message| m@)
}

/// The contents of each conversation, in order.
pub open spec fn conversation_views(s: Seq<Conversation>) -> Seq<ConversationView> {
    s.map_values(|c: Conversation| c@)
}

proof fn lemma_conversation_at(s: Seq<Conversation>, i: int)
    requires
        distinct_ids(s),
        0 <= i < s.len(),
    ensures
        conversation_of(s, s[i].id@) == Some(s[i]@),
{
    assert(exists|k: int| 0 <= k < s.len() && (#[trigger] s[k]).id@ == s[i].id@);
}

proof fn lemma_user_key_at(s: Seq<UserKey>, i: int)
    requires
        distinct_owners(s),
        0 <= i < s.len(),
    ensures
        user_key_of(s, s[i].user_id@) == Some(s[i]@),
{
    assert(exists|k: int| 0 <= k < s.len() && (#[trigger] s[k]).user_id@ == s[i].user_id@);
}

/// The same stored messages.
pub open spec fn same_messages(a: MessagingStore, b: MessagingStore) -> bool {
    a.messages_view() == b.messages_view()
}

/// The same stored conversations.
pub open spec fn same_conversations(a: MessagingStore, b: MessagingStore) -> bool {
    &&& a.conversations_view() == b.conversations_view()
    &&& forall|id: Seq<char>| #[trigger] a.conversation(id) == b.conversation(id)
}

/// The same key records.
pub open spec fn same_user_keys(a: MessagingStore, b: MessagingStore) -> bool {
    &&& a.user_key_count() == b.user_key_count()
    &&& forall|p: Seq<u8>| #[trigger] a.user_key(p) == b.user_key(p)
}

/// The same call windows.
pub open spec fn same_windows(a: MessagingStore, b: MessagingStore) -> bool {
    forall|p: Seq<u8>| #[trigger] a.rate_window(p) == b.rate_window(p)
}

/// The same recorded nonces.
pub open spec fn same_nonces(a: MessagingStore, b: MessagingStore) -> bool {
    forall|n: Seq<char>| #[trigger] a.nonce_seen(n) == b.nonce_seen(n)
}

/// The nonces recorded after accepting `nonce` with `timestamp` at `now`: it is
/// added and stale records are dropped.
pub open spec fn nonces_after(a: MessagingStore, nonce: Seq<char>, timestamp: u64, now: u64, n: Seq<char>) -> Option<u64> {
    if n == nonce {
        Some(timestamp)
    } else {
        match a.nonce_seen(n) {
            Some(t) => if is_stale(t, now) {
                None
            } else {
                Some(t)
            },
            None => None,
        }
    }
}

fn self_has(store: &MessagingStore, c: &Conversation) -> (r: bool)
    requires
        store.wf(),
    ensures
        r == store.conversation(c.id@) is Some,
{
    store.find_conversation(c.id.as_str()).is_some()
}

/// The durable state: messages, conversations, key records, call windows and nonces.
pub struct MessagingStore {
    pub(crate) id_counter: u64,
    pub(crate) messages: Vec<Message>,
    pub(crate) conversations: Vec<Conversation>,
    pub(crate) user_keys: Vec<UserKey>,
    pub(crate) rate_limits: RateLimiter,
    pub(crate) nonces: NonceRegistry,
}

impl MessagingStore {
    /// Message ids are 1, 2, ... in storage order and the counter holds the last
    /// one; conversation ids and key owners are distinct.
    pub closed spec fn wf(&self) -> bool {
        &&& self.id_counter == self.messages@.len()
        &&& forall|i: int| 0 <= i < self.messages@.len() ==> (#[trigger] self.messages@[i]).id == i + 1
        &&& distinct_ids(self.conversations@)
        &&& distinct_owners(self.user_keys@)
        &&& self.rate_limits.wf()
        &&& self.nonces.wf()
    }

    /// Every stored message, in id order.
    pub closed spec fn messages_view(&self) -> Seq<MessageView> {
        message_views(self.messages@)
    }

    /// The message with id `id`, if any.
    pub open spec fn message(&self, id: u64) -> Option<MessageView> {
        if 1 <= id <= self.messages_view().len() {
            Some(self.messages_view()[id - 1])
        } else {
            None
        }
    }

    /// Every stored conversation, in storage order.
    pub closed spec fn conversations_view(&self) -> Seq<ConversationView> {
        conversation_views(self.conversations@)
    }

    /// The conversation with id `id`, if any.
    pub closed spec fn conversation(&self, id: Seq<char>) -> Option<ConversationView> {
        conversation_of(self.conversations@, id)
    }

    /// The key record of `p`, if any.
    pub closed spec fn user_key(&self, p: Seq<u8>) -> Option<UserKeyView> {
        user_key_of(self.user_keys@, p)
    }

    /// The number of key records.
    pub closed spec fn user_key_count(&self) -> nat {
        self.user_keys@.len()
    }

    /// The call window of `p`, if any.
    pub closed spec fn rate_window(&self, p: Seq<u8>) -> Option<WindowView> {
        self.rate_limits.window(p)
    }

    /// The timestamp recorded for nonce `n`, if any.
    pub closed spec fn nonce_seen(&self, n: Seq<char>) -> Option<u64> {
        self.nonces.seen(n)
    }

    /// An empty store.
    pub fn new() -> (r: MessagingStore)
        ensures
            r.wf(),
            r.messages_view().len() == 0,
            r.conversations_view().len() == 0,
            r.user_key_count() == 0,
            forall|id: Seq<char>| #[trigger] r.conversation(id) is None,
            forall|p: Seq<u8>| #[trigger] r.user_key(p) is None,
            forall|p: Seq<u8>| #[trigger] r.rate_window(p) is None,
            forall|n: Seq<char>| #[trigger] r.nonce_seen(n) is None,
    {
        MessagingStore {
            id_counter: 0,
            messages: Vec::new(),
            conversations: Vec::new(),
            user_keys: Vec::new(),
            rate_limits: RateLimiter::new(),
            nonces: NonceRegistry::new(),
        }
    }

    /// The conversation list is what `conversations_view` shows and each id
    /// resolves to its entry.
    pub(crate) proof fn lemma_conversation_index(&self, i: int)
        requires
            self.wf(),
            0 <= i < self.conversations@.len(),
        ensures
            self.conversation(self.conversations@[i].id@) == Some(self.conversations@[i]@),
            self.conversations_view()[i] == self.conversations@[i]@,
    {
        lemma_conversation_at(self.conversations@, i);
    }

    /// Index of the conversation with id `id`.
    pub(crate) fn find_conversation(&self, id: &str) -> (r: Option<usize>)
        requires
            self.wf(),
        ensures
            r matches Some(i) ==> i < self.conversations_view().len() && self.conversations_view()[i as int].id
                == id@ && self.conversation(id@) == Some(self.conversations_view()[i as int]),
            r is None ==> self.conversation(id@) is None,
    {
        let key = id.to_string();
        let mut i: usize = 0;
        while i < self.conversations.len()
            invariant
                i <= self.conversations@.len(),
                self.wf(),
                key@ == id@,
                forall|k: int| 0 <= k < i ==> (#[trigger] self.conversations@[k]).id@ != id@,
            decreases self.conversations.len() - i,
        {
            if self.conversations[i].id == key {
                proof {
                    lemma_conversation_at(self.conversations@, i as int);
                    assert(self.conversations_view()[i as int] == self.conversations@[i as int]@);
                }
                return Some(i);
            }
            i = i + 1;
        }
        None
    }

    /// Replaces the conversation at index `i` with one of the same id.
    pub(crate) fn put_conversation(&mut self, i: usize, c: Conversation)
        requires
            old(self).wf(),
            i < old(self).conversations_view().len(),
            c.id@ == old(self).conversations_view()[i as int].id,
        ensures
            final(self).wf(),
            final(self).conversation(c.id@) == Some(c@),
            forall|id: Seq<char>| id != c.id@ ==> #[trigger] final(self).conversation(id) == old(self).conversation(id),
            final(self).conversations_view() == old(self).conversations_view().update(i as int, c@),
            final(self).messages_view() == old(self).messages_view(),
            final(self).user_key_count() == old(self).user_key_count(),
            forall|p: Seq<u8>| #[trigger] final(self).user_key(p) == old(self).user_key(p),
            forall|p: Seq<u8>| #[trigger] final(self).rate_window(p) == old(self).rate_window(p),
            forall|n: Seq<char>| #[trigger] final(self).nonce_seen(n) == old(self).nonce_seen(n),
    {
        let ghost before = self.conversations@;
        let ghost key = c.id@;
        self.conversations.set(i, c);
        proof {
            let after = self.conversations@;
            assert(distinct_ids(after));
            lemma_conversation_at(after, i as int);
            assert forall|id: Seq<char>| id != key implies #[trigger] conversation_of(after, id)
                == conversation_of(before, id) by {
                if exists|k: int| 0 <= k < before.len() && (#[trigger] before[k]).id@ == id {
                    let k = choose|k: int| 0 <= k < before.len() && (#[trigger] before[k]).id@ == id;
                    lemma_conversation_at(before, k);
                    lemma_conversation_at(after, k);
                }
            }
            assert(conversation_views(after) =~= conversation_views(before).update(i as int, after[i as int]@));
        }
    }

    /// Adds a conversation with a new id.
    pub(crate) fn add_conversation(&mut self, c: Conversation)
        requires
            old(self).wf(),
            old(self).conversation(c.id@) is None,
        ensures
            final(self).wf(),
            final(self).conversation(c.id@) == Some(c@),
            forall|id: Seq<char>| id != c.id@ ==> #[trigger] final(self).conversation(id) == old(self).conversation(id),
            final(self).conversations_view() == old(self).conversations_view().push(c@),
            final(self).messages_view() == old(self).messages_view(),
            final(self).user_key_count() == old(self).user_key_count(),
            forall|p: Seq<u8>| #[trigger] final(self).user_key(p) == old(self).user_key(p),
            forall|p: Seq<u8>| #[trigger] final(self).rate_window(p) == old(self).rate_window(p),
            forall|n: Seq<char>| #[trigger] final(self).nonce_seen(n) == old(self).nonce_seen(n),
    {
        let ghost before = self.conversations@;
        let ghost key = c.id@;
        self.conversations.push(c);
        proof {
            let after = self.conversations@;
            assert forall|k: int| 0 <= k < before.len() implies (#[trigger] before[k]).id@ != key by {
                if before[k].id@ == key {
                    assert(conversation_of(before, key) is Some);
                }
            }
            assert(distinct_ids(after));
            lemma_conversation_at(after, before.len() as int);
            assert forall|id: Seq<char>| id != key implies #[trigger] conversation_of(after, id)
                == conversation_of(before, id) by {
                if exists|k: int| 0 <= k < before.len() && (#[trigger] before[k]).id@ == id {
                    let k = choose|k: int| 0 <= k < before.len() && (#[trigger] before[k]).id@ == id;
                    lemma_conversation_at(before, k);
                    lemma_conversation_at(after, k);
                } else {
                    assert forall|k: int| 0 <= k < after.len() implies (#[trigger] after[k]).id@ != id by {
                        if k < before.len() {
                            assert(before[k] == after[k]);
                        }
                    }
                }
            }
            assert(conversation_views(after) =~= conversation_views(before).push(after.last()@));
        }
    }

    /// Index of the key record of `p`.
    pub(crate) fn find_user_key(&self, p: &crate::principal::Principal) -> (r: Option<usize>)
        requires
            self.wf(),
        ensures
            r matches Some(i) ==> i < self.user_keys@.len() && self.user_key(p@) == Some(
                self.user_keys@[i as int]@,
            ),
            r is None ==> self.user_key(p@) is None,
    {
        let mut i: usize = 0;
        while i < self.user_keys.len()
            invariant
                i <= self.user_keys@.len(),
                self.wf(),
                forall|k: int| 0 <= k < i ==> (#[trigger] self.user_keys@[k]).user_id@ != p@,
            decreases self.user_keys.len() - i,
        {
            if self.user_keys[i].user_id.same_as(p) {
                proof {
                    lemma_user_key_at(self.user_keys@, i as int);
                }
                return Some(i);
            }
            i = i + 1;
        }
        None
    }

    /// Stores `k` as the key record of its owner, replacing any earlier one.
    pub(crate) fn upsert_user_key(&mut self, k: UserKey)
        requires
            old(self).wf(),
        ensures
            final(self).wf(),
            final(self).user_key(k.user_id@) == Some(k@),
            forall|p: Seq<u8>| p != k.user_id@ ==> #[trigger] final(self).user_key(p) == old(self).user_key(p),
            final(self).messages_view() == old(self).messages_view(),
            final(self).conversations_view() == old(self).conversations_view(),
            forall|id: Seq<char>| #[trigger] final(self).conversation(id) == old(self).conversation(id),
            forall|p: Seq<u8>| #[trigger] final(self).rate_window(p) == old(self).rate_window(p),
            forall|n: Seq<char>| #[trigger] final(self).nonce_seen(n) == old(self).nonce_seen(n),
    {
        let ghost before = self.user_keys@;
        let ghost owner = k.user_id@;
        match self.find_user_key(&k.user_id) {
            Some(i) => {
                proof {
                    lemma_user_key_at(before, i as int);
                }
                self.user_keys.set(i, k);
                proof {
                    let after = self.user_keys@;
                    assert(distinct_owners(after));
                    lemma_user_key_at(after, i as int);
                    assert forall|p: Seq<u8>| p != owner implies #[trigger] user_key_of(after, p)
                        == user_key_of(before, p) by {
                        if exists|m: int| 0 <= m < before.len() && (#[trigger] before[m]).user_id@ == p {
                            let m = choose|m: int| 0 <= m < before.len() && (#[trigger] before[m]).user_id@ == p;
                            lemma_user_key_at(before, m);
                            lemma_user_key_at(after, m);
                        }
                    }
                }
            },
            None => {
                self.user_keys.push(k);
                proof {
                    let after = self.user_keys@;
                    assert forall|m: int| 0 <= m < before.len() implies (#[trigger] before[m]).user_id@ != owner by {
                        if before[m].user_id@ == owner {
                            assert(user_key_of(before, owner) is Some);
                        }
                    }
                    assert(distinct_owners(after));
                    lemma_user_key_at(after, before.len() as int);
                    assert forall|p: Seq<u8>| p != owner implies #[trigger] user_key_of(after, p)
                        == user_key_of(before, p) by {
                        if exists|m: int| 0 <= m < before.len() && (#[trigger] before[m]).user_id@ == p {
                            let m = choose|m: int| 0 <= m < before.len() && (#[trigger] before[m]).user_id@ == p;
                            lemma_user_key_at(before, m);
                            lemma_user_key_at(after, m);
                        } else {
                            assert forall|m: int| 0 <= m < after.len() implies (#[trigger] after[m]).user_id@ != p by {
                                if m < before.len() {
                                    assert(before[m] == after[m]);
                                }
                            }
                        }
                    }
                }
            },
        }
    }

    /// Counts a call by `p` against its window; see `RateLimiter::check_rate_limit`.
    pub(crate) fn record_call(&mut self, p: &crate::principal::Principal, max_calls: u32, window_ms: u64, now: u64) -> (r:
        Result<(), MessagingError>)
        requires
            old(self).wf(),
        ensures
            final(self).wf(),
            r is Err <==> rate_limited(old(self).rate_window(p@), max_calls, window_ms, now),
            r is Err ==> r == Err::<(), MessagingError>(MessagingError::RateLimit) && *final(self)
                == *old(self),
            r is Ok ==> final(self).rate_window(p@) == Some(window_after(old(self).rate_window(p@), window_ms, now)),
            forall|q: Seq<u8>| q != p@ ==> #[trigger] final(self).rate_window(q) == old(self).rate_window(q),
            same_messages(*final(self), *old(self)),
            same_conversations(*final(self), *old(self)),
            same_user_keys(*final(self), *old(self)),
            same_nonces(*final(self), *old(self)),
    {
        self.rate_limits.check_rate_limit(p, max_calls, window_ms, now)
    }

    /// Accepts a nonce; see `NonceRegistry::validate_nonce`.
    pub(crate) fn accept_nonce(&mut self, nonce: &str, timestamp: u64, now: u64) -> (r: Result<(), MessagingError>)
        requires
            old(self).wf(),
        ensures
            final(self).wf(),
            nonce@.len() == 0 ==> r == Err::<(), MessagingError>(MessagingError::Validation),
            nonce@.len() > 0 ==> (r is Err <==> (timestamp_out_of_tolerance(timestamp, now) || old(
            self).nonce_seen(nonce@) is Some)),
            nonce@.len() > 0 && r is Err ==> r == Err::<(), MessagingError>(MessagingError::Replay),
            r is Ok ==> nonce@.len() > 0,
            r is Err ==> same_nonces(*final(self), *old(self)),
            r is Ok ==> forall|n: Seq<char>| #[trigger] final(self).nonce_seen(n) == nonces_after(*old(self), nonce@, timestamp, now, n),
            same_messages(*final(self), *old(self)),
            same_conversations(*final(self), *old(self)),
            same_user_keys(*final(self), *old(self)),
            same_windows(*final(self), *old(self)),
    {
        self.nonces.validate_nonce(nonce, timestamp, now)
    }

    /// The number of stored messages.
    pub fn message_count(&self) -> (r: usize)
        ensures
            r == self.messages_view().len(),
    {
        self.messages.len()
    }

    /// The number of stored conversations.
    pub fn conversation_count(&self) -> (r: usize)
        ensures
            r == self.conversations_view().len(),
    {
        self.conversations.len()
    }

    /// The number of key records.
    pub fn user_key_total(&self) -> (r: usize)
        ensures
            r == self.user_key_count(),
    {
        self.user_keys.len()
    }

    /// The id the next stored message receives: one past the last one. The
    /// counter itself advances when that message is stored.
    pub fn next_message_id(&self) -> (r: u64)
        requires
            self.wf(),
            self.messages_view().len() < u64::MAX,
        ensures
            r == self.messages_view().len() + 1,
    {
        self.id_counter + 1
    }

    /// The stored message at position `i` (its id is `i + 1`).
    pub(crate) fn message_at(&self, i: usize) -> (r: &Message)
        requires
            self.wf(),
            i < self.messages_view().len(),
        ensures
            r@ == self.messages_view()[i as int],
            r.id == i + 1,
    {
        &self.messages[i]
    }

    /// The stored conversation at position `i`.
    pub(crate) fn conversation_at(&self, i: usize) -> (r: &Conversation)
        requires
            self.wf(),
            i < self.conversations_view().len(),
        ensures
            r@ == self.conversations_view()[i as int],
            self.conversation(r.id@) == Some(r@),
    {
        proof {
            lemma_conversation_at(self.conversations@, i as int);
        }
        &self.conversations[i]
    }

    /// Stores a message under the next id.
    pub(crate) fn insert_message(&mut self, m: Message)
        requires
            old(self).wf(),
            old(self).messages_view().len() < u64::MAX,
            m.id == old(self).messages_view().len() + 1,
        ensures
            final(self).wf(),
            final(self).messages_view() == old(self).messages_view().push(m@),
            same_conversations(*final(self), *old(self)),
            same_user_keys(*final(self), *old(self)),
            same_windows(*final(self), *old(self)),
            same_nonces(*final(self), *old(self)),
    {
        let ghost before = self.messages@;
        self.messages.push(m);
        self.id_counter = self.id_counter + 1;
        assert(message_views(self.messages@) =~= message_views(before).push(self.messages@.last()@));
    }

    /// Replaces the stored message with id `id` by `m`, which keeps that id.
    pub(crate) fn replace_message(&mut self, id: u64, m: Message)
        requires
            old(self).wf(),
            1 <= id <= old(self).messages_view().len(),
            m.id == id,
        ensures
            final(self).wf(),
            final(self).messages_view() == old(self).messages_view().update(id - 1, m@),
            same_conversations(*final(self), *old(self)),
            same_user_keys(*final(self), *old(self)),
            same_windows(*final(self), *old(self)),
            same_nonces(*final(self), *old(self)),
    {
        let ghost before = self.messages@;
        let n = self.messages.len();
        assert(message_views(before).len() == before.len());
        assert((id - 1) < n);
        let idx = (id - 1) as usize;
        self.messages.set(idx, m);
        assert(message_views(self.messages@) =~= message_views(before).update(id - 1, self.messages@[id - 1]@));
    }

    /// Stored messages have ids 1, 2, ... in storage order.
    pub proof fn lemma_message_ids(&self)
        requires
            self.wf(),
        ensures
            forall|i: int| 0 <= i < self.messages_view().len() ==> (#[trigger] self.messages_view()[i]).id == i + 1,
            forall|id: u64| #[trigger] self.message(id) matches Some(m) ==> m.id == id,
    {
    }

    /// Only non-empty nonces are recorded.
    pub proof fn lemma_recorded_nonces_nonempty(&self, n: Seq<char>)
        requires
            self.wf(),
        ensures
            self.nonce_seen(n) is Some ==> n.len() > 0,
    {
        self.nonces.lemma_recorded_nonempty(n);
    }

    /// The call windows.
    pub fn rate_limit_list(&self) -> (r: &[RateLimit])
        requires
            self.wf(),
        ensures
            forall|i: int| 0 <= i < r@.len() ==> self.rate_window((#[trigger] r@[i]).principal@) == Some(
                WindowView {
                    call_count: r@[i].call_count,
                    window_start: r@[i].window_start,
                    window_duration: r@[i].window_duration,
                },
            ),
    {
        self.rate_limits.records()
    }

    /// The recorded nonces.
    pub fn nonce_list(&self) -> (r: &[NonceRecord])
        requires
            self.wf(),
        ensures
            forall|i: int| 0 <= i < r@.len() ==> self.nonce_seen((#[trigger] r@[i]).nonce@) == Some(r@[i].timestamp),
    {
        self.nonces.entries()
    }

    /// The stored messages, in id order.
    pub fn message_list(&self) -> (r: &[Message])
        ensures
            message_views(r@) == self.messages_view(),
    {
        self.messages.as_slice()
    }

    /// The stored conversations, in storage order.
    pub fn conversation_list(&self) -> (r: &[Conversation])
        ensures
            conversation_views(r@) == self.conversations_view(),
    {
        self.conversations.as_slice()
    }

    /// The key records.
    pub fn user_key_list(&self) -> (r: &[UserKey])
        requires
            self.wf(),
        ensures
            r@.len() == self.user_key_count(),
            forall|i: int| 0 <= i < r@.len() ==> self.user_key((#[trigger] r@[i]).user_id@) == Some(r@[i]@),
    {
        proof {
            assert forall|i: int| 0 <= i < self.user_keys@.len() implies self.user_key(
                (#[trigger] self.user_keys@[i]).user_id@,
            ) == Some(self.user_keys@[i]@) by {
                lemma_user_key_at(self.user_keys@, i);
            }
        }
        self.user_keys.as_slice()
    }

    /// Rebuilds a store from saved records. `None` when conversation ids
    /// repeat, message ids are not 1, 2, ... in order, an identity has two call
    /// windows, or a nonce is empty or repeats; a later key record for the same
    /// owner replaces an earlier one.
    pub fn restore(
        conversations: Vec<Conversation>,
        messages: Vec<Message>,
        user_keys: Vec<UserKey>,
        rate_limits: Vec<RateLimit>,
        nonces: Vec<NonceRecord>,
    ) -> (r: Option<MessagingStore>)
        ensures
            r matches Some(s) ==> s.wf() && s.conversations_view() == conversation_views(conversations@)
                && s.messages_view() == message_views(messages@),
            r matches Some(s) ==> forall|i: int| 0 <= i < user_keys@.len() ==> #[trigger] s.user_key(
                user_keys@[i].user_id@,
            ) is Some,
            r matches Some(s) ==> forall|i: int| 0 <= i < rate_limits@.len() ==> s.rate_window(
                (#[trigger] rate_limits@[i]).principal@,
            ) == Some(
                WindowView {
                    call_count: rate_limits@[i].call_count,
                    window_start: rate_limits@[i].window_start,
                    window_duration: rate_limits@[i].window_duration,
                },
            ),
            r matches Some(s) ==> forall|i: int| 0 <= i < nonces@.len() ==> s.nonce_seen(
                (#[trigger] nonces@[i]).nonce@,
            ) == Some(nonces@[i].timestamp),
            r is None ==> !distinct_ids(conversations@) || (exists|i: int|
                0 <= i < messages@.len() && (#[trigger] messages@[i]).id != i + 1)
                || !distinct_principals(rate_limits@) || !valid_nonce_records(nonces@),
    {
        let ghost rls = rate_limits@;
        let ghost ns = nonces@;
        let limiter = match RateLimiter::from_records(rate_limits) {
            Some(l) => l,
            None => {
                return None;
            },
        };
        let registry = match NonceRegistry::from_entries(nonces) {
            Some(g) => g,
            None => {
                return None;
            },
        };
        let mut store = MessagingStore {
            id_counter: 0,
            messages: Vec::new(),
            conversations: Vec::new(),
            user_keys: Vec::new(),
            rate_limits: limiter,
            nonces: registry,
        };
        assert(store.conversations@ =~= Seq::<Conversation>::empty());
        assert(store.messages@ =~= Seq::<Message>::empty());
        assert(message_views(store.messages@) =~= Seq::<MessageView>::empty());
        assert(store.user_keys@ =~= Seq::<UserKey>::empty());
        let ghost convs = conversations@;
        let ghost msgs = messages@;
        let ghost keys = user_keys@;
        let mut i: usize = 0;
        let total = conversations.len();
        let mut pending = conversations;
        assert(convs.subrange(0, convs.len() as int) =~= convs);
        while pending.len() > 0
            invariant
                store.wf(),
                forall|m: int| 0 <= m < rls.len() ==> store.rate_window((#[trigger] rls[m]).principal@) == Some(
                    WindowView {
                        call_count: rls[m].call_count,
                        window_start: rls[m].window_start,
                        window_duration: rls[m].window_duration,
                    },
                ),
                forall|m: int| 0 <= m < ns.len() ==> store.nonce_seen((#[trigger] ns[m]).nonce@) == Some(ns[m].timestamp),
                i + pending@.len() == convs.len(),
                convs == conversations@,
                convs.len() == total,
                pending@ == convs.subrange(i as int, convs.len() as int),
                store.conversations_view() == conversation_views(convs.take(i as int)),
                store.messages_view().len() == 0,
                distinct_ids(convs.take(i as int)),
                forall|k: int| 0 <= k < i ==> #[trigger] store.conversation(convs[k].id@) is Some,
                forall|id: Seq<char>| #[trigger] store.conversation(id) is Some ==> exists|k: int| 0 <= k < i && convs[k].id@ == id,
            decreases pending.len(),
        {
            let c = pending.remove(0);
            proof {
                assert(c == convs[i as int]);
            }
            if self_has(&store, &c) {
                proof {
                    let k = choose|k: int| 0 <= k < i && convs[k].id@ == c.id@;
                    assert(convs[k].id@ == convs[i as int].id@ && k != i);
                    assert(!distinct_ids(convs));
                }
                return None;
            }
            store.add_conversation(c);
            proof {
                assert(convs.take(i + 1) =~= convs.take(i as int).push(convs[i as int]));
                assert(conversation_views(convs.take(i + 1)) =~= conversation_views(convs.take(i as int)).push(convs[i as int]@));
                assert(pending@ =~= convs.subrange(i + 1, convs.len() as int));
                assert forall|a: int, b: int| 0 <= a < i + 1 && 0 <= b < i + 1 && (#[trigger] convs.take(i + 1)[a]).id@ == (#[trigger] convs.take(i + 1)[b]).id@ implies a == b by {
                    if a < i && b < i {
                        assert(convs.take(i as int)[a] == convs.take(i + 1)[a]);
                        assert(convs.take(i as int)[b] == convs.take(i + 1)[b]);
                    }
                }
            }
            i = i + 1;
        }
        assert(convs.take(convs.len() as int) =~= convs);
        let mut j: usize = 0;
        while j < messages.len()
            invariant
                store.wf(),
                forall|m: int| 0 <= m < rls.len() ==> store.rate_window((#[trigger] rls[m]).principal@) == Some(
                    WindowView {
                        call_count: rls[m].call_count,
                        window_start: rls[m].window_start,
                        window_duration: rls[m].window_duration,
                    },
                ),
                forall|m: int| 0 <= m < ns.len() ==> store.nonce_seen((#[trigger] ns[m]).nonce@) == Some(ns[m].timestamp),
                j <= msgs.len(),
                messages@ == msgs,
                store.conversations_view() == conversation_views(convs),
                store.messages_view() == message_views(msgs.take(j as int)),
                forall|k: int| 0 <= k < j ==> (#[trigger] msgs[k]).id == k + 1,
            decreases messages.len() - j,
        {
            if messages[j].id != j as u64 + 1 {
                return None;
            }
            let m = messages[j].duplicate();
            store.insert_message(m);
            proof {
                assert(msgs.take(j + 1) =~= msgs.take(j as int).push(msgs[j as int]));
                assert(message_views(msgs.take(j + 1)) =~= message_views(msgs.take(j as int)).push(msgs[j as int]@));
            }
            j = j + 1;
        }
        assert(msgs.take(msgs.len() as int) =~= msgs);
        let mut k: usize = 0;
        while k < user_keys.len()
            invariant
                store.wf(),
                forall|m: int| 0 <= m < rls.len() ==> store.rate_window((#[trigger] rls[m]).principal@) == Some(
                    WindowView {
                        call_count: rls[m].call_count,
                        window_start: rls[m].window_start,
                        window_duration: rls[m].window_duration,
                    },
                ),
                forall|m: int| 0 <= m < ns.len() ==> store.nonce_seen((#[trigger] ns[m]).nonce@) == Some(ns[m].timestamp),
                k <= keys.len(),
                user_keys@ == keys,
                store.conversations_view() == conversation_views(convs),
                store.messages_view() == message_views(msgs),
                forall|m: int| 0 <= m < k ==> #[trigger] store.user_key(keys[m].user_id@) is Some,
            decreases user_keys.len() - k,
        {
            let key = user_keys[k].duplicate();
            store.upsert_user_key(key);
            k = k + 1;
        }
        Some(store)
    }
}

} // verus!
