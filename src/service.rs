use vstd::prelude::*;
use vstd::utf8::encode_utf8;
use crate::cipher::encryption_of;
use crate::envelope::{
    decrypt_attachment_data, decrypt_message_content, decrypted_content, envelope_text, seal_text,
};
use crate::error::MessagingError;
use crate::guard::{
    rate_limited, timestamp_out_of_tolerance, window_after, SEND_MAX_CALLS, SEND_WINDOW_MS,
};
use crate::keys::{conversation_id_of, conversation_key_of, derive_conversation_key, generate_conversation_id};
use crate::model::{
    attachment_views, Attachment, AttachmentView, Conversation, ConversationMetadata, EncryptionPurpose,
    PHIEncryptionKey,
    ConversationResult, ConversationType, ConversationView, Message, MessageResult, MessageType,
    MessageView, KeyType, MetadataView, UserKey, UserKeyView,
};
use crate::sizes::{
    conversation_fits, conversation_size, message_fits, message_size, user_key_fits, user_key_size,
    CONVERSATION_MAX_BYTES, MESSAGE_MAX_BYTES, USER_KEY_MAX_BYTES,
};
use crate::text::{
    is_blank, sanitize_text, sanitized, validate_conversation_id, validate_phi_encryption,
    validate_text_length, validate_text_not_empty,
};
use crate::principal::{
    is_participant, member, principal_views, valid_principal, validate_principal,
    validate_principals, Principal,
};
use crate::encoding::{decimal_bytes, decimal_digits};
use crate::hashing::{sha256, sha256_of};
use crate::principal::principal_text_of;
use crate::store::{
    conversation_views, message_views, nonces_after, same_conversations, same_messages, same_nonces, same_user_keys, same_windows,
    MessagingStore,
};

verus! {

/// Whether a list of identities holds at least two distinct ones.
pub open spec fn has_two_distinct(s: Seq<Seq<u8>>) -> bool {
    exists|i: int, j: int| 0 <= i < s.len() && 0 <= j < s.len() && #[trigger] s[i] != #[trigger] s[j]
}

/// A conversation request that passes identity checks: a valid caller, valid
/// participants, the caller among them, and at least two distinct participants.
pub open spec fn conversation_request_ok(caller: Seq<u8>, participants: Seq<Principal>) -> bool {
    &&& valid_principal(caller)
    &&& forall|i: int| 0 <= i < participants.len() ==> valid_principal(#[trigger] participants[i]@)
    &&& member(participants, caller)
    &&& participants.len() >= 2
    &&& has_two_distinct(principal_views(participants))
}

/// The conversation a successful request creates.
pub open spec fn created_conversation(
    participants: Seq<Seq<u8>>,
    conversation_type: ConversationType,
    metadata: MetadataView,
    now: u64,
) -> ConversationView {
    ConversationView {
        id: conversation_id_of(participants),
        participants,
        conversation_type,
        created_at: now,
        updated_at: now,
        last_message_id: None,
        is_archived: false,
        metadata,
    }
}

/// Whether the participants hold two distinct identities.
pub fn two_distinct(participants: &[Principal]) -> (r: bool)
    ensures
        r == has_two_distinct(principal_views(participants@)),
{
    let ghost v = principal_views(participants@);
    if participants.len() == 0 {
        return false;
    }
    let mut j: usize = 1;
    while j < participants.len()
        invariant
            1 <= j <= participants@.len(),
            v == principal_views(participants@),
            forall|k: int| 0 <= k < j ==> #[trigger] v[k] == v[0],
        decreases participants.len() - j,
    {
        if !participants[j].same_as(&participants[0]) {
            assert(v[j as int] != v[0]);
            return true;
        }
        j = j + 1;
    }
    assert forall|a: int, b: int| 0 <= a < v.len() && 0 <= b < v.len() implies !(#[trigger] v[a] != #[trigger] v[b]) by {
        assert(v[a] == v[0] && v[b] == v[0]);
    }
    false
}

/// Longest message text accepted, in bytes.
pub const MAX_TEXT_LENGTH: usize = 10000;

/// Message fields that pass validation: non-blank content of at most
/// `MAX_TEXT_LENGTH` bytes, valid sender and recipient, and a conversation id of
/// 1 to 128 bytes.
pub open spec fn send_input_ok(caller: Seq<u8>, recipient: Seq<u8>, conversation_id: Seq<char>, content: Seq<char>) -> bool {
    &&& !is_blank(content)
    &&& encode_utf8(content).len() <= MAX_TEXT_LENGTH
    &&& valid_principal(caller)
    &&& valid_principal(recipient)
    &&& conversation_id.len() > 0
    &&& encode_utf8(conversation_id).len() <= 128
}

/// Why sending fails on store `s`, checked in order: the caller's rate limit,
/// the nonce, the fields, the conversation's existence, membership of sender
/// and recipient, and the size of the record to store. `None` when it succeeds.
pub open spec fn send_failure(
    s: MessagingStore,
    caller: Seq<u8>,
    recipient: Seq<u8>,
    conversation_id: Seq<char>,
    content: Seq<char>,
    message_type: MessageType,
    reply_to: Option<u64>,
    attachments: Seq<AttachmentView>,
    nonce: Seq<char>,
    timestamp: u64,
    now: u64,
) -> Option<MessagingError> {
    if rate_limited(s.rate_window(caller), SEND_MAX_CALLS, SEND_WINDOW_MS, now) {
        Some(MessagingError::RateLimit)
    } else if nonce.len() == 0 {
        Some(MessagingError::Validation)
    } else if timestamp_out_of_tolerance(timestamp, now) || s.nonce_seen(nonce) is Some {
        Some(MessagingError::Replay)
    } else if !send_input_ok(caller, recipient, conversation_id, content) {
        Some(MessagingError::Validation)
    } else {
        match s.conversation(conversation_id) {
            None => Some(MessagingError::NotFound),
            Some(c) => if !(c.participants.contains(caller) && c.participants.contains(recipient)) {
                Some(MessagingError::Authorization)
            } else if message_size(
                sent_message(
                    (s.messages_view().len() + 1) as u64,
                    conversation_id,
                    caller,
                    recipient,
                    content,
                    message_type,
                    now,
                    reply_to,
                    attachments,
                    conversation_key_of(c.participants),
                ),
            ) > MESSAGE_MAX_BYTES {
                Some(MessagingError::Validation)
            } else {
                None
            },
        }
    }
}

/// Whether a send gets past the rate limit and the nonce check, which record
/// the call and the nonce.
pub open spec fn send_passes_guards(
    s: MessagingStore,
    caller: Seq<u8>,
    nonce: Seq<char>,
    timestamp: u64,
    now: u64,
) -> bool {
    &&& !rate_limited(s.rate_window(caller), SEND_MAX_CALLS, SEND_WINDOW_MS, now)
    &&& nonce.len() > 0
    &&& !timestamp_out_of_tolerance(timestamp, now)
    &&& s.nonce_seen(nonce) is None
}

/// Stored form of attachment data: empty data stays empty, other data is sealed.
pub open spec fn sealed_data(d: Seq<char>, key: Seq<u8>, now: u64) -> Seq<char> {
    if d.len() == 0 {
        d
    } else {
        envelope_text(encryption_of(encode_utf8(d), key, now))
    }
}

/// An attachment with its data in stored form.
pub open spec fn sealed_attachment(a: AttachmentView, key: Seq<u8>, now: u64) -> AttachmentView {
    AttachmentView {
        id: a.id,
        filename: a.filename,
        content_type: a.content_type,
        size: a.size,
        encrypted_data: sealed_data(a.encrypted_data, key, now),
    }
}

/// The message stored by a successful send.
pub open spec fn sent_message(
    id: u64,
    conversation_id: Seq<char>,
    caller: Seq<u8>,
    recipient: Seq<u8>,
    content: Seq<char>,
    message_type: MessageType,
    now: u64,
    reply_to: Option<u64>,
    attachments: Seq<AttachmentView>,
    key: Seq<u8>,
) -> MessageView {
    MessageView {
        id,
        conversation_id,
        sender_id: caller,
        recipient_id: recipient,
        content: envelope_text(encryption_of(encode_utf8(sanitized(content)), key, now)),
        message_type,
        timestamp: now,
        is_read: false,
        is_deleted: false,
        reply_to,
        attachments: attachments.map_values(|a: AttachmentView| sealed_attachment(a, key, now)),
    }
}

fn failed_send(e: MessagingError) -> (r: MessageResult)
    ensures
        !r.success,
        r.message is None,
        r.error == Some(e),
{
    MessageResult { success: false, message: None, error: Some(e) }
}

fn seal_attachments(attachments: &Vec<Attachment>, key: &Vec<u8>, now: u64) -> (r: Vec<Attachment>)
    requires
        key@.len() == 32,
    ensures
        attachment_views(r@) == attachment_views(attachments@).map_values(
            |a: AttachmentView| sealed_attachment(a, key@, now),
        ),
        forall|i: int|
            0 <= i < attachments@.len() && attachments@[i].encrypted_data@.len() > 0
                ==> #[trigger] decrypted_content(r@[i].encrypted_data@, key@) == Some(
                attachments@[i].encrypted_data@,
            ),
{
    let ghost target = attachment_views(attachments@).map_values(
        |a: AttachmentView| sealed_attachment(a, key@, now),
    );
    let mut out: Vec<Attachment> = Vec::new();
    let mut i: usize = 0;
    while i < attachments.len()
        invariant
            i <= attachments@.len(),
            key@.len() == 32,
            target == attachment_views(attachments@).map_values(
                |a: AttachmentView| sealed_attachment(a, key@, now),
            ),
            attachment_views(out@) == target.take(i as int),
            out@.len() == i,
            forall|k: int|
                0 <= k < i && attachments@[k].encrypted_data@.len() > 0
                    ==> #[trigger] decrypted_content(out@[k].encrypted_data@, key@) == Some(
                    attachments@[k].encrypted_data@,
                ),
        decreases attachments.len() - i,
    {
        let mut b = attachments[i].duplicate();
        if !attachments[i].encrypted_data.as_str().is_empty() {
            match seal_text(attachments[i].encrypted_data.as_str(), key.as_slice(), now) {
                Ok(t) => {
                    b.encrypted_data = t;
                },
                Err(_) => {},
            }
        }
        let ghost prev = out@;
        out.push(b);
        proof {
            assert(attachment_views(out@) =~= attachment_views(prev).push(b@));
            assert(target.take(i + 1) =~= target.take(i as int).push(target[i as int]));
        }
        i = i + 1;
    }
    assert(target.take(attachments@.len() as int) =~= target);
    out
}

/// Messages of conversation `cid` that are not deleted, newest (highest id) first.
pub open spec fn visible_newest_first(ms: Seq<MessageView>, cid: Seq<char>) -> Seq<MessageView>
    decreases ms.len(),
{
    if ms.len() == 0 {
        Seq::empty()
    } else if ms.last().conversation_id == cid && !ms.last().is_deleted {
        seq![ms.last()] + visible_newest_first(ms.drop_last(), cid)
    } else {
        visible_newest_first(ms.drop_last(), cid)
    }
}

/// The window of `s` that starts at `offset` and holds at most `limit` items.
pub open spec fn page<A>(s: Seq<A>, offset: nat, limit: nat) -> Seq<A> {
    if offset >= s.len() {
        Seq::empty()
    } else if offset + limit <= s.len() {
        s.subrange(offset as int, (offset + limit) as int)
    } else {
        s.subrange(offset as int, s.len() as int)
    }
}

/// Stored text as a participant reads it: decrypted when that succeeds, as
/// stored otherwise.
pub open spec fn read_or_keep(text: Seq<char>, key: Seq<u8>) -> Seq<char> {
    match decrypted_content(text, key) {
        Some(p) => p,
        None => text,
    }
}

/// A message as a participant reads it.
pub open spec fn readable(m: MessageView, key: Seq<u8>) -> MessageView {
    MessageView {
        content: read_or_keep(m.content, key),
        attachments: m.attachments.map_values(
            |a: AttachmentView|
                AttachmentView { encrypted_data: read_or_keep(a.encrypted_data, key), ..a },
        ),
        ..m
    }
}

/// What a participant reads from conversation `cid`: the page of its visible
/// messages, newest first, each decrypted with `key` where that succeeds.
pub open spec fn read_page(ms: Seq<MessageView>, cid: Seq<char>, offset: nat, limit: nat, key: Seq<u8>) -> Seq<MessageView> {
    page(visible_newest_first(ms, cid), offset, limit).map_values(|m: MessageView| readable(m, key))
}

/// The page size used: 50 by default, at most 100.
pub open spec fn effective_limit(limit: Option<u64>) -> nat {
    let l = match limit {
        Some(l) => l,
        None => 50,
    };
    if l > 100 {
        100
    } else {
        l as nat
    }
}

/// Whether `caller` may read conversation `cid` of store `s`.
pub open spec fn may_read(s: MessagingStore, caller: Seq<u8>, cid: Seq<char>) -> bool {
    &&& valid_principal(caller)
    &&& cid.len() > 0
    &&& encode_utf8(cid).len() <= 128
    &&& s.conversation(cid) matches Some(c)
    &&& c.participants.contains(caller)
}

fn read_message(m: &Message, participants: &Vec<Principal>) -> (r: Message)
    ensures
        r@ == readable(m@, conversation_key_of(principal_views(participants@))),
{
    let ghost key = conversation_key_of(principal_views(participants@));
    let mut out = m.duplicate();
    match decrypt_message_content(m.content.as_str(), participants.as_slice()) {
        Ok(t) => {
            out.content = t;
        },
        Err(_) => {},
    }
    let ghost target = attachment_views(m.attachments@).map_values(
        |a: AttachmentView| AttachmentView { encrypted_data: read_or_keep(a.encrypted_data, key), ..a },
    );
    let mut atts: Vec<Attachment> = Vec::new();
    let mut i: usize = 0;
    while i < m.attachments.len()
        invariant
            i <= m.attachments@.len(),
            key == conversation_key_of(principal_views(participants@)),
            target == attachment_views(m.attachments@).map_values(
                |a: AttachmentView| AttachmentView { encrypted_data: read_or_keep(a.encrypted_data, key), ..a },
            ),
            attachment_views(atts@) == target.take(i as int),
        decreases m.attachments.len() - i,
    {
        let mut a = m.attachments[i].duplicate();
        match decrypt_attachment_data(m.attachments[i].encrypted_data.as_str(), participants.as_slice()) {
            Ok(t) => {
                a.encrypted_data = t;
            },
            Err(_) => {},
        }
        let ghost prev = atts@;
        atts.push(a);
        proof {
            assert(attachment_views(atts@) =~= attachment_views(prev).push(a@));
            assert(target.take(i + 1) =~= target.take(i as int).push(target[i as int]));
        }
        i = i + 1;
    }
    assert(target.take(m.attachments@.len() as int) =~= target);
    out.attachments = atts;
    out
}

/// Conversations ordered by `updated_at`, latest first.
pub open spec fn sorted_by_update_desc(s: Seq<ConversationView>) -> bool {
    forall|a: int, b: int| 0 <= a < b < s.len() ==> (#[trigger] s[a]).updated_at >= (#[trigger] s[b]).updated_at
}

/// Conversations of `caller` that are not archived, in storage order.
pub open spec fn listed_for(cs: Seq<ConversationView>, caller: Seq<u8>) -> Seq<ConversationView>
    decreases cs.len(),
{
    if cs.len() == 0 {
        cs
    } else if cs.last().participants.contains(caller) && !cs.last().is_archived {
        listed_for(cs.drop_last(), caller).push(cs.last())
    } else {
        listed_for(cs.drop_last(), caller)
    }
}

/// Counters describing the store.
pub struct MessagingStats {
    pub total_messages: u64,
    pub total_conversations: u64,
    pub total_user_keys: u64,
    pub timestamp: u64,
}

/// The decimal text of `n`.
pub open spec fn decimal_text(n: nat) -> Seq<char> {
    decimal_digits(n).map_values(|b: u8| b as char)
}

/// The label minted for a conversation key: "phi_conv_", the conversation id,
/// "_", and the decimal time.
pub open spec fn conversation_key_label(conversation_id: Seq<char>, now: u64) -> Seq<char> {
    seq!['p', 'h', 'i', '_', 'c', 'o', 'n', 'v', '_'] + conversation_id + seq!['_'] + decimal_text(
        now as nat,
    )
}

/// Key material derived from the time and the caller's textual identity.
pub open spec fn phi_key_of(caller: Seq<u8>, now: u64) -> Seq<u8> {
    sha256_of(decimal_digits(now as nat) + principal_text_of(caller))
}

/// Generates 32 bytes of key material from `now` and the caller's textual form.
pub fn generate_phi_encryption_key(caller: &Principal, now: u64) -> (r: Result<Vec<u8>, MessagingError>)
    ensures
        r matches Ok(k) ==> k@ == phi_key_of(caller@, now) && k@.len() == 32,
        r is Ok,
{
    let mut seed = decimal_bytes(now);
    let text = caller.to_text_bytes();
    let ghost start = seed@;
    let mut i: usize = 0;
    while i < text.len()
        invariant
            i <= text@.len(),
            seed@ == start + text@.take(i as int),
        decreases text.len() - i,
    {
        seed.push(text[i]);
        assert(text@.take(i + 1) =~= text@.take(i as int).push(text@[i as int]));
        i = i + 1;
    }
    assert(text@.take(text@.len() as int) =~= text@);
    Ok(sha256(seed.as_slice()))
}

fn decimal_chars(n: u64) -> (r: Vec<char>)
    ensures
        r@ == decimal_text(n as nat),
{
    let digits = decimal_bytes(n);
    let mut out: Vec<char> = Vec::new();
    let mut i: usize = 0;
    while i < digits.len()
        invariant
            i <= digits@.len(),
            digits@ == decimal_digits(n as nat),
            out@ == decimal_text(n as nat).take(i as int),
        decreases digits.len() - i,
    {
        let c = digits[i] as char;
        out.push(c);
        assert(decimal_text(n as nat).take(i + 1) =~= decimal_text(n as nat).take(i as int).push(c));
        i = i + 1;
    }
    assert(decimal_text(n as nat).take(digits@.len() as int) =~= decimal_text(n as nat));
    out
}

fn push_chars(v: &mut Vec<char>, s: &[char])
    ensures
        final(v)@ == old(v)@ + s@,
{
    let ghost start = v@;
    let mut i: usize = 0;
    while i < s.len()
        invariant
            i <= s@.len(),
            v@ == start + s@.take(i as int),
        decreases s.len() - i,
    {
        v.push(s[i]);
        assert(s@.take(i + 1) =~= s@.take(i as int).push(s@[i as int]));
        i = i + 1;
    }
    assert(s@.take(s@.len() as int) =~= s@);
}

impl MessagingStore {
    /// Registers `public_key` as the caller's key, replacing any earlier record.
    pub fn register_user_key(&mut self, caller: &Principal, public_key: String, key_type: KeyType, now: u64) -> (r:
        Result<UserKey, MessagingError>)
        requires
            old(self).wf(),
        ensures
            final(self).wf(),
            r is Ok <==> valid_principal(caller@) && public_key@.len() > 0 && user_key_size(
                UserKeyView {
                    user_id: caller@,
                    public_key: public_key@,
                    key_type,
                    created_at: now,
                    is_active: true,
                },
            ) <= USER_KEY_MAX_BYTES,
            r is Err ==> r == Err::<UserKey, MessagingError>(MessagingError::Validation) && *final(self)
                == *old(self),
            r matches Ok(k) ==> k@ == (UserKeyView {
                user_id: caller@,
                public_key: public_key@,
                key_type,
                created_at: now,
                is_active: true,
            }) && final(self).user_key(caller@) == Some(k@),
            r is Ok ==> forall|p: Seq<u8>| p != caller@ ==> #[trigger] final(self).user_key(p) == old(self).user_key(p),
            final(self).messages_view() == old(self).messages_view(),
            forall|id: Seq<char>| #[trigger] final(self).conversation(id) == old(self).conversation(id),
    {
        validate_principal(caller)?;
        if public_key.as_str().is_empty() {
            return Err(MessagingError::Validation);
        }
        let user_key = UserKey {
            user_id: caller.duplicate(),
            public_key,
            key_type,
            created_at: now,
            is_active: true,
        };
        if !user_key_fits(&user_key) {
            return Err(MessagingError::Validation);
        }
        let stored = user_key.duplicate();
        self.upsert_user_key(stored);
        Ok(user_key)
    }

    /// The key record of `user_id`; `None` for an invalid identity.
    pub fn get_user_key(&self, user_id: &Principal) -> (r: Option<UserKey>)
        requires
            self.wf(),
        ensures
            r is Some <==> valid_principal(user_id@) && self.user_key(user_id@) is Some,
            r matches Some(k) ==> self.user_key(user_id@) == Some(k@),
    {
        if validate_principal(user_id).is_err() {
            return None;
        }
        match self.find_user_key(user_id) {
            Some(i) => Some(self.user_keys[i].duplicate()),
            None => None,
        }
    }

    /// Creates the conversation of `participants`, with the id their set
    /// determines. Invalid requests are validation errors and an existing id is
    /// a conflict; neither writes anything.
    pub fn create_conversation(
        &mut self,
        caller: &Principal,
        participants: Vec<Principal>,
        conversation_type: ConversationType,
        metadata: ConversationMetadata,
        now: u64,
    ) -> (r: ConversationResult)
        requires
            old(self).wf(),
        ensures
            final(self).wf(),
            r.success <==> r.error is None,
            r.success <==> r.conversation is Some,
            !conversation_request_ok(caller@, participants@) ==> r.error == Some(
                MessagingError::Validation,
            ) && *final(self) == *old(self),
            conversation_request_ok(caller@, participants@) && old(self).conversation(
                conversation_id_of(principal_views(participants@)),
            ) is Some ==> r.error == Some(MessagingError::Conflict) && *final(self) == *old(self),
            conversation_request_ok(caller@, participants@) && old(self).conversation(
                conversation_id_of(principal_views(participants@)),
            ) is None ==> (r.success <==> conversation_size(
                created_conversation(principal_views(participants@), conversation_type, metadata@, now),
            ) <= CONVERSATION_MAX_BYTES),
            !r.success && r.error == Some(MessagingError::Validation) ==> *final(self) == *old(self),
            r.conversation matches Some(c) ==> ({
                let id = conversation_id_of(principal_views(participants@));
                &&& c@ == created_conversation(principal_views(participants@), conversation_type, metadata@, now)
                &&& final(self).conversation(id) == Some(c@)
                &&& forall|other: Seq<char>| other != id ==> #[trigger] final(self).conversation(other)
                    == old(self).conversation(other)
                &&& final(self).conversations_view() == old(self).conversations_view().push(c@)
                &&& final(self).messages_view() == old(self).messages_view()
                &&& same_user_keys(*final(self), *old(self))
                &&& forall|p: Seq<u8>| #[trigger] final(self).rate_window(p) == old(self).rate_window(p)
                &&& forall|n: Seq<char>| #[trigger] final(self).nonce_seen(n) == old(self).nonce_seen(n)
            }),
    {
        let failed = ConversationResult {
            success: false,
            conversation: None,
            error: Some(MessagingError::Validation),
        };
        if validate_principal(caller).is_err() {
            return failed;
        }
        if validate_principals(participants.as_slice()).is_err() {
            return failed;
        }
        if !is_participant(participants.as_slice(), caller) {
            return failed;
        }
        if participants.len() < 2 || !two_distinct(participants.as_slice()) {
            return failed;
        }
        let conversation_id = generate_conversation_id(participants.as_slice());
        if self.find_conversation(conversation_id.as_str()).is_some() {
            return ConversationResult {
                success: false,
                conversation: None,
                error: Some(MessagingError::Conflict),
            };
        }
        let conversation = Conversation {
            id: conversation_id,
            participants,
            conversation_type,
            created_at: now,
            updated_at: now,
            last_message_id: None,
            is_archived: false,
            metadata,
        };
        if !conversation_fits(&conversation) {
            return failed;
        }
        let returned = conversation.duplicate();
        self.add_conversation(conversation);
        ConversationResult { success: true, conversation: Some(returned), error: None }
    }

    /// Sends a message: counts the call against the caller's limit (50 per
    /// 60,000 ms), accepts the nonce, validates and sanitizes the content,
    /// checks the conversation and membership, seals the content and each
    /// attachment's data under the conversation key, and stores the message
    /// under the next id as the conversation's latest.
    pub fn send_message(
        &mut self,
        caller: &Principal,
        conversation_id: String,
        recipient_id: Principal,
        content: String,
        message_type: MessageType,
        reply_to: Option<u64>,
        attachments: Vec<Attachment>,
        nonce: String,
        timestamp: u64,
        now: u64,
    ) -> (r: MessageResult)
        requires
            old(self).wf(),
            old(self).messages_view().len() < u64::MAX,
        ensures
            final(self).wf(),
            r.error == send_failure(
                *old(self),
                caller@,
                recipient_id@,
                conversation_id@,
                content@,
                message_type,
                reply_to,
                attachment_views(attachments@),
                nonce@,
                timestamp,
                now,
            ),
            r.success <==> r.error is None,
            r.success <==> r.message is Some,
            rate_limited(old(self).rate_window(caller@), SEND_MAX_CALLS, SEND_WINDOW_MS, now) ==> *final(self) == *old(self),
            !rate_limited(old(self).rate_window(caller@), SEND_MAX_CALLS, SEND_WINDOW_MS, now)
                ==> final(self).rate_window(caller@) == Some(
                window_after(old(self).rate_window(caller@), SEND_WINDOW_MS, now),
            ),
            forall|q: Seq<u8>| q != caller@ ==> #[trigger] final(self).rate_window(q) == old(self).rate_window(q),
            send_passes_guards(*old(self), caller@, nonce@, timestamp, now) ==> forall|n: Seq<char>|
                #[trigger] final(self).nonce_seen(n) == nonces_after(*old(self), nonce@, timestamp, now, n),
            !send_passes_guards(*old(self), caller@, nonce@, timestamp, now) ==> same_nonces(
                *final(self),
                *old(self),
            ),
            same_user_keys(*final(self), *old(self)),
            !r.success ==> same_messages(*final(self), *old(self)) && same_conversations(
                *final(self),
                *old(self),
            ),
            r.message matches Some(m) ==> ({
                let c = old(self).conversation(conversation_id@)->0;
                let key = conversation_key_of(c.participants);
                let id = (old(self).messages_view().len() + 1) as u64;
                &&& m@ == sent_message(
                    id,
                    conversation_id@,
                    caller@,
                    recipient_id@,
                    content@,
                    message_type,
                    now,
                    reply_to,
                    attachment_views(attachments@),
                    key,
                )
                &&& decrypted_content(m.content@, key) == Some(sanitized(content@))
                &&& forall|i: int|
                    0 <= i < attachments@.len() && attachments@[i].encrypted_data@.len() > 0
                        ==> #[trigger] decrypted_content(m@.attachments[i].encrypted_data, key) == Some(
                        attachments@[i].encrypted_data@,
                    )
                &&& final(self).messages_view() == old(self).messages_view().push(m@)
                &&& final(self).conversation(conversation_id@) == Some(
                    ConversationView { last_message_id: Some(id), updated_at: now, ..c },
                )
                &&& forall|other: Seq<char>| other != conversation_id@ ==> #[trigger] final(self).conversation(other) == old(self).conversation(other)
            }),
    {
        if self.record_call(caller, SEND_MAX_CALLS, SEND_WINDOW_MS, now).is_err() {
            return failed_send(MessagingError::RateLimit);
        }
        match self.accept_nonce(nonce.as_str(), timestamp, now) {
            Ok(()) => {},
            Err(e) => {
                return failed_send(e);
            },
        }
        if validate_text_not_empty(content.as_str()).is_err() {
            return failed_send(MessagingError::Validation);
        }
        if validate_text_length(content.as_str(), MAX_TEXT_LENGTH).is_err() {
            return failed_send(MessagingError::Validation);
        }
        let sanitized_content = sanitize_text(content.as_str());
        if validate_principal(caller).is_err() {
            return failed_send(MessagingError::Validation);
        }
        if validate_principal(&recipient_id).is_err() {
            return failed_send(MessagingError::Validation);
        }
        if validate_conversation_id(conversation_id.as_str()).is_err() {
            return failed_send(MessagingError::Validation);
        }
        if validate_phi_encryption(content.as_str()).is_err() {
            return failed_send(MessagingError::Validation);
        }
        let idx = match self.find_conversation(conversation_id.as_str()) {
            Some(i) => i,
            None => {
                return failed_send(MessagingError::NotFound);
            },
        };
        let conversation = self.conversation_at(idx);
        if !is_participant(conversation.participants.as_slice(), caller) {
            return failed_send(MessagingError::Authorization);
        }
        if !is_participant(conversation.participants.as_slice(), &recipient_id) {
            return failed_send(MessagingError::Authorization);
        }
        let encryption_key = match derive_conversation_key(conversation.participants.as_slice()) {
            Ok(k) => k,
            Err(e) => {
                return failed_send(e);
            },
        };
        let encrypted_content = match seal_text(sanitized_content.as_str(), encryption_key.as_slice(), now) {
            Ok(t) => t,
            Err(e) => {
                return failed_send(e);
            },
        };
        let encrypted_attachments = seal_attachments(&attachments, &encryption_key, now);
        let mut updated = conversation.duplicate();
        let message_id = self.next_message_id();
        let message = Message {
            id: message_id,
            conversation_id,
            sender_id: caller.duplicate(),
            recipient_id,
            content: encrypted_content,
            message_type,
            timestamp: now,
            is_read: false,
            is_deleted: false,
            reply_to,
            attachments: encrypted_attachments,
        };
        if !message_fits(&message) {
            return failed_send(MessagingError::Validation);
        }
        let returned = message.duplicate();
        self.insert_message(message);
        updated.last_message_id = Some(message_id);
        updated.updated_at = now;
        self.put_conversation(idx, updated);
        MessageResult { success: true, message: Some(returned), error: None }
    }

    /// A page of conversation `conversation_id`'s messages that are not
    /// deleted, newest first, skipping `offset` (default 0) and holding at most
    /// `limit` (default 50, at most 100), with content and attachment data
    /// decrypted where that succeeds. Empty when the caller may not read the
    /// conversation.
    pub fn get_conversation_messages(
        &self,
        caller: &Principal,
        conversation_id: &str,
        limit: Option<u64>,
        offset: Option<u64>,
    ) -> (r: Vec<Message>)
        requires
            self.wf(),
        ensures
            !may_read(*self, caller@, conversation_id@) ==> r@.len() == 0,
            may_read(*self, caller@, conversation_id@) ==> ({
                let c = self.conversation(conversation_id@)->0;
                let off = match offset {
                    Some(o) => o as nat,
                    None => 0,
                };
                message_views(r@) == read_page(
                    self.messages_view(),
                    conversation_id@,
                    off,
                    effective_limit(limit),
                    conversation_key_of(c.participants),
                )
            }),
    {
        if validate_principal(caller).is_err() {
            return Vec::new();
        }
        if validate_conversation_id(conversation_id).is_err() {
            return Vec::new();
        }
        let idx = match self.find_conversation(conversation_id) {
            Some(i) => i,
            None => {
                return Vec::new();
            },
        };
        let conversation = self.conversation_at(idx);
        if !is_participant(conversation.participants.as_slice(), caller) {
            return Vec::new();
        }
        let requested: u64 = match limit {
            Some(l) => l,
            None => 50,
        };
        let lim: u64 = if requested > 100 {
            100
        } else {
            requested
        };
        let off: u64 = match offset {
            Some(o) => o,
            None => 0,
        };
        let key_id = conversation_id.to_string();
        assert(self.conversation(conversation_id@)->0 == conversation@);
        let ghost ms = self.messages_view();
        let ghost key = conversation_key_of(principal_views(conversation.participants@));
        let ghost full = visible_newest_first(ms, conversation_id@);
        let ghost mut matched: Seq<MessageView> = Seq::empty();
        let mut out: Vec<Message> = Vec::new();
        let mut skipped: u64 = 0;
        let mut i = self.message_count();
        assert(ms.take(i as int) =~= ms);
        while i > 0
            invariant
                self.wf(),
                may_read(*self, caller@, conversation_id@),
                self.conversation(conversation_id@)->0.participants == principal_views(conversation.participants@),
                i <= ms.len(),
                ms == self.messages_view(),
                key_id@ == conversation_id@,
                lim <= 100,
                lim == effective_limit(limit),
                off as nat == match offset {
                    Some(o) => o as nat,
                    None => 0,
                },
                key == conversation_key_of(principal_views(conversation.participants@)),
                full == visible_newest_first(ms, conversation_id@),
                full == matched + visible_newest_first(ms.take(i as int), conversation_id@),
                skipped as nat == if matched.len() < off as nat {
                    matched.len()
                } else {
                    off as nat
                },
                out@.len() <= lim,
                message_views(out@) == matched.subrange(skipped as int, matched.len() as int).map_values(
                    |m: MessageView| readable(m, key),
                ),
            decreases i,
        {
            let m = self.message_at(i - 1);
            proof {
                assert(ms.take(i as int).drop_last() =~= ms.take(i - 1));
                assert(ms.take(i as int).last() == ms[i - 1]);
            }
            if m.conversation_id == key_id && !m.is_deleted {
                if skipped < off {
                    skipped = skipped + 1;
                    proof {
                        matched = matched.push(m@);
                        assert(full =~= matched + visible_newest_first(ms.take(i - 1), conversation_id@));
                        assert(matched.subrange(skipped as int, matched.len() as int) =~= Seq::<MessageView>::empty());
                    }
                } else {
                    if out.len() as u64 >= lim {
                        proof {
                            assert(message_views(out@).len() == out@.len());
                            assert(matched.len() == skipped + out@.len());
                            assert(full =~= matched + seq![m@] + visible_newest_first(ms.take(i - 1), conversation_id@));
                            assert(full.subrange(off as int, (off + lim) as int) =~= matched.subrange(skipped as int, matched.len() as int));
                            let c = self.conversation(conversation_id@)->0;
                            assert(page(full, off as nat, lim as nat) == full.subrange(off as int, (off + lim) as int));
                            assert(message_views(out@) =~= page(full, off as nat, lim as nat).map_values(
                                |m: MessageView| readable(m, conversation_key_of(c.participants)),
                            ));
                        }
                        return out;
                    }
                    let readable_copy = read_message(m, &conversation.participants);
                    let ghost prev = out@;
                    out.push(readable_copy);
                    proof {
                        let old_matched = matched;
                        matched = matched.push(m@);
                        assert(full =~= matched + visible_newest_first(ms.take(i - 1), conversation_id@));
                        assert(message_views(out@) =~= message_views(prev).push(readable_copy@));
                        assert(matched.subrange(skipped as int, matched.len() as int) =~= old_matched.subrange(
                            skipped as int,
                            old_matched.len() as int,
                        ).push(m@));
                    }
                }
            } else {
                proof {
                    assert(full =~= matched + visible_newest_first(ms.take(i - 1), conversation_id@));
                }
            }
            i = i - 1;
        }
        proof {
            assert(ms.take(0) =~= Seq::<MessageView>::empty());
            assert(full =~= matched);
            if (off as nat) < full.len() {
                assert(full.subrange(off as int, full.len() as int) =~= matched.subrange(skipped as int, matched.len() as int));
            }
            let c = self.conversation(conversation_id@)->0;
            assert(message_views(out@).len() == out@.len());
            assert(message_views(out@) =~= page(full, off as nat, lim as nat).map_values(
                |m: MessageView| readable(m, conversation_key_of(c.participants)),
            ));
        }
        out
    }

    /// The caller's conversations that are not archived, most recently updated first.
    pub fn get_user_conversations(&self, caller: &Principal) -> (r: Vec<Conversation>)
        requires
            self.wf(),
        ensures
            sorted_by_update_desc(conversation_views(r@)),
            conversation_views(r@).to_multiset() == listed_for(self.conversations_view(), caller@).to_multiset(),
    {
        let ghost cs = self.conversations_view();
        let mut out: Vec<Conversation> = Vec::new();
        let mut i: usize = 0;
        let n = self.conversation_count();
        assert(cs.take(0) =~= Seq::<ConversationView>::empty());
        assert(conversation_views(out@) =~= Seq::<ConversationView>::empty());
        while i < n
            invariant
                self.wf(),
                n == cs.len(),
                cs == self.conversations_view(),
                i <= n,
                sorted_by_update_desc(conversation_views(out@)),
                conversation_views(out@).to_multiset() == listed_for(cs.take(i as int), caller@).to_multiset(),
            decreases n - i,
        {
            let c = self.conversation_at(i);
            proof {
                assert(cs.take(i + 1).drop_last() =~= cs.take(i as int));
                assert(cs.take(i + 1).last() == cs[i as int]);
            }
            if is_participant(c.participants.as_slice(), caller) && !c.is_archived {
                let mut j: usize = 0;
                while j < out.len() && out[j].updated_at >= c.updated_at
                    invariant
                        j <= out@.len(),
                        forall|k: int| 0 <= k < j ==> (#[trigger] out@[k]).updated_at >= c.updated_at,
                    decreases out.len() - j,
                {
                    j = j + 1;
                }
                let copy = c.duplicate();
                let ghost prev = out@;
                out.insert(j, copy);
                proof {
                    let pv = conversation_views(prev);
                    assert(conversation_views(out@) =~= pv.insert(j as int, copy@));
                    vstd::seq_lib::to_multiset_insert(pv, j as int, copy@);
                    vstd::seq_lib::to_multiset_build(listed_for(cs.take(i as int), caller@), copy@);
                    let v = conversation_views(out@);
                    assert forall|a: int, b: int| 0 <= a < b < v.len() implies v[a].updated_at >= v[b].updated_at by {
                        if b < j {
                        } else if b == j {
                            assert(v[a] == pv[a]);
                        } else if a > j {
                            assert(v[a] == pv[a - 1] && v[b] == pv[b - 1]);
                        } else if a == j {
                            assert(v[b] == pv[b - 1]);
                            assert(pv[j as int].updated_at < copy.updated_at);
                        } else {
                            assert(v[b] == pv[b - 1]);
                            assert(pv[j as int].updated_at < copy.updated_at);
                        }
                    }
                }
            }
            i = i + 1;
        }
        assert(cs.take(n as int) =~= cs);
        out
    }

    /// Marks message `message_id` read; only its recipient may.
    pub fn mark_message_read(&mut self, caller: &Principal, message_id: u64) -> (r: Result<(), MessagingError>)
        requires
            old(self).wf(),
        ensures
            final(self).wf(),
            old(self).message(message_id) is None ==> r == Err::<(), MessagingError>(MessagingError::NotFound),
            old(self).message(message_id) matches Some(m) ==> (r is Ok <==> m.recipient_id == caller@),
            r is Err ==> *final(self) == *old(self),
            r is Err && old(self).message(message_id) is Some ==> r == Err::<(), MessagingError>(MessagingError::Authorization),
            r is Ok ==> final(self).messages_view() == old(self).messages_view().update(
                message_id - 1,
                MessageView { is_read: true, ..old(self).message(message_id)->0 },
            ),
            same_conversations(*final(self), *old(self)),
            same_user_keys(*final(self), *old(self)),
            same_windows(*final(self), *old(self)),
            same_nonces(*final(self), *old(self)),
    {
        let count = self.message_count();
        if message_id == 0 || message_id > count as u64 {
            return Err(MessagingError::NotFound);
        }
        let idx = (message_id - 1) as usize;
        let stored = self.message_at(idx);
        if !stored.recipient_id.same_as(caller) {
            return Err(MessagingError::Authorization);
        }
        let mut updated = stored.duplicate();
        updated.is_read = true;
        self.replace_message(message_id, updated);
        Ok(())
    }

    /// Marks message `message_id` deleted; only its sender may. Nothing is removed.
    pub fn delete_message(&mut self, caller: &Principal, message_id: u64) -> (r: Result<(), MessagingError>)
        requires
            old(self).wf(),
        ensures
            final(self).wf(),
            old(self).message(message_id) is None ==> r == Err::<(), MessagingError>(MessagingError::NotFound),
            old(self).message(message_id) matches Some(m) ==> (r is Ok <==> m.sender_id == caller@),
            r is Err ==> *final(self) == *old(self),
            r is Err && old(self).message(message_id) is Some ==> r == Err::<(), MessagingError>(MessagingError::Authorization),
            r is Ok ==> final(self).messages_view() == old(self).messages_view().update(
                message_id - 1,
                MessageView { is_deleted: true, ..old(self).message(message_id)->0 },
            ),
            same_conversations(*final(self), *old(self)),
            same_user_keys(*final(self), *old(self)),
            same_windows(*final(self), *old(self)),
            same_nonces(*final(self), *old(self)),
    {
        let count = self.message_count();
        if message_id == 0 || message_id > count as u64 {
            return Err(MessagingError::NotFound);
        }
        let idx = (message_id - 1) as usize;
        let stored = self.message_at(idx);
        if !stored.sender_id.same_as(caller) {
            return Err(MessagingError::Authorization);
        }
        let mut updated = stored.duplicate();
        updated.is_deleted = true;
        self.replace_message(message_id, updated);
        Ok(())
    }

    /// Archives conversation `conversation_id` at `now`; only a participant may.
    pub fn archive_conversation(&mut self, caller: &Principal, conversation_id: &str, now: u64) -> (r:
        Result<(), MessagingError>)
        requires
            old(self).wf(),
        ensures
            final(self).wf(),
            old(self).conversation(conversation_id@) is None ==> r == Err::<(), MessagingError>(
                MessagingError::NotFound,
            ),
            old(self).conversation(conversation_id@) matches Some(c) ==> (r is Ok
                <==> c.participants.contains(caller@)),
            r is Err ==> *final(self) == *old(self),
            r is Err && old(self).conversation(conversation_id@) is Some ==> r == Err::<(), MessagingError>(
                MessagingError::Authorization,
            ),
            r is Ok ==> final(self).conversation(conversation_id@) == Some(
                ConversationView {
                    is_archived: true,
                    updated_at: now,
                    ..old(self).conversation(conversation_id@)->0
                },
            ),
            r is Ok ==> forall|other: Seq<char>| other != conversation_id@ ==> #[trigger] final(self).conversation(other)
                == old(self).conversation(other),
            same_messages(*final(self), *old(self)),
            same_user_keys(*final(self), *old(self)),
            same_windows(*final(self), *old(self)),
            same_nonces(*final(self), *old(self)),
    {
        let idx = match self.find_conversation(conversation_id) {
            Some(i) => i,
            None => {
                return Err(MessagingError::NotFound);
            },
        };
        let conversation = self.conversation_at(idx);
        if !is_participant(conversation.participants.as_slice(), caller) {
            return Err(MessagingError::Authorization);
        }
        let mut updated = conversation.duplicate();
        updated.is_archived = true;
        updated.updated_at = now;
        self.put_conversation(idx, updated);
        Ok(())
    }

    /// Mints a key label for conversation `conversation_id` at `now` after
    /// checking the caller, the id and membership. Key material is generated
    /// from the time and caller and not kept.
    pub fn generate_conversation_phi_key(&self, caller: &Principal, conversation_id: &str, now: u64) -> (r:
        Result<String, MessagingError>)
        requires
            self.wf(),
        ensures
            !valid_principal(caller@) || conversation_id@.len() == 0 || encode_utf8(conversation_id@).len()
                > 128 ==> r == Err::<String, MessagingError>(MessagingError::Validation),
            valid_principal(caller@) && conversation_id@.len() > 0 && encode_utf8(conversation_id@).len()
                <= 128 ==> match self.conversation(conversation_id@) {
                None => r == Err::<String, MessagingError>(MessagingError::NotFound),
                Some(c) => if c.participants.contains(caller@) {
                    r matches Ok(label) && label@ == conversation_key_label(conversation_id@, now)
                } else {
                    r == Err::<String, MessagingError>(MessagingError::Authorization)
                },
            },
    {
        validate_principal(caller)?;
        validate_conversation_id(conversation_id)?;
        let idx = match self.find_conversation(conversation_id) {
            Some(i) => i,
            None => {
                return Err(MessagingError::NotFound);
            },
        };
        let conversation = self.conversation_at(idx);
        if !is_participant(conversation.participants.as_slice(), caller) {
            return Err(MessagingError::Authorization);
        }
        let key_data = generate_phi_encryption_key(caller, now)?;
        let mut label = crate::text::chars_of("phi_conv_");
        proof {
            reveal_strlit("phi_conv_");
        }
        let id_chars = crate::text::chars_of(conversation_id);
        push_chars(&mut label, id_chars.as_slice());
        label.push('_');
        let digits = decimal_chars(now);
        push_chars(&mut label, digits.as_slice());
        assert(label@ =~= conversation_key_label(conversation_id@, now));
        let key_id = crate::text::string_from_chars(label.as_slice());
        let record = PHIEncryptionKey {
            key_id,
            key_data,
            created_at: now,
            is_active: true,
            purpose: EncryptionPurpose::MessageContent,
        };
        Ok(record.key_id)
    }

    /// Mints a new key label for a conversation; the same checks and label as
    /// `generate_conversation_phi_key`. The derived conversation key itself
    /// does not change.
    pub fn rotate_conversation_phi_key(
        &self,
        caller: &Principal,
        conversation_id: &str,
        old_key_id: &str,
        now: u64,
    ) -> (r: Result<String, MessagingError>)
        requires
            self.wf(),
        ensures
            !valid_principal(caller@) || conversation_id@.len() == 0 || encode_utf8(conversation_id@).len()
                > 128 ==> r == Err::<String, MessagingError>(MessagingError::Validation),
            valid_principal(caller@) && conversation_id@.len() > 0 && encode_utf8(conversation_id@).len()
                <= 128 ==> match self.conversation(conversation_id@) {
                None => r == Err::<String, MessagingError>(MessagingError::NotFound),
                Some(c) => if c.participants.contains(caller@) {
                    r matches Ok(label) && label@ == conversation_key_label(conversation_id@, now)
                } else {
                    r == Err::<String, MessagingError>(MessagingError::Authorization)
                },
            },
    {
        self.generate_conversation_phi_key(caller, conversation_id, now)
    }

    /// Message, conversation and key-record counts, and the time.
    pub fn get_stats(&self, now: u64) -> (r: MessagingStats)
        ensures
            r.total_messages == self.messages_view().len(),
            r.total_conversations == self.conversations_view().len(),
            r.total_user_keys == self.user_key_count(),
            r.timestamp == now,
    {
        MessagingStats {
            total_messages: self.message_count() as u64,
            total_conversations: self.conversation_count() as u64,
            total_user_keys: self.user_key_total() as u64,
            timestamp: now,
        }
    }
}

} // verus!
