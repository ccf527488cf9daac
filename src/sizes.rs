use vstd::prelude::*;
use vstd::utf8::encode_utf8;
use crate::model::{
    attachment_views, opt_text, Attachment, AttachmentView, Conversation, ConversationView,
    Message, MessageView, UserKey, UserKeyView,
};
use crate::principal::{principal_views, Principal};

verus! {

/// Largest encoded message record, in bytes.
pub const MESSAGE_MAX_BYTES: u64 = 10240;

/// Largest encoded conversation record, in bytes.
pub const CONVERSATION_MAX_BYTES: u64 = 2048;

/// Largest encoded key record, in bytes.
pub const USER_KEY_MAX_BYTES: u64 = 1024;

/// Bytes a message record takes besides its texts, identities and attachments.
pub const MESSAGE_FIXED_BYTES: u64 = 48;

/// Bytes an attachment takes besides its texts.
pub const ATTACHMENT_FIXED_BYTES: u64 = 24;

/// Bytes a conversation record takes besides its texts and participants.
pub const CONVERSATION_FIXED_BYTES: u64 = 48;

/// Bytes a key record takes besides its owner and key text.
pub const USER_KEY_FIXED_BYTES: u64 = 24;

/// UTF-8 length of a text.
pub open spec fn text_bytes(s: Seq<char>) -> nat {
    encode_utf8(s).len()
}

/// UTF-8 length of an optional text; nothing counts zero.
pub open spec fn opt_bytes(o: Option<Seq<char>>) -> nat {
    match o {
        Some(s) => text_bytes(s),
        None => 0,
    }
}

/// Encoded size of an attachment.
pub open spec fn attachment_size(a: AttachmentView) -> int {
    ATTACHMENT_FIXED_BYTES + text_bytes(a.id) + text_bytes(a.filename) + text_bytes(a.content_type)
        + text_bytes(a.encrypted_data)
}

/// Encoded size of a list of attachments.
pub open spec fn attachments_size(s: Seq<AttachmentView>) -> int
    decreases s.len(),
{
    if s.len() == 0 {
        0
    } else {
        attachments_size(s.drop_last()) + attachment_size(s.last())
    }
}

/// Encoded size of a message record.
pub open spec fn message_size(m: MessageView) -> int {
    MESSAGE_FIXED_BYTES + text_bytes(m.conversation_id) + m.sender_id.len() + m.recipient_id.len()
        + text_bytes(m.content) + attachments_size(m.attachments)
}

/// Total bytes of a list of identities.
pub open spec fn identities_size(s: Seq<Seq<u8>>) -> int
    decreases s.len(),
{
    if s.len() == 0 {
        0
    } else {
        identities_size(s.drop_last()) + s.last().len()
    }
}

/// Encoded size of a conversation record.
pub open spec fn conversation_size(c: ConversationView) -> int {
    CONVERSATION_FIXED_BYTES + text_bytes(c.id) + identities_size(c.participants) + opt_bytes(
        c.metadata.title,
    ) + opt_bytes(c.metadata.description) + opt_bytes(c.metadata.session_id) + text_bytes(
        c.metadata.encryption_key_id,
    )
}

/// Encoded size of a key record.
pub open spec fn user_key_size(k: UserKeyView) -> int {
    USER_KEY_FIXED_BYTES + k.user_id.len() + text_bytes(k.public_key)
}

/// `x`, or `cap + 1` when `x` exceeds `cap`.
pub open spec fn capped(x: int, cap: u64) -> int {
    if x > cap {
        cap + 1
    } else {
        x
    }
}

proof fn lemma_attachments_size_nonneg(s: Seq<AttachmentView>)
    ensures
        attachments_size(s) >= 0,
    decreases s.len(),
{
    if s.len() > 0 {
        lemma_attachments_size_nonneg(s.drop_last());
    }
}

proof fn lemma_identities_size_nonneg(s: Seq<Seq<u8>>)
    ensures
        identities_size(s) >= 0,
    decreases s.len(),
{
    if s.len() > 0 {
        lemma_identities_size_nonneg(s.drop_last());
    }
}

fn add_capped(acc: u64, n: usize, cap: u64) -> (r: u64)
    requires
        acc <= cap + 1,
        cap < u64::MAX,
    ensures
        r == capped(acc + n, cap),
{
    if acc > cap {
        acc
    } else if n as u64 > cap - acc {
        cap + 1
    } else {
        acc + n as u64
    }
}

fn text_len(s: &String) -> (r: usize)
    ensures
        r == text_bytes(s@),
{
    s.as_str().as_bytes().len()
}

fn opt_len(o: &Option<String>) -> (r: usize)
    ensures
        r == opt_bytes(opt_text(*o)),
{
    match o {
        Some(s) => text_len(s),
        None => 0,
    }
}

fn attachments_fit(atts: &Vec<Attachment>, start: u64, cap: u64) -> (r: u64)
    requires
        start <= cap + 1,
        cap < u64::MAX,
    ensures
        r == capped(start + attachments_size(attachment_views(atts@)), cap),
{
    let ghost v = attachment_views(atts@);
    let mut acc = start;
    let mut i: usize = 0;
    while i < atts.len()
        invariant
            i <= atts@.len(),
            cap < u64::MAX,
            v == attachment_views(atts@),
            acc <= cap + 1,
            acc == capped(start + attachments_size(v.take(i as int)), cap),
        decreases atts.len() - i,
    {
        let a = &atts[i];
        proof {
            assert(v.take(i + 1).drop_last() =~= v.take(i as int));
            assert(v.take(i + 1).last() == a@);
        }
        acc = add_capped(acc, ATTACHMENT_FIXED_BYTES as usize, cap);
        acc = add_capped(acc, text_len(&a.id), cap);
        acc = add_capped(acc, text_len(&a.filename), cap);
        acc = add_capped(acc, text_len(&a.content_type), cap);
        acc = add_capped(acc, text_len(&a.encrypted_data), cap);
        i = i + 1;
    }
    assert(v.take(atts@.len() as int) =~= v);
    acc
}

/// Whether a message record stays within `MESSAGE_MAX_BYTES`.
pub fn message_fits(m: &Message) -> (r: bool)
    ensures
        r == (message_size(m@) <= MESSAGE_MAX_BYTES),
{
    let cap = MESSAGE_MAX_BYTES;
    let mut acc: u64 = MESSAGE_FIXED_BYTES;
    acc = add_capped(acc, text_len(&m.conversation_id), cap);
    acc = add_capped(acc, m.sender_id.as_slice().len(), cap);
    acc = add_capped(acc, m.recipient_id.as_slice().len(), cap);
    acc = add_capped(acc, text_len(&m.content), cap);
    acc = attachments_fit(&m.attachments, acc, cap);
    proof {
        lemma_attachments_size_nonneg(attachment_views(m.attachments@));
    }
    acc <= cap
}

fn identities_fit(ps: &Vec<Principal>, start: u64, cap: u64) -> (r: u64)
    requires
        start <= cap + 1,
        cap < u64::MAX,
    ensures
        r == capped(start + identities_size(principal_views(ps@)), cap),
{
    let ghost v = principal_views(ps@);
    let mut acc = start;
    let mut i: usize = 0;
    while i < ps.len()
        invariant
            i <= ps@.len(),
            cap < u64::MAX,
            v == principal_views(ps@),
            acc <= cap + 1,
            acc == capped(start + identities_size(v.take(i as int)), cap),
        decreases ps.len() - i,
    {
        proof {
            assert(v.take(i + 1).drop_last() =~= v.take(i as int));
            assert(v.take(i + 1).last() == ps@[i as int]@);
        }
        acc = add_capped(acc, ps[i].as_slice().len(), cap);
        i = i + 1;
    }
    assert(v.take(ps@.len() as int) =~= v);
    acc
}

/// Whether a conversation record stays within `CONVERSATION_MAX_BYTES`.
pub fn conversation_fits(c: &Conversation) -> (r: bool)
    ensures
        r == (conversation_size(c@) <= CONVERSATION_MAX_BYTES),
{
    let cap = CONVERSATION_MAX_BYTES;
    let mut acc: u64 = CONVERSATION_FIXED_BYTES;
    acc = add_capped(acc, text_len(&c.id), cap);
    acc = identities_fit(&c.participants, acc, cap);
    proof {
        lemma_identities_size_nonneg(principal_views(c.participants@));
    }
    acc = add_capped(acc, opt_len(&c.metadata.title), cap);
    acc = add_capped(acc, opt_len(&c.metadata.description), cap);
    acc = add_capped(acc, opt_len(&c.metadata.session_id), cap);
    acc = add_capped(acc, text_len(&c.metadata.encryption_key_id), cap);
    acc <= cap
}

/// Whether a key record stays within `USER_KEY_MAX_BYTES`.
pub fn user_key_fits(k: &UserKey) -> (r: bool)
    ensures
        r == (user_key_size(k@) <= USER_KEY_MAX_BYTES),
{
    let cap = USER_KEY_MAX_BYTES;
    let mut acc: u64 = USER_KEY_FIXED_BYTES;
    acc = add_capped(acc, k.user_id.as_slice().len(), cap);
    acc = add_capped(acc, text_len(&k.public_key), cap);
    acc <= cap
}

} // verus!
