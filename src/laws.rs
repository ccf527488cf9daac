use vstd::prelude::*;
use crate::error::MessagingError;
use crate::guard::{rate_limited, window_active, window_after, WindowView, SEND_MAX_CALLS, SEND_WINDOW_MS};
use crate::keys::{conversation_id_of, lemma_id_ignores_order};
use crate::model::{AttachmentView, MessageType, MessageView};
use crate::service::{page, read_page, send_failure, visible_newest_first};
use crate::store::MessagingStore;

verus! {

/// Once a conversation exists for a participant set, the same members in any
/// order name that same conversation, so creating it again is a conflict.
pub proof fn lemma_same_members_same_conversation(s: MessagingStore, p1: Seq<Seq<u8>>, p2: Seq<Seq<u8>>)
    requires
        s.conversation(conversation_id_of(p1)) is Some,
        p1.to_multiset() == p2.to_multiset(),
    ensures
        s.conversation(conversation_id_of(p2)) is Some,
{
    lemma_id_ignores_order(p1, p2);
}

/// A nonce that is still recorded makes any send that gets past the rate limit
/// a replay, whatever conversation it targets.
pub proof fn lemma_recorded_nonce_is_replay(
    s: MessagingStore,
    caller: Seq<u8>,
    recipient: Seq<u8>,
    conversation_id: Seq<char>,
    content: Seq<char>,
    message_type: MessageType,
    reply_to: Option<u64>,
    attachments: Seq<AttachmentView>,
    nonce: Seq<char>,
    timestamp: u64,
    now: u64,
)
    requires
        s.wf(),
        s.nonce_seen(nonce) is Some,
        !rate_limited(s.rate_window(caller), SEND_MAX_CALLS, SEND_WINDOW_MS, now),
    ensures
        send_failure(
            s,
            caller,
            recipient,
            conversation_id,
            content,
            message_type,
            reply_to,
            attachments,
            nonce,
            timestamp,
            now,
        ) == Some(
            MessagingError::Replay,
        ),
{
    s.lemma_recorded_nonces_nonempty(nonce);
}

/// Within an open window, calls are counted up; the call after the 50th is
/// refused; once the window has elapsed a call is accepted and starts a new
/// window.
pub proof fn lemma_send_rate_window(w: WindowView, now: u64)
    ensures
        window_active(w.window_start, now, SEND_WINDOW_MS) && w.call_count < SEND_MAX_CALLS ==> !rate_limited(
            Some(w),
            SEND_MAX_CALLS,
            SEND_WINDOW_MS,
            now,
        ) && window_after(Some(w), SEND_WINDOW_MS, now).call_count == w.call_count + 1,
        window_active(w.window_start, now, SEND_WINDOW_MS) && w.call_count >= SEND_MAX_CALLS
            ==> rate_limited(Some(w), SEND_MAX_CALLS, SEND_WINDOW_MS, now),
        !window_active(w.window_start, now, SEND_WINDOW_MS) ==> !rate_limited(
            Some(w),
            SEND_MAX_CALLS,
            SEND_WINDOW_MS,
            now,
        ) && window_after(Some(w), SEND_WINDOW_MS, now) == (WindowView {
            call_count: 1,
            window_start: now,
            window_duration: SEND_WINDOW_MS,
        }),
{
}

proof fn lemma_visible_members(ms: Seq<MessageView>, cid: Seq<char>)
    ensures
        forall|j: int|
            0 <= j < visible_newest_first(ms, cid).len() ==> (#[trigger] visible_newest_first(ms, cid)[j]).conversation_id
                == cid && !visible_newest_first(ms, cid)[j].is_deleted,
    decreases ms.len(),
{
    if ms.len() > 0 {
        lemma_visible_members(ms.drop_last(), cid);
        let rest = visible_newest_first(ms.drop_last(), cid);
        if ms.last().conversation_id == cid && !ms.last().is_deleted {
            assert forall|j: int| 0 <= j < visible_newest_first(ms, cid).len() implies (
            #[trigger] visible_newest_first(ms, cid)[j]).conversation_id == cid
                && !visible_newest_first(ms, cid)[j].is_deleted by {
                if j > 0 {
                    assert(visible_newest_first(ms, cid)[j] == rest[j - 1]);
                }
            }
        }
    }
}

/// A page of messages read from a conversation holds only messages of that
/// conversation, and none that is deleted.
pub proof fn lemma_page_only_visible(ms: Seq<MessageView>, cid: Seq<char>, offset: nat, limit: nat, key: Seq<u8>)
    ensures
        forall|j: int|
            0 <= j < read_page(ms, cid, offset, limit, key).len() ==> (#[trigger] read_page(
                ms,
                cid,
                offset,
                limit,
                key,
            )[j]).conversation_id == cid && !read_page(ms, cid, offset, limit, key)[j].is_deleted,
{
    lemma_visible_members(ms, cid);
    let v = visible_newest_first(ms, cid);
    let p = page(v, offset, limit);
    assert forall|j: int| 0 <= j < p.len() implies p[j].conversation_id == cid && !p[j].is_deleted by {
        assert(p[j] == v[j + offset]);
    }
}

proof fn lemma_visible_from(ms: Seq<MessageView>, cid: Seq<char>)
    ensures
        forall|j: int|
            0 <= j < visible_newest_first(ms, cid).len() ==> exists|k: int|
                0 <= k < ms.len() && ms[k] == #[trigger] visible_newest_first(ms, cid)[j],
    decreases ms.len(),
{
    if ms.len() > 0 {
        let d = ms.drop_last();
        lemma_visible_from(d, cid);
        let v = visible_newest_first(ms, cid);
        let rest = visible_newest_first(d, cid);
        assert forall|j: int| 0 <= j < v.len() implies exists|k: int| 0 <= k < ms.len() && ms[k] == #[trigger] v[j] by {
            if ms.last().conversation_id == cid && !ms.last().is_deleted {
                if j == 0 {
                    assert(ms[ms.len() - 1] == v[0]);
                } else {
                    assert(v[j] == rest[j - 1]);
                    let k = choose|k: int| 0 <= k < d.len() && d[k] == #[trigger] rest[j - 1];
                    assert(ms[k] == d[k]);
                }
            } else {
                assert(v[j] == rest[j]);
                let k = choose|k: int| 0 <= k < d.len() && d[k] == #[trigger] rest[j];
                assert(ms[k] == d[k]);
            }
        }
    }
}

/// Every message a participant reads from a conversation is, under its id, a
/// stored message of that conversation that is not deleted.
pub proof fn lemma_page_ids_name_visible_records(
    s: MessagingStore,
    cid: Seq<char>,
    offset: nat,
    limit: nat,
    key: Seq<u8>,
)
    requires
        s.wf(),
    ensures
        forall|j: int|
            0 <= j < read_page(s.messages_view(), cid, offset, limit, key).len() ==> (s.message(
                (#[trigger] read_page(s.messages_view(), cid, offset, limit, key)[j]).id,
            ) matches Some(m) && m.conversation_id == cid && !m.is_deleted),
{
    let ms = s.messages_view();
    s.lemma_message_ids();
    lemma_visible_from(ms, cid);
    lemma_visible_members(ms, cid);
    let v = visible_newest_first(ms, cid);
    let p = page(v, offset, limit);
    let rp = read_page(ms, cid, offset, limit, key);
    assert forall|j: int| 0 <= j < rp.len() implies (s.message(#[trigger] rp[j].id) matches Some(m)
        && m.conversation_id == cid && !m.is_deleted) by {
        assert(p[j] == v[j + offset]);
        assert(rp[j].id == p[j].id);
        let k = choose|k: int| 0 <= k < ms.len() && ms[k] == #[trigger] v[j + offset];
        assert(ms[k].id == k + 1);
    }
}

} // verus!
