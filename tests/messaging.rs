use secure_messaging::error::MessagingError;
use secure_messaging::guard::{NonceRecord, RateLimit};
use secure_messaging::model::{
    Attachment, ConversationMetadata, ConversationType, KeyType, MessageType,
};
use secure_messaging::principal::Principal;
use secure_messaging::store::MessagingStore;

const NOW: u64 = 1_700_000_000_000;

fn principal(bytes: &[u8]) -> Principal {
    Principal::from_slice(bytes).unwrap()
}

fn alice() -> Principal {
    principal(&[1, 2, 3, 4, 5, 6, 7, 8])
}

fn bob() -> Principal {
    principal(&[9, 10, 11, 12, 13, 14, 15, 16])
}

fn carol() -> Principal {
    principal(&[17, 18, 19, 20, 21, 22, 23, 24])
}

fn metadata() -> ConversationMetadata {
    ConversationMetadata {
        title: Some("chat".to_string()),
        description: None,
        session_id: None,
        encryption_key_id: "key-1".to_string(),
    }
}

fn direct_conversation(store: &mut MessagingStore, a: &Principal, b: &Principal, now: u64) -> String {
    let r = store.create_conversation(
        a,
        vec![a.duplicate(), b.duplicate()],
        ConversationType::DirectMessage,
        metadata(),
        now,
    );
    assert!(r.success);
    r.conversation.unwrap().id
}

fn send_text(
    store: &mut MessagingStore,
    from: &Principal,
    cid: &str,
    to: &Principal,
    text: &str,
    nonce: &str,
    now: u64,
) -> secure_messaging::model::MessageResult {
    store.send_message(
        from,
        cid.to_string(),
        to.duplicate(),
        text.to_string(),
        MessageType::Text,
        None,
        Vec::new(),
        nonce.to_string(),
        now,
        now,
    )
}

#[test]
fn hello_is_read_back_by_recipient_and_hidden_from_outsider() {
    let mut store = MessagingStore::new();
    let (a, b, c) = (alice(), bob(), carol());
    let cid = direct_conversation(&mut store, &a, &b, NOW);
    let sent = send_text(&mut store, &a, &cid, &b, "hello", "n1", NOW);
    assert!(sent.success);
    let stored = sent.message.unwrap();
    assert_ne!(stored.content, "hello");
    assert!(stored.content.starts_with("{\"encrypted_content\":\""));
    let read = store.get_conversation_messages(&b, &cid, None, None);
    assert_eq!(read.len(), 1);
    assert_eq!(read[0].content, "hello");
    assert_eq!(read[0].id, 1);
    let outsider = store.get_conversation_messages(&c, &cid, None, None);
    assert!(outsider.is_empty());
}

#[test]
fn only_recipient_marks_read() {
    let mut store = MessagingStore::new();
    let (a, b) = (alice(), bob());
    let cid = direct_conversation(&mut store, &a, &b, NOW);
    let sent = send_text(&mut store, &a, &cid, &b, "hi there", "n1", NOW);
    let id = sent.message.unwrap().id;
    assert_eq!(store.mark_message_read(&a, id), Err(MessagingError::Authorization));
    assert_eq!(store.mark_message_read(&b, id), Ok(()));
    assert_eq!(store.mark_message_read(&b, 99), Err(MessagingError::NotFound));
    let read = store.get_conversation_messages(&a, &cid, None, None);
    assert!(read[0].is_read);
}

#[test]
fn oversized_content_is_rejected_before_storage() {
    let mut store = MessagingStore::new();
    let (a, b) = (alice(), bob());
    let cid = direct_conversation(&mut store, &a, &b, NOW);
    let long = "a".repeat(10_001);
    let r = send_text(&mut store, &a, &cid, &b, &long, "n1", NOW);
    assert!(!r.success);
    assert!(r.message.is_none());
    assert_eq!(r.error, Some(MessagingError::Validation));
    assert_eq!(store.message_count(), 0);
    let longest = "a".repeat(10_000);
    let too_big = send_text(&mut store, &a, &cid, &b, &longest, "n2", NOW);
    assert_eq!(too_big.error, Some(MessagingError::Validation));
    assert_eq!(store.message_count(), 0);
}

#[test]
fn message_records_stay_within_ten_kilobytes() {
    let mut store = MessagingStore::new();
    let (a, b) = (alice(), bob());
    let cid = direct_conversation(&mut store, &a, &b, NOW);
    let over = send_text(&mut store, &a, &cid, &b, &"a".repeat(7_555), "n1", NOW);
    assert_eq!(over.error, Some(MessagingError::Validation));
    let fits = send_text(&mut store, &a, &cid, &b, &"a".repeat(7_554), "n2", NOW);
    assert!(fits.success);
    let big = store.send_message(
        &a,
        cid.clone(),
        b.duplicate(),
        "small".to_string(),
        MessageType::File,
        None,
        vec![Attachment {
            id: "big".to_string(),
            filename: "big.bin".to_string(),
            content_type: "application/octet-stream".to_string(),
            size: 20_000,
            encrypted_data: "x".repeat(20_000),
        }],
        "n3".to_string(),
        NOW,
        NOW,
    );
    assert_eq!(big.error, Some(MessagingError::Validation));
    assert_eq!(store.message_count(), 1);
}

#[test]
fn duplicate_participants_are_not_two_identities() {
    let mut store = MessagingStore::new();
    let a = alice();
    let r = store.create_conversation(
        &a,
        vec![a.duplicate(), a.duplicate()],
        ConversationType::DirectMessage,
        metadata(),
        NOW,
    );
    assert_eq!(r.error, Some(MessagingError::Validation));
    assert_eq!(store.conversation_count(), 0);
}

#[test]
fn oversized_conversation_and_key_records_fail() {
    let mut store = MessagingStore::new();
    let (a, b) = (alice(), bob());
    let mut md = metadata();
    md.title = Some("t".repeat(3_000));
    let r = store.create_conversation(
        &a,
        vec![a.duplicate(), b.duplicate()],
        ConversationType::GroupChat,
        md,
        NOW,
    );
    assert_eq!(r.error, Some(MessagingError::Validation));
    assert_eq!(store.conversation_count(), 0);
    assert_eq!(
        store.register_user_key(&a, "k".repeat(2_000), KeyType::Ed25519, NOW).err(),
        Some(MessagingError::Validation)
    );
    assert_eq!(store.register_user_key(&a, "k".repeat(992), KeyType::Ed25519, NOW).map(|k| k.public_key.len()).ok(), Some(992));
    assert_eq!(
        store.register_user_key(&a, "k".repeat(993), KeyType::Ed25519, NOW).err(),
        Some(MessagingError::Validation)
    );
}

#[test]
fn creating_same_participant_set_twice_conflicts() {
    let mut store = MessagingStore::new();
    let (a, b) = (alice(), bob());
    direct_conversation(&mut store, &a, &b, NOW);
    let again = store.create_conversation(
        &a,
        vec![b.duplicate(), a.duplicate()],
        ConversationType::DirectMessage,
        metadata(),
        NOW + 1,
    );
    assert!(!again.success);
    assert!(again.conversation.is_none());
    assert_eq!(again.error, Some(MessagingError::Conflict));
    assert_eq!(store.conversation_count(), 1);
}

#[test]
fn invalid_conversation_requests_write_nothing() {
    let mut store = MessagingStore::new();
    let (a, b, c) = (alice(), bob(), carol());
    let alone = store.create_conversation(&a, vec![a.duplicate()], ConversationType::GroupChat, metadata(), NOW);
    assert_eq!(alone.error, Some(MessagingError::Validation));
    let absent = store.create_conversation(
        &c,
        vec![a.duplicate(), b.duplicate()],
        ConversationType::GroupChat,
        metadata(),
        NOW,
    );
    assert_eq!(absent.error, Some(MessagingError::Validation));
    let anonymous = Principal::anonymous();
    let anon = store.create_conversation(
        &anonymous,
        vec![anonymous.duplicate(), a.duplicate()],
        ConversationType::GroupChat,
        metadata(),
        NOW,
    );
    assert_eq!(anon.error, Some(MessagingError::Validation));
    assert_eq!(store.conversation_count(), 0);
}

#[test]
fn reused_nonce_is_a_replay_across_conversations() {
    let mut store = MessagingStore::new();
    let (a, b, c) = (alice(), bob(), carol());
    let first = direct_conversation(&mut store, &a, &b, NOW);
    let second = direct_conversation(&mut store, &a, &c, NOW);
    assert!(send_text(&mut store, &a, &first, &b, "one", "shared", NOW).success);
    let again = send_text(&mut store, &a, &second, &c, "two", "shared", NOW + 5);
    assert_eq!(again.error, Some(MessagingError::Replay));
    assert_eq!(store.message_count(), 1);
}

#[test]
fn fifty_first_send_in_window_is_rate_limited() {
    let mut store = MessagingStore::new();
    let (a, b) = (alice(), bob());
    let cid = direct_conversation(&mut store, &a, &b, NOW);
    for i in 0..50 {
        let r = send_text(&mut store, &a, &cid, &b, "msg", &format!("nonce-{}", i), NOW + i);
        assert!(r.success, "call {} failed", i);
    }
    let limited = send_text(&mut store, &a, &cid, &b, "msg", "nonce-50", NOW + 50);
    assert_eq!(limited.error, Some(MessagingError::RateLimit));
    let later = send_text(&mut store, &a, &cid, &b, "msg", "nonce-51", NOW + 60_000);
    assert!(later.success);
    assert_eq!(store.message_count(), 51);
}

#[test]
fn deleted_messages_are_not_listed() {
    let mut store = MessagingStore::new();
    let (a, b) = (alice(), bob());
    let cid = direct_conversation(&mut store, &a, &b, NOW);
    let first = send_text(&mut store, &a, &cid, &b, "first", "n1", NOW).message.unwrap().id;
    send_text(&mut store, &b, &cid, &a, "second", "n2", NOW + 1);
    assert_eq!(store.delete_message(&b, first), Err(MessagingError::Authorization));
    assert_eq!(store.delete_message(&a, first), Ok(()));
    assert_eq!(store.delete_message(&a, 0), Err(MessagingError::NotFound));
    let read = store.get_conversation_messages(&a, &cid, None, None);
    assert_eq!(read.len(), 1);
    assert_eq!(read[0].content, "second");
    assert_eq!(store.message_count(), 2);
}

#[test]
fn messages_page_newest_first_with_offset_and_limit() {
    let mut store = MessagingStore::new();
    let (a, b, c) = (alice(), bob(), carol());
    let cid = direct_conversation(&mut store, &a, &b, NOW);
    let other = direct_conversation(&mut store, &a, &c, NOW);
    for i in 0..5u64 {
        send_text(&mut store, &a, &cid, &b, &format!("m{}", i), &format!("x{}", i), NOW + i);
    }
    send_text(&mut store, &a, &other, &c, "elsewhere", "y", NOW + 9);
    let all = store.get_conversation_messages(&b, &cid, None, None);
    let texts: Vec<String> = all.iter().map(|m| m.content.clone()).collect();
    assert_eq!(texts, vec!["m4", "m3", "m2", "m1", "m0"]);
    let page = store.get_conversation_messages(&b, &cid, Some(2), Some(1));
    let texts: Vec<String> = page.iter().map(|m| m.content.clone()).collect();
    assert_eq!(texts, vec!["m3", "m2"]);
    assert!(store.get_conversation_messages(&b, &cid, Some(0), None).is_empty());
    assert!(store.get_conversation_messages(&b, &cid, None, Some(10)).is_empty());
    assert!(store.get_conversation_messages(&b, "", None, None).is_empty());
    assert!(store.get_conversation_messages(&b, "missing", None, None).is_empty());
}

#[test]
fn content_is_sanitized_before_sealing() {
    let mut store = MessagingStore::new();
    let (a, b) = (alice(), bob());
    let cid = direct_conversation(&mut store, &a, &b, NOW);
    assert!(send_text(&mut store, &a, &cid, &b, "  hi \u{7}  there\n\tyou ", "n1", NOW).success);
    let read = store.get_conversation_messages(&b, &cid, None, None);
    assert_eq!(read[0].content, "hi there you");
}

#[test]
fn attachments_are_sealed_and_read_back() {
    let mut store = MessagingStore::new();
    let (a, b) = (alice(), bob());
    let cid = direct_conversation(&mut store, &a, &b, NOW);
    let attachments = vec![
        Attachment {
            id: "att1".to_string(),
            filename: "notes.txt".to_string(),
            content_type: "text/plain".to_string(),
            size: 5,
            encrypted_data: "abcde".to_string(),
        },
        Attachment {
            id: "att2".to_string(),
            filename: "empty.bin".to_string(),
            content_type: "application/octet-stream".to_string(),
            size: 0,
            encrypted_data: String::new(),
        },
    ];
    let r = store.send_message(
        &a,
        cid.clone(),
        b.duplicate(),
        "see attached".to_string(),
        MessageType::File,
        Some(7),
        attachments,
        "n1".to_string(),
        NOW,
        NOW,
    );
    let stored = r.message.unwrap();
    assert_ne!(stored.attachments[0].encrypted_data, "abcde");
    assert_eq!(stored.attachments[1].encrypted_data, "");
    assert_eq!(stored.reply_to, Some(7));
    let read = store.get_conversation_messages(&b, &cid, None, None);
    assert_eq!(read[0].attachments[0].encrypted_data, "abcde");
    assert_eq!(read[0].attachments[0].filename, "notes.txt");
    assert_eq!(read[0].attachments[1].encrypted_data, "");
}

#[test]
fn send_errors_follow_check_order() {
    let mut store = MessagingStore::new();
    let (a, b, c) = (alice(), bob(), carol());
    let cid = direct_conversation(&mut store, &a, &b, NOW);
    assert_eq!(send_text(&mut store, &a, &cid, &b, "x", "", NOW).error, Some(MessagingError::Validation));
    let future = store.send_message(
        &a,
        cid.clone(),
        b.duplicate(),
        "x".to_string(),
        MessageType::Text,
        None,
        Vec::new(),
        "f".to_string(),
        NOW + 60_001,
        NOW,
    );
    assert_eq!(future.error, Some(MessagingError::Replay));
    let stale = store.send_message(
        &a,
        cid.clone(),
        b.duplicate(),
        "x".to_string(),
        MessageType::Text,
        None,
        Vec::new(),
        "o".to_string(),
        NOW - 300_001,
        NOW,
    );
    assert_eq!(stale.error, Some(MessagingError::Replay));
    assert_eq!(send_text(&mut store, &a, &cid, &b, "   ", "e", NOW).error, Some(MessagingError::Validation));
    assert_eq!(send_text(&mut store, &a, "nope", &b, "x", "g", NOW).error, Some(MessagingError::NotFound));
    assert_eq!(send_text(&mut store, &c, &cid, &b, "x", "h", NOW).error, Some(MessagingError::Authorization));
    assert_eq!(send_text(&mut store, &a, &cid, &c, "x", "i", NOW).error, Some(MessagingError::Authorization));
    assert_eq!(store.message_count(), 0);
}

#[test]
fn user_conversations_latest_first_without_archived() {
    let mut store = MessagingStore::new();
    let (a, b, c) = (alice(), bob(), carol());
    let ab = direct_conversation(&mut store, &a, &b, NOW);
    let ac = direct_conversation(&mut store, &a, &c, NOW + 10);
    let listed: Vec<String> = store.get_user_conversations(&a).iter().map(|c| c.id.clone()).collect();
    assert_eq!(listed, vec![ac.clone(), ab.clone()]);
    send_text(&mut store, &a, &ab, &b, "bump", "n1", NOW + 20);
    let listed: Vec<String> = store.get_user_conversations(&a).iter().map(|c| c.id.clone()).collect();
    assert_eq!(listed, vec![ab.clone(), ac.clone()]);
    assert_eq!(store.get_user_conversations(&b).len(), 1);
    assert_eq!(store.archive_conversation(&c, &ab, NOW + 30), Err(MessagingError::Authorization));
    assert_eq!(store.archive_conversation(&a, "none", NOW + 30), Err(MessagingError::NotFound));
    assert_eq!(store.archive_conversation(&b, &ab, NOW + 30), Ok(()));
    let listed: Vec<String> = store.get_user_conversations(&a).iter().map(|c| c.id.clone()).collect();
    assert_eq!(listed, vec![ac]);
    assert_eq!(store.get_conversation_messages(&a, &ab, None, None).len(), 1);
}

#[test]
fn user_keys_register_and_overwrite() {
    let mut store = MessagingStore::new();
    let a = alice();
    assert_eq!(
        store.register_user_key(&a, String::new(), KeyType::Ed25519, NOW).err(),
        Some(MessagingError::Validation)
    );
    let k = store.register_user_key(&a, "pk1".to_string(), KeyType::Ed25519, NOW).unwrap();
    assert_eq!(k.public_key, "pk1");
    assert!(k.is_active);
    store.register_user_key(&a, "pk2".to_string(), KeyType::ECDSA, NOW + 1).unwrap();
    let got = store.get_user_key(&a).unwrap();
    assert_eq!(got.public_key, "pk2");
    assert_eq!(got.key_type, KeyType::ECDSA);
    assert_eq!(got.created_at, NOW + 1);
    assert!(store.get_user_key(&bob()).is_none());
    assert!(store.get_user_key(&Principal::anonymous()).is_none());
    assert_eq!(
        store.register_user_key(&Principal::anonymous(), "pk".to_string(), KeyType::RSA2048, NOW).err(),
        Some(MessagingError::Validation)
    );
    let stats = store.get_stats(NOW + 5);
    assert_eq!(stats.total_user_keys, 1);
    assert_eq!(stats.timestamp, NOW + 5);
}

#[test]
fn conversation_key_labels() {
    let mut store = MessagingStore::new();
    let (a, b, c) = (alice(), bob(), carol());
    let cid = direct_conversation(&mut store, &a, &b, NOW);
    let label = store.generate_conversation_phi_key(&a, &cid, 1234).unwrap();
    assert_eq!(label, format!("phi_conv_{}_1234", cid));
    let rotated = store.rotate_conversation_phi_key(&b, &cid, &label, 99).unwrap();
    assert_eq!(rotated, format!("phi_conv_{}_99", cid));
    assert_eq!(store.generate_conversation_phi_key(&c, &cid, 1), Err(MessagingError::Authorization));
    assert_eq!(store.generate_conversation_phi_key(&a, "zzz", 1), Err(MessagingError::NotFound));
    assert_eq!(store.generate_conversation_phi_key(&a, "", 1), Err(MessagingError::Validation));
    let stats = store.get_stats(7);
    assert_eq!(stats.total_conversations, 1);
    assert_eq!(stats.total_messages, 0);
}

#[test]
fn restored_store_keeps_records_windows_and_nonces() {
    let mut store = MessagingStore::new();
    let (a, b) = (alice(), bob());
    let cid = direct_conversation(&mut store, &a, &b, NOW);
    assert!(send_text(&mut store, &a, &cid, &b, "kept", "n1", NOW).success);
    store.register_user_key(&b, "pk".to_string(), KeyType::ECDSA, NOW).unwrap();
    let rebuild = |s: &MessagingStore| {
        MessagingStore::restore(
            s.conversation_list().iter().map(|c| c.duplicate()).collect(),
            s.message_list().iter().map(|m| m.duplicate()).collect(),
            s.user_key_list().iter().map(|k| k.duplicate()).collect(),
            s.rate_limit_list()
                .iter()
                .map(|r| RateLimit {
                    principal: r.principal.duplicate(),
                    call_count: r.call_count,
                    window_start: r.window_start,
                    window_duration: r.window_duration,
                })
                .collect(),
            s.nonce_list()
                .iter()
                .map(|n| NonceRecord { nonce: n.nonce.clone(), timestamp: n.timestamp })
                .collect(),
        )
    };
    let mut restored = rebuild(&store).unwrap();
    assert_eq!(restored.message_count(), 1);
    assert_eq!(restored.get_conversation_messages(&b, &cid, None, None)[0].content, "kept");
    assert_eq!(restored.get_user_key(&b).unwrap().public_key, "pk");
    let replay = send_text(&mut restored, &a, &cid, &b, "again", "n1", NOW + 1);
    assert_eq!(replay.error, Some(MessagingError::Replay));
    assert_eq!(restored.rate_limit_list()[0].call_count, 2);
    let dup = MessagingStore::restore(
        vec![store.conversation_list()[0].duplicate(), store.conversation_list()[0].duplicate()],
        Vec::new(),
        Vec::new(),
        Vec::new(),
        Vec::new(),
    );
    assert!(dup.is_none());
    let bad_nonce = MessagingStore::restore(
        Vec::new(),
        Vec::new(),
        Vec::new(),
        Vec::new(),
        vec![NonceRecord { nonce: String::new(), timestamp: 1 }],
    );
    assert!(bad_nonce.is_none());
}
