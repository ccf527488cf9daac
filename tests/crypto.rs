use base64::engine::general_purpose;
use base64::Engine;
use secure_messaging::cipher::{
    decrypt_bytes, decrypt_phi_data, encrypt_bytes, encrypt_phi_data, EncryptedData,
};
use secure_messaging::encoding::decimal_bytes;
use secure_messaging::envelope::{
    decrypt_attachment_data, decrypt_message_content, envelope_to_text, parse_envelope, seal_text,
};
use secure_messaging::error::MessagingError;
use secure_messaging::keys::{derive_conversation_key, generate_conversation_id};
use secure_messaging::ordering::sort_byte_strings;
use secure_messaging::principal::Principal;
use secure_messaging::service::generate_phi_encryption_key;
use hmac::{Hmac, Mac};
use sha2::{Digest, Sha256};

fn principal(bytes: &[u8]) -> Principal {
    Principal::from_slice(bytes).unwrap()
}

#[test]
fn byte_round_trip_including_invalid_utf8() {
    let key = [7u8; 32];
    for payload in [vec![], vec![0xff, 0xfe, 0x00, 0x80], (0..100u8).collect::<Vec<u8>>()] {
        let e = encrypt_bytes(&payload, &key, 42).unwrap();
        assert_eq!(decrypt_bytes(&e, &key).unwrap(), payload);
    }
}

#[test]
fn ciphertext_differs_and_nonce_has_twelve_bytes() {
    let key = [3u8; 32];
    let e = encrypt_bytes(b"attack at dawn", &key, 1000).unwrap();
    let ct = general_purpose::STANDARD.decode(&e.encrypted_content).unwrap();
    assert_eq!(ct.len(), 14);
    assert_ne!(ct, b"attack at dawn".to_vec());
    let nonce = general_purpose::STANDARD.decode(&e.nonce).unwrap();
    let expected_nonce = Sha256::digest(b"100014");
    assert_eq!(nonce, expected_nonce[..12].to_vec());
    let key_digest = Sha256::digest(key);
    assert_eq!(e.key_id, format!("phi_key_{}", hex::encode(&key_digest[..8])));
}

#[test]
fn text_round_trip() {
    let key = [9u8; 32];
    let e = encrypt_phi_data("héllo wörld", &key, 5).unwrap();
    assert_eq!(decrypt_phi_data(&e, &key).unwrap(), "héllo wörld");
}

#[test]
fn wrong_key_lengths_are_crypto_errors() {
    let short = [1u8; 16];
    assert_eq!(encrypt_bytes(b"x", &short, 1).err(), Some(MessagingError::Crypto));
    let e = encrypt_bytes(b"x", &[1u8; 32], 1).unwrap();
    assert_eq!(decrypt_bytes(&e, &short).err(), Some(MessagingError::Crypto));
    let bad = EncryptedData {
        encrypted_content: "!!!".to_string(),
        nonce: e.nonce.clone(),
        key_id: e.key_id.clone(),
    };
    assert_eq!(decrypt_bytes(&bad, &[1u8; 32]).err(), Some(MessagingError::Crypto));
    let short_nonce = EncryptedData {
        encrypted_content: e.encrypted_content.clone(),
        nonce: general_purpose::STANDARD.encode([0u8; 8]),
        key_id: e.key_id.clone(),
    };
    assert_eq!(decrypt_bytes(&short_nonce, &[1u8; 32]).err(), Some(MessagingError::Crypto));
}

#[test]
fn non_utf8_plaintext_fails_as_text() {
    let key = [4u8; 32];
    let e = encrypt_bytes(&[0xff, 0xff], &key, 3).unwrap();
    assert_eq!(decrypt_phi_data(&e, &key).err(), Some(MessagingError::Crypto));
}

#[test]
fn conversation_key_ignores_participant_order() {
    let a = principal(&[1, 2, 3]);
    let b = principal(&[9, 9]);
    let c = principal(&[1, 2, 4]);
    let k1 = derive_conversation_key(&[a.duplicate(), b.duplicate(), c.duplicate()]).unwrap();
    let k2 = derive_conversation_key(&[c.duplicate(), a.duplicate(), b.duplicate()]).unwrap();
    assert_eq!(k1, k2);
    assert_eq!(k1.len(), 32);
    let mut data = vec![9u8, 9, 1, 2, 3, 1, 2, 4];
    data.extend_from_slice(b"mentalverse_phi_encryption_v1");
    assert_eq!(k1, Sha256::digest(&data).to_vec());
    let k3 = derive_conversation_key(&[a.duplicate(), b.duplicate()]).unwrap();
    assert_ne!(k1, k3);
}

#[test]
fn conversation_id_ignores_participant_order() {
    let a = principal(&[1, 2, 3, 4, 5]);
    let b = principal(&[6, 7, 8, 9, 10]);
    let id1 = generate_conversation_id(&[a.duplicate(), b.duplicate()]);
    let id2 = generate_conversation_id(&[b.duplicate(), a.duplicate()]);
    assert_eq!(id1, id2);
    assert_eq!(id1.len(), 16);
    let ta = candid::Principal::from_slice(&[1, 2, 3, 4, 5]).to_text();
    let tb = candid::Principal::from_slice(&[6, 7, 8, 9, 10]).to_text();
    let mut texts = vec![ta, tb];
    texts.sort();
    let joined = texts.join("-");
    let expected = format!("{:x}", Sha256::digest(joined.as_bytes()));
    assert_eq!(id1, expected[..16].to_string());
}

#[test]
fn sorting_orders_by_length_then_bytes() {
    let v = vec![vec![5u8, 1], vec![9u8], vec![1u8, 9], vec![]];
    assert_eq!(sort_byte_strings(v.clone(), true), vec![vec![], vec![9u8], vec![1u8, 9], vec![5u8, 1]]);
    assert_eq!(sort_byte_strings(v, false), vec![vec![], vec![1u8, 9], vec![5u8, 1], vec![9u8]]);
}

#[test]
fn envelope_text_round_trips() {
    let key = [2u8; 32];
    let e = encrypt_phi_data("hi", &key, 77).unwrap();
    let text = envelope_to_text(&e);
    assert_eq!(
        text,
        format!(
            "{{\"encrypted_content\":\"{}\",\"nonce\":\"{}\",\"key_id\":\"{}\"}}",
            e.encrypted_content, e.nonce, e.key_id
        )
    );
    let back = parse_envelope(&text).unwrap();
    assert_eq!(back.encrypted_content, e.encrypted_content);
    assert_eq!(back.nonce, e.nonce);
    assert_eq!(back.key_id, e.key_id);
    assert!(parse_envelope("plain text").is_none());
    assert!(parse_envelope(&format!("{} ", text)).is_none());
    assert!(parse_envelope("{\"encrypted_content\":\"a\\\"b\",\"nonce\":\"c\",\"key_id\":\"d\"}").is_none());
}

#[test]
fn stored_content_reads_back_for_participants() {
    let a = principal(&[1, 1, 1, 1, 1]);
    let b = principal(&[2, 2, 2, 2, 2]);
    let parts = [a.duplicate(), b.duplicate()];
    let key = derive_conversation_key(&parts).unwrap();
    let sealed = seal_text("secret", &key, 11).unwrap();
    assert_eq!(decrypt_message_content(&sealed, &parts).unwrap(), "secret");
    assert_eq!(decrypt_attachment_data(&sealed, &parts).unwrap(), "secret");
    assert_eq!(decrypt_message_content("legacy text", &parts).unwrap(), "legacy text");
    assert_eq!(decrypt_attachment_data("", &parts).unwrap(), "");
    assert_eq!(seal_text("x", &[0u8; 31], 1).err(), Some(MessagingError::Crypto));
}

#[test]
fn phi_key_material_from_time_and_caller() {
    let a = principal(&[1, 2, 3, 4, 5]);
    let k = generate_phi_encryption_key(&a, 123).unwrap();
    let text = candid::Principal::from_slice(&[1, 2, 3, 4, 5]).to_text();
    let expected = Sha256::digest(format!("123{}", text).as_bytes()).to_vec();
    assert_eq!(k, expected);
}

#[test]
fn decimal_text_of_numbers() {
    assert_eq!(decimal_bytes(0), b"0".to_vec());
    assert_eq!(decimal_bytes(1_700_000_000_123), b"1700000000123".to_vec());
    assert_eq!(decimal_bytes(u64::MAX), u64::MAX.to_string().into_bytes());
}

#[test]
fn ciphertext_is_plaintext_xor_tiled_hmac_keystream() {
    let key = [5u8; 32];
    let data: Vec<u8> = (0..40u8).collect();
    let e = encrypt_bytes(&data, &key, 9).unwrap();
    let nonce = general_purpose::STANDARD.decode(&e.nonce).unwrap();
    let mut mac = <Hmac<Sha256> as Mac>::new_from_slice(&key).unwrap();
    mac.update(&nonce);
    let ks = mac.finalize().into_bytes();
    let expected: Vec<u8> = data.iter().enumerate().map(|(i, b)| b ^ ks[i % 32]).collect();
    let ct = general_purpose::STANDARD.decode(&e.encrypted_content).unwrap();
    assert_eq!(ct, expected);
    assert_eq!(nonce, Sha256::digest(b"940")[..12].to_vec());
}
