use vstd::prelude::*;
use vstd::string::StringSliceAdditionalSpecFns;
use vstd::utf8::{decode_utf8, valid_utf8};
use crate::encoding::{
    base64_decode, base64_decoded, base64_encode, base64_of, decimal_bytes, decimal_digits,
    hex_encode, hex_of, is_base64_char,
};
use crate::error::MessagingError;
use crate::hashing::{hmac_sha256, hmac_sha256_of, sha256, sha256_of};
use crate::text::{chars_of, string_from_chars};

verus! {

/// Length in bytes of a conversation key.
pub const KEY_LEN: usize = 32;

/// Length in bytes of an envelope nonce.
pub const NONCE_LEN: usize = 12;

/// A ciphertext envelope: base64 ciphertext, base64 nonce, and a key label.
pub struct EncryptedData {
    pub encrypted_content: String,
    pub nonce: String,
    pub key_id: String,
}

/// The texts of an envelope.
pub struct EnvelopeView {
    pub encrypted_content: Seq<char>,
    pub nonce: Seq<char>,
    pub key_id: Seq<char>,
}

impl View for EncryptedData {
    type V = EnvelopeView;

    open spec fn view(&self) -> EnvelopeView {
        EnvelopeView {
            encrypted_content: self.encrypted_content@,
            nonce: self.nonce@,
            key_id: self.key_id@,
        }
    }
}

impl EncryptedData {
    /// A copy of this envelope.
    pub fn duplicate(&self) -> (r: EncryptedData)
        ensures
            r@ == self@,
    {
        EncryptedData {
            encrypted_content: self.encrypted_content.clone(),
            nonce: self.nonce.clone(),
            key_id: self.key_id.clone(),
        }
    }
}

/// The bytes hashed to make the nonce: the decimal time followed by the decimal length.
pub open spec fn nonce_seed(now: u64, len: nat) -> Seq<u8> {
    decimal_digits(now as nat) + decimal_digits(len)
}

/// The nonce for a payload of `len` bytes encrypted at time `now`.
pub open spec fn derived_nonce(now: u64, len: nat) -> Seq<u8> {
    sha256_of(nonce_seed(now, len)).take(NONCE_LEN as int)
}

/// `data` XORed with `ks` repeated to cover it.
pub open spec fn xor_tiled(data: Seq<u8>, ks: Seq<u8>) -> Seq<u8> {
    Seq::new(data.len(), |i: int| data[i] ^ ks[i % ks.len() as int])
}

/// The label of a key: "phi_key_" and the hex of the first 8 bytes of its digest.
pub open spec fn key_label(key: Seq<u8>) -> Seq<char> {
    seq!['p', 'h', 'i', '_', 'k', 'e', 'y', '_'] + hex_of(sha256_of(key).take(8))
}

/// The envelope for `data` under `key` at time `now`.
pub open spec fn encryption_of(data: Seq<u8>, key: Seq<u8>, now: u64) -> EnvelopeView {
    let nonce = derived_nonce(now, data.len());
    EnvelopeView {
        encrypted_content: base64_of(xor_tiled(data, hmac_sha256_of(key, nonce))),
        nonce: base64_of(nonce),
        key_id: key_label(key),
    }
}

/// The plaintext bytes of an envelope under `key`, if the key has 32 bytes, both
/// texts are base64, and the nonce has 12 bytes.
pub open spec fn decryption_of(e: EnvelopeView, key: Seq<u8>) -> Option<Seq<u8>> {
    if key.len() != KEY_LEN {
        None
    } else {
        match (base64_decoded(e.encrypted_content), base64_decoded(e.nonce)) {
            (Some(ct), Some(nonce)) => if nonce.len() == NONCE_LEN {
                Some(xor_tiled(ct, hmac_sha256_of(key, nonce)))
            } else {
                None
            },
            _ => None,
        }
    }
}

proof fn lemma_xor_twice(data: Seq<u8>, ks: Seq<u8>)
    requires
        ks.len() > 0,
    ensures
        xor_tiled(xor_tiled(data, ks), ks) == data,
{
    let once = xor_tiled(data, ks);
    let twice = xor_tiled(once, ks);
    assert forall|i: int| 0 <= i < data.len() implies twice[i] == data[i] by {
        let a = data[i];
        let b = ks[i % ks.len() as int];
        assert((a ^ b) ^ b == a) by (bit_vector);
    }
    assert(twice =~= data);
}

fn append_bytes(v: &mut Vec<u8>, b: &[u8])
    ensures
        final(v)@ == old(v)@ + b@,
{
    let ghost start = v@;
    let mut i: usize = 0;
    while i < b.len()
        invariant
            i <= b.len(),
            v@ == start + b@.take(i as int),
        decreases b.len() - i,
    {
        v.push(b[i]);
        assert(b@.take(i + 1) =~= b@.take(i as int).push(b@[i as int]));
        i = i + 1;
    }
    assert(b@.take(b.len() as int) =~= b@);
}

fn prefix_bytes(b: &[u8], n: usize) -> (r: Vec<u8>)
    requires
        n <= b@.len(),
    ensures
        r@ == b@.take(n as int),
{
    let mut out: Vec<u8> = Vec::new();
    let mut i: usize = 0;
    while i < n
        invariant
            i <= n,
            n <= b@.len(),
            out@ == b@.take(i as int),
        decreases n - i,
    {
        out.push(b[i]);
        assert(b@.take(i + 1) =~= b@.take(i as int).push(b@[i as int]));
        i = i + 1;
    }
    out
}

fn xor_with_keystream(data: &[u8], ks: &[u8]) -> (r: Vec<u8>)
    requires
        ks@.len() > 0,
    ensures
        r@ == xor_tiled(data@, ks@),
{
    let mut out: Vec<u8> = Vec::new();
    let mut i: usize = 0;
    while i < data.len()
        invariant
            i <= data.len(),
            ks@.len() > 0,
            out@ == xor_tiled(data@, ks@).take(i as int),
        decreases data.len() - i,
    {
        out.push(data[i] ^ ks[i % ks.len()]);
        assert(xor_tiled(data@, ks@).take(i + 1) =~= xor_tiled(data@, ks@).take(i as int).push(
            data@[i as int] ^ ks@[i as int % ks@.len() as int],
        ));
        i = i + 1;
    }
    assert(xor_tiled(data@, ks@).take(data.len() as int) =~= xor_tiled(data@, ks@));
    out
}

/// The label of a key, as text.
fn key_label_text(key: &[u8]) -> (r: String)
    ensures
        r@ == key_label(key@),
{
    let digest = sha256(key);
    let head = prefix_bytes(digest.as_slice(), 8);
    let hex = hex_encode(head.as_slice());
    let mut chars = chars_of("phi_key_");
    let hex_chars = chars_of(hex.as_str());
    let ghost start = chars@;
    let mut i: usize = 0;
    while i < hex_chars.len()
        invariant
            i <= hex_chars.len(),
            chars@ == start + hex_chars@.take(i as int),
        decreases hex_chars.len() - i,
    {
        chars.push(hex_chars[i]);
        assert(hex_chars@.take(i + 1) =~= hex_chars@.take(i as int).push(hex_chars@[i as int]));
        i = i + 1;
    }
    proof {
        reveal_strlit("phi_key_");
        assert(hex_chars@.take(hex_chars.len() as int) =~= hex_chars@);
        assert(start =~= seq!['p', 'h', 'i', '_', 'k', 'e', 'y', '_']);
    }
    string_from_chars(chars.as_slice())
}

/// Encrypts bytes under a 32-byte key with a keystream from HMAC-SHA-256 over a
/// nonce derived from `now` and the payload length. There is no integrity tag.
pub fn encrypt_bytes(data: &[u8], key: &[u8], now: u64) -> (r: Result<EncryptedData, MessagingError>)
    ensures
        r is Ok <==> key@.len() == KEY_LEN,
        r is Err ==> r == Err::<EncryptedData, MessagingError>(MessagingError::Crypto),
        r matches Ok(e) ==> e@ == encryption_of(data@, key@, now),
        r matches Ok(e) ==> decryption_of(e@, key@) == Some(data@),
        r matches Ok(e) ==> forall|i: int|
            0 <= i < e.encrypted_content@.len() ==> is_base64_char(#[trigger] e.encrypted_content@[i]),
        r matches Ok(e) ==> forall|i: int|
            0 <= i < e.nonce@.len() ==> is_base64_char(#[trigger] e.nonce@[i]),
{
    if key.len() != KEY_LEN {
        return Err(MessagingError::Crypto);
    }
    let mut seed = decimal_bytes(now);
    let len_digits = decimal_bytes(data.len() as u64);
    append_bytes(&mut seed, len_digits.as_slice());
    let digest = sha256(seed.as_slice());
    let nonce = prefix_bytes(digest.as_slice(), NONCE_LEN);
    let ks = match hmac_sha256(key, nonce.as_slice()) {
        Some(ks) => ks,
        None => {
            return Err(MessagingError::Crypto);
        },
    };
    let ct = xor_with_keystream(data, ks.as_slice());
    let encrypted_content = base64_encode(ct.as_slice());
    let nonce_text = base64_encode(nonce.as_slice());
    let key_id = key_label_text(key);
    proof {
        lemma_xor_twice(data@, ks@);
    }
    Ok(EncryptedData { encrypted_content, nonce: nonce_text, key_id })
}

/// Decrypts an envelope's bytes under `key`.
pub fn decrypt_bytes(encrypted_data: &EncryptedData, key: &[u8]) -> (r: Result<Vec<u8>, MessagingError>)
    ensures
        r is Ok <==> decryption_of(encrypted_data@, key@) is Some,
        r is Err ==> r == Err::<Vec<u8>, MessagingError>(MessagingError::Crypto),
        r matches Ok(p) ==> decryption_of(encrypted_data@, key@) == Some(p@),
{
    if key.len() != KEY_LEN {
        return Err(MessagingError::Crypto);
    }
    let ct = match base64_decode(encrypted_data.encrypted_content.as_str()) {
        Some(ct) => ct,
        None => {
            return Err(MessagingError::Crypto);
        },
    };
    let nonce = match base64_decode(encrypted_data.nonce.as_str()) {
        Some(n) => n,
        None => {
            return Err(MessagingError::Crypto);
        },
    };
    if nonce.len() != NONCE_LEN {
        return Err(MessagingError::Crypto);
    }
    let ks = match hmac_sha256(key, nonce.as_slice()) {
        Some(ks) => ks,
        None => {
            return Err(MessagingError::Crypto);
        },
    };
    Ok(xor_with_keystream(ct.as_slice(), ks.as_slice()))
}

/// Encrypts the UTF-8 bytes of `data`; see `encrypt_bytes`.
pub fn encrypt_phi_data(data: &str, key: &[u8], now: u64) -> (r: Result<EncryptedData, MessagingError>)
    ensures
        r is Ok <==> key@.len() == KEY_LEN,
        r is Err ==> r == Err::<EncryptedData, MessagingError>(MessagingError::Crypto),
        r matches Ok(e) ==> e@ == encryption_of(data.spec_bytes(), key@, now),
        r matches Ok(e) ==> decryption_of(e@, key@) == Some(data.spec_bytes()),
        r matches Ok(e) ==> text_decryption_of(e@, key@) == Some(data@),
        r matches Ok(e) ==> forall|i: int|
            0 <= i < e.encrypted_content@.len() ==> is_base64_char(#[trigger] e.encrypted_content@[i]),
        r matches Ok(e) ==> forall|i: int|
            0 <= i < e.nonce@.len() ==> is_base64_char(#[trigger] e.nonce@[i]),
{
    proof {
        vstd::utf8::encode_utf8_valid_utf8(data@);
        vstd::utf8::encode_utf8_decode_utf8(data@);
    }
    encrypt_bytes(data.as_bytes(), key, now)
}

/// The text an envelope decrypts to under `key`, if it decrypts to valid UTF-8.
pub open spec fn text_decryption_of(e: EnvelopeView, key: Seq<u8>) -> Option<Seq<char>> {
    match decryption_of(e, key) {
        Some(p) => if valid_utf8(p) {
            Some(decode_utf8(p))
        } else {
            None
        },
        None => None,
    }
}

/// Decrypts an envelope and reads the bytes as UTF-8 text.
pub fn decrypt_phi_data(encrypted_data: &EncryptedData, key: &[u8]) -> (r: Result<String, MessagingError>)
    ensures
        r is Ok <==> text_decryption_of(encrypted_data@, key@) is Some,
        r is Err ==> r == Err::<String, MessagingError>(MessagingError::Crypto),
        r matches Ok(s) ==> text_decryption_of(encrypted_data@, key@) == Some(s@),
{
    let bytes = decrypt_bytes(encrypted_data, key)?;
    match crate::encoding::text_from_utf8(bytes) {
        Some(s) => Ok(s),
        None => Err(MessagingError::Crypto),
    }
}

} // verus!
