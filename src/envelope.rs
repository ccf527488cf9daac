use vstd::prelude::*;
use vstd::string::StringSliceAdditionalSpecFns;
use crate::cipher::{
    decrypt_phi_data, encrypt_phi_data, encryption_of, key_label, text_decryption_of,
    EncryptedData, EnvelopeView,
};
use crate::encoding::hex_of;
use crate::error::MessagingError;
use crate::keys::{conversation_key_of, derive_conversation_key};
use crate::principal::{principal_views, Principal};
use crate::text::{chars_of, string_from_chars};

verus! {

/// Text before the ciphertext field.
pub open spec fn head_text() -> Seq<char> {
    "{\"encrypted_content\":\""@
}

/// Text between the ciphertext and nonce fields.
pub open spec fn nonce_sep_text() -> Seq<char> {
    "\",\"nonce\":\""@
}

/// Text between the nonce and key label fields.
pub open spec fn key_sep_text() -> Seq<char> {
    "\",\"key_id\":\""@
}

/// Text after the key label field.
pub open spec fn tail_text() -> Seq<char> {
    "\"}"@
}

/// A field that needs no escaping inside a JSON string: no quote, no backslash.
pub open spec fn is_plain_field(s: Seq<char>) -> bool {
    forall|i: int| 0 <= i < s.len() ==> #[trigger] s[i] != '"' && s[i] != '\\'
}

/// An envelope whose three fields need no escaping.
pub open spec fn is_plain_envelope(e: EnvelopeView) -> bool {
    is_plain_field(e.encrypted_content) && is_plain_field(e.nonce) && is_plain_field(e.key_id)
}

/// The JSON object text of an envelope with plain fields:
/// `{"encrypted_content":"..","nonce":"..","key_id":".."}`.
#[verifier::opaque]
pub open spec fn envelope_text(e: EnvelopeView) -> Seq<char> {
    head_text() + e.encrypted_content + nonce_sep_text() + e.nonce + key_sep_text() + e.key_id
        + tail_text()
}

proof fn lemma_literals()
    ensures
        head_text().len() == 22,
        nonce_sep_text().len() == 11,
        key_sep_text().len() == 12,
        tail_text().len() == 2,
        nonce_sep_text()[0] == '"',
        key_sep_text()[0] == '"',
        tail_text()[0] == '"',
{
    reveal_strlit("{\"encrypted_content\":\"");
    reveal_strlit("\",\"nonce\":\"");
    reveal_strlit("\",\"key_id\":\"");
    reveal_strlit("\"}");
}

proof fn lemma_layout(e: EnvelopeView)
    ensures
        ({
            let t = envelope_text(e);
            let o1 = head_text().len() as int;
            let e1 = o1 + e.encrypted_content.len();
            let o2 = e1 + nonce_sep_text().len();
            let e2 = o2 + e.nonce.len();
            let o3 = e2 + key_sep_text().len();
            let e3 = o3 + e.key_id.len();
            &&& t.len() == e3 + tail_text().len()
            &&& t.subrange(0, o1) == head_text()
            &&& t.subrange(o1, e1) == e.encrypted_content
            &&& t.subrange(e1, o2) == nonce_sep_text()
            &&& t.subrange(o2, e2) == e.nonce
            &&& t.subrange(e2, o3) == key_sep_text()
            &&& t.subrange(o3, e3) == e.key_id
            &&& t.subrange(e3, t.len() as int) == tail_text()
        }),
{
    reveal(envelope_text);
    let t = envelope_text(e);
    let o1 = head_text().len() as int;
    let e1 = o1 + e.encrypted_content.len();
    let o2 = e1 + nonce_sep_text().len();
    let e2 = o2 + e.nonce.len();
    let o3 = e2 + key_sep_text().len();
    let e3 = o3 + e.key_id.len();
    assert(t.subrange(0, o1) =~= head_text());
    assert(t.subrange(o1, e1) =~= e.encrypted_content);
    assert(t.subrange(e1, o2) =~= nonce_sep_text());
    assert(t.subrange(o2, e2) =~= e.nonce);
    assert(t.subrange(e2, o3) =~= key_sep_text());
    assert(t.subrange(o3, e3) =~= e.key_id);
    assert(t.subrange(e3, t.len() as int) =~= tail_text());
}

/// A plain field that is followed by a quote ends at the first quote after its start.
proof fn lemma_first_quote(t: Seq<char>, from: int, field: Seq<char>, q: int)
    requires
        0 <= from,
        from + field.len() < t.len(),
        t.subrange(from, from + field.len()) == field,
        is_plain_field(field),
        t[from + field.len()] == '"',
        from <= q <= t.len(),
        forall|k: int| from <= k < q ==> t[k] != '"',
        q < t.len() ==> t[q] == '"',
    ensures
        q == from + field.len(),
{
    if q < from + field.len() {
        assert(t[q] == t.subrange(from, from + field.len())[q - from]);
    }
}

fn matches_at(chars: &[char], pos: usize, lit: &[char]) -> (r: bool)
    ensures
        r == (pos + lit@.len() <= chars@.len() && chars@.subrange(pos as int, pos + lit@.len())
            == lit@),
{
    if pos > chars.len() || lit.len() > chars.len() - pos {
        return false;
    }
    let n = chars.len();
    let mut i: usize = 0;
    while i < lit.len()
        invariant
            i <= lit.len(),
            n == chars@.len(),
            pos + lit@.len() <= n,
            chars@.subrange(pos as int, pos + i) == lit@.take(i as int),
        decreases lit.len() - i,
    {
        if chars[pos + i] != lit[i] {
            assert(chars@.subrange(pos as int, pos + lit@.len())[i as int] != lit@[i as int]);
            return false;
        }
        assert(chars@.subrange(pos as int, pos + i + 1) =~= chars@.subrange(pos as int, pos + i).push(
            chars@[pos + i],
        ));
        assert(lit@.take(i + 1) =~= lit@.take(i as int).push(lit@[i as int]));
        i = i + 1;
    }
    assert(lit@.take(lit.len() as int) =~= lit@);
    true
}

fn find_quote(chars: &[char], from: usize) -> (r: usize)
    requires
        from <= chars@.len(),
    ensures
        from <= r <= chars@.len(),
        forall|k: int| from <= k < r ==> chars@[k] != '"',
        r < chars@.len() ==> chars@[r as int] == '"',
{
    let mut i = from;
    while i < chars.len() && chars[i] != '"'
        invariant
            from <= i <= chars@.len(),
            forall|k: int| from <= k < i ==> chars@[k] != '"',
        decreases chars.len() - i,
    {
        i = i + 1;
    }
    i
}

fn plain_slice(chars: &[char], from: usize, to: usize) -> (r: Option<String>)
    requires
        from <= to <= chars@.len(),
    ensures
        r is Some <==> is_plain_field(chars@.subrange(from as int, to as int)),
        r matches Some(s) ==> s@ == chars@.subrange(from as int, to as int),
{
    let mut out: Vec<char> = Vec::new();
    let mut i = from;
    while i < to
        invariant
            from <= i <= to <= chars@.len(),
            out@ == chars@.subrange(from as int, i as int),
            is_plain_field(out@),
        decreases to - i,
    {
        let c = chars[i];
        if c == '"' || c == '\\' {
            assert(chars@.subrange(from as int, to as int)[i - from] == c);
            return None;
        }
        out.push(c);
        assert(out@ =~= chars@.subrange(from as int, i + 1));
        i = i + 1;
    }
    Some(string_from_chars(out.as_slice()))
}

/// The JSON text of an envelope whose fields need no escaping.
pub fn envelope_to_text(e: &EncryptedData) -> (r: String)
    requires
        is_plain_envelope(e@),
    ensures
        r@ == envelope_text(e@),
{
    let mut out = chars_of("{\"encrypted_content\":\"");
    let c = chars_of(e.encrypted_content.as_str());
    let s1 = chars_of("\",\"nonce\":\"");
    let n = chars_of(e.nonce.as_str());
    let s2 = chars_of("\",\"key_id\":\"");
    let k = chars_of(e.key_id.as_str());
    let t = chars_of("\"}");
    push_all(&mut out, c.as_slice());
    push_all(&mut out, s1.as_slice());
    push_all(&mut out, n.as_slice());
    push_all(&mut out, s2.as_slice());
    push_all(&mut out, k.as_slice());
    push_all(&mut out, t.as_slice());
    proof {
        reveal(envelope_text);
    }
    assert(out@ =~= envelope_text(e@));
    string_from_chars(out.as_slice())
}

fn push_all(v: &mut Vec<char>, s: &[char])
    ensures
        final(v)@ == old(v)@ + s@,
{
    let ghost start = v@;
    let mut i: usize = 0;
    while i < s.len()
        invariant
            i <= s.len(),
            v@ == start + s@.take(i as int),
        decreases s.len() - i,
    {
        v.push(s[i]);
        assert(s@.take(i + 1) =~= s@.take(i as int).push(s@[i as int]));
        i = i + 1;
    }
    assert(s@.take(s.len() as int) =~= s@);
}

/// The result of scanning `t` from `from` for the first quote: `q`, or the end.
pub open spec fn first_quote_at(t: Seq<char>, from: int, q: int) -> bool {
    &&& from <= q <= t.len()
    &&& forall|k: int| from <= k < q ==> t[k] != '"'
    &&& q < t.len() ==> t[q] == '"'
}

proof fn lemma_step_content(t: Seq<char>, e: EnvelopeView, q1: int)
    requires
        t == envelope_text(e),
        is_plain_envelope(e),
        first_quote_at(t, 22, q1),
    ensures
        t.subrange(0, 22) == head_text(),
        q1 == 22 + (e.encrypted_content.len() as int),
        q1 + 11 < t.len(),
        t.subrange(22, q1) == e.encrypted_content,
        t.subrange(q1, q1 + 11) == nonce_sep_text(),
{
    lemma_literals();
    lemma_layout(e);
    lemma_first_quote(t, 22, e.encrypted_content, q1);
}

proof fn lemma_step_nonce(t: Seq<char>, e: EnvelopeView, q2: int)
    requires
        t == envelope_text(e),
        is_plain_envelope(e),
        first_quote_at(t, 22 + (e.encrypted_content.len() as int) + 11, q2),
    ensures
        q2 == 22 + (e.encrypted_content.len() as int) + 11 + (e.nonce.len() as int),
        q2 + 12 < t.len(),
        t.subrange(22 + (e.encrypted_content.len() as int) + 11, q2) == e.nonce,
        t.subrange(q2, q2 + 12) == key_sep_text(),
{
    lemma_literals();
    lemma_layout(e);
    lemma_first_quote(t, 22 + (e.encrypted_content.len() as int) + 11, e.nonce, q2);
}

proof fn lemma_step_key(t: Seq<char>, e: EnvelopeView, q3: int)
    requires
        t == envelope_text(e),
        is_plain_envelope(e),
        first_quote_at(t, 22 + (e.encrypted_content.len() as int) + 11 + (e.nonce.len() as int) + 12, q3),
    ensures
        q3 == 22 + (e.encrypted_content.len() as int) + 11 + (e.nonce.len() as int) + 12 + (e.key_id.len() as int),
        q3 + 2 == t.len(),
        t.subrange(22 + (e.encrypted_content.len() as int) + 11 + (e.nonce.len() as int) + 12, q3) == e.key_id,
        t.subrange(q3, t.len() as int) == tail_text(),
{
    lemma_literals();
    lemma_layout(e);
    lemma_first_quote(t, 22 + (e.encrypted_content.len() as int) + 11 + (e.nonce.len() as int) + 12, e.key_id, q3);
}

proof fn lemma_assemble(t: Seq<char>, q1: int, q2: int, q3: int)
    requires
        22 <= q1,
        q1 + 11 <= q2,
        q2 + 12 <= q3,
        q3 + 2 == t.len(),
        t.subrange(0, 22) == head_text(),
        t.subrange(q1, q1 + 11) == nonce_sep_text(),
        t.subrange(q2, q2 + 12) == key_sep_text(),
        t.subrange(q3, t.len() as int) == tail_text(),
    ensures
        t == envelope_text(
            EnvelopeView {
                encrypted_content: t.subrange(22, q1),
                nonce: t.subrange(q1 + 11, q2),
                key_id: t.subrange(q2 + 12, q3),
            },
        ),
{
    reveal(envelope_text);
    lemma_literals();
    assert(t =~= t.subrange(0, 22) + t.subrange(22, q1) + t.subrange(q1, q1 + 11) + t.subrange(
        q1 + 11,
        q2,
    ) + t.subrange(q2, q2 + 12) + t.subrange(q2 + 12, q3) + t.subrange(q3, t.len() as int));
}

/// Reads an envelope from its JSON text; `None` when the text is not the
/// envelope text of any envelope with plain fields.
pub fn parse_envelope(text: &str) -> (r: Option<EncryptedData>)
    ensures
        r matches Some(e) ==> is_plain_envelope(e@) && text@ == envelope_text(e@),
        r is None ==> forall|e: EnvelopeView|
            is_plain_envelope(e) ==> #[trigger] envelope_text(e) != text@,
{
    proof {
        lemma_literals();
    }
    let chars = chars_of(text);
    let l1 = chars_of("{\"encrypted_content\":\"");
    let l2 = chars_of("\",\"nonce\":\"");
    let l3 = chars_of("\",\"key_id\":\"");
    let l4 = chars_of("\"}");
    let ghost t = chars@;
    if !matches_at(chars.as_slice(), 0, l1.as_slice()) {
        assert forall|e: EnvelopeView| is_plain_envelope(e) implies #[trigger] envelope_text(e)
            != t by {
            lemma_layout(e);
        }
        return None;
    }
    let q1 = find_quote(chars.as_slice(), 22);
    let content = if q1 < chars.len() {
        plain_slice(chars.as_slice(), 22, q1)
    } else {
        None
    };
    if content.is_none() || !matches_at(chars.as_slice(), q1, l2.as_slice()) {
        assert forall|e: EnvelopeView| is_plain_envelope(e) implies #[trigger] envelope_text(e)
            != t by {
            if envelope_text(e) == t {
                lemma_step_content(t, e, q1 as int);
            }
        }
        return None;
    }
    let o2 = q1 + 11;
    let q2 = find_quote(chars.as_slice(), o2);
    let nonce = if q2 < chars.len() {
        plain_slice(chars.as_slice(), o2, q2)
    } else {
        None
    };
    if nonce.is_none() || !matches_at(chars.as_slice(), q2, l3.as_slice()) {
        assert forall|e: EnvelopeView| is_plain_envelope(e) implies #[trigger] envelope_text(e)
            != t by {
            if envelope_text(e) == t {
                lemma_step_content(t, e, q1 as int);
                lemma_step_nonce(t, e, q2 as int);
            }
        }
        return None;
    }
    let o3 = q2 + 12;
    let q3 = find_quote(chars.as_slice(), o3);
    let key_id = if q3 < chars.len() {
        plain_slice(chars.as_slice(), o3, q3)
    } else {
        None
    };
    if key_id.is_none() || chars.len() - q3 != 2 || !matches_at(chars.as_slice(), q3, l4.as_slice()) {
        assert forall|e: EnvelopeView| is_plain_envelope(e) implies #[trigger] envelope_text(e)
            != t by {
            if envelope_text(e) == t {
                lemma_step_content(t, e, q1 as int);
                lemma_step_nonce(t, e, q2 as int);
                lemma_step_key(t, e, q3 as int);
            }
        }
        return None;
    }
    let r = EncryptedData {
        encrypted_content: content.unwrap(),
        nonce: nonce.unwrap(),
        key_id: key_id.unwrap(),
    };
    proof {
        lemma_assemble(t, q1 as int, q2 as int, q3 as int);
    }
    Some(r)
}

/// Two envelopes with plain fields and the same text are the same envelope.
pub proof fn lemma_envelope_text_injective(e1: EnvelopeView, e2: EnvelopeView)
    requires
        is_plain_envelope(e1),
        is_plain_envelope(e2),
        envelope_text(e1) == envelope_text(e2),
    ensures
        e1 == e2,
{
    let t = envelope_text(e1);
    lemma_literals();
    lemma_layout(e1);
    let q1 = 22 + e1.encrypted_content.len() as int;
    assert forall|k: int| 22 <= k < q1 implies t[k] != '"' by {
        assert(t[k] == t.subrange(22, q1)[k - 22]);
    }
    assert(t[q1] == t.subrange(q1, q1 + 11)[0]);
    lemma_step_content(t, e2, q1);
    let q2 = q1 + 11 + e1.nonce.len() as int;
    assert forall|k: int| q1 + 11 <= k < q2 implies t[k] != '"' by {
        assert(t[k] == t.subrange(q1 + 11, q2)[k - q1 - 11]);
    }
    assert(t[q2] == t.subrange(q2, q2 + 12)[0]);
    lemma_step_nonce(t, e2, q2);
    let q3 = q2 + 12 + e1.key_id.len() as int;
    assert forall|k: int| q2 + 12 <= k < q3 implies t[k] != '"' by {
        assert(t[k] == t.subrange(q2 + 12, q3)[k - q2 - 12]);
    }
    assert(t[q3] == t.subrange(q3, t.len() as int)[0]);
    lemma_step_key(t, e2, q3);
}

/// The envelope with plain fields whose text is `text`, if there is one.
pub open spec fn envelope_in(text: Seq<char>) -> Option<EnvelopeView> {
    if exists|e: EnvelopeView| is_plain_envelope(e) && #[trigger] envelope_text(e) == text {
        Some(choose|e: EnvelopeView| is_plain_envelope(e) && #[trigger] envelope_text(e) == text)
    } else {
        None
    }
}

/// What stored text reads as under `key`: the decrypted text of the envelope it
/// holds, or the text itself when it holds no envelope.
pub open spec fn decrypted_content(text: Seq<char>, key: Seq<u8>) -> Option<Seq<char>> {
    match envelope_in(text) {
        Some(e) => text_decryption_of(e, key),
        None => Some(text),
    }
}

proof fn lemma_parse_is_envelope_in(text: Seq<char>, parsed: Option<EnvelopeView>)
    requires
        parsed matches Some(e) ==> is_plain_envelope(e) && text == envelope_text(e),
        parsed is None ==> forall|e: EnvelopeView|
            is_plain_envelope(e) ==> #[trigger] envelope_text(e) != text,
    ensures
        envelope_in(text) == parsed,
{
    if let Some(e) = parsed {
        let c = choose|c: EnvelopeView| is_plain_envelope(c) && #[trigger] envelope_text(c) == text;
        lemma_envelope_text_injective(e, c);
    }
}

fn read_with_key(content: &str, key: &[u8]) -> (r: Result<String, MessagingError>)
    ensures
        r is Ok <==> decrypted_content(content@, key@) is Some,
        r matches Ok(s) ==> decrypted_content(content@, key@) == Some(s@),
        r is Err ==> r == Err::<String, MessagingError>(MessagingError::Crypto),
{
    let parsed = parse_envelope(content);
    proof {
        let pv = match &parsed {
            Some(e) => Some(e@),
            None => None,
        };
        lemma_parse_is_envelope_in(content@, pv);
    }
    match parsed {
        Some(e) => decrypt_phi_data(&e, key),
        None => Ok(content.to_string()),
    }
}

/// Reads stored message content with the participants' conversation key;
/// content that holds no envelope is returned as it is.
pub fn decrypt_message_content(encrypted_content: &str, conversation_participants: &[Principal]) -> (r:
    Result<String, MessagingError>)
    ensures
        r is Ok <==> decrypted_content(
            encrypted_content@,
            conversation_key_of(principal_views(conversation_participants@)),
        ) is Some,
        r matches Ok(s) ==> decrypted_content(
            encrypted_content@,
            conversation_key_of(principal_views(conversation_participants@)),
        ) == Some(s@),
        r is Err ==> r == Err::<String, MessagingError>(MessagingError::Crypto),
{
    let key = derive_conversation_key(conversation_participants)?;
    read_with_key(encrypted_content, key.as_slice())
}

/// Reads stored attachment data like message content; empty data stays empty.
pub fn decrypt_attachment_data(encrypted_data: &str, conversation_participants: &[Principal]) -> (r:
    Result<String, MessagingError>)
    ensures
        r is Ok <==> decrypted_content(
            encrypted_data@,
            conversation_key_of(principal_views(conversation_participants@)),
        ) is Some,
        r matches Ok(s) ==> decrypted_content(
            encrypted_data@,
            conversation_key_of(principal_views(conversation_participants@)),
        ) == Some(s@),
        r is Err ==> r == Err::<String, MessagingError>(MessagingError::Crypto),
{
    if encrypted_data.is_empty() {
        proof {
            reveal(envelope_text);
            assert forall|e: EnvelopeView| is_plain_envelope(e) implies #[trigger] envelope_text(e)
                != encrypted_data@ by {
                lemma_literals();
            }
        }
        return Ok(String::new());
    }
    let key = derive_conversation_key(conversation_participants)?;
    read_with_key(encrypted_data, key.as_slice())
}

proof fn lemma_key_label_plain(key: Seq<u8>)
    ensures
        is_plain_field(key_label(key)),
{
    let l = key_label(key);
    let h = hex_of(crate::hashing::sha256_of(key).take(8));
    assert forall|i: int| 0 <= i < l.len() implies #[trigger] l[i] != '"' && l[i] != '\\' by {
        if i >= 8 {
            assert(l[i] == h[i - 8]);
        }
    }
}

/// The stored text for `plaintext` under `key` at time `now`: the JSON text of
/// its envelope, which reads back as `plaintext`.
pub fn seal_text(plaintext: &str, key: &[u8], now: u64) -> (r: Result<String, MessagingError>)
    ensures
        r is Ok <==> key@.len() == 32,
        r is Err ==> r == Err::<String, MessagingError>(MessagingError::Crypto),
        r matches Ok(s) ==> s@ == envelope_text(encryption_of(plaintext.spec_bytes(), key@, now)),
        r matches Ok(s) ==> decrypted_content(s@, key@) == Some(plaintext@),
{
    let e = encrypt_phi_data(plaintext, key, now)?;
    proof {
        lemma_key_label_plain(key@);
        assert(is_plain_envelope(e@));
        let c = choose|c: EnvelopeView| is_plain_envelope(c) && #[trigger] envelope_text(c)
            == envelope_text(e@);
        lemma_envelope_text_injective(e@, c);
    }
    Ok(envelope_to_text(&e))
}

} // verus!
