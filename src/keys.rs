use vstd::prelude::*;
use vstd::seq_lib::lemma_sorted_unique;
use crate::encoding::{hex_encode, hex_of};
use crate::error::MessagingError;
use crate::hashing::{sha256, sha256_of};
use crate::ordering::{byte_order, lemma_byte_order_total, sort_byte_strings, views_of};
use crate::principal::{principal_text_of, principal_views, Principal};

verus! {

broadcast use vstd::seq_lib::group_to_multiset_ensures;

/// The domain separator appended before hashing a participant set into a key.
pub open spec fn key_domain() -> Seq<u8> {
    seq![
        109u8, 101, 110, 116, 97, 108, 118, 101, 114, 115, 101, 95, 112, 104, 105, 95, 101, 110,
        99, 114, 121, 112, 116, 105, 111, 110, 95, 118, 49,
    ]
}

/// The key of a participant set: SHA-256 over the participants' bytes in
/// principal order, followed by the domain separator.
pub open spec fn conversation_key_of(participants: Seq<Seq<u8>>) -> Seq<u8> {
    sha256_of(participants.sort_by(byte_order(true)).flatten() + key_domain())
}

/// Byte strings joined with '-' between neighbours.
pub open spec fn join_with_dash(s: Seq<Seq<u8>>) -> Seq<u8>
    decreases s.len(),
{
    if s.len() == 0 {
        Seq::empty()
    } else if s.len() == 1 {
        s[0]
    } else {
        join_with_dash(s.drop_last()).push(45u8) + s.last()
    }
}

/// The textual forms of the participants.
pub open spec fn texts_of(participants: Seq<Seq<u8>>) -> Seq<Seq<u8>> {
    participants.map_values(|p: Seq<u8>| principal_text_of(p))
}

/// The id of a participant set: 16 hex digits of the SHA-256 of the sorted
/// textual forms joined with '-'.
pub open spec fn conversation_id_of(participants: Seq<Seq<u8>>) -> Seq<char> {
    hex_of(sha256_of(join_with_dash(texts_of(participants).sort_by(byte_order(false)))).take(8))
}

/// Participant sets with the same members, in any order, get the same key.
pub proof fn lemma_key_ignores_order(p1: Seq<Seq<u8>>, p2: Seq<Seq<u8>>)
    requires
        p1.to_multiset() == p2.to_multiset(),
    ensures
        conversation_key_of(p1) == conversation_key_of(p2),
{
    let leq = byte_order(true);
    lemma_byte_order_total(true);
    p1.lemma_sort_by_ensures(leq);
    p2.lemma_sort_by_ensures(leq);
    lemma_sorted_unique(p1.sort_by(leq), p2.sort_by(leq), leq);
}

proof fn lemma_texts_permutation(a: Seq<Seq<u8>>, b: Seq<Seq<u8>>)
    requires
        a.to_multiset() == b.to_multiset(),
    ensures
        texts_of(a).to_multiset() == texts_of(b).to_multiset(),
    decreases a.len(),
{
    vstd::seq_lib::to_multiset_len(a);
    vstd::seq_lib::to_multiset_len(b);
    if a.len() == 0 {
        assert(b.len() == 0);
        assert(texts_of(a) =~= texts_of(b));
    } else {
        let x = a[0];
        assert(a.to_multiset().contains(x));
        assert(b.contains(x));
        let j = choose|j: int| 0 <= j < b.len() && b[j] == x;
        let a1 = a.remove(0);
        let b1 = b.remove(j);
        vstd::seq_lib::to_multiset_remove(a, 0);
        vstd::seq_lib::to_multiset_remove(b, j);
        lemma_texts_permutation(a1, b1);
        assert(texts_of(a) =~= texts_of(a1).insert(0, principal_text_of(x)));
        assert(texts_of(b) =~= texts_of(b1).insert(j, principal_text_of(x)));
        vstd::seq_lib::to_multiset_insert(texts_of(a1), 0, principal_text_of(x));
        vstd::seq_lib::to_multiset_insert(texts_of(b1), j, principal_text_of(x));
    }
}

/// Participant sets with the same members, in any order, get the same conversation id.
pub proof fn lemma_id_ignores_order(p1: Seq<Seq<u8>>, p2: Seq<Seq<u8>>)
    requires
        p1.to_multiset() == p2.to_multiset(),
    ensures
        conversation_id_of(p1) == conversation_id_of(p2),
{
    let leq = byte_order(false);
    lemma_byte_order_total(false);
    lemma_texts_permutation(p1, p2);
    texts_of(p1).lemma_sort_by_ensures(leq);
    texts_of(p2).lemma_sort_by_ensures(leq);
    lemma_sorted_unique(texts_of(p1).sort_by(leq), texts_of(p2).sort_by(leq), leq);
}

fn participant_bytes(participants: &[Principal]) -> (r: Vec<Vec<u8>>)
    ensures
        views_of(r@) == principal_views(participants@),
{
    let mut out: Vec<Vec<u8>> = Vec::new();
    let mut i: usize = 0;
    while i < participants.len()
        invariant
            i <= participants.len(),
            views_of(out@) == principal_views(participants@.take(i as int)),
        decreases participants.len() - i,
    {
        let b = participants[i].to_bytes();
        let ghost prev = out@;
        out.push(b);
        assert(views_of(out@) =~= views_of(prev).push(b@));
        assert(participants@.take(i + 1) =~= participants@.take(i as int).push(participants@[i as int]));
        assert(principal_views(participants@.take(i + 1)) =~= principal_views(participants@.take(i as int)).push(participants@[i as int]@));
        i = i + 1;
    }
    assert(participants@.take(participants.len() as int) =~= participants@);
    out
}

fn participant_texts(participants: &[Principal]) -> (r: Vec<Vec<u8>>)
    ensures
        views_of(r@) == texts_of(principal_views(participants@)),
{
    let mut out: Vec<Vec<u8>> = Vec::new();
    let mut i: usize = 0;
    while i < participants.len()
        invariant
            i <= participants.len(),
            views_of(out@) == texts_of(principal_views(participants@.take(i as int))),
        decreases participants.len() - i,
    {
        let b = participants[i].to_text_bytes();
        let ghost prev = out@;
        out.push(b);
        assert(views_of(out@) =~= views_of(prev).push(b@));
        assert(participants@.take(i + 1) =~= participants@.take(i as int).push(participants@[i as int]));
        assert(texts_of(principal_views(participants@.take(i + 1))) =~= texts_of(principal_views(participants@.take(i as int))).push(principal_text_of(participants@[i as int]@)));
        i = i + 1;
    }
    assert(participants@.take(participants.len() as int) =~= participants@);
    out
}

/// Derives the conversation key of a participant set; see `conversation_key_of`.
pub fn derive_conversation_key(participants: &[Principal]) -> (r: Result<Vec<u8>, MessagingError>)
    ensures
        r is Ok,
        r matches Ok(k) ==> k@ == conversation_key_of(principal_views(participants@)),
        r matches Ok(k) ==> k@.len() == 32,
{
    let sorted = sort_byte_strings(participant_bytes(participants), true);
    let mut data: Vec<u8> = Vec::new();
    let mut i: usize = 0;
    while i < sorted.len()
        invariant
            i <= sorted.len(),
            data@ == views_of(sorted@).take(i as int).flatten(),
        decreases sorted.len() - i,
    {
        let ghost before = data@;
        let part = &sorted[i];
        let mut j: usize = 0;
        while j < part.len()
            invariant
                j <= part.len(),
                data@ == before + part@.take(j as int),
            decreases part.len() - j,
        {
            data.push(part[j]);
            assert(part@.take(j + 1) =~= part@.take(j as int).push(part@[j as int]));
            j = j + 1;
        }
        proof {
            assert(part@.take(part.len() as int) =~= part@);
            assert(views_of(sorted@).take(i + 1) =~= views_of(sorted@).take(i as int).push(part@));
            views_of(sorted@).take(i as int).lemma_flatten_push(part@);
        }
        i = i + 1;
    }
    assert(views_of(sorted@).take(sorted.len() as int) =~= views_of(sorted@));
    let ghost body = data@;
    let domain: [u8; 29] = [
        109u8, 101, 110, 116, 97, 108, 118, 101, 114, 115, 101, 95, 112, 104, 105, 95, 101, 110,
        99, 114, 121, 112, 116, 105, 111, 110, 95, 118, 49,
    ];
    let mut k: usize = 0;
    while k < 29
        invariant
            k <= 29,
            domain@ == key_domain(),
            data@ == body + key_domain().take(k as int),
        decreases 29 - k,
    {
        data.push(domain[k]);
        assert(key_domain().take(k + 1) =~= key_domain().take(k as int).push(key_domain()[k as int]));
        k = k + 1;
    }
    assert(key_domain().take(29) =~= key_domain());
    Ok(sha256(data.as_slice()))
}

/// The id of a participant set; see `conversation_id_of`.
pub fn generate_conversation_id(participants: &[Principal]) -> (r: String)
    ensures
        r@ == conversation_id_of(principal_views(participants@)),
        r@.len() == 16,
{
    let sorted = sort_byte_strings(participant_texts(participants), false);
    let mut data: Vec<u8> = Vec::new();
    let mut i: usize = 0;
    while i < sorted.len()
        invariant
            i <= sorted.len(),
            data@ == join_with_dash(views_of(sorted@).take(i as int)),
        decreases sorted.len() - i,
    {
        let ghost before = data@;
        if i > 0 {
            data.push(45u8);
        }
        let ghost mid = data@;
        let part = &sorted[i];
        let mut j: usize = 0;
        while j < part.len()
            invariant
                j <= part.len(),
                data@ == mid + part@.take(j as int),
            decreases part.len() - j,
        {
            data.push(part[j]);
            assert(part@.take(j + 1) =~= part@.take(j as int).push(part@[j as int]));
            j = j + 1;
        }
        proof {
            assert(part@.take(part.len() as int) =~= part@);
            let t = views_of(sorted@).take(i + 1);
            assert(t.drop_last() =~= views_of(sorted@).take(i as int));
            if i == 0 {
                assert(data@ =~= part@);
            }
        }
        i = i + 1;
    }
    assert(views_of(sorted@).take(sorted.len() as int) =~= views_of(sorted@));
    let digest = sha256(data.as_slice());
    let mut head: Vec<u8> = Vec::new();
    let mut k: usize = 0;
    while k < 8
        invariant
            k <= 8,
            digest@.len() == 32,
            head@ == digest@.take(k as int),
        decreases 8 - k,
    {
        head.push(digest[k]);
        assert(digest@.take(k + 1) =~= digest@.take(k as int).push(digest@[k as int]));
        k = k + 1;
    }
    hex_encode(head.as_slice())
}

} // verus!
