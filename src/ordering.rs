use vstd::prelude::*;
use vstd::multiset::Multiset;
use vstd::relations::{sorted_by, total_ordering};
use vstd::seq_lib::{lemma_multiset_commutative, lemma_sorted_unique};

verus! {

broadcast use vstd::seq_lib::group_to_multiset_ensures;

/// Lexicographic order on byte strings, as Rust orders byte slices.
pub open spec fn lex_le(a: Seq<u8>, b: Seq<u8>) -> bool
    decreases a.len(),
{
    if a.len() == 0 {
        true
    } else if b.len() == 0 {
        false
    } else if a[0] != b[0] {
        a[0] < b[0]
    } else {
        lex_le(a.drop_first(), b.drop_first())
    }
}

/// The order of principals: shorter first, then lexicographic on the bytes.
pub open spec fn principal_le(a: Seq<u8>, b: Seq<u8>) -> bool {
    a.len() < b.len() || (a.len() == b.len() && lex_le(a, b))
}

/// The order used to sort byte strings: principal order, or plain lexicographic.
pub open spec fn byte_order(len_first: bool) -> spec_fn(Seq<u8>, Seq<u8>) -> bool {
    |a: Seq<u8>, b: Seq<u8>|
        if len_first {
            principal_le(a, b)
        } else {
            lex_le(a, b)
        }
}

/// The byte contents of each vector, in order.
pub open spec fn views_of(v: Seq<Vec<u8>>) -> Seq<Seq<u8>> {
    v.map_values(|x: Vec<u8>| x@)
}

proof fn lemma_lex_refl(a: Seq<u8>)
    ensures
        lex_le(a, a),
    decreases a.len(),
{
    if a.len() > 0 {
        lemma_lex_refl(a.drop_first());
    }
}

proof fn lemma_lex_total(a: Seq<u8>, b: Seq<u8>)
    ensures
        lex_le(a, b) || lex_le(b, a),
    decreases a.len(),
{
    if a.len() > 0 && b.len() > 0 && a[0] == b[0] {
        lemma_lex_total(a.drop_first(), b.drop_first());
    }
}

proof fn lemma_lex_antisym(a: Seq<u8>, b: Seq<u8>)
    requires
        lex_le(a, b),
        lex_le(b, a),
    ensures
        a == b,
    decreases a.len(),
{
    if a.len() > 0 && b.len() > 0 {
        lemma_lex_antisym(a.drop_first(), b.drop_first());
        assert(a =~= seq![a[0]] + a.drop_first());
        assert(b =~= seq![b[0]] + b.drop_first());
    } else {
        assert(a =~= b);
    }
}

proof fn lemma_lex_trans(a: Seq<u8>, b: Seq<u8>, c: Seq<u8>)
    requires
        lex_le(a, b),
        lex_le(b, c),
    ensures
        lex_le(a, c),
    decreases a.len(),
{
    if a.len() > 0 && b.len() > 0 && c.len() > 0 && a[0] == b[0] && b[0] == c[0] {
        lemma_lex_trans(a.drop_first(), b.drop_first(), c.drop_first());
    }
}

/// Both byte orders are total orders.
pub proof fn lemma_byte_order_total(len_first: bool)
    ensures
        total_ordering(byte_order(len_first)),
{
    let leq = byte_order(len_first);
    assert forall|x: Seq<u8>| #[trigger] leq(x, x) by {
        lemma_lex_refl(x);
    }
    assert forall|x: Seq<u8>, y: Seq<u8>| #[trigger] leq(x, y) && #[trigger] leq(y, x) implies x
        == y by {
        lemma_lex_antisym(x, y);
    }
    assert forall|x: Seq<u8>, y: Seq<u8>, z: Seq<u8>| #[trigger] leq(x, y) && #[trigger] leq(
        y,
        z,
    ) implies leq(x, z) by {
        if x.len() == y.len() && y.len() == z.len() {
            lemma_lex_trans(x, y, z);
        } else if !len_first {
            lemma_lex_trans(x, y, z);
        }
    }
    assert forall|x: Seq<u8>, y: Seq<u8>| #[trigger] leq(x, y) || #[trigger] leq(y, x) by {
        lemma_lex_total(x, y);
    }
}

/// Compares two byte strings lexicographically.
pub fn lex_le_exec(a: &[u8], b: &[u8]) -> (r: bool)
    ensures
        r == lex_le(a@, b@),
{
    let mut i: usize = 0;
    assert(a@.skip(0) =~= a@);
    assert(b@.skip(0) =~= b@);
    while i < a.len() && i < b.len()
        invariant
            i <= a.len(),
            i <= b.len(),
            lex_le(a@, b@) == lex_le(a@.skip(i as int), b@.skip(i as int)),
        decreases a.len() - i,
    {
        if a[i] != b[i] {
            return a[i] < b[i];
        }
        assert(a@.skip(i as int).drop_first() =~= a@.skip(i + 1));
        assert(b@.skip(i as int).drop_first() =~= b@.skip(i + 1));
        i = i + 1;
    }
    i == a.len()
}

/// Compares two byte strings in the chosen byte order.
pub fn byte_le(a: &[u8], b: &[u8], len_first: bool) -> (r: bool)
    ensures
        r == byte_order(len_first)(a@, b@),
{
    if len_first {
        if a.len() != b.len() {
            return a.len() < b.len();
        }
    }
    lex_le_exec(a, b)
}

/// Sorts byte strings in the chosen byte order.
pub fn sort_byte_strings(v: Vec<Vec<u8>>, len_first: bool) -> (r: Vec<Vec<u8>>)
    ensures
        views_of(r@) == views_of(v@).sort_by(byte_order(len_first)),
{
    let ghost leq = byte_order(len_first);
    proof {
        lemma_byte_order_total(len_first);
    }
    let ghost orig = v@;
    let mut rest = v;
    let mut out: Vec<Vec<u8>> = Vec::new();
    while rest.len() > 0
        invariant
            total_ordering(leq),
            leq == byte_order(len_first),
            sorted_by(views_of(out@), leq),
            views_of(out@).to_multiset().add(views_of(rest@).to_multiset()) == views_of(
                orig,
            ).to_multiset(),
        decreases rest.len(),
    {
        let ghost before = rest@;
        let x = rest.pop().unwrap();
        proof {
            assert(before =~= rest@.push(x));
            assert(views_of(before) =~= views_of(rest@) + seq![x@]);
            lemma_multiset_commutative(views_of(rest@), seq![x@]);
        }
        let mut j: usize = 0;
        while j < out.len() && byte_le(out[j].as_slice(), x.as_slice(), len_first)
            invariant
                j <= out.len(),
                leq == byte_order(len_first),
                forall|k: int| 0 <= k < j ==> #[trigger] leq(out@[k]@, x@),
            decreases out.len() - j,
        {
            j = j + 1;
        }
        let ghost old_out = out@;
        out.insert(j, x);
        proof {
            assert(views_of(out@) =~= views_of(old_out).insert(j as int, x@));
            vstd::seq_lib::to_multiset_insert(views_of(old_out), j as int, x@);
            let s = views_of(out@);
            let o = views_of(old_out);
            if j < old_out.len() {
                assert(leq(o[j as int], x@) || leq(x@, o[j as int]));
                assert(leq(x@, o[j as int]));
            }
            assert forall|a: int, b: int| 0 <= a < b < s.len() implies #[trigger] leq(
                s[a],
                s[b],
            ) by {
                if b < j {
                    assert(leq(o[a], o[b]));
                } else if b == j {
                    assert(leq(o[a], x@));
                } else if a > j {
                    assert(s[a] == o[a - 1] && s[b] == o[b - 1]);
                    assert(leq(o[a - 1], o[b - 1]));
                } else {
                    assert(s[b] == o[b - 1]);
                    if j < b - 1 {
                        assert(leq(o[j as int], o[b - 1]));
                    }
                    assert(leq(x@, o[b - 1]));
                    if a < j {
                        assert(leq(o[a], x@));
                    }
                }
            }
        }
    }
    proof {
        assert(views_of(rest@) =~= Seq::<Seq<u8>>::empty());
        assert(views_of(rest@).to_multiset() =~= Multiset::empty());
        assert(views_of(out@).to_multiset() =~= views_of(orig).to_multiset());
        views_of(orig).lemma_sort_by_ensures(leq);
        lemma_sorted_unique(views_of(out@), views_of(orig).sort_by(leq), leq);
    }
    out
}

} // verus!
