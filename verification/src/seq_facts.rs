//! Small general facts about sequences, filters and multisets that the
//! round invariant proofs lean on.

use vstd::prelude::*;
use vstd::multiset::Multiset;
use vstd::seq_lib::{
    lemma_multiset_commutative, to_multiset_remove,
};

verus! {

/// Filtering a singleton keeps or drops its element.
proof fn lemma_filter_singleton<A>(x: A, p: spec_fn(A) -> bool)
    ensures
        seq![x].filter(p) == if p(x) {
            seq![x]
        } else {
            Seq::<A>::empty()
        },
{
    reveal(Seq::filter);
    assert(seq![x].drop_last() =~= Seq::<A>::empty());
    assert(Seq::<A>::empty().filter(p) =~= Seq::<A>::empty());
    if p(x) {
        assert(seq![x].filter(p) =~= seq![x]);
    } else {
        assert(seq![x].filter(p) =~= Seq::<A>::empty());
    }
}

/// A sequence's multiset splits into the filtered part and the part the
/// complementary predicate keeps.
pub proof fn lemma_filter_split_ms<A>(s: Seq<A>, p: spec_fn(A) -> bool, q: spec_fn(A) -> bool)
    requires
        forall|x: A| #[trigger] q(x) <==> !p(x),
    ensures
        s.to_multiset() =~= s.filter(p).to_multiset().add(s.filter(q).to_multiset()),
    decreases s.len(),
{
    broadcast use vstd::multiset::group_multiset_axioms;

    reveal(Seq::filter);
    s.to_multiset_ensures();
    s.filter(p).to_multiset_ensures();
    s.filter(q).to_multiset_ensures();
    if s.len() == 0 {
        assert(s.to_multiset() =~= Multiset::<A>::empty());
        assert(s.filter(p).to_multiset() =~= Multiset::<A>::empty());
        assert(s.filter(q).to_multiset() =~= Multiset::<A>::empty());
    } else {
        let t = s.drop_last();
        let x = s.last();
        lemma_filter_split_ms(t, p, q);
        t.to_multiset_ensures();
        t.filter(p).to_multiset_ensures();
        t.filter(q).to_multiset_ensures();
        assert(s =~= t.push(x));
        assert(s.to_multiset() =~= t.to_multiset().insert(x));
        if p(x) {
            assert(s.filter(p) == t.filter(p).push(x));
            assert(s.filter(q) == t.filter(q));
            assert(s.filter(p).to_multiset() =~= t.filter(p).to_multiset().insert(x));
        } else {
            assert(s.filter(p) == t.filter(p));
            assert(s.filter(q) == t.filter(q).push(x));
            assert(s.filter(q).to_multiset() =~= t.filter(q).to_multiset().insert(x));
        }
    }
}

/// Removing one element removes exactly its contribution from the
/// filtered multiset.
pub proof fn lemma_filter_remove_ms<A>(s: Seq<A>, i: int, p: spec_fn(A) -> bool)
    requires
        0 <= i < s.len(),
    ensures
        s.remove(i).filter(p).to_multiset() == if p(s[i]) {
            s.filter(p).to_multiset().remove(s[i])
        } else {
            s.filter(p).to_multiset()
        },
{
    broadcast use vstd::multiset::group_multiset_axioms;

    let front = s.subrange(0, i);
    let mid = seq![s[i]];
    let back = s.subrange(i + 1, s.len() as int);
    assert(s =~= front + (mid + back));
    assert(s.remove(i) =~= front + back);
    Seq::filter_distributes_over_add(front, mid + back, p);
    Seq::filter_distributes_over_add(mid, back, p);
    Seq::filter_distributes_over_add(front, back, p);
    lemma_filter_singleton(s[i], p);
    lemma_multiset_commutative(front.filter(p), mid.filter(p) + back.filter(p));
    lemma_multiset_commutative(mid.filter(p), back.filter(p));
    lemma_multiset_commutative(front.filter(p), back.filter(p));
    mid.filter(p).to_multiset_ensures();
    if p(s[i]) {
        assert(mid.filter(p).to_multiset() =~= Multiset::<A>::empty().insert(s[i]));
        assert(s.remove(i).filter(p).to_multiset() =~= s.filter(p).to_multiset().remove(s[i]));
    } else {
        assert(mid.filter(p).to_multiset() =~= Multiset::<A>::empty());
        assert(s.remove(i).filter(p).to_multiset() =~= s.filter(p).to_multiset());
    }
}

/// Sequences with the same multiset have filters with the same multiset:
/// filtering is insensitive to order.
pub proof fn lemma_filter_perm_ms<A>(a: Seq<A>, b: Seq<A>, p: spec_fn(A) -> bool)
    requires
        a.to_multiset() == b.to_multiset(),
    ensures
        a.filter(p).to_multiset() == b.filter(p).to_multiset(),
    decreases a.len(),
{
    broadcast use vstd::multiset::group_multiset_axioms;

    a.to_multiset_ensures();
    b.to_multiset_ensures();
    if a.len() == 0 {
        assert(b.len() == 0);
        assert(a.filter(p).to_multiset() =~= b.filter(p).to_multiset()) by {
            reveal(Seq::filter);
        }
    } else {
        let x = a.last();
        let la = a.len() - 1;
        assert(a.contains(x));
        assert(a.to_multiset().count(x) > 0);
        assert(b.contains(x));
        let j = b.index_of_first(x).unwrap();
        b.index_of_first_ensures(x);
        let a2 = a.remove(la);
        let b2 = b.remove(j);
        to_multiset_remove(a, la);
        to_multiset_remove(b, j);
        lemma_filter_perm_ms(a2, b2, p);
        lemma_filter_remove_ms(a, la, p);
        lemma_filter_remove_ms(b, j, p);
        if p(x) {
            a.filter(p).to_multiset_ensures();
            b.filter(p).to_multiset_ensures();
            a.lemma_filter_contains(p, la);
            b.lemma_filter_contains(p, j);
            assert(a.filter(p).to_multiset().count(x) > 0);
            assert(b.filter(p).to_multiset().count(x) > 0);
            assert(a.filter(p).to_multiset() =~= a2.filter(p).to_multiset().insert(x));
            assert(b.filter(p).to_multiset() =~= b2.filter(p).to_multiset().insert(x));
        }
    }
}

} // verus!
