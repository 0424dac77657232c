//! Small general lemmas about `Seq::filter` that several modules share.

use vstd::prelude::*;

verus! {

/// A filter that holds of no element yields the empty sequence.
pub proof fn lemma_filter_none<A>(s: Seq<A>, pred: spec_fn(A) -> bool)
    requires
        forall|i: int| 0 <= i < s.len() ==> !pred(#[trigger] s[i]),
    ensures
        s.filter(pred) == Seq::<A>::empty(),
    decreases s.len(),
{
    reveal(Seq::filter);
    if s.len() > 0 {
        lemma_filter_none(s.drop_last(), pred);
    }
}

/// Filtering after a push keeps the filtered prefix and appends the new
/// element exactly when the predicate holds of it.
pub proof fn lemma_filter_push<A>(s: Seq<A>, a: A, pred: spec_fn(A) -> bool)
    ensures
        (s.push(a)).filter(pred) == if pred(a) {
            s.filter(pred).push(a)
        } else {
            s.filter(pred)
        },
{
    reveal(Seq::filter);
    assert(s.push(a).drop_last() =~= s);
    assert(s.push(a).last() == a);
}

/// A property of every element of a sequence holds of every element of any
/// rearrangement of it.
pub proof fn lemma_multiset_property<A>(s1: Seq<A>, s2: Seq<A>, p: spec_fn(A) -> bool)
    requires
        s1.to_multiset() == s2.to_multiset(),
        forall|i: int| 0 <= i < s1.len() ==> p(#[trigger] s1[i]),
    ensures
        forall|i: int| 0 <= i < s2.len() ==> p(#[trigger] s2[i]),
{
    assert forall|i: int| 0 <= i < s2.len() implies p(#[trigger] s2[i]) by {
        vstd::seq_lib::to_multiset_contains(s2, s2[i]);
        assert(s2.contains(s2[i]));
        vstd::seq_lib::to_multiset_contains(s1, s2[i]);
        assert(s1.contains(s2[i]));
        let k = choose|k: int| 0 <= k < s1.len() && s1[k] == s2[i];
    }
}

/// Filtering a sequence and taking the multiset is taking the multiset and
/// filtering it: the filter result depends only on what the sequence holds,
/// not on the order.
pub proof fn lemma_filter_to_multiset<A>(s: Seq<A>, p: spec_fn(A) -> bool)
    ensures
        s.filter(p).to_multiset() == s.to_multiset().filter(p),
    decreases s.len(),
{
    broadcast use vstd::multiset::group_multiset_axioms;

    if s.len() == 0 {
        reveal(Seq::filter);
        assert(s.filter(p) =~= Seq::<A>::empty());
        Seq::<A>::empty().to_multiset_ensures();
        assert(s.filter(p).to_multiset() =~= s.to_multiset().filter(p));
    } else {
        let d = s.drop_last();
        let a = s.last();
        lemma_filter_to_multiset(d, p);
        lemma_filter_push(d, a, p);
        assert(d.push(a) =~= s);
        vstd::seq_lib::to_multiset_build(d, a);
        if p(a) {
            d.filter(p).to_multiset_ensures();
            vstd::seq_lib::to_multiset_build(d.filter(p), a);
            assert(s.filter(p).to_multiset() =~= s.to_multiset().filter(p));
        } else {
            assert(s.filter(p).to_multiset() =~= s.to_multiset().filter(p));
        }
    }
}

/// An element of a filtered sequence is an element of the sequence it
/// was filtered from.
pub proof fn lemma_filter_subset<A>(s: Seq<A>, pred: spec_fn(A) -> bool)
    ensures
        forall|x: A| #[trigger] s.filter(pred).contains(x) ==> s.contains(x),
    decreases s.len(),
{
    reveal(Seq::filter);
    if s.len() > 0 {
        lemma_filter_subset(s.drop_last(), pred);
        assert forall|x: A| #[trigger] s.filter(pred).contains(x) implies s.contains(x) by {
            if s.drop_last().filter(pred).contains(x) {
                assert(s.drop_last().contains(x));
                let i = choose|i: int| 0 <= i < s.drop_last().len() && s.drop_last()[i] == x;
                assert(s[i] == x);
            } else {
                assert(x == s.last());
            }
        }
    }
}

} // verus!
