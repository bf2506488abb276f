//! Facts about sequences and multisets that the proofs of this crate share.

use vstd::prelude::*;

verus! {

/// Filtering by two predicates that agree on every element of a sequence
/// gives the same result.
pub proof fn lemma_filter_agrees<A>(s: Seq<A>, p: spec_fn(A) -> bool, q: spec_fn(A) -> bool)
    requires
        forall|i: int| 0 <= i < s.len() ==> p(#[trigger] s[i]) == q(s[i]),
    ensures
        s.filter(p) == s.filter(q),
    decreases s.len(),
{
    reveal(Seq::filter);
    if s.len() > 0 {
        lemma_filter_agrees(s.drop_last(), p, q);
    }
}

/// A sequence none of whose elements passes the predicate filters to nothing.
pub proof fn lemma_filter_none<A>(s: Seq<A>, p: spec_fn(A) -> bool)
    requires
        forall|i: int| 0 <= i < s.len() ==> !p(#[trigger] s[i]),
    ensures
        s.filter(p) == Seq::<A>::empty(),
    decreases s.len(),
{
    reveal(Seq::filter);
    if s.len() > 0 {
        lemma_filter_none(s.drop_last(), p);
    }
}

/// Filtering after a map is mapping after a filter by the composed
/// predicate.
pub proof fn lemma_filter_of_map<A, B>(s: Seq<A>, f: spec_fn(A) -> B, p: spec_fn(B) -> bool)
    ensures
        s.map_values(f).filter(p) == s.filter(|a: A| p(f(a))).map_values(f),
    decreases s.len(),
{
    reveal(Seq::filter);
    if s.len() > 0 {
        lemma_filter_of_map(s.drop_last(), f, p);
        assert(s.map_values(f).drop_last() == s.drop_last().map_values(f));
        let kept = s.drop_last().filter(|a: A| p(f(a)));
        if p(f(s.last())) {
            assert(kept.push(s.last()).map_values(f) == kept.map_values(f).push(f(s.last())));
        }
    } else {
        assert(s.map_values(f) == Seq::<B>::empty());
        assert(s.filter(|a: A| p(f(a))).map_values(f) == Seq::<B>::empty());
    }
}

/// The multiset of a filtered sequence is the filtered multiset of the
/// sequence.
pub proof fn lemma_filter_to_multiset<A>(s: Seq<A>, p: spec_fn(A) -> bool)
    ensures
        s.filter(p).to_multiset() == s.to_multiset().filter(p),
    decreases s.len(),
{
    broadcast use vstd::multiset::group_multiset_axioms;

    if s.len() == 0 {
        reveal(Seq::filter);
        s.to_multiset_ensures();
        assert(s.filter(p).to_multiset() =~= s.to_multiset().filter(p));
    } else {
        let front = s.drop_last();
        lemma_filter_to_multiset(front, p);
        assert(s == front.push(s.last()));
        front.lemma_filter_push(s.last(), p);
        vstd::seq_lib::to_multiset_build(front, s.last());
        if p(s.last()) {
            vstd::seq_lib::to_multiset_build(front.filter(p), s.last());
        }
        assert(s.filter(p).to_multiset() =~= s.to_multiset().filter(p));
    }
}

/// Two sequences with the same multiset have the same elements.
pub proof fn lemma_same_multiset_same_elements<A>(a: Seq<A>, b: Seq<A>, x: A)
    requires
        a.to_multiset() == b.to_multiset(),
    ensures
        a.contains(x) == b.contains(x),
{
    vstd::seq_lib::to_multiset_contains(a, x);
    vstd::seq_lib::to_multiset_contains(b, x);
}

} // verus!
