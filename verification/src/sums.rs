//! Sums of integer weights over sequences.
//!
//! The aggregate queries of the interval index accumulate link durations in
//! whatever order the index reports them, so their contracts are stated with
//! `weighted_sum`, and the lemmas here show that such a sum does not depend
//! on the order of the elements, only on their multiset.

use vstd::multiset::Multiset;
use vstd::prelude::*;

verus! {

/// The sum of the weight `f` over all elements of `s`, first to last.
pub open spec fn weighted_sum<T>(s: Seq<T>, f: spec_fn(T) -> int) -> int
    decreases s.len(),
{
    if s.len() == 0 {
        0
    } else {
        weighted_sum(s.drop_last(), f) + f(s.last())
    }
}

/// A number's own value as a weight.
pub open spec fn u64_weight() -> spec_fn(u64) -> int {
    |x: u64| x as int
}

/// The plain sum of a sequence of numbers.
pub open spec fn seq_sum(s: Seq<u64>) -> int {
    weighted_sum(s, u64_weight())
}

/// Summing one more element extends the sum of a prefix by its weight.
pub proof fn lemma_weighted_sum_take_step<T>(s: Seq<T>, f: spec_fn(T) -> int, i: int)
    requires
        0 <= i < s.len(),
    ensures
        weighted_sum(s.take(i + 1), f) == weighted_sum(s.take(i), f) + f(s[i]),
{
    assert(s.take(i + 1).drop_last() =~= s.take(i));
    assert(s.take(i + 1).last() == s[i]);
}

/// The prefix of full length carries the full sum.
pub proof fn lemma_weighted_sum_take_all<T>(s: Seq<T>, f: spec_fn(T) -> int)
    ensures
        weighted_sum(s.take(s.len() as int), f) == weighted_sum(s, f),
{
    assert(s.take(s.len() as int) =~= s);
}

/// A sum of non-negative weights is non-negative.
pub proof fn lemma_weighted_sum_nonneg<T>(s: Seq<T>, f: spec_fn(T) -> int)
    requires
        forall|k: int| 0 <= k < s.len() ==> #[trigger] f(s[k]) >= 0,
    ensures
        weighted_sum(s, f) >= 0,
    decreases s.len(),
{
    if s.len() > 0 {
        let d = s.drop_last();
        assert forall|k: int| 0 <= k < d.len() implies #[trigger] f(d[k]) >= 0 by {
            assert(d[k] == s[k]);
        }
        lemma_weighted_sum_nonneg(d, f);
        assert(f(s.last()) >= 0);
    }
}

/// Weights dominated element by element give a dominated sum.
pub proof fn lemma_weighted_sum_le<T>(s: Seq<T>, f: spec_fn(T) -> int, g: spec_fn(T) -> int)
    requires
        forall|k: int| 0 <= k < s.len() ==> #[trigger] f(s[k]) <= #[trigger] g(s[k]),
    ensures
        weighted_sum(s, f) <= weighted_sum(s, g),
    decreases s.len(),
{
    if s.len() > 0 {
        let d = s.drop_last();
        assert forall|k: int| 0 <= k < d.len() implies #[trigger] f(d[k]) <= #[trigger] g(d[k]) by {
            assert(d[k] == s[k]);
        }
        lemma_weighted_sum_le(d, f, g);
        assert(f(s.last()) <= g(s.last()));
    }
}

/// With non-negative weights, a prefix sums to no more than the whole.
pub proof fn lemma_weighted_sum_take_le<T>(s: Seq<T>, f: spec_fn(T) -> int, i: int)
    requires
        0 <= i <= s.len(),
        forall|k: int| 0 <= k < s.len() ==> #[trigger] f(s[k]) >= 0,
    ensures
        weighted_sum(s.take(i), f) <= weighted_sum(s, f),
    decreases s.len() - i,
{
    if i == s.len() {
        lemma_weighted_sum_take_all(s, f);
    } else {
        lemma_weighted_sum_take_step(s, f, i);
        lemma_weighted_sum_take_le(s, f, i + 1);
    }
}

/// A weight that is everywhere the sum of two others splits the sum in two.
pub proof fn lemma_weighted_sum_split<T>(
    s: Seq<T>,
    f: spec_fn(T) -> int,
    g: spec_fn(T) -> int,
    h: spec_fn(T) -> int,
)
    requires
        forall|k: int| 0 <= k < s.len() ==> #[trigger] h(s[k]) == f(s[k]) + g(s[k]),
    ensures
        weighted_sum(s, h) == weighted_sum(s, f) + weighted_sum(s, g),
    decreases s.len(),
{
    if s.len() > 0 {
        let d = s.drop_last();
        assert forall|k: int| 0 <= k < d.len() implies #[trigger] h(d[k]) == f(d[k]) + g(d[k]) by {
            assert(d[k] == s[k]);
        }
        lemma_weighted_sum_split(d, f, g, h);
        assert(h(s.last()) == f(s.last()) + g(s.last()));
    }
}

/// Two sequences whose elements carry equal weights position by position
/// have equal sums.
pub proof fn lemma_weighted_sum_pointwise<A, B>(
    s: Seq<A>,
    t: Seq<B>,
    f: spec_fn(A) -> int,
    g: spec_fn(B) -> int,
)
    requires
        s.len() == t.len(),
        forall|k: int| 0 <= k < s.len() ==> #[trigger] f(s[k]) == #[trigger] g(t[k]),
    ensures
        weighted_sum(s, f) == weighted_sum(t, g),
    decreases s.len(),
{
    if s.len() > 0 {
        let ds = s.drop_last();
        let dt = t.drop_last();
        assert forall|k: int| 0 <= k < ds.len() implies #[trigger] f(ds[k]) == #[trigger] g(dt[k]) by {
            assert(ds[k] == s[k]);
            assert(dt[k] == t[k]);
        }
        lemma_weighted_sum_pointwise(ds, dt, f, g);
        assert(f(s.last()) == g(t.last()));
    }
}

/// Removing an element removes exactly its weight from the sum.
pub proof fn lemma_weighted_sum_remove<T>(s: Seq<T>, f: spec_fn(T) -> int, i: int)
    requires
        0 <= i < s.len(),
    ensures
        weighted_sum(s, f) == weighted_sum(s.remove(i), f) + f(s[i]),
    decreases s.len(),
{
    if i == s.len() - 1 {
        assert(s.remove(i) =~= s.drop_last());
    } else {
        let d = s.drop_last();
        assert(s.remove(i).drop_last() =~= d.remove(i));
        assert(s.remove(i).last() == s.last());
        lemma_weighted_sum_remove(d, f, i);
        assert(d[i] == s[i]);
    }
}

/// Sequences holding the same multiset of elements have the same sum:
/// commutative accumulation does not depend on the order of the elements.
pub proof fn lemma_weighted_sum_permutation<T>(s1: Seq<T>, s2: Seq<T>, f: spec_fn(T) -> int)
    requires
        s1.to_multiset() == s2.to_multiset(),
    ensures
        weighted_sum(s1, f) == weighted_sum(s2, f),
    decreases s1.len(),
{
    broadcast use vstd::seq_lib::group_to_multiset_ensures;

    if s1.len() == 0 {
        assert(s1.to_multiset().len() == s1.len());
        assert(s2.to_multiset().len() == s2.len());
        assert(s2.len() == 0);
    } else {
        let x = s1.last();
        assert(s1.contains(x));
        assert(s2.to_multiset().count(x) > 0);
        assert(s2.contains(x));
        let k = choose|k: int| 0 <= k < s2.len() && s2[k] == x;
        assert(s1.drop_last() =~= s1.remove(s1.len() - 1));
        assert(s1.drop_last().to_multiset() == s1.to_multiset().remove(x));
        assert(s2.remove(k).to_multiset() == s2.to_multiset().remove(x));
        lemma_weighted_sum_permutation(s1.drop_last(), s2.remove(k), f);
        lemma_weighted_sum_remove(s2, f, k);
    }
}

/// Summing a weight over a filtered sequence equals summing, over the whole
/// sequence, the weight gated by the predicate.
pub proof fn lemma_weighted_sum_filter<T>(
    s: Seq<T>,
    p: spec_fn(T) -> bool,
    f: spec_fn(T) -> int,
    g: spec_fn(T) -> int,
)
    requires
        forall|x: T| #[trigger] g(x) == if p(x) {
            f(x)
        } else {
            0
        },
    ensures
        weighted_sum(s.filter(p), f) == weighted_sum(s, g),
    decreases s.len(),
{
    reveal(Seq::filter);
    if s.len() > 0 {
        let d = s.drop_last();
        lemma_weighted_sum_filter(d, p, f, g);
        if p(s.last()) {
            let sub = d.filter(p);
            assert(s.filter(p) == sub.push(s.last()));
            assert(sub.push(s.last()).drop_last() =~= sub);
            assert(sub.push(s.last()).last() == s.last());
        }
    }
}

/// How many times an element occurs in a filtered sequence: its full count
/// if the predicate keeps it, and zero otherwise.
pub proof fn lemma_filter_to_multiset_count<T>(s: Seq<T>, p: spec_fn(T) -> bool, t: T)
    ensures
        s.filter(p).to_multiset().count(t) == if p(t) {
            s.to_multiset().count(t)
        } else {
            0
        },
    decreases s.len(),
{
    broadcast use vstd::seq_lib::group_to_multiset_ensures;

    reveal(Seq::filter);
    if s.len() == 0 {
        assert(s.filter(p).to_multiset() =~= Multiset::<T>::empty());
        assert(s.to_multiset() =~= Multiset::<T>::empty());
    } else {
        let d = s.drop_last();
        let x = s.last();
        lemma_filter_to_multiset_count(d, p, t);
        assert(s =~= d.push(x));
        assert(s.to_multiset() == d.push(x).to_multiset());
        if p(x) {
            assert(s.filter(p) == d.filter(p).push(x));
        }
    }
}

/// Applying the same function to two sequences with the same multiset of
/// elements gives images with the same multiset of elements.
pub proof fn lemma_map_values_permutation<A, B>(s1: Seq<A>, s2: Seq<A>, f: spec_fn(A) -> B)
    requires
        s1.to_multiset() == s2.to_multiset(),
    ensures
        s1.map_values(f).to_multiset() == s2.map_values(f).to_multiset(),
    decreases s1.len(),
{
    broadcast use vstd::seq_lib::group_to_multiset_ensures;

    if s1.len() == 0 {
        assert(s1.to_multiset().len() == s1.len());
        assert(s2.to_multiset().len() == s2.len());
        assert(s2.len() == 0);
        assert(s1.map_values(f) =~= s2.map_values(f));
    } else {
        let x = s1.last();
        assert(s1.contains(x));
        assert(s2.to_multiset().count(x) > 0);
        assert(s2.contains(x));
        let k = choose|k: int| 0 <= k < s2.len() && s2[k] == x;
        assert(s1.drop_last() =~= s1.remove(s1.len() - 1));
        assert(s1.drop_last().to_multiset() == s1.to_multiset().remove(x));
        assert(s2.remove(k).to_multiset() == s2.to_multiset().remove(x));
        lemma_map_values_permutation(s1.drop_last(), s2.remove(k), f);
        assert(s1.map_values(f) =~= s1.drop_last().map_values(f).push(f(x)));
        assert(s2.remove(k).map_values(f) =~= s2.map_values(f).remove(k));
        assert(s2.map_values(f).remove(k).to_multiset() == s2.map_values(f).to_multiset().remove(
            f(x),
        ));
        assert(s1.map_values(f).to_multiset() == s1.drop_last().map_values(f).to_multiset().insert(
            f(x),
        ));
    }
}

/// Filtering two sequences that are related position by position, with
/// predicates that agree position by position, keeps related positions.
pub proof fn lemma_filter_pointwise<A, B>(
    s: Seq<A>,
    t: Seq<B>,
    pa: spec_fn(A) -> bool,
    pb: spec_fn(B) -> bool,
    rel: spec_fn(A, B) -> bool,
)
    requires
        s.len() == t.len(),
        forall|k: int| 0 <= k < s.len() ==> #[trigger] pa(s[k]) == #[trigger] pb(t[k]),
        forall|k: int| 0 <= k < s.len() ==> #[trigger] rel(s[k], t[k]),
    ensures
        s.filter(pa).len() == t.filter(pb).len(),
        forall|m: int|
            0 <= m < s.filter(pa).len() ==> #[trigger] rel(s.filter(pa)[m], t.filter(pb)[m]),
    decreases s.len(),
{
    reveal(Seq::filter);
    if s.len() > 0 {
        let ds = s.drop_last();
        let dt = t.drop_last();
        assert forall|k: int| 0 <= k < ds.len() implies #[trigger] pa(ds[k]) == #[trigger] pb(
            dt[k],
        ) by {
            assert(ds[k] == s[k]);
            assert(dt[k] == t[k]);
        }
        assert forall|k: int| 0 <= k < ds.len() implies #[trigger] rel(ds[k], dt[k]) by {
            assert(ds[k] == s[k]);
            assert(dt[k] == t[k]);
        }
        lemma_filter_pointwise(ds, dt, pa, pb, rel);
        assert(pa(s.last()) == pb(t.last()));
        assert(rel(s.last(), t.last()));
        if pa(s.last()) {
            assert(s.filter(pa) == ds.filter(pa).push(s.last()));
            assert(t.filter(pb) == dt.filter(pb).push(t.last()));
        }
    }
}

} // verus!
