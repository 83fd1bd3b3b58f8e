//! Trusted view of the outside interval store.
//!
//! The temporal index keeps its link intervals in a `rust_lapper::Lapper`,
//! an augmented sorted-interval structure with sub-linear overlap queries.
//! The store sits in an opaque wrapper struct; verified code sees it only
//! through `store_contents`, the multiset of `(start, stop, value)` triples
//! it holds, and through the two functions below, whose contracts state
//! what the store's own source shows.

use vstd::multiset::Multiset;
use vstd::prelude::*;

use rust_lapper::Interval;
use rust_lapper::Lapper;

verus! {

/// An immutable store of half-open `u64` intervals, each carrying the
/// position of the link it was built from.
#[verifier::external_body]
pub struct IntervalStore {
    inner: Lapper<u64, usize>,
}

/// The triples `(start, stop, value)` of the intervals a store holds, with
/// multiplicity; `stop` is exclusive, as in the store itself.
pub uninterp spec fn store_contents(s: IntervalStore) -> Multiset<(u64, u64, usize)>;

/// Relies on `rust_lapper::Lapper::new`: it sorts the given intervals and
/// keeps every one of them; nothing is merged or dropped.
#[verifier::external_body]
pub(crate) fn store_build(items: Vec<(u64, u64, usize)>) -> (r: IntervalStore)
    ensures
        store_contents(r) == items@.to_multiset(),
{
    IntervalStore {
        inner: Lapper::new(
            items.into_iter().map(|(start, stop, val)| Interval { start, stop, val }).collect(),
        ),
    }
}

/// Relies on `rust_lapper::Lapper::find`: it yields exactly the stored
/// intervals that intersect the half-open query `[start, stop)`, that is,
/// those with `interval.start < stop` and `interval.stop > start`.
#[verifier::external_body]
pub(crate) fn store_find(s: &IntervalStore, start: u64, stop: u64) -> (r: Vec<(u64, u64, usize)>)
    ensures
        r@.to_multiset() == store_contents(*s).filter(
            (|t: (u64, u64, usize)| t.0 < stop && t.1 > start),
        ),
{
    s.inner.find(start, stop).map(|iv| (iv.start, iv.stop, iv.val)).collect()
}

} // verus!
