//! Elementwise utilities shared by vectors and matrices of weights.
//!
//! Both the interaction matrix (`Vec<Vec<u64>>`) and derived weight vectors
//! (`Vec<u64>`) support an elementwise map, a maximum over all cells, and a
//! one-level sum reduction. Contracts are stated over `groups`: the batches
//! of cells that `sum_one_level` reduces — each row of a matrix, or all
//! cells of a vector at once.

use vstd::prelude::*;

use crate::sums::lemma_weighted_sum_take_le;
use crate::sums::lemma_weighted_sum_take_step;
use crate::sums::seq_sum;
use crate::sums::u64_weight;

verus! {

/// Asking for the maximum of a container with no elements.
#[derive(Clone, Copy, Debug, PartialEq, Eq, Structural)]
pub struct EmptyInputError;

/// Some group of the container holds the cell value `x`.
pub open spec fn group_has(groups: Seq<Seq<u64>>, x: u64) -> bool {
    exists|gi: int| 0 <= gi < groups.len() && (#[trigger] groups[gi]).contains(x)
}

/// Every group of the container is empty: there are no cells at all.
pub open spec fn groups_empty(groups: Seq<Seq<u64>>) -> bool {
    forall|gi: int| 0 <= gi < groups.len() ==> (#[trigger] groups[gi]).len() == 0
}

/// `m` is the greatest cell of the container.
pub open spec fn is_group_max(groups: Seq<Seq<u64>>, m: u64) -> bool {
    &&& group_has(groups, m)
    &&& forall|gi: int, k: int|
        0 <= gi < groups.len() && 0 <= k < groups[gi].len() ==> #[trigger] groups[gi][k] <= m
}

/// Numeric containers that support an elementwise map, a maximum over all
/// cells, and a one-level sum reduction.
pub trait Matrix: Sized {
    /// What summing one level produces: a scalar for a vector, a vector of
    /// row sums for a matrix.
    type Row;

    /// The container's cells, in the batches that `sum_one_level` reduces:
    /// one batch per row for a matrix, one batch of all cells for a vector.
    spec fn groups(&self) -> Seq<Seq<u64>>;

    /// The sums a `Row` value carries, one per group.
    spec fn row_view(r: &Self::Row) -> Seq<u64>;

    /// Apply `f` to every cell, keeping the shape.
    fn matrix_map<F: Fn(u64) -> u64>(&self, f: F) -> (r: Self)
        requires
            forall|x: u64| group_has(self.groups(), x) ==> #[trigger] call_requires(f, (x,)),
        ensures
            r.groups().len() == self.groups().len(),
            forall|gi: int|
                0 <= gi < self.groups().len() ==> (#[trigger] r.groups()[gi]).len()
                    == self.groups()[gi].len(),
            forall|gi: int, k: int|
                0 <= gi < self.groups().len() && 0 <= k < self.groups()[gi].len() ==> call_ensures(
                    f,
                    (self.groups()[gi][k],),
                    #[trigger] r.groups()[gi][k],
                ),
    ;

    /// The greatest cell, or `EmptyInputError` on a container with no
    /// cells at all.
    fn matrix_max(&self) -> (r: Result<u64, EmptyInputError>)
        ensures
            match r {
                Ok(m) => is_group_max(self.groups(), m),
                Err(_) => groups_empty(self.groups()),
            },
    ;

    /// Sum each group of cells: the total of a vector, the row sums of a
    /// matrix.
    fn sum_one_level(&self) -> (r: Self::Row)
        requires
            forall|gi: int|
                0 <= gi < self.groups().len() ==> seq_sum(#[trigger] self.groups()[gi])
                    <= u64::MAX,
        ensures
            Self::row_view(&r).len() == self.groups().len(),
            forall|gi: int|
                0 <= gi < self.groups().len() ==> #[trigger] Self::row_view(&r)[gi] == seq_sum(
                    self.groups()[gi],
                ),
    ;
}

impl Matrix for Vec<u64> {
    type Row = u64;

    open spec fn groups(&self) -> Seq<Seq<u64>> {
        seq![self@]
    }

    open spec fn row_view(r: &u64) -> Seq<u64> {
        seq![*r]
    }

    #[verifier::loop_isolation(false)]
    fn matrix_map<F: Fn(u64) -> u64>(&self, f: F) -> (r: Self) {
        let mut out: Vec<u64> = Vec::new();
        let mut k: usize = 0;
        while k < self.len()
            invariant
                k <= self.len(),
                out@.len() == k,
                forall|m: int| 0 <= m < k ==> call_ensures(f, (self@[m],), #[trigger] out@[m]),
            decreases self.len() - k,
        {
            let x = self[k];
            proof {
                assert(self.groups()[0].contains(x)) by {
                    assert(self.groups()[0][k as int] == x);
                }
                assert(group_has(self.groups(), x));
            }
            let y = f(x);
            out.push(y);
            k = k + 1;
        }
        proof {
            assert(out.groups()[0] == out@);
            assert(self.groups()[0] == self@);
        }
        out
    }

    #[verifier::loop_isolation(false)]
    fn matrix_max(&self) -> (r: Result<u64, EmptyInputError>) {
        if self.len() == 0 {
            return Err(EmptyInputError);
        }
        let mut best: u64 = self[0];
        proof {
            assert(self.groups()[0].contains(best)) by {
                assert(self.groups()[0][0] == best);
            }
        }
        let mut k: usize = 1;
        while k < self.len()
            invariant
                1 <= k <= self.len(),
                self.groups()[0].contains(best),
                forall|m: int| 0 <= m < k ==> self@[m] <= best,
            decreases self.len() - k,
        {
            if self[k] > best {
                best = self[k];
                proof {
                    assert(self.groups()[0].contains(best)) by {
                        assert(self.groups()[0][k as int] == best);
                    }
                }
            }
            k = k + 1;
        }
        proof {
            assert(group_has(self.groups(), best));
            assert forall|gi: int, m: int|
                0 <= gi < self.groups().len() && 0 <= m < self.groups()[gi].len() implies
                #[trigger] self.groups()[gi][m] <= best by {
                assert(self.groups()[gi] == self@);
            }
        }
        Ok(best)
    }

    #[verifier::loop_isolation(false)]
    fn sum_one_level(&self) -> (r: u64) {
        let ghost cells = self@;
        proof {
            assert(seq_sum(self.groups()[0]) <= u64::MAX);
            assert forall|m: int| 0 <= m < cells.len() implies #[trigger] u64_weight()(cells[m])
                >= 0 by {}
        }
        let mut total: u64 = 0;
        let mut k: usize = 0;
        while k < self.len()
            invariant
                k <= self.len(),
                total == crate::sums::weighted_sum(cells.take(k as int), u64_weight()),
            decreases self.len() - k,
        {
            let x = self[k];
            proof {
                lemma_weighted_sum_take_step(cells, u64_weight(), k as int);
                assert(u64_weight()(x) == x as int);
                lemma_weighted_sum_take_le(cells, u64_weight(), k as int + 1);
            }
            total = total + x;
            k = k + 1;
        }
        proof {
            assert(cells.take(cells.len() as int) =~= cells);
        }
        total
    }
}

impl Matrix for Vec<Vec<u64>> {
    type Row = Vec<u64>;

    open spec fn groups(&self) -> Seq<Seq<u64>> {
        self@.map_values(|row: Vec<u64>| row@)
    }

    open spec fn row_view(r: &Vec<u64>) -> Seq<u64> {
        r@
    }

    #[verifier::loop_isolation(false)]
    fn matrix_map<F: Fn(u64) -> u64>(&self, f: F) -> (r: Self) {
        let mut out: Vec<Vec<u64>> = Vec::new();
        let mut i: usize = 0;
        while i < self.len()
            invariant
                i <= self.len(),
                out@.len() == i,
                forall|a: int| 0 <= a < i ==> (#[trigger] out@[a])@.len() == self@[a]@.len(),
                forall|a: int, m: int|
                    0 <= a < i && 0 <= m < self@[a]@.len() ==> call_ensures(
                        f,
                        (self@[a]@[m],),
                        #[trigger] out@[a]@[m],
                    ),
            decreases self.len() - i,
        {
            let row = &self[i];
            let mut row_out: Vec<u64> = Vec::new();
            let mut k: usize = 0;
            while k < row.len()
                invariant
                    k <= row@.len(),
                    row_out@.len() == k,
                    forall|m: int|
                        0 <= m < k ==> call_ensures(f, (row@[m],), #[trigger] row_out@[m]),
                decreases row@.len() - k,
            {
                let x = row[k];
                proof {
                    assert(self.groups()[i as int].contains(x)) by {
                        assert(self.groups()[i as int] == self@[i as int]@);
                        assert(self.groups()[i as int][k as int] == x);
                    }
                    assert(group_has(self.groups(), x));
                }
                let y = f(x);
                row_out.push(y);
                k = k + 1;
            }
            out.push(row_out);
            i = i + 1;
        }
        proof {
            assert forall|gi: int| 0 <= gi < self.groups().len() implies (#[trigger] out.groups()[
                gi
            ]).len() == self.groups()[gi].len() by {
                assert(out.groups()[gi] == out@[gi]@);
                assert(self.groups()[gi] == self@[gi]@);
            }
            assert forall|gi: int, k: int|
                0 <= gi < self.groups().len() && 0 <= k < self.groups()[gi].len() implies
                call_ensures(f, (self.groups()[gi][k],), #[trigger] out.groups()[gi][k]) by {
                assert(out.groups()[gi] == out@[gi]@);
                assert(self.groups()[gi] == self@[gi]@);
            }
        }
        out
    }

    #[verifier::loop_isolation(false)]
    fn matrix_max(&self) -> (r: Result<u64, EmptyInputError>) {
        let mut found: bool = false;
        let mut best: u64 = 0;
        let mut i: usize = 0;
        while i < self.len()
            invariant
                i <= self.len(),
                found ==> group_has(self.groups(), best),
                forall|a: int, m: int|
                    0 <= a < i && 0 <= m < self@[a]@.len() ==> #[trigger] self@[a]@[m] <= best,
                !found ==> forall|a: int| 0 <= a < i ==> (#[trigger] self@[a])@.len() == 0,
                !found ==> best == 0,
            decreases self.len() - i,
        {
            let row = &self[i];
            let mut k: usize = 0;
            while k < row.len()
                invariant
                    k <= row@.len(),
                    found ==> group_has(self.groups(), best),
                    forall|a: int, m: int|
                        0 <= a < i && 0 <= m < self@[a]@.len() ==> #[trigger] self@[a]@[m] <= best,
                    forall|m: int| 0 <= m < k ==> #[trigger] row@[m] <= best,
                    !found ==> forall|a: int| 0 <= a < i ==> (#[trigger] self@[a])@.len() == 0,
                    !found ==> best == 0,
                    !found ==> k == 0,
                decreases row@.len() - k,
            {
                let x = row[k];
                if !found || x > best {
                    best = x;
                    found = true;
                    proof {
                        assert(self.groups()[i as int].contains(best)) by {
                            assert(self.groups()[i as int] == self@[i as int]@);
                            assert(self.groups()[i as int][k as int] == best);
                        }
                        assert(group_has(self.groups(), best));
                    }
                }
                k = k + 1;
            }
            i = i + 1;
        }
        if found {
            proof {
                assert forall|gi: int, m: int|
                    0 <= gi < self.groups().len() && 0 <= m < self.groups()[gi].len() implies
                    #[trigger] self.groups()[gi][m] <= best by {
                    assert(self.groups()[gi] == self@[gi]@);
                }
            }
            Ok(best)
        } else {
            proof {
                assert forall|gi: int| 0 <= gi < self.groups().len() implies (
                #[trigger] self.groups()[gi]).len() == 0 by {
                    assert(self.groups()[gi] == self@[gi]@);
                }
            }
            Err(EmptyInputError)
        }
    }

    #[verifier::loop_isolation(false)]
    fn sum_one_level(&self) -> (r: Vec<u64>) {
        let mut sums: Vec<u64> = Vec::new();
        let mut i: usize = 0;
        while i < self.len()
            invariant
                i <= self.len(),
                sums@.len() == i,
                forall|a: int| 0 <= a < i ==> #[trigger] sums@[a] == seq_sum(self@[a]@),
            decreases self.len() - i,
        {
            let row = &self[i];
            let ghost cells = row@;
            proof {
                assert(seq_sum(self.groups()[i as int]) <= u64::MAX);
                assert(self.groups()[i as int] == self@[i as int]@);
                assert forall|m: int| 0 <= m < cells.len() implies #[trigger] u64_weight()(
                    cells[m],
                ) >= 0 by {}
            }
            let mut total: u64 = 0;
            let mut k: usize = 0;
            while k < row.len()
                invariant
                    k <= row@.len(),
                    total == crate::sums::weighted_sum(cells.take(k as int), u64_weight()),
                decreases row@.len() - k,
            {
                let x = row[k];
                proof {
                    lemma_weighted_sum_take_step(cells, u64_weight(), k as int);
                    assert(u64_weight()(x) == x as int);
                    lemma_weighted_sum_take_le(cells, u64_weight(), k as int + 1);
                }
                total = total + x;
                k = k + 1;
            }
            proof {
                assert(cells.take(cells.len() as int) =~= cells);
            }
            sums.push(total);
            i = i + 1;
        }
        sums
    }
}

} // verus!
