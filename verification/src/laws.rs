//! Laws of the windowed aggregates.
//!
//! These proof functions state, over the same spec functions that the
//! query contracts use, how interaction matrices and activity scores
//! behave across windows. Symmetry of the matrix lives next to the
//! queries themselves, as `linkstream::lemma_cell_symmetric` and as an
//! `ensures` of `LinkStream::interaction_matrix`.

use vstd::prelude::*;

use crate::linkstream::cell_weight;
use crate::linkstream::link_cell_weight;
use crate::linkstream::link_score_weight;
use crate::linkstream::overlaps;
use crate::linkstream::score_weight;
use crate::linkstream::spec_cell;
use crate::linkstream::spec_score;
use crate::linkstream::Link;
use crate::sums::lemma_weighted_sum_le;
use crate::sums::lemma_weighted_sum_nonneg;
use crate::sums::lemma_weighted_sum_split;

verus! {

/// Non-negativity: on links with `start <= end`, every interaction matrix
/// cell and every activity score is at least zero, whatever the window.
pub proof fn lemma_aggregates_nonneg(links: Seq<Link>, w0: int, w1: int, i: int, j: int)
    requires
        forall|k: int| 0 <= k < links.len() ==> (#[trigger] links[k]).start <= links[k].end,
    ensures
        spec_cell(links, w0, w1, i, j) >= 0,
        spec_score(links, w0, w1) >= 0,
{
    assert forall|k: int| 0 <= k < links.len() implies #[trigger] cell_weight(w0, w1, i, j)(
        links[k],
    ) >= 0 by {
        assert(cell_weight(w0, w1, i, j)(links[k]) == link_cell_weight(links[k], w0, w1, i, j));
    }
    lemma_weighted_sum_nonneg(links, cell_weight(w0, w1, i, j));
    assert forall|k: int| 0 <= k < links.len() implies #[trigger] score_weight(w0, w1)(links[k])
        >= 0 by {
        assert(score_weight(w0, w1)(links[k]) == link_score_weight(links[k], w0, w1));
    }
    lemma_weighted_sum_nonneg(links, score_weight(w0, w1));
}

/// Monotonicity: on links with `start <= end`, a window nested inside
/// another scores no more than the outer window.
pub proof fn lemma_score_monotone(links: Seq<Link>, a0: int, a1: int, b0: int, b1: int)
    requires
        forall|k: int| 0 <= k < links.len() ==> (#[trigger] links[k]).start <= links[k].end,
        b0 <= a0,
        a1 <= b1,
    ensures
        spec_score(links, a0, a1) <= spec_score(links, b0, b1),
{
    assert forall|k: int| 0 <= k < links.len() implies #[trigger] score_weight(a0, a1)(links[k])
        <= #[trigger] score_weight(b0, b1)(links[k]) by {
        assert(score_weight(a0, a1)(links[k]) == link_score_weight(links[k], a0, a1));
        assert(score_weight(b0, b1)(links[k]) == link_score_weight(links[k], b0, b1));
    }
    lemma_weighted_sum_le(links, score_weight(a0, a1), score_weight(b0, b1));
}

/// Window-union additivity: two adjacent disjoint windows `[a0, a1]` and
/// `[a1 + 1, b1]` that no link overlaps both of split every cell of the
/// union window's matrix, and its score, into the two windows' parts.
pub proof fn lemma_window_union_additive(
    links: Seq<Link>,
    a0: int,
    a1: int,
    b0: int,
    b1: int,
    i: int,
    j: int,
)
    requires
        forall|k: int| 0 <= k < links.len() ==> (#[trigger] links[k]).start <= links[k].end,
        a0 <= a1,
        b0 == a1 + 1,
        b0 <= b1,
        forall|k: int|
            0 <= k < links.len() ==> !(overlaps(#[trigger] links[k], a0, a1) && overlaps(
                links[k],
                b0,
                b1,
            )),
    ensures
        spec_cell(links, a0, b1, i, j) == spec_cell(links, a0, a1, i, j) + spec_cell(
            links,
            b0,
            b1,
            i,
            j,
        ),
        spec_score(links, a0, b1) == spec_score(links, a0, a1) + spec_score(links, b0, b1),
{
    assert forall|k: int|
        0 <= k < links.len() implies #[trigger] cell_weight(a0, b1, i, j)(links[k]) == cell_weight(
        a0,
        a1,
        i,
        j,
    )(links[k]) + cell_weight(b0, b1, i, j)(links[k]) by {
        let l = links[k];
        assert(cell_weight(a0, b1, i, j)(l) == link_cell_weight(l, a0, b1, i, j));
        assert(cell_weight(a0, a1, i, j)(l) == link_cell_weight(l, a0, a1, i, j));
        assert(cell_weight(b0, b1, i, j)(l) == link_cell_weight(l, b0, b1, i, j));
        assert(overlaps(l, a0, b1) == (overlaps(l, a0, a1) || overlaps(l, b0, b1)));
    }
    lemma_weighted_sum_split(
        links,
        cell_weight(a0, a1, i, j),
        cell_weight(b0, b1, i, j),
        cell_weight(a0, b1, i, j),
    );
    assert forall|k: int|
        0 <= k < links.len() implies #[trigger] score_weight(a0, b1)(links[k]) == score_weight(
        a0,
        a1,
    )(links[k]) + score_weight(b0, b1)(links[k]) by {
        let l = links[k];
        assert(score_weight(a0, b1)(l) == link_score_weight(l, a0, b1));
        assert(score_weight(a0, a1)(l) == link_score_weight(l, a0, a1));
        assert(score_weight(b0, b1)(l) == link_score_weight(l, b0, b1));
        assert(overlaps(l, a0, b1) == (overlaps(l, a0, a1) || overlaps(l, b0, b1)));
    }
    lemma_weighted_sum_split(
        links,
        score_weight(a0, a1),
        score_weight(b0, b1),
        score_weight(a0, b1),
    );
}

} // verus!
