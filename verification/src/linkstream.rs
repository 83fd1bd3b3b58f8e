//! The temporal interval index over a link stream.
//!
//! A dataset holds nodes and time-stamped links. `LinkStream` indexes the
//! links' time intervals once and then answers windowed aggregate queries:
//! which links are active in a window, how strongly each pair of nodes
//! interacted there (`interaction_matrix`), and how much total activity the
//! window holds (`interaction_score_during`).
//!
//! A link `[start, end]` overlaps a window `[w0, w1]` iff
//! `w0 <= end && start <= w1`: touching endpoints count as overlapping, at
//! both ends, on every query path.

use vstd::prelude::*;

use core::ops::Range;
use crate::lapper_index::store_build;
use crate::lapper_index::store_contents;
use crate::lapper_index::store_find;
use crate::lapper_index::IntervalStore;
use crate::sums::lemma_filter_pointwise;
use crate::sums::lemma_filter_to_multiset_count;
use crate::sums::lemma_map_values_permutation;
use crate::sums::lemma_weighted_sum_filter;
use crate::sums::lemma_weighted_sum_le;
use crate::sums::lemma_weighted_sum_nonneg;
use crate::sums::lemma_weighted_sum_permutation;
use crate::sums::lemma_weighted_sum_pointwise;
use crate::sums::lemma_weighted_sum_split;
use crate::sums::lemma_weighted_sum_take_le;
use crate::sums::lemma_weighted_sum_take_step;
use crate::sums::weighted_sum;

verus! {

/// An undirected interaction between nodes `n1` and `n2`, active over the
/// closed time interval `[start, end]`.
#[derive(Clone, Copy, Debug, PartialEq, Eq, Structural)]
pub struct Link {
    pub n1: usize,
    pub n2: usize,
    pub start: u64,
    pub end: u64,
}

/// A link overlaps the closed window `[w0, w1]`; touching endpoints count.
pub open spec fn overlaps(l: Link, w0: int, w1: int) -> bool {
    w0 <= l.end && l.start <= w1
}

/// How long a link is active.
pub open spec fn duration(l: Link) -> int {
    l.end - l.start
}

/// The weight a single link adds to matrix cell `(i, j)`: its duration once
/// for each of the two symmetric orientations that hit the cell.
pub open spec fn link_cell_weight(l: Link, w0: int, w1: int, i: int, j: int) -> int {
    if overlaps(l, w0, w1) {
        (if l.n1 == i && l.n2 == j {
            duration(l)
        } else {
            0
        }) + (if l.n2 == i && l.n1 == j {
            duration(l)
        } else {
            0
        })
    } else {
        0
    }
}

/// The weight a single link adds to the activity score of a window.
pub open spec fn link_score_weight(l: Link, w0: int, w1: int) -> int {
    if overlaps(l, w0, w1) {
        duration(l)
    } else {
        0
    }
}

/// `link_cell_weight` as a weight function over links.
pub open spec fn cell_weight(w0: int, w1: int, i: int, j: int) -> spec_fn(Link) -> int {
    |l: Link| link_cell_weight(l, w0, w1, i, j)
}

/// `link_score_weight` as a weight function over links.
pub open spec fn score_weight(w0: int, w1: int) -> spec_fn(Link) -> int {
    |l: Link| link_score_weight(l, w0, w1)
}

/// A link's duration as a weight function over links.
pub open spec fn duration_weight() -> spec_fn(Link) -> int {
    |l: Link| duration(l)
}

/// Twice a link's duration as a weight function over links: what a link
/// adds to the whole matrix, both orientations together.
pub open spec fn double_duration_weight() -> spec_fn(Link) -> int {
    |l: Link| 2 * duration(l)
}

/// Overlap with the closed window `[w0, w1]` as a predicate over links.
pub open spec fn overlap_pred(w0: int, w1: int) -> spec_fn(Link) -> bool {
    |l: Link| overlaps(l, w0, w1)
}

/// Cell `(i, j)` of the interaction matrix of the window `[w0, w1]`: the
/// summed durations of the links between `i` and `j` that overlap it.
pub open spec fn spec_cell(links: Seq<Link>, w0: int, w1: int, i: int, j: int) -> int {
    weighted_sum(links, cell_weight(w0, w1, i, j))
}

/// Activity score of the window `[w0, w1]`: the summed durations of all
/// links that overlap it, regardless of the nodes they connect.
pub open spec fn spec_score(links: Seq<Link>, w0: int, w1: int) -> int {
    weighted_sum(links, score_weight(w0, w1))
}

/// The summed duration of all links of a dataset.
pub open spec fn total_duration(links: Seq<Link>) -> int {
    weighted_sum(links, duration_weight())
}

/// The links that overlap the closed window `[w0, w1]`, in dataset order.
pub open spec fn overlapping_links(links: Seq<Link>, w0: int, w1: int) -> Seq<Link> {
    links.filter(overlap_pred(w0, w1))
}

/// A dataset: nodes, named in order, and the time-stamped links between
/// them, within global time bounds.
#[derive(Clone, Debug, PartialEq)]
pub struct LinkStreamData {
    pub node_count: usize,
    pub node_names: Vec<String>,
    pub links: Vec<Link>,
    pub min_time: u64,
    pub max_time: u64,
}

impl Default for LinkStreamData {
    /// The empty dataset: no nodes, no links, a collapsed time range.
    fn default() -> (d: Self)
        ensures
            d.node_count == 0,
            d.node_names@.len() == 0,
            d.links@.len() == 0,
            d.min_time == 0,
            d.max_time == 0,
    {
        LinkStreamData {
            node_count: 0,
            node_names: Vec::new(),
            links: Vec::new(),
            min_time: 0,
            max_time: 0,
        }
    }
}

/// A single link is well formed for the given node count and time bounds.
pub open spec fn link_wf(l: Link, node_count: int, min_time: int, max_time: int) -> bool {
    &&& l.n1 < node_count
    &&& l.n2 < node_count
    &&& l.start <= l.end
    &&& min_time <= l.start
    &&& l.end <= max_time
}

/// Why a dataset was rejected at the load boundary.
#[derive(Clone, Copy, Debug, PartialEq, Eq, Structural)]
pub enum DatasetError {
    /// `node_names` does not have `node_count` entries.
    NameCountMismatch,
    /// `min_time > max_time`, or `max_time` leaves no room for the index's
    /// exclusive right endpoints.
    InvalidTimeBounds,
    /// Some link names a node index `>= node_count`, has `start > end`, or
    /// lies outside `[min_time, max_time]`.
    InvalidLink,
    /// The links' total duration is too large for 64-bit aggregation.
    ActivityOverflow,
}

impl LinkStreamData {
    /// Every link is well formed for this dataset's bounds.
    pub open spec fn links_wf(&self) -> bool {
        forall|k: int|
            0 <= k < self.links@.len() ==> link_wf(
                #[trigger] self.links@[k],
                self.node_count as int,
                self.min_time as int,
                self.max_time as int,
            )
    }

    /// The dataset is well formed: names match the node count, the time
    /// bounds are usable, every link is well formed, and the total activity
    /// fits 64-bit aggregation.
    pub open spec fn wf(&self) -> bool {
        &&& self.node_names@.len() == self.node_count
        &&& self.min_time <= self.max_time
        &&& self.max_time < u64::MAX
        &&& self.links_wf()
        &&& 2 * total_duration(self.links@) <= u64::MAX
    }

    /// The outcome of validating this dataset, checks in order.
    pub open spec fn spec_validate(&self) -> Result<(), DatasetError> {
        if self.node_names@.len() != self.node_count {
            Err(DatasetError::NameCountMismatch)
        } else if !(self.min_time <= self.max_time && self.max_time < u64::MAX) {
            Err(DatasetError::InvalidTimeBounds)
        } else if !self.links_wf() {
            Err(DatasetError::InvalidLink)
        } else if 2 * total_duration(self.links@) > u64::MAX {
            Err(DatasetError::ActivityOverflow)
        } else {
            Ok(())
        }
    }

    /// Check a freshly loaded dataset before building an index over it.
    /// Accepts exactly the well-formed datasets and names the first check
    /// that failed otherwise.
    #[verifier::loop_isolation(false)]
    pub fn validate(&self) -> (r: Result<(), DatasetError>)
        ensures
            r == self.spec_validate(),
            r is Ok <==> self.wf(),
    {
        if self.node_names.len() != self.node_count {
            return Err(DatasetError::NameCountMismatch);
        }
        if !(self.min_time <= self.max_time && self.max_time < u64::MAX) {
            return Err(DatasetError::InvalidTimeBounds);
        }
        let n = self.links.len();
        for k in 0..n
            invariant
                forall|m: int|
                    0 <= m < k ==> link_wf(
                        #[trigger] self.links@[m],
                        self.node_count as int,
                        self.min_time as int,
                        self.max_time as int,
                    ),
        {
            let l = self.links[k];
            if !(l.n1 < self.node_count && l.n2 < self.node_count && l.start <= l.end
                && self.min_time <= l.start && l.end <= self.max_time) {
                return Err(DatasetError::InvalidLink);
            }
        }
        let mut total: u128 = 0;
        for k in 0..n
            invariant
                self.links_wf(),
                total == 2 * total_duration(self.links@.take(k as int)),
                total <= u64::MAX as u128,
        {
            let l = self.links[k];
            total = total + 2 * ((l.end - l.start) as u128);
            proof {
                lemma_weighted_sum_take_step(self.links@, duration_weight(), k as int);
            }
            if total > u64::MAX as u128 {
                proof {
                    assert forall|m: int|
                        0 <= m < self.links@.len() implies #[trigger] duration_weight()(
                        self.links@[m],
                    ) >= 0 by {}
                    lemma_weighted_sum_take_le(self.links@, duration_weight(), k + 1);
                }
                return Err(DatasetError::ActivityOverflow);
            }
        }
        proof {
            assert(self.links@.take(n as int) =~= self.links@);
        }
        Ok(())
    }
}

/// The index triples the interval store is built from: one `(start, end + 1,
/// position)` triple per link. The store works on half-open intervals, so
/// the exclusive right endpoint is one past the link's inclusive `end`.
pub open spec fn tuple_seq(links: Seq<Link>) -> Seq<(u64, u64, usize)> {
    Seq::new(links.len(), |k: int| (links[k].start, (links[k].end + 1) as u64, k as usize))
}

/// Overlap with the half-open query `[w0, stop)` as a predicate over index
/// triples, exactly as the interval store tests it.
pub open spec fn tuple_pred(w0: u64, stop: u64) -> spec_fn((u64, u64, usize)) -> bool {
    |t: (u64, u64, usize)| t.0 < stop && t.1 > w0
}

/// The link a triple points back to.
pub open spec fn link_at(links: Seq<Link>) -> spec_fn((u64, u64, usize)) -> Link {
    |t: (u64, u64, usize)| links[t.2 as int]
}

/// A triple and a link are related: the triple points at a valid position
/// that holds that link.
pub open spec fn tuple_rel(links: Seq<Link>) -> spec_fn((u64, u64, usize), Link) -> bool {
    |t: (u64, u64, usize), l: Link| t.2 < links.len() && links[t.2 as int] == l
}

/// Every element of a query result is a well-formed link of the dataset
/// and overlaps the queried window.
proof fn lemma_during_elems(
    links: Seq<Link>,
    during: Seq<Link>,
    nc: int,
    mn: int,
    mx: int,
    w0: int,
    w1: int,
)
    requires
        forall|k: int| 0 <= k < links.len() ==> link_wf(#[trigger] links[k], nc, mn, mx),
        forall|m: int| 0 <= m < during.len() ==> links.contains(#[trigger] during[m]),
        during.to_multiset() == overlapping_links(links, w0, w1).to_multiset(),
    ensures
        forall|m: int| 0 <= m < during.len() ==> link_wf(#[trigger] during[m], nc, mn, mx),
        forall|m: int| 0 <= m < during.len() ==> overlaps(#[trigger] during[m], w0, w1),
{
    broadcast use vstd::seq_lib::group_to_multiset_ensures;

    let lfil = overlapping_links(links, w0, w1);
    assert forall|m: int| 0 <= m < during.len() implies link_wf(#[trigger] during[m], nc, mn, mx)
        && overlaps(during[m], w0, w1) by {
        let x = during[m];
        let k = choose|k: int| 0 <= k < links.len() && links[k] == x;
        assert(link_wf(links[k], nc, mn, mx));
        assert(during.contains(x));
        assert(during.to_multiset().count(x) > 0);
        assert(lfil.to_multiset().count(x) > 0);
        assert(lfil.contains(x));
        let k2 = choose|k2: int| 0 <= k2 < lfil.len() && lfil[k2] == x;
        assert(overlap_pred(w0, w1)(lfil[k2]));
        assert(overlap_pred(w0, w1)(x) == overlaps(x, w0, w1));
    }
}

/// Summing the durations of a query result gives the window's score.
proof fn lemma_during_score(links: Seq<Link>, during: Seq<Link>, w0: int, w1: int)
    requires
        during.to_multiset() == overlapping_links(links, w0, w1).to_multiset(),
    ensures
        weighted_sum(during, duration_weight()) == spec_score(links, w0, w1),
{
    lemma_weighted_sum_permutation(during, overlapping_links(links, w0, w1), duration_weight());
    assert forall|x: Link| #[trigger] score_weight(w0, w1)(x) == if overlap_pred(w0, w1)(x) {
        duration_weight()(x)
    } else {
        0
    } by {}
    lemma_weighted_sum_filter(
        links,
        overlap_pred(w0, w1),
        duration_weight(),
        score_weight(w0, w1),
    );
}

/// Summing a cell weight over a query result gives the matrix cell.
proof fn lemma_during_cell(links: Seq<Link>, during: Seq<Link>, w0: int, w1: int, i: int, j: int)
    requires
        during.to_multiset() == overlapping_links(links, w0, w1).to_multiset(),
    ensures
        weighted_sum(during, cell_weight(w0, w1, i, j)) == spec_cell(links, w0, w1, i, j),
{
    lemma_weighted_sum_permutation(
        during,
        overlapping_links(links, w0, w1),
        cell_weight(w0, w1, i, j),
    );
    assert forall|x: Link| #[trigger] cell_weight(w0, w1, i, j)(x) == if overlap_pred(w0, w1)(x) {
        cell_weight(w0, w1, i, j)(x)
    } else {
        0
    } by {}
    lemma_weighted_sum_filter(
        links,
        overlap_pred(w0, w1),
        cell_weight(w0, w1, i, j),
        cell_weight(w0, w1, i, j),
    );
}

/// The score of a window is at most the dataset's total duration.
proof fn lemma_score_le_total(links: Seq<Link>, w0: int, w1: int)
    requires
        forall|k: int| 0 <= k < links.len() ==> (#[trigger] links[k]).start <= links[k].end,
    ensures
        spec_score(links, w0, w1) <= total_duration(links),
{
    assert forall|k: int|
        0 <= k < links.len() implies #[trigger] score_weight(w0, w1)(links[k])
        <= #[trigger] duration_weight()(links[k]) by {}
    lemma_weighted_sum_le(links, score_weight(w0, w1), duration_weight());
}

/// Any prefix sum of a cell weight over a query result is non-negative and
/// at most twice the dataset's total duration.
proof fn lemma_cell_prefix_bound(
    links: Seq<Link>,
    during: Seq<Link>,
    w0: int,
    w1: int,
    i: int,
    j: int,
    idx: int,
)
    requires
        during.to_multiset() == overlapping_links(links, w0, w1).to_multiset(),
        forall|k: int| 0 <= k < links.len() ==> (#[trigger] links[k]).start <= links[k].end,
        forall|m: int| 0 <= m < during.len() ==> (#[trigger] during[m]).start <= during[m].end,
        0 <= idx <= during.len(),
    ensures
        0 <= weighted_sum(during.take(idx), cell_weight(w0, w1, i, j)),
        weighted_sum(during.take(idx), cell_weight(w0, w1, i, j)) <= 2 * total_duration(links),
{
    let cw = cell_weight(w0, w1, i, j);
    let tk = during.take(idx);
    assert forall|m: int| 0 <= m < tk.len() implies #[trigger] cw(tk[m]) >= 0 by {
        assert(tk[m] == during[m]);
        assert(cw(during[m]) == link_cell_weight(during[m], w0, w1, i, j));
    }
    lemma_weighted_sum_nonneg(tk, cw);
    assert forall|m: int| 0 <= m < during.len() implies #[trigger] cw(during[m]) >= 0 by {
        assert(cw(during[m]) == link_cell_weight(during[m], w0, w1, i, j));
    }
    lemma_weighted_sum_take_le(during, cw, idx);
    assert forall|m: int| 0 <= m < during.len() implies #[trigger] cw(during[m])
        <= #[trigger] double_duration_weight()(during[m]) by {
        assert(cw(during[m]) == link_cell_weight(during[m], w0, w1, i, j));
    }
    lemma_weighted_sum_le(during, cw, double_duration_weight());
    assert forall|m: int|
        0 <= m < during.len() implies #[trigger] double_duration_weight()(during[m])
        == duration_weight()(during[m]) + duration_weight()(during[m]) by {}
    lemma_weighted_sum_split(
        during,
        duration_weight(),
        duration_weight(),
        double_duration_weight(),
    );
    lemma_during_score(links, during, w0, w1);
    lemma_score_le_total(links, w0, w1);
}

/// The interaction matrix is symmetric: every link weighs its two
/// orientations equally, so cell `(i, j)` always equals cell `(j, i)`.
pub proof fn lemma_cell_symmetric(links: Seq<Link>, w0: int, w1: int, i: int, j: int)
    ensures
        spec_cell(links, w0, w1, i, j) == spec_cell(links, w0, w1, j, i),
{
    assert forall|k: int|
        0 <= k < links.len() implies #[trigger] cell_weight(w0, w1, i, j)(links[k])
        == #[trigger] cell_weight(w0, w1, j, i)(links[k]) by {
        assert(cell_weight(w0, w1, i, j)(links[k]) == link_cell_weight(links[k], w0, w1, i, j));
        assert(cell_weight(w0, w1, j, i)(links[k]) == link_cell_weight(links[k], w0, w1, j, i));
    }
    lemma_weighted_sum_pointwise(links, links, cell_weight(w0, w1, i, j), cell_weight(w0, w1, j, i));
}

/// A dataset together with an interval index over its links' time ranges.
/// Built once; immutable afterwards; all queries are read-only.
pub struct LinkStream {
    data: LinkStreamData,
    intervals: IntervalStore,
    name: String,
}

impl View for LinkStream {
    type V = LinkStreamData;

    closed spec fn view(&self) -> LinkStreamData {
        self.data
    }
}

impl LinkStream {
    /// The display name this stream was loaded under.
    pub closed spec fn spec_name(&self) -> Seq<char> {
        self.name@
    }

    /// The interval store holds exactly one triple per link.
    pub closed spec fn index_wf(&self) -> bool {
        store_contents(self.intervals) == tuple_seq(self.data.links@).to_multiset()
    }

    /// A well-formed stream: well-formed dataset, faithfully indexed.
    pub open spec fn wf(&self) -> bool {
        &&& self@.wf()
        &&& self.index_wf()
    }

    /// Index a dataset. The caller has already validated it.
    #[verifier::loop_isolation(false)]
    pub fn new(name: String, data: LinkStreamData) -> (r: LinkStream)
        requires
            data.wf(),
        ensures
            r.wf(),
            r@ == data,
            r.spec_name() == name@,
    {
        let n = data.links.len();
        let mut items: Vec<(u64, u64, usize)> = Vec::new();
        for k in 0..n
            invariant
                items@ =~= tuple_seq(data.links@).take(k as int),
        {
            let l = data.links[k];
            items.push((l.start, l.end + 1, k));
            proof {
                assert(tuple_seq(data.links@).take(k + 1) =~= tuple_seq(data.links@).take(
                    k as int,
                ).push((l.start, (l.end + 1) as u64, k)));
            }
        }
        proof {
            assert(tuple_seq(data.links@).take(n as int) =~= tuple_seq(data.links@));
        }
        let intervals = store_build(items);
        LinkStream { data, intervals, name }
    }

    /// All links whose interval overlaps the closed window
    /// `[time_window.start, time_window.end]`, touching endpoints included,
    /// each exactly as often as the dataset holds it; the order is the
    /// index's own.
    #[verifier::loop_isolation(false)]
    pub fn links_during(&self, time_window: Range<u64>) -> (r: Vec<Link>)
        requires
            self.wf(),
        ensures
            r@.to_multiset() == overlapping_links(
                self@.links@,
                time_window.start as int,
                time_window.end as int,
            ).to_multiset(),
            forall|m: int| 0 <= m < r@.len() ==> self@.links@.contains(#[trigger] r@[m]),
    {
        let w0 = time_window.start;
        let w1 = time_window.end;
        let stop = if w1 == u64::MAX {
            u64::MAX
        } else {
            w1 + 1
        };
        let found = store_find(&self.intervals, w0, stop);
        let link_count = self.data.links.len();
        let ghost links = self@.links@;
        let ghost ts = tuple_seq(links);
        let ghost tp = tuple_pred(w0, stop);
        let ghost lp = overlap_pred(w0 as int, w1 as int);
        let ghost fseq = ts.filter(tp);
        let ghost lfil = links.filter(lp);
        proof {
            broadcast use vstd::seq_lib::group_to_multiset_ensures;

            assert forall|t: (u64, u64, usize)|
                found@.to_multiset().count(t) == fseq.to_multiset().count(t) by {
                lemma_filter_to_multiset_count(ts, tp, t);
                assert(found@.to_multiset().count(t) == if tp(t) {
                    store_contents(self.intervals).count(t)
                } else {
                    0
                });
            }
            assert(found@.to_multiset() =~= fseq.to_multiset());
            assert forall|k: int| 0 <= k < ts.len() implies #[trigger] tp(ts[k]) == #[trigger] lp(
                links[k],
            ) by {
                assert(link_wf(
                    links[k],
                    self@.node_count as int,
                    self@.min_time as int,
                    self@.max_time as int,
                ));
            }
            assert(links.len() == link_count);
            assert forall|k: int| 0 <= k < ts.len() implies #[trigger] tuple_rel(links)(
                ts[k],
                links[k],
            ) by {
                assert(ts[k] == (links[k].start, (links[k].end + 1) as u64, k as usize));
            }
            lemma_filter_pointwise(ts, links, tp, lp, tuple_rel(links));
        }
        let mut r: Vec<Link> = Vec::new();
        let n = found.len();
        let mut idx: usize = 0;
        while idx < n
            invariant
                idx <= n,
                r@.len() == idx,
                forall|m: int| 0 <= m < idx ==> (#[trigger] found@[m]).2 < links.len(),
                forall|m: int| 0 <= m < idx ==> #[trigger] r@[m] == link_at(links)(found@[m]),
            decreases n - idx,
        {
            let t = found[idx];
            proof {
                broadcast use vstd::seq_lib::group_to_multiset_ensures;

                assert(found@.contains(t));
                assert(found@.to_multiset().count(t) > 0);
                assert(fseq.to_multiset().count(t) > 0);
                assert(fseq.contains(t));
                let m = choose|m: int| 0 <= m < fseq.len() && fseq[m] == t;
                assert(tuple_rel(links)(fseq[m], lfil[m]));
                assert(t.2 < links.len());
                assert(links == self.data.links@);
            }
            let l = self.data.links[t.2];
            let ghost r_prev = r@;
            r.push(l);
            proof {
                assert forall|m2: int| 0 <= m2 < idx + 1 implies (#[trigger] found@[m2]).2
                    < links.len() by {
                    if m2 == idx {
                        assert(found@[m2] == t);
                    }
                }
                assert forall|m2: int|
                    0 <= m2 < idx + 1 implies #[trigger] r@[m2] == link_at(links)(found@[m2]) by {
                    if m2 < idx {
                        assert(r@[m2] == r_prev[m2]);
                    } else {
                        assert(found@[m2] == t);
                        assert(r@[m2] == l);
                        assert(l == links[t.2 as int]);
                        assert(link_at(links)(found@[m2]) == links[t.2 as int]);
                    }
                }
            }
            idx = idx + 1;
        }
        proof {
            assert(r@ =~= found@.map_values(link_at(links)));
            lemma_map_values_permutation(found@, fseq, link_at(links));
            assert(fseq.map_values(link_at(links)) =~= lfil) by {
                assert forall|m: int| 0 <= m < fseq.len() implies fseq.map_values(link_at(links))[m]
                    == lfil[m] by {
                    assert(tuple_rel(links)(fseq[m], lfil[m]));
                }
            }
            assert forall|m: int| 0 <= m < r@.len() implies links.contains(#[trigger] r@[m]) by {
                assert(r@[m] == links[found@[m].2 as int]);
            }
        }
        r
    }

    /// Total activity in the window: the summed durations of every link
    /// that overlaps it, whichever nodes it connects.
    #[verifier::loop_isolation(false)]
    pub fn interaction_score_during(&self, time_window: Range<u64>) -> (r: u64)
        requires
            self.wf(),
        ensures
            r == spec_score(self@.links@, time_window.start as int, time_window.end as int),
    {
        let w0 = time_window.start;
        let w1 = time_window.end;
        let ghost links = self@.links@;
        let during = self.links_during(w0..w1);
        proof {
            lemma_during_elems(
                links,
                during@,
                self@.node_count as int,
                self@.min_time as int,
                self@.max_time as int,
                w0 as int,
                w1 as int,
            );
            lemma_during_score(links, during@, w0 as int, w1 as int);
            lemma_score_le_total(links, w0 as int, w1 as int);
            assert forall|m: int|
                0 <= m < during@.len() implies #[trigger] duration_weight()(during@[m]) >= 0 by {
                assert(link_wf(
                    during@[m],
                    self@.node_count as int,
                    self@.min_time as int,
                    self@.max_time as int,
                ));
            }
        }
        let mut score: u64 = 0;
        let mut idx: usize = 0;
        while idx < during.len()
            invariant
                idx <= during.len(),
                score == weighted_sum(during@.take(idx as int), duration_weight()),
            decreases during.len() - idx,
        {
            let l = during[idx];
            proof {
                assert(link_wf(
                    during@[idx as int],
                    self@.node_count as int,
                    self@.min_time as int,
                    self@.max_time as int,
                ));
                lemma_weighted_sum_take_step(during@, duration_weight(), idx as int);
                assert(duration_weight()(l) == duration(l));
                lemma_weighted_sum_take_le(during@, duration_weight(), idx as int + 1);
            }
            score = score + (l.end - l.start);
            idx = idx + 1;
        }
        proof {
            assert(during@.take(during@.len() as int) =~= during@);
        }
        score
    }

    /// The interaction matrix of the window: cell `(i, j)` accumulates the
    /// duration of every overlapping link between nodes `i` and `j`;
    /// several links between the same pair sum. The matrix is square, with
    /// one row per node, and symmetric.
    #[verifier::loop_isolation(false)]
    pub fn interaction_matrix(&self, time_window: Range<u64>) -> (r: Vec<Vec<u64>>)
        requires
            self.wf(),
        ensures
            r@.len() == self@.node_count,
            forall|i: int| 0 <= i < r@.len() ==> (#[trigger] r@[i])@.len() == self@.node_count,
            forall|i: int, j: int|
                0 <= i < self@.node_count && 0 <= j < self@.node_count ==> #[trigger] r@[i]@[j]
                    == spec_cell(
                    self@.links@,
                    time_window.start as int,
                    time_window.end as int,
                    i,
                    j,
                ),
            forall|i: int, j: int|
                0 <= i < self@.node_count && 0 <= j < self@.node_count ==> #[trigger] r@[i]@[j]
                    == r@[j]@[i],
    {
        let w0 = time_window.start;
        let w1 = time_window.end;
        let n = self.data.node_count;
        let ghost links = self@.links@;
        let during = self.links_during(w0..w1);
        proof {
            lemma_during_elems(
                links,
                during@,
                self@.node_count as int,
                self@.min_time as int,
                self@.max_time as int,
                w0 as int,
                w1 as int,
            );
        }
        let mut rows: Vec<Vec<u64>> = Vec::new();
        let mut i: usize = 0;
        while i < n
            invariant
                i <= n,
                rows@.len() == i,
                forall|a: int| 0 <= a < i ==> (#[trigger] rows@[a])@.len() == n,
                forall|a: int, b: int| 0 <= a < i && 0 <= b < n ==> #[trigger] rows@[a]@[b] == 0,
            decreases n - i,
        {
            let mut row: Vec<u64> = Vec::new();
            let mut j: usize = 0;
            while j < n
                invariant
                    j <= n,
                    row@.len() == j,
                    forall|b: int| 0 <= b < j ==> #[trigger] row@[b] == 0,
                decreases n - j,
            {
                row.push(0);
                j = j + 1;
            }
            rows.push(row);
            i = i + 1;
        }
        let ghost w0i = w0 as int;
        let ghost w1i = w1 as int;
        proof {
            assert forall|a: int, b: int| 0 <= a < n && 0 <= b < n implies #[trigger] rows@[a]@[b]
                == weighted_sum(during@.take(0), cell_weight(w0i, w1i, a, b)) by {}
        }
        let mut idx: usize = 0;
        while idx < during.len()
            invariant
                idx <= during.len(),
                rows@.len() == n,
                forall|a: int| 0 <= a < n ==> (#[trigger] rows@[a])@.len() == n,
                forall|a: int, b: int|
                    0 <= a < n && 0 <= b < n ==> #[trigger] rows@[a]@[b] == weighted_sum(
                        during@.take(idx as int),
                        cell_weight(w0i, w1i, a, b),
                    ),
            decreases during.len() - idx,
        {
            let l = during[idx];
            proof {
                assert(link_wf(
                    during@[idx as int],
                    self@.node_count as int,
                    self@.min_time as int,
                    self@.max_time as int,
                ));
                assert(overlaps(during@[idx as int], w0i, w1i));
            }
            let d = l.end - l.start;
            let ghost rows0 = rows@;
            proof {
                lemma_weighted_sum_take_step(
                    during@,
                    cell_weight(w0i, w1i, l.n1 as int, l.n2 as int),
                    idx as int,
                );
                lemma_cell_prefix_bound(
                    links,
                    during@,
                    w0i,
                    w1i,
                    l.n1 as int,
                    l.n2 as int,
                    idx as int + 1,
                );
                assert(cell_weight(w0i, w1i, l.n1 as int, l.n2 as int)(l) == link_cell_weight(
                    l,
                    w0i,
                    w1i,
                    l.n1 as int,
                    l.n2 as int,
                ));
            }
            let v1 = rows[l.n1][l.n2];
            rows[l.n1][l.n2] = v1 + d;
            let ghost rows1 = rows@;
            proof {
                lemma_weighted_sum_take_step(
                    during@,
                    cell_weight(w0i, w1i, l.n2 as int, l.n1 as int),
                    idx as int,
                );
                lemma_cell_prefix_bound(
                    links,
                    during@,
                    w0i,
                    w1i,
                    l.n2 as int,
                    l.n1 as int,
                    idx as int + 1,
                );
                assert(cell_weight(w0i, w1i, l.n2 as int, l.n1 as int)(l) == link_cell_weight(
                    l,
                    w0i,
                    w1i,
                    l.n2 as int,
                    l.n1 as int,
                ));
            }
            let v2 = rows[l.n2][l.n1];
            rows[l.n2][l.n1] = v2 + d;
            proof {
                assert forall|a: int, b: int|
                    0 <= a < n && 0 <= b < n implies #[trigger] rows@[a]@[b] == weighted_sum(
                    during@.take(idx as int + 1),
                    cell_weight(w0i, w1i, a, b),
                ) by {
                    lemma_weighted_sum_take_step(during@, cell_weight(w0i, w1i, a, b), idx as int);
                    assert(cell_weight(w0i, w1i, a, b)(l) == link_cell_weight(l, w0i, w1i, a, b));
                    assert(rows0[a]@[b] == weighted_sum(
                        during@.take(idx as int),
                        cell_weight(w0i, w1i, a, b),
                    ));
                }
            }
            idx = idx + 1;
        }
        proof {
            assert(during@.take(during@.len() as int) =~= during@);
            assert forall|a: int, b: int|
                0 <= a < n && 0 <= b < n implies #[trigger] rows@[a]@[b] == spec_cell(
                links,
                w0i,
                w1i,
                a,
                b,
            ) by {
                lemma_during_cell(links, during@, w0i, w1i, a, b);
            }
            assert forall|a: int, b: int|
                0 <= a < n && 0 <= b < n implies #[trigger] rows@[a]@[b] == rows@[b]@[a] by {
                lemma_cell_symmetric(links, w0i, w1i, a, b);
            }
        }
        rows
    }

    /// All node names, in index order.
    pub fn node_names(&self) -> (r: &Vec<String>)
        ensures
            r@ == self@.node_names@,
    {
        &self.data.node_names
    }

    /// The display name this stream was loaded under.
    pub fn name(&self) -> (r: String)
        ensures
            r@ == self.spec_name(),
    {
        self.name.clone()
    }

    /// How many nodes the dataset has.
    pub fn node_count(&self) -> (r: usize)
        ensures
            r == self@.node_count,
    {
        self.data.node_count
    }

    /// The dataset's whole time range, the index's validity domain.
    pub fn time_window(&self) -> (r: Range<u64>)
        ensures
            r.start == self@.min_time,
            r.end == self@.max_time,
    {
        self.data.min_time..self.data.max_time
    }
}

} // verus!

