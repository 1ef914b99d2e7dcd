//! A bulk-loaded nearest-neighbour index over samples, keyed by the planar
//! proxy `(longitude, latitude)` in nanodegrees.
//!
//! The index only orders candidates; every distance the library compares is
//! recomputed with the spherical kernel.

use vstd::prelude::*;
use rstar::primitives::GeomWithData;
use rstar::RTree;

verus! {

/// An R-tree of `(longitude, latitude, sample index)` entries, held opaquely
/// and reached only through the functions below.
#[verifier::external_body]
pub struct SampleIndex {
    tree: RTree<GeomWithData<[i128; 2], usize>>,
}

/// The entries an index holds.
pub uninterp spec fn index_entries(t: SampleIndex) -> Set<(i128, i128, usize)>;

/// The number of entries an index holds.
pub uninterp spec fn index_size(t: SampleIndex) -> nat;

/// The entries an index was bulk-loaded from, in loading order.
pub uninterp spec fn index_loaded(t: SampleIndex) -> Seq<(i128, i128, usize)>;

/// The order in which a tree bulk-loaded from `entries` yields all of them
/// for the query `q`. Bulk loading and the nearest-neighbour walk are
/// deterministic, so the order depends on these two values alone.
pub uninterp spec fn nearest_order(entries: Seq<(i128, i128, usize)>, q: (i128, i128)) -> Seq<
    (i128, i128, usize),
>;

/// Squared planar distance between an entry and a query point.
#[verifier::opaque]
pub open spec fn proxy_distance(e: (i128, i128, usize), q: (i128, i128)) -> int {
    (e.0 - q.0) * (e.0 - q.0) + (e.1 - q.1) * (e.1 - q.1)
}

/// Relies on `rstar::RTree::bulk_load`: the tree holds exactly the given
/// elements, and `size` counts them. Entries are distinct, so an element of
/// the tree is identified by its value.
#[verifier::external_body]
pub(crate) fn build_index(entries: Vec<(i128, i128, usize)>) -> (r: SampleIndex)
    requires
        entries@.no_duplicates(),
    ensures
        index_entries(r) == entries@.to_set(),
        index_size(r) == entries@.len(),
        index_loaded(r) == entries@,
{
    SampleIndex {
        tree: RTree::bulk_load(
            entries.into_iter().map(|(x, y, i)| GeomWithData::new([x, y], i)).collect(),
        ),
    }
}

/// Largest coordinate magnitude the index is queried with: squared
/// distances between such points stay within `i128`.
pub const PROXY_COORD_LIMIT: i128 = 0x2000_0000_0000_0000;

/// Both coordinates of a planar point lie within the proxy limit.
pub open spec fn proxy_bounded(x: i128, y: i128) -> bool {
    -PROXY_COORD_LIMIT <= x <= PROXY_COORD_LIMIT && -PROXY_COORD_LIMIT <= y <= PROXY_COORD_LIMIT
}

/// Relies on `rstar::RTree::nearest_neighbor_iter`: every element of the tree,
/// each once, in non-decreasing squared distance to the query; the first `k`
/// of them are returned, a prefix of the tree's whole order for that query.
/// The iterator computes squared distances in `i128`,
/// so the query and every entry are bounded to keep them from overflowing.
#[verifier::external_body]
pub(crate) fn nearest_entries(index: &SampleIndex, query: (i128, i128), k: usize) -> (r: Vec<
    (i128, i128, usize),
>)
    requires
        proxy_bounded(query.0, query.1),
        forall|e: (i128, i128, usize)|
            index_entries(*index).contains(e) ==> #[trigger] proxy_bounded(e.0, e.1),
    ensures
        r@.len() == (if k < index_size(*index) {
            k as nat
        } else {
            index_size(*index)
        }),
        r@ == nearest_order(index_loaded(*index), query).take(r@.len() as int),
        r@.no_duplicates(),
        forall|i: int| 0 <= i < r@.len() ==> index_entries(*index).contains(#[trigger] r@[i]),
        forall|i: int, j: int|
            0 <= i <= j < r@.len() ==> proxy_distance(r@[i], query) <= proxy_distance(
                r@[j],
                query,
            ),
        forall|e: (i128, i128, usize)|
            r@.len() > 0 && index_entries(*index).contains(e) && !r@.contains(e) ==> proxy_distance(
                e,
                query,
            ) >= proxy_distance(r@.last(), query),
{
    index.tree.nearest_neighbor_iter(&[query.0, query.1]).take(k).map(
        |g| (g.geom()[0], g.geom()[1], g.data),
    ).collect()
}

} // verus!
