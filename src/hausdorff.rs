//! Directed and symmetric Hausdorff distance between flattened polylines,
//! with deterministic witness selection.
//!
//! Distances are whole nanometers, so two distances within the comparison
//! tolerance (a picometer) are equal. Among equally near targets the one with
//! the smaller `(part, vertex)` wins; among equally far origins the smaller
//! `(part, vertex)` of the origin wins, then of the target.

use vstd::prelude::*;
use crate::index::{
    build_index, index_entries, index_loaded, index_size, nearest_entries, nearest_order,
    proxy_bounded, proxy_distance, SampleIndex,
};
use crate::polyline::{
    all_valid, clip_spec, densify_multi_spec, densify_multiline, offsets_well_formed, views,
    DensificationOptions, FlattenedPolyline,
};
use crate::spherical::{distance_nm, distance_spec, lemma_distance_to_self};
use crate::types::{BoundingBox, Distance, GeodistError, Point};

verus! {

/// A sample together with its position in a flattened geometry.
#[derive(Debug, Clone, Copy, PartialEq, Eq, Structural)]
pub struct PolylineSample {
    pub point: Point,
    pub part_index: usize,
    pub vertex_index: usize,
}

/// The outcome of one directed evaluation: the origin, its chosen target and
/// their distance in nanometers.
#[derive(Debug, Clone, Copy, PartialEq, Eq, Structural)]
pub struct DirectedWitness {
    pub distance_nm: u64,
    pub source: PolylineSample,
    pub target: PolylineSample,
}

pub open spec fn samples_valid(s: Seq<PolylineSample>) -> bool {
    forall|i: int| 0 <= i < s.len() ==> (#[trigger] s[i]).point.valid()
}

/// The witness pairing `a` with `b`.
pub open spec fn witness_of(a: PolylineSample, b: PolylineSample) -> DirectedWitness {
    DirectedWitness { distance_nm: distance_spec(a.point, b.point) as u64, source: a, target: b }
}

/// `(p1, v1)` precedes `(p2, v2)` lexicographically.
pub open spec fn index_before(p1: usize, v1: usize, p2: usize, v2: usize) -> bool {
    p1 < p2 || (p1 == p2 && v1 < v2)
}

/// `cand` is a strictly better nearest target than `cur`: nearer, or as near
/// with a smaller target index.
pub open spec fn prefers_target_spec(cur: DirectedWitness, cand: DirectedWitness) -> bool {
    cand.distance_nm < cur.distance_nm || (cand.distance_nm == cur.distance_nm && index_before(
        cand.target.part_index,
        cand.target.vertex_index,
        cur.target.part_index,
        cur.target.vertex_index,
    ))
}

/// `cand` is a strictly better worst case than `cur`: farther, or as far with
/// a smaller source index, then a smaller target index.
pub open spec fn prefers_worse_spec(cur: DirectedWitness, cand: DirectedWitness) -> bool {
    cand.distance_nm > cur.distance_nm || (cand.distance_nm == cur.distance_nm && (index_before(
        cand.source.part_index,
        cand.source.vertex_index,
        cur.source.part_index,
        cur.source.vertex_index,
    ) || (cand.source.part_index == cur.source.part_index && cand.source.vertex_index
        == cur.source.vertex_index && index_before(
        cand.target.part_index,
        cand.target.vertex_index,
        cur.target.part_index,
        cur.target.vertex_index,
    ))))
}

/// The nearest target of `a` in `b`, scanning in order and replacing the
/// current choice only by a strictly better one.
pub open spec fn nearest_spec(a: PolylineSample, b: Seq<PolylineSample>) -> DirectedWitness
    decreases b.len(),
{
    if b.len() <= 1 {
        witness_of(a, b[0])
    } else {
        let cur = nearest_spec(a, b.drop_last());
        let cand = witness_of(a, b.last());
        if prefers_target_spec(cur, cand) {
            cand
        } else {
            cur
        }
    }
}

/// The directed Hausdorff witness from `a` to `b`: the worst nearest pair.
pub open spec fn directed_spec(a: Seq<PolylineSample>, b: Seq<PolylineSample>) -> DirectedWitness
    decreases a.len(),
{
    if a.len() <= 1 {
        nearest_spec(a[0], b)
    } else {
        let cur = directed_spec(a.drop_last(), b);
        let cand = nearest_spec(a.last(), b);
        if prefers_worse_spec(cur, cand) {
            cand
        } else {
            cur
        }
    }
}

/// The nearest target is a member of `b`, at its true distance, and no target
/// is nearer.
pub proof fn lemma_nearest_is_minimum(a: PolylineSample, b: Seq<PolylineSample>)
    requires
        b.len() >= 1,
    ensures
        nearest_spec(a, b).source == a,
        exists|j: int| 0 <= j < b.len() && nearest_spec(a, b) == witness_of(a, b[j]),
        forall|j: int|
            0 <= j < b.len() ==> nearest_spec(a, b).distance_nm <= (#[trigger] witness_of(
                a,
                b[j],
            )).distance_nm,
        forall|j: int|
            0 <= j < b.len() ==> !prefers_target_spec(nearest_spec(a, b), #[trigger] witness_of(a, b[j])),
    decreases b.len(),
{
    if b.len() == 1 {
        assert(nearest_spec(a, b) == witness_of(a, b[0]));
    } else {
        let t = b.drop_last();
        lemma_nearest_is_minimum(a, t);
        let cur = nearest_spec(a, t);
        let k = choose|j: int| 0 <= j < t.len() && cur == witness_of(a, t[j]);
        if prefers_target_spec(cur, witness_of(a, b.last())) {
            assert(nearest_spec(a, b) == witness_of(a, b[b.len() - 1]));
        } else {
            assert(b[k] == t[k]);
            assert(nearest_spec(a, b) == witness_of(a, b[k]));
        }
        assert forall|j: int| 0 <= j < b.len() implies nearest_spec(a, b).distance_nm <= (
        #[trigger] witness_of(a, b[j])).distance_nm by {
            if j < t.len() {
                assert(b[j] == t[j]);
                assert(cur.distance_nm <= witness_of(a, t[j]).distance_nm);
            }
        }
        assert forall|j: int| 0 <= j < b.len() implies !prefers_target_spec(
            nearest_spec(a, b),
            #[trigger] witness_of(a, b[j]),
        ) by {
            if j < t.len() {
                assert(b[j] == t[j]);
                assert(!prefers_target_spec(cur, witness_of(a, t[j])));
            }
        }
    }
}

/// The directed witness is the nearest pair of one origin of `a`, and no
/// origin's nearest pair is farther.
pub proof fn lemma_directed_is_maximum(a: Seq<PolylineSample>, b: Seq<PolylineSample>)
    requires
        a.len() >= 1,
        b.len() >= 1,
    ensures
        exists|i: int| 0 <= i < a.len() && directed_spec(a, b) == nearest_spec(a[i], b),
        forall|i: int|
            0 <= i < a.len() ==> (#[trigger] nearest_spec(a[i], b)).distance_nm <= directed_spec(
                a,
                b,
            ).distance_nm,
    decreases a.len(),
{
    if a.len() == 1 {
        assert(directed_spec(a, b) == nearest_spec(a[0], b));
    } else {
        let t = a.drop_last();
        lemma_directed_is_maximum(t, b);
        let cur = directed_spec(t, b);
        let k = choose|i: int| 0 <= i < t.len() && cur == nearest_spec(t[i], b);
        if prefers_worse_spec(cur, nearest_spec(a.last(), b)) {
            assert(directed_spec(a, b) == nearest_spec(a[a.len() - 1], b));
        } else {
            assert(a[k] == t[k]);
            assert(directed_spec(a, b) == nearest_spec(a[k], b));
        }
        assert forall|i: int| 0 <= i < a.len() implies (#[trigger] nearest_spec(
            a[i],
            b,
        )).distance_nm <= directed_spec(a, b).distance_nm by {
            if i < t.len() {
                assert(a[i] == t[i]);
            }
        }
    }
}

/// The witness pairing two samples, with their true distance.
pub fn directed_witness(origin: &PolylineSample, candidate: &PolylineSample) -> (r: DirectedWitness)
    requires
        origin.point.valid(),
        candidate.point.valid(),
    ensures
        r == witness_of(*origin, *candidate),
{
    let d = distance_nm(origin.point, candidate.point);
    DirectedWitness { distance_nm: d, source: *origin, target: *candidate }
}

/// Whether `candidate` is a strictly better nearest target than `current`.
pub fn prefers_target(current: &DirectedWitness, candidate: &DirectedWitness) -> (r: bool)
    ensures
        r == prefers_target_spec(*current, *candidate),
{
    if candidate.distance_nm < current.distance_nm {
        return true;
    }
    candidate.distance_nm == current.distance_nm && (candidate.target.part_index
        < current.target.part_index || (candidate.target.part_index == current.target.part_index
        && candidate.target.vertex_index < current.target.vertex_index))
}

/// Whether `candidate` is a strictly worse (farther) pair than `current`,
/// ties going to the smaller source index, then target index.
pub fn prefers_worse_witness(current: &DirectedWitness, candidate: &DirectedWitness) -> (r: bool)
    ensures
        r == prefers_worse_spec(*current, *candidate),
{
    if candidate.distance_nm > current.distance_nm {
        return true;
    }
    candidate.distance_nm == current.distance_nm && (candidate.source.part_index
        < current.source.part_index || (candidate.source.part_index == current.source.part_index
        && (candidate.source.vertex_index < current.source.vertex_index || (
    candidate.source.vertex_index == current.source.vertex_index && (candidate.target.part_index
        < current.target.part_index || (candidate.target.part_index == current.target.part_index
        && candidate.target.vertex_index < current.target.vertex_index))))))
}

/// The nearest target of `origin` among `candidates`, by exhaustive scan.
pub fn nearest_naive(origin: &PolylineSample, candidates: &[PolylineSample]) -> (r: DirectedWitness)
    requires
        origin.point.valid(),
        candidates@.len() >= 1,
        samples_valid(candidates@),
    ensures
        r == nearest_spec(*origin, candidates@),
{
    let mut nearest = directed_witness(origin, &candidates[0]);
    let mut j: usize = 1;
    assert(candidates@.subrange(0, 1).drop_last().len() == 0);
    while j < candidates.len()
        invariant
            1 <= j <= candidates@.len(),
            origin.point.valid(),
            samples_valid(candidates@),
            nearest == nearest_spec(*origin, candidates@.subrange(0, j as int)),
        decreases candidates@.len() - j,
    {
        let witness = directed_witness(origin, &candidates[j]);
        proof {
            let next = candidates@.subrange(0, j as int + 1);
            assert(next.drop_last() =~= candidates@.subrange(0, j as int));
            assert(next.last() == candidates@[j as int]);
        }
        if prefers_target(&nearest, &witness) {
            nearest = witness;
        }
        j = j + 1;
    }
    assert(candidates@.subrange(0, candidates@.len() as int) =~= candidates@);
    nearest
}

/// Directed Hausdorff witness by exhaustive scan of every pair.
pub fn hausdorff_directed_polyline_naive(
    origins: &[PolylineSample],
    candidates: &[PolylineSample],
) -> (r: DirectedWitness)
    requires
        origins@.len() >= 1,
        candidates@.len() >= 1,
        samples_valid(origins@),
        samples_valid(candidates@),
    ensures
        r == directed_spec(origins@, candidates@),
{
    let mut best = nearest_naive(&origins[0], candidates);
    let mut i: usize = 1;
    while i < origins.len()
        invariant
            1 <= i <= origins@.len(),
            candidates@.len() >= 1,
            samples_valid(origins@),
            samples_valid(candidates@),
            best == directed_spec(origins@.subrange(0, i as int), candidates@),
        decreases origins@.len() - i,
    {
        let nearest = nearest_naive(&origins[i], candidates);
        proof {
            let next = origins@.subrange(0, i as int + 1);
            assert(next.drop_last() =~= origins@.subrange(0, i as int));
            assert(next.last() == origins@[i as int]);
        }
        if prefers_worse_witness(&best, &nearest) {
            best = nearest;
        }
        i = i + 1;
    }
    assert(origins@.subrange(0, origins@.len() as int) =~= origins@);
    best
}

// ---------------------------------------------------------------------------
// Index-accelerated search
// ---------------------------------------------------------------------------

/// The index entry of the `i`-th candidate: its planar proxy and its position.
pub open spec fn entry_of(s: PolylineSample, i: int) -> (i128, i128, usize) {
    (s.point.lon as i128, s.point.lat as i128, i as usize)
}

/// `w` pairs `a` with one of the candidates in `b`, at their true distance.
pub open spec fn pairs_with(a: PolylineSample, b: Seq<PolylineSample>, w: DirectedWitness) -> bool {
    exists|j: int| 0 <= j < b.len() && w == witness_of(a, b[j])
}

/// What holds of the index-accelerated result: its pair is a genuine pair of
/// an origin and a candidate, it is never nearer than the exhaustive result,
/// it is zero when every origin also occurs among the candidates, and it is
/// the exhaustive result itself wherever proxy order agrees with great-circle
/// order and candidate tags are unique.
pub open spec fn indexed_sound(
    a: Seq<PolylineSample>,
    b: Seq<PolylineSample>,
    w: DirectedWitness,
) -> bool {
    &&& exists|i: int| 0 <= i < a.len() && w.source == a[i] && pairs_with(a[i], b, w)
    &&& w.distance_nm >= directed_spec(a, b).distance_nm
    &&& covers(b, a) ==> w.distance_nm == 0
    &&& consistent_everywhere(a, b) ==> w == directed_spec(a, b)
}

/// The index's query point for an origin.
pub open spec fn query_of(a: PolylineSample) -> (i128, i128) {
    (a.point.lon as i128, a.point.lat as i128)
}

/// For origin `a`, planar proxy order never contradicts great-circle order:
/// a candidate no farther by proxy is no farther in truth.
pub open spec fn proxy_consistent(a: PolylineSample, b: Seq<PolylineSample>) -> bool {
    forall|i: int, j: int|
        0 <= i < b.len() && 0 <= j < b.len() && proxy_distance(entry_of(b[i], i), query_of(a))
            <= proxy_distance(entry_of(b[j], j), query_of(a)) ==> #[trigger] distance_spec(
            a.point,
            b[i].point,
        ) <= #[trigger] distance_spec(a.point, b[j].point)
}

/// No two samples share a `(part, vertex)` tag.
pub open spec fn unique_tags(b: Seq<PolylineSample>) -> bool {
    forall|i: int, j: int|
        0 <= i < b.len() && 0 <= j < b.len() && i != j ==> (#[trigger] b[i]).part_index
            != (#[trigger] b[j]).part_index || b[i].vertex_index != b[j].vertex_index
}

/// Proxy order is consistent for every origin, and candidate tags are unique.
pub open spec fn consistent_everywhere(a: Seq<PolylineSample>, b: Seq<PolylineSample>) -> bool {
    &&& unique_tags(b)
    &&& forall|i: int| 0 <= i < a.len() ==> proxy_consistent(#[trigger] a[i], b)
}

proof fn lemma_all_entries_found(
    found: Seq<(i128, i128, usize)>,
    entries: Seq<(i128, i128, usize)>,
    e: (i128, i128, usize),
)
    requires
        found.no_duplicates(),
        entries.no_duplicates(),
        found.len() == entries.len(),
        forall|i: int| 0 <= i < found.len() ==> entries.to_set().contains(#[trigger] found[i]),
        entries.contains(e),
    ensures
        found.contains(e),
{
    broadcast use vstd::set::group_set_axioms, vstd::seq_lib::seq_to_set_is_finite;

    if !found.contains(e) {
        found.unique_seq_to_set();
        entries.unique_seq_to_set();
        let rest = entries.to_set().remove(e);
        assert(found.to_set().subset_of(rest));
        vstd::set_lib::lemma_len_subset(found.to_set(), rest);
    }
}

/// Some candidate sits exactly on `a`'s point.
pub open spec fn has_point(b: Seq<PolylineSample>, a: PolylineSample) -> bool {
    exists|j: int| 0 <= j < b.len() && (#[trigger] b[j]).point == a.point
}

/// Every origin's point is also a candidate's point.
pub open spec fn covers(b: Seq<PolylineSample>, a: Seq<PolylineSample>) -> bool {
    forall|i: int| 0 <= i < a.len() ==> has_point(b, #[trigger] a[i])
}

proof fn lemma_proxy_nonnegative(e: (i128, i128, usize), q: (i128, i128))
    ensures
        proxy_distance(e, q) >= 0,
        proxy_distance(e, q) == 0 ==> e.0 == q.0 && e.1 == q.1,
        e.0 == q.0 && e.1 == q.1 ==> proxy_distance(e, q) == 0,
{
    reveal(proxy_distance);
    let dx = e.0 - q.0;
    let dy = e.1 - q.1;
    assert(dx * dx >= 0 && dy * dy >= 0) by (nonlinear_arith);
    assert(dx * dx == 0 ==> dx == 0) by (nonlinear_arith);
    assert(dy * dy == 0 ==> dy == 0) by (nonlinear_arith);
}

/// The index entries of all candidates, in order.
pub fn build_indexed_points(samples: &[PolylineSample]) -> (r: Vec<(i128, i128, usize)>)
    ensures
        r@.len() == samples@.len(),
        forall|i: int| 0 <= i < r@.len() ==> #[trigger] r@[i] == entry_of(samples@[i], i),
{
    let mut entries: Vec<(i128, i128, usize)> = Vec::new();
    let mut i: usize = 0;
    while i < samples.len()
        invariant
            0 <= i <= samples@.len(),
            entries@.len() == i,
            forall|j: int| 0 <= j < i ==> #[trigger] entries@[j] == entry_of(samples@[j], j),
        decreases samples@.len() - i,
    {
        let s = samples[i];
        entries.push((s.point.lon as i128, s.point.lat as i128, i));
        i = i + 1;
    }
    entries
}

/// Whatever a scan has seen when it ends, under a consistent proxy order no
/// candidate beats its best.
proof fn lemma_scan_bounds_candidate(
    origin: PolylineSample,
    b: Seq<PolylineSample>,
    entries: Seq<(i128, i128, usize)>,
    set: Set<(i128, i128, usize)>,
    query: (i128, i128),
    found: Seq<(i128, i128, usize)>,
    j: int,
    stopped: bool,
    nearest: DirectedWitness,
    t: int,
)
    requires
        0 <= t < b.len() <= usize::MAX,
        query == query_of(origin),
        proxy_consistent(origin, b),
        entries.len() == b.len(),
        entries.no_duplicates(),
        forall|i: int| 0 <= i < entries.len() ==> #[trigger] entries[i] == entry_of(b[i], i),
        set == entries.to_set(),
        1 <= j <= found.len(),
        stopped || j == found.len(),
        stopped || found.len() == b.len(),
        found.no_duplicates(),
        forall|i: int| 0 <= i < found.len() ==> set.contains(#[trigger] found[i]),
        forall|i: int|
            0 <= i < found.len() ==> (#[trigger] found[i]).2 < b.len() && found[i] == entry_of(
                b[found[i].2 as int],
                found[i].2 as int,
            ),
        forall|i: int, k: int|
            0 <= i <= k < found.len() ==> proxy_distance(found[i], query) <= proxy_distance(
                found[k],
                query,
            ),
        forall|e: (i128, i128, usize)|
            found.len() > 0 && set.contains(e) && !found.contains(e) ==> proxy_distance(e, query)
                >= proxy_distance(found.last(), query),
        forall|m: int|
            0 <= m < j ==> !prefers_target_spec(
                nearest,
                #[trigger] witness_of(origin, b[found[m].2 as int]),
            ),
        stopped ==> witness_of(origin, b[found[j - 1].2 as int]).distance_nm > nearest.distance_nm,
    ensures
        !prefers_target_spec(nearest, witness_of(origin, b[t])),
{
    let e = entries[t];
    assert(e == entry_of(b[t], t));
    assert(entries.contains(e));
    assert(set.contains(e));
    if found.contains(e) {
        let p = choose|p: int| 0 <= p < found.len() && found[p] == e;
        assert(found[p].2 == t);
        if p < j {
            assert(!prefers_target_spec(nearest, witness_of(origin, b[found[p].2 as int])));
        } else {
            let s = j - 1;
            let ts = found[s].2 as int;
            assert(proxy_distance(found[s], query) <= proxy_distance(found[p], query));
            assert(found[s] == entry_of(b[ts], ts));
            assert(distance_spec(origin.point, b[ts].point) <= distance_spec(origin.point, b[t].point));
        }
    } else {
        if !stopped {
            lemma_all_entries_found(found, entries, e);
        }
        let s = j - 1;
        let ts = found[s].2 as int;
        assert(proxy_distance(found[s], query) <= proxy_distance(found[found.len() - 1], query));
        assert(found[s] == entry_of(b[ts], ts));
        assert(distance_spec(origin.point, b[ts].point) <= distance_spec(origin.point, b[t].point));
    }
}

/// Two witnesses of `origin`, each no worse than the other, on candidates with
/// unique tags, are the same witness.
proof fn lemma_key_minimum_unique(origin: PolylineSample, b: Seq<PolylineSample>, t0: int, t1: int)
    requires
        unique_tags(b),
        0 <= t0 < b.len(),
        0 <= t1 < b.len(),
        !prefers_target_spec(witness_of(origin, b[t0]), witness_of(origin, b[t1])),
        !prefers_target_spec(witness_of(origin, b[t1]), witness_of(origin, b[t0])),
    ensures
        witness_of(origin, b[t0]) == witness_of(origin, b[t1]),
{
    if t0 != t1 {
        assert(b[t0].part_index != b[t1].part_index || b[t0].vertex_index != b[t1].vertex_index);
    }
}

/// The index entries of all candidates, in order.
pub open spec fn entries_of(b: Seq<PolylineSample>) -> Seq<(i128, i128, usize)> {
    Seq::new(b.len(), |i: int| entry_of(b[i], i))
}

/// A scan of `found` from position `j` with `best` so far: a candidate truly
/// farther than the best stops the scan (the flag), a strictly better one
/// replaces it.
pub open spec fn scan_spec(
    origin: PolylineSample,
    b: Seq<PolylineSample>,
    found: Seq<(i128, i128, usize)>,
    j: int,
    best: DirectedWitness,
) -> (DirectedWitness, bool)
    decreases found.len() - j,
{
    if j >= found.len() || j < 0 {
        (best, false)
    } else {
        let w = witness_of(origin, b[found[j].2 as int]);
        if w.distance_nm > best.distance_nm {
            (best, true)
        } else {
            scan_spec(
                origin,
                b,
                found,
                j + 1,
                if prefers_target_spec(best, w) {
                    w
                } else {
                    best
                },
            )
        }
    }
}

/// The widening walk over the first `k` entries of `order`, doubling `k`
/// until a scan stops early or every candidate has been seen.
pub open spec fn walk_spec(
    origin: PolylineSample,
    b: Seq<PolylineSample>,
    order: Seq<(i128, i128, usize)>,
    n: int,
    k: int,
) -> DirectedWitness
    decreases n - k,
{
    let found = order.take(k);
    let scan = scan_spec(origin, b, found, 1, witness_of(origin, b[found[0].2 as int]));
    if scan.1 || k >= n || k < 1 {
        scan.0
    } else {
        walk_spec(
            origin,
            b,
            order,
            n,
            if k <= n / 2 {
                2 * k
            } else {
                n
            },
        )
    }
}

/// The first window of the widening walk.
pub open spec fn first_window(n: int) -> int {
    if n < 8 {
        n
    } else {
        8
    }
}

/// The nearest candidate the index walk finds for `origin`.
pub open spec fn indexed_nearest_spec(origin: PolylineSample, b: Seq<PolylineSample>) -> DirectedWitness {
    walk_spec(
        origin,
        b,
        nearest_order(entries_of(b), query_of(origin)),
        b.len() as int,
        first_window(b.len() as int),
    )
}

/// The directed witness of the index strategy: the same fold over origins as
/// the exhaustive one, over the walk's nearest candidates.
pub open spec fn indexed_directed_spec(a: Seq<PolylineSample>, b: Seq<PolylineSample>) -> DirectedWitness
    decreases a.len(),
{
    if a.len() <= 1 {
        indexed_nearest_spec(a[0], b)
    } else {
        let cur = indexed_directed_spec(a.drop_last(), b);
        let cand = indexed_nearest_spec(a.last(), b);
        if prefers_worse_spec(cur, cand) {
            cand
        } else {
            cur
        }
    }
}

/// The nearest candidate of `origin` found by walking the index outward in
/// proxy order, stopping at the first candidate truly farther than the best
/// so far. Widens the walk until it stops or has seen every candidate.
#[verifier::loop_isolation(false)]
fn nearest_indexed(
    origin: &PolylineSample,
    candidates: &[PolylineSample],
    entries: Ghost<Seq<(i128, i128, usize)>>,
    index: &SampleIndex,
) -> (r: DirectedWitness)
    requires
        origin.point.valid(),
        candidates@.len() >= 1,
        samples_valid(candidates@),
        entries@.len() == candidates@.len(),
        forall|i: int| 0 <= i < entries@.len() ==> #[trigger] entries@[i] == entry_of(candidates@[i], i),
        index_entries(*index) == entries@.to_set(),
        index_size(*index) == candidates@.len(),
        index_loaded(*index) == entries@,
    ensures
        r == indexed_nearest_spec(*origin, candidates@),
        pairs_with(*origin, candidates@, r),
        has_point(candidates@, *origin) ==> r.distance_nm == 0,
        proxy_consistent(*origin, candidates@) && unique_tags(candidates@) ==> r == nearest_spec(
            *origin,
            candidates@,
        ),
{
    let n = candidates.len();
    let query = (origin.point.lon as i128, origin.point.lat as i128);
    let mut k: usize = if n < 8 {
        n
    } else {
        8
    };
    let ghost order = nearest_order(entries@, query);
    proof {
        assert(entries@ =~= entries_of(candidates@));
    }
    loop
        invariant
            1 <= k <= n,
            n == candidates@.len(),
            order == nearest_order(entries@, query),
            entries@ == entries_of(candidates@),
            walk_spec(*origin, candidates@, order, n as int, k as int)
                == indexed_nearest_spec(*origin, candidates@),
            query == (origin.point.lon as i128, origin.point.lat as i128),
            origin.point.valid(),
            samples_valid(candidates@),
            entries@.len() == candidates@.len(),
            forall|i: int|
                0 <= i < entries@.len() ==> #[trigger] entries@[i] == entry_of(candidates@[i], i),
            index_entries(*index) == entries@.to_set(),
            index_size(*index) == candidates@.len(),
        decreases n - k,
    {
        proof {
            assert forall|e: (i128, i128, usize)| index_entries(*index).contains(e) implies #[trigger] proxy_bounded(e.0, e.1) by {
                let t = choose|t: int| 0 <= t < entries@.len() && entries@[t] == e;
                assert(entries@[t] == entry_of(candidates@[t], t));
                assert(candidates@[t].point.valid());
            }
        }
        let found = nearest_entries(index, query, k);
        proof {
            assert forall|i: int| 0 <= i < found@.len() implies (#[trigger] found@[i]).2 < n
                && found@[i] == entry_of(candidates@[found@[i].2 as int], found@[i].2 as int) by {
                assert(entries@.to_set().contains(found@[i]));
                let j = choose|j: int| 0 <= j < entries@.len() && entries@[j] == found@[i];
                assert(entries@[j] == entry_of(candidates@[j], j));
            }
        }
        let mut nearest = directed_witness(origin, &candidates[found[0].2]);
        proof {
            if has_point(candidates@, *origin) {
                let j0 = choose|j: int| 0 <= j < candidates@.len() && (#[trigger] candidates@[j]).point == origin.point;
                let e0 = entries@[j0];
                assert(e0 == entry_of(candidates@[j0], j0));
                assert(e0.0 == query.0 && e0.1 == query.1);
                lemma_proxy_nonnegative(e0, query);
                assert(entries@.to_set().contains(e0));
                lemma_proxy_nonnegative(found@[0], query);
                lemma_proxy_nonnegative(found@.last(), query);
                if found@.contains(e0) {
                    let m = choose|m: int| 0 <= m < found@.len() && found@[m] == e0;
                    assert(proxy_distance(found@[0], query) <= proxy_distance(found@[m], query));
                } else {
                    assert(proxy_distance(found@[0], query) <= proxy_distance(found@[found@.len() - 1], query));
                }
                assert(proxy_distance(found@[0], query) == 0);
                let c = candidates@[found@[0].2 as int];
                assert(found@[0] == entry_of(c, found@[0].2 as int));
                assert(c.point.lon == origin.point.lon && c.point.lat == origin.point.lat);
                assert(c.point == origin.point);
                lemma_distance_to_self(origin.point);
            }
        }
        let mut stopped = false;
        let mut j: usize = 1;
        assert(nearest == witness_of(*origin, candidates@[found@[0].2 as int]));
        let ghost first = nearest;
        assert(found@ == order.take(k as int));
        while j < found.len() && !stopped
            invariant
                1 <= j <= found@.len(),
                n == candidates@.len(),
                origin.point.valid(),
                samples_valid(candidates@),
                forall|i: int| 0 <= i < found@.len() ==> (#[trigger] found@[i]).2 < n,
                pairs_with(*origin, candidates@, nearest),
                has_point(candidates@, *origin) ==> nearest.distance_nm == 0,
                forall|m: int|
                    0 <= m < j ==> !prefers_target_spec(
                        nearest,
                        #[trigger] witness_of(*origin, candidates@[found@[m].2 as int]),
                    ),
                exists|m: int|
                    0 <= m < j && nearest == witness_of(*origin, candidates@[found@[m].2 as int]),
                stopped ==> witness_of(
                    *origin,
                    candidates@[found@[j - 1].2 as int],
                ).distance_nm > nearest.distance_nm,
                (if stopped {
                    (nearest, true)
                } else {
                    scan_spec(*origin, candidates@, found@, j as int, nearest)
                }) == scan_spec(*origin, candidates@, found@, 1, first),
            decreases found@.len() - j,
        {
            let idx = found[j].2;
            let witness = directed_witness(origin, &candidates[idx]);
            if witness.distance_nm > nearest.distance_nm {
                stopped = true;
            } else if prefers_target(&nearest, &witness) {
                nearest = witness;
            }
            j = j + 1;
        }
        if stopped || k >= n {
            proof {
                if proxy_consistent(*origin, candidates@) && unique_tags(candidates@) {
                    assert(entries@.no_duplicates()) by {
                        assert forall|x: int, y: int|
                            0 <= x < entries@.len() && 0 <= y < entries@.len() && x != y implies
                            entries@[x] != entries@[y] by {
                            assert(entries@[x] == entry_of(candidates@[x], x));
                            assert(entries@[y] == entry_of(candidates@[y], y));
                        }
                    }
                    assert forall|t: int| 0 <= t < candidates@.len() implies !prefers_target_spec(
                        nearest,
                        #[trigger] witness_of(*origin, candidates@[t]),
                    ) by {
                        lemma_scan_bounds_candidate(
                            *origin,
                            candidates@,
                            entries@,
                            index_entries(*index),
                            query,
                            found@,
                            j as int,
                            stopped,
                            nearest,
                            t,
                        );
                    }
                    lemma_nearest_is_minimum(*origin, candidates@);
                    let t1 = choose|t: int|
                        0 <= t < candidates@.len() && nearest_spec(*origin, candidates@)
                            == witness_of(*origin, candidates@[t]);
                    let m0 = choose|m: int|
                        0 <= m < j && nearest == witness_of(
                            *origin,
                            candidates@[found@[m].2 as int],
                        );
                    let t0 = found@[m0].2 as int;
                    lemma_key_minimum_unique(*origin, candidates@, t0, t1);
                }
            }
            return nearest;
        }
        k = if k <= n / 2 {
            k * 2
        } else {
            n
        };
    }
}

/// Directed Hausdorff witness using the spatial index over the candidates.
///
/// The index orders candidates by planar `(longitude, latitude)` proximity,
/// which near the poles or the antimeridian may disagree with great-circle
/// order; the walk may then stop at a candidate that is not the nearest, and
/// the result can only be farther than the exhaustive one, never nearer.
pub fn hausdorff_directed_polyline_indexed(
    origins: &[PolylineSample],
    candidates: &[PolylineSample],
) -> (r: DirectedWitness)
    requires
        origins@.len() >= 1,
        candidates@.len() >= 1,
        samples_valid(origins@),
        samples_valid(candidates@),
    ensures
        r == indexed_directed_spec(origins@, candidates@),
        indexed_sound(origins@, candidates@, r),
        covers(candidates@, origins@) ==> r.distance_nm == 0,
{
    let entries = build_indexed_points(candidates);
    let ghost entry_seq = entries@;
    let n = candidates.len();
    assert(entry_seq.no_duplicates()) by {
        assert forall|x: int, y: int|
            0 <= x < entry_seq.len() && 0 <= y < entry_seq.len() && x != y implies entry_seq[x]
            != entry_seq[y] by {
            assert(entry_seq[x] == entry_of(candidates@[x], x));
            assert(entry_seq[y] == entry_of(candidates@[y], y));
        }
    }
    let index = build_index(entries);
    let mut best = nearest_indexed(&origins[0], candidates, Ghost(entry_seq), &index);
    proof {
        lemma_nearest_is_minimum(origins@[0], candidates@);
        let j = choose|j: int| 0 <= j < candidates@.len() && best == witness_of(origins@[0], candidates@[j]);
        assert(best.distance_nm >= nearest_spec(origins@[0], candidates@).distance_nm);
        if covers(candidates@, origins@) {
            assert(has_point(candidates@, origins@[0]));
        }
        if consistent_everywhere(origins@, candidates@) {
            assert(proxy_consistent(origins@[0], candidates@));
            assert(origins@.subrange(0, 1).len() == 1);
            assert(origins@.subrange(0, 1)[0] == origins@[0]);
        }
    }
    let mut i: usize = 1;
    while i < origins.len()
        invariant
            1 <= i <= origins@.len(),
            candidates@.len() >= 1,
            samples_valid(origins@),
            samples_valid(candidates@),
            entry_seq.len() == candidates@.len(),
            forall|j: int|
                0 <= j < entry_seq.len() ==> #[trigger] entry_seq[j] == entry_of(candidates@[j], j),
            index_entries(index) == entry_seq.to_set(),
            index_size(index) == candidates@.len(),
            index_loaded(index) == entry_seq,
            best == indexed_directed_spec(origins@.subrange(0, i as int), candidates@),
            exists|m: int| 0 <= m < i && best.source == origins@[m] && pairs_with(origins@[m], candidates@, best),
            forall|m: int|
                0 <= m < i ==> best.distance_nm >= (#[trigger] nearest_spec(
                    origins@[m],
                    candidates@,
                )).distance_nm,
            covers(candidates@, origins@) ==> best.distance_nm == 0,
            consistent_everywhere(origins@, candidates@) ==> best == directed_spec(
                origins@.subrange(0, i as int),
                candidates@,
            ),
        decreases origins@.len() - i,
    {
        let nearest = nearest_indexed(&origins[i], candidates, Ghost(entry_seq), &index);
        proof {
            lemma_nearest_is_minimum(origins@[i as int], candidates@);
            let j = choose|j: int|
                0 <= j < candidates@.len() && nearest == witness_of(origins@[i as int], candidates@[j]);
            assert(nearest.distance_nm >= nearest_spec(origins@[i as int], candidates@).distance_nm);
            assert(nearest.source == origins@[i as int]);
            if covers(candidates@, origins@) {
                assert(has_point(candidates@, origins@[i as int]));
            }
            if consistent_everywhere(origins@, candidates@) {
                assert(proxy_consistent(origins@[i as int], candidates@));
            }
            let next = origins@.subrange(0, i as int + 1);
            assert(next.drop_last() =~= origins@.subrange(0, i as int));
            assert(next.last() == origins@[i as int]);
        }
        if prefers_worse_witness(&best, &nearest) {
            best = nearest;
        }
        i = i + 1;
    }
    proof {
        lemma_directed_is_maximum(origins@, candidates@);
        assert(origins@.subrange(0, origins@.len() as int) =~= origins@);
    }
    best
}

// ---------------------------------------------------------------------------
// Strategy selection and dispatch
// ---------------------------------------------------------------------------

/// How a directed evaluation searches for nearest candidates.
#[derive(Debug, Clone, Copy, PartialEq, Eq, Structural)]
pub enum HausdorffStrategy {
    Naive,
    Indexed,
}

/// Sets smaller than this always use the exhaustive scan.
pub const MIN_INDEXED_POLYLINE_SIZE: usize = 32;

/// Pair counts up to this use the exhaustive scan.
pub const MAX_NAIVE_CROSS_PRODUCT: usize = 4_000;

/// The exhaustive scan is chosen for a small set or few pairs.
pub open spec fn use_naive(a_len: int, b_len: int) -> bool {
    a_len < MIN_INDEXED_POLYLINE_SIZE || b_len < MIN_INDEXED_POLYLINE_SIZE || a_len * b_len
        <= MAX_NAIVE_CROSS_PRODUCT
}

pub fn should_use_naive(a_len: usize, b_len: usize) -> (r: bool)
    ensures
        r == use_naive(a_len as int, b_len as int),
{
    if a_len < MIN_INDEXED_POLYLINE_SIZE || b_len < MIN_INDEXED_POLYLINE_SIZE {
        return true;
    }
    assert(a_len <= 0xffff_ffff_ffff_ffff && b_len <= 0xffff_ffff_ffff_ffff);
    assert(a_len * b_len <= 0xffff_ffff_ffff_ffff * 0xffff_ffff_ffff_ffff) by (nonlinear_arith)
        requires
            a_len <= 0xffff_ffff_ffff_ffff,
            b_len <= 0xffff_ffff_ffff_ffff,
    ;
    (a_len as u128) * (b_len as u128) <= MAX_NAIVE_CROSS_PRODUCT as u128
}

pub fn choose_strategy(a_len: usize, b_len: usize) -> (r: HausdorffStrategy)
    ensures
        (r == HausdorffStrategy::Naive) == use_naive(a_len as int, b_len as int),
{
    if should_use_naive(a_len, b_len) {
        HausdorffStrategy::Naive
    } else {
        HausdorffStrategy::Indexed
    }
}

/// What a directed evaluation returns: exactly the exhaustive witness when the
/// strategy is the exhaustive scan, a sound witness otherwise.
pub open spec fn directed_ok(a: Seq<PolylineSample>, b: Seq<PolylineSample>, w: DirectedWitness) -> bool {
    if use_naive(a.len() as int, b.len() as int) {
        w == directed_spec(a, b)
    } else {
        w == indexed_directed_spec(a, b) && indexed_sound(a, b, w)
    }
}

/// The witness the dispatcher returns for non-empty sets: the exhaustive one
/// or the index walk's, by the sizes.
pub open spec fn directed_result(a: Seq<PolylineSample>, b: Seq<PolylineSample>) -> DirectedWitness {
    if use_naive(a.len() as int, b.len() as int) {
        directed_spec(a, b)
    } else {
        indexed_directed_spec(a, b)
    }
}

/// Directed Hausdorff witness from `origins` to `candidates`, with the
/// strategy chosen by their sizes. Fails with `EmptyPointSet` when either set
/// is empty.
pub fn hausdorff_directed_polyline(
    origins: &[PolylineSample],
    candidates: &[PolylineSample],
) -> (r: Result<DirectedWitness, GeodistError>)
    requires
        samples_valid(origins@),
        samples_valid(candidates@),
    ensures
        r is Err <==> origins@.len() == 0 || candidates@.len() == 0,
        match r {
            Ok(w) => directed_ok(origins@, candidates@, w),
            Err(e) => e == GeodistError::EmptyPointSet,
        },
{
    if origins.len() == 0 || candidates.len() == 0 {
        return Err(GeodistError::EmptyPointSet);
    }
    match choose_strategy(origins.len(), candidates.len()) {
        HausdorffStrategy::Naive => Ok(hausdorff_directed_polyline_naive(origins, candidates)),
        HausdorffStrategy::Indexed => Ok(hausdorff_directed_polyline_indexed(origins, candidates)),
    }
}

/// The exhaustive witness meets everything asked of the index-accelerated
/// one.
pub proof fn lemma_exhaustive_is_sound(a: Seq<PolylineSample>, b: Seq<PolylineSample>)
    requires
        a.len() >= 1,
        b.len() >= 1,
    ensures
        indexed_sound(a, b, directed_spec(a, b)),
{
    lemma_directed_is_maximum(a, b);
    let i = choose|i: int| 0 <= i < a.len() && directed_spec(a, b) == nearest_spec(a[i], b);
    lemma_nearest_is_minimum(a[i], b);
    if covers(b, a) {
        assert(has_point(b, a[i]));
        let j = choose|j: int| 0 <= j < b.len() && (#[trigger] b[j]).point == a[i].point;
        lemma_distance_to_self(a[i].point);
        assert(witness_of(a[i], b[j]).distance_nm == 0);
    }
}

/// Whichever strategy runs, the result pairs a real origin with a real
/// candidate and is never nearer than the exhaustive result.
pub proof fn lemma_directed_ok_is_sound(
    a: Seq<PolylineSample>,
    b: Seq<PolylineSample>,
    w: DirectedWitness,
)
    requires
        a.len() >= 1,
        b.len() >= 1,
        directed_ok(a, b, w),
    ensures
        indexed_sound(a, b, w),
{
    if use_naive(a.len() as int, b.len() as int) {
        lemma_exhaustive_is_sound(a, b);
    }
}

// ---------------------------------------------------------------------------
// Flattened geometries as tagged samples
// ---------------------------------------------------------------------------

/// The part holding flattened position `g`.
pub open spec fn part_of(o: Seq<usize>, g: int) -> int {
    choose|k: int| 0 <= k < o.len() - 1 && #[trigger] o[k] <= g < o[k + 1]
}

/// Every sample tagged with its part and its position within that part.
pub open spec fn enumerate_spec(s: Seq<Point>, o: Seq<usize>) -> Seq<PolylineSample> {
    Seq::new(
        s.len(),
        |g: int|
            PolylineSample {
                point: s[g],
                part_index: part_of(o, g) as usize,
                vertex_index: (g - o[part_of(o, g)]) as usize,
            },
    )
}

proof fn lemma_part_unique(o: Seq<usize>, n: int, g: int, k: int)
    requires
        offsets_well_formed(o, n),
        0 <= k < o.len() - 1,
        o[k] <= g < o[k + 1],
    ensures
        part_of(o, g) == k,
{
    let c = part_of(o, g);
    assert(0 <= c < o.len() - 1 && o[c] <= g < o[c + 1]);
    if c < k {
        assert(o[c + 1] <= o[k]);
    } else if k < c {
        assert(o[k + 1] <= o[c]);
    }
}

/// Tag every sample of a flattened polyline with its part and vertex index.
pub fn enumerate_samples(polyline: &FlattenedPolyline) -> (r: Vec<PolylineSample>)
    requires
        polyline.well_formed(),
    ensures
        r@ == enumerate_spec(polyline.samples_view(), polyline.offsets_view()),
        samples_valid(r@),
        unique_tags(r@),
{
    let samples = polyline.samples();
    let offsets = polyline.part_offsets();
    let ghost n = samples@.len() as int;
    let ghost target = enumerate_spec(samples@, offsets@);
    let mut out: Vec<PolylineSample> = Vec::new();
    let mut k: usize = 0;
    while k < offsets.len() - 1
        invariant
            0 <= k < offsets@.len(),
            offsets_well_formed(offsets@, n),
            all_valid(samples@),
            n == samples@.len(),
            target == enumerate_spec(samples@, offsets@),
            out@.len() == offsets@[k as int],
            forall|g: int| 0 <= g < out@.len() ==> #[trigger] out@[g] == target[g],
            unique_tags(out@),
            forall|h: int| 0 <= h < out@.len() ==> (#[trigger] out@[h]).part_index < k,
        decreases offsets@.len() - k,
    {
        let start = offsets[k];
        let end = offsets[k + 1];
        assert(end <= n) by {
            assert(offsets@[k + 1] <= offsets@.last());
        }
        let mut g: usize = start;
        while g < end
            invariant
                start <= g <= end <= n,
                start == offsets@[k as int],
                end == offsets@[k + 1],
                0 <= k < offsets@.len() - 1,
                offsets_well_formed(offsets@, n),
                all_valid(samples@),
                n == samples@.len(),
                target == enumerate_spec(samples@, offsets@),
                out@.len() == g,
                forall|h: int| 0 <= h < out@.len() ==> #[trigger] out@[h] == target[h],
                unique_tags(out@),
                forall|h: int|
                    0 <= h < out@.len() ==> (#[trigger] out@[h]).part_index < k || (
                    out@[h].part_index == k && out@[h].vertex_index < g - start),
            decreases end - g,
        {
            proof {
                lemma_part_unique(offsets@, n, g as int, k as int);
            }
            let ghost before = out@;
            out.push(PolylineSample { point: samples[g], part_index: k, vertex_index: g - start });
            proof {
                assert forall|x: int, y: int|
                    0 <= x < out@.len() && 0 <= y < out@.len() && x != y implies (
                    #[trigger] out@[x]).part_index != (#[trigger] out@[y]).part_index
                    || out@[x].vertex_index != out@[y].vertex_index by {
                    if x < before.len() && y < before.len() {
                        assert(out@[x] == before[x] && out@[y] == before[y]);
                    } else if x < before.len() {
                        assert(out@[x] == before[x]);
                    } else {
                        assert(out@[y] == before[y]);
                    }
                }
            }
            g = g + 1;
        }
        k = k + 1;
    }
    proof {
        assert(out@.len() == n);
        assert(out@ =~= target);
        assert forall|g: int| 0 <= g < out@.len() implies (#[trigger] out@[g]).point.valid() by {
            assert(samples@[g].valid());
        }
    }
    out
}

/// A flattened polyline clipped to the box when one is given.
pub open spec fn clipped_spec(d: (Seq<Point>, Seq<usize>), bounding_box: Option<BoundingBox>) -> Result<
    (Seq<Point>, Seq<usize>),
    GeodistError,
> {
    match bounding_box {
        None => Ok(d),
        Some(b) => clip_spec(d.0, d.1, b),
    }
}

fn clip_if_needed(polyline: FlattenedPolyline, bounding_box: Option<BoundingBox>) -> (r: Result<
    FlattenedPolyline,
    GeodistError,
>)
    requires
        polyline.well_formed(),
    ensures
        match r {
            Ok(f) => clipped_spec((polyline.samples_view(), polyline.offsets_view()), bounding_box)
                == Ok::<(Seq<Point>, Seq<usize>), GeodistError>(
                (f.samples_view(), f.offsets_view()),
            ) && f.well_formed(),
            Err(e) => clipped_spec((polyline.samples_view(), polyline.offsets_view()), bounding_box)
                == Err::<(Seq<Point>, Seq<usize>), GeodistError>(e),
        },
{
    match bounding_box {
        Some(b) => polyline.clip(&b),
        None => Ok(polyline),
    }
}

// ---------------------------------------------------------------------------
// Results and the public entry point
// ---------------------------------------------------------------------------

/// The symmetric choice between the two directions: the farther one, the
/// forward one on a tie.
pub open spec fn pick_spec(a_to_b: DirectedWitness, b_to_a: DirectedWitness) -> DirectedWitness {
    if a_to_b.distance_nm >= b_to_a.distance_nm {
        a_to_b
    } else {
        b_to_a
    }
}

pub fn pick_symmetric_witness(a_to_b: DirectedWitness, b_to_a: DirectedWitness) -> (r:
    DirectedWitness)
    ensures
        r == pick_spec(a_to_b, b_to_a),
{
    if a_to_b.distance_nm >= b_to_a.distance_nm {
        a_to_b
    } else {
        b_to_a
    }
}

/// The pair realising a reported Hausdorff distance.
#[derive(Debug, Clone, Copy, PartialEq, Eq)]
pub struct PolylineWitness {
    inner: DirectedWitness,
}

impl View for PolylineWitness {
    type V = DirectedWitness;

    closed spec fn view(&self) -> DirectedWitness {
        self.inner
    }
}

impl PolylineWitness {
    pub fn distance(&self) -> (r: Distance)
        ensures
            r.view_nm() == self@.distance_nm,
    {
        Distance::from_nanometers(self.inner.distance_nm)
    }

    pub fn source_part(&self) -> (r: usize)
        ensures
            r == self@.source.part_index,
    {
        self.inner.source.part_index
    }

    pub fn source_index(&self) -> (r: usize)
        ensures
            r == self@.source.vertex_index,
    {
        self.inner.source.vertex_index
    }

    pub fn target_part(&self) -> (r: usize)
        ensures
            r == self@.target.part_index,
    {
        self.inner.target.part_index
    }

    pub fn target_index(&self) -> (r: usize)
        ensures
            r == self@.target.vertex_index,
    {
        self.inner.target.vertex_index
    }

    pub fn source_coord(&self) -> (r: Point)
        ensures
            r == self@.source.point,
    {
        self.inner.source.point
    }

    pub fn target_coord(&self) -> (r: Point)
        ensures
            r == self@.target.point,
    {
        self.inner.target.point
    }
}

fn map_directed_witness(witness: DirectedWitness) -> (r: PolylineWitness)
    ensures
        r@ == witness,
{
    PolylineWitness { inner: witness }
}

/// A Hausdorff distance and, when requested, its witness.
#[derive(Debug, Clone, Copy, PartialEq, Eq)]
pub struct PolylineHausdorffResult {
    distance: Distance,
    witness: Option<PolylineWitness>,
}

impl PolylineHausdorffResult {
    pub closed spec fn distance_view(self) -> nat {
        self.distance.view_nm()
    }

    pub closed spec fn witness_view(self) -> Option<DirectedWitness> {
        match self.witness {
            Some(w) => Some(w@),
            None => None,
        }
    }

    pub fn distance(&self) -> (r: Distance)
        ensures
            r.view_nm() == self.distance_view(),
    {
        self.distance
    }

    pub fn witness(&self) -> (r: Option<PolylineWitness>)
        ensures
            match r {
                Some(w) => self.witness_view() == Some(w@),
                None => self.witness_view() is None,
            },
    {
        self.witness
    }
}

/// Options of a polyline Hausdorff evaluation.
#[derive(Debug, Clone, Copy, PartialEq, Eq, Structural)]
pub struct PolylineHausdorffOptions {
    /// Evaluate both directions and report the farther one.
    pub symmetric: bool,
    /// Clip both operands to this inclusive box before measuring.
    pub bounding_box: Option<BoundingBox>,
    /// Report the witness pair.
    pub return_witness: bool,
    pub max_segment_length_nm: Option<u64>,
    pub max_segment_angle_ndeg: Option<u64>,
    pub sample_cap: usize,
}

impl PolylineHausdorffOptions {
    pub open spec fn densification(self) -> DensificationOptions {
        DensificationOptions {
            max_segment_length_nm: self.max_segment_length_nm,
            max_segment_angle_ndeg: self.max_segment_angle_ndeg,
            sample_cap: self.sample_cap,
        }
    }

    /// The densification options these options carry.
    pub fn densification_options(&self) -> (r: DensificationOptions)
        ensures
            r == self.densification(),
    {
        DensificationOptions {
            max_segment_length_nm: self.max_segment_length_nm,
            max_segment_angle_ndeg: self.max_segment_angle_ndeg,
            sample_cap: self.sample_cap,
        }
    }
}

impl Default for PolylineHausdorffOptions {
    /// Symmetric, unclipped, no witness, 100 m, 0.1 degree, 50 000 samples.
    fn default() -> (r: Self)
        ensures
            r.symmetric,
            r.bounding_box is None,
            !r.return_witness,
            r.max_segment_length_nm == Some(100_000_000_000u64),
            r.max_segment_angle_ndeg == Some(100_000_000u64),
            r.sample_cap == 50_000,
    {
        PolylineHausdorffOptions {
            symmetric: true,
            bounding_box: None,
            return_witness: false,
            max_segment_length_nm: Some(100_000_000_000),
            max_segment_angle_ndeg: Some(100_000_000),
            sample_cap: 50_000,
        }
    }
}

/// Densify, then clip, both operands, failing as the first step that fails:
/// densification of `a`, of `b`, clipping of `a`, of `b`.
#[verifier::opaque]
pub open spec fn prepared_spec(
    a: Seq<Seq<Point>>,
    b: Seq<Seq<Point>>,
    o: PolylineHausdorffOptions,
) -> Result<(Seq<PolylineSample>, Seq<PolylineSample>), GeodistError> {
    match densify_multi_spec(a, o.densification()) {
        Err(e) => Err(e),
        Ok(da) => match densify_multi_spec(b, o.densification()) {
            Err(e) => Err(e),
            Ok(db) => match clipped_spec(da, o.bounding_box) {
                Err(e) => Err(e),
                Ok(ca) => match clipped_spec(db, o.bounding_box) {
                    Err(e) => Err(e),
                    Ok(cb) => Ok((enumerate_spec(ca.0, ca.1), enumerate_spec(cb.0, cb.1))),
                },
            },
        },
    }
}

/// The outcome of a polyline Hausdorff evaluation: the error of the first
/// failing step, or the reported distance and, when requested, the witness.
pub open spec fn hausdorff_outcome(
    a: Seq<Seq<Point>>,
    b: Seq<Seq<Point>>,
    o: PolylineHausdorffOptions,
) -> Result<(nat, Option<DirectedWitness>), GeodistError> {
    match prepared_spec(a, b, o) {
        Err(e) => Err(e),
        Ok(prep) => if prep.0.len() == 0 || prep.1.len() == 0 {
            Err(GeodistError::EmptyPointSet)
        } else {
            let forward = directed_result(prep.0, prep.1);
            let chosen = if o.symmetric {
                pick_spec(forward, directed_result(prep.1, prep.0))
            } else {
                forward
            };
            Ok(
                (
                    chosen.distance_nm as nat,
                    if o.return_witness {
                        Some(chosen)
                    } else {
                        None
                    },
                ),
            )
        },
    }
}

/// Preparing the operands in the other order, with the same densification
/// and box, gives the same samples swapped.
pub proof fn lemma_prepared_swap(
    a: Seq<Seq<Point>>,
    b: Seq<Seq<Point>>,
    o1: PolylineHausdorffOptions,
    o2: PolylineHausdorffOptions,
)
    requires
        o1.densification() == o2.densification(),
        o1.bounding_box == o2.bounding_box,
        prepared_spec(a, b, o1) is Ok,
    ensures
        prepared_spec(b, a, o2) == Ok::<(Seq<PolylineSample>, Seq<PolylineSample>), GeodistError>(
            (prepared_spec(a, b, o1)->Ok_0.1, prepared_spec(a, b, o1)->Ok_0.0),
        ),
        prepared_spec(a, b, o2) == prepared_spec(a, b, o1),
{
    reveal(prepared_spec);
}

/// What a successful evaluation reports, given the two directed results.
pub open spec fn reported(
    res: PolylineHausdorffResult,
    o: PolylineHausdorffOptions,
    chosen: DirectedWitness,
) -> bool {
    &&& res.distance_view() == chosen.distance_nm
    &&& res.witness_view() == (if o.return_witness {
        Some(chosen)
    } else {
        None
    })
}

/// The tagged samples of both operands.
fn prepare(
    polyline_a: &[Vec<Point>],
    polyline_b: &[Vec<Point>],
    options: &PolylineHausdorffOptions,
) -> (r: Result<(Vec<PolylineSample>, Vec<PolylineSample>), GeodistError>)
    ensures
        match r {
            Ok(p) => prepared_spec(views(polyline_a@), views(polyline_b@), *options) == Ok::<
                (Seq<PolylineSample>, Seq<PolylineSample>),
                GeodistError,
            >((p.0@, p.1@)) && samples_valid(p.0@) && samples_valid(p.1@) && unique_tags(p.0@)
                && unique_tags(p.1@),
            Err(e) => prepared_spec(views(polyline_a@), views(polyline_b@), *options) == Err::<
                (Seq<PolylineSample>, Seq<PolylineSample>),
                GeodistError,
            >(e),
        },
{
    reveal(prepared_spec);
    let densification = options.densification_options();
    let samples_a = match densify_multiline(polyline_a, densification) {
        Err(e) => return Err(e),
        Ok(f) => f,
    };
    let samples_b = match densify_multiline(polyline_b, densification) {
        Err(e) => return Err(e),
        Ok(f) => f,
    };
    let clipped_a = match clip_if_needed(samples_a, options.bounding_box) {
        Err(e) => return Err(e),
        Ok(f) => f,
    };
    let clipped_b = match clip_if_needed(samples_b, options.bounding_box) {
        Err(e) => return Err(e),
        Ok(f) => f,
    };
    Ok((enumerate_samples(&clipped_a), enumerate_samples(&clipped_b)))
}

/// Directed or symmetric Hausdorff distance between two multi-part polylines.
///
/// Each operand is densified (and clipped when a box is given) into tagged
/// samples; the directed evaluation from `a` to `b`, and when symmetric also
/// from `b` to `a`, picks the farther direction, the forward one on a tie.
pub fn hausdorff_polyline(
    polyline_a: &[Vec<Point>],
    polyline_b: &[Vec<Point>],
    options: PolylineHausdorffOptions,
) -> (r: Result<PolylineHausdorffResult, GeodistError>)
    ensures
        match r {
            Ok(res) => hausdorff_outcome(views(polyline_a@), views(polyline_b@), options) == Ok::<
                (nat, Option<DirectedWitness>),
                GeodistError,
            >((res.distance_view(), res.witness_view())),
            Err(e) => hausdorff_outcome(views(polyline_a@), views(polyline_b@), options) == Err::<
                (nat, Option<DirectedWitness>),
                GeodistError,
            >(e),
        },
        match prepared_spec(views(polyline_a@), views(polyline_b@), options) {
            Err(e) => r == Err::<PolylineHausdorffResult, GeodistError>(e),
            Ok(prep) => if prep.0.len() == 0 || prep.1.len() == 0 {
                r == Err::<PolylineHausdorffResult, GeodistError>(GeodistError::EmptyPointSet)
            } else {
                &&& r is Ok
                &&& unique_tags(prep.0) && unique_tags(prep.1)
                &&& options.symmetric ==> exists|fwd: DirectedWitness, rev: DirectedWitness|
                    directed_ok(prep.0, prep.1, fwd) && directed_ok(prep.1, prep.0, rev)
                        && reported(r->Ok_0, options, pick_spec(fwd, rev))
                        && r->Ok_0.distance_view() == (if fwd.distance_nm >= rev.distance_nm {
                        fwd.distance_nm
                    } else {
                        rev.distance_nm
                    })
                &&& !options.symmetric ==> exists|fwd: DirectedWitness|
                    directed_ok(prep.0, prep.1, fwd) && reported(r->Ok_0, options, fwd)
            },
        },
{
    let (enumerated_a, enumerated_b) = match prepare(polyline_a, polyline_b, &options) {
        Err(e) => return Err(e),
        Ok(p) => p,
    };
    let forward = match hausdorff_directed_polyline(enumerated_a.as_slice(), enumerated_b.as_slice()) {
        Err(e) => return Err(e),
        Ok(w) => w,
    };
    if options.symmetric {
        let reverse = match hausdorff_directed_polyline(enumerated_b.as_slice(), enumerated_a.as_slice()) {
            Err(e) => return Err(e),
            Ok(w) => w,
        };
        let dominant = pick_symmetric_witness(forward, reverse);
        let witness = if options.return_witness {
            Some(map_directed_witness(dominant))
        } else {
            None
        };
        let result = PolylineHausdorffResult {
            distance: Distance::from_nanometers(dominant.distance_nm),
            witness,
        };
        assert(reported(result, options, pick_spec(forward, reverse)));
        return Ok(result);
    }
    let witness = if options.return_witness {
        Some(map_directed_witness(forward))
    } else {
        None
    };
    let result = PolylineHausdorffResult {
        distance: Distance::from_nanometers(forward.distance_nm),
        witness,
    };
    let r: Result<PolylineHausdorffResult, GeodistError> = Ok(result);
    assert(directed_ok(enumerated_a@, enumerated_b@, forward) && reported(r->Ok_0, options, forward));
    r
}

} // verus!
