//! Properties that relate several operations of the library, each proved
//! over the specifications the operations' contracts use.

use vstd::prelude::*;
use crate::hausdorff::{
    consistent_everywhere, directed_ok, directed_spec, has_point, indexed_sound, lemma_directed_is_maximum,
    lemma_directed_ok_is_sound, lemma_exhaustive_is_sound, lemma_nearest_is_minimum,
    hausdorff_outcome, lemma_prepared_swap, nearest_spec, pairs_with, pick_spec, prepared_spec, use_naive, witness_of, DirectedWitness,
    PolylineHausdorffOptions, PolylineSample,
};
use crate::polyline::{
    clip_spec, dedup_spec, densify_multi_spec, densify_spec, lemma_clip_idempotent,
    lemma_clip_prefix, lemma_dedup_shape, lemma_densified_endpoints, lemma_densified_len,
    lemma_multi_endpoints, lemma_last_reached, lemma_all_zero_reaches_start, last_reached, part_end, densified,
    offsets_well_formed, planned, sat_usize, validate_polyline_spec, DensificationOptions,
};
use crate::spherical::{distance_spec, lemma_distance_to_self};
use crate::types::{BoundingBox, GeodistError, Point};

verus! {

/// Densification, preparation and the exhaustive Hausdorff evaluation are
/// functions of their inputs: equal inputs give equal results, sample for
/// sample and witness for witness. Two directed results on the same samples
/// agree whenever the exhaustive strategy runs or the proxy order is
/// consistent.
pub proof fn law_deterministic(
    v1: Seq<Point>,
    v2: Seq<Point>,
    parts1: Seq<Seq<Point>>,
    parts2: Seq<Seq<Point>>,
    o1: DensificationOptions,
    o2: DensificationOptions,
    a1: Seq<PolylineSample>,
    a2: Seq<PolylineSample>,
    b1: Seq<PolylineSample>,
    b2: Seq<PolylineSample>,
    h1: PolylineHausdorffOptions,
    h2: PolylineHausdorffOptions,
    w1: DirectedWitness,
    w2: DirectedWitness,
)
    requires
        v1 == v2,
        parts1 == parts2,
        o1 == o2,
        a1 == a2,
        b1 == b2,
        h1 == h2,
    ensures
        densify_spec(v1, o1) == densify_spec(v2, o2),
        densify_multi_spec(parts1, o1) == densify_multi_spec(parts2, o2),
        directed_spec(a1, b1) == directed_spec(a2, b2),
        prepared_spec(parts1, parts1, h1) == prepared_spec(parts2, parts2, h2),
        a1.len() >= 1 && b1.len() >= 1 && directed_ok(a1, b1, w1) && directed_ok(a2, b2, w2) && (
        use_naive(a1.len() as int, b1.len() as int) || consistent_everywhere(a1, b1)) ==> w1
            == w2,
{
    if a1.len() >= 1 && b1.len() >= 1 && directed_ok(a1, b1, w1) && directed_ok(a2, b2, w2) {
        lemma_directed_ok_is_sound(a1, b1, w1);
        lemma_directed_ok_is_sound(a2, b2, w2);
    }
}

/// A polyline Hausdorff evaluation is a function of its inputs: equal
/// operands and options give equal outcomes, distance and witness alike,
/// whichever strategy runs.
pub proof fn law_hausdorff_deterministic(
    a1: Seq<Seq<Point>>,
    a2: Seq<Seq<Point>>,
    b1: Seq<Seq<Point>>,
    b2: Seq<Seq<Point>>,
    o1: PolylineHausdorffOptions,
    o2: PolylineHausdorffOptions,
)
    requires
        a1 == a2,
        b1 == b2,
        o1 == o2,
    ensures
        hausdorff_outcome(a1, b1, o1) == hausdorff_outcome(a2, b2, o2),
{
}

/// The symmetric distance equals the larger of the two directed distances
/// obtained by separate directed evaluations, one each way, with otherwise
/// the same options.
pub proof fn law_symmetric_is_max_of_calls(
    a: Seq<Seq<Point>>,
    b: Seq<Seq<Point>>,
    o: PolylineHausdorffOptions,
)
    requires
        o.symmetric,
    ensures
        ({
            let directed = PolylineHausdorffOptions { symmetric: false, ..o };
            match hausdorff_outcome(a, b, o) {
                Ok(sym) => {
                    &&& hausdorff_outcome(a, b, directed) is Ok
                    &&& hausdorff_outcome(b, a, directed) is Ok
                    &&& sym.0 == (if hausdorff_outcome(a, b, directed)->Ok_0.0 >= hausdorff_outcome(
                        b,
                        a,
                        directed,
                    )->Ok_0.0 {
                        hausdorff_outcome(a, b, directed)->Ok_0.0
                    } else {
                        hausdorff_outcome(b, a, directed)->Ok_0.0
                    })
                },
                Err(_) => true,
            }
        }),
{
    let directed = PolylineHausdorffOptions { symmetric: false, ..o };
    if prepared_spec(a, b, o) is Ok {
        lemma_prepared_swap(a, b, o, directed);
    }
}

/// A densified polyline starts at its first vertex. It ends exactly at its
/// last vertex whenever the last de-duplicated segment has non-zero length;
/// otherwise segments of length zero are skipped, and it ends at the vertex
/// from which every remaining segment measures zero. When every segment
/// measures zero, the first vertex is the only sample.
pub proof fn law_densified_endpoints(vs: Seq<Point>, o: DensificationOptions)
    ensures
        match densify_spec(vs, o) {
            Ok(s) => {
                let d = dedup_spec(vs);
                let n = d.len() - 1;
                &&& s[0] == vs[0]
                &&& s[0] == d[0]
                &&& distance_spec(d[n - 1], d[n]) != 0 ==> s.last() == vs.last() && s.len() >= 2
                &&& exists|j: int|
                    0 <= j <= n && s.last() == d[j] && forall|i: int|
                        j <= i < n ==> distance_spec(d[i], #[trigger] d[i + 1]) == 0
                &&& (forall|i: int| 0 <= i < n ==> distance_spec(d[i], #[trigger] d[i + 1]) == 0)
                    ==> s == seq![vs[0]]
            },
            Err(_) => true,
        },
{
    if densify_spec(vs, o) is Ok {
        let d = dedup_spec(vs);
        let n = d.len() - 1;
        assert(validate_polyline_spec(vs, None) == Ok::<Seq<Point>, GeodistError>(d));
        lemma_dedup_shape(vs);
        lemma_densified_endpoints(d, o, n);
        lemma_last_reached(d, n);
        let s = densified(d, o, n);
        assert(s.last() == d[last_reached(d, n)]);
        if forall|i: int| 0 <= i < n ==> distance_spec(d[i], #[trigger] d[i + 1]) == 0 {
            lemma_all_zero_reaches_start(d, n);
            assert(s =~= seq![vs[0]]);
        }
    }
}

/// In a densified multi-part polyline every part is non-empty, its samples
/// start at its first vertex and end at `part_end` of it: its last vertex
/// unless trailing segments of length zero were skipped.
pub proof fn law_multi_part_endpoints(parts: Seq<Seq<Point>>, o: DensificationOptions)
    ensures
        match densify_multi_spec(parts, o) {
            Ok(r) => r.1.len() == parts.len() + 1 && r.0.len() <= o.sample_cap && forall|p: int|
                0 <= p < parts.len() ==> #[trigger] r.1[p] < r.1[p + 1] && r.0[r.1[p] as int]
                    == parts[p][0] && r.0[r.1[p + 1] - 1] == part_end(parts[p]),
            Err(_) => true,
        },
{
    lemma_multi_endpoints(parts, o, parts.len() as int);
}

/// A densified polyline never holds more samples than the cap, and whenever
/// the projected count exceeds the cap, densification fails with that count.
pub proof fn law_densify_within_cap(vs: Seq<Point>, o: DensificationOptions)
    ensures
        match densify_spec(vs, o) {
            Ok(s) => s.len() <= o.sample_cap,
            Err(_) => true,
        },
        o.has_knob() && validate_polyline_spec(vs, None) is Ok ==> {
            let d = dedup_spec(vs);
            let total = planned(d, o, d.len() - 1);
            total > o.sample_cap ==> densify_spec(vs, o) == Err::<Seq<Point>, GeodistError>(
                GeodistError::SampleCapExceeded {
                    expected: sat_usize(total),
                    cap: o.sample_cap,
                    part_index: None,
                },
            )
        },
{
    if densify_spec(vs, o) is Ok {
        let d = dedup_spec(vs);
        assert(validate_polyline_spec(vs, None) == Ok::<Seq<Point>, GeodistError>(d));
        lemma_densified_len(d, o, d.len() - 1);
    }
}

/// The symmetric result is the farther of the two directions, the forward one
/// when they are equally far.
pub proof fn law_symmetric_is_max(forward: DirectedWitness, reverse: DirectedWitness)
    ensures
        pick_spec(forward, reverse).distance_nm == (if forward.distance_nm >= reverse.distance_nm {
            forward.distance_nm
        } else {
            reverse.distance_nm
        }),
        forward.distance_nm == reverse.distance_nm ==> pick_spec(forward, reverse) == forward,
{
}

/// The directed distance from a set of samples to itself is zero, for the
/// exhaustive evaluation and for whichever strategy the dispatcher picks.
pub proof fn law_directed_to_self_is_zero(a: Seq<PolylineSample>, w: DirectedWitness)
    requires
        a.len() >= 1,
    ensures
        directed_spec(a, a).distance_nm == 0,
        directed_ok(a, a, w) ==> w.distance_nm == 0,
{
    lemma_directed_is_maximum(a, a);
    let i = choose|i: int| 0 <= i < a.len() && directed_spec(a, a) == nearest_spec(a[i], a);
    lemma_nearest_is_minimum(a[i], a);
    lemma_distance_to_self(a[i].point);
    assert(witness_of(a[i], a[i]).distance_nm == 0);
    assert forall|k: int| 0 <= k < a.len() implies has_point(a, #[trigger] a[k]) by {
        assert(a[k].point == a[k].point);
    }
    if directed_ok(a, a, w) {
        lemma_directed_ok_is_sound(a, a, w);
    }
}

/// Whichever strategy runs, the witness pairs a real origin with a real
/// candidate at their true distance and is never nearer than the exhaustive
/// witness; it is exactly the exhaustive witness, distance and indices alike,
/// whenever the planar proxy order agrees with great-circle order for every
/// origin and candidate tags are unique.
pub proof fn law_strategies_consistent(
    a: Seq<PolylineSample>,
    b: Seq<PolylineSample>,
    w: DirectedWitness,
)
    requires
        a.len() >= 1,
        b.len() >= 1,
        directed_ok(a, b, w),
    ensures
        exists|i: int| 0 <= i < a.len() && w.source == a[i] && pairs_with(a[i], b, w),
        w.distance_nm >= directed_spec(a, b).distance_nm,
        consistent_everywhere(a, b) ==> w == directed_spec(a, b),
        indexed_sound(a, b, directed_spec(a, b)),
{
    lemma_directed_ok_is_sound(a, b, w);
    lemma_exhaustive_is_sound(a, b);
}

/// Clipping keeps one offset per part boundary, and clipping the result again
/// with the same box returns it unchanged.
pub proof fn law_clip_idempotent(s: Seq<Point>, o: Seq<usize>, b: BoundingBox)
    requires
        offsets_well_formed(o, s.len() as int),
        s.len() <= usize::MAX,
    ensures
        match clip_spec(s, o, b) {
            Ok(r) => r.1.len() == o.len() && clip_spec(r.0, r.1, b) == Ok::<
                (Seq<Point>, Seq<usize>),
                GeodistError,
            >(r),
            Err(_) => true,
        },
{
    let n = o.len() - 1;
    lemma_clip_prefix(s, o, b, n, n);
    lemma_clip_idempotent(s, o, b, n);
}

} // verus!
