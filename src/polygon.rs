//! Polygon ring validation and boundary densification.
//!
//! Rings must be closed, counter-clockwise for the exterior and clockwise for
//! holes (by the sign of the planar shoelace sum over longitude/latitude), and
//! each hole's first vertex must lie inside the exterior ring.

use vstd::prelude::*;
use crate::polyline::{
    all_valid, collapse_duplicates, dedup_spec, densify_multi_spec, densify_multiline,
    vertices_check, views, DensificationOptions, FlattenedPolyline, VertexValidator,
};
use crate::types::{GeodistError, Point, RingOrientation};

verus! {

/// Closure tolerance between a ring's first and last vertex, in nanodegrees.
pub const RING_CLOSURE_TOLERANCE_NDEG: i64 = 1;

/// Most vertices a ring may have, so that its shoelace sum fits in `i128`.
pub const MAX_RING_VERTICES: u64 = 0x4_0000_0000_0000;

/// A polygon: an exterior ring and zero or more holes.
#[derive(Debug, Clone, PartialEq, Eq)]
pub struct Polygon {
    exterior: Vec<Point>,
    holes: Vec<Vec<Point>>,
}

pub open spec fn abs_diff(a: i64, b: i64) -> int {
    if a >= b {
        a - b
    } else {
        b - a
    }
}

/// The first and last vertex agree within the closure tolerance.
pub open spec fn closed_spec(vs: Seq<Point>) -> bool {
    vs.len() > 0 && abs_diff(vs[0].lat, vs.last().lat) <= RING_CLOSURE_TOLERANCE_NDEG && abs_diff(
        vs[0].lon,
        vs.last().lon,
    ) <= RING_CLOSURE_TOLERANCE_NDEG
}

/// One shoelace term of the edge from `p` to `q`, with `x` = longitude and
/// `y` = latitude.
pub open spec fn shoelace_term(p: Point, q: Point) -> int {
    p.lon * q.lat - q.lon * p.lat
}

/// Twice the signed planar area of the first `k` edges.
pub open spec fn signed_area_spec(vs: Seq<Point>, k: int) -> int
    decreases k,
{
    if k <= 0 {
        0
    } else {
        signed_area_spec(vs, k - 1) + shoelace_term(vs[k - 1], vs[k])
    }
}

/// The orientation check: a positive sum is counter-clockwise.
pub open spec fn orientation_spec(vs: Seq<Point>, expected: RingOrientation) -> Result<
    (),
    GeodistError,
> {
    let ccw = signed_area_spec(vs, vs.len() - 1) > 0;
    if (expected == RingOrientation::CounterClockwise && !ccw) || (expected
        == RingOrientation::Clockwise && ccw) {
        Err(GeodistError::InvalidBoundingBox { min_lat: 0, max_lat: 0, min_lon: 0, max_lon: 0 })
    } else {
        Ok(())
    }
}

/// A ring validated, de-duplicated, closed and oriented as expected.
pub open spec fn normalize_spec(
    ring: Seq<Point>,
    expected: RingOrientation,
    part_index: Option<usize>,
) -> Result<Seq<Point>, GeodistError> {
    match vertices_check(ring, ring.len() as int, part_index) {
        Err(e) => Err(e),
        Ok(_) => {
            let d = dedup_spec(ring);
            if d.len() < 4 || !closed_spec(d) {
                Err(GeodistError::DegeneratePolyline { part_index })
            } else {
                match orientation_spec(d, expected) {
                    Err(e) => Err(e),
                    Ok(_) => Ok(d),
                }
            }
        },
    }
}

/// The edge from `p1` to `p2` crosses the horizontal ray going east from
/// `pt`: the edge straddles `pt`'s latitude and meets it east of `pt`.
pub open spec fn crosses(pt: Point, p1: Point, p2: Point) -> bool {
    let dy = p2.lat - p1.lat;
    let lhs = (pt.lon - p1.lon) * dy;
    let rhs = (p2.lon - p1.lon) * (pt.lat - p1.lat);
    ((p1.lat > pt.lat) != (p2.lat > pt.lat)) && (if dy > 0 {
        lhs < rhs
    } else {
        lhs > rhs
    })
}

/// Whether an odd number of the first `k` edges cross the ray from `pt`.
pub open spec fn inside_upto(pt: Point, ring: Seq<Point>, k: int) -> bool
    decreases k,
{
    if k <= 0 {
        false
    } else {
        inside_upto(pt, ring, k - 1) != crosses(pt, ring[k - 1], ring[k])
    }
}

/// Even-odd containment of `pt` in the ring.
pub open spec fn in_ring_spec(pt: Point, ring: Seq<Point>) -> bool {
    inside_upto(pt, ring, ring.len() - 1)
}

/// Validate every vertex of a ring, attributing failures to `part_index`.
pub fn validate_vertices(vertices: &[Point], part_index: Option<usize>) -> (r: Result<
    (),
    GeodistError,
>)
    ensures
        r == vertices_check(vertices@, vertices@.len() as int, part_index),
        r is Ok ==> all_valid(vertices@),
{
    let validator = VertexValidator::new(part_index);
    validator.check_vertices(vertices)
}

/// A ring is closed when its first and last vertex agree within the
/// tolerance.
pub fn ensure_closed(vertices: &[Point], part_index: Option<usize>) -> (r: Result<
    (),
    GeodistError,
>)
    requires
        all_valid(vertices@),
    ensures
        r is Ok <==> closed_spec(vertices@),
        r is Err ==> r == Err::<(), GeodistError>(GeodistError::DegeneratePolyline { part_index }),
{
    if vertices.len() == 0 {
        return Err(GeodistError::DegeneratePolyline { part_index });
    }
    let first = vertices[0];
    let last = vertices[vertices.len() - 1];
    let lat_delta: i64 = if first.lat >= last.lat {
        first.lat - last.lat
    } else {
        last.lat - first.lat
    };
    let lon_delta: i64 = if first.lon >= last.lon {
        first.lon - last.lon
    } else {
        last.lon - first.lon
    };
    if lat_delta > RING_CLOSURE_TOLERANCE_NDEG || lon_delta > RING_CLOSURE_TOLERANCE_NDEG {
        return Err(GeodistError::DegeneratePolyline { part_index });
    }
    Ok(())
}

/// Twice the signed planar area of a ring (shoelace sum).
fn signed_area(vertices: &[Point]) -> (r: i128)
    requires
        all_valid(vertices@),
        vertices@.len() <= MAX_RING_VERTICES,
        vertices@.len() >= 1,
    ensures
        r == signed_area_spec(vertices@, vertices@.len() - 1),
{
    let mut sum: i128 = 0;
    let mut i: usize = 1;
    while i < vertices.len()
        invariant
            1 <= i <= vertices@.len(),
            vertices@.len() <= MAX_RING_VERTICES,
            all_valid(vertices@),
            sum == signed_area_spec(vertices@, i - 1),
            -(i - 1) * 0x800_0000_0000_0000_0000 <= sum <= (i - 1) * 0x800_0000_0000_0000_0000,
        decreases vertices@.len() - i,
    {
        let p = vertices[i - 1];
        let q = vertices[i];
        assert(p.valid() && q.valid());
        assert(-0x400_0000_0000_0000_0000 <= p.lon * q.lat <= 0x400_0000_0000_0000_0000
            && -0x400_0000_0000_0000_0000 <= q.lon * p.lat <= 0x400_0000_0000_0000_0000) by (
        nonlinear_arith)
            requires
                -180_000_000_000 <= p.lon <= 180_000_000_000,
                -180_000_000_000 <= q.lon <= 180_000_000_000,
                -90_000_000_000 <= p.lat <= 90_000_000_000,
                -90_000_000_000 <= q.lat <= 90_000_000_000,
        ;
        assert(i * 0x800_0000_0000_0000_0000 <= 0x4_0000_0000_0000 * 0x800_0000_0000_0000_0000) by (
        nonlinear_arith)
            requires
                i <= 0x4_0000_0000_0000,
        ;
        let term: i128 = (p.lon as i128) * (q.lat as i128) - (q.lon as i128) * (p.lat as i128);
        sum = sum + term;
        i = i + 1;
    }
    sum
}

/// Check that a ring winds as expected.
pub fn ensure_orientation(vertices: &[Point], expected: RingOrientation) -> (r: Result<
    (),
    GeodistError,
>)
    requires
        all_valid(vertices@),
        vertices@.len() <= MAX_RING_VERTICES,
        vertices@.len() >= 1,
    ensures
        r == orientation_spec(vertices@, expected),
{
    let area2 = signed_area(vertices);
    let is_ccw = area2 > 0;
    match expected {
        RingOrientation::CounterClockwise => {
            if !is_ccw {
                return Err(
                    GeodistError::InvalidBoundingBox { min_lat: 0, max_lat: 0, min_lon: 0, max_lon: 0 },
                );
            }
        },
        RingOrientation::Clockwise => {
            if is_ccw {
                return Err(
                    GeodistError::InvalidBoundingBox { min_lat: 0, max_lat: 0, min_lon: 0, max_lon: 0 },
                );
            }
        },
    }
    Ok(())
}

/// Even-odd test of a point against a ring's edges.
pub fn point_in_ring(point: &Point, ring: &[Point]) -> (r: bool)
    requires
        point.valid(),
        all_valid(ring@),
        ring@.len() >= 1,
    ensures
        r == in_ring_spec(*point, ring@),
{
    let mut intersects = false;
    let mut i: usize = 1;
    while i < ring.len()
        invariant
            1 <= i <= ring@.len(),
            point.valid(),
            all_valid(ring@),
            intersects == inside_upto(*point, ring@, i - 1),
        decreases ring@.len() - i,
    {
        let p1 = ring[i - 1];
        let p2 = ring[i];
        assert(p1.valid() && p2.valid());
        let dy: i128 = p2.lat as i128 - p1.lat as i128;
        assert(-0x100_0000_0000_0000_0000_0000 <= (point.lon - p1.lon) * dy <= 0x100_0000_0000_0000_0000_0000
            && -0x100_0000_0000_0000_0000_0000 <= (p2.lon - p1.lon) * (point.lat - p1.lat)
            <= 0x100_0000_0000_0000_0000_0000) by (nonlinear_arith)
            requires
                -180_000_000_000 <= p1.lon <= 180_000_000_000,
                -180_000_000_000 <= p2.lon <= 180_000_000_000,
                -180_000_000_000 <= point.lon <= 180_000_000_000,
                -90_000_000_000 <= p1.lat <= 90_000_000_000,
                -90_000_000_000 <= point.lat <= 90_000_000_000,
                -180_000_000_000 <= dy <= 180_000_000_000,
        ;
        let lhs: i128 = (point.lon as i128 - p1.lon as i128) * dy;
        let rhs: i128 = (p2.lon as i128 - p1.lon as i128) * (point.lat as i128 - p1.lat as i128);
        let straddles = (p1.lat > point.lat) != (p2.lat > point.lat);
        let east = if dy > 0 {
            lhs < rhs
        } else {
            lhs > rhs
        };
        if straddles && east {
            intersects = !intersects;
        }
        i = i + 1;
    }
    intersects
}

/// Validate, de-duplicate and check a ring.
pub fn normalize_ring(ring: &[Point], expected_orientation: RingOrientation, part_index: Option<
    usize,
>) -> (r: Result<Vec<Point>, GeodistError>)
    requires
        ring@.len() <= MAX_RING_VERTICES,
    ensures
        match r {
            Ok(v) => normalize_spec(ring@, expected_orientation, part_index) == Ok::<
                Seq<Point>,
                GeodistError,
            >(v@) && all_valid(v@) && v@.len() >= 4,
            Err(e) => normalize_spec(ring@, expected_orientation, part_index) == Err::<
                Seq<Point>,
                GeodistError,
            >(e),
        },
{
    match validate_vertices(ring, part_index) {
        Err(e) => return Err(e),
        Ok(()) => {},
    }
    let deduped = collapse_duplicates(ring);
    proof {
        crate::polyline::lemma_dedup_valid(ring@);
        crate::polyline::lemma_dedup_shape(ring@);
    }
    if deduped.len() < 4 {
        return Err(GeodistError::DegeneratePolyline { part_index });
    }
    match ensure_closed(deduped.as_slice(), part_index) {
        Err(e) => return Err(e),
        Ok(()) => {},
    }
    match ensure_orientation(deduped.as_slice(), expected_orientation) {
        Err(e) => return Err(e),
        Ok(()) => {},
    }
    Ok(deduped)
}

/// The hole's first vertex lies inside the exterior ring.
pub open spec fn hole_inside_spec(hole: Seq<Point>, exterior: Seq<Point>) -> Result<
    (),
    GeodistError,
> {
    if hole.len() == 0 {
        Err(GeodistError::DegeneratePolyline { part_index: None })
    } else if in_ring_spec(hole[0], exterior) {
        Ok(())
    } else {
        Err(GeodistError::InvalidBoundingBox { min_lat: 0, max_lat: 0, min_lon: 0, max_lon: 0 })
    }
}

/// Check a hole against the exterior ring, using its first vertex as witness.
pub fn ensure_hole_inside_exterior(hole: &[Point], exterior: &[Point]) -> (r: Result<
    (),
    GeodistError,
>)
    requires
        all_valid(hole@),
        all_valid(exterior@),
        exterior@.len() >= 1,
    ensures
        r == hole_inside_spec(hole@, exterior@),
{
    if hole.len() == 0 {
        return Err(GeodistError::DegeneratePolyline { part_index: None });
    }
    if point_in_ring(&hole[0], exterior) {
        Ok(())
    } else {
        Err(GeodistError::InvalidBoundingBox { min_lat: 0, max_lat: 0, min_lon: 0, max_lon: 0 })
    }
}

/// The first `k` holes normalized and checked in order.
pub open spec fn holes_spec(holes: Seq<Vec<Point>>, exterior: Seq<Point>, k: int) -> Result<
    Seq<Seq<Point>>,
    GeodistError,
>
    decreases k,
{
    if k <= 0 {
        Ok(Seq::empty())
    } else {
        match holes_spec(holes, exterior, k - 1) {
            Err(e) => Err(e),
            Ok(prev) => match normalize_spec(
                holes[k - 1]@,
                RingOrientation::Clockwise,
                Some(k as usize),
            ) {
                Err(e) => Err(e),
                Ok(h) => match hole_inside_spec(h, exterior) {
                    Err(e) => Err(e),
                    Ok(_) => Ok(prev.push(h)),
                },
            },
        }
    }
}

/// The outcome of building a polygon: its normalized exterior and holes.
pub open spec fn polygon_spec(exterior: Seq<Point>, holes: Seq<Vec<Point>>) -> Result<
    (Seq<Point>, Seq<Seq<Point>>),
    GeodistError,
> {
    match normalize_spec(exterior, RingOrientation::CounterClockwise, None) {
        Err(e) => Err(e),
        Ok(ext) => match holes_spec(holes, ext, holes.len() as int) {
            Err(e) => Err(e),
            Ok(hs) => Ok((ext, hs)),
        },
    }
}

proof fn lemma_holes_sticky(holes: Seq<Vec<Point>>, exterior: Seq<Point>, a: int, b: int)
    requires
        0 <= a <= b,
        holes_spec(holes, exterior, a) is Err,
    ensures
        holes_spec(holes, exterior, b) == holes_spec(holes, exterior, a),
    decreases b - a,
{
    if b > a {
        lemma_holes_sticky(holes, exterior, a, b - 1);
    }
}

pub open spec fn rings_bounded(exterior: Seq<Point>, holes: Seq<Vec<Point>>) -> bool {
    exterior.len() <= MAX_RING_VERTICES && forall|i: int|
        0 <= i < holes.len() ==> (#[trigger] holes[i])@.len() <= MAX_RING_VERTICES
}

impl Polygon {
    pub closed spec fn exterior_view(self) -> Seq<Point> {
        self.exterior@
    }

    pub closed spec fn holes_view(self) -> Seq<Seq<Point>> {
        self.holes@.map_values(|h: Vec<Point>| h@)
    }

    /// Build a validated polygon from an exterior ring and holes.
    ///
    /// The exterior must be counter-clockwise and each hole clockwise, every
    /// ring closed with at least four distinct vertices after collapsing
    /// duplicates; hole `i` is reported as part `i + 1`.
    pub fn new(exterior: Vec<Point>, holes: Vec<Vec<Point>>) -> (r: Result<Polygon, GeodistError>)
        requires
            rings_bounded(exterior@, holes@),
        ensures
            match r {
                Ok(p) => polygon_spec(exterior@, holes@) == Ok::<
                    (Seq<Point>, Seq<Seq<Point>>),
                    GeodistError,
                >((p.exterior_view(), p.holes_view())),
                Err(e) => polygon_spec(exterior@, holes@) == Err::<
                    (Seq<Point>, Seq<Seq<Point>>),
                    GeodistError,
                >(e),
            },
    {
        let ext = match normalize_ring(exterior.as_slice(), RingOrientation::CounterClockwise, None) {
            Err(e) => return Err(e),
            Ok(v) => v,
        };
        let mut normalized_holes: Vec<Vec<Point>> = Vec::new();
        assert(normalized_holes@.map_values(|h: Vec<Point>| h@) =~= Seq::<Seq<Point>>::empty());
        let mut idx: usize = 0;
        while idx < holes.len()
            invariant
                0 <= idx <= holes@.len(),
                forall|i: int| 0 <= i < holes@.len() ==> (#[trigger] holes@[i])@.len() <= MAX_RING_VERTICES,
                all_valid(ext@),
                normalize_spec(exterior@, RingOrientation::CounterClockwise, None) == Ok::<
                    Seq<Point>,
                    GeodistError,
                >(ext@),
                ext@.len() >= 4,
                holes_spec(holes@, ext@, idx as int) == Ok::<Seq<Seq<Point>>, GeodistError>(
                    normalized_holes@.map_values(|h: Vec<Point>| h@),
                ),
            decreases holes@.len() - idx,
        {
            assert(holes@[idx as int]@.len() <= MAX_RING_VERTICES);
            assert(idx + 1 <= usize::MAX);
            let normalized = match normalize_ring(
                holes[idx].as_slice(),
                RingOrientation::Clockwise,
                Some(idx + 1),
            ) {
                Err(e) => {
                    proof {
                        lemma_holes_sticky(holes@, ext@, idx as int + 1, holes@.len() as int);
                    }
                    return Err(e);
                },
                Ok(v) => v,
            };
            match ensure_hole_inside_exterior(normalized.as_slice(), ext.as_slice()) {
                Err(e) => {
                    proof {
                        lemma_holes_sticky(holes@, ext@, idx as int + 1, holes@.len() as int);
                    }
                    return Err(e);
                },
                Ok(()) => {},
            }
            let ghost before = normalized_holes@;
            normalized_holes.push(normalized);
            proof {
                assert(normalized_holes@.map_values(|h: Vec<Point>| h@) =~= before.map_values(
                    |h: Vec<Point>| h@,
                ).push(normalized@));
            }
            idx = idx + 1;
        }
        Ok(Polygon { exterior: ext, holes: normalized_holes })
    }

    /// Densify the boundary rings, exterior first, then each hole in order.
    pub fn densify_boundaries(&self, options: DensificationOptions) -> (r: Result<
        FlattenedPolyline,
        GeodistError,
    >)
        ensures
            match r {
                Ok(f) => densify_multi_spec(seq![self.exterior_view()] + self.holes_view(), options)
                    == Ok::<(Seq<Point>, Seq<usize>), GeodistError>(
                    (f.samples_view(), f.offsets_view()),
                ) && f.well_formed() && f.offsets_view().len() == self.holes_view().len() + 2,
                Err(e) => densify_multi_spec(
                    seq![self.exterior_view()] + self.holes_view(),
                    options,
                ) == Err::<(Seq<Point>, Seq<usize>), GeodistError>(e),
            },
    {
        let ghost target = seq![self.exterior_view()] + self.holes_view();
        let mut parts: Vec<Vec<Point>> = Vec::new();
        let exterior = self.exterior.clone();
        assert(exterior@ =~= self.exterior@);
        parts.push(exterior);
        let mut i: usize = 0;
        while i < self.holes.len()
            invariant
                0 <= i <= self.holes@.len(),
                target == seq![self.exterior_view()] + self.holes_view(),
                views(parts@) =~= target.subrange(0, i + 1),
            decreases self.holes@.len() - i,
        {
            let hole = self.holes[i].clone();
            assert(hole@ =~= self.holes@[i as int]@);
            let ghost before = parts@;
            parts.push(hole);
            assert(views(parts@) =~= views(before).push(hole@));
            i = i + 1;
        }
        assert(target.subrange(0, target.len() as int) =~= target);
        densify_multiline(parts.as_slice(), options)
    }
}

} // verus!
