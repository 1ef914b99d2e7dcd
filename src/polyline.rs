//! Polyline and multi-part polyline densification.
//!
//! Vertices are validated in order, consecutive duplicates collapse, and each
//! remaining segment is split into the fewest equal arcs that respect every
//! configured spacing bound. The projected sample count is checked against the
//! cap before any sample is produced.

use vstd::prelude::*;
use crate::fixed::{sin_fx, sin_spec, PI_FX};
use crate::spherical::{
    central_angle, central_angle_spec, distance_nm, distance_spec, interpolate, interpolate_spec,
    ndeg_of, ndeg_of_fx, HALF_TURN_NDEG, MAX_DISTANCE_NM,
};
use crate::types::{
    lat_in_range, lon_in_range, BoundingBox, GeodistError, Point, VertexValidationError,
    MAX_LAT_NDEG, MAX_LON_NDEG, MIN_LAT_NDEG, MIN_LON_NDEG,
};

verus! {

/// Spacing bounds and the sample cap for densification.
///
/// A bound is in effect when it is set and positive; at least one of the two
/// must be.
#[derive(Debug, Clone, Copy, PartialEq, Eq, Structural)]
pub struct DensificationOptions {
    /// Largest arc length between consecutive samples, in nanometers.
    pub max_segment_length_nm: Option<u64>,
    /// Largest central angle between consecutive samples, in nanodegrees.
    pub max_segment_angle_ndeg: Option<u64>,
    /// Most samples the whole (multi-part) result may hold.
    pub sample_cap: usize,
}

/// The value of a spacing bound, or zero when it is not in effect.
pub open spec fn bound_of(o: Option<u64>) -> int {
    match o {
        Some(v) => v as int,
        None => 0,
    }
}

impl DensificationOptions {
    pub open spec fn length_bound(self) -> int {
        bound_of(self.max_segment_length_nm)
    }

    pub open spec fn angle_bound(self) -> int {
        bound_of(self.max_segment_angle_ndeg)
    }

    pub open spec fn has_knob(self) -> bool {
        self.length_bound() > 0 || self.angle_bound() > 0
    }

    /// Fails with `MissingDensificationKnob` unless a spacing bound is in
    /// effect.
    pub fn validate(&self) -> (r: Result<(), GeodistError>)
        ensures
            r is Ok <==> self.has_knob(),
            r is Err ==> r == Err::<(), GeodistError>(GeodistError::MissingDensificationKnob),
    {
        let length_set = match self.max_segment_length_nm {
            Some(v) => v > 0,
            None => false,
        };
        let angle_set = match self.max_segment_angle_ndeg {
            Some(v) => v > 0,
            None => false,
        };
        if !length_set && !angle_set {
            return Err(GeodistError::MissingDensificationKnob);
        }
        Ok(())
    }
}

impl Default for DensificationOptions {
    /// 100 m, 0.1 degree, 50 000 samples.
    fn default() -> (r: Self)
        ensures
            r.max_segment_length_nm == Some(100_000_000_000u64),
            r.max_segment_angle_ndeg == Some(100_000_000u64),
            r.sample_cap == 50_000,
    {
        DensificationOptions {
            max_segment_length_nm: Some(100_000_000_000),
            max_segment_angle_ndeg: Some(100_000_000),
            sample_cap: 50_000,
        }
    }
}

// ---------------------------------------------------------------------------
// Vertex validation and de-duplication
// ---------------------------------------------------------------------------

/// The check of one vertex: latitude first, then longitude.
pub open spec fn vertex_check(p: Point, index: int, part_index: Option<usize>) -> Result<
    (),
    GeodistError,
> {
    if !lat_in_range(p.lat as int) {
        Err(
            GeodistError::InvalidVertex {
                part_index,
                vertex_index: index as usize,
                error: VertexValidationError::Latitude(p.lat),
            },
        )
    } else if !lon_in_range(p.lon as int) {
        Err(
            GeodistError::InvalidVertex {
                part_index,
                vertex_index: index as usize,
                error: VertexValidationError::Longitude(p.lon),
            },
        )
    } else {
        Ok(())
    }
}

/// The first failing check among the first `k` vertices.
pub open spec fn vertices_check(vs: Seq<Point>, k: int, part_index: Option<usize>) -> Result<
    (),
    GeodistError,
>
    decreases k,
{
    if k <= 0 {
        Ok(())
    } else {
        match vertices_check(vs, k - 1, part_index) {
            Err(e) => Err(e),
            Ok(_) => vertex_check(vs[k - 1], k - 1, part_index),
        }
    }
}

proof fn lemma_check_sticky(vs: Seq<Point>, a: int, b: int, part_index: Option<usize>)
    requires
        0 <= a <= b,
        vertices_check(vs, a, part_index) is Err,
    ensures
        vertices_check(vs, b, part_index) == vertices_check(vs, a, part_index),
    decreases b - a,
{
    if b > a {
        lemma_check_sticky(vs, a, b - 1, part_index);
    }
}

pub open spec fn all_valid(vs: Seq<Point>) -> bool {
    forall|i: int| 0 <= i < vs.len() ==> (#[trigger] vs[i]).valid()
}

/// Validates vertices, attributing failures to a part.
pub struct VertexValidator {
    pub part_index: Option<usize>,
}

impl VertexValidator {
    pub fn new(part_index: Option<usize>) -> (r: Self)
        ensures
            r.part_index == part_index,
    {
        VertexValidator { part_index }
    }

    pub fn set_part_index(&mut self, part_index: usize)
        ensures
            final(self).part_index == Some(part_index),
    {
        self.part_index = Some(part_index);
    }

    /// The first invalid vertex, in order, latitude before longitude.
    pub fn check_vertices(&self, vertices: &[Point]) -> (r: Result<(), GeodistError>)
        ensures
            r == vertices_check(vertices@, vertices@.len() as int, self.part_index),
            r is Ok ==> all_valid(vertices@),
    {
        let mut i: usize = 0;
        while i < vertices.len()
            invariant
                0 <= i <= vertices@.len(),
                vertices_check(vertices@, i as int, self.part_index) == Ok::<(), GeodistError>(()),
                forall|j: int| 0 <= j < i ==> (#[trigger] vertices@[j]).valid(),
            decreases vertices@.len() - i,
        {
            let v = vertices[i];
            proof {
                if vertices_check(vertices@, i as int + 1, self.part_index) is Err {
                    lemma_check_sticky(
                        vertices@,
                        i as int + 1,
                        vertices@.len() as int,
                        self.part_index,
                    );
                }
            }
            if v.lat < MIN_LAT_NDEG || v.lat > MAX_LAT_NDEG {
                return Err(
                    GeodistError::InvalidVertex {
                        part_index: self.part_index,
                        vertex_index: i,
                        error: VertexValidationError::Latitude(v.lat),
                    },
                );
            }
            if v.lon < MIN_LON_NDEG || v.lon > MAX_LON_NDEG {
                return Err(
                    GeodistError::InvalidVertex {
                        part_index: self.part_index,
                        vertex_index: i,
                        error: VertexValidationError::Longitude(v.lon),
                    },
                );
            }
            i = i + 1;
        }
        Ok(())
    }
}

/// `s` with each run of equal consecutive points reduced to one point.
pub open spec fn dedup_spec(s: Seq<Point>) -> Seq<Point>
    decreases s.len(),
{
    if s.len() == 0 {
        Seq::empty()
    } else {
        let d = dedup_spec(s.drop_last());
        if d.len() > 0 && d.last() == s.last() {
            d
        } else {
            d.push(s.last())
        }
    }
}

pub(crate) proof fn lemma_dedup_shape(s: Seq<Point>)
    ensures
        dedup_spec(s).len() <= s.len(),
        s.len() > 0 ==> dedup_spec(s).len() > 0 && dedup_spec(s)[0] == s[0] && dedup_spec(s).last()
            == s.last(),
        forall|i: int|
            0 <= i < dedup_spec(s).len() ==> exists|j: int|
                0 <= j < s.len() && s[j] == #[trigger] dedup_spec(s)[i],
        forall|i: int|
            0 <= i < dedup_spec(s).len() - 1 ==> dedup_spec(s)[i] != #[trigger] dedup_spec(s)[i
                + 1],
    decreases s.len(),
{
    if s.len() > 0 {
        let t = s.drop_last();
        lemma_dedup_shape(t);
        let d = dedup_spec(t);
        if t.len() > 0 {
            assert(t[0] == s[0]);
        }
        assert forall|i: int| 0 <= i < dedup_spec(s).len() implies exists|j: int|
            0 <= j < s.len() && s[j] == #[trigger] dedup_spec(s)[i] by {
            if i < d.len() {
                let j = choose|j: int| 0 <= j < t.len() && t[j] == d[i];
                assert(s[j] == t[j]);
            } else {
                assert(s[s.len() - 1] == dedup_spec(s)[i]);
            }
        }
    }
}

pub(crate) proof fn lemma_dedup_valid(s: Seq<Point>)
    requires
        all_valid(s),
    ensures
        all_valid(dedup_spec(s)),
{
    lemma_dedup_shape(s);
    assert forall|i: int| 0 <= i < dedup_spec(s).len() implies (#[trigger] dedup_spec(s)[i]).valid() by {
        let j = choose|j: int| 0 <= j < s.len() && s[j] == dedup_spec(s)[i];
        assert(s[j].valid());
    }
}

/// Collapse consecutive duplicate vertices, keeping order.
pub fn collapse_duplicates(vertices: &[Point]) -> (r: Vec<Point>)
    ensures
        r@ == dedup_spec(vertices@),
{
    let mut deduped: Vec<Point> = Vec::new();
    let mut i: usize = 0;
    while i < vertices.len()
        invariant
            0 <= i <= vertices@.len(),
            deduped@ == dedup_spec(vertices@.subrange(0, i as int)),
        decreases vertices@.len() - i,
    {
        let v = vertices[i];
        proof {
            let next = vertices@.subrange(0, i as int + 1);
            assert(next.drop_last() =~= vertices@.subrange(0, i as int));
            assert(next.last() == v);
        }
        let n = deduped.len();
        if n == 0 || deduped[n - 1] != v {
            deduped.push(v);
        }
        i = i + 1;
    }
    assert(vertices@.subrange(0, vertices@.len() as int) =~= vertices@);
    deduped
}

/// Validation followed by de-duplication, as densification applies it.
pub open spec fn validate_polyline_spec(vs: Seq<Point>, part_index: Option<usize>) -> Result<
    Seq<Point>,
    GeodistError,
> {
    match vertices_check(vs, vs.len() as int, part_index) {
        Err(e) => Err(e),
        Ok(_) => if dedup_spec(vs).len() < 2 {
            Err(GeodistError::DegeneratePolyline { part_index })
        } else {
            Ok(dedup_spec(vs))
        },
    }
}

/// Validate vertices and collapse consecutive duplicates; at least two
/// distinct vertices must remain.
pub fn validate_polyline(vertices: &[Point], part_index: Option<usize>) -> (r: Result<
    Vec<Point>,
    GeodistError,
>)
    ensures
        match r {
            Ok(v) => validate_polyline_spec(vertices@, part_index) == Ok::<
                Seq<Point>,
                GeodistError,
            >(v@) && all_valid(v@),
            Err(e) => validate_polyline_spec(vertices@, part_index) == Err::<
                Seq<Point>,
                GeodistError,
            >(e),
        },
{
    let validator = VertexValidator::new(part_index);
    validate_with(&validator, vertices)
}

fn validate_with(validator: &VertexValidator, vertices: &[Point]) -> (r: Result<
    Vec<Point>,
    GeodistError,
>)
    ensures
        match r {
            Ok(v) => validate_polyline_spec(vertices@, validator.part_index) == Ok::<
                Seq<Point>,
                GeodistError,
            >(v@) && all_valid(v@),
            Err(e) => validate_polyline_spec(vertices@, validator.part_index) == Err::<
                Seq<Point>,
                GeodistError,
            >(e),
        },
{
    let part_index = validator.part_index;
    match validator.check_vertices(vertices) {
        Err(e) => return Err(e),
        Ok(()) => {},
    }
    let deduped = collapse_duplicates(vertices);
    proof {
        lemma_dedup_valid(vertices@);
    }
    if deduped.len() < 2 {
        return Err(GeodistError::DegeneratePolyline { part_index });
    }
    Ok(deduped)
}

// ---------------------------------------------------------------------------
// Split counts
// ---------------------------------------------------------------------------

pub open spec fn ceil_div(a: int, b: int) -> int {
    (a + b - 1) / b
}

/// `n` pieces of a segment of length `d` (nanometers) and central angle `ang`
/// (nanodegrees) respect every spacing bound in effect.
pub open spec fn meets_spacing(n: int, d: int, ang: int, o: DensificationOptions) -> bool {
    &&& n >= 1
    &&& o.length_bound() > 0 ==> n * o.length_bound() >= d
    &&& o.angle_bound() > 0 ==> n * o.angle_bound() >= ang
}

/// `max(1, ceil(d / length), ceil(ang / angle))` over the bounds in effect.
pub open spec fn split_spec(d: int, ang: int, o: DensificationOptions) -> int {
    let by_length = if o.length_bound() > 0 {
        ceil_div(d, o.length_bound())
    } else {
        0
    };
    let by_angle = if o.angle_bound() > 0 {
        ceil_div(ang, o.angle_bound())
    } else {
        0
    };
    if by_length <= 1 && by_angle <= 1 {
        1
    } else if by_length >= by_angle {
        by_length
    } else {
        by_angle
    }
}

proof fn lemma_ceil_div(a: int, b: int)
    requires
        a >= 0,
        b > 0,
    ensures
        ceil_div(a, b) * b >= a,
        forall|m: int| m < ceil_div(a, b) ==> #[trigger] (m * b) < a,
        0 <= ceil_div(a, b) <= a,
{
    let q = ceil_div(a, b);
    assert(q * b >= a && (q - 1) * b < a && 0 <= q) by (nonlinear_arith)
        requires
            q == (a + b - 1) / b,
            a >= 0,
            b > 0,
    ;
    assert forall|m: int| m < q implies #[trigger] (m * b) < a by {
        assert(m * b <= (q - 1) * b) by (nonlinear_arith)
            requires
                m <= q - 1,
                b > 0,
        ;
    }
    if a > 0 {
        assert(q <= a) by (nonlinear_arith)
            requires
                q == (a + b - 1) / b,
                a > 0,
                b > 0,
        ;
    }
}

/// The split count meets every spacing bound in effect, and no smaller
/// positive count does.
pub proof fn lemma_split_is_least(d: int, ang: int, o: DensificationOptions)
    requires
        d >= 0,
        ang >= 0,
    ensures
        meets_spacing(split_spec(d, ang, o), d, ang, o),
        forall|m: int| 1 <= m < split_spec(d, ang, o) ==> !#[trigger] meets_spacing(m, d, ang, o),
{
    let l = o.length_bound();
    let a = o.angle_bound();
    let by_length = if l > 0 {
        ceil_div(d, l)
    } else {
        0
    };
    let by_angle = if a > 0 {
        ceil_div(ang, a)
    } else {
        0
    };
    if l > 0 {
        lemma_ceil_div(d, l);
    }
    if a > 0 {
        lemma_ceil_div(ang, a);
    }
    let r = split_spec(d, ang, o);
    assert forall|m: int| 1 <= m < r implies !#[trigger] meets_spacing(m, d, ang, o) by {
        if r == by_length {
            assert(m * l < d);
        } else {
            assert(m * a < ang);
        }
    }
    if l > 0 {
        assert(r * l >= d) by (nonlinear_arith)
            requires
                r >= by_length,
                by_length * l >= d,
                l > 0,
        ;
    }
    if a > 0 {
        assert(r * a >= ang) by (nonlinear_arith)
            requires
                r >= by_angle,
                by_angle * a >= ang,
                a > 0,
        ;
    }
}

/// The number of equal arcs a segment is split into: the least count that
/// meets every spacing bound in effect.
pub fn segment_split_count(distance: u64, angle: u64, options: &DensificationOptions) -> (r: u64)
    requires
        distance <= MAX_DISTANCE_NM,
        angle <= HALF_TURN_NDEG,
    ensures
        r == split_spec(distance as int, angle as int, *options),
        meets_spacing(r as int, distance as int, angle as int, *options),
        forall|m: int|
            1 <= m < r ==> !#[trigger] meets_spacing(m, distance as int, angle as int, *options),
        1 <= r <= MAX_DISTANCE_NM,
{
    let mut by_length: u64 = 0;
    let mut by_angle: u64 = 0;
    proof {
        if options.length_bound() > 0 {
            lemma_ceil_div(distance as int, options.length_bound());
        }
        if options.angle_bound() > 0 {
            lemma_ceil_div(angle as int, options.angle_bound());
        }
    }
    match options.max_segment_length_nm {
        Some(max_length) => {
            if max_length > 0 {
                by_length = ((distance as u128 + max_length as u128 - 1) / max_length as u128) as u64;
            }
        },
        None => {},
    }
    match options.max_segment_angle_ndeg {
        Some(max_angle) => {
            if max_angle > 0 {
                by_angle = ((angle as u128 + max_angle as u128 - 1) / max_angle as u128) as u64;
            }
        },
        None => {},
    }
    let r: u64 = if by_length <= 1 && by_angle <= 1 {
        1
    } else if by_length >= by_angle {
        by_length
    } else {
        by_angle
    };
    proof {
        lemma_split_is_least(distance as int, angle as int, *options);
    }
    r
}

/// The split count of the segment from `a` to `b`; zero for a segment of
/// length zero, which is skipped. Between distinct vertices that happens only
/// where distinct coordinates name (nearly) the same place, such as two
/// longitudes at a pole.
pub open spec fn seg_splits(a: Point, b: Point, o: DensificationOptions) -> int {
    let d = distance_spec(a, b);
    if d == 0 {
        0
    } else {
        split_spec(d, ndeg_of(central_angle_spec(a, b)), o)
    }
}

/// Measure a segment: its split count and its central angle.
fn describe_segment(a: Point, b: Point, options: &DensificationOptions) -> (r: (u64, u128))
    requires
        a.valid(),
        b.valid(),
    ensures
        r.0 == seg_splits(a, b, *options),
        r.1 == central_angle_spec(a, b),
        r.1 <= PI_FX,
        r.0 <= MAX_DISTANCE_NM,
        r.0 == 0 <==> distance_spec(a, b) == 0,
{
    let delta: u128 = central_angle(a, b);
    let d: u64 = distance_nm(a, b);
    if d == 0 {
        return (0, delta);
    }
    let angle: i64 = ndeg_of_fx(delta);
    (segment_split_count(d, angle as u64, options), delta)
}

// ---------------------------------------------------------------------------
// Samples
// ---------------------------------------------------------------------------

/// The samples a segment contributes after its start: `n` points ending
/// exactly at `b`, the inner ones interpolated along the arc; only `b` when the
/// sine of the central angle is zero; none for a segment of length zero.
pub open spec fn segment_samples(a: Point, b: Point, o: DensificationOptions) -> Seq<Point> {
    let n = seg_splits(a, b, o);
    let delta = central_angle_spec(a, b);
    if distance_spec(a, b) == 0 {
        Seq::empty()
    } else if sin_spec(delta) == 0 {
        seq![b]
    } else {
        Seq::new(
            n as nat,
            |j: int|
                if j + 1 == n {
                    b
                } else {
                    interpolate_spec(a, b, delta, j + 1, n)
                },
        )
    }
}

/// The samples of the first `k` segments of `vs`, starting with `vs[0]`.
pub open spec fn densified(vs: Seq<Point>, o: DensificationOptions, k: int) -> Seq<Point>
    decreases k,
{
    if k <= 0 {
        seq![vs[0]]
    } else {
        densified(vs, o, k - 1) + segment_samples(vs[k - 1], vs[k], o)
    }
}

/// The projected sample count of the first `k` segments: one plus their
/// split counts.
pub open spec fn planned(vs: Seq<Point>, o: DensificationOptions, k: int) -> int
    decreases k,
{
    if k <= 0 {
        1
    } else {
        planned(vs, o, k - 1) + seg_splits(vs[k - 1], vs[k], o)
    }
}

proof fn lemma_segment_len(a: Point, b: Point, o: DensificationOptions)
    ensures
        segment_samples(a, b, o).len() <= seg_splits(a, b, o),
        distance_spec(a, b) == 0 ==> segment_samples(a, b, o).len() == 0,
        distance_spec(a, b) != 0 ==> segment_samples(a, b, o).len() > 0 && segment_samples(
            a,
            b,
            o,
        ).last() == b,
{
}

/// The densified samples never outnumber the projected count.
pub proof fn lemma_densified_len(vs: Seq<Point>, o: DensificationOptions, k: int)
    requires
        0 <= k < vs.len(),
    ensures
        1 <= densified(vs, o, k).len() <= planned(vs, o, k),
    decreases k,
{
    if k > 0 {
        lemma_densified_len(vs, o, k - 1);
        lemma_segment_len(vs[k - 1], vs[k], o);
    }
}

/// Where the samples of the first `k` segments end: `vs[k]`, or, when the
/// last segments measure zero and are skipped, the vertex their run starts
/// from.
pub open spec fn last_reached(vs: Seq<Point>, k: int) -> int
    decreases k,
{
    if k <= 0 {
        0
    } else if distance_spec(vs[k - 1], vs[k]) == 0 {
        last_reached(vs, k - 1)
    } else {
        k
    }
}

/// The index where the samples end is at most `k`, and every segment after it
/// measures zero.
pub proof fn lemma_last_reached(vs: Seq<Point>, k: int)
    requires
        0 <= k < vs.len(),
    ensures
        0 <= last_reached(vs, k) <= k,
        forall|i: int|
            last_reached(vs, k) <= i < k ==> distance_spec(vs[i], #[trigger] vs[i + 1]) == 0,
        k > 0 && distance_spec(vs[k - 1], vs[k]) != 0 ==> last_reached(vs, k) == k,
    decreases k,
{
    if k > 0 {
        lemma_last_reached(vs, k - 1);
    }
}

/// When every one of the first `k` segments measures zero, the samples end
/// where they start.
pub proof fn lemma_all_zero_reaches_start(vs: Seq<Point>, k: int)
    requires
        0 <= k < vs.len(),
        forall|i: int| 0 <= i < k ==> distance_spec(vs[i], #[trigger] vs[i + 1]) == 0,
    ensures
        last_reached(vs, k) == 0,
    decreases k,
{
    if k > 0 {
        let i = k - 1;
        assert(distance_spec(vs[i], vs[i + 1]) == 0);
        assert(vs[i + 1] == vs[k]);
        lemma_all_zero_reaches_start(vs, k - 1);
    }
}

/// Densified samples start at the first vertex and end at the vertex where
/// the last segment of non-zero length ends.
pub proof fn lemma_densified_endpoints(vs: Seq<Point>, o: DensificationOptions, k: int)
    requires
        0 <= k < vs.len(),
    ensures
        densified(vs, o, k)[0] == vs[0],
        densified(vs, o, k).last() == vs[last_reached(vs, k)],
        last_reached(vs, k) == 0 ==> densified(vs, o, k).len() == 1,
        last_reached(vs, k) > 0 ==> densified(vs, o, k).len() >= 2,
    decreases k,
{
    if k > 0 {
        lemma_densified_endpoints(vs, o, k - 1);
        lemma_densified_len(vs, o, k - 1);
        lemma_segment_len(vs[k - 1], vs[k], o);
        lemma_last_reached(vs, k - 1);
        if distance_spec(vs[k - 1], vs[k]) == 0 {
            assert(segment_samples(vs[k - 1], vs[k], o) =~= Seq::<Point>::empty());
            assert(densified(vs, o, k) =~= densified(vs, o, k - 1));
        }
    }
}

/// Append the samples of the segment from `a` to `b`.
fn emit_segment(a: Point, b: Point, options: &DensificationOptions, out: &mut Vec<Point>)
    requires
        a.valid(),
        b.valid(),
        all_valid(old(out)@),
    ensures
        final(out)@ == old(out)@ + segment_samples(a, b, *options),
        all_valid(final(out)@),
{
    let ghost start = out@;
    let ghost seg = segment_samples(a, b, *options);
    let (splits, delta) = describe_segment(a, b, options);
    if splits == 0 {
        assert(seg =~= Seq::<Point>::empty());
        assert(out@ =~= start + seg);
        return ;
    }
    if sin_fx(delta as i128) == 0 {
        out.push(b);
        assert(out@ =~= start + seg);
        return ;
    }
    assert(seg.len() == splits);
    let mut j: u64 = 1;
    while j <= splits
        invariant
            1 <= j <= splits + 1,
            splits <= MAX_DISTANCE_NM,
            seg.len() == splits,
            seg == segment_samples(a, b, *options),
            splits == seg_splits(a, b, *options),
            delta == central_angle_spec(a, b),
            delta <= PI_FX,
            distance_spec(a, b) != 0,
            sin_spec(delta as int) != 0,
            a.valid(),
            b.valid(),
            out@ =~= start + seg.subrange(0, j - 1),
            all_valid(out@),
        decreases splits + 1 - j,
    {
        let p = if j == splits {
            b
        } else {
            interpolate(a, b, delta, j, splits)
        };
        assert(p == seg[j - 1]);
        out.push(p);
        assert(seg.subrange(0, j as int) =~= seg.subrange(0, j - 1).push(p));
        j = j + 1;
    }
    assert(seg.subrange(0, splits as int) =~= seg);
}

/// Densify de-duplicated valid vertices, without the cap check.
fn densify_segments(vertices: &Vec<Point>, options: &DensificationOptions) -> (r: Vec<Point>)
    requires
        vertices@.len() >= 1,
        all_valid(vertices@),
    ensures
        r@ == densified(vertices@, *options, vertices@.len() - 1),
        all_valid(r@),
{
    let mut samples: Vec<Point> = Vec::new();
    samples.push(vertices[0]);
    assert(samples@ =~= densified(vertices@, *options, 0));
    let mut i: usize = 1;
    while i < vertices.len()
        invariant
            1 <= i <= vertices@.len(),
            all_valid(vertices@),
            samples@ == densified(vertices@, *options, i - 1),
            all_valid(samples@),
        decreases vertices@.len() - i,
    {
        emit_segment(vertices[i - 1], vertices[i], options, &mut samples);
        i = i + 1;
    }
    samples
}

/// One plus the split counts of all segments of de-duplicated valid vertices.
fn build_segments(vertices: &Vec<Point>, options: &DensificationOptions) -> (r: u128)
    requires
        vertices@.len() >= 1,
        all_valid(vertices@),
    ensures
        r == planned(vertices@, *options, vertices@.len() - 1),
        r <= 1 + (vertices@.len() - 1) * (MAX_DISTANCE_NM as int),
{
    let mut total: u128 = 1;
    let mut i: usize = 1;
    while i < vertices.len()
        invariant
            1 <= i <= vertices@.len(),
            all_valid(vertices@),
            total == planned(vertices@, *options, i - 1),
            total <= 1 + (i - 1) * (MAX_DISTANCE_NM as int),
        decreases vertices@.len() - i,
    {
        let (splits, _) = describe_segment(vertices[i - 1], vertices[i], options);
        assert(total + splits <= 1 + i * (MAX_DISTANCE_NM as int)) by (nonlinear_arith)
            requires
                total <= 1 + (i - 1) * (MAX_DISTANCE_NM as int),
                splits <= MAX_DISTANCE_NM,
        ;
        assert(1 + i * (MAX_DISTANCE_NM as int) < 0x1_0000_0000_0000_0000_0000_0000_0000_0000) by (
        nonlinear_arith)
            requires
                i <= usize::MAX,
                MAX_DISTANCE_NM == 20_015_114_442_035_924,
        ;
        total = total + splits as u128;
        i = i + 1;
    }
    total
}

// ---------------------------------------------------------------------------
// Densification entry points
// ---------------------------------------------------------------------------

/// `x` as a `usize`, saturating.
pub open spec fn sat_usize(x: int) -> usize {
    if x > usize::MAX {
        usize::MAX
    } else {
        x as usize
    }
}

/// The outcome of densifying one polyline.
pub open spec fn densify_spec(vs: Seq<Point>, o: DensificationOptions) -> Result<
    Seq<Point>,
    GeodistError,
> {
    if !o.has_knob() {
        Err(GeodistError::MissingDensificationKnob)
    } else {
        match validate_polyline_spec(vs, None) {
            Err(e) => Err(e),
            Ok(d) => {
                let total = planned(d, o, d.len() - 1);
                if total > o.sample_cap {
                    Err(
                        GeodistError::SampleCapExceeded {
                            expected: sat_usize(total),
                            cap: o.sample_cap,
                            part_index: None,
                        },
                    )
                } else {
                    Ok(densified(d, o, d.len() - 1))
                }
            },
        }
    }
}

fn saturate(x: u128) -> (r: usize)
    ensures
        r == sat_usize(x as int),
{
    if x > usize::MAX as u128 {
        usize::MAX
    } else {
        x as usize
    }
}

/// Densify a single polyline into ordered samples.
///
/// Fails when no spacing bound is in effect, on the first invalid vertex, when
/// fewer than two distinct vertices remain, or when the projected sample count
/// exceeds the cap; the last check happens before any sample is produced.
pub fn densify_polyline(vertices: &[Point], options: DensificationOptions) -> (r: Result<
    Vec<Point>,
    GeodistError,
>)
    ensures
        match r {
            Ok(v) => densify_spec(vertices@, options) == Ok::<Seq<Point>, GeodistError>(v@)
                && v@.len() <= options.sample_cap && all_valid(v@),
            Err(e) => densify_spec(vertices@, options) == Err::<Seq<Point>, GeodistError>(e),
        },
{
    match options.validate() {
        Err(e) => return Err(e),
        Ok(()) => {},
    }
    let deduped = match validate_polyline(vertices, None) {
        Err(e) => return Err(e),
        Ok(d) => d,
    };
    let total = build_segments(&deduped, &options);
    if total > options.sample_cap as u128 {
        return Err(
            GeodistError::SampleCapExceeded {
                expected: saturate(total),
                cap: options.sample_cap,
                part_index: None,
            },
        );
    }
    proof {
        lemma_densified_len(deduped@, options, deduped@.len() - 1);
    }
    Ok(densify_segments(&deduped, &options))
}

/// Flattened samples of a multi-part polyline with the offsets of its parts.
///
/// Part `i` holds `samples[part_offsets[i] .. part_offsets[i + 1]]`.
#[derive(Debug, Clone, PartialEq, Eq)]
pub struct FlattenedPolyline {
    samples: Vec<Point>,
    part_offsets: Vec<usize>,
}

/// Offsets that start at zero, never decrease and end at `n`.
pub open spec fn offsets_well_formed(offsets: Seq<usize>, n: int) -> bool {
    &&& offsets.len() >= 1
    &&& offsets[0] == 0
    &&& offsets.last() == n
    &&& forall|i: int, j: int| 0 <= i <= j < offsets.len() ==> offsets[i] <= offsets[j]
}

impl FlattenedPolyline {
    pub closed spec fn samples_view(self) -> Seq<Point> {
        self.samples@
    }

    pub closed spec fn offsets_view(self) -> Seq<usize> {
        self.part_offsets@
    }

    pub open spec fn well_formed(self) -> bool {
        &&& offsets_well_formed(self.offsets_view(), self.samples_view().len() as int)
        &&& all_valid(self.samples_view())
    }

    /// The sampled points across all parts.
    pub fn samples(&self) -> (r: &[Point])
        ensures
            r@ == self.samples_view(),
    {
        self.samples.as_slice()
    }

    /// The offsets delimiting each part within the samples.
    pub fn part_offsets(&self) -> (r: &[usize])
        ensures
            r@ == self.offsets_view(),
    {
        self.part_offsets.as_slice()
    }
}

/// One part of a multi-part densification, given the samples, offsets and
/// projected total so far.
#[verifier::opaque]
pub open spec fn multi_step(
    acc: (Seq<Point>, Seq<usize>, int),
    part: Seq<Point>,
    idx: int,
    o: DensificationOptions,
) -> Result<(Seq<Point>, Seq<usize>, int), GeodistError> {
    match validate_polyline_spec(part, Some(idx as usize)) {
        Err(e) => Err(e),
        Ok(d) => {
            let predicted = acc.2 + planned(d, o, d.len() - 1);
            if predicted > o.sample_cap {
                Err(
                    GeodistError::SampleCapExceeded {
                        expected: sat_usize(predicted),
                        cap: o.sample_cap,
                        part_index: Some(idx as usize),
                    },
                )
            } else {
                let s = densified(d, o, d.len() - 1);
                Ok((acc.0 + s, acc.1.push((acc.0.len() + s.len()) as usize), predicted))
            }
        },
    }
}

/// The points of each part.
pub open spec fn views(parts: Seq<Vec<Point>>) -> Seq<Seq<Point>> {
    parts.map_values(|v: Vec<Point>| v@)
}

/// The first `k` parts densified in order.
pub open spec fn multi_spec(parts: Seq<Seq<Point>>, o: DensificationOptions, k: int) -> Result<
    (Seq<Point>, Seq<usize>, int),
    GeodistError,
>
    decreases k,
{
    if k <= 0 {
        Ok((Seq::empty(), seq![0usize], 0))
    } else {
        match multi_spec(parts, o, k - 1) {
            Err(e) => Err(e),
            Ok(acc) => multi_step(acc, parts[k - 1], k - 1, o),
        }
    }
}

/// The outcome of densifying a multi-part polyline: its samples and offsets.
pub open spec fn densify_multi_spec(parts: Seq<Seq<Point>>, o: DensificationOptions) -> Result<
    (Seq<Point>, Seq<usize>),
    GeodistError,
> {
    if !o.has_knob() {
        Err(GeodistError::MissingDensificationKnob)
    } else {
        match multi_spec(parts, o, parts.len() as int) {
            Err(e) => Err(e),
            Ok(acc) => Ok((acc.0, acc.1)),
        }
    }
}

proof fn lemma_multi_sticky(parts: Seq<Seq<Point>>, o: DensificationOptions, a: int, b: int)
    requires
        0 <= a <= b,
        multi_spec(parts, o, a) is Err,
    ensures
        multi_spec(parts, o, b) == multi_spec(parts, o, a),
    decreases b - a,
{
    if b > a {
        lemma_multi_sticky(parts, o, a, b - 1);
    }
}

/// Densify one part onto the running samples and offsets.
fn densify_part(
    validator: &VertexValidator,
    part: &[Point],
    options: &DensificationOptions,
    total: u128,
    samples: &mut Vec<Point>,
    offsets: &mut Vec<usize>,
) -> (r: Result<u128, GeodistError>)
    requires
        validator.part_index is Some,
        total <= options.sample_cap,
        old(samples)@.len() <= total,
        offsets_well_formed(old(offsets)@, old(samples)@.len() as int),
        all_valid(old(samples)@),
    ensures
        match r {
            Ok(t) => multi_step(
                (old(samples)@, old(offsets)@, total as int),
                part@,
                validator.part_index.unwrap() as int,
                *options,
            ) == Ok::<(Seq<Point>, Seq<usize>, int), GeodistError>(
                (final(samples)@, final(offsets)@, t as int),
            ) && t <= options.sample_cap && final(samples)@.len() <= t && offsets_well_formed(
                final(offsets)@,
                final(samples)@.len() as int,
            ) && all_valid(final(samples)@) && final(offsets)@.len() == old(offsets)@.len() + 1,
            Err(e) => multi_step(
                (old(samples)@, old(offsets)@, total as int),
                part@,
                validator.part_index.unwrap() as int,
                *options,
            ) == Err::<(Seq<Point>, Seq<usize>, int), GeodistError>(e),
        },
{
    reveal(multi_step);
    let idx = match validator.part_index {
        Some(k) => k,
        None => 0,
    };
    let deduped = match validate_with(validator, part) {
        Err(e) => return Err(e),
        Ok(d) => d,
    };
    let expected = build_segments(&deduped, options);
    assert(total + expected < 0x1_0000_0000_0000_0000_0000_0000_0000_0000) by (nonlinear_arith)
        requires
            total <= usize::MAX,
            expected <= 1 + (deduped@.len() - 1) * (MAX_DISTANCE_NM as int),
            deduped@.len() <= usize::MAX,
            MAX_DISTANCE_NM == 20_015_114_442_035_924,
    ;
    let predicted: u128 = total + expected;
    if predicted > options.sample_cap as u128 {
        return Err(
            GeodistError::SampleCapExceeded {
                expected: saturate(predicted),
                cap: options.sample_cap,
                part_index: Some(idx),
            },
        );
    }
    proof {
        lemma_densified_len(deduped@, *options, deduped@.len() - 1);
    }
    let mut part_samples = densify_segments(&deduped, options);
    let ghost before = samples@;
    let ghost offsets_before = offsets@;
    let ghost added = part_samples@;
    samples.append(&mut part_samples);
    offsets.push(samples.len());
    proof {
        assert(samples@ == before + added);
        assert(offsets@.last() == samples@.len());
        assert forall|a: int, b: int| 0 <= a <= b < offsets@.len() implies offsets@[a]
            <= offsets@[b] by {
            if b < offsets@.len() - 1 {
                assert(offsets@[b] == offsets_before[b]);
                assert(offsets@[a] == offsets_before[a]);
            } else if a < offsets@.len() - 1 {
                assert(offsets@[a] == offsets_before[a]);
                assert(offsets_before[a] <= offsets_before.last());
            }
        }
        assert forall|k: int| 0 <= k < samples@.len() implies (#[trigger] samples@[k]).valid() by {
            if k < before.len() {
                assert(samples@[k] == before[k]);
            } else {
                assert(samples@[k] == added[k - before.len()]);
            }
        }
    }
    Ok(predicted)
}

/// Densify a multi-part polyline into flattened samples and part offsets.
///
/// Parts are processed in order with a running projected total; the first
/// failing part stops the whole computation, and its index is reported.
pub fn densify_multiline(parts: &[Vec<Point>], options: DensificationOptions) -> (r: Result<
    FlattenedPolyline,
    GeodistError,
>)
    ensures
        match r {
            Ok(f) => densify_multi_spec(views(parts@), options) == Ok::<
                (Seq<Point>, Seq<usize>),
                GeodistError,
            >((f.samples_view(), f.offsets_view())) && f.well_formed() && f.samples_view().len()
                <= options.sample_cap && f.offsets_view().len() == parts@.len() + 1,
            Err(e) => densify_multi_spec(views(parts@), options) == Err::<
                (Seq<Point>, Seq<usize>),
                GeodistError,
            >(e),
        },
{
    match options.validate() {
        Err(e) => return Err(e),
        Ok(()) => {},
    }
    let mut samples: Vec<Point> = Vec::new();
    let mut offsets: Vec<usize> = Vec::new();
    offsets.push(0);
    let mut validator = VertexValidator::new(Some(0));
    let mut total: u128 = 0;
    let mut i: usize = 0;
    assert(multi_spec(views(parts@), options, 0) == Ok::<(Seq<Point>, Seq<usize>, int), GeodistError>(
        (samples@, offsets@, 0),
    )) by {
        assert(offsets@ =~= seq![0usize]);
        assert(samples@ =~= Seq::<Point>::empty());
    }
    while i < parts.len()
        invariant
            0 <= i <= parts@.len(),
            options.has_knob(),
            multi_spec(views(parts@), options, i as int) == Ok::<
                (Seq<Point>, Seq<usize>, int),
                GeodistError,
            >((samples@, offsets@, total as int)),
            total <= options.sample_cap,
            samples@.len() <= total,
            offsets@.len() == i + 1,
            offsets_well_formed(offsets@, samples@.len() as int),
            all_valid(samples@),
        decreases parts@.len() - i,
    {
        validator.set_part_index(i);
        let ghost acc = (samples@, offsets@, total as int);
        assert(parts[i as int]@ == views(parts@)[i as int]);
        match densify_part(&validator, parts[i].as_slice(), &options, total, &mut samples, &mut offsets) {
            Err(e) => {
                proof {
                    lemma_multi_sticky(views(parts@), options, i as int + 1, parts@.len() as int);
                }
                return Err(e);
            },
            Ok(t) => {
                total = t;
            },
        }
        i = i + 1;
    }
    Ok(FlattenedPolyline { samples, part_offsets: offsets })
}

// ---------------------------------------------------------------------------
// Clipping
// ---------------------------------------------------------------------------

/// The points of `s` inside the box, in order.
pub open spec fn kept_in(s: Seq<Point>, b: BoundingBox) -> Seq<Point>
    decreases s.len(),
{
    if s.len() == 0 {
        Seq::empty()
    } else if b.holds(s.last()) {
        kept_in(s.drop_last(), b).push(s.last())
    } else {
        kept_in(s.drop_last(), b)
    }
}

/// The first `k` parts clipped independently: the kept samples and the new
/// offsets.
pub open spec fn clip_upto(s: Seq<Point>, o: Seq<usize>, b: BoundingBox, k: int) -> (
    Seq<Point>,
    Seq<usize>,
)
    decreases k,
{
    if k <= 0 {
        (Seq::empty(), seq![0usize])
    } else {
        let prev = clip_upto(s, o, b, k - 1);
        let kept = kept_in(s.subrange(o[k - 1] as int, o[k] as int), b);
        (prev.0 + kept, prev.1.push((prev.0.len() + kept.len()) as usize))
    }
}

/// The outcome of clipping a flattened polyline.
pub open spec fn clip_spec(s: Seq<Point>, o: Seq<usize>, b: BoundingBox) -> Result<
    (Seq<Point>, Seq<usize>),
    GeodistError,
> {
    let r = clip_upto(s, o, b, o.len() - 1);
    if r.0.len() == 0 {
        Err(GeodistError::EmptyPointSet)
    } else {
        Ok(r)
    }
}

proof fn lemma_kept_in_shape(s: Seq<Point>, b: BoundingBox)
    ensures
        kept_in(s, b).len() <= s.len(),
        forall|i: int|
            0 <= i < kept_in(s, b).len() ==> b.holds(#[trigger] kept_in(s, b)[i]) && exists|j: int|
                0 <= j < s.len() && s[j] == kept_in(s, b)[i],
    decreases s.len(),
{
    if s.len() > 0 {
        let t = s.drop_last();
        lemma_kept_in_shape(t, b);
        assert forall|i: int| 0 <= i < kept_in(s, b).len() implies b.holds(
            #[trigger] kept_in(s, b)[i],
        ) && exists|j: int| 0 <= j < s.len() && s[j] == kept_in(s, b)[i] by {
            if i < kept_in(t, b).len() {
                assert(kept_in(s, b)[i] == kept_in(t, b)[i]);
                let j = choose|j: int| 0 <= j < t.len() && t[j] == kept_in(t, b)[i];
                assert(s[j] == t[j]);
            } else {
                assert(s[s.len() - 1] == kept_in(s, b)[i]);
            }
        }
    }
}

impl FlattenedPolyline {
    /// Keep, part by part, the samples inside an inclusive box, preserving
    /// their order; offsets are rebuilt and every part keeps its slot, even
    /// when emptied. Fails with `EmptyPointSet` when nothing is kept.
    pub fn clip(&self, bounding_box: &BoundingBox) -> (r: Result<FlattenedPolyline, GeodistError>)
        requires
            self.well_formed(),
        ensures
            match r {
                Ok(f) => clip_spec(self.samples_view(), self.offsets_view(), *bounding_box) == Ok::<
                    (Seq<Point>, Seq<usize>),
                    GeodistError,
                >((f.samples_view(), f.offsets_view())) && f.well_formed()
                    && f.offsets_view().len() == self.offsets_view().len(),
                Err(e) => clip_spec(self.samples_view(), self.offsets_view(), *bounding_box)
                    == Err::<(Seq<Point>, Seq<usize>), GeodistError>(e),
            },
    {
        let ghost s = self.samples@;
        let ghost o = self.part_offsets@;
        let mut filtered: Vec<Point> = Vec::new();
        let mut offsets: Vec<usize> = Vec::new();
        offsets.push(0);
        assert(clip_upto(s, o, *bounding_box, 0) == (filtered@, offsets@)) by {
            assert(offsets@ =~= seq![0usize]);
            assert(filtered@ =~= Seq::<Point>::empty());
        }
        let mut k: usize = 1;
        while k < self.part_offsets.len()
            invariant
                1 <= k <= o.len(),
                s == self.samples@,
                o == self.part_offsets@,
                self.well_formed(),
                clip_upto(s, o, *bounding_box, k - 1) == (filtered@, offsets@),
                offsets@.len() == k,
                offsets_well_formed(offsets@, filtered@.len() as int),
                filtered@.len() <= o[k - 1],
                all_valid(filtered@),
            decreases o.len() - k,
        {
            let start = self.part_offsets[k - 1];
            let end = self.part_offsets[k];
            assert(start <= end <= s.len()) by {
                assert(o[k - 1] <= o[k as int]);
                assert(o[k as int] <= o.last());
            }
            let ghost part = s.subrange(start as int, end as int);
            let ghost before = filtered@;
            let ghost offsets_before = offsets@;
            let mut j: usize = start;
            while j < end
                invariant
                    start <= j <= end <= s.len(),
                    s == self.samples@,
                    part == s.subrange(start as int, end as int),
                    filtered@ == before + kept_in(part.subrange(0, j - start), *bounding_box),
                    all_valid(s),
                    all_valid(filtered@),
                    before.len() <= start,
                    kept_in(part.subrange(0, j - start), *bounding_box).len() <= j - start,
                decreases end - j,
            {
                let p = self.samples[j];
                proof {
                    let next = part.subrange(0, j - start + 1);
                    assert(next.drop_last() =~= part.subrange(0, j - start));
                    assert(next.last() == p);
                }
                if bounding_box.contains(&p) {
                    filtered.push(p);
                    assert(filtered@ =~= before + kept_in(
                        part.subrange(0, j - start + 1),
                        *bounding_box,
                    ));
                }
                j = j + 1;
            }
            assert(part.subrange(0, end - start) =~= part);
            offsets.push(filtered.len());
            proof {
                assert(offsets@.last() == filtered@.len());
                assert forall|a: int, b: int| 0 <= a <= b < offsets@.len() implies offsets@[a]
                    <= offsets@[b] by {
                    if b < offsets@.len() - 1 {
                        assert(offsets@[b] == offsets_before[b]);
                        assert(offsets@[a] == offsets_before[a]);
                    } else if a < offsets@.len() - 1 {
                        assert(offsets@[a] == offsets_before[a]);
                        assert(offsets_before[a] <= offsets_before.last());
                    }
                }
                assert(filtered@.len() <= o[k as int]);
            }
            k = k + 1;
        }
        if filtered.len() == 0 {
            return Err(GeodistError::EmptyPointSet);
        }
        Ok(FlattenedPolyline { samples: filtered, part_offsets: offsets })
    }
}

proof fn lemma_kept_in_identity(s: Seq<Point>, b: BoundingBox)
    requires
        forall|i: int| 0 <= i < s.len() ==> b.holds(#[trigger] s[i]),
    ensures
        kept_in(s, b) == s,
    decreases s.len(),
{
    if s.len() > 0 {
        let t = s.drop_last();
        assert forall|i: int| 0 <= i < t.len() implies b.holds(#[trigger] t[i]) by {
            assert(t[i] == s[i]);
        }
        lemma_kept_in_identity(t, b);
        assert(b.holds(s[s.len() - 1]));
        assert(t.push(s.last()) =~= s);
    }
}

proof fn lemma_clip_len(s: Seq<Point>, o: Seq<usize>, b: BoundingBox, k: int)
    requires
        offsets_well_formed(o, s.len() as int),
        0 <= k < o.len(),
    ensures
        clip_upto(s, o, b, k).0.len() <= o[k],
    decreases k,
{
    if k > 0 {
        lemma_clip_len(s, o, b, k - 1);
        assert(o[k - 1] <= o[k] && o[k] <= o.last());
        lemma_kept_in_shape(s.subrange(o[k - 1] as int, o[k] as int), b);
    }
}

/// The clipped prefix for `j` parts is a prefix of the one for `k` parts, and
/// each offset is the length of the samples kept before it.
pub proof fn lemma_clip_prefix(s: Seq<Point>, o: Seq<usize>, b: BoundingBox, j: int, k: int)
    requires
        offsets_well_formed(o, s.len() as int),
        s.len() <= usize::MAX,
        0 <= j <= k < o.len(),
    ensures
        clip_upto(s, o, b, k).1.len() == k + 1,
        clip_upto(s, o, b, k).0.subrange(0, clip_upto(s, o, b, j).0.len() as int) == clip_upto(
            s,
            o,
            b,
            j,
        ).0,
        clip_upto(s, o, b, k).1[j] == clip_upto(s, o, b, j).0.len(),
        clip_upto(s, o, b, j).0.len() <= clip_upto(s, o, b, k).0.len(),
    decreases k,
{
    let rk = clip_upto(s, o, b, k);
    let rj = clip_upto(s, o, b, j);
    if k == 0 {
        assert(rk.0.subrange(0, 0) =~= rk.0);
    } else if j == k {
        lemma_clip_prefix(s, o, b, k - 1, k - 1);
        lemma_clip_len(s, o, b, k);
        assert(o[k] <= o.last());
        assert(rk.0.subrange(0, rk.0.len() as int) =~= rk.0);
    } else {
        lemma_clip_prefix(s, o, b, j, k - 1);
        let prev = clip_upto(s, o, b, k - 1);
        assert(rk.0.subrange(0, rj.0.len() as int) =~= prev.0.subrange(0, rj.0.len() as int));
        assert(rk.1[j] == prev.1[j]);
    }
}

/// Clipping an already clipped polyline with the same box changes nothing,
/// part by part.
pub proof fn lemma_clip_idempotent(s: Seq<Point>, o: Seq<usize>, b: BoundingBox, k: int)
    requires
        offsets_well_formed(o, s.len() as int),
        s.len() <= usize::MAX,
        0 <= k < o.len(),
    ensures
        ({
            let r = clip_upto(s, o, b, o.len() - 1);
            clip_upto(r.0, r.1, b, k) == clip_upto(s, o, b, k)
        }),
    decreases k,
{
    let n = o.len() - 1;
    let r = clip_upto(s, o, b, n);
    if k > 0 {
        lemma_clip_idempotent(s, o, b, k - 1);
        lemma_clip_prefix(s, o, b, k - 1, n);
        lemma_clip_prefix(s, o, b, k, n);
        lemma_clip_prefix(s, o, b, k - 1, k);
        let prev = clip_upto(s, o, b, k - 1);
        let cur = clip_upto(s, o, b, k);
        let kept = kept_in(s.subrange(o[k - 1] as int, o[k] as int), b);
        assert(cur.0 == prev.0 + kept);
        let lo = prev.0.len() as int;
        let hi = cur.0.len() as int;
        assert(r.1[k - 1] == lo);
        assert(r.1[k] == hi);
        assert(r.0.subrange(lo, hi) =~= cur.0.subrange(lo, hi)) by {
            assert(r.0.subrange(0, hi) == cur.0);
        }
        assert(cur.0.subrange(lo, hi) =~= kept);
        lemma_kept_in_shape(s.subrange(o[k - 1] as int, o[k] as int), b);
        lemma_kept_in_identity(kept, b);
    }
}

/// The vertex where a part's samples end: its last de-duplicated vertex,
/// unless trailing segments of length zero were skipped.
pub open spec fn part_end(part: Seq<Point>) -> Point {
    let d = dedup_spec(part);
    d[last_reached(d, d.len() - 1)]
}

/// The shape of a multi-part result after `k` parts: offsets strictly
/// increase, and each part's samples start at its first vertex and end at
/// `part_end` of it.
pub open spec fn parts_framed(acc: (Seq<Point>, Seq<usize>, int), parts: Seq<Seq<Point>>, o: DensificationOptions, k: int) -> bool {
    &&& acc.1.len() == k + 1
    &&& acc.1[0] == 0
    &&& acc.1[k] == acc.0.len()
    &&& acc.0.len() <= acc.2 <= o.sample_cap
    &&& forall|p: int| 0 <= p <= k ==> #[trigger] acc.1[p] <= acc.0.len()
    &&& forall|p: int|
        0 <= p < k ==> #[trigger] acc.1[p] < acc.1[p + 1] && acc.0[acc.1[p] as int]
            == parts[p][0] && acc.0[acc.1[p + 1] - 1] == part_end(parts[p])
}

proof fn lemma_push_part_framed(
    prev: (Seq<Point>, Seq<usize>, int),
    sm: Seq<Point>,
    predicted: int,
    parts: Seq<Seq<Point>>,
    o: DensificationOptions,
    k: int,
)
    requires
        1 <= k <= parts.len(),
        parts_framed(prev, parts, o, k - 1),
        sm.len() >= 1,
        sm[0] == parts[k - 1][0],
        sm.last() == part_end(parts[k - 1]),
        prev.0.len() + sm.len() <= predicted <= o.sample_cap,
        prev.2 <= predicted,
    ensures
        parts_framed(
            (prev.0 + sm, prev.1.push((prev.0.len() + sm.len()) as usize), predicted),
            parts,
            o,
            k,
        ),
{
    let acc = (prev.0 + sm, prev.1.push((prev.0.len() + sm.len()) as usize), predicted);
    assert forall|p: int| 0 <= p < k implies #[trigger] acc.1[p] < acc.1[p + 1] && acc.0[acc.1[p] as int]
        == parts[p][0] && acc.0[acc.1[p + 1] - 1] == part_end(parts[p]) by {
        if p < k - 1 {
            assert(acc.1[p] == prev.1[p] && acc.1[p + 1] == prev.1[p + 1]);
            assert(prev.1[p] < prev.1[p + 1]);
            assert(prev.1[p + 1] <= prev.0.len());
        } else {
            assert(acc.1[p] == prev.0.len());
        }
    }
    assert forall|p: int| 0 <= p <= k implies #[trigger] acc.1[p] <= acc.0.len() by {
        if p < k {
            assert(acc.1[p] == prev.1[p]);
        }
    }
}

proof fn lemma_multi_step_framed(
    prev: (Seq<Point>, Seq<usize>, int),
    parts: Seq<Seq<Point>>,
    o: DensificationOptions,
    k: int,
)
    requires
        1 <= k <= parts.len(),
        parts_framed(prev, parts, o, k - 1),
    ensures
        match multi_step(prev, parts[k - 1], k - 1, o) {
            Ok(acc) => parts_framed(acc, parts, o, k),
            Err(_) => true,
        },
{
    reveal(multi_step);
    let part = parts[k - 1];
    if let Ok(d) = validate_polyline_spec(part, Some((k - 1) as usize)) {
        let predicted = prev.2 + planned(d, o, d.len() - 1);
        if predicted <= o.sample_cap {
            let sm = densified(d, o, d.len() - 1);
            lemma_densified_len(d, o, d.len() - 1);
            lemma_densified_endpoints(d, o, d.len() - 1);
            lemma_dedup_shape(part);
            lemma_push_part_framed(prev, sm, predicted, parts, o, k);
        }
    }
}

/// After `k` parts, each part's samples start at its first vertex and end at
/// its last, within offsets that strictly increase.
pub proof fn lemma_multi_endpoints(parts: Seq<Seq<Point>>, o: DensificationOptions, k: int)
    requires
        0 <= k <= parts.len(),
    ensures
        match multi_spec(parts, o, k) {
            Ok(acc) => parts_framed(acc, parts, o, k),
            Err(_) => true,
        },
    decreases k,
{
    if k > 0 {
        lemma_multi_endpoints(parts, o, k - 1);
        if let Ok(prev) = multi_spec(parts, o, k - 1) {
            lemma_multi_step_framed(prev, parts, o, k);
        }
    }
}

} // verus!
