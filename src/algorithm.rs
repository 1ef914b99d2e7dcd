//! The pluggable distance kernel: callers may supply their own algorithm and
//! reuse the library's batch entry points with it.

use vstd::prelude::*;
use crate::spherical::{geodesic_distance, Spherical};
use crate::types::{Distance, GeodistError, Point};

verus! {

/// A point-to-point distance algorithm. Its behaviour is the implementor's;
/// the library states nothing of it beyond the types, and states what it does
/// with each result the algorithm hands back.
pub trait GeodesicAlgorithm {
    /// Distance between two points.
    fn geodesic_distance(&self, p1: Point, p2: Point) -> Result<Distance, GeodistError>;
}

impl GeodesicAlgorithm for Spherical {
    fn geodesic_distance(&self, p1: Point, p2: Point) -> Result<Distance, GeodistError> {
        geodesic_distance(p1, p2)
    }
}

/// Distance between two points with a caller-supplied algorithm: the
/// algorithm's own result, handed back unchanged.
pub fn geodesic_distance_with<A: GeodesicAlgorithm>(algorithm: &A, p1: Point, p2: Point) -> Result<
    Distance,
    GeodistError,
> {
    algorithm.geodesic_distance(p1, p2)
}

/// Record one pair's outcome in a batch: a distance is appended in
/// nanometers; an error is returned and the batch is left as it was.
pub fn record_distance(out: &mut Vec<u64>, outcome: Result<Distance, GeodistError>) -> (r: Result<
    (),
    GeodistError,
>)
    ensures
        match outcome {
            Ok(d) => r is Ok && final(out)@ == old(out)@.push(d.view_nm() as u64),
            Err(e) => r == Err::<(), GeodistError>(e) && final(out)@ == old(out)@,
        },
{
    match outcome {
        Ok(d) => {
            out.push(d.nanometers());
            Ok(())
        },
        Err(e) => Err(e),
    }
}

/// Distances for many pairs with a caller-supplied algorithm, in order; the
/// first pair whose evaluation fails stops the batch with its error, and no
/// later pair is evaluated.
pub fn geodesic_distances_with<A: GeodesicAlgorithm>(algorithm: &A, pairs: &[(Point, Point)]) -> (r:
    Result<Vec<u64>, GeodistError>)
    ensures
        r is Ok ==> r->Ok_0@.len() == pairs@.len(),
        pairs@.len() == 0 ==> r is Ok,
{
    let mut out: Vec<u64> = Vec::new();
    let mut i: usize = 0;
    while i < pairs.len()
        invariant
            0 <= i <= pairs@.len(),
            out@.len() == i,
        decreases pairs@.len() - i,
    {
        let (a, b) = pairs[i];
        match record_distance(&mut out, algorithm.geodesic_distance(a, b)) {
            Err(e) => return Err(e),
            Ok(()) => {},
        }
        i = i + 1;
    }
    Ok(out)
}

} // verus!
