//! Geodesic distances, polyline densification and Hausdorff distance on a
//! spherical Earth.
//!
//! Coordinates are integer nanodegrees and distances integer nanometers, so
//! every computation in the library is exact integer arithmetic and every
//! result is reproducible bit for bit.

mod algorithm;
mod fixed;
mod hausdorff;
mod index;
mod laws;
mod polygon;
mod polyline;
mod spherical;
mod types;

pub use algorithm::{
    geodesic_distance_with, geodesic_distances_with, record_distance, GeodesicAlgorithm,
};
pub use hausdorff::{
    choose_strategy, enumerate_samples, hausdorff_directed_polyline,
    hausdorff_directed_polyline_indexed, hausdorff_directed_polyline_naive, hausdorff_polyline,
    pick_symmetric_witness, prefers_target, prefers_worse_witness, should_use_naive,
    DirectedWitness, HausdorffStrategy, PolylineHausdorffOptions, PolylineHausdorffResult,
    PolylineSample, PolylineWitness,
};
pub use polygon::Polygon;
pub use polyline::{
    collapse_duplicates, densify_multiline, densify_polyline, segment_split_count,
    validate_polyline, DensificationOptions, FlattenedPolyline,
};
pub use spherical::{geodesic_distance, geodesic_distances, Spherical};
pub use types::{
    BoundingBox, Distance, GeodistError, Point, RingOrientation, VertexValidationError,
    EARTH_RADIUS_NANOMETERS,
};
