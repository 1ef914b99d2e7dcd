use geodist::{DensificationOptions, GeodistError, Point, Polygon};

const DEG: i64 = 1_000_000_000;
const METER: u64 = 1_000_000_000;

fn ccw_square() -> Vec<Point> {
    vec![
        Point::new(0, 0).unwrap(),
        Point::new(0, DEG).unwrap(),
        Point::new(DEG, DEG).unwrap(),
        Point::new(DEG, 0).unwrap(),
        Point::new(0, 0).unwrap(),
    ]
}

fn cw_square() -> Vec<Point> {
    vec![
        Point::new(0, 0).unwrap(),
        Point::new(DEG, 0).unwrap(),
        Point::new(DEG, DEG).unwrap(),
        Point::new(0, DEG).unwrap(),
        Point::new(0, 0).unwrap(),
    ]
}

#[test]
fn rejects_unclosed_ring() {
    let mut ring = ccw_square();
    ring.pop();
    let result = Polygon::new(ring, vec![]);
    assert!(matches!(result, Err(GeodistError::DegeneratePolyline { .. })));
}

#[test]
fn rejects_wrong_orientation() {
    let exterior = cw_square();
    let result = Polygon::new(exterior, vec![]);
    assert!(matches!(result, Err(GeodistError::InvalidBoundingBox { .. })));
}

#[test]
fn rejects_hole_outside_exterior() {
    let exterior = ccw_square();
    let mut hole = cw_square();
    hole.iter_mut().for_each(|p| p.lat += 5 * DEG);
    let result = Polygon::new(exterior, vec![hole]);
    assert!(matches!(result, Err(GeodistError::InvalidBoundingBox { .. })));
}

#[test]
fn accepts_ccw_exterior_and_cw_hole() {
    let exterior = ccw_square();
    let hole = cw_square();
    let polygon = Polygon::new(exterior.clone(), vec![hole.clone()]).unwrap();
    let samples = polygon
        .densify_boundaries(DensificationOptions {
            max_segment_length_nm: Some(1_000 * METER),
            max_segment_angle_ndeg: None,
            sample_cap: 10_000,
        })
        .unwrap();
    assert_eq!(samples.part_offsets().len(), 3);
}

#[test]
fn ring_closure_tolerates_one_nanodegree() {
    let mut ring = ccw_square();
    ring[4] = Point::new(1, 0).unwrap();
    assert!(Polygon::new(ring.clone(), vec![]).is_ok());
    ring[4] = Point::new(2, 0).unwrap();
    assert_eq!(
        Polygon::new(ring, vec![]),
        Err(GeodistError::DegeneratePolyline { part_index: None })
    );
}

#[test]
fn hole_errors_name_their_part() {
    let exterior = ccw_square();
    let short_hole = vec![Point::new(0, 0).unwrap(), Point::new(DEG / 2, DEG / 2).unwrap()];
    assert_eq!(
        Polygon::new(exterior, vec![short_hole]),
        Err(GeodistError::DegeneratePolyline { part_index: Some(1) })
    );
}
