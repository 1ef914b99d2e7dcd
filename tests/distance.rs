use geodist::{
    geodesic_distance, geodesic_distance_with, geodesic_distances, geodesic_distances_with,
    record_distance, Distance, GeodesicAlgorithm, GeodistError, Point, Spherical,
};

const DEG: i64 = 1_000_000_000;

fn meters(nanometers: u64) -> f64 {
    nanometers as f64 / 1e9
}

#[test]
fn computes_expected_distance() {
    let origin = Point::new(0, 0).unwrap();
    let east = Point::new(0, DEG).unwrap();

    let m = meters(Spherical.geodesic_distance(origin, east).unwrap().nanometers());
    let expected = 111_195.080_233_532_9;
    assert!((m - expected).abs() < 1e-6);
}

#[test]
fn propagates_validation_errors() {
    let invalid = Point { lat: 200 * DEG, lon: 0 };
    let valid = Point::new(0, 0).unwrap();
    let result = Spherical.geodesic_distance(invalid, valid);
    assert!(matches!(result, Err(GeodistError::InvalidLatitude(200_000_000_000))));
}

#[test]
fn computes_equatorial_degree() {
    let origin = Point::new(0, 0).unwrap();
    let east = Point::new(0, DEG).unwrap();

    let m = meters(geodesic_distance(origin, east).unwrap().nanometers());
    let expected = 111_195.080_233_532_9;
    assert!((m - expected).abs() < 1e-6);
}

#[test]
fn handles_polar_antipodal_case() {
    let north_pole = Point::new(90 * DEG, 0).unwrap();
    let south_pole = Point::new(-90 * DEG, 0).unwrap();

    let m = meters(geodesic_distance(north_pole, south_pole).unwrap().nanometers());
    let expected = 20_015_114.442_035_925;
    assert!((m - expected).abs() < 1e-6);
}

#[test]
fn computes_long_range_path() {
    let new_york = Point::new(40_712_800_000, -74_006_000_000).unwrap();
    let london = Point::new(51_507_400_000, -127_800_000).unwrap();

    let m = meters(geodesic_distance(new_york, london).unwrap().nanometers());
    let expected = 5_570_229.873_656_523;
    assert!((m - expected).abs() < 1e-6);
}

#[test]
fn identical_points_are_zero() {
    let point = Point::new(10 * DEG, 20 * DEG).unwrap();
    let nm = geodesic_distance(point, point).unwrap().nanometers();
    assert_eq!(nm, 0);
}

#[test]
fn computes_batch_distances_in_order() {
    let pairs = [
        (Point::new(0, 0).unwrap(), Point::new(0, DEG).unwrap()),
        (Point::new(0, 0).unwrap(), Point::new(DEG, 0).unwrap()),
    ];

    let results = geodesic_distances(&pairs).unwrap();
    assert_eq!(results.len(), 2);

    let expected_first = geodesic_distance(pairs[0].0, pairs[0].1).unwrap().nanometers();
    let expected_second = geodesic_distance(pairs[1].0, pairs[1].1).unwrap().nanometers();

    assert_eq!(results[0], expected_first);
    assert_eq!(results[1], expected_second);
}

#[test]
fn propagates_validation_error() {
    let valid = Point::new(0, 0).unwrap();
    let invalid = Point { lat: 95 * DEG, lon: 0 };
    let pairs = [(valid, valid), (invalid, valid)];

    let result = geodesic_distances(&pairs);
    assert!(matches!(result, Err(GeodistError::InvalidLatitude(95_000_000_000))));
}

#[test]
fn rejects_longitude_out_of_range() {
    let result = Point::new(0, 181 * DEG);
    assert_eq!(result, Err(GeodistError::InvalidLongitude(181_000_000_000)));
    let bad_second = geodesic_distance(Point::new(0, 0).unwrap(), Point { lat: 0, lon: -181 * DEG });
    assert_eq!(bad_second, Err(GeodistError::InvalidLongitude(-181_000_000_000)));
}

#[test]
fn distance_is_symmetric_and_exact_for_meridian_degree() {
    let a = Point::new(10 * DEG, 20 * DEG).unwrap();
    let b = Point::new(11 * DEG, 20 * DEG).unwrap();
    let ab = geodesic_distance(a, b).unwrap().nanometers();
    let ba = geodesic_distance(b, a).unwrap().nanometers();
    assert_eq!(ab, ba);
    assert!((meters(ab) - 111_195.080_233_532_9).abs() < 1e-6);
}

#[test]
fn supports_custom_algorithm_for_single_distance() {
    struct FakeAlgorithm;

    impl GeodesicAlgorithm for FakeAlgorithm {
        fn geodesic_distance(&self, _p1: Point, _p2: Point) -> Result<Distance, GeodistError> {
            Ok(Distance::from_nanometers(42_000_000_000))
        }
    }

    let origin = Point::new(0, 0).unwrap();
    let destination = Point::new(DEG, DEG).unwrap();

    let nm = geodesic_distance_with(&FakeAlgorithm, origin, destination)
        .unwrap()
        .nanometers();
    assert_eq!(nm, 42_000_000_000);
}

#[test]
fn supports_custom_algorithm_for_batch() {
    struct ConstantAlgorithm;

    impl GeodesicAlgorithm for ConstantAlgorithm {
        fn geodesic_distance(&self, _p1: Point, _p2: Point) -> Result<Distance, GeodistError> {
            Ok(Distance::from_nanometers(1_500_000_000))
        }
    }

    let points = [
        (Point::new(0, 0).unwrap(), Point::new(0, DEG).unwrap()),
        (Point::new(10 * DEG, 10 * DEG).unwrap(), Point::new(10 * DEG, 11 * DEG).unwrap()),
    ];

    let results = geodesic_distances_with(&ConstantAlgorithm, &points).unwrap();
    assert_eq!(results, vec![1_500_000_000, 1_500_000_000]);
}

#[test]
fn spherical_is_the_default_algorithm() {
    let a = Point::new(0, 0).unwrap();
    let b = Point::new(DEG, DEG).unwrap();
    assert_eq!(geodesic_distance_with(&Spherical, a, b), geodesic_distance(a, b));
}

#[test]
fn one_nanodegree_apart_is_not_zero() {
    let a = Point::new(0, DEG).unwrap();
    let b = Point::new(1, DEG).unwrap();
    let nm = geodesic_distance(a, b).unwrap().nanometers();
    // One nanodegree of arc is about 0.111 mm.
    assert!((nm as i64 - 111_195).abs() <= 1);
}

#[test]
fn pole_longitudes_are_zero_apart() {
    let a = Point::new(90 * DEG, 0).unwrap();
    let b = Point::new(90 * DEG, 120 * DEG).unwrap();
    assert_eq!(geodesic_distance(a, b).unwrap().nanometers(), 0);
}

#[test]
fn record_distance_appends_or_stops() {
    let mut out = vec![5];
    assert_eq!(record_distance(&mut out, Ok(Distance::from_nanometers(7))), Ok(()));
    assert_eq!(out, vec![5, 7]);
    let err = GeodistError::InvalidLatitude(95 * DEG);
    assert_eq!(record_distance(&mut out, Err(err)), Err(err));
    assert_eq!(out, vec![5, 7]);
}

#[test]
fn custom_batch_stops_at_first_failure() {
    struct FailsOnSecond;

    impl GeodesicAlgorithm for FailsOnSecond {
        fn geodesic_distance(&self, p1: Point, _p2: Point) -> Result<Distance, GeodistError> {
            if p1.lat == 0 {
                Ok(Distance::from_nanometers(1))
            } else {
                Err(GeodistError::InvalidLatitude(p1.lat))
            }
        }
    }

    let pairs = [
        (Point::new(0, 0).unwrap(), Point::new(0, 0).unwrap()),
        (Point::new(DEG, 0).unwrap(), Point::new(0, 0).unwrap()),
        (Point::new(2 * DEG, 0).unwrap(), Point::new(0, 0).unwrap()),
    ];
    assert_eq!(
        geodesic_distances_with(&FailsOnSecond, &pairs),
        Err(GeodistError::InvalidLatitude(DEG))
    );
    assert_eq!(geodesic_distances_with(&FailsOnSecond, &[]), Ok(vec![]));
}
