use geodist::{
    choose_strategy, densify_multiline, enumerate_samples, geodesic_distance,
    hausdorff_directed_polyline, hausdorff_directed_polyline_indexed,
    hausdorff_directed_polyline_naive, hausdorff_polyline, pick_symmetric_witness,
    should_use_naive, BoundingBox, DensificationOptions, GeodistError, HausdorffStrategy,
    PolylineHausdorffOptions, PolylineSample, Point,
};

const DEG: i64 = 1_000_000_000;
const KM: u64 = 1_000_000_000_000;

fn p(lat: i64, lon: i64) -> Point {
    Point::new(lat, lon).unwrap()
}

fn line_samples(parts: &[Vec<Point>], spacing_m: u64) -> Vec<PolylineSample> {
    let options = DensificationOptions {
        max_segment_length_nm: Some(spacing_m * 1_000_000_000),
        max_segment_angle_ndeg: None,
        sample_cap: 50_000,
    };
    enumerate_samples(&densify_multiline(parts, options).unwrap())
}

#[test]
fn polyline_hausdorff_returns_witness_for_parallel_shift() {
    let line_a = vec![p(0, 0), p(0, DEG)];
    let line_b = vec![p(DEG, 0), p(DEG, DEG)];

    let options = PolylineHausdorffOptions {
        max_segment_length_nm: Some(200 * KM),
        max_segment_angle_ndeg: None,
        return_witness: true,
        ..Default::default()
    };

    let result = hausdorff_polyline(&[line_a], &[line_b], options).unwrap();
    let witness = result.witness().expect("witness requested");
    assert_eq!(witness.source_part(), 0);
    assert_eq!(witness.target_part(), 0);
    assert_eq!(witness.source_index(), 0);
    assert_eq!(witness.target_index(), 0);
    assert!(witness.distance().nanometers() > 100 * KM);
    assert_eq!(witness.source_coord(), p(0, 0));
    assert_eq!(witness.target_coord(), p(DEG, 0));
    assert_eq!(result.distance(), witness.distance());
}

#[test]
fn polyline_hausdorff_tracks_multiline_parts() {
    let near = vec![p(0, 0), p(0, DEG / 10)];
    let far = vec![p(5 * DEG, 0), p(5 * DEG, DEG / 10)];
    let anchor = vec![p(0, 0), p(0, DEG / 10)];

    let options = PolylineHausdorffOptions {
        max_segment_length_nm: Some(200 * KM),
        max_segment_angle_ndeg: None,
        return_witness: true,
        ..Default::default()
    };

    let result = hausdorff_polyline(&[near, far], &[anchor], options).unwrap();
    let witness = result.witness().expect("witness requested");
    assert_eq!(witness.source_part(), 1);
    assert_eq!(witness.target_part(), 0);
    assert!(witness.distance().nanometers() > 400 * KM);
}

#[test]
fn polyline_hausdorff_errors_when_clipped_empty() {
    let line = vec![p(0, 0), p(0, DEG / 10)];
    let bbox = BoundingBox::new(10 * DEG, 20 * DEG, 10 * DEG, 20 * DEG).unwrap();

    let options = PolylineHausdorffOptions {
        bounding_box: Some(bbox),
        ..Default::default()
    };

    let parts = std::slice::from_ref(&line);
    let result = hausdorff_polyline(parts, parts, options);
    assert!(matches!(result, Err(GeodistError::EmptyPointSet)));
}

#[test]
fn witness_omitted_unless_requested() {
    let a = vec![p(0, 0), p(0, DEG)];
    let b = vec![p(DEG, 0), p(DEG, DEG)];
    let options = PolylineHausdorffOptions {
        max_segment_length_nm: Some(200 * KM),
        max_segment_angle_ndeg: None,
        ..Default::default()
    };
    let result = hausdorff_polyline(&[a], &[b], options).unwrap();
    assert!(result.witness().is_none());
    let one_degree = geodesic_distance(p(0, 0), p(DEG, 0)).unwrap();
    assert_eq!(result.distance(), one_degree);
}

#[test]
fn symmetric_is_max_of_both_directions() {
    // A short segment inside the span of a longer one: A -> B is small, B -> A large.
    let short = vec![vec![p(0, 0), p(0, DEG / 10)]];
    let long = vec![vec![p(0, 0), p(0, DEG)]];
    let base = PolylineHausdorffOptions {
        max_segment_length_nm: Some(5 * KM),
        max_segment_angle_ndeg: None,
        return_witness: true,
        ..Default::default()
    };
    let directed = PolylineHausdorffOptions { symmetric: false, ..base };
    let ab = hausdorff_polyline(&short, &long, directed).unwrap().distance().nanometers();
    let ba = hausdorff_polyline(&long, &short, directed).unwrap().distance().nanometers();
    let sym = hausdorff_polyline(&short, &long, base).unwrap();
    assert_eq!(sym.distance().nanometers(), ab.max(ba));
    assert!(ba > ab);
    // The reverse direction won, so the witness source lies on the long line.
    let w = sym.witness().unwrap();
    assert_eq!(w.source_coord(), p(0, DEG));
}

#[test]
fn directed_to_self_is_zero() {
    let samples = line_samples(&[vec![p(0, 0), p(DEG / 100, DEG / 100)]], 100);
    let naive = hausdorff_directed_polyline_naive(&samples, &samples);
    assert_eq!(naive.distance_nm, 0);
    let indexed = hausdorff_directed_polyline_indexed(&samples, &samples);
    assert_eq!(indexed.distance_nm, 0);
}

#[test]
fn forced_strategies_agree() {
    let a = line_samples(&[vec![p(0, 0), p(DEG / 20, DEG / 10)], vec![p(DEG / 5, 0), p(DEG / 5, DEG / 20)]], 150);
    let b = line_samples(&[vec![p(DEG / 50, 0), p(DEG / 50, DEG / 8)]], 150);
    assert!(a.len() >= 32 && b.len() >= 32);
    let naive = hausdorff_directed_polyline_naive(&a, &b);
    let indexed = hausdorff_directed_polyline_indexed(&a, &b);
    assert_eq!(naive, indexed);
    let naive_rev = hausdorff_directed_polyline_naive(&b, &a);
    let indexed_rev = hausdorff_directed_polyline_indexed(&b, &a);
    assert_eq!(naive_rev, indexed_rev);
}

#[test]
fn nearest_ties_prefer_smaller_target_index() {
    let origin = PolylineSample { point: p(0, 0), part_index: 0, vertex_index: 0 };
    let east = PolylineSample { point: p(0, DEG), part_index: 1, vertex_index: 4 };
    let west = PolylineSample { point: p(0, -DEG), part_index: 1, vertex_index: 2 };
    let w = hausdorff_directed_polyline_naive(&[origin], &[east, west]);
    assert_eq!(w.target, west);
    let w2 = hausdorff_directed_polyline_naive(&[origin], &[west, east]);
    assert_eq!(w2.target, west);
}

#[test]
fn worst_ties_prefer_smaller_source_index() {
    let target = PolylineSample { point: p(0, 0), part_index: 0, vertex_index: 0 };
    let north = PolylineSample { point: p(DEG, 0), part_index: 2, vertex_index: 1 };
    let south = PolylineSample { point: p(-DEG, 0), part_index: 0, vertex_index: 7 };
    let w = hausdorff_directed_polyline_naive(&[north, south], &[target]);
    assert_eq!(w.source, south);
    let w2 = hausdorff_directed_polyline_naive(&[south, north], &[target]);
    assert_eq!(w2.source, south);
}

#[test]
fn symmetric_ties_prefer_forward() {
    let a = PolylineSample { point: p(0, 0), part_index: 0, vertex_index: 0 };
    let b = PolylineSample { point: p(0, DEG), part_index: 0, vertex_index: 0 };
    let forward = hausdorff_directed_polyline_naive(&[a], &[b]);
    let reverse = hausdorff_directed_polyline_naive(&[b], &[a]);
    assert_eq!(forward.distance_nm, reverse.distance_nm);
    assert_eq!(pick_symmetric_witness(forward, reverse), forward);
    let mut farther = reverse;
    farther.distance_nm += 1;
    assert_eq!(pick_symmetric_witness(forward, farther), farther);
}

#[test]
fn strategy_selection_by_size() {
    assert!(should_use_naive(31, 1_000_000));
    assert!(should_use_naive(1_000_000, 31));
    assert!(should_use_naive(40, 100));
    assert!(!should_use_naive(40, 101));
    assert!(!should_use_naive(usize::MAX, usize::MAX));
    assert_eq!(choose_strategy(32, 32), HausdorffStrategy::Naive);
    assert_eq!(choose_strategy(64, 64), HausdorffStrategy::Indexed);
}

#[test]
fn directed_errors_on_empty_sets() {
    let a = [PolylineSample { point: p(0, 0), part_index: 0, vertex_index: 0 }];
    assert_eq!(hausdorff_directed_polyline(&a, &[]), Err(GeodistError::EmptyPointSet));
    assert_eq!(hausdorff_directed_polyline(&[], &a), Err(GeodistError::EmptyPointSet));
    assert!(hausdorff_directed_polyline(&a, &a).is_ok());
}

#[test]
fn enumerates_parts_and_vertices() {
    let samples = line_samples(&[vec![p(0, 0), p(0, 1_000_000)], vec![p(DEG, 0), p(DEG, 1_000_000)]], 500);
    let tags: Vec<(usize, usize)> = samples.iter().map(|s| (s.part_index, s.vertex_index)).collect();
    assert_eq!(tags, vec![(0, 0), (0, 1), (1, 0), (1, 1)]);
    assert_eq!(samples[2].point, p(DEG, 0));
}

#[test]
fn hausdorff_is_deterministic() {
    let a = vec![vec![p(0, 0), p(DEG / 10, DEG / 10)]];
    let b = vec![vec![p(DEG / 20, 0), p(DEG / 20, DEG / 5)]];
    let options = PolylineHausdorffOptions { return_witness: true, ..Default::default() };
    let first = hausdorff_polyline(&a, &b, options).unwrap();
    let second = hausdorff_polyline(&a, &b, options).unwrap();
    assert_eq!(first, second);
}

#[test]
fn hausdorff_propagates_densification_errors() {
    let good = vec![vec![p(0, 0), p(0, DEG)]];
    let degenerate = vec![vec![p(0, 0), p(0, 0)]];
    let options = PolylineHausdorffOptions::default();
    assert_eq!(
        hausdorff_polyline(&good, &degenerate, options),
        Err(GeodistError::DegeneratePolyline { part_index: Some(0) })
    );
    let no_knob = PolylineHausdorffOptions {
        max_segment_length_nm: None,
        max_segment_angle_ndeg: None,
        ..options
    };
    assert_eq!(
        hausdorff_polyline(&good, &good, no_knob),
        Err(GeodistError::MissingDensificationKnob)
    );
}

#[test]
fn indexed_walk_can_stop_early_near_the_pole() {
    // Planar proxy order near the pole disagrees with great-circle order: the
    // truly nearest candidate lies across the antimeridian and is reached last.
    let origin = PolylineSample { point: p(89 * DEG, 179 * DEG), part_index: 0, vertex_index: 0 };
    let south_1 = PolylineSample { point: p(88 * DEG, 179 * DEG), part_index: 0, vertex_index: 0 };
    let south_2 = PolylineSample { point: p(87 * DEG, 179 * DEG), part_index: 0, vertex_index: 1 };
    let across = PolylineSample { point: p(89 * DEG, -179 * DEG), part_index: 0, vertex_index: 2 };
    let candidates = [south_1, south_2, across];
    let naive = hausdorff_directed_polyline_naive(&[origin], &candidates);
    let indexed = hausdorff_directed_polyline_indexed(&[origin], &candidates);
    assert_eq!(naive.target, across);
    assert_eq!(indexed.target, south_1);
    assert!(indexed.distance_nm > naive.distance_nm);
}

#[test]
fn indexed_strategy_is_repeatable_and_symmetric_matches_directed_calls() {
    let a = vec![vec![p(0, 0), p(DEG / 20, DEG / 10)], vec![p(DEG / 5, 0), p(DEG / 5, DEG / 20)]];
    let b = vec![vec![p(DEG / 50, 0), p(DEG / 50, DEG / 8)]];
    let sym = PolylineHausdorffOptions {
        max_segment_length_nm: Some(150 * 1_000_000_000),
        max_segment_angle_ndeg: None,
        return_witness: true,
        ..Default::default()
    };
    let directed = PolylineHausdorffOptions { symmetric: false, ..sym };
    let first = hausdorff_polyline(&a, &b, sym).unwrap();
    let second = hausdorff_polyline(&a, &b, sym).unwrap();
    assert_eq!(first, second);
    let ab = hausdorff_polyline(&a, &b, directed).unwrap().distance().nanometers();
    let ba = hausdorff_polyline(&b, &a, directed).unwrap().distance().nanometers();
    assert_eq!(first.distance().nanometers(), ab.max(ba));
}
