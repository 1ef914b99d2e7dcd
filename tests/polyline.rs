use geodist::{
    collapse_duplicates, densify_multiline, densify_polyline, segment_split_count,
    validate_polyline, BoundingBox, DensificationOptions, GeodistError, Point,
    VertexValidationError,
};

const DEG: i64 = 1_000_000_000;
const METER: u64 = 1_000_000_000;

fn p(lat: i64, lon: i64) -> Point {
    Point::new(lat, lon).unwrap()
}

#[test]
fn rejects_missing_knobs() {
    let options = DensificationOptions {
        max_segment_length_nm: None,
        max_segment_angle_ndeg: None,
        sample_cap: 10_000,
    };

    let vertices = vec![p(0, 0), p(0, DEG)];

    let result = densify_polyline(&vertices, options);
    assert!(matches!(result, Err(GeodistError::MissingDensificationKnob)));
}

#[test]
fn zero_knobs_count_as_missing() {
    let options = DensificationOptions {
        max_segment_length_nm: Some(0),
        max_segment_angle_ndeg: Some(0),
        sample_cap: 10_000,
    };
    let result = densify_polyline(&[p(0, 0), p(0, DEG)], options);
    assert_eq!(result, Err(GeodistError::MissingDensificationKnob));
}

#[test]
fn rejects_degenerate_parts_even_after_dedup() {
    let options = DensificationOptions::default();
    let vertices = vec![p(0, 0), p(0, 0)];

    let result = densify_polyline(&vertices, options);
    assert!(matches!(
        result,
        Err(GeodistError::DegeneratePolyline { part_index: None })
    ));
}

#[test]
fn densifies_to_expected_count() {
    // About 10 km along the equator; defaults give 100 m spacing.
    let start = p(0, 0);
    let end = p(0, 89_900_000);
    let vertices = vec![start, end];

    let samples = densify_polyline(&vertices, DensificationOptions::default()).unwrap();
    assert_eq!(samples.len(), 101);
    assert_eq!(samples.first().copied().unwrap(), start);
    let last = samples.last().copied().unwrap();
    assert_eq!(last.lat, end.lat);
    assert!((last.lon - end.lon).abs() < 10);
}

#[test]
fn densified_samples_are_evenly_spaced_on_equator() {
    let samples = densify_polyline(&[p(0, 0), p(0, 89_900_000)], DensificationOptions::default())
        .unwrap();
    for s in &samples {
        assert_eq!(s.lat, 0);
    }
    // The 50th of 100 equal arcs sits half-way.
    assert!((samples[50].lon - 44_950_000).abs() <= 1);
    for w in samples.windows(2) {
        assert!(w[0].lon < w[1].lon);
    }
}

#[test]
fn errors_when_sample_cap_exceeded_with_part_context() {
    let start = p(0, 0);
    let far_end = p(0, 60 * DEG); // ~6_672 km along the equator.
    let vertices = vec![start, far_end];

    let options = DensificationOptions {
        max_segment_length_nm: Some(100 * METER),
        max_segment_angle_ndeg: None,
        sample_cap: 50_000,
    };

    let result = densify_multiline(&[vertices], options);

    assert!(matches!(
        result,
        Err(GeodistError::SampleCapExceeded {
            part_index: Some(0),
            ..
        })
    ));
}

#[test]
fn sample_cap_reports_projected_count() {
    // 0.001 degree is about 111 m; 10 m spacing gives 12 arcs, 13 samples.
    let options = DensificationOptions {
        max_segment_length_nm: Some(10 * METER),
        max_segment_angle_ndeg: None,
        sample_cap: 12,
    };
    let result = densify_polyline(&[p(0, 0), p(0, 1_000_000)], options);
    assert_eq!(
        result,
        Err(GeodistError::SampleCapExceeded { expected: 13, cap: 12, part_index: None })
    );
    let ok = densify_polyline(&[p(0, 0), p(0, 1_000_000)], DensificationOptions { sample_cap: 13, ..options })
        .unwrap();
    assert_eq!(ok.len(), 13);
}

#[test]
fn cap_counts_across_parts() {
    let options = DensificationOptions {
        max_segment_length_nm: Some(500 * METER),
        max_segment_angle_ndeg: None,
        sample_cap: 3,
    };
    let part_a = vec![p(0, 0), p(0, 1_000_000)];
    let part_b = vec![p(DEG, 0), p(DEG, 1_000_000)];
    let result = densify_multiline(&[part_a, part_b], options);
    assert_eq!(
        result,
        Err(GeodistError::SampleCapExceeded { expected: 4, cap: 3, part_index: Some(1) })
    );
}

#[test]
fn flattens_multiline_offsets() {
    let part_a = vec![p(0, 0), p(0, 1_000_000)];
    let part_b = vec![p(DEG, 0), p(DEG, 1_000_000)];

    let options = DensificationOptions {
        max_segment_length_nm: Some(500 * METER),
        max_segment_angle_ndeg: None,
        sample_cap: 50_000,
    };

    let flattened = densify_multiline(&[part_a, part_b], options).unwrap();
    assert_eq!(flattened.part_offsets(), &[0, 2, 4]);
    assert_eq!(flattened.samples().len(), 4);
}

#[test]
fn clipped_multiline_preserves_offsets_and_empties_error() {
    let part_a = vec![p(0, 0), p(0, 1_000_000), p(0, 2_000_000)];
    let part_b = vec![p(10 * DEG, 0), p(10 * DEG, 1_000_000)];

    let options = DensificationOptions {
        max_segment_length_nm: Some(1_000 * METER),
        max_segment_angle_ndeg: None,
        sample_cap: 50_000,
    };
    let flattened = densify_multiline(&[part_a, part_b], options).unwrap();
    let bbox = BoundingBox::new(-DEG, DEG, -DEG, DEG).unwrap();
    let clipped = flattened.clip(&bbox).unwrap();

    assert_eq!(clipped.part_offsets(), &[0, 3, 3]);
    assert_eq!(clipped.samples().len(), 3);

    let empty_box = BoundingBox::new(-DEG, DEG, 50 * DEG, 60 * DEG).unwrap();
    let result = clipped.clip(&empty_box);
    assert!(matches!(result, Err(GeodistError::EmptyPointSet)));
}

#[test]
fn clipping_twice_with_same_box_changes_nothing() {
    let part_a = vec![p(0, 0), p(0, 2_000_000)];
    let part_b = vec![p(0, 3_000_000), p(0, 5_000_000)];
    let options = DensificationOptions {
        max_segment_length_nm: Some(50 * METER),
        max_segment_angle_ndeg: None,
        sample_cap: 50_000,
    };
    let flattened = densify_multiline(&[part_a, part_b], options).unwrap();
    let bbox = BoundingBox::new(-DEG, DEG, 1_000_000, 4_000_000).unwrap();
    let once = flattened.clip(&bbox).unwrap();
    let twice = once.clip(&bbox).unwrap();
    assert_eq!(once, twice);
    assert_eq!(once.part_offsets().len(), 3);
    assert!(once.samples().len() < flattened.samples().len());
}

#[test]
fn rejects_invalid_vertex_with_position() {
    let options = DensificationOptions::default();
    let good = vec![p(0, 0), p(0, 1_000_000)];
    let bad = vec![p(0, 0), Point { lat: 0, lon: 190 * DEG }];
    let result = densify_multiline(&[good, bad], options);
    assert_eq!(
        result,
        Err(GeodistError::InvalidVertex {
            part_index: Some(1),
            vertex_index: 1,
            error: VertexValidationError::Longitude(190 * DEG),
        })
    );
    let single = densify_polyline(&[Point { lat: -91 * DEG, lon: 0 }, p(0, 0)], options);
    assert_eq!(
        single,
        Err(GeodistError::InvalidVertex {
            part_index: None,
            vertex_index: 0,
            error: VertexValidationError::Latitude(-91 * DEG),
        })
    );
}

#[test]
fn collapses_consecutive_duplicates_only() {
    let a = p(0, 0);
    let b = p(0, 1);
    let deduped = collapse_duplicates(&[a, a, b, b, b, a]);
    assert_eq!(deduped, vec![a, b, a]);
    assert_eq!(collapse_duplicates(&[]), Vec::<Point>::new());
    assert_eq!(validate_polyline(&[a, a, b], Some(3)).unwrap(), vec![a, b]);
    assert_eq!(
        validate_polyline(&[a, a], Some(3)),
        Err(GeodistError::DegeneratePolyline { part_index: Some(3) })
    );
}

#[test]
fn split_count_is_least_meeting_both_bounds() {
    let both = DensificationOptions {
        max_segment_length_nm: Some(100),
        max_segment_angle_ndeg: Some(30),
        sample_cap: 10,
    };
    // ceil(250 / 100) = 3, ceil(100 / 30) = 4.
    assert_eq!(segment_split_count(250, 100, &both), 4);
    // ceil(1000 / 100) = 10 wins over ceil(30 / 30) = 1.
    assert_eq!(segment_split_count(1000, 30, &both), 10);
    // Exact multiples need no extra split.
    assert_eq!(segment_split_count(300, 90, &both), 3);
    // Never fewer than one.
    assert_eq!(segment_split_count(1, 1, &both), 1);
    let length_only = DensificationOptions { max_segment_angle_ndeg: None, ..both };
    assert_eq!(segment_split_count(250, 100_000, &length_only), 3);
}

#[test]
fn densified_polyline_starts_and_ends_at_vertices() {
    let vertices = vec![p(0, 0), p(0, 0), p(DEG / 100, DEG / 100), p(DEG / 50, 0)];
    let options = DensificationOptions {
        max_segment_length_nm: Some(300 * METER),
        max_segment_angle_ndeg: None,
        sample_cap: 50_000,
    };
    let first = densify_polyline(&vertices, options).unwrap();
    let second = densify_polyline(&vertices, options).unwrap();
    assert_eq!(first, second);
    assert_eq!(first[0], vertices[0]);
    assert_eq!(*first.last().unwrap(), vertices[3]);
    assert!(first.len() <= options.sample_cap);
}

#[test]
fn rejects_inverted_bounding_box() {
    assert_eq!(
        BoundingBox::new(DEG, -DEG, 0, DEG),
        Err(GeodistError::InvalidBoundingBox { min_lat: DEG, max_lat: -DEG, min_lon: 0, max_lon: DEG })
    );
    assert!(BoundingBox::new(-DEG, DEG, 0, 200 * DEG).is_err());
    let b = BoundingBox::new(-DEG, DEG, -DEG, DEG).unwrap();
    assert!(b.contains(&p(DEG, -DEG)));
    assert!(!b.contains(&p(DEG + 1, 0)));
}

#[test]
fn densified_polyline_ends_at_a_nearby_last_vertex() {
    let vertices = vec![p(0, 0), p(0, DEG), p(1, DEG)];
    let options = DensificationOptions {
        max_segment_length_nm: Some(200_000 * METER),
        max_segment_angle_ndeg: None,
        sample_cap: 50_000,
    };
    let samples = densify_polyline(&vertices, options).unwrap();
    assert_eq!(samples, vec![p(0, 0), p(0, DEG), p(1, DEG)]);
    let flattened = densify_multiline(&[vertices.clone()], options).unwrap();
    assert_eq!(flattened.samples(), &[p(0, 0), p(0, DEG), p(1, DEG)]);
}

#[test]
fn segment_between_pole_longitudes_is_skipped() {
    // Distinct coordinates naming the same place: the segment measures zero,
    // so it adds no sample and no split.
    let options = DensificationOptions {
        max_segment_length_nm: Some(200_000 * METER),
        max_segment_angle_ndeg: None,
        sample_cap: 2,
    };
    let vertices = vec![p(89 * DEG, 0), p(90 * DEG, 0), p(90 * DEG, 10 * DEG)];
    let samples = densify_polyline(&vertices, options).unwrap();
    assert_eq!(samples, vec![p(89 * DEG, 0), p(90 * DEG, 0)]);
}

#[test]
fn all_zero_length_segments_leave_only_the_first_vertex() {
    let vertices = vec![p(90 * DEG, 0), p(90 * DEG, 10 * DEG), p(90 * DEG, 20 * DEG)];
    let samples = densify_polyline(&vertices, DensificationOptions::default()).unwrap();
    assert_eq!(samples, vec![p(90 * DEG, 0)]);
    let flattened = densify_multiline(&[vertices], DensificationOptions::default()).unwrap();
    assert_eq!(flattened.part_offsets(), &[0, 1]);
}
