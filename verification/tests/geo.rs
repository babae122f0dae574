use polly::utils::geo::{
    bounding_box, calculate_metrics, closest_point_on_polyline, find_nearest_coord_index,
    BoundingBox, Coordinate, DISTANCE_CEILING, LAT_LIMIT, LON_LIMIT,
};

fn key(metres: f64) -> u64 {
    metres.to_bits()
}

fn point(lon: i64, lat: i64) -> Coordinate {
    Coordinate { lon, lat }
}

#[test]
fn nearest_of_empty_line_is_none() {
    assert_eq!(find_nearest_coord_index(&vec![]), None);
}

#[test]
fn nearest_picks_smallest_distance() {
    let keys = vec![key(12.5), key(3.25), key(40.0), key(3.5)];
    assert_eq!(find_nearest_coord_index(&keys), Some(1));
}

#[test]
fn nearest_tie_goes_to_first() {
    let keys = vec![key(9.0), key(2.0), key(2.0), key(7.0), key(2.0)];
    assert_eq!(find_nearest_coord_index(&keys), Some(1));
}

#[test]
fn nearest_of_single_vertex() {
    assert_eq!(find_nearest_coord_index(&vec![key(0.0)]), Some(0));
    assert_eq!(find_nearest_coord_index(&vec![key(1.0e7)]), Some(0));
}

#[test]
fn nearest_ignores_keys_at_or_above_ceiling() {
    let keys = vec![key(f64::INFINITY), key(f64::MAX), key(5.0), key(f64::NAN)];
    assert_eq!(find_nearest_coord_index(&keys), Some(2));
}

#[test]
fn nearest_falls_back_to_first_when_nothing_is_below_ceiling() {
    let keys = vec![key(f64::INFINITY), key(f64::MAX), u64::MAX];
    assert_eq!(find_nearest_coord_index(&keys), Some(0));
}

#[test]
fn ceiling_is_the_key_of_the_largest_finite_distance() {
    assert_eq!(DISTANCE_CEILING, f64::MAX.to_bits());
}

#[test]
fn distance_keys_order_as_distances() {
    let samples = [0.0, 1.0e-9, 0.5, 1.0, 89.999, 90.0, 90.1, 1234.5, 6.4e6, f64::MAX];
    for i in 0..samples.len() {
        for j in 0..samples.len() {
            assert_eq!(samples[i] < samples[j], key(samples[i]) < key(samples[j]));
        }
    }
}

#[test]
fn closest_of_no_segment_is_none() {
    assert_eq!(closest_point_on_polyline(&vec![]), None);
}

#[test]
fn closest_of_only_degenerate_segments_is_none() {
    assert_eq!(closest_point_on_polyline(&vec![None, None, None]), None);
}

#[test]
fn closest_picks_smallest_candidate() {
    let c = vec![Some(key(30.0)), None, Some(key(4.0)), Some(key(17.0))];
    assert_eq!(closest_point_on_polyline(&c), Some(2));
}

#[test]
fn closest_tie_goes_to_first() {
    let c = vec![None, Some(key(4.0)), Some(key(4.0)), Some(key(1.0)), Some(key(1.0))];
    assert_eq!(closest_point_on_polyline(&c), Some(3));
}

#[test]
fn closest_takes_first_candidate_whatever_its_distance() {
    let c = vec![None, Some(key(f64::INFINITY)), None];
    assert_eq!(closest_point_on_polyline(&c), Some(1));
}

#[test]
fn bounding_box_of_empty_geometry_is_inverted() {
    let b = bounding_box(&vec![]);
    assert_eq!(
        b,
        BoundingBox {
            min_lon: 180_000_000,
            min_lat: 90_000_000,
            max_lon: -180_000_000,
            max_lat: -90_000_000,
        }
    );
    assert_eq!(LON_LIMIT, 180_000_000);
    assert_eq!(LAT_LIMIT, 90_000_000);
}

#[test]
fn bounding_box_of_single_point_is_that_point() {
    let b = bounding_box(&vec![point(127_945_321, 37_341_877)]);
    assert_eq!(
        b,
        BoundingBox {
            min_lon: 127_945_321,
            min_lat: 37_341_877,
            max_lon: 127_945_321,
            max_lat: 37_341_877,
        }
    );
}

#[test]
fn bounding_box_covers_all_points() {
    let coords = vec![
        point(127_900_000, 37_300_000),
        point(127_950_000, 37_280_000),
        point(127_870_000, 37_350_000),
        point(127_910_000, 37_310_000),
    ];
    let b = bounding_box(&coords);
    assert_eq!(
        b,
        BoundingBox {
            min_lon: 127_870_000,
            min_lat: 37_280_000,
            max_lon: 127_950_000,
            max_lat: 37_350_000,
        }
    );
}

#[test]
fn bounding_box_with_negative_coordinates() {
    let coords = vec![point(-73_985_000, -33_450_000), point(-74_100_000, -33_400_000)];
    let b = bounding_box(&coords);
    assert_eq!(
        b,
        BoundingBox {
            min_lon: -74_100_000,
            min_lat: -33_450_000,
            max_lon: -73_985_000,
            max_lat: -33_400_000,
        }
    );
}

#[test]
fn bounding_box_never_narrows_past_the_inverted_box() {
    let b = bounding_box(&vec![point(200_000_000, 95_000_000)]);
    assert_eq!(
        b,
        BoundingBox {
            min_lon: 180_000_000,
            min_lat: 90_000_000,
            max_lon: 200_000_000,
            max_lat: 95_000_000,
        }
    );
}

#[test]
fn metrics_of_empty_and_single_point_geometry() {
    let inverted = BoundingBox {
        min_lon: 180_000_000,
        min_lat: 90_000_000,
        max_lon: -180_000_000,
        max_lat: -90_000_000,
    };
    assert_eq!(calculate_metrics(&vec![], 0), (inverted, 0));
    assert_eq!(calculate_metrics(&vec![], 4_321), (inverted, 0));
    let p = point(127_945_321, 37_341_877);
    let at_p = BoundingBox {
        min_lon: 127_945_321,
        min_lat: 37_341_877,
        max_lon: 127_945_321,
        max_lat: 37_341_877,
    };
    assert_eq!(calculate_metrics(&vec![p], 0), (at_p, 0));
    assert_eq!(calculate_metrics(&vec![p], 99), (at_p, 0));
}

#[test]
fn metrics_of_a_line_keep_the_measured_length() {
    let coords = vec![point(10, 20), point(30, 5)];
    assert_eq!(
        calculate_metrics(&coords, 12_345),
        (BoundingBox { min_lon: 10, min_lat: 5, max_lon: 30, max_lat: 20 }, 12_345)
    );
    let coords = vec![point(1, 1), point(2, 2), point(3, 3)];
    assert_eq!(calculate_metrics(&coords, 0).1, 0);
    assert_eq!(calculate_metrics(&coords, u64::MAX).1, u64::MAX);
}

fn quantize(lon: f64, lat: f64) -> Coordinate {
    Coordinate { lon: (lon * 1_000_000.0).round() as i64, lat: (lat * 1_000_000.0).round() as i64 }
}

fn degrees(c: Coordinate) -> (f64, f64) {
    (c.lon as f64 / 1_000_000.0, c.lat as f64 / 1_000_000.0)
}

#[test]
fn quantizing_a_quantized_coordinate_changes_nothing() {
    let samples = [
        (127.9453217, 37.3418769),
        (127.0000004999, 37.9999995),
        (-73.98513, -33.4489),
        (0.0, 0.0),
        (180.0, 90.0),
        (-180.0, -90.0),
        (126.99999949, 35.00000051),
    ];
    for (lon, lat) in samples {
        let once = quantize(lon, lat);
        let (qlon, qlat) = degrees(once);
        assert_eq!(quantize(qlon, qlat), once);
        assert_eq!(bounding_box(&vec![once]), bounding_box(&vec![quantize(qlon, qlat)]));
    }
    assert_eq!(quantize(127.9453217, 37.3418769), point(127_945_322, 37_341_877));
}
