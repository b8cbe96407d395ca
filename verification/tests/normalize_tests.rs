use tarantula::geom::Point;
use tarantula::normalize::{RawRing, load_polygon, normalize_ring};

/// One degree in fixed-point units.
fn deg(x: f64) -> i64 {
    (x * 1e7).round() as i64
}

fn pt(lon: f64, lat: f64) -> Point {
    Point { lon: deg(lon), lat: deg(lat) }
}

#[test]
fn test_spike_removal_scenario() {
    // A back-and-forth at (1,0): the second (1,0) matches the point two
    // back, so it is rejected and the preceding (2,0) is removed. The
    // source format closes the ring by repeating the first point, which
    // is always excluded.
    let raw = vec![
        pt(0.0, 0.0),
        pt(1.0, 0.0),
        pt(2.0, 0.0),
        pt(1.0, 0.0),
        pt(3.0, 0.0),
        pt(3.0, 3.0),
        pt(0.0, 3.0),
        pt(0.0, 0.0),
    ];
    let cleaned = normalize_ring(&raw);
    let expected = vec![pt(0.0, 0.0), pt(1.0, 0.0), pt(3.0, 0.0), pt(3.0, 3.0), pt(0.0, 3.0)];
    assert_eq!(cleaned, expected);
}

#[test]
fn test_last_raw_point_always_excluded() {
    let raw = vec![pt(0.0, 0.0), pt(10.0, 0.0), pt(10.0, 10.0), pt(0.0, 10.0), pt(0.0, 0.0)];
    let cleaned = normalize_ring(&raw);
    assert_eq!(cleaned, vec![pt(0.0, 0.0), pt(10.0, 0.0), pt(10.0, 10.0), pt(0.0, 10.0)]);
}

#[test]
fn test_adjacent_duplicate_dropped() {
    // The second point differs by one unit on each axis: within the
    // same-location tolerance of the previous point, so dropped.
    let raw = vec![
        pt(20.0, 20.0),
        Point { lon: 200_000_001, lat: 200_000_001 },
        pt(30.0, 20.0),
        pt(30.0, 30.0),
        pt(20.0, 30.0),
        pt(20.0, 20.0),
    ];
    let cleaned = normalize_ring(&raw);
    assert_eq!(cleaned, vec![pt(20.0, 20.0), pt(30.0, 20.0), pt(30.0, 30.0), pt(20.0, 30.0)]);
}

#[test]
fn test_repeat_of_first_point_dropped() {
    let raw = vec![
        pt(0.0, 0.0),
        pt(5.0, 0.0),
        pt(10.0, 0.0),
        Point { lon: 1, lat: 0 },
        pt(10.0, 10.0),
        pt(0.0, 10.0),
        pt(0.0, 0.0),
    ];
    // The fourth point is within tolerance of the first: rejected.
    let cleaned = normalize_ring(&raw);
    assert_eq!(
        cleaned,
        vec![pt(0.0, 0.0), pt(5.0, 0.0), pt(10.0, 0.0), pt(10.0, 10.0), pt(0.0, 10.0)]
    );
}

#[test]
fn test_whole_ring_duplicate_filter() {
    // (5,0) reappears non-adjacently (within one unit): the whole-ring
    // filter rejects it even though it is far from the previous point,
    // the first point, and the point two back.
    let raw = vec![
        pt(0.0, 0.0),
        pt(5.0, 0.0),
        pt(9.0, 0.0),
        pt(9.0, 9.0),
        Point { lon: deg(5.0), lat: 1 },
        pt(0.0, 9.0),
        pt(0.0, 0.0),
    ];
    let cleaned = normalize_ring(&raw);
    assert_eq!(
        cleaned,
        vec![pt(0.0, 0.0), pt(5.0, 0.0), pt(9.0, 0.0), pt(9.0, 9.0), pt(0.0, 9.0)]
    );
}

#[test]
fn test_no_two_surviving_points_within_tolerance() {
    let raw = vec![
        pt(0.0, 0.0),
        pt(1.0, 0.0),
        pt(2.0, 0.0),
        pt(1.0, 0.0),
        pt(3.0, 0.0),
        pt(3.0, 3.0),
        pt(0.0, 3.0),
        pt(0.0, 0.0),
    ];
    let cleaned = normalize_ring(&raw);
    assert!(cleaned.len() >= 3);
    for i in 0..cleaned.len() {
        for j in 0..cleaned.len() {
            if i != j {
                let a = cleaned[i];
                let b = cleaned[j];
                let close = (a.lon - b.lon).abs() <= 1 && (a.lat - b.lat).abs() <= 1;
                assert!(!close, "points {} and {} too close", i, j);
            }
        }
    }
}

#[test]
fn test_short_ring_dropped_silently() {
    // Two distinct points survive: fewer than three, so the ring is
    // dropped and the record yields no polygon ring.
    let rings = vec![RawRing {
        outer: true,
        points: vec![pt(0.0, 0.0), pt(1.0, 0.0), pt(0.0, 0.0)],
    }];
    let polygon = load_polygon(&rings);
    assert_eq!(polygon.rings.len(), 0);
}

#[test]
fn test_load_polygon_keeps_valid_rings_only() {
    let valid = RawRing {
        outer: true,
        points: vec![pt(0.0, 0.0), pt(10.0, 0.0), pt(10.0, 10.0), pt(0.0, 10.0), pt(0.0, 0.0)],
    };
    let degenerate = RawRing { outer: false, points: vec![pt(1.0, 1.0), pt(2.0, 2.0)] };
    // Longitude beyond 180 degrees: rejected by the loop constructor with
    // the ignorable status, dropped silently.
    let out_of_range = RawRing {
        outer: true,
        points: vec![pt(200.0, 0.0), pt(210.0, 0.0), pt(210.0, 10.0), pt(200.0, 10.0)],
    };
    let polygon = load_polygon(&vec![valid, degenerate, out_of_range]);
    assert_eq!(polygon.rings.len(), 1);
    assert!(polygon.rings[0].outer);
    assert_eq!(polygon.rings[0].points.len(), 4);
}
