use tarantula::geom::{Point, Polygon, Ring, RingStatus, is_same_lnglat};

fn deg(x: f64) -> i64 {
    (x * 1e7).round() as i64
}

fn pt(lon: f64, lat: f64) -> Point {
    Point { lon: deg(lon), lat: deg(lat) }
}

fn square(lo: f64, hi: f64) -> Ring {
    let (status, ring) = Ring::init(
        vec![pt(lo, lo), pt(hi, lo), pt(hi, hi), pt(lo, hi)],
        true,
    );
    assert_eq!(status, RingStatus::Accepted);
    ring.unwrap()
}

#[test]
fn test_same_lnglat_tolerance() {
    let a = Point { lon: 0, lat: 0 };
    assert!(is_same_lnglat(a, Point { lon: 1, lat: 1 }));
    assert!(is_same_lnglat(a, Point { lon: -1, lat: 0 }));
    assert!(!is_same_lnglat(a, Point { lon: 2, lat: 0 }));
    assert!(!is_same_lnglat(a, Point { lon: 1, lat: -2 }));
}

#[test]
fn test_ring_init_statuses() {
    let (status, ring) = Ring::init(vec![pt(0.0, 0.0), pt(1.0, 0.0)], true);
    assert_eq!(status, RingStatus::AnomalousTooFewPoints);
    assert!(ring.is_none());

    let (status, ring) = Ring::init(
        vec![pt(200.0, 0.0), pt(210.0, 0.0), pt(210.0, 10.0)],
        true,
    );
    assert_eq!(status, RingStatus::IgnoredOutOfRange);
    assert!(ring.is_none());

    let (status, ring) = Ring::init(vec![pt(0.0, 0.0), pt(1.0, 0.0), pt(1.0, 1.0)], false);
    assert_eq!(status, RingStatus::Accepted);
    let ring = ring.unwrap();
    assert!(!ring.outer);
    assert_eq!(ring.points.len(), 3);
}

#[test]
fn test_point_in_square() {
    let mut polygon = Polygon::new();
    polygon.add(square(0.0, 10.0));
    assert!(polygon.contains(pt(5.0, 5.0)));
    assert!(!polygon.contains(pt(50.0, 50.0)));
    assert!(!polygon.contains(pt(-5.0, 5.0)));
    assert!(!polygon.contains(pt(5.0, 15.0)));
}

#[test]
fn test_point_in_polygon_with_hole() {
    // Outer shell [0,10] with an inner hole [4,6]: the even-odd rule puts
    // a point of the hole outside the polygon.
    let mut polygon = Polygon::new();
    polygon.add(square(0.0, 10.0));
    let (status, hole) = Ring::init(
        vec![pt(4.0, 4.0), pt(6.0, 4.0), pt(6.0, 6.0), pt(4.0, 6.0)],
        false,
    );
    assert_eq!(status, RingStatus::Accepted);
    polygon.add(hole.unwrap());
    assert!(polygon.contains(pt(2.0, 2.0)));
    assert!(!polygon.contains(pt(5.0, 5.0)));
    assert!(!polygon.contains(pt(20.0, 5.0)));
}

#[test]
fn test_outer_vertices() {
    let mut polygon = Polygon::new();
    let (status, hole) = Ring::init(
        vec![pt(4.0, 4.0), pt(6.0, 4.0), pt(6.0, 6.0), pt(4.0, 6.0)],
        false,
    );
    assert_eq!(status, RingStatus::Accepted);
    polygon.add(hole.unwrap());
    polygon.add(square(0.0, 10.0));
    let verts = polygon.outer_vertices();
    // The first outer-tagged ring, not the first ring.
    assert_eq!(verts, vec![pt(0.0, 0.0), pt(10.0, 0.0), pt(10.0, 10.0), pt(0.0, 10.0)]);

    let mut no_outer = Polygon::new();
    let (status, hole) = Ring::init(
        vec![pt(4.0, 4.0), pt(6.0, 4.0), pt(6.0, 6.0), pt(4.0, 6.0)],
        false,
    );
    assert_eq!(status, RingStatus::Accepted);
    no_outer.add(hole.unwrap());
    assert_eq!(no_outer.outer_vertices(), Vec::<Point>::new());
}
