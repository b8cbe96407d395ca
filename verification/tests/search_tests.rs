use tarantula::config::{Search as SearchConfig, Shapefile};
use tarantula::geom::Point;
use tarantula::normalize::RawRing;
use tarantula::polyset::{PolygonSet, RawRecord};
use tarantula::search::Search;

fn deg(x: f64) -> i64 {
    (x * 1e7).round() as i64
}

fn pt(lon: f64, lat: f64) -> Point {
    Point { lon: deg(lon), lat: deg(lat) }
}

fn config(districts: Vec<&str>) -> SearchConfig {
    SearchConfig {
        shapefile: Shapefile { path: "./data".to_string(), attributes: Vec::new() },
        districts: districts.iter().map(|s| s.to_string()).collect(),
        hierarchies: Vec::new(),
        district_par: Vec::new(),
        district_par_any: Vec::new(),
        debug: false,
        debug_name: "".to_string(),
    }
}

fn square_record(name: &str, lo: f64, hi: f64) -> RawRecord {
    RawRecord {
        name: name.to_string(),
        rings: vec![RawRing {
            outer: true,
            points: vec![pt(lo, lo), pt(hi, lo), pt(hi, hi), pt(lo, hi), pt(lo, lo)],
        }],
    }
}

fn square_set(district_idx: usize, district: &str, level: i32, name: &str, lo: f64, hi: f64)
    -> PolygonSet {
    PolygonSet::from_records(
        district_idx,
        &district.to_string(),
        level,
        &vec![square_record(name, lo, hi)],
    )
}

#[test]
fn test_end_to_end_scenario() {
    let mut engine = Search::new(config(vec!["41000"]));
    engine.add_hierarchy(square_set(0, "41000", 6, "region-a", 0.0, 10.0));

    let hits = engine.search(deg(5.0), deg(5.0));
    assert_eq!(hits.len(), 1);
    assert_eq!(hits[0].district, "41000");
    assert_eq!(hits[0].level, 6);
    assert_eq!(hits[0].name, "region-a");
    assert!(hits[0].lnglats.is_empty());

    let misses = engine.search(deg(50.0), deg(50.0));
    assert!(misses.is_empty());
}

#[test]
fn test_tier2_overlays_both_reported() {
    let mut engine = Search::new(config(vec!["41000"]));
    engine.add_hierarchy(square_set(0, "41000", 1, "base", 0.0, 10.0));
    engine.add_district_par(square_set(0, "41000", 2, "overlay-a", 0.0, 10.0));
    engine.add_district_par(square_set(0, "41000", 3, "overlay-b", 2.0, 8.0));

    let hits = engine.search(deg(5.0), deg(5.0));
    assert_eq!(hits.len(), 3);
    assert_eq!(hits[0].name, "base");
    assert_eq!(hits[1].name, "overlay-a");
    assert_eq!(hits[2].name, "overlay-b");
}

#[test]
fn test_tier2_miss_not_reported() {
    let mut engine = Search::new(config(vec!["41000"]));
    engine.add_hierarchy(square_set(0, "41000", 1, "base", 0.0, 10.0));
    engine.add_district_par(square_set(0, "41000", 2, "overlay-a", 0.0, 10.0));
    engine.add_district_par(square_set(0, "41000", 3, "overlay-b", 6.0, 8.0));

    let hits = engine.search(deg(1.0), deg(1.0));
    assert_eq!(hits.len(), 2);
    assert_eq!(hits[0].name, "base");
    assert_eq!(hits[1].name, "overlay-a");
}

#[test]
fn test_tier2_of_other_district_not_scanned() {
    let mut engine = Search::new(config(vec!["41000", "46000"]));
    engine.add_hierarchy(square_set(0, "41000", 1, "base", 0.0, 10.0));
    // Same area, but configured under the other district: a tier-1 hit in
    // district 0 must not pick it up.
    engine.add_district_par(square_set(1, "46000", 2, "elsewhere", 0.0, 10.0));

    let hits = engine.search(deg(5.0), deg(5.0));
    assert_eq!(hits.len(), 1);
    assert_eq!(hits[0].name, "base");
}

#[test]
fn test_tier3_exactly_one_match() {
    let mut engine = Search::new(config(vec!["41000"]));
    engine.add_hierarchy(square_set(0, "41000", 1, "base", 0.0, 10.0));
    engine.add_district_par_any(square_set(0, "41000", 4, "any-a", 0.0, 10.0));
    engine.add_district_par_any(square_set(0, "41000", 5, "any-b", 2.0, 8.0));

    // The point lies in both tier-3 sets; exactly one tier-3 match is
    // recorded, not two and not zero.
    let hits = engine.search(deg(5.0), deg(5.0));
    assert_eq!(hits.len(), 2);
    let tier3: Vec<_> = hits.iter().filter(|h| !h.lnglats.is_empty()).collect();
    assert_eq!(tier3.len(), 1);
    assert_eq!(tier3[0].name, "any-a");
    assert_eq!(
        tier3[0].lnglats,
        vec![pt(0.0, 0.0), pt(10.0, 0.0), pt(10.0, 10.0), pt(0.0, 10.0)]
    );
}

#[test]
fn test_tier3_zero_matches_is_normal() {
    let mut engine = Search::new(config(vec!["41000"]));
    engine.add_hierarchy(square_set(0, "41000", 1, "base", 0.0, 10.0));
    engine.add_district_par_any(square_set(0, "41000", 4, "any-a", 6.0, 8.0));

    let hits = engine.search(deg(1.0), deg(1.0));
    assert_eq!(hits.len(), 1);
    assert_eq!(hits[0].name, "base");
}

#[test]
fn test_ordering_law_stable_by_level() {
    // Synthetic index with matches at levels [3, 1, 2, 1]: the result is
    // sorted ascending and the two level-1 matches keep their recording
    // order.
    let mut engine = Search::new(config(vec!["41000"]));
    engine.add_hierarchy(square_set(0, "41000", 3, "n3", 0.0, 10.0));
    engine.add_hierarchy(square_set(0, "41000", 1, "n1-first", 0.0, 10.0));
    engine.add_hierarchy(square_set(0, "41000", 2, "n2", 0.0, 10.0));
    engine.add_hierarchy(square_set(0, "41000", 1, "n1-second", 0.0, 10.0));

    let hits = engine.search(deg(5.0), deg(5.0));
    let levels: Vec<i32> = hits.iter().map(|h| h.level).collect();
    assert_eq!(levels, vec![1, 1, 2, 3]);
    assert_eq!(hits[0].name, "n1-first");
    assert_eq!(hits[1].name, "n1-second");
    assert_eq!(hits[2].name, "n2");
    assert_eq!(hits[3].name, "n3");
}

#[test]
fn test_multiple_tier1_levels_all_match() {
    // Province and city boundaries covering the same point: each tier-1
    // set matches independently.
    let mut engine = Search::new(config(vec!["41000"]));
    engine.add_hierarchy(square_set(0, "41000", 1, "province", 0.0, 20.0));
    engine.add_hierarchy(square_set(0, "41000", 2, "city", 0.0, 10.0));

    let hits = engine.search(deg(5.0), deg(5.0));
    assert_eq!(hits.len(), 2);
    assert_eq!(hits[0].name, "province");
    assert_eq!(hits[1].name, "city");
}

#[test]
fn test_polygon_set_alignment() {
    let records = vec![
        square_record("kept", 0.0, 10.0),
        // Contributes nothing: its only ring is degenerate.
        RawRecord {
            name: "dropped".to_string(),
            rings: vec![RawRing { outer: true, points: vec![pt(0.0, 0.0), pt(1.0, 0.0)] }],
        },
        square_record("also-kept", 20.0, 30.0),
    ];
    let set = PolygonSet::from_records(0, &"41000".to_string(), 6, &records);
    assert_eq!(set.polygons.len(), set.infos.len());
    assert_eq!(set.len(), 2);
    assert_eq!(set.infos[0].name, "kept");
    assert_eq!(set.infos[1].name, "also-kept");
}

#[test]
fn test_containing_index_first_match() {
    let records = vec![
        square_record("a", 0.0, 10.0),
        square_record("b", 5.0, 15.0),
    ];
    let set = PolygonSet::from_records(0, &"41000".to_string(), 6, &records);
    // In both polygons: the first one wins.
    assert_eq!(set.containing_index(pt(7.0, 7.0)), Some(0));
    // Only in the second.
    assert_eq!(set.containing_index(pt(12.0, 12.0)), Some(1));
    assert_eq!(set.containing_index(pt(50.0, 50.0)), None);
}
