use tarantula::config::{Search as SearchConfig, Shapefile};
use tarantula::geom::Point;
use tarantula::normalize::RawRing;
use tarantula::polyset::{PolygonSet, RawRecord};
use tarantula::registry::{Registry, SearchError};
use tarantula::search::Search;

fn deg(x: f64) -> i64 {
    (x * 1e7).round() as i64
}

fn pt(lon: f64, lat: f64) -> Point {
    Point { lon: deg(lon), lat: deg(lat) }
}

fn built_engine() -> Search {
    let cfg = SearchConfig {
        shapefile: Shapefile { path: "./data".to_string(), attributes: Vec::new() },
        districts: vec!["41000".to_string()],
        hierarchies: Vec::new(),
        district_par: Vec::new(),
        district_par_any: Vec::new(),
        debug: false,
        debug_name: "".to_string(),
    };
    let mut engine = Search::new(cfg);
    let record = RawRecord {
        name: "region-a".to_string(),
        rings: vec![RawRing {
            outer: true,
            points: vec![pt(0.0, 0.0), pt(10.0, 0.0), pt(10.0, 10.0), pt(0.0, 10.0), pt(0.0, 0.0)],
        }],
    };
    engine.add_hierarchy(PolygonSet::from_records(0, &"41000".to_string(), 6, &vec![record]));
    engine
}

#[test]
fn test_not_ready_before_publication() {
    let registry = Registry::new();
    assert!(!registry.is_ready());
    // Every input fails deterministically with the not-ready condition.
    assert!(matches!(registry.search(deg(5.0), deg(5.0)), Err(SearchError::NotReady)));
    assert!(matches!(registry.search(0, 0), Err(SearchError::NotReady)));
    assert!(matches!(registry.search(i64::MAX, i64::MIN), Err(SearchError::NotReady)));
}

#[test]
fn test_publish_then_search() {
    let mut registry = Registry::new();
    let engine = built_engine();
    engine.warm_up();
    registry.publish(engine);
    assert!(registry.is_ready());

    let hits = registry.search(deg(5.0), deg(5.0)).unwrap();
    assert_eq!(hits.len(), 1);
    assert_eq!(hits[0].district, "41000");
    assert_eq!(hits[0].name, "region-a");

    let misses = registry.search(deg(50.0), deg(50.0)).unwrap();
    assert!(misses.is_empty());
}

#[test]
fn test_query_out_of_range_is_empty_not_error() {
    let mut registry = Registry::new();
    registry.publish(built_engine());
    // Far outside the geographic domain: a normal empty result, never an
    // error.
    assert_eq!(registry.search(i64::MAX, i64::MAX).unwrap().len(), 0);
    assert_eq!(registry.search(i64::MIN, 0).unwrap().len(), 0);
}
