use tarantula::builder::{BuildError, plan_optional_tasks, plan_required_tasks};
use tarantula::config::{Attribute, AttributeEntry, attributes_all_empty, find_attribute};

fn strings(v: Vec<&str>) -> Vec<String> {
    v.iter().map(|s| s.to_string()).collect()
}

fn attrs() -> Vec<AttributeEntry> {
    vec![
        AttributeEntry {
            name: "city".to_string(),
            attribute: Attribute { level: 2, names: strings(vec!["A3", "A4", "A5"]) },
        },
        AttributeEntry {
            name: "village".to_string(),
            attribute: Attribute { level: 6, names: strings(vec!["B1", "B2"]) },
        },
    ]
}

#[test]
fn test_find_attribute() {
    let attrs = attrs();
    let a = find_attribute(&attrs, &"village".to_string()).unwrap();
    assert_eq!(a.level, 6);
    assert_eq!(a.names, strings(vec!["B1", "B2"]));
    assert!(find_attribute(&attrs, &"county".to_string()).is_none());
}

#[test]
fn test_plan_required_cross_product_in_order() {
    let districts = strings(vec!["41000", "46000"]);
    let names = strings(vec!["city", "village"]);
    let tasks = plan_required_tasks(&districts, &names, &attrs()).unwrap();
    assert_eq!(tasks.len(), 4);

    assert_eq!(tasks[0].district_idx, 0);
    assert_eq!(tasks[0].district, "41000");
    assert_eq!(tasks[0].name, "city");
    assert_eq!(tasks[0].level, 2);
    assert_eq!(tasks[0].attr_names, strings(vec!["A3", "A4", "A5"]));

    assert_eq!(tasks[1].district, "41000");
    assert_eq!(tasks[1].name, "village");
    assert_eq!(tasks[1].level, 6);

    assert_eq!(tasks[2].district_idx, 1);
    assert_eq!(tasks[2].district, "46000");
    assert_eq!(tasks[2].name, "city");

    assert_eq!(tasks[3].district, "46000");
    assert_eq!(tasks[3].name, "village");
}

#[test]
fn test_plan_required_missing_attribute_is_fatal() {
    let districts = strings(vec!["41000"]);
    let names = strings(vec!["city", "county", "village"]);
    let err = plan_required_tasks(&districts, &names, &attrs()).unwrap_err();
    let BuildError::MissingAttribute(name) = err;
    assert_eq!(name, "county");
}

#[test]
fn test_plan_required_no_districts_is_empty() {
    let districts: Vec<String> = Vec::new();
    let names = strings(vec!["county"]);
    let tasks = plan_required_tasks(&districts, &names, &attrs()).unwrap();
    assert!(tasks.is_empty());
}

#[test]
fn test_attributes_all_empty() {
    assert!(attributes_all_empty(&strings(vec!["", "", ""])));
    assert!(attributes_all_empty(&Vec::new()));
    assert!(!attributes_all_empty(&strings(vec!["", "name", ""])));
}

#[test]
fn test_plan_optional_skips_missing_attribute() {
    let districts = strings(vec!["41000", "46000"]);
    let names = strings(vec!["county", "village"]);
    let tasks = plan_optional_tasks(&districts, &names, &attrs());
    assert_eq!(tasks.len(), 2);
    assert_eq!(tasks[0].district, "41000");
    assert_eq!(tasks[0].name, "village");
    assert_eq!(tasks[1].district, "46000");
    assert_eq!(tasks[1].name, "village");
}
