use wildside::poi::{PointOfInterest, Tags, collect_tags, has_relevant_key, is_relevant_key};

fn pair(k: &str, v: &str) -> (String, String) {
    (k.to_string(), v.to_string())
}

#[test]
fn tags_insert_replaces_and_returns_previous() {
    let mut tags = Tags::new();
    assert!(tags.is_empty());
    assert_eq!(tags.insert("name".to_string(), "Museum".to_string()), None);
    assert_eq!(tags.insert("name".to_string(), "Gallery".to_string()), Some("Museum".to_string()));
    assert_eq!(tags.len(), 1);
    assert_eq!(tags.get("name"), Some(&"Gallery".to_string()));
    assert_eq!(tags.get("tourism"), None);
}

#[test]
fn collect_tags_keeps_the_last_value_of_a_key() {
    let tags = collect_tags(vec![pair("a", "1"), pair("b", "2"), pair("a", "3")]);
    assert_eq!(tags.len(), 2);
    assert_eq!(tags.get("a"), Some(&"3".to_string()));
    assert_eq!(tags.get("b"), Some(&"2".to_string()));
    assert_eq!(tags.entries().len(), 2);
}

#[test]
fn relevant_keys_are_historic_and_tourism() {
    assert!(is_relevant_key("historic"));
    assert!(is_relevant_key("tourism"));
    assert!(!is_relevant_key("name"));
    assert!(!is_relevant_key("Historic"));
    assert!(has_relevant_key(&vec![pair("name", "x"), pair("tourism", "museum")]));
    assert!(!has_relevant_key(&vec![pair("name", "x"), pair("amenity", "cafe")]));
    assert!(!has_relevant_key(&Vec::new()));
}

#[test]
fn point_of_interest_constructors() {
    let poi = PointOfInterest::with_empty_tags(3, (1.5f64, 2.5f64));
    assert_eq!(poi.id, 3);
    assert_eq!(poi.location, (1.5, 2.5));
    assert!(poi.tags.is_empty());
    let mut tags = Tags::new();
    tags.insert("wikidata".to_string(), "Q64".to_string());
    let poi = PointOfInterest::new(9, (0.0f64, 0.0f64), tags);
    assert_eq!(poi.tags.get("wikidata"), Some(&"Q64".to_string()));
}
