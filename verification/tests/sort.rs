use wildside::poi::{PointOfInterest, Tags};
use wildside::sort::sort_pois_by_id;

fn poi(id: u64, label: &str) -> PointOfInterest<u8> {
    let mut tags = Tags::new();
    tags.insert("name".to_string(), label.to_string());
    PointOfInterest::new(id, 0, tags)
}

#[test]
fn sorts_by_identifier_keeping_equal_identifiers_in_order() {
    let sorted = sort_pois_by_id(vec![poi(3, "a"), poi(1, "b"), poi(3, "c"), poi(2, "d"), poi(1, "e")]);
    let seen: Vec<(u64, String)> = sorted
        .iter()
        .map(|p| (p.id, p.tags.get("name").unwrap().clone()))
        .collect();
    assert_eq!(
        seen,
        vec![
            (1, "b".to_string()),
            (1, "e".to_string()),
            (2, "d".to_string()),
            (3, "a".to_string()),
            (3, "c".to_string()),
        ]
    );
}

#[test]
fn sorting_nothing_gives_nothing() {
    assert!(sort_pois_by_id::<u8>(Vec::new()).is_empty());
}
