use wildside::etl::{
    EntityClaims, PoiEntityLinks, RawClaim, RawDataValue, RawEntity, RawEntityId, RawSnak,
    RawSnakType, is_structural_line, normalise_wikidata_id, preprocess_json_line,
    process_entity_claims,
};
use wildside::poi::{PointOfInterest, Tags};

fn poi_with_wikidata(id: u64, value: &str) -> PointOfInterest<(f64, f64)> {
    let mut tags = Tags::new();
    tags.insert("wikidata".to_string(), value.to_string());
    PointOfInterest::new(id, (13.404954, 52.520008), tags)
}

fn value_claim(target: &str) -> RawClaim {
    RawClaim {
        main_snak: RawSnak {
            snak_type: RawSnakType::Value,
            data_value: Some(RawDataValue::Entity { value: RawEntityId { id: target.to_string() } }),
        },
    }
}

fn entity(id: &str, heritage: Vec<RawClaim>) -> RawEntity {
    RawEntity { id: id.to_string(), claims: vec![("P1435".to_string(), heritage)] }
}

#[test]
fn builds_links_from_pois() {
    let poi = poi_with_wikidata(7, "Q64");
    let links = PoiEntityLinks::from_pois(&vec![poi_with_wikidata(7, "Q64"), poi]);
    assert!(links.contains("Q64"));
    assert_eq!(links.linked_poi_ids("Q64"), Some(&[7][..]));
}

#[test]
fn ignores_invalid_wikidata_tags() {
    let links = PoiEntityLinks::from_pois(&vec![poi_with_wikidata(9, "not-an-id")]);
    assert!(links.is_empty());
    assert!(!links.contains("not-an-id"));
    assert_eq!(links.linked_poi_ids("Q1"), None);
}

#[test]
fn links_are_sorted_and_deduplicated_per_entity() {
    let pois = vec![
        poi_with_wikidata(30, "Q64"),
        poi_with_wikidata(10, "https://www.wikidata.org/wiki/Q64"),
        poi_with_wikidata(20, "q64"),
        poi_with_wikidata(10, "Q64"),
        poi_with_wikidata(5, "Q1"),
    ];
    let links = PoiEntityLinks::from_pois(&pois);
    assert_eq!(links.linked_poi_ids("Q64"), Some(&[10, 20, 30][..]));
    assert_eq!(links.linked_poi_ids("Q1"), Some(&[5][..]));
}

#[test]
fn normalises_http_urls() {
    assert_eq!(normalise_wikidata_id("https://www.wikidata.org/wiki/Q9259"), Some("Q9259".to_string()));
}

#[test]
fn normalises_identifier_forms() {
    assert_eq!(normalise_wikidata_id("Q64"), Some("Q64".to_string()));
    assert_eq!(normalise_wikidata_id("  q7  "), Some("Q7".to_string()));
    assert_eq!(normalise_wikidata_id("wd:Q42"), Some("Q42".to_string()));
    assert_eq!(normalise_wikidata_id("http://www.wikidata.org/entity/Q5#Q9"), Some("Q9".to_string()));
    assert_eq!(normalise_wikidata_id(""), None);
    assert_eq!(normalise_wikidata_id("   "), None);
    assert_eq!(normalise_wikidata_id("Q"), None);
    assert_eq!(normalise_wikidata_id("Q12a"), None);
    assert_eq!(normalise_wikidata_id("P1435"), None);
    assert_eq!(normalise_wikidata_id("https://example.org/"), None);
}

#[test]
fn normalising_a_normalised_identifier_gives_it_back() {
    for input in ["https://www.wikidata.org/wiki/q0042", " wd:Q9 ", "Q1"] {
        let once = normalise_wikidata_id(input).unwrap();
        assert_eq!(normalise_wikidata_id(&once), Some(once.clone()));
    }
}

#[test]
fn preprocesses_dump_lines() {
    assert_eq!(preprocess_json_line("["), None);
    assert_eq!(preprocess_json_line(" ] "), None);
    assert_eq!(preprocess_json_line(""), None);
    assert_eq!(preprocess_json_line("  {\"id\":\"Q1\"},  "), Some("{\"id\":\"Q1\"}"));
    assert_eq!(preprocess_json_line(",{\"id\":\"Q2\"}"), Some("{\"id\":\"Q2\"}"));
    assert_eq!(preprocess_json_line(" , ] , "), None);
    assert!(is_structural_line("["));
    assert!(!is_structural_line(" [ "));
    assert!(is_structural_line(""));
    assert!(!is_structural_line("{}"));
}

#[test]
fn extract_claims_for_linked_entity() {
    let links = PoiEntityLinks::from_pois(&vec![poi_with_wikidata(7, "Q64")]);
    let claims = process_entity_claims(&entity("Q64", vec![value_claim("Q9259")]), &links);
    assert_eq!(claims, Some(EntityClaims::new("Q64".into(), vec![7], vec!["Q9259".into()])));
}

#[test]
fn skips_entities_without_links() {
    let links = PoiEntityLinks::from_pois(&vec![poi_with_wikidata(7, "Q64")]);
    assert_eq!(process_entity_claims(&entity("Q123", vec![value_claim("Q9259")]), &links), None);
}

#[test]
fn ignores_non_value_snaks() {
    let links = PoiEntityLinks::from_pois(&vec![poi_with_wikidata(7, "Q64")]);
    let novalue = RawClaim { main_snak: RawSnak { snak_type: RawSnakType::Novalue, data_value: None } };
    let unsupported = RawClaim {
        main_snak: RawSnak { snak_type: RawSnakType::Value, data_value: Some(RawDataValue::Unsupported) },
    };
    let claims = process_entity_claims(&entity("Q64", vec![novalue, unsupported]), &links);
    assert_eq!(claims, Some(EntityClaims::new("Q64".into(), vec![7], Vec::new())));
}

#[test]
fn designations_are_sorted_without_duplicates() {
    let links = PoiEntityLinks::from_pois(&vec![poi_with_wikidata(7, "Q64")]);
    let raw = RawEntity {
        id: "q64".to_string(),
        claims: vec![
            ("P31".to_string(), vec![value_claim("Q5")]),
            (
                "P1435".to_string(),
                vec![value_claim("Q9259"), value_claim("Q1"), value_claim("wd:Q9259")],
            ),
        ],
    };
    assert_eq!(raw.heritage_designations(), vec!["Q9259".to_string(), "Q1".to_string(), "Q9259".to_string()]);
    let claims = process_entity_claims(&raw, &links).unwrap();
    assert_eq!(claims.entity_id, "Q64");
    assert_eq!(claims.heritage_designations, vec!["Q1".to_string(), "Q9259".to_string()]);
}

#[test]
fn snak_targets() {
    assert_eq!(value_claim("https://www.wikidata.org/wiki/Q1").heritage_target(), Some("Q1".to_string()));
    let some = RawSnak { snak_type: RawSnakType::Somevalue, data_value: None };
    assert_eq!(some.entity_target(), None);
}
