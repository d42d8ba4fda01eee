use wildside::scorer::{
    ClaimSelector, DEFAULT_HISTORY_PROPERTY, DEFAULT_HISTORY_VALUE, PopularityError, ThemeClaimMapping, SitelinkValue, UserRelevanceError, extract_number_value,
    extract_string_value, i64_to_u32, interpret_sitelink_value, parse_i64, parse_sitelinks_from_tags,
    poi_id_from_row, sitelink_count, sitelink_count_of, sitelinks_from_members,
};

fn invalid_json(result: Result<Option<i64>, PopularityError>) -> (u64, String) {
    match result {
        Err(PopularityError::InvalidSitelinkCountJson { poi_id, raw_json }) => (poi_id, raw_json),
        other => panic!("expected invalid sitelink JSON, got {other:?}"),
    }
}

#[test]
fn sitelink_counts_must_fit_u32() {
    assert_eq!(i64_to_u32(42, 1).unwrap(), 42);
    assert_eq!(i64_to_u32(u32::MAX as i64, 1).unwrap(), u32::MAX);
    assert!(matches!(i64_to_u32(-1, 9), Err(PopularityError::InvalidSitelinkCount { poi_id: 9, raw: -1 })));
    assert!(matches!(
        i64_to_u32(u32::MAX as i64 + 1, 9),
        Err(PopularityError::InvalidSitelinkCount { poi_id: 9, .. })
    ));
}

#[test]
fn row_identifiers_must_not_be_negative() {
    assert_eq!(poi_id_from_row(7).unwrap(), 7);
    assert!(matches!(poi_id_from_row(-3), Err(PopularityError::PoiIdOutOfRange { poi_id: -3 })));
}

#[test]
fn parses_integers_like_std() {
    for text in ["0", "42", "+42", "-42", "007", "9223372036854775807", "-9223372036854775808"] {
        assert_eq!(parse_i64(text), text.parse::<i64>().ok(), "{text}");
    }
    for text in ["", "+", "-", "1a", " 1", "1 ", "9223372036854775808", "-9223372036854775809", "--1", "1e3"] {
        assert_eq!(parse_i64(text), None, "{text}");
        assert!(text.parse::<i64>().is_err(), "{text}");
    }
    assert_eq!(parse_i64("99999999999999999999999999"), None);
}

#[test]
fn string_entries_are_trimmed_and_parsed() {
    assert_eq!(extract_string_value("  12 ", 1).unwrap(), Some(12));
    assert_eq!(extract_string_value("   ", 1).unwrap(), None);
    assert_eq!(extract_string_value("", 1).unwrap(), None);
    assert_eq!(invalid_json(extract_string_value(" many ", 4)), (4, "many".to_string()));
}

#[test]
fn number_entries_need_an_integer() {
    assert_eq!(extract_number_value(Some(5), "5", 1).unwrap(), Some(5));
    assert_eq!(invalid_json(extract_number_value(None, "1.5", 2)), (2, "1.5".to_string()));
}

#[test]
fn entries_are_interpreted_by_kind() {
    assert_eq!(interpret_sitelink_value(&SitelinkValue::Null, 1).unwrap(), None);
    assert_eq!(
        interpret_sitelink_value(&SitelinkValue::Number { as_i64: Some(3), json: "3".to_string() }, 1).unwrap(),
        Some(3)
    );
    assert_eq!(interpret_sitelink_value(&SitelinkValue::Text(" 8".to_string()), 1).unwrap(), Some(8));
    assert_eq!(
        invalid_json(interpret_sitelink_value(&SitelinkValue::Other { json: "[1]".to_string() }, 6)),
        (6, "[1]".to_string())
    );
}

#[test]
fn sitelinks_entry_wins_over_sitelink_count() {
    assert_eq!(parse_sitelinks_from_tags(r#"{"sitelinks": 10, "sitelink_count": 20}"#, 1).unwrap(), Some(10));
    assert_eq!(parse_sitelinks_from_tags(r#"{"sitelink_count": "20"}"#, 1).unwrap(), Some(20));
    assert_eq!(parse_sitelinks_from_tags(r#"{"name": "Museum"}"#, 1).unwrap(), None);
    assert_eq!(parse_sitelinks_from_tags(r#"[1, 2]"#, 1).unwrap(), None);
    assert_eq!(parse_sitelinks_from_tags(r#"{"sitelinks": null, "sitelink_count": 4}"#, 1).unwrap(), None);
    assert_eq!(parse_sitelinks_from_tags(r#"{"sitelinks": " 12 "}"#, 1).unwrap(), Some(12));
    assert_eq!(parse_sitelinks_from_tags(r#"{"sitelinks": "  "}"#, 1).unwrap(), None);
}

#[test]
fn unusable_sitelink_entries_are_reported() {
    assert_eq!(invalid_json(parse_sitelinks_from_tags(r#"{"sitelinks": 1.5}"#, 3)), (3, "1.5".to_string()));
    assert_eq!(invalid_json(parse_sitelinks_from_tags(r#"{"sitelinks": [1]}"#, 3)), (3, "[1]".to_string()));
    assert_eq!(invalid_json(parse_sitelinks_from_tags(r#"{"sitelinks": " many "}"#, 3)), (3, "many".to_string()));
}

#[test]
fn tags_that_are_not_json_are_reported() {
    assert!(matches!(parse_sitelinks_from_tags("{not json", 8), Err(PopularityError::ParseTags { poi_id: 8, .. })));
    assert!(matches!(parse_sitelinks_from_tags("", 8), Err(PopularityError::ParseTags { poi_id: 8, .. })));
}

#[test]
fn decoded_members_are_read_in_order() {
    let members = vec![
        ("name".to_string(), SitelinkValue::Text("x".to_string())),
        ("sitelink_count".to_string(), SitelinkValue::Number { as_i64: Some(7), json: "7".to_string() }),
    ];
    assert_eq!(sitelinks_from_members(&Some(members), 1).unwrap(), Some(7));
    assert_eq!(sitelinks_from_members(&None, 1).unwrap(), None);
    assert_eq!(sitelinks_from_members(&Some(Vec::new()), 1).unwrap(), None);
}

#[test]
fn tags_are_read_only_without_a_database_count() {
    assert_eq!(sitelink_count_of(Some(5), "{not json", 1).unwrap(), 5);
    assert_eq!(sitelink_count_of(None, r#"{"sitelinks": 9}"#, 1).unwrap(), 9);
    assert_eq!(sitelink_count_of(None, r#"{"other": 9}"#, 1).unwrap(), 0);
    assert!(matches!(sitelink_count_of(None, "{not json", 2), Err(PopularityError::ParseTags { poi_id: 2, .. })));
    assert!(matches!(
        sitelink_count_of(None, r#"{"sitelinks": -1}"#, 2),
        Err(PopularityError::InvalidSitelinkCount { poi_id: 2, raw: -1 })
    ));
    assert!(matches!(
        sitelink_count_of(Some(5_000_000_000), "{}", 2),
        Err(PopularityError::InvalidSitelinkCount { poi_id: 2, raw: 5_000_000_000 })
    ));
    assert!(matches!(
        sitelink_count_of(None, r#"{"sitelinks": true}"#, 2),
        Err(PopularityError::InvalidSitelinkCountJson { poi_id: 2, .. })
    ));
}

#[test]
fn database_counts_win_over_tag_counts() {
    assert_eq!(sitelink_count(Some(5), Some(9), 1).unwrap(), 5);
    assert_eq!(sitelink_count(None, Some(9), 1).unwrap(), 9);
    assert_eq!(sitelink_count(None, None, 1).unwrap(), 0);
    assert!(matches!(sitelink_count(Some(-5), Some(9), 2), Err(PopularityError::InvalidSitelinkCount { raw: -5, .. })));
}

#[test]
fn selector_rejects_empty_fields() {
    let err = ClaimSelector::new(String::new(), "Q_TEST_ART".to_string()).expect_err("empty property should error");
    assert!(matches!(err, UserRelevanceError::InvalidSelector));
    assert!(matches!(
        ClaimSelector::new("P999".to_string(), " \t".to_string()),
        Err(UserRelevanceError::InvalidSelector)
    ));
    let selector = ClaimSelector::new("P999".to_string(), "Q_TEST_ART".to_string()).unwrap();
    assert_eq!(selector.property_id(), "P999");
    assert_eq!(selector.value_entity_id(), "Q_TEST_ART");
}

#[derive(Debug, Clone, Copy, PartialEq, Eq)]
enum Theme {
    History,
    Art,
    Food,
}

fn selector(property: &str, value: &str) -> ClaimSelector {
    ClaimSelector::new(property.to_string(), value.to_string()).unwrap()
}

fn ids(selectors: Option<&[ClaimSelector]>) -> Option<Vec<(String, String)>> {
    selectors.map(|s| {
        s.iter()
            .map(|c| (c.property_id().to_string(), c.value_entity_id().to_string()))
            .collect()
    })
}

#[test]
fn defaults_include_history_mapping() {
    let mapping = ThemeClaimMapping::with_default_history(Theme::History);
    assert!(mapping.selectors(&Theme::History).is_some());
    assert_eq!(
        ids(mapping.selectors(&Theme::History)),
        Some(vec![(DEFAULT_HISTORY_PROPERTY.to_string(), DEFAULT_HISTORY_VALUE.to_string())])
    );
    assert_eq!((DEFAULT_HISTORY_PROPERTY, DEFAULT_HISTORY_VALUE), ("P1435", "Q9259"));
    assert!(mapping.selectors(&Theme::Art).is_none());
    assert_eq!(mapping.theme_count(), 1);
}

#[test]
fn inserting_a_selector_appends_to_its_theme_only() {
    let mut mapping = ThemeClaimMapping::new();
    assert_eq!(mapping.theme_count(), 0);
    mapping.insert(Theme::Art, selector("P999", "Q_TEST_ART"));
    mapping.insert(Theme::Food, selector("P31", "Q11707"));
    mapping.insert(Theme::Art, selector("P31", "Q207694"));
    assert_eq!(
        ids(mapping.selectors(&Theme::Art)),
        Some(vec![
            ("P999".to_string(), "Q_TEST_ART".to_string()),
            ("P31".to_string(), "Q207694".to_string()),
        ])
    );
    assert_eq!(ids(mapping.selectors(&Theme::Food)), Some(vec![("P31".to_string(), "Q11707".to_string())]));
    assert!(mapping.selectors(&Theme::History).is_none());
    assert_eq!(mapping.theme_count(), 2);
    let (theme, selectors) = mapping.entry(1);
    assert_eq!(*theme, Theme::Food);
    assert_eq!(selectors.len(), 1);
}

#[test]
fn with_selector_chains_insertions() {
    let mapping = ThemeClaimMapping::with_default_history(Theme::History)
        .with_selector(Theme::History, selector("P1435", "Q916475"))
        .with_selector(Theme::Art, selector("P999", "Q_TEST_ART"));
    assert_eq!(
        ids(mapping.selectors(&Theme::History)),
        Some(vec![
            ("P1435".to_string(), "Q9259".to_string()),
            ("P1435".to_string(), "Q916475".to_string()),
        ])
    );
    assert_eq!(mapping.theme_count(), 2);
}
