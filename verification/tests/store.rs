use wildside::etl::EntityClaims;
use wildside::store::{
    CREATE_ENTITIES_SQL, ClaimWrite, ClaimsSchemaError, PersistClaimsError, PersistPoisError,
    SCHEMA_VERSION, SchemaVersionAction, plan_claim_writes, poi_row_id, require_poi_outcome,
    schema_steps, schema_version_action,
};

fn claims(entity: &str, pois: Vec<u64>, designations: Vec<&str>) -> EntityClaims {
    EntityClaims::new(entity.to_string(), pois, designations.into_iter().map(str::to_string).collect())
}

fn describe(writes: &[ClaimWrite]) -> Vec<String> {
    writes
        .iter()
        .map(|w| match w {
            ClaimWrite::InsertEntity { entity_id, operation } => format!("entity {entity_id} ({operation})"),
            ClaimWrite::InsertClaim { entity_id, property_id, value_entity_id } => {
                format!("claim {entity_id} {property_id} {value_entity_id}")
            }
            ClaimWrite::RequirePoi { poi_id, row_id, entity_id } => format!("require {poi_id}/{row_id} for {entity_id}"),
            ClaimWrite::LinkPoi { poi_id, row_id, entity_id } => format!("link {poi_id}/{row_id} to {entity_id}"),
            ClaimWrite::RejectPoiId { poi_id } => format!("reject {poi_id}"),
        })
        .collect()
}

#[test]
fn schema_steps_run_tables_indexes_view_then_version_table() {
    let steps = schema_steps();
    let names: Vec<&str> = steps.iter().map(|s| s.name).collect();
    assert_eq!(
        names,
        vec![
            "create wikidata_entities",
            "create poi_wikidata_links",
            "create wikidata_entity_claims",
            "index wikidata_entity_claims",
            "index poi_wikidata_links",
            "create poi_wikidata_claims view",
            "create schema version table",
        ]
    );
    assert_eq!(steps[0].sql, CREATE_ENTITIES_SQL);
}

#[test]
fn schema_versions_are_kept_recorded_or_refused() {
    assert_eq!(SCHEMA_VERSION, 1);
    assert!(matches!(schema_version_action(None), Ok(SchemaVersionAction::Record)));
    assert!(matches!(schema_version_action(Some(1)), Ok(SchemaVersionAction::Keep)));
    assert!(matches!(
        schema_version_action(Some(2)),
        Err(ClaimsSchemaError::VersionMismatch { expected: 1, found: 2 })
    ));
}

#[test]
fn plans_entity_designations_and_links() {
    let writes = plan_claim_writes(&[claims("Q64", vec![7], vec!["Q9259"])]);
    assert_eq!(
        describe(&writes),
        vec![
            "entity Q64 (insert entity)",
            "entity Q9259 (insert designation entity)",
            "claim Q64 P1435 Q9259",
            "require 7/7 for Q64",
            "link 7/7 to Q64",
        ]
    );
}

#[test]
fn each_point_of_interest_is_checked_once() {
    let writes = plan_claim_writes(&[claims("Q1", vec![3, 3, 4], vec![]), claims("Q2", vec![4, 5], vec![])]);
    assert_eq!(
        describe(&writes),
        vec![
            "entity Q1 (insert entity)",
            "require 3/3 for Q1",
            "link 3/3 to Q1",
            "link 3/3 to Q1",
            "require 4/4 for Q1",
            "link 4/4 to Q1",
            "entity Q2 (insert entity)",
            "link 4/4 to Q2",
            "require 5/5 for Q2",
            "link 5/5 to Q2",
        ]
    );
}

#[test]
fn the_plan_stops_at_an_identifier_sqlite_cannot_store() {
    let big = i64::MAX as u64 + 1;
    let writes = plan_claim_writes(&[claims("Q1", vec![1, big, 2], vec![]), claims("Q2", vec![9], vec![])]);
    assert_eq!(
        describe(&writes),
        vec![
            "entity Q1 (insert entity)",
            "require 1/1 for Q1",
            "link 1/1 to Q1",
            format!("reject {big}").as_str(),
        ]
    );
}

#[test]
fn no_claims_plan_nothing() {
    assert!(plan_claim_writes(&[]).is_empty());
}

#[test]
fn missing_points_of_interest_are_reported() {
    assert!(require_poi_outcome(7, "Q64", true).is_ok());
    match require_poi_outcome(7, "Q64", false) {
        Err(PersistClaimsError::MissingPoi { poi_id, entity_id }) => {
            assert_eq!(poi_id, 7);
            assert_eq!(entity_id, "Q64");
        }
        other => panic!("unexpected {other:?}"),
    }
}

#[test]
fn poi_row_identifiers_must_fit_sqlite_integers() {
    assert_eq!(poi_row_id(7).unwrap(), 7);
    assert_eq!(poi_row_id(i64::MAX as u64).unwrap(), i64::MAX);
    assert!(matches!(poi_row_id(u64::MAX), Err(PersistPoisError::PoiIdOutOfRange { poi_id: u64::MAX })));
}
