//! Persistence of Wikidata claims into the `pois.db` SQLite database.
//!
//! The schema is a fixed list of migration steps followed by a version
//! check. Claims are written as a plan: a sequence of idempotent writes that
//! the caller executes inside one transaction, in order, stopping at the
//! first failure. The plan inserts every entity before the claims and links
//! that refer to it, checks each point of interest once before its first
//! link, and stops at the first identifier that SQLite cannot store.
//! Points of interest themselves are stored under their identifier, which
//! must fit SQLite's `i64` row identifiers.

use std::collections::HashSet;

use vstd::prelude::*;

use crate::etl::{EntityClaims, HERITAGE_PROPERTY};

verus! {

broadcast use vstd::std_specs::hash::group_hash_axioms;

/// Version of the claims schema that this library writes.
pub const SCHEMA_VERSION: i64 = 1;

/// Statement creating the entity table.
pub const CREATE_ENTITIES_SQL: &'static str =
    "CREATE TABLE IF NOT EXISTS wikidata_entities (
            entity_id TEXT PRIMARY KEY CHECK (length(trim(entity_id)) > 0)
        ) WITHOUT ROWID";

/// Statement creating the table that links points of interest to entities.
pub const CREATE_LINKS_SQL: &'static str =
    "CREATE TABLE IF NOT EXISTS poi_wikidata_links (
            poi_id INTEGER NOT NULL,
            entity_id TEXT NOT NULL,
            PRIMARY KEY (poi_id, entity_id),
            FOREIGN KEY (poi_id) REFERENCES pois(id) ON DELETE CASCADE,
            FOREIGN KEY (entity_id) REFERENCES wikidata_entities(entity_id) ON DELETE CASCADE
        ) WITHOUT ROWID";

/// Statement creating the claim table.
pub const CREATE_CLAIMS_SQL: &'static str =
    "CREATE TABLE IF NOT EXISTS wikidata_entity_claims (
            entity_id TEXT NOT NULL,
            property_id TEXT NOT NULL,
            value_entity_id TEXT NOT NULL,
            PRIMARY KEY (entity_id, property_id, value_entity_id),
            FOREIGN KEY (entity_id) REFERENCES wikidata_entities(entity_id) ON DELETE CASCADE,
            FOREIGN KEY (value_entity_id) REFERENCES wikidata_entities(entity_id) ON DELETE CASCADE
        ) WITHOUT ROWID";

/// Statement indexing claims by property and value.
pub const INDEX_CLAIMS_SQL: &'static str =
    "CREATE INDEX IF NOT EXISTS idx_wikidata_entity_claims_property
            ON wikidata_entity_claims(property_id, value_entity_id, entity_id)";

/// Statement indexing links by entity.
pub const INDEX_LINKS_SQL: &'static str =
    "CREATE INDEX IF NOT EXISTS idx_poi_wikidata_links_entity
            ON poi_wikidata_links(entity_id, poi_id)";

/// Statement creating the view joining links and claims.
pub const CREATE_CLAIMS_VIEW_SQL: &'static str =
    "CREATE VIEW IF NOT EXISTS poi_wikidata_claims AS
            SELECT
                links.poi_id AS poi_id,
                claims.entity_id AS entity_id,
                claims.property_id AS property_id,
                claims.value_entity_id AS value_entity_id
            FROM poi_wikidata_links AS links
            JOIN wikidata_entity_claims AS claims
                ON claims.entity_id = links.entity_id";

/// Statement creating the schema version table.
pub const CREATE_VERSION_TABLE_SQL: &'static str =
    "CREATE TABLE IF NOT EXISTS wikidata_schema_version (
            version INTEGER PRIMARY KEY CHECK (version > 0),
            applied_at TEXT NOT NULL DEFAULT (strftime('%Y-%m-%dT%H:%M:%SZ', 'now'))
        ) WITHOUT ROWID";

/// Query reading the recorded schema version.
pub const READ_VERSION_SQL: &'static str = "SELECT version FROM wikidata_schema_version LIMIT 1";

/// Statement recording the schema version (parameter: the version).
pub const RECORD_VERSION_SQL: &'static str = "INSERT INTO wikidata_schema_version (version) VALUES (?1)";

/// Statement inserting an entity (parameter: its identifier).
pub const INSERT_ENTITY_SQL: &'static str =
    "INSERT INTO wikidata_entities (entity_id) VALUES (?1) ON CONFLICT(entity_id) DO NOTHING";

/// Statement linking a point of interest to an entity (parameters: the row
/// identifier of the point of interest, the entity identifier).
pub const INSERT_LINK_SQL: &'static str =
    "INSERT INTO poi_wikidata_links (poi_id, entity_id) VALUES (?1, ?2) ON CONFLICT(poi_id, entity_id) DO NOTHING";

/// Statement inserting a claim (parameters: entity, property, value).
pub const INSERT_CLAIM_SQL: &'static str =
    "INSERT INTO wikidata_entity_claims (
    entity_id,
    property_id,
    value_entity_id
) VALUES (?1, ?2, ?3)
ON CONFLICT(entity_id, property_id, value_entity_id) DO NOTHING";

/// Query finding a point of interest row (parameter: its row identifier).
pub const CHECK_POI_SQL: &'static str = "SELECT 1 FROM pois WHERE id = ?1 LIMIT 1";

/// Errors raised when initialising the Wikidata claims schema.
#[derive(Debug)]
pub enum ClaimsSchemaError {
    /// Enabling SQLite foreign keys failed.
    ForeignKeys { source: rusqlite::Error },
    /// A migration step failed.
    Migration { step: &'static str, source: rusqlite::Error },
    /// The database records another schema version.
    VersionMismatch { expected: i64, found: i64 },
}

/// Errors raised when persisting Wikidata claims.
#[derive(Debug)]
pub enum PersistClaimsError {
    /// The database could not be opened.
    Open { path: std::path::PathBuf, source: rusqlite::Error },
    /// The schema could not be initialised.
    Schema(ClaimsSchemaError),
    /// A point of interest identifier does not fit SQLite's `i64`.
    PoiIdOutOfRange { poi_id: u64 },
    /// A point of interest referenced by an entity has no row.
    MissingPoi { poi_id: u64, entity_id: String },
    /// An SQLite operation failed.
    Sqlite { operation: &'static str, source: rusqlite::Error },
}

/// One step of the schema migration: its name (used in errors) and its
/// statement.
#[derive(Debug, Clone, Copy)]
pub struct MigrationStep {
    pub name: &'static str,
    pub sql: &'static str,
}

/// The migration steps, in the order they run: the tables, the indexes,
/// the view, and the version table.
pub open spec fn spec_schema_steps() -> Seq<(Seq<char>, &'static str)> {
    seq![
        ("create wikidata_entities"@, CREATE_ENTITIES_SQL),
        ("create poi_wikidata_links"@, CREATE_LINKS_SQL),
        ("create wikidata_entity_claims"@, CREATE_CLAIMS_SQL),
        ("index wikidata_entity_claims"@, INDEX_CLAIMS_SQL),
        ("index poi_wikidata_links"@, INDEX_LINKS_SQL),
        ("create poi_wikidata_claims view"@, CREATE_CLAIMS_VIEW_SQL),
        ("create schema version table"@, CREATE_VERSION_TABLE_SQL),
    ]
}

/// The migration steps of the claims schema, in order (see
/// [`spec_schema_steps`]).
pub fn schema_steps() -> (result: Vec<MigrationStep>)
    ensures
        result@.len() == spec_schema_steps().len(),
        forall|i: int|
            0 <= i < result@.len() ==> (#[trigger] result@[i].name@, result@[i].sql)
                == spec_schema_steps()[i],
{
    let steps = vec![
        MigrationStep { name: "create wikidata_entities", sql: CREATE_ENTITIES_SQL },
        MigrationStep { name: "create poi_wikidata_links", sql: CREATE_LINKS_SQL },
        MigrationStep { name: "create wikidata_entity_claims", sql: CREATE_CLAIMS_SQL },
        MigrationStep { name: "index wikidata_entity_claims", sql: INDEX_CLAIMS_SQL },
        MigrationStep { name: "index poi_wikidata_links", sql: INDEX_LINKS_SQL },
        MigrationStep { name: "create poi_wikidata_claims view", sql: CREATE_CLAIMS_VIEW_SQL },
        MigrationStep { name: "create schema version table", sql: CREATE_VERSION_TABLE_SQL },
    ];
    steps
}

/// What to do about the schema version once the version table exists.
#[derive(Debug, Clone, Copy, PartialEq, Eq, Structural)]
pub enum SchemaVersionAction {
    /// The recorded version matches; nothing to do.
    Keep,
    /// No version is recorded; record [`SCHEMA_VERSION`].
    Record,
}

/// Decide on the schema version read from the database: keep a matching
/// version, record the version when none is recorded, and refuse any other
/// version so that migrations are applied explicitly.
pub fn schema_version_action(existing: Option<i64>) -> (result: Result<SchemaVersionAction, ClaimsSchemaError>)
    ensures
        match existing {
            None => result matches Ok(SchemaVersionAction::Record),
            Some(v) => if v == SCHEMA_VERSION {
                result matches Ok(SchemaVersionAction::Keep)
            } else {
                result matches Err(ClaimsSchemaError::VersionMismatch { expected, found })
                    && expected == SCHEMA_VERSION && found == v
            },
        },
{
    match existing {
        None => Ok(SchemaVersionAction::Record),
        Some(v) => if v == SCHEMA_VERSION {
            Ok(SchemaVersionAction::Keep)
        } else {
            Err(ClaimsSchemaError::VersionMismatch { expected: SCHEMA_VERSION, found: v })
        },
    }
}

/// One write of a claim persistence plan.
#[derive(Debug, Clone)]
pub enum ClaimWrite {
    /// Insert an entity unless present; `operation` names the write in
    /// errors.
    InsertEntity { entity_id: String, operation: &'static str },
    /// Insert a claim of an entity unless present.
    InsertClaim { entity_id: String, property_id: &'static str, value_entity_id: String },
    /// Check that the point of interest has a row; fail with
    /// [`PersistClaimsError::MissingPoi`] when it has none.
    RequirePoi { poi_id: u64, row_id: i64, entity_id: String },
    /// Link a point of interest to an entity unless linked.
    LinkPoi { poi_id: u64, row_id: i64, entity_id: String },
    /// Fail with [`PersistClaimsError::PoiIdOutOfRange`].
    RejectPoiId { poi_id: u64 },
}

/// The abstract content of a write.
pub enum WriteModel {
    Entity(Seq<char>, Seq<char>),
    Claim(Seq<char>, Seq<char>, Seq<char>),
    Require(u64, Seq<char>),
    Link(u64, Seq<char>),
    Reject(u64),
}

/// The abstract content of a write.
pub open spec fn write_model(w: ClaimWrite) -> WriteModel {
    match w {
        ClaimWrite::InsertEntity { entity_id, operation } => WriteModel::Entity(entity_id@, operation@),
        ClaimWrite::InsertClaim { entity_id, property_id, value_entity_id } => WriteModel::Claim(
            entity_id@,
            property_id@,
            value_entity_id@,
        ),
        ClaimWrite::RequirePoi { poi_id, entity_id, .. } => WriteModel::Require(poi_id, entity_id@),
        ClaimWrite::LinkPoi { poi_id, entity_id, .. } => WriteModel::Link(poi_id, entity_id@),
        ClaimWrite::RejectPoiId { poi_id } => WriteModel::Reject(poi_id),
    }
}

/// The row identifier of a write that has one equals its point of interest
/// identifier.
pub open spec fn write_wf(w: ClaimWrite) -> bool {
    match w {
        ClaimWrite::RequirePoi { poi_id, row_id, .. } => row_id as int == poi_id as int,
        ClaimWrite::LinkPoi { poi_id, row_id, .. } => row_id as int == poi_id as int,
        _ => true,
    }
}

/// The abstract contents of a sequence of writes.
pub open spec fn write_models(s: Seq<ClaimWrite>) -> Seq<WriteModel> {
    s.map_values(|w: ClaimWrite| write_model(w))
}

/// The abstract content of entity claims: identifier, linked points of
/// interest, heritage designations.
pub type ClaimsModel = (Seq<char>, Seq<u64>, Seq<Seq<char>>);

/// The abstract content of entity claims.
pub open spec fn claims_model(c: EntityClaims) -> ClaimsModel {
    (c.entity_id@, c.linked_poi_ids@, c.heritage_designations@.map_values(|s: String| s@))
}

/// Whether a plan ends with a rejection (after which nothing is written).
pub open spec fn rejected(writes: Seq<WriteModel>) -> bool {
    writes.len() > 0 && writes.last() is Reject
}

/// The largest identifier that SQLite's `i64` row identifiers can hold.
pub open spec fn fits_row_id(id: u64) -> bool {
    id <= i64::MAX
}

/// The writes of an entity's heritage designations: for each, the
/// designation entity, then the claim.
pub open spec fn designation_writes(entity: Seq<char>, designations: Seq<Seq<char>>) -> Seq<WriteModel>
    decreases designations.len(),
{
    if designations.len() == 0 {
        Seq::empty()
    } else {
        designation_writes(entity, designations.drop_last()) + seq![
            WriteModel::Entity(designations.last(), "insert designation entity"@),
            WriteModel::Claim(entity, HERITAGE_PROPERTY@, designations.last()),
        ]
    }
}

/// The writes linking an entity to points of interest, given the points of
/// interest already checked: a check before the first link of each new one,
/// and a rejection (ending the plan) at the first identifier that does not
/// fit a row identifier.
pub open spec fn link_writes(entity: Seq<char>, ids: Seq<u64>, known: Set<u64>) -> Seq<WriteModel>
    decreases ids.len(),
{
    if ids.len() == 0 {
        Seq::empty()
    } else {
        let prev = link_writes(entity, ids.drop_last(), known);
        let id = ids.last();
        if rejected(prev) {
            prev
        } else if !fits_row_id(id) {
            prev.push(WriteModel::Reject(id))
        } else if known.contains(id) || ids.drop_last().contains(id) {
            prev.push(WriteModel::Link(id, entity))
        } else {
            prev + seq![WriteModel::Require(id, entity), WriteModel::Link(id, entity)]
        }
    }
}

/// The writes of one entity's claims: the entity, its designations, its
/// links.
pub open spec fn claim_writes(c: ClaimsModel, known: Set<u64>) -> Seq<WriteModel> {
    seq![WriteModel::Entity(c.0, "insert entity"@)] + designation_writes(c.0, c.2) + link_writes(
        c.0,
        c.1,
        known,
    )
}

/// The points of interest linked by a sequence of entity claims.
pub open spec fn linked_ids(claims: Seq<ClaimsModel>) -> Set<u64>
    decreases claims.len(),
{
    if claims.len() == 0 {
        Set::empty()
    } else {
        linked_ids(claims.drop_last()).union(claims.last().1.to_set())
    }
}

/// The plan of a sequence of entity claims: the writes of each entity in
/// turn, up to the first rejection.
pub open spec fn plan_writes(claims: Seq<ClaimsModel>) -> Seq<WriteModel>
    decreases claims.len(),
{
    if claims.len() == 0 {
        Seq::empty()
    } else {
        let prev = plan_writes(claims.drop_last());
        if rejected(prev) {
            prev
        } else {
            prev + claim_writes(claims.last(), linked_ids(claims.drop_last()))
        }
    }
}

/// Once a prefix of the claims is rejected, the whole plan is that prefix's
/// plan.
proof fn lemma_plan_prefix_rejected(s: Seq<ClaimsModel>, n: int)
    requires
        0 <= n <= s.len(),
        rejected(plan_writes(s.take(n))),
    ensures
        plan_writes(s) == plan_writes(s.take(n)),
    decreases s.len(),
{
    if n == s.len() {
        assert(s.take(n) == s);
    } else {
        assert(s.drop_last().take(n) == s.take(n));
        lemma_plan_prefix_rejected(s.drop_last(), n);
    }
}

/// Once a prefix of the links is rejected, all the links are that prefix's
/// links.
proof fn lemma_links_prefix_rejected(e: Seq<char>, ids: Seq<u64>, known: Set<u64>, n: int)
    requires
        0 <= n <= ids.len(),
        rejected(link_writes(e, ids.take(n), known)),
    ensures
        link_writes(e, ids, known) == link_writes(e, ids.take(n), known),
    decreases ids.len(),
{
    if n == ids.len() {
        assert(ids.take(n) == ids);
    } else {
        assert(ids.drop_last().take(n) == ids.take(n));
        lemma_links_prefix_rejected(e, ids.drop_last(), known, n);
    }
}

/// The designation writes never end with a rejection.
proof fn lemma_designations_not_rejected(e: Seq<char>, ds: Seq<Seq<char>>)
    ensures
        forall|i: int|
            0 <= i < designation_writes(e, ds).len() ==> !(#[trigger] designation_writes(e, ds)[i] is Reject),
    decreases ds.len(),
{
    if ds.len() > 0 {
        lemma_designations_not_rejected(e, ds.drop_last());
        let prev = designation_writes(e, ds.drop_last());
        let all = designation_writes(e, ds);
        assert forall|i: int| 0 <= i < all.len() implies !(#[trigger] all[i] is Reject) by {
            if i < prev.len() {
                assert(all[i] == prev[i]);
            }
        }
    }
}

/// Plan the persistence of entity claims (see [`plan_writes`]). Every write
/// that carries a row identifier carries its point of interest identifier.
/// Unless the plan is rejected, it writes every entity, each of its heritage
/// designations and each of its links (see [`claims_written`]); and it
/// writes nothing that the claims do not hold (see [`write_from_claims`]).
pub fn plan_claim_writes(claims: &[EntityClaims]) -> (writes: Vec<ClaimWrite>)
    ensures
        write_models(writes@) == plan_writes(claims@.map_values(|c: EntityClaims| claims_model(c))),
        forall|i: int| 0 <= i < writes@.len() ==> write_wf(#[trigger] writes@[i]),
        !rejected(write_models(writes@)) ==> forall|i: int|
            0 <= i < claims@.len() ==> claims_written(write_models(writes@), #[trigger] claims_model(claims@[i])),
        forall|j: int|
            0 <= j < writes@.len() ==> write_from_claims(
                #[trigger] write_model(writes@[j]),
                claims@.map_values(|c: EntityClaims| claims_model(c)),
            ),
{
    let ghost cm = claims@.map_values(|c: EntityClaims| claims_model(c));

    let mut writes: Vec<ClaimWrite> = Vec::new();
    let mut known: HashSet<u64> = HashSet::new();
    let mut i: usize = 0;
    assert(write_models(writes@) =~= Seq::empty());
    while i < claims.len()
        invariant
            i <= claims@.len(),
            cm == claims@.map_values(|c: EntityClaims| claims_model(c)),
            write_models(writes@) == plan_writes(cm.take(i as int)),
            !rejected(plan_writes(cm.take(i as int))),
            known@ == linked_ids(cm.take(i as int)),
            forall|j: int| 0 <= j < writes@.len() ==> write_wf(#[trigger] writes@[j]),
        decreases claims@.len() - i,
    {
        let claim = &claims[i];
        let ghost c = claims_model(*claim);
        let ghost e = claim.entity_id@;
        let ghost ds = c.2;
        let ghost ids = claim.linked_poi_ids@;
        let ghost known0 = known@;
        let ghost base = write_models(writes@);
        proof {
            let t = cm.take(i + 1);
            assert(t.drop_last() == cm.take(i as int));
            assert(t.last() == c);
        }
        let ghost w0 = writes@;
        writes.push(ClaimWrite::InsertEntity { entity_id: claim.entity_id.clone(), operation: "insert entity" });
        assert(write_models(writes@) =~= write_models(w0).push(WriteModel::Entity(e, "insert entity"@)));
        let ghost head = base + seq![WriteModel::Entity(e, "insert entity"@)];
        let mut d: usize = 0;
        assert(designation_writes(e, ds.take(0)) =~= Seq::<WriteModel>::empty());
        assert(head + designation_writes(e, ds.take(0)) =~= head);
        while d < claim.heritage_designations.len()
            invariant
                d <= claim.heritage_designations@.len(),
                ds == claim.heritage_designations@.map_values(|s: String| s@),
                write_models(writes@) == head + designation_writes(e, ds.take(d as int)),
                e == claim.entity_id@,
                forall|j: int| 0 <= j < writes@.len() ==> write_wf(#[trigger] writes@[j]),
            decreases claim.heritage_designations@.len() - d,
        {
            let designation = &claim.heritage_designations[d];
            proof {
                let t = ds.take(d + 1);
                assert(t.drop_last() == ds.take(d as int));
                assert(t.last() == designation@);
            }
            let ghost w1 = writes@;
            writes.push(
                ClaimWrite::InsertEntity {
                    entity_id: designation.clone(),
                    operation: "insert designation entity",
                },
            );
            writes.push(
                ClaimWrite::InsertClaim {
                    entity_id: claim.entity_id.clone(),
                    property_id: HERITAGE_PROPERTY,
                    value_entity_id: designation.clone(),
                },
            );
            assert(write_models(writes@) =~= write_models(w1) + seq![
                WriteModel::Entity(designation@, "insert designation entity"@),
                WriteModel::Claim(e, HERITAGE_PROPERTY@, designation@),
            ]);
            d = d + 1;
        }
        assert(ds.take(ds.len() as int) == ds);
        let ghost mid = head + designation_writes(e, ds);
        let mut k: usize = 0;
        assert(link_writes(e, ids.take(0), known0) =~= Seq::<WriteModel>::empty());
        assert(mid + link_writes(e, ids.take(0), known0) =~= mid);
        assert(ids.take(0).to_set() =~= Set::<u64>::empty());
        assert(known0.union(ids.take(0).to_set()) =~= known0);
        while k < claim.linked_poi_ids.len()
            invariant
                k <= ids.len(),
                ids == claim.linked_poi_ids@,
                e == claim.entity_id@,
                write_models(writes@) == mid + link_writes(e, ids.take(k as int), known0),
                mid == head + designation_writes(e, ds),
                head == base + seq![WriteModel::Entity(e, "insert entity"@)],
                base == plan_writes(cm.take(i as int)),
                !rejected(base),
                known0 == linked_ids(cm.take(i as int)),
                c == claims_model(*claim),
                c.0 == e && c.1 == ids && c.2 == ds,
                cm.take(i + 1).drop_last() == cm.take(i as int),
                cm.take(i + 1).last() == c,
                i < cm.len(),
                cm == claims@.map_values(|c: EntityClaims| claims_model(c)),
                !rejected(link_writes(e, ids.take(k as int), known0)),
                known@ == known0.union(ids.take(k as int).to_set()),
                forall|j: int| 0 <= j < writes@.len() ==> write_wf(#[trigger] writes@[j]),
            decreases ids.len() - k,
        {
            let id = claim.linked_poi_ids[k];
            let ghost t = ids.take(k + 1);
            proof {
                assert(t.drop_last() == ids.take(k as int));
                assert(t.last() == id);
                assert(t.to_set() =~= ids.take(k as int).to_set().insert(id)) by {
                    ids.take(k as int).lemma_push_to_set_commute(id);
                    assert(ids.take(k as int).push(id) == t);
                }
            }
            let ghost w2 = writes@;
            if id > 0x7fff_ffff_ffff_ffff {
                writes.push(ClaimWrite::RejectPoiId { poi_id: id });
                proof {
                    assert(write_models(writes@) =~= write_models(w2).push(WriteModel::Reject(id)));
                    let lw = link_writes(e, t, known0);
                    assert(lw == link_writes(e, ids.take(k as int), known0).push(WriteModel::Reject(id)));
                    assert(rejected(lw));
                    lemma_links_prefix_rejected(e, ids, known0, k + 1);
                    assert(ids.take(ids.len() as int) == ids);
                    let full = claim_writes(c, linked_ids(cm.take(i as int)));
                    assert(full =~= seq![WriteModel::Entity(e, "insert entity"@)] + designation_writes(e, ds) + lw);
                    let p1 = plan_writes(cm.take(i + 1));
                    assert(p1 == base + full);
                    assert(p1 =~= mid + lw) by {
                        assert(mid =~= base + seq![WriteModel::Entity(e, "insert entity"@)] + designation_writes(e, ds));
                    }
                    assert(rejected(p1));
                    lemma_plan_prefix_rejected(cm, i + 1);
                    assert(write_models(writes@) == p1);
                    lemma_plan_content(writes@, claims@);
                }
                return writes;
            }
            let row_id = id as i64;
            proof {
                assert(ids.take(k as int).to_set().contains(id) == ids.take(k as int).contains(id));
            }
            let fresh = !known.contains(&id);
            if fresh {
                writes.push(ClaimWrite::RequirePoi { poi_id: id, row_id, entity_id: claim.entity_id.clone() });
                known.insert(id);
                assert(write_models(writes@) =~= write_models(w2).push(WriteModel::Require(id, e)));
            }
            let ghost w3 = writes@;
            writes.push(ClaimWrite::LinkPoi { poi_id: id, row_id, entity_id: claim.entity_id.clone() });
            proof {
                assert(write_models(writes@) =~= write_models(w3).push(WriteModel::Link(id, e)));
                let prev = link_writes(e, ids.take(k as int), known0);
                assert(fresh == !(known0.contains(id) || ids.take(k as int).contains(id)));
                assert(link_writes(e, t, known0) =~= if known0.contains(id) || ids.take(k as int).contains(id) {
                    prev.push(WriteModel::Link(id, e))
                } else {
                    prev + seq![WriteModel::Require(id, e), WriteModel::Link(id, e)]
                });
                assert(!rejected(link_writes(e, t, known0)));
            }
            k = k + 1;
        }
        proof {
            assert(ids.take(ids.len() as int) == ids);
            let full = claim_writes(c, linked_ids(cm.take(i as int)));
            assert(full =~= seq![WriteModel::Entity(e, "insert entity"@)] + designation_writes(e, ds)
                + link_writes(e, ids, known0));
            let p1 = plan_writes(cm.take(i + 1));
            assert(p1 == base + full);
            assert(p1 =~= mid + link_writes(e, ids, known0));
            lemma_designations_not_rejected(e, ds);
            let lw = link_writes(e, ids, known0);
            if lw.len() == 0 {
                assert(p1.last() == mid.last());
                if designation_writes(e, ds).len() > 0 {
                    assert(mid.last() == designation_writes(e, ds)[designation_writes(e, ds).len() - 1]);
                }
            } else {
                assert(p1.last() == lw.last());
            }
            assert(!rejected(p1));
        }
        i = i + 1;
    }
    assert(cm.take(cm.len() as int) == cm);
    proof {
        lemma_plan_content(writes@, claims@);
    }
    writes
}

/// The completeness and provenance of a plan, stated over the writes and
/// the entity claims themselves.
proof fn lemma_plan_content(writes: Seq<ClaimWrite>, claims: Seq<EntityClaims>)
    requires
        write_models(writes) == plan_writes(claims.map_values(|c: EntityClaims| claims_model(c))),
    ensures
        !rejected(write_models(writes)) ==> forall|i: int|
            0 <= i < claims.len() ==> claims_written(write_models(writes), #[trigger] claims_model(claims[i])),
        forall|j: int|
            0 <= j < writes.len() ==> write_from_claims(
                #[trigger] write_model(writes[j]),
                claims.map_values(|c: EntityClaims| claims_model(c)),
            ),
{
    let cm = claims.map_values(|c: EntityClaims| claims_model(c));
    lemma_plan_complete(cm);
    lemma_plan_from_claims(cm);
    assert forall|i: int| 0 <= i < claims.len() implies #[trigger] claims_model(claims[i]) == cm[i] by {}
    assert forall|j: int| 0 <= j < writes.len() implies write_from_claims(#[trigger] write_model(writes[j]), cm) by {
        assert(write_models(writes).len() == writes.len());
        assert(write_models(writes)[j] == write_model(writes[j]));
        assert(write_from_claims(plan_writes(cm)[j], cm));
    }
}

/// The point of interest a check, link or rejection is about.
pub open spec fn poi_of(w: WriteModel) -> u64 {
    match w {
        WriteModel::Require(id, _) => id,
        WriteModel::Link(id, _) => id,
        WriteModel::Reject(id) => id,
        _ => 0,
    }
}

/// Every link comes after a check of its point of interest, unless that
/// point is in `known`.
pub open spec fn links_checked(ws: Seq<WriteModel>, known: Set<u64>) -> bool {
    forall|j: int|
        0 <= j < ws.len() && (#[trigger] ws[j]) is Link ==> known.contains(poi_of(ws[j])) || exists|k: int|
            0 <= k < j && (#[trigger] ws[k]) is Require && poi_of(ws[k]) == poi_of(ws[j])
}

/// No point of interest is checked twice, nor any point in `known`.
pub open spec fn checks_distinct(ws: Seq<WriteModel>, known: Set<u64>) -> bool {
    &&& forall|j: int, k: int|
        0 <= j < k < ws.len() && (#[trigger] ws[j]) is Require && (#[trigger] ws[k]) is Require
            ==> poi_of(ws[j]) != poi_of(ws[k])
    &&& forall|j: int| 0 <= j < ws.len() && (#[trigger] ws[j]) is Require ==> !known.contains(poi_of(ws[j]))
}

/// The points of interest that a sequence of writes checks.
pub open spec fn checked_ids(ws: Seq<WriteModel>) -> Set<u64> {
    Set::new(|id: u64| exists|k: int| 0 <= k < ws.len() && (#[trigger] ws[k]) is Require && poi_of(ws[k]) == id)
}

/// A rejection can only be the last write.
pub open spec fn rejects_last(ws: Seq<WriteModel>) -> bool {
    forall|j: int| 0 <= j < ws.len() - 1 ==> !((#[trigger] ws[j]) is Reject)
}

/// Every checked or linked point of interest fits a row identifier.
pub open spec fn row_ids_fit(ws: Seq<WriteModel>) -> bool {
    forall|j: int|
        0 <= j < ws.len() && ((#[trigger] ws[j]) is Require || ws[j] is Link) ==> fits_row_id(poi_of(ws[j]))
}

/// Every claim comes after the insertion of its entity and of its value.
pub open spec fn claims_after_entities(ws: Seq<WriteModel>) -> bool {
    forall|j: int|
        0 <= j < ws.len() && (#[trigger] ws[j]) is Claim ==> {
            &&& exists|k: int| 0 <= k < j && (#[trigger] ws[k]) == WriteModel::Entity(ws[j]->Claim_0, ws[k]->Entity_1)
            &&& exists|k: int| 0 <= k < j && (#[trigger] ws[k]) == WriteModel::Entity(ws[j]->Claim_2, ws[k]->Entity_1)
        }
}

/// Every link comes after the insertion of its entity.
pub open spec fn links_after_entities(ws: Seq<WriteModel>) -> bool {
    forall|j: int|
        0 <= j < ws.len() && (#[trigger] ws[j]) is Link ==> exists|k: int|
            0 <= k < j && (#[trigger] ws[k]) == WriteModel::Entity(ws[j]->Link_1, ws[k]->Entity_1)
}

/// What holds of the links of one entity, given the points already known.
proof fn lemma_link_writes_sound(e: Seq<char>, ids: Seq<u64>, known: Set<u64>)
    ensures
        ({
            let ws = link_writes(e, ids, known);
            &&& links_checked(ws, known)
            &&& checks_distinct(ws, known)
            &&& rejects_last(ws)
            &&& row_ids_fit(ws)
            &&& forall|j: int| 0 <= j < ws.len() ==> !((#[trigger] ws[j]) is Claim) && !(ws[j] is Entity)
            &&& forall|j: int| 0 <= j < ws.len() && (#[trigger] ws[j]) is Link ==> ws[j]->Link_1 == e
            &&& !rejected(ws) ==> checked_ids(ws).union(known) == ids.to_set().union(known)
        }),
    decreases ids.len(),
{
    let ws = link_writes(e, ids, known);
    if ids.len() == 0 {
        assert(checked_ids(ws) =~= Set::empty());
        assert(ids.to_set() =~= Set::empty());
    } else {
        let rest = ids.drop_last();
        let prev = link_writes(e, rest, known);
        lemma_link_writes_sound(e, rest, known);
        let id = ids.last();
        assert(ids == rest.push(id));
        rest.lemma_push_to_set_commute(id);
        if rejected(prev) {
        } else if !fits_row_id(id) {
            assert(ws == prev.push(WriteModel::Reject(id)));
            assert forall|j: int| 0 <= j < ws.len() && (#[trigger] ws[j]) is Link implies known.contains(poi_of(ws[j])) || exists|k: int|
                0 <= k < j && (#[trigger] ws[k]) is Require && poi_of(ws[k]) == poi_of(ws[j]) by {
                assert(ws[j] == prev[j]);
                if !known.contains(poi_of(ws[j])) {
                    let k = choose|k: int| 0 <= k < j && (#[trigger] prev[k]) is Require && poi_of(prev[k]) == poi_of(prev[j]);
                    assert(ws[k] == prev[k]);
                }
            }
            assert forall|j: int, k: int|
                0 <= j < k < ws.len() && (#[trigger] ws[j]) is Require && (#[trigger] ws[k]) is Require implies poi_of(ws[j]) != poi_of(ws[k]) by {
                assert(ws[j] == prev[j]);
                assert(ws[k] == prev[k]);
            }
            assert forall|j: int| 0 <= j < ws.len() - 1 implies !((#[trigger] ws[j]) is Reject) by {
                assert(ws[j] == prev[j]);
                if j < prev.len() - 1 {
                } else {
                    assert(!rejected(prev));
                }
            }
            assert forall|j: int| 0 <= j < ws.len() && ((#[trigger] ws[j]) is Require || ws[j] is Link) implies fits_row_id(poi_of(ws[j])) by {
                assert(ws[j] == prev[j]);
            }
            assert forall|j: int| 0 <= j < ws.len() implies !((#[trigger] ws[j]) is Claim) && !(ws[j] is Entity) by {
                if j < prev.len() {
                    assert(ws[j] == prev[j]);
                }
            }
            assert forall|j: int| 0 <= j < ws.len() && (#[trigger] ws[j]) is Require implies !known.contains(poi_of(ws[j])) by {
                assert(ws[j] == prev[j]);
            }
            assert forall|j: int| 0 <= j < ws.len() && (#[trigger] ws[j]) is Link implies ws[j]->Link_1 == e by {
                assert(ws[j] == prev[j]);
            }
        } else {
            let seen = known.contains(id) || rest.contains(id);
            let added: Seq<WriteModel> = if seen {
                seq![WriteModel::Link(id, e)]
            } else {
                seq![WriteModel::Require(id, e), WriteModel::Link(id, e)]
            };
            assert(ws =~= prev + added);
            assert(prev + added =~= ws);
            assert forall|j: int| 0 <= j < ws.len() && (#[trigger] ws[j]) is Link implies known.contains(poi_of(ws[j])) || exists|k: int|
                0 <= k < j && (#[trigger] ws[k]) is Require && poi_of(ws[k]) == poi_of(ws[j]) by {
                if j < prev.len() {
                    assert(ws[j] == prev[j]);
                    if !known.contains(poi_of(ws[j])) {
                        let k = choose|k: int| 0 <= k < j && (#[trigger] prev[k]) is Require && poi_of(prev[k]) == poi_of(prev[j]);
                        assert(ws[k] == prev[k]);
                    }
                } else if seen {
                    assert(ws[j] == WriteModel::Link(id, e));
                    if !known.contains(id) {
                        assert(rest.to_set().contains(id));
                        assert(checked_ids(prev).union(known).contains(id));
                        assert(checked_ids(prev).contains(id));
                        let k = choose|k: int| 0 <= k < prev.len() && (#[trigger] prev[k]) is Require && poi_of(prev[k]) == id;
                        assert(ws[k] == prev[k]);
                    }
                } else {
                    assert(j == prev.len() + 1);
                    assert(ws[prev.len() as int] == WriteModel::Require(id, e));
                }
            }
            assert forall|j: int, k: int|
                0 <= j < k < ws.len() && (#[trigger] ws[j]) is Require && (#[trigger] ws[k]) is Require implies poi_of(ws[j]) != poi_of(ws[k]) by {
                if k < prev.len() {
                    assert(ws[j] == prev[j]);
                    assert(ws[k] == prev[k]);
                } else {
                    assert(!seen && k == prev.len());
                    assert(ws[j] == prev[j]);
                    assert(ws[k] == WriteModel::Require(id, e));
                    if poi_of(prev[j]) == id {
                        assert(checked_ids(prev).contains(id));
                        assert(rest.to_set().union(known).contains(id));
                    }
                }
            }
            assert forall|j: int| 0 <= j < ws.len() && (#[trigger] ws[j]) is Require implies !known.contains(poi_of(ws[j])) by {
                if j < prev.len() {
                    assert(ws[j] == prev[j]);
                }
            }
            assert forall|j: int| 0 <= j < ws.len() - 1 implies !((#[trigger] ws[j]) is Reject) by {
                if j < prev.len() {
                    assert(ws[j] == prev[j]);
                    if j == prev.len() - 1 {
                        assert(!rejected(prev));
                    }
                }
            }
            assert forall|j: int| 0 <= j < ws.len() && ((#[trigger] ws[j]) is Require || ws[j] is Link) implies fits_row_id(poi_of(ws[j])) by {
                if j < prev.len() {
                    assert(ws[j] == prev[j]);
                }
            }
            assert forall|j: int| 0 <= j < ws.len() implies !((#[trigger] ws[j]) is Claim) && !(ws[j] is Entity) by {
                if j < prev.len() {
                    assert(ws[j] == prev[j]);
                }
            }
            assert forall|j: int| 0 <= j < ws.len() && (#[trigger] ws[j]) is Link implies ws[j]->Link_1 == e by {
                if j < prev.len() {
                    assert(ws[j] == prev[j]);
                } else {
                    assert(ws[j] == added[j - prev.len()]);
                }
            }
            assert(!rejected(ws));
            assert(ids[ids.len() - 1] == id);
            assert(ids.to_set().contains(id));
            assert(ids.to_set() =~= rest.to_set().insert(id));
            if seen && !known.contains(id) {
                assert(rest.to_set().contains(id));
            }
            assert forall|x: u64| checked_ids(ws).union(known).contains(x) <==> ids.to_set().union(known).contains(x) by {
                if checked_ids(ws).contains(x) {
                    let k = choose|k: int| 0 <= k < ws.len() && (#[trigger] ws[k]) is Require && poi_of(ws[k]) == x;
                    if k < prev.len() {
                        assert(ws[k] == prev[k]);
                        assert(checked_ids(prev).contains(x));
                        assert(rest.to_set().union(known).contains(x));
                    } else {
                        assert(ws[k] == added[k - prev.len()]);
                        assert(x == id);
                    }
                }
                if rest.to_set().contains(x) && !known.contains(x) {
                    assert(checked_ids(prev).union(known).contains(x));
                }
                if checked_ids(prev).contains(x) {
                    let k = choose|k: int| 0 <= k < prev.len() && (#[trigger] prev[k]) is Require && poi_of(prev[k]) == x;
                    assert(ws[k] == prev[k]);
                    assert(checked_ids(ws).contains(x));
                }
                if x == id && !seen {
                    assert(ws[prev.len() as int] == WriteModel::Require(id, e));
                    assert(checked_ids(ws).contains(x));
                }
            }
            assert(checked_ids(ws).union(known) =~= ids.to_set().union(known));
        }
    }
}

/// The designation writes: each claim directly follows the insertion of
/// its value, and concerns the entity.
proof fn lemma_designation_writes_shape(e: Seq<char>, ds: Seq<Seq<char>>)
    ensures
        ({
            let ws = designation_writes(e, ds);
            forall|j: int|
                0 <= j < ws.len() ==> match #[trigger] ws[j] {
                    WriteModel::Claim(a, _, v) => j >= 1 && a == e && ws[j - 1] is Entity && ws[j - 1]->Entity_0 == v,
                    WriteModel::Entity(_, _) => true,
                    _ => false,
                }
        }),
    decreases ds.len(),
{
    if ds.len() > 0 {
        lemma_designation_writes_shape(e, ds.drop_last());
        let prev = designation_writes(e, ds.drop_last());
        let ws = designation_writes(e, ds);
        assert forall|j: int| 0 <= j < ws.len() implies match #[trigger] ws[j] {
            WriteModel::Claim(a, _, v) => j >= 1 && a == e && ws[j - 1] is Entity && ws[j - 1]->Entity_0 == v,
            WriteModel::Entity(_, _) => true,
            _ => false,
        } by {
            if j < prev.len() {
                assert(ws[j] == prev[j]);
                if j >= 1 {
                    assert(ws[j - 1] == prev[j - 1]);
                }
            }
        }
    }
}

/// The checks and rejections of a plan (see [`lemma_plan_sound`]).
proof fn lemma_plan_checks(claims: Seq<ClaimsModel>)
    ensures
        ({
            let ws = plan_writes(claims);
            &&& links_checked(ws, Set::empty())
            &&& checks_distinct(ws, Set::empty())
            &&& rejects_last(ws)
            &&& row_ids_fit(ws)
            &&& !rejected(ws) ==> checked_ids(ws) == linked_ids(claims)
        }),
    decreases claims.len(),
{
    let ws = plan_writes(claims);
    if claims.len() == 0 {
        assert(checked_ids(ws) =~= Set::empty());
    } else {
        let rest = claims.drop_last();
        let prev = plan_writes(rest);
        lemma_plan_checks(rest);
        if !rejected(prev) {
            let c = claims.last();
            let known = linked_ids(rest);
            let head = seq![WriteModel::Entity(c.0, "insert entity"@)];
            let dw = designation_writes(c.0, c.2);
            let lw = link_writes(c.0, c.1, known);
            lemma_link_writes_sound(c.0, c.1, known);
            lemma_designation_writes_shape(c.0, c.2);
            lemma_designations_not_rejected(c.0, c.2);
            let a: int = prev.len() as int;
            let b = a + 1;
            let d = b + dw.len();
            assert(ws =~= prev + head + dw + lw);
            assert forall|j: int| a <= j < d implies ws[j] is Entity || ws[j] is Claim by {
                if j > a {
                    assert(ws[j] == dw[j - b]);
                }
            }
            assert forall|j: int| 0 <= j < ws.len() && (#[trigger] ws[j]) is Link implies Set::<u64>::empty().contains(poi_of(ws[j])) || exists|k: int|
                0 <= k < j && (#[trigger] ws[k]) is Require && poi_of(ws[k]) == poi_of(ws[j]) by {
                if j < a {
                    assert(ws[j] == prev[j]);
                    let k = choose|k: int| 0 <= k < j && (#[trigger] prev[k]) is Require && poi_of(prev[k]) == poi_of(prev[j]);
                    assert(ws[k] == prev[k]);
                } else {
                    assert(ws[j] == lw[j - d]);
                    if known.contains(poi_of(ws[j])) {
                        assert(checked_ids(prev).contains(poi_of(ws[j])));
                        let k = choose|k: int| 0 <= k < prev.len() && (#[trigger] prev[k]) is Require && poi_of(prev[k]) == poi_of(ws[j]);
                        assert(ws[k] == prev[k]);
                    } else {
                        let k = choose|k: int| 0 <= k < j - d && (#[trigger] lw[k]) is Require && poi_of(lw[k]) == poi_of(lw[j - d]);
                        assert(ws[k + d] == lw[k]);
                    }
                }
            }
            assert forall|j: int, k: int|
                0 <= j < k < ws.len() && (#[trigger] ws[j]) is Require && (#[trigger] ws[k]) is Require implies poi_of(ws[j]) != poi_of(ws[k]) by {
                if k < a {
                    assert(ws[j] == prev[j]);
                    assert(ws[k] == prev[k]);
                } else {
                    assert(ws[k] == lw[k - d]);
                    if j < a {
                        assert(ws[j] == prev[j]);
                        assert(checked_ids(prev).contains(poi_of(prev[j])));
                        assert(!known.contains(poi_of(lw[k - d])));
                    } else {
                        assert(ws[j] == lw[j - d]);
                    }
                }
            }
            assert forall|j: int| 0 <= j < ws.len() - 1 implies !((#[trigger] ws[j]) is Reject) by {
                if j < a {
                    assert(ws[j] == prev[j]);
                    if j == a - 1 {
                        assert(!rejected(prev));
                    }
                } else if j >= d {
                    assert(ws[j] == lw[j - d]);
                }
            }
            assert forall|j: int| 0 <= j < ws.len() && ((#[trigger] ws[j]) is Require || ws[j] is Link) implies fits_row_id(poi_of(ws[j])) by {
                if j < a {
                    assert(ws[j] == prev[j]);
                } else {
                    assert(ws[j] == lw[j - d]);
                }
            }
            if !rejected(ws) {
                if lw.len() > 0 {
                    assert(ws.last() == lw.last());
                } else if dw.len() > 0 {
                    assert(ws.last() == dw.last());
                }
                assert(!rejected(lw));
                assert forall|x: u64| checked_ids(ws).contains(x) <==> linked_ids(claims).contains(x) by {
                    if checked_ids(ws).contains(x) {
                        let k = choose|k: int| 0 <= k < ws.len() && (#[trigger] ws[k]) is Require && poi_of(ws[k]) == x;
                        if k < a {
                            assert(ws[k] == prev[k]);
                            assert(checked_ids(prev).contains(x));
                        } else {
                            assert(ws[k] == lw[k - d]);
                            assert(checked_ids(lw).contains(x));
                        }
                    }
                    if checked_ids(prev).contains(x) {
                        let k = choose|k: int| 0 <= k < prev.len() && (#[trigger] prev[k]) is Require && poi_of(prev[k]) == x;
                        assert(ws[k] == prev[k]);
                        assert(checked_ids(ws).contains(x));
                    }
                    if checked_ids(lw).contains(x) {
                        let k = choose|k: int| 0 <= k < lw.len() && (#[trigger] lw[k]) is Require && poi_of(lw[k]) == x;
                        assert(ws[k + d] == lw[k]);
                        assert(checked_ids(ws).contains(x));
                    }
                    assert(checked_ids(lw).union(known).contains(x) == c.1.to_set().union(known).contains(x));
                }
                assert(checked_ids(ws) =~= linked_ids(claims));
            }
        }
    }
}

/// The entity insertions of a plan (see [`lemma_plan_sound`]).
proof fn lemma_plan_entities(claims: Seq<ClaimsModel>)
    ensures
        claims_after_entities(plan_writes(claims)),
        links_after_entities(plan_writes(claims)),
    decreases claims.len(),
{
    let ws = plan_writes(claims);
    if claims.len() > 0 {
        let rest = claims.drop_last();
        let prev = plan_writes(rest);
        lemma_plan_entities(rest);
        if !rejected(prev) {
            let c = claims.last();
            let head = seq![WriteModel::Entity(c.0, "insert entity"@)];
            let dw = designation_writes(c.0, c.2);
            let lw = link_writes(c.0, c.1, linked_ids(rest));
            lemma_link_writes_sound(c.0, c.1, linked_ids(rest));
            lemma_designation_writes_shape(c.0, c.2);
            let a: int = prev.len() as int;
            let b = a + 1;
            let d = b + dw.len();
            assert(ws =~= prev + head + dw + lw);
            assert forall|j: int| a <= j < d implies ws[j] is Entity || ws[j] is Claim by {
                if j > a {
                    assert(ws[j] == dw[j - b]);
                }
            }
            assert forall|j: int| 0 <= j < ws.len() && (#[trigger] ws[j]) is Claim implies {
                &&& exists|k: int| 0 <= k < j && (#[trigger] ws[k]) == WriteModel::Entity(ws[j]->Claim_0, ws[k]->Entity_1)
                &&& exists|k: int| 0 <= k < j && (#[trigger] ws[k]) == WriteModel::Entity(ws[j]->Claim_2, ws[k]->Entity_1)
            } by {
                if j < a {
                    assert(ws[j] == prev[j]);
                    let k1 = choose|k: int| 0 <= k < j && (#[trigger] prev[k]) == WriteModel::Entity(prev[j]->Claim_0, prev[k]->Entity_1);
                    let k2 = choose|k: int| 0 <= k < j && (#[trigger] prev[k]) == WriteModel::Entity(prev[j]->Claim_2, prev[k]->Entity_1);
                    assert(ws[k1] == prev[k1]);
                    assert(ws[k2] == prev[k2]);
                } else if j >= d {
                    assert(ws[j] == lw[j - d]);
                } else {
                    assert(j > a);
                    assert(ws[j] == dw[j - b]);
                    assert(ws[a] == WriteModel::Entity(c.0, "insert entity"@));
                    if j - b >= 1 {
                        assert(ws[j - 1] == dw[j - b - 1]);
                    }
                }
            }
            assert forall|j: int| 0 <= j < ws.len() && (#[trigger] ws[j]) is Link implies exists|k: int|
                0 <= k < j && (#[trigger] ws[k]) == WriteModel::Entity(ws[j]->Link_1, ws[k]->Entity_1) by {
                if j < a {
                    assert(ws[j] == prev[j]);
                    let k = choose|k: int| 0 <= k < j && (#[trigger] prev[k]) == WriteModel::Entity(prev[j]->Link_1, prev[k]->Entity_1);
                    assert(ws[k] == prev[k]);
                } else {
                    assert(ws[j] == lw[j - d]);
                    assert(ws[a] == WriteModel::Entity(c.0, "insert entity"@));
                }
            }
        }
    }
}

/// The plan of any sequence of entity claims checks every point of
/// interest before linking it, checks each point at most once, rejects at
/// most once and only at the end, writes only identifiers that fit SQLite
/// rows, inserts the entity and the value of every claim before the claim,
/// and inserts the entity of every link before the link. Unless rejected,
/// it checks exactly the linked points of interest.
pub proof fn lemma_plan_sound(claims: Seq<ClaimsModel>)
    ensures
        ({
            let ws = plan_writes(claims);
            &&& links_checked(ws, Set::empty())
            &&& checks_distinct(ws, Set::empty())
            &&& rejects_last(ws)
            &&& row_ids_fit(ws)
            &&& claims_after_entities(ws)
            &&& links_after_entities(ws)
            &&& !rejected(ws) ==> checked_ids(ws) == linked_ids(claims)
        }),
{
    lemma_plan_checks(claims);
    lemma_plan_entities(claims);
}

/// Whether `ws` inserts the entity `e` with the operation `op`.
pub open spec fn writes_entity(ws: Seq<WriteModel>, e: Seq<char>, op: Seq<char>) -> bool {
    exists|j: int| 0 <= j < ws.len() && #[trigger] ws[j] == WriteModel::Entity(e, op)
}

/// Whether `ws` inserts the designation entity `d` immediately followed by
/// the heritage designation claim of `e` with value `d`.
pub open spec fn writes_designation(ws: Seq<WriteModel>, e: Seq<char>, d: Seq<char>) -> bool {
    exists|j: int|
        1 <= j < ws.len() && ws[j - 1] == WriteModel::Entity(d, "insert designation entity"@)
            && #[trigger] ws[j] == WriteModel::Claim(e, HERITAGE_PROPERTY@, d)
}

/// Whether `ws` links the point of interest `id` to the entity `e`.
pub open spec fn writes_link(ws: Seq<WriteModel>, id: u64, e: Seq<char>) -> bool {
    exists|j: int| 0 <= j < ws.len() && #[trigger] ws[j] == WriteModel::Link(id, e)
}

/// Whether `ws` writes all of an entity's claims: the entity, each of its
/// heritage designations (the designation entity, then the claim), and a
/// link to each of its points of interest.
pub open spec fn claims_written(ws: Seq<WriteModel>, c: ClaimsModel) -> bool {
    &&& writes_entity(ws, c.0, "insert entity"@)
    &&& forall|k: int| 0 <= k < c.2.len() ==> writes_designation(ws, c.0, #[trigger] c.2[k])
    &&& forall|k: int| 0 <= k < c.1.len() ==> writes_link(ws, #[trigger] c.1[k], c.0)
}

/// What a sequence of writes writes, a longer one with it in front or
/// behind also writes.
proof fn lemma_claims_written_concat(a: Seq<WriteModel>, b: Seq<WriteModel>, c: ClaimsModel)
    requires
        claims_written(a, c) || claims_written(b, c),
    ensures
        claims_written(a + b, c),
{
    let ab = a + b;
    let off: int = if claims_written(a, c) { 0 } else { a.len() as int };
    let w = if claims_written(a, c) { a } else { b };
    assert forall|j: int| 0 <= j < w.len() implies ab[j + off] == w[j] by {}
    let j = choose|j: int| 0 <= j < w.len() && #[trigger] w[j] == WriteModel::Entity(c.0, "insert entity"@);
    assert(ab[j + off] == w[j]);
    assert forall|k: int| 0 <= k < c.2.len() implies writes_designation(ab, c.0, #[trigger] c.2[k]) by {
        let d = c.2[k];
        let j = choose|j: int|
            1 <= j < w.len() && w[j - 1] == WriteModel::Entity(d, "insert designation entity"@)
                && #[trigger] w[j] == WriteModel::Claim(c.0, HERITAGE_PROPERTY@, d);
        assert(ab[j + off] == w[j]);
        assert(ab[j - 1 + off] == w[j - 1]);
    }
    assert forall|k: int| 0 <= k < c.1.len() implies writes_link(ab, #[trigger] c.1[k], c.0) by {
        let j = choose|j: int| 0 <= j < w.len() && #[trigger] w[j] == WriteModel::Link(c.1[k], c.0);
        assert(ab[j + off] == w[j]);
    }
}

/// The designation writes: for the `k`-th designation, its entity at `2k`
/// and its claim at `2k + 1`.
proof fn lemma_designation_writes_index(e: Seq<char>, ds: Seq<Seq<char>>)
    ensures
        designation_writes(e, ds).len() == 2 * ds.len(),
        forall|k: int|
            0 <= k < ds.len() ==> designation_writes(e, ds)[2 * k] == WriteModel::Entity(
                #[trigger] ds[k],
                "insert designation entity"@,
            ) && designation_writes(e, ds)[2 * k + 1] == WriteModel::Claim(e, HERITAGE_PROPERTY@, ds[k]),
    decreases ds.len(),
{
    if ds.len() > 0 {
        let rest = ds.drop_last();
        lemma_designation_writes_index(e, rest);
        let prev = designation_writes(e, rest);
        let all = designation_writes(e, ds);
        assert forall|k: int| 0 <= k < ds.len() implies all[2 * k] == WriteModel::Entity(
            #[trigger] ds[k],
            "insert designation entity"@,
        ) && all[2 * k + 1] == WriteModel::Claim(e, HERITAGE_PROPERTY@, ds[k]) by {
            if k < rest.len() {
                assert(rest[k] == ds[k]);
                assert(all[2 * k] == prev[2 * k]);
                assert(all[2 * k + 1] == prev[2 * k + 1]);
            }
        }
    }
}

/// Unless the links end with a rejection, every point of interest is
/// linked to the entity.
proof fn lemma_link_writes_complete(e: Seq<char>, ids: Seq<u64>, known: Set<u64>)
    ensures
        !rejected(link_writes(e, ids, known)) ==> forall|k: int|
            0 <= k < ids.len() ==> writes_link(link_writes(e, ids, known), #[trigger] ids[k], e),
    decreases ids.len(),
{
    if ids.len() > 0 {
        let rest = ids.drop_last();
        let prev = link_writes(e, rest, known);
        let ws = link_writes(e, ids, known);
        lemma_link_writes_complete(e, rest, known);
        let id = ids.last();
        if !rejected(ws) {
            assert(!rejected(prev));
            assert(fits_row_id(id));
            assert(ws.last() == WriteModel::Link(id, e));
            assert forall|k: int| 0 <= k < ids.len() implies writes_link(ws, #[trigger] ids[k], e) by {
                if k < rest.len() {
                    assert(rest[k] == ids[k]);
                    let j = choose|j: int| 0 <= j < prev.len() && #[trigger] prev[j] == WriteModel::Link(rest[k], e);
                    assert(ws[j] == prev[j]);
                } else {
                    assert(ws[ws.len() - 1] == WriteModel::Link(id, e));
                }
            }
        }
    }
}

/// Unless the plan is rejected, it writes every entity's claims in full:
/// the entity, each heritage designation (its entity, then the claim), and a
/// link to each point of interest.
pub proof fn lemma_plan_complete(claims: Seq<ClaimsModel>)
    ensures
        !rejected(plan_writes(claims)) ==> forall|i: int|
            0 <= i < claims.len() ==> claims_written(plan_writes(claims), #[trigger] claims[i]),
    decreases claims.len(),
{
    let ws = plan_writes(claims);
    if claims.len() > 0 && !rejected(ws) {
        let rest = claims.drop_last();
        let prev = plan_writes(rest);
        lemma_plan_complete(rest);
        assert(!rejected(prev));
        let c = claims.last();
        let known = linked_ids(rest);
        let head = seq![WriteModel::Entity(c.0, "insert entity"@)];
        let dw = designation_writes(c.0, c.2);
        let lw = link_writes(c.0, c.1, known);
        let cw = claim_writes(c, known);
        assert(ws == prev + cw);
        assert(cw =~= head + dw + lw);
        assert(!rejected(lw)) by {
            if lw.len() > 0 {
                assert(cw.last() == lw.last());
                assert(ws.last() == cw.last());
            }
        }
        lemma_designation_writes_index(c.0, c.2);
        lemma_link_writes_complete(c.0, c.1, known);
        assert(claims_written(cw, c)) by {
            assert(cw[0] == WriteModel::Entity(c.0, "insert entity"@));
            assert forall|k: int| 0 <= k < c.2.len() implies writes_designation(cw, c.0, #[trigger] c.2[k]) by {
                assert(cw[1 + 2 * k] == dw[2 * k]);
                assert(cw[2 + 2 * k] == dw[2 * k + 1]);
                assert(cw[(2 + 2 * k) - 1] == cw[1 + 2 * k]);
            }
            assert forall|k: int| 0 <= k < c.1.len() implies writes_link(cw, #[trigger] c.1[k], c.0) by {
                let j = choose|j: int| 0 <= j < lw.len() && #[trigger] lw[j] == WriteModel::Link(c.1[k], c.0);
                assert(cw[1 + dw.len() + j] == lw[j]);
            }
        }
        assert forall|i: int| 0 <= i < claims.len() implies claims_written(ws, #[trigger] claims[i]) by {
            if i < rest.len() {
                assert(rest[i] == claims[i]);
                lemma_claims_written_concat(prev, cw, claims[i]);
            } else {
                lemma_claims_written_concat(prev, cw, c);
            }
        }
    }
}

/// Whether a write comes from the entity claims: an entity or one of its
/// designations inserted, a heritage designation claim of an entity with one
/// of its designations, a check or link of one of an entity's points of
/// interest, or the rejection of such a point whose identifier does not fit
/// a row identifier.
pub open spec fn write_from_claims(w: WriteModel, claims: Seq<ClaimsModel>) -> bool {
    match w {
        WriteModel::Entity(e, op) => exists|i: int|
            0 <= i < claims.len() && ((e == (#[trigger] claims[i]).0 && op == "insert entity"@) || (op
                == "insert designation entity"@ && claims[i].2.contains(e))),
        WriteModel::Claim(e, p, d) => exists|i: int|
            0 <= i < claims.len() && e == (#[trigger] claims[i]).0 && p == HERITAGE_PROPERTY@
                && claims[i].2.contains(d),
        WriteModel::Require(id, e) => exists|i: int|
            0 <= i < claims.len() && e == (#[trigger] claims[i]).0 && claims[i].1.contains(id),
        WriteModel::Link(id, e) => exists|i: int|
            0 <= i < claims.len() && e == (#[trigger] claims[i]).0 && claims[i].1.contains(id),
        WriteModel::Reject(id) => !fits_row_id(id) && exists|i: int|
            0 <= i < claims.len() && (#[trigger] claims[i]).1.contains(id),
    }
}

/// Every write of an entity's links is a check, link or rejection of one
/// of its points of interest, a rejection only for an identifier that does
/// not fit a row identifier.
proof fn lemma_link_writes_from(e: Seq<char>, ids: Seq<u64>, known: Set<u64>)
    ensures
        forall|j: int|
            0 <= j < link_writes(e, ids, known).len() ==> match #[trigger] link_writes(e, ids, known)[j] {
                WriteModel::Require(id, e2) => e2 == e && ids.contains(id),
                WriteModel::Link(id, e2) => e2 == e && ids.contains(id),
                WriteModel::Reject(id) => !fits_row_id(id) && ids.contains(id),
                _ => false,
            },
    decreases ids.len(),
{
    if ids.len() > 0 {
        let rest = ids.drop_last();
        let prev = link_writes(e, rest, known);
        let ws = link_writes(e, ids, known);
        lemma_link_writes_from(e, rest, known);
        let id = ids.last();
        assert(ids[ids.len() - 1] == id);
        assert forall|j: int| 0 <= j < ws.len() implies match #[trigger] ws[j] {
            WriteModel::Require(x, e2) => e2 == e && ids.contains(x),
            WriteModel::Link(x, e2) => e2 == e && ids.contains(x),
            WriteModel::Reject(x) => !fits_row_id(x) && ids.contains(x),
            _ => false,
        } by {
            if j < prev.len() {
                assert(ws[j] == prev[j]);
                match prev[j] {
                    WriteModel::Require(x, _) => {
                        let k = choose|k: int| 0 <= k < rest.len() && rest[k] == x;
                        assert(ids[k] == rest[k]);
                    },
                    WriteModel::Link(x, _) => {
                        let k = choose|k: int| 0 <= k < rest.len() && rest[k] == x;
                        assert(ids[k] == rest[k]);
                    },
                    WriteModel::Reject(x) => {
                        let k = choose|k: int| 0 <= k < rest.len() && rest[k] == x;
                        assert(ids[k] == rest[k]);
                    },
                    _ => {},
                }
            }
        }
    }
}

/// Every write of a plan comes from the entity claims (see
/// [`write_from_claims`]): the plan writes nothing that the claims do not
/// hold.
pub proof fn lemma_plan_from_claims(claims: Seq<ClaimsModel>)
    ensures
        forall|j: int|
            0 <= j < plan_writes(claims).len() ==> write_from_claims(#[trigger] plan_writes(claims)[j], claims),
    decreases claims.len(),
{
    let ws = plan_writes(claims);
    if claims.len() > 0 {
        let rest = claims.drop_last();
        let prev = plan_writes(rest);
        lemma_plan_from_claims(rest);
        let n = claims.len() - 1;
        let c = claims.last();
        assert(claims[n] == c);
        assert forall|j: int| 0 <= j < prev.len() implies write_from_claims(#[trigger] prev[j], claims) by {
            assert(write_from_claims(prev[j], rest));
            match prev[j] {
                WriteModel::Entity(e, op) => {
                    let i = choose|i: int|
                        0 <= i < rest.len() && ((e == (#[trigger] rest[i]).0 && op == "insert entity"@) || (op
                            == "insert designation entity"@ && rest[i].2.contains(e)));
                    assert(claims[i] == rest[i]);
                },
                WriteModel::Claim(e, p, d) => {
                    let i = choose|i: int|
                        0 <= i < rest.len() && e == (#[trigger] rest[i]).0 && p == HERITAGE_PROPERTY@
                            && rest[i].2.contains(d);
                    assert(claims[i] == rest[i]);
                },
                WriteModel::Require(id, e) => {
                    let i = choose|i: int| 0 <= i < rest.len() && e == (#[trigger] rest[i]).0 && rest[i].1.contains(id);
                    assert(claims[i] == rest[i]);
                },
                WriteModel::Link(id, e) => {
                    let i = choose|i: int| 0 <= i < rest.len() && e == (#[trigger] rest[i]).0 && rest[i].1.contains(id);
                    assert(claims[i] == rest[i]);
                },
                WriteModel::Reject(id) => {
                    let i = choose|i: int| 0 <= i < rest.len() && (#[trigger] rest[i]).1.contains(id);
                    assert(claims[i] == rest[i]);
                },
            }
        }
        if !rejected(prev) {
            let known = linked_ids(rest);
            let head = seq![WriteModel::Entity(c.0, "insert entity"@)];
            let dw = designation_writes(c.0, c.2);
            let lw = link_writes(c.0, c.1, known);
            let cw = claim_writes(c, known);
            assert(ws == prev + cw);
            assert(cw =~= head + dw + lw);
            lemma_designation_writes_index(c.0, c.2);
            lemma_link_writes_from(c.0, c.1, known);
            assert forall|j: int| 0 <= j < ws.len() implies write_from_claims(#[trigger] ws[j], claims) by {
                if j < prev.len() {
                    assert(ws[j] == prev[j]);
                } else {
                    let t = j - prev.len();
                    assert(ws[j] == cw[t]);
                    if t == 0 {
                        assert(cw[0] == WriteModel::Entity(c.0, "insert entity"@));
                    } else if t < 1 + dw.len() {
                        let u = t - 1;
                        let k = u / 2;
                        assert(cw[t] == dw[u]);
                        assert(0 <= k < c.2.len());
                        if u % 2 == 0 {
                            assert(u == 2 * k);
                        } else {
                            assert(u == 2 * k + 1);
                        }
                        assert(c.2[k] == c.2[k]);
                    } else {
                        assert(cw[t] == lw[t - 1 - dw.len()]);
                    }
                }
            }
        }
    }
}

/// Statement creating the table of points of interest.
pub const CREATE_POIS_SQL: &'static str =
    "CREATE TABLE IF NOT EXISTS pois (
                id INTEGER PRIMARY KEY,
                lon REAL NOT NULL,
                lat REAL NOT NULL,
                tags TEXT NOT NULL
            )";

/// Statement writing a point of interest (parameters: row identifier,
/// longitude, latitude, JSON tags).
pub const INSERT_POI_SQL: &'static str = "INSERT OR REPLACE INTO pois (id, lon, lat, tags) VALUES (?1, ?2, ?3, ?4)";

/// Errors raised when persisting ingested points of interest to SQLite.
#[derive(Debug)]
pub enum PersistPoisError {
    /// Creating the parent directory of the database failed.
    CreateDirectory { path: camino::Utf8PathBuf, source: std::io::Error },
    /// Opening the database failed.
    Open { path: camino::Utf8PathBuf, source: rusqlite::Error },
    /// Enabling SQLite foreign keys failed.
    ForeignKeys { source: rusqlite::Error },
    /// Beginning the transaction failed.
    BeginTransaction { source: rusqlite::Error },
    /// Creating the `pois` table failed.
    CreateSchema { source: rusqlite::Error },
    /// A point of interest identifier does not fit SQLite's `i64`.
    PoiIdOutOfRange { poi_id: u64 },
    /// Serialising the tags of a point of interest failed.
    SerializeTags { poi_id: u64, source: serde_json::Error },
    /// Writing a point of interest row failed.
    PersistRow { poi_id: u64, source: rusqlite::Error },
    /// Preparing the insert statement failed.
    PrepareInsert { source: rusqlite::Error },
    /// Committing the transaction failed.
    Commit { source: rusqlite::Error },
}

/// The SQLite row identifier of a point of interest, which must fit an
/// `i64`.
pub fn poi_row_id(poi_id: u64) -> (result: Result<i64, PersistPoisError>)
    ensures
        fits_row_id(poi_id) ==> (result matches Ok(r) && r as int == poi_id as int),
        !fits_row_id(poi_id) ==> (result matches Err(PersistPoisError::PoiIdOutOfRange { poi_id: p })
            && p == poi_id),
{
    if poi_id > 0x7fff_ffff_ffff_ffff {
        Err(PersistPoisError::PoiIdOutOfRange { poi_id })
    } else {
        Ok(poi_id as i64)
    }
}

/// The outcome of a point of interest check: an error naming the point of
/// interest and the entity that references it when the row is missing.
pub fn require_poi_outcome(poi_id: u64, entity_id: &str, present: bool) -> (result: Result<(), PersistClaimsError>)
    ensures
        present ==> result is Ok,
        !present ==> (result matches Err(PersistClaimsError::MissingPoi { poi_id: p, entity_id: e })
            && p == poi_id && e@ == entity_id@),
{
    if present {
        Ok(())
    } else {
        Err(PersistClaimsError::MissingPoi { poi_id, entity_id: String::from_str(entity_id) })
    }
}

} // verus!
