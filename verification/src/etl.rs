//! Extraction of Wikidata claims for entities linked from points of interest.
//!
//! The caller streams the dump line by line and decodes each entity with a
//! JSON parser; this module decides which lines hold an entity, normalises
//! entity identifiers, links entities to the points of interest that carry a
//! `wikidata` tag, and extracts the heritage designation claims (`P1435`).

use vstd::prelude::*;

use crate::poi::PointOfInterest;
use crate::text::{
    CharsOrder, chars_lt, chars_of, compare_chars, is_ascii_digit, is_structural_chars,
    is_structural_range, lemma_chars_lt_transitive, skip_leading_char, sort_dedup_strings,
    str_eq, string_from_chars, string_views, strictly_sorted_chars, trim, trim_bounds,
    trim_start_char, is_ws, trim_start, trim_end,
};

verus! {

/// The part of `s` after the last character equal to `sep1` or `sep2` (all
/// of `s` when there is none); the first item of `str::rsplit`.
pub open spec fn after_last(s: Seq<char>, sep1: char, sep2: char) -> Seq<char>
    decreases s.len(),
{
    if s.len() == 0 {
        s
    } else if s.last() == sep1 || s.last() == sep2 {
        Seq::empty()
    } else {
        after_last(s.drop_last(), sep1, sep2).push(s.last())
    }
}

/// The meaning of a normalised Wikidata identifier: trim the input, keep
/// the last path or fragment segment and the part after its last `:`, trim
/// again, and accept `Q` or `q` followed by one or more ASCII digits. The
/// result is `Q` followed by the digits.
pub open spec fn spec_normalise_wikidata_id(input: Seq<char>) -> Option<Seq<char>> {
    let trimmed = trim(input);
    if trimmed.len() == 0 {
        None
    } else {
        qid_of_segment(trim(after_last(after_last(trimmed, '/', '#'), ':', ':')))
    }
}

/// `Q` followed by the digits of a segment of the form `Q<digits>` or
/// `q<digits>` (at least one ASCII digit).
pub open spec fn qid_of_segment(segment: Seq<char>) -> Option<Seq<char>> {
    if segment.len() == 0 || !(segment[0] == 'Q' || segment[0] == 'q') {
        None
    } else {
        let digits = segment.drop_first();
        if digits.len() == 0 || !(forall|i: int|
            0 <= i < digits.len() ==> is_ascii_digit(#[trigger] digits[i])) {
            None
        } else {
            Some(seq!['Q'] + digits)
        }
    }
}

/// Recognise a segment of the form `Q<digits>` in `chars[c..d]`.
fn parse_qid(chars: &Vec<char>, c: usize, d: usize) -> (result: Option<String>)
    requires
        c <= d <= chars@.len(),
    ensures
        match result {
            Some(id) => qid_of_segment(chars@.subrange(c as int, d as int)) == Some(id@),
            None => qid_of_segment(chars@.subrange(c as int, d as int)) is None,
        },
{
    let ghost seg = chars@.subrange(c as int, d as int);
    if c == d {
        return None;
    }
    let prefix = chars[c];
    assert(seg[0] == prefix);
    if !(prefix == 'Q' || prefix == 'q') {
        return None;
    }
    assert(seg.drop_first() =~= chars@.subrange(c + 1, d as int));
    if c + 1 == d {
        return None;
    }
    let mut i = c + 1;
    while i < d
        invariant
            c + 1 <= i <= d <= chars@.len(),
            seg == chars@.subrange(c as int, d as int),
            seg.len() > 0,
            seg[0] == 'Q' || seg[0] == 'q',
            seg.drop_first() == chars@.subrange(c + 1, d as int),
            forall|k: int| c + 1 <= k < i ==> is_ascii_digit(#[trigger] chars@[k]),
        decreases d - i,
    {
        if !('0' <= chars[i] && chars[i] <= '9') {
            proof {
                assert(seg.drop_first()[i - c - 1] == chars@[i as int]);
                assert(!is_ascii_digit(seg.drop_first()[i - c - 1]));
                assert(seg.len() > 0 && (seg[0] == 'Q' || seg[0] == 'q'));
                assert(qid_of_segment(seg) is None);
            }
            return None;
        }
        i = i + 1;
    }
    let mut out = String::new();
    crate::text::push_char(&mut out, 'Q');
    let digits = string_from_chars(chars, c + 1, d);
    out.append(digits.as_str());
    proof {
        assert forall|k: int| 0 <= k < seg.drop_first().len() implies is_ascii_digit(
            #[trigger] seg.drop_first()[k],
        ) by {
            assert(seg.drop_first()[k] == chars@[c + 1 + k]);
        }
        assert(out@ =~= seq!['Q'] + seg.drop_first());
    }
    Some(out)
}

/// Start of the part of `chars[from..to]` after the last `sep1` or `sep2`.
fn last_segment_start(chars: &Vec<char>, from: usize, to: usize, sep1: char, sep2: char) -> (result:
    usize)
    requires
        from <= to <= chars@.len(),
    ensures
        from <= result <= to,
        chars@.subrange(result as int, to as int) == after_last(
            chars@.subrange(from as int, to as int),
            sep1,
            sep2,
        ),
{
    let mut j = to;
    assert(chars@.subrange(to as int, to as int) =~= Seq::<char>::empty());
    assert(chars@.subrange(from as int, to as int) + Seq::<char>::empty() =~= chars@.subrange(
        from as int,
        to as int,
    ));
    while j > from && chars[j - 1] != sep1 && chars[j - 1] != sep2
        invariant
            from <= j <= to <= chars@.len(),
            after_last(chars@.subrange(from as int, to as int), sep1, sep2) == after_last(
                chars@.subrange(from as int, j as int),
                sep1,
                sep2,
            ) + chars@.subrange(j as int, to as int),
        decreases j - from,
    {
        proof {
            let t = chars@.subrange(from as int, j as int);
            assert(t.drop_last() == chars@.subrange(from as int, j - 1));
            assert(t.last() == chars@[j - 1]);
            assert(after_last(t, sep1, sep2) == after_last(t.drop_last(), sep1, sep2).push(t.last()));
            assert(after_last(t.drop_last(), sep1, sep2).push(t.last()) + chars@.subrange(j as int, to as int)
                =~= after_last(t.drop_last(), sep1, sep2) + chars@.subrange(j - 1, to as int));
        }
        j = j - 1;
    }
    proof {
        let t = chars@.subrange(from as int, j as int);
        if j > from {
            assert(t.last() == chars@[j - 1]);
        }
        assert(after_last(t, sep1, sep2) =~= Seq::<char>::empty());
        assert(Seq::<char>::empty() + chars@.subrange(j as int, to as int) =~= chars@.subrange(
            j as int,
            to as int,
        ));
    }
    j
}

/// A sequence without either separator is its own last segment.
proof fn lemma_after_last_without_separators(s: Seq<char>, sep1: char, sep2: char)
    requires
        forall|i: int| 0 <= i < s.len() ==> #[trigger] s[i] != sep1 && s[i] != sep2,
    ensures
        after_last(s, sep1, sep2) == s,
    decreases s.len(),
{
    if s.len() > 0 {
        assert(s[s.len() - 1] == s.last());
        assert forall|i: int| 0 <= i < s.drop_last().len() implies #[trigger] s.drop_last()[i] != sep1
            && s.drop_last()[i] != sep2 by {
            assert(s.drop_last()[i] == s[i]);
        }
        lemma_after_last_without_separators(s.drop_last(), sep1, sep2);
        assert(s.drop_last().push(s.last()) =~= s);
    }
}

/// Normalising a normalised identifier gives it back.
pub proof fn lemma_normalise_wikidata_id_idempotent(input: Seq<char>)
    ensures
        spec_normalise_wikidata_id(input) matches Some(id) ==> spec_normalise_wikidata_id(id) == Some(id),
{
    if let Some(id) = spec_normalise_wikidata_id(input) {
        let digits = id.drop_first();
        assert(id[0] == 'Q');
        assert(forall|i: int| 0 <= i < digits.len() ==> is_ascii_digit(#[trigger] digits[i]));
        assert forall|i: int| 0 <= i < id.len() implies #[trigger] id[i] != '/' && id[i] != '#' && id[i] != ':'
            && !is_ws(id[i]) by {
            if i > 0 {
                assert(id[i] == digits[i - 1]);
            }
        }
        assert(trim_start(id) == id);
        assert(id.last() == id[id.len() - 1]);
        assert(trim_end(id) == id);
        lemma_after_last_without_separators(id, '/', '#');
        lemma_after_last_without_separators(id, ':', ':');
        assert(seq!['Q'] + id.drop_first() =~= id);
    }
}

/// Normalise a Wikidata entity reference (an identifier such as `Q64`, or a
/// URL or prefixed name ending in one) to the form `Q<digits>`.
pub fn normalise_wikidata_id(input: &str) -> (result: Option<String>)
    ensures
        match result {
            Some(id) => spec_normalise_wikidata_id(input@) == Some(id@),
            None => spec_normalise_wikidata_id(input@) is None,
        },
{
    let chars = chars_of(input);
    let n = chars.len();
    assert(chars@.subrange(0, n as int) == input@);
    let (a, b) = trim_bounds(&chars, 0, n);
    if a == b {
        return None;
    }
    let s1 = last_segment_start(&chars, a, b, '/', '#');
    let s2 = last_segment_start(&chars, s1, b, ':', ':');
    let (c, d) = trim_bounds(&chars, s2, b);
    parse_qid(&chars, c, d)
}

/// The meaning of `preprocess_json_line`: the entity text of a dump line
/// with surrounding whitespace, leading commas and one trailing comma
/// removed; `None` for lines that hold no entity.
pub open spec fn spec_preprocess_json_line(line: Seq<char>) -> Option<Seq<char>> {
    let t1 = trim(line);
    if is_structural_chars(t1) {
        None
    } else {
        let t2 = trim(trim_start_char(t1, ','));
        let t3 = if t2.len() > 0 && t2.last() == ',' {
            trim(t2.drop_last())
        } else {
            t2
        };
        if is_structural_chars(t3) {
            None
        } else {
            Some(t3)
        }
    }
}

/// Whether a dump line holds no entity: after trimming it is empty or a lone
/// bracket of the enclosing JSON array.
pub fn is_structural_line(line: &str) -> (result: bool)
    ensures
        result == is_structural_chars(line@),
{
    let chars = chars_of(line);
    assert(chars@.subrange(0, chars@.len() as int) == chars@);
    is_structural_range(&chars, 0, chars.len())
}

/// Extract the entity text of a dump line (see [`spec_preprocess_json_line`]).
pub fn preprocess_json_line<'a>(line: &'a str) -> (result: Option<&'a str>)
    ensures
        match result {
            Some(text) => spec_preprocess_json_line(line@) == Some(text@),
            None => spec_preprocess_json_line(line@) is None,
        },
{
    let chars = chars_of(line);
    let n = chars.len();
    assert(chars@.subrange(0, n as int) == line@);
    let (a, b) = trim_bounds(&chars, 0, n);
    if is_structural_range(&chars, a, b) {
        return None;
    }
    let k = skip_leading_char(&chars, a, b, ',');
    let (c, d) = trim_bounds(&chars, k, b);
    let (e, f) = if c < d && chars[d - 1] == ',' {
        proof {
            let t2 = chars@.subrange(c as int, d as int);
            assert(t2.last() == chars@[d - 1]);
            assert(t2.drop_last() == chars@.subrange(c as int, d - 1));
        }
        trim_bounds(&chars, c, d - 1)
    } else {
        proof {
            let t2 = chars@.subrange(c as int, d as int);
            if c < d {
                assert(t2.last() == chars@[d - 1]);
            }
        }
        (c, d)
    };
    if is_structural_range(&chars, e, f) {
        return None;
    }
    Some(line.substring_char(e, f))
}

/// Property identifier of heritage designation claims.
pub const HERITAGE_PROPERTY: &'static str = "P1435";

/// Identifier of a Wikidata entity in a claim value.
#[derive(Debug)]
pub struct RawEntityId {
    pub id: String,
}

/// Data value of a claim: an entity reference, or anything else.
#[derive(Debug)]
pub enum RawDataValue {
    Entity { value: RawEntityId },
    Unsupported,
}

/// Kind of a claim's main snak.
#[derive(Copy, Clone, Debug, PartialEq, Eq, Structural)]
pub enum RawSnakType {
    Value,
    Somevalue,
    Novalue,
}

/// Main snak of a claim.
#[derive(Debug)]
pub struct RawSnak {
    pub snak_type: RawSnakType,
    pub data_value: Option<RawDataValue>,
}

/// A claim of an entity.
#[derive(Debug)]
pub struct RawClaim {
    pub main_snak: RawSnak,
}

/// An entity of the dump: its identifier and its claims grouped by
/// property identifier.
#[derive(Debug)]
pub struct RawEntity {
    pub id: String,
    pub claims: Vec<(String, Vec<RawClaim>)>,
}

/// The entity a snak refers to: only value snaks with an entity data value
/// whose identifier normalises.
pub open spec fn spec_entity_target(snak: RawSnak) -> Option<Seq<char>> {
    if snak.snak_type != RawSnakType::Value {
        None
    } else {
        match snak.data_value {
            Some(RawDataValue::Entity { value }) => spec_normalise_wikidata_id(value.id@),
            _ => None,
        }
    }
}

impl RawSnak {
    /// The normalised identifier of the entity this snak refers to.
    pub fn entity_target(&self) -> (result: Option<String>)
        ensures
            match result {
                Some(t) => spec_entity_target(*self) == Some(t@),
                None => spec_entity_target(*self) is None,
            },
    {
        if self.snak_type != RawSnakType::Value {
            return None;
        }
        match &self.data_value {
            Some(RawDataValue::Entity { value }) => normalise_wikidata_id(value.id.as_str()),
            _ => None,
        }
    }
}

impl RawClaim {
    /// The heritage designation a claim names, if any.
    pub fn heritage_target(&self) -> (result: Option<String>)
        ensures
            match result {
                Some(t) => spec_entity_target(self.main_snak) == Some(t@),
                None => spec_entity_target(self.main_snak) is None,
            },
    {
        self.main_snak.entity_target()
    }
}

/// The claims recorded under `property` (those of the last group with that
/// property, as a map filled in order keeps them); empty when there is none.
pub open spec fn claims_for(groups: Seq<(String, Vec<RawClaim>)>, property: Seq<char>) -> Seq<
    RawClaim,
>
    decreases groups.len(),
{
    if groups.len() == 0 {
        Seq::empty()
    } else if groups.last().0@ == property {
        groups.last().1@
    } else {
        claims_for(groups.drop_last(), property)
    }
}

/// The targets of a sequence of claims, in order, skipping claims without
/// one.
pub open spec fn claim_targets(claims: Seq<RawClaim>) -> Seq<Seq<char>>
    decreases claims.len(),
{
    if claims.len() == 0 {
        Seq::empty()
    } else {
        let rest = claim_targets(claims.drop_last());
        match spec_entity_target(claims.last().main_snak) {
            Some(t) => rest.push(t),
            None => rest,
        }
    }
}

/// The heritage designations of an entity: the targets of its `P1435`
/// claims.
pub open spec fn spec_heritage_designations(entity: RawEntity) -> Seq<Seq<char>> {
    claim_targets(claims_for(entity.claims@, "P1435"@))
}

/// Index of the group holding the claims of `property`, as `claims_for`
/// picks it.
fn find_claims_group(groups: &Vec<(String, Vec<RawClaim>)>, property: &str) -> (result: Option<usize>)
    ensures
        match result {
            Some(i) => i < groups@.len() && claims_for(groups@, property@) == groups@[i as int].1@,
            None => claims_for(groups@, property@) == Seq::<RawClaim>::empty(),
        },
{
    let mut j = groups.len();
    assert(groups@.take(j as int) == groups@);
    while j > 0
        invariant
            j <= groups@.len(),
            claims_for(groups@, property@) == claims_for(groups@.take(j as int), property@),
        decreases j,
    {
        proof {
            let t = groups@.take(j as int);
            assert(t.drop_last() == groups@.take(j - 1));
            assert(t.last() == groups@[j - 1]);
        }
        if str_eq(groups[j - 1].0.as_str(), property) {
            return Some(j - 1);
        }
        j = j - 1;
    }
    None
}

impl RawEntity {
    /// Targets of the heritage designation claims (`P1435`), in claim order.
    pub fn heritage_designations(&self) -> (result: Vec<String>)
        ensures
            string_views(result@) == spec_heritage_designations(*self),
    {
        let mut out: Vec<String> = Vec::new();
        let group = find_claims_group(&self.claims, HERITAGE_PROPERTY);
        let ghost claims = claims_for(self.claims@, "P1435"@);
        match group {
            None => {
                assert(string_views(out@) =~= claim_targets(claims));
                out
            },
            Some(g) => {
                let list = &self.claims[g].1;
                let mut i: usize = 0;
                while i < list.len()
                    invariant
                        i <= list@.len(),
                        claims == list@,
                        string_views(out@) == claim_targets(list@.take(i as int)),
                    decreases list@.len() - i,
                {
                    proof {
                        let t = list@.take(i + 1);
                        assert(t.drop_last() == list@.take(i as int));
                        assert(t.last() == list@[i as int]);
                    }
                    match list[i].heritage_target() {
                        Some(t) => {
                            let ghost o0 = out@;
                            out.push(t);
                            assert(string_views(out@) =~= string_views(o0).push(t@));
                        },
                        None => {},
                    }
                    i = i + 1;
                }
                assert(list@.take(list@.len() as int) == list@);
                out
            },
        }
    }
}

/// Claims extracted for an entity referenced by one or more points of
/// interest.
#[derive(Debug, Clone, PartialEq, Eq)]
pub struct EntityClaims {
    /// The Wikidata entity identifier (e.g. `Q64`).
    pub entity_id: String,
    /// Points of interest that reference this entity via the `wikidata` tag.
    pub linked_poi_ids: Vec<u64>,
    /// Heritage designation entity identifiers (`P1435` claim targets).
    pub heritage_designations: Vec<String>,
}

impl EntityClaims {
    /// Build claims from their parts.
    pub fn new(entity_id: String, linked_poi_ids: Vec<u64>, heritage_designations: Vec<String>) -> (result: Self)
        ensures
            result.entity_id == entity_id,
            result.linked_poi_ids == linked_poi_ids,
            result.heritage_designations == heritage_designations,
    {
        EntityClaims { entity_id, linked_poi_ids, heritage_designations }
    }
}

/// Identifiers strictly increase along `s` (so they are also distinct).
pub open spec fn strictly_increasing(s: Seq<u64>) -> bool {
    forall|i: int, j: int| 0 <= i < j < s.len() ==> #[trigger] s[i] < #[trigger] s[j]
}

/// Insert `x` into a strictly increasing vector, keeping it strictly
/// increasing; nothing changes when `x` is already present.
pub fn insert_sorted_unique(v: &mut Vec<u64>, x: u64)
    requires
        strictly_increasing(old(v)@),
    ensures
        strictly_increasing(final(v)@),
        final(v)@.to_set() == old(v)@.to_set().insert(x),
{
    let mut p: usize = 0;
    while p < v.len() && v[p] < x
        invariant
            p <= v@.len(),
            forall|q: int| 0 <= q < p ==> #[trigger] v@[q] < x,
        decreases v@.len() - p,
    {
        p = p + 1;
    }
    let ghost v0 = v@;
    if p < v.len() && v[p] == x {
        assert(v0.to_set().insert(x) =~= v0.to_set());
        return;
    }
    v.insert(p, x);
    proof {
        let v1 = v@;
        assert(v1 =~= v0.insert(p as int, x));
        assert forall|a: int, b: int| 0 <= a < b < v1.len() implies #[trigger] v1[a] < #[trigger] v1[b] by {
            if b < p {
            } else if b == p {
            } else if a < p {
                assert(v1[b] == v0[b - 1]);
                if b - 1 > p {
                    assert(v0[p as int] < v0[b - 1]);
                }
            } else if a == p {
                assert(v1[b] == v0[b - 1]);
                if b - 1 > p {
                    assert(v0[p as int] < v0[b - 1]);
                }
            } else {
                assert(v1[a] == v0[a - 1] && v1[b] == v0[b - 1]);
            }
        }
        assert(v1.to_set() =~= v0.to_set().insert(x)) by {
            assert forall|y: u64| v1.to_set().contains(y) <==> v0.to_set().insert(x).contains(y) by {
                if v1.contains(y) {
                    let q = choose|q: int| 0 <= q < v1.len() && v1[q] == y;
                    if q < p {
                        assert(v0[q] == y);
                    } else if q > p {
                        assert(v0[q - 1] == y);
                    }
                }
                if v0.contains(y) {
                    let q = choose|q: int| 0 <= q < v0.len() && v0[q] == y;
                    if q < p {
                        assert(v1[q] == y);
                    } else {
                        assert(v1[q + 1] == y);
                    }
                }
                if y == x {
                    assert(v1[p as int] == y);
                }
            }
        }
    }
}

/// The entity a point of interest links to: its normalised `wikidata` tag.
pub open spec fn poi_entity<L>(poi: PointOfInterest<L>) -> Option<Seq<char>> {
    if poi.tags@.contains_key("wikidata"@) {
        spec_normalise_wikidata_id(poi.tags@["wikidata"@])
    } else {
        None
    }
}

/// Some point of interest in `pois` links to `entity`.
pub open spec fn entity_linked<L>(pois: Seq<PointOfInterest<L>>, entity: Seq<char>) -> bool {
    exists|j: int| 0 <= j < pois.len() && poi_entity(#[trigger] pois[j]) == Some(entity)
}

/// The identifiers of the points of interest in `pois` that link to
/// `entity`.
pub open spec fn linking_poi_ids<L>(pois: Seq<PointOfInterest<L>>, entity: Seq<char>) -> Set<u64> {
    Set::new(
        |id: u64|
            exists|j: int|
                0 <= j < pois.len() && poi_entity(#[trigger] pois[j]) == Some(entity) && pois[j].id
                    == id,
    )
}

/// Abstract entries of a link table: entity identifier and linked POI
/// identifiers.
pub type LinkEntries = Seq<(Seq<char>, Seq<u64>)>;

/// The table has an entry for `entity`.
pub open spec fn has_entity(entries: LinkEntries, entity: Seq<char>) -> bool {
    exists|i: int| 0 <= i < entries.len() && (#[trigger] entries[i]).0 == entity
}

/// The identifiers recorded for `entity`.
pub open spec fn ids_of_entity(entries: LinkEntries, entity: Seq<char>) -> Set<u64> {
    Set::new(
        |id: u64|
            exists|i: int|
                0 <= i < entries.len() && (#[trigger] entries[i]).0 == entity && entries[i].1.contains(
                    id,
                ),
    )
}

/// Well-formedness of a link table: entities strictly increase and each
/// identifier list strictly increases.
pub open spec fn links_wf(entries: LinkEntries) -> bool {
    &&& forall|i: int, j: int|
        0 <= i < j < entries.len() ==> chars_lt(#[trigger] entries[i].0, #[trigger] entries[j].0)
    &&& forall|i: int| 0 <= i < entries.len() ==> strictly_increasing(#[trigger] entries[i].1)
}

/// The table records exactly the links of `pois`.
pub open spec fn links_describe<L>(entries: LinkEntries, pois: Seq<PointOfInterest<L>>) -> bool {
    &&& forall|e: Seq<char>| #[trigger] has_entity(entries, e) == entity_linked(pois, e)
    &&& forall|e: Seq<char>| #[trigger] ids_of_entity(entries, e) == linking_poi_ids(pois, e)
}

/// Mapping between Wikidata entity identifiers and the identifiers of the
/// points of interest that link to them, both kept sorted.
#[derive(Debug, Clone, PartialEq, Eq)]
pub struct PoiEntityLinks {
    links: Vec<(String, Vec<u64>)>,
}

impl PoiEntityLinks {
    /// The entries of the table, in entity order.
    pub closed spec fn entries(&self) -> LinkEntries {
        self.links@.map_values(|e: (String, Vec<u64>)| (e.0@, e.1@))
    }

    /// An empty table.
    pub fn new() -> (result: Self)
        ensures
            result.entries().len() == 0,
            links_wf(result.entries()),
    {
        let result = PoiEntityLinks { links: Vec::new() };
        assert(result.entries().len() == 0);
        result
    }

    /// Build the table from points of interest: each point of interest whose
    /// `wikidata` tag normalises is linked to that entity.
    pub fn from_pois<L>(pois: &Vec<PointOfInterest<L>>) -> (result: Self)
        ensures
            links_wf(result.entries()),
            links_describe(result.entries(), pois@),
    {
        let mut links = PoiEntityLinks::new();
        let mut k: usize = 0;
        proof {
            assert(links_describe(links.entries(), pois@.take(0))) by {
                assert forall|e: Seq<char>| #[trigger] ids_of_entity(links.entries(), e) == linking_poi_ids(
                    pois@.take(0),
                    e,
                ) by {
                    assert(ids_of_entity(links.entries(), e) =~= linking_poi_ids(pois@.take(0), e));
                }
            }
        }
        while k < pois.len()
            invariant
                k <= pois@.len(),
                links_wf(links.entries()),
                links_describe(links.entries(), pois@.take(k as int)),
            decreases pois@.len() - k,
        {
            let ghost before = pois@.take(k as int);
            let ghost after = pois@.take(k + 1);
            let poi = &pois[k];
            proof {
                assert(after == before.push(*poi));
            }
            let entity = match poi.tags.get("wikidata") {
                Some(raw) => normalise_wikidata_id(raw.as_str()),
                None => None,
            };
            assert(match entity {
                Some(e) => poi_entity(*poi) == Some(e@),
                None => poi_entity(*poi) is None,
            });
            match entity {
                Some(e) => {
                    let ghost old_entries = links.entries();
                    links.add(e, poi.id);
                    proof {
                        assert forall|x: Seq<char>| #[trigger] has_entity(links.entries(), x) == entity_linked(
                            after,
                            x,
                        ) by {
                            if entity_linked(after, x) {
                                let j = choose|j: int| 0 <= j < after.len() && poi_entity(#[trigger] after[j]) == Some(x);
                                if j < before.len() {
                                    assert(before[j] == after[j]);
                                }
                            }
                            if entity_linked(before, x) {
                                let j = choose|j: int| 0 <= j < before.len() && poi_entity(#[trigger] before[j]) == Some(x);
                                assert(after[j] == before[j]);
                            }
                            if x == e@ {
                                assert(after[before.len() as int] == *poi);
                            }
                        }
                        assert forall|x: Seq<char>| #[trigger] ids_of_entity(links.entries(), x) == linking_poi_ids(
                            after,
                            x,
                        ) by {
                            assert forall|id: u64| linking_poi_ids(after, x).contains(id) == (linking_poi_ids(before, x).contains(id) || (x == e@ && id == poi.id)) by {
                                if linking_poi_ids(after, x).contains(id) {
                                    let j = choose|j: int| 0 <= j < after.len() && poi_entity(#[trigger] after[j]) == Some(x) && after[j].id == id;
                                    if j < before.len() {
                                        assert(before[j] == after[j]);
                                    }
                                }
                                if linking_poi_ids(before, x).contains(id) {
                                    let j = choose|j: int| 0 <= j < before.len() && poi_entity(#[trigger] before[j]) == Some(x) && before[j].id == id;
                                    assert(after[j] == before[j]);
                                }
                                if x == e@ && id == poi.id {
                                    assert(after[before.len() as int] == *poi);
                                }
                            }
                            assert(ids_of_entity(links.entries(), x) =~= linking_poi_ids(after, x));
                        }
                    }
                },
                None => {
                    proof {
                        assert forall|x: Seq<char>| #[trigger] has_entity(links.entries(), x) == entity_linked(
                            after,
                            x,
                        ) by {
                            if entity_linked(after, x) {
                                let j = choose|j: int| 0 <= j < after.len() && poi_entity(#[trigger] after[j]) == Some(x);
                                if j < before.len() {
                                    assert(before[j] == after[j]);
                                }
                            }
                            if entity_linked(before, x) {
                                let j = choose|j: int| 0 <= j < before.len() && poi_entity(#[trigger] before[j]) == Some(x);
                                assert(after[j] == before[j]);
                            }
                        }
                        assert forall|x: Seq<char>| #[trigger] ids_of_entity(links.entries(), x) == linking_poi_ids(
                            after,
                            x,
                        ) by {
                            assert forall|id: u64| linking_poi_ids(after, x).contains(id) == linking_poi_ids(before, x).contains(id) by {
                                if linking_poi_ids(after, x).contains(id) {
                                    let j = choose|j: int| 0 <= j < after.len() && poi_entity(#[trigger] after[j]) == Some(x) && after[j].id == id;
                                    if j < before.len() {
                                        assert(before[j] == after[j]);
                                    }
                                }
                                if linking_poi_ids(before, x).contains(id) {
                                    let j = choose|j: int| 0 <= j < before.len() && poi_entity(#[trigger] before[j]) == Some(x) && before[j].id == id;
                                    assert(after[j] == before[j]);
                                }
                            }
                            assert(linking_poi_ids(after, x) =~= linking_poi_ids(before, x));
                        }
                    }
                },
            }
            k = k + 1;
        }
        assert(pois@.take(pois@.len() as int) == pois@);
        links
    }

    /// Record that point of interest `id` links to `entity`.
    fn add(&mut self, entity: String, id: u64)
        requires
            links_wf(old(self).entries()),
        ensures
            links_wf(final(self).entries()),
            forall|x: Seq<char>| #[trigger] has_entity(final(self).entries(), x) == (has_entity(
                old(self).entries(),
                x,
            ) || x == entity@),
            forall|x: Seq<char>, y: u64| #[trigger] ids_of_entity(final(self).entries(), x).contains(y) == (
            ids_of_entity(old(self).entries(), x).contains(y) || (x == entity@ && y == id)),
    {
        let ghost e0 = self.entries();
        let (p, found) = find_entity_position(&self.links, &entity);
        let mut links: Vec<(String, Vec<u64>)> = Vec::new();
        std::mem::swap(&mut links, &mut self.links);
        let ghost l0 = links@;
        assert(e0 == l0.map_values(|e: (String, Vec<u64>)| (e.0@, e.1@)));
        if found {
            let (key, mut ids) = links.remove(p);
            assert(e0[p as int] == (key@, ids@));
            assert(strictly_increasing(e0[p as int].1));
            insert_sorted_unique(&mut ids, id);
            let ghost new_ids = ids@;
            links.insert(p, (key, ids));
            proof {
                let e1 = links@.map_values(|e: (String, Vec<u64>)| (e.0@, e.1@));
                assert(e1 =~= e0.update(p as int, (key@, new_ids)));
                assert(links_wf(e1)) by {
                    assert forall|i: int, j: int| 0 <= i < j < e1.len() implies chars_lt(
                        #[trigger] e1[i].0,
                        #[trigger] e1[j].0,
                    ) by {
                        assert(e1[i].0 == e0[i].0 && e1[j].0 == e0[j].0);
                    }
                }
                assert forall|x: Seq<char>| #[trigger] has_entity(e1, x) == (has_entity(e0, x) || x
                    == entity@) by {
                    if has_entity(e0, x) {
                        let i = choose|i: int| 0 <= i < e0.len() && (#[trigger] e0[i]).0 == x;
                        assert(e1[i].0 == x);
                    }
                    if x == entity@ {
                        assert(e1[p as int].0 == x);
                    }
                    if has_entity(e1, x) {
                        let i = choose|i: int| 0 <= i < e1.len() && (#[trigger] e1[i]).0 == x;
                        assert(e0[i].0 == x);
                    }
                }
                assert forall|x: Seq<char>, y: u64| #[trigger] ids_of_entity(e1, x).contains(y) == (
                ids_of_entity(e0, x).contains(y) || (x == entity@ && y == id)) by {
                    if ids_of_entity(e1, x).contains(y) {
                        let i = choose|i: int| 0 <= i < e1.len() && (#[trigger] e1[i]).0 == x && e1[i].1.contains(y);
                        if i == p {
                            if y != id {
                                assert(new_ids.to_set().contains(y));
                                assert(e0[i].1.to_set().contains(y));
                            }
                        } else {
                            assert(e0[i] == e1[i]);
                        }
                    }
                    if ids_of_entity(e0, x).contains(y) {
                        let i = choose|i: int| 0 <= i < e0.len() && (#[trigger] e0[i]).0 == x && e0[i].1.contains(y);
                        if i == p {
                            assert(e0[i].1.to_set().contains(y));
                            assert(new_ids.to_set().contains(y));
                            assert(e1[i].1.contains(y));
                        } else {
                            assert(e0[i] == e1[i]);
                        }
                    }
                    if x == entity@ && y == id {
                        assert(new_ids.to_set().contains(y));
                        assert(e1[p as int].1.contains(y));
                    }
                }
            }
        } else {
            let mut ids: Vec<u64> = Vec::new();
            ids.push(id);
            let ghost new_ids = ids@;
            let ghost key = entity@;
            links.insert(p, (entity, ids));
            proof {
                let e1 = links@.map_values(|e: (String, Vec<u64>)| (e.0@, e.1@));
                assert(e1 =~= e0.insert(p as int, (key, new_ids)));
                assert(links_wf(e1)) by {
                    assert forall|i: int, j: int| 0 <= i < j < e1.len() implies chars_lt(
                        #[trigger] e1[i].0,
                        #[trigger] e1[j].0,
                    ) by {
                        if j < p {
                            assert(e1[i] == e0[i] && e1[j] == e0[j]);
                        } else if j == p {
                            assert(e1[i] == e0[i]);
                        } else if i < p {
                            assert(e1[i] == e0[i] && e1[j] == e0[j - 1]);
                            if j - 1 > p {
                                assert(chars_lt(e0[p as int].0, e0[j - 1].0));
                                lemma_chars_lt_transitive(key, e0[p as int].0, e0[j - 1].0);
                            }
                            lemma_chars_lt_transitive(e0[i].0, key, e0[j - 1].0);
                        } else if i == p {
                            assert(e1[j] == e0[j - 1]);
                            if j - 1 > p {
                                assert(chars_lt(e0[p as int].0, e0[j - 1].0));
                                lemma_chars_lt_transitive(key, e0[p as int].0, e0[j - 1].0);
                            }
                        } else {
                            assert(e1[i] == e0[i - 1] && e1[j] == e0[j - 1]);
                        }
                    }
                    assert forall|i: int| 0 <= i < e1.len() implies strictly_increasing(#[trigger] e1[i].1) by {
                        if i < p {
                            assert(e1[i] == e0[i]);
                        } else if i > p {
                            assert(e1[i] == e0[i - 1]);
                        }
                    }
                }
                assert forall|x: Seq<char>| #[trigger] has_entity(e1, x) == (has_entity(e0, x) || x
                    == entity@) by {
                    if has_entity(e0, x) {
                        let i = choose|i: int| 0 <= i < e0.len() && (#[trigger] e0[i]).0 == x;
                        if i < p {
                            assert(e1[i].0 == x);
                        } else {
                            assert(e1[i + 1].0 == x);
                        }
                    }
                    if x == entity@ {
                        assert(e1[p as int].0 == x);
                    }
                    if has_entity(e1, x) {
                        let i = choose|i: int| 0 <= i < e1.len() && (#[trigger] e1[i]).0 == x;
                        if i < p {
                            assert(e0[i].0 == x);
                        } else if i > p {
                            assert(e0[i - 1].0 == x);
                        }
                    }
                }
                assert forall|x: Seq<char>, y: u64| #[trigger] ids_of_entity(e1, x).contains(y) == (
                ids_of_entity(e0, x).contains(y) || (x == entity@ && y == id)) by {
                    if ids_of_entity(e1, x).contains(y) {
                        let i = choose|i: int| 0 <= i < e1.len() && (#[trigger] e1[i]).0 == x && e1[i].1.contains(y);
                        if i < p {
                            assert(e0[i] == e1[i]);
                        } else if i > p {
                            assert(e0[i - 1] == e1[i]);
                        } else {
                            assert(new_ids[0] == id);
                        }
                    }
                    if ids_of_entity(e0, x).contains(y) {
                        let i = choose|i: int| 0 <= i < e0.len() && (#[trigger] e0[i]).0 == x && e0[i].1.contains(y);
                        if i < p {
                            assert(e1[i] == e0[i]);
                        } else {
                            assert(e1[i + 1] == e0[i]);
                        }
                    }
                    if x == entity@ && y == id {
                        assert(new_ids[0] == id);
                        assert(e1[p as int].1.contains(y));
                    }
                }
            }
        }
        self.links = links;
    }

    /// Whether the table has an entry for `entity_id`.
    pub fn contains(&self, entity_id: &str) -> (result: bool)
        ensures
            result == has_entity(self.entries(), entity_id@),
    {
        self.find(entity_id).is_some()
    }

    /// The identifiers of the points of interest linked to `entity_id`, in
    /// increasing order.
    pub fn linked_poi_ids(&self, entity_id: &str) -> (result: Option<&[u64]>)
        ensures
            match result {
                Some(ids) => exists|i: int|
                    0 <= i < self.entries().len() && self.entries()[i].0 == entity_id@
                        && ids@ == #[trigger] self.entries()[i].1,
                None => !has_entity(self.entries(), entity_id@),
            },
    {
        match self.find(entity_id) {
            Some(i) => {
                assert(self.entries()[i as int].1 == self.links@[i as int].1@);
                Some(self.links[i].1.as_slice())
            },
            None => None,
        }
    }

    /// Whether the table is empty.
    pub fn is_empty(&self) -> (result: bool)
        ensures
            result == (self.entries().len() == 0),
    {
        self.links.len() == 0
    }

    fn find(&self, entity_id: &str) -> (result: Option<usize>)
        ensures
            match result {
                Some(i) => i < self.entries().len() && self.entries()[i as int].0 == entity_id@,
                None => !has_entity(self.entries(), entity_id@),
            },
    {
        let mut i: usize = 0;
        while i < self.links.len()
            invariant
                i <= self.entries().len(),
                self.entries().len() == self.links@.len(),
                forall|k: int| 0 <= k < i ==> (#[trigger] self.entries()[k]).0 != entity_id@,
            decreases self.links@.len() - i,
        {
            if str_eq(self.links[i].0.as_str(), entity_id) {
                return Some(i);
            }
            i = i + 1;
        }
        None
    }
}

/// Position of `entity` among the sorted entities of a link table: the
/// first entry whose entity is not smaller, and whether it is equal.
fn find_entity_position(links: &Vec<(String, Vec<u64>)>, entity: &String) -> (result: (usize, bool))
    requires
        links_wf(links@.map_values(|e: (String, Vec<u64>)| (e.0@, e.1@))),
    ensures
        result.0 <= links@.len(),
        forall|q: int| 0 <= q < result.0 ==> chars_lt((#[trigger] links@[q]).0@, entity@),
        result.1 ==> result.0 < links@.len() && links@[result.0 as int].0@ == entity@,
        !result.1 ==> result.0 == links@.len() || chars_lt(entity@, links@[result.0 as int].0@),
{
    let xc = chars_of(entity.as_str());
    let mut p: usize = 0;
    while p < links.len()
        invariant
            p <= links@.len(),
            xc@ == entity@,
            forall|q: int| 0 <= q < p ==> chars_lt((#[trigger] links@[q]).0@, entity@),
        decreases links@.len() - p,
    {
        let oc = chars_of(links[p].0.as_str());
        match compare_chars(&oc, &xc) {
            CharsOrder::Less => {
                p = p + 1;
            },
            CharsOrder::Equal => {
                return (p, true);
            },
            CharsOrder::Greater => {
                return (p, false);
            },
        }
    }
    (p, false)
}

/// Extract the claims of an entity linked from some point of interest:
/// `None` when its identifier does not normalise or no point of interest
/// links to it; otherwise the normalised identifier, the linked point of
/// interest identifiers, and the heritage designations sorted without
/// duplicates.
pub fn process_entity_claims(entity: &RawEntity, links: &PoiEntityLinks) -> (result: Option<
    EntityClaims,
>)
    ensures
        match result {
            None => match spec_normalise_wikidata_id(entity.id@) {
                None => true,
                Some(e) => !has_entity(links.entries(), e),
            },
            Some(claims) => {
                &&& spec_normalise_wikidata_id(entity.id@) == Some(claims.entity_id@)
                &&& exists|i: int|
                    0 <= i < links.entries().len() && links.entries()[i].0 == claims.entity_id@
                        && claims.linked_poi_ids@ == #[trigger] links.entries()[i].1
                &&& strictly_sorted_chars(string_views(claims.heritage_designations@))
                &&& string_views(claims.heritage_designations@).to_set()
                    == spec_heritage_designations(*entity).to_set()
            },
        },
{
    let normalised = match normalise_wikidata_id(entity.id.as_str()) {
        Some(id) => id,
        None => {
            return None;
        },
    };
    let linked = match links.linked_poi_ids(normalised.as_str()) {
        Some(ids) => ids,
        None => {
            return None;
        },
    };
    let linked_poi_ids = vstd::slice::slice_to_vec(linked);
    let designations = sort_dedup_strings(entity.heritage_designations());
    Some(EntityClaims::new(normalised, linked_poi_ids, designations))
}

} // verus!
