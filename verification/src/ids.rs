//! OSM element identifier encoding.
//!
//! Signed OSM identifiers are packed into a single `u64` namespace: the two
//! top bits carry the element kind (`00` node, `01` way, `10` relation) and
//! the remaining 62 bits carry the non-negative raw identifier.

use vstd::prelude::*;

verus! {

/// Prefix for way identifiers (top bits `01`).
pub const WAY_ID_PREFIX: u64 = 0x4000_0000_0000_0000;

/// Prefix for relation identifiers (top bits `10`).
pub const REL_ID_PREFIX: u64 = 0x8000_0000_0000_0000;

/// Mask of the bits that carry the raw identifier.
pub const TYPE_ID_MASK: u64 = 0x3fff_ffff_ffff_ffff;

/// Kind of an OSM element.
#[derive(Copy, Clone, Debug, PartialEq, Eq, Structural)]
pub enum OsmElementKind {
    Node,
    Way,
    Relation,
}

/// The prefix that marks identifiers of the given kind.
pub open spec fn kind_prefix(kind: OsmElementKind) -> int {
    match kind {
        OsmElementKind::Node => 0,
        OsmElementKind::Way => WAY_ID_PREFIX as int,
        OsmElementKind::Relation => REL_ID_PREFIX as int,
    }
}

/// Whether a raw identifier can be encoded: non-negative and within 62 bits.
pub open spec fn raw_id_in_range(raw_id: int) -> bool {
    0 <= raw_id <= TYPE_ID_MASK as int
}

/// The encoded identifier of a raw OSM identifier of the given kind.
pub open spec fn spec_encode_element_id(kind: OsmElementKind, raw_id: int) -> Option<u64> {
    if raw_id_in_range(raw_id) {
        Some((kind_prefix(kind) + raw_id) as u64)
    } else {
        None
    }
}

/// The kind that the top bits of an encoded identifier name, if any.
pub open spec fn kind_of_encoded(id: u64) -> Option<OsmElementKind> {
    if id < WAY_ID_PREFIX {
        Some(OsmElementKind::Node)
    } else if id < REL_ID_PREFIX {
        Some(OsmElementKind::Way)
    } else if id < REL_ID_PREFIX + WAY_ID_PREFIX {
        Some(OsmElementKind::Relation)
    } else {
        None
    }
}

/// The raw identifier that the low 62 bits of an encoded identifier carry.
pub open spec fn raw_of_encoded(id: u64) -> int {
    id as int % (WAY_ID_PREFIX as int)
}

/// Encode an OSM element identifier into the unified `u64` identifier space.
///
/// Returns `None` when `raw_id` is negative or exceeds the 62-bit range.
pub fn encode_element_id(kind: OsmElementKind, raw_id: i64) -> (result: Option<u64>)
    ensures
        result == spec_encode_element_id(kind, raw_id as int),
{
    if raw_id < 0 {
        return None;
    }
    let base = raw_id as u64;
    if base > TYPE_ID_MASK {
        return None;
    }
    let prefix: u64 = match kind {
        OsmElementKind::Node => 0,
        OsmElementKind::Way => WAY_ID_PREFIX,
        OsmElementKind::Relation => REL_ID_PREFIX,
    };
    assert(base <= 0x3fff_ffff_ffff_ffffu64 ==> (0u64 | base) == base) by (bit_vector);
    assert(base <= 0x3fff_ffff_ffff_ffffu64 ==> (0x4000_0000_0000_0000u64 | base)
        == 0x4000_0000_0000_0000u64 + base) by (bit_vector);
    assert(base <= 0x3fff_ffff_ffff_ffffu64 ==> (0x8000_0000_0000_0000u64 | base)
        == 0x8000_0000_0000_0000u64 + base) by (bit_vector);
    Some(prefix | base)
}

/// Encoding is injective and can be undone: an encoded identifier names the
/// kind it was made with and carries the raw identifier it was made from.
pub proof fn lemma_encode_element_id_decodes(kind: OsmElementKind, raw_id: int)
    requires
        raw_id_in_range(raw_id),
    ensures
        kind_of_encoded(spec_encode_element_id(kind, raw_id).unwrap()) == Some(kind),
        raw_of_encoded(spec_encode_element_id(kind, raw_id).unwrap()) == raw_id,
{
}

/// Two encodings that agree were made from the same kind and raw identifier.
pub proof fn lemma_encode_element_id_injective(
    kind1: OsmElementKind,
    raw1: int,
    kind2: OsmElementKind,
    raw2: int,
)
    requires
        spec_encode_element_id(kind1, raw1) is Some,
        spec_encode_element_id(kind1, raw1) == spec_encode_element_id(kind2, raw2),
    ensures
        kind1 == kind2,
        raw1 == raw2,
{
    lemma_encode_element_id_decodes(kind1, raw1);
    lemma_encode_element_id_decodes(kind2, raw2);
}

/// Node identifiers sort before way identifiers, which sort before relation
/// identifiers.
pub proof fn lemma_encoded_kinds_are_ordered(raw_node: int, raw_way: int, raw_relation: int)
    requires
        raw_id_in_range(raw_node),
        raw_id_in_range(raw_way),
        raw_id_in_range(raw_relation),
    ensures
        spec_encode_element_id(OsmElementKind::Node, raw_node).unwrap()
            < spec_encode_element_id(OsmElementKind::Way, raw_way).unwrap(),
        spec_encode_element_id(OsmElementKind::Way, raw_way).unwrap()
            < spec_encode_element_id(OsmElementKind::Relation, raw_relation).unwrap(),
{
}

} // verus!
