use wildside::ids::{OsmElementKind, REL_ID_PREFIX, TYPE_ID_MASK, WAY_ID_PREFIX, encode_element_id};

#[test]
fn encodes_nodes_without_prefix() {
    assert_eq!(encode_element_id(OsmElementKind::Node, 42), Some(42));
}

#[test]
fn encodes_ways_and_relations_with_prefixes() {
    assert_eq!(encode_element_id(OsmElementKind::Way, 42), Some(WAY_ID_PREFIX | 42));
    assert_eq!(encode_element_id(OsmElementKind::Relation, 42), Some(REL_ID_PREFIX | 42));
    assert_eq!(encode_element_id(OsmElementKind::Way, 7), Some((1u64 << 62) + 7));
    assert_eq!(encode_element_id(OsmElementKind::Relation, 7), Some((1u64 << 63) + 7));
}

#[test]
fn rejects_negative_identifiers() {
    assert_eq!(encode_element_id(OsmElementKind::Node, -1), None);
    assert_eq!(encode_element_id(OsmElementKind::Way, i64::MIN), None);
}

#[test]
fn accepts_the_largest_identifier_and_rejects_beyond() {
    let max = TYPE_ID_MASK as i64;
    assert_eq!(encode_element_id(OsmElementKind::Relation, max), Some(REL_ID_PREFIX | TYPE_ID_MASK));
    assert_eq!(encode_element_id(OsmElementKind::Node, max + 1), None);
    assert_eq!(encode_element_id(OsmElementKind::Node, i64::MAX), None);
}

#[test]
fn encoded_kinds_are_distinct_and_ordered() {
    let node = encode_element_id(OsmElementKind::Node, 5).unwrap();
    let way = encode_element_id(OsmElementKind::Way, 5).unwrap();
    let relation = encode_element_id(OsmElementKind::Relation, 5).unwrap();
    assert!(node < way && way < relation);
    assert_eq!(node & TYPE_ID_MASK, 5);
    assert_eq!(way & TYPE_ID_MASK, 5);
    assert_eq!(relation & TYPE_ID_MASK, 5);
}
