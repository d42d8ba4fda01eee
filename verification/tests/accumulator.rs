use wildside::accumulator::{OsmElementCounts, OsmPoiAccumulator, encode_node_refs};
use wildside::ids::{OsmElementKind, encode_element_id};

type Loc = (f64, f64);

fn tags(pairs: &[(&str, &str)]) -> Vec<(String, String)> {
    pairs.iter().map(|(k, v)| (k.to_string(), v.to_string())).collect()
}

#[test]
fn relevant_nodes_become_points_of_interest() {
    let mut acc: OsmPoiAccumulator<Loc> = OsmPoiAccumulator::new();
    acc.process_node(1, Some((13.4, 52.5)), tags(&[("tourism", "museum")]));
    acc.process_node(2, Some((13.5, 52.6)), tags(&[("name", "bench")]));
    acc.process_node(3, None, tags(&[("historic", "castle")]));
    acc.process_relation();
    let report = acc.into_report();
    assert_eq!(report.counts, OsmElementCounts { nodes: 3, ways: 0, relations: 1 });
    assert_eq!(report.pois.len(), 1);
    assert_eq!(report.pois[0].id, 1);
    assert_eq!(report.pois[0].location, (13.4, 52.5));
    assert_eq!(report.pois[0].tags.get("tourism"), Some(&"museum".to_string()));
}

#[test]
fn ways_anchor_to_their_first_known_node() {
    let mut acc: OsmPoiAccumulator<Loc> = OsmPoiAccumulator::new();
    acc.process_way(10, vec![5, 6], tags(&[("historic", "wall")]));
    assert!(acc.has_pending_nodes());
    assert_eq!(acc.pending_way_node_count(), 2);
    acc.resolve_pending_node(5, None);
    acc.resolve_pending_node(6, Some((1.0, 2.0)));
    assert!(!acc.has_pending_nodes());
    let report = acc.into_report();
    assert_eq!(report.counts.ways, 1);
    assert_eq!(report.pois.len(), 1);
    assert_eq!(report.pois[0].id, encode_element_id(OsmElementKind::Way, 10).unwrap());
    assert_eq!(report.pois[0].location, (1.0, 2.0));
}

#[test]
fn irrelevant_ways_are_only_counted() {
    let mut acc: OsmPoiAccumulator<Loc> = OsmPoiAccumulator::new();
    acc.process_way(11, vec![1], tags(&[("highway", "path")]));
    assert!(!acc.has_pending_nodes());
    let report = acc.into_report();
    assert_eq!(report.counts.ways, 1);
    assert!(report.pois.is_empty());
}

#[test]
fn ways_without_resolved_nodes_are_dropped() {
    let mut acc: OsmPoiAccumulator<Loc> = OsmPoiAccumulator::new();
    acc.process_way(12, vec![99], tags(&[("tourism", "attraction")]));
    let report = acc.into_report();
    assert!(report.pois.is_empty());
}

#[test]
fn combined_accumulators_merge_counts_and_pois_sorted_by_id() {
    let mut a: OsmPoiAccumulator<Loc> = OsmPoiAccumulator::new();
    a.process_node(9, Some((0.0, 0.0)), tags(&[("tourism", "hotel")]));
    let mut b: OsmPoiAccumulator<Loc> = OsmPoiAccumulator::new();
    b.process_node(4, Some((1.0, 1.0)), tags(&[("historic", "ruins")]));
    b.process_relation();
    let merged = a.combine(b);
    assert_eq!(merged.counts(), OsmElementCounts { nodes: 2, ways: 0, relations: 1 });
    let report = merged.into_report();
    let ids: Vec<u64> = report.pois.iter().map(|p| p.id).collect();
    assert_eq!(ids, vec![4, 9]);
}

#[test]
fn combining_with_an_empty_accumulator_changes_nothing() {
    let mut a: OsmPoiAccumulator<Loc> = OsmPoiAccumulator::new();
    a.process_node(1, Some((0.5, 0.5)), tags(&[("tourism", "zoo")]));
    let merged = a.combine(OsmPoiAccumulator::new());
    let report = merged.into_report();
    assert_eq!(report.counts.nodes, 1);
    assert_eq!(report.pois.len(), 1);
}

#[test]
fn counts_combine_by_addition() {
    let mut a = OsmElementCounts::new();
    a.record_node();
    a.record_way();
    let mut b = OsmElementCounts::new();
    b.record_relation();
    b.record_node();
    assert_eq!(a.combine(b), OsmElementCounts { nodes: 2, ways: 1, relations: 1 });
}

#[test]
fn node_references_are_encoded_and_invalid_ones_dropped() {
    assert_eq!(encode_node_refs(&vec![3, -1, 4]), vec![3, 4]);
}

#[test]
fn combining_is_associative_on_concrete_accumulators() {
    fn part(id: i64, tag: &str) -> OsmPoiAccumulator<Loc> {
        let mut acc = OsmPoiAccumulator::new();
        acc.process_node(id, Some((id as f64, 0.0)), tags(&[(tag, "x")]));
        acc
    }
    let left = part(1, "tourism").combine(part(2, "historic")).combine(part(3, "tourism"));
    let right = part(1, "tourism").combine(part(2, "historic").combine(part(3, "tourism")));
    let ids = |acc: OsmPoiAccumulator<Loc>| acc.into_report().pois.iter().map(|p| p.id).collect::<Vec<u64>>();
    assert_eq!(ids(left), ids(right));
}
