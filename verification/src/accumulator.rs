//! Accumulation of OSM elements into points of interest.
//!
//! An accumulator records element counts, the locations of nodes that a
//! point of interest may need, the node points of interest, and the tagged
//! ways that wait for a location. Accumulators built over parts of a file are
//! merged with [`OsmPoiAccumulator::combine`]; a second pass over the file
//! resolves the node references that ways still wait for, and
//! [`OsmPoiAccumulator::into_report`] anchors each way to its first resolved
//! node.
//!
//! Coordinates are validated by the caller, which passes `None` for a node
//! whose location is unusable. The location type `L` is never inspected.

use std::collections::{HashMap, HashSet};

use vstd::prelude::*;
use vstd::std_specs::iter::IteratorSpec;

use crate::ids::{OsmElementKind, encode_element_id, spec_encode_element_id};
use crate::poi::{
    lemma_pairs_map_tags, tags_of_pairs,
    PointOfInterest, Tags, collect_tags, has_relevant_key, pairs_map, spec_has_relevant_key,
};
use crate::sort::{ids_sorted, poi_models, sort_by_id, sort_pois_by_id, with_id};

verus! {

broadcast use vstd::std_specs::hash::group_hash_axioms;

/// Counts of raw OSM elements seen during ingestion.
#[derive(Copy, Clone, Debug, PartialEq, Eq, Structural)]
pub struct OsmElementCounts {
    /// Number of nodes, including dense-node entries.
    pub nodes: u64,
    /// Number of ways.
    pub ways: u64,
    /// Number of relations.
    pub relations: u64,
}

impl OsmElementCounts {
    /// Counts with nothing seen.
    pub fn new() -> (result: Self)
        ensures
            result.nodes == 0 && result.ways == 0 && result.relations == 0,
    {
        OsmElementCounts { nodes: 0, ways: 0, relations: 0 }
    }

    /// Count one more node.
    pub fn record_node(&mut self)
        requires
            old(self).nodes < u64::MAX,
        ensures
            final(self).nodes == old(self).nodes + 1,
            final(self).ways == old(self).ways,
            final(self).relations == old(self).relations,
    {
        self.nodes = self.nodes + 1;
    }

    /// Count one more way.
    pub fn record_way(&mut self)
        requires
            old(self).ways < u64::MAX,
        ensures
            final(self).nodes == old(self).nodes,
            final(self).ways == old(self).ways + 1,
            final(self).relations == old(self).relations,
    {
        self.ways = self.ways + 1;
    }

    /// Count one more relation.
    pub fn record_relation(&mut self)
        requires
            old(self).relations < u64::MAX,
        ensures
            final(self).nodes == old(self).nodes,
            final(self).ways == old(self).ways,
            final(self).relations == old(self).relations + 1,
    {
        self.relations = self.relations + 1;
    }

    /// Sum of two sets of counts.
    pub fn combine(self, other: Self) -> (result: Self)
        requires
            self.nodes + other.nodes <= u64::MAX,
            self.ways + other.ways <= u64::MAX,
            self.relations + other.relations <= u64::MAX,
        ensures
            result.nodes == self.nodes + other.nodes,
            result.ways == self.ways + other.ways,
            result.relations == self.relations + other.relations,
    {
        OsmElementCounts {
            nodes: self.nodes + other.nodes,
            ways: self.ways + other.ways,
            relations: self.relations + other.relations,
        }
    }
}

/// The abstract content of a point of interest: identifier, location and
/// the tag map.
pub type PoiModel<L> = (u64, L, Map<Seq<char>, Seq<char>>);

/// The abstract content of a point of interest.
pub open spec fn poi_model<L>(poi: PointOfInterest<L>) -> PoiModel<L> {
    (poi.id, poi.location, poi.tags@)
}

/// A tagged way waiting for the location of one of its nodes.
#[derive(Debug)]
pub struct WayCandidate {
    /// Encoded way identifier.
    pub id: u64,
    /// Encoded identifiers of the referenced nodes, in order.
    pub node_refs: Vec<u64>,
    /// Tags of the way.
    pub tags: Tags,
}

/// The abstract content of a way candidate.
pub type WayModel = (u64, Seq<u64>, Map<Seq<char>, Seq<char>>);

/// The abstract content of a way candidate.
pub open spec fn way_model(way: WayCandidate) -> WayModel {
    (way.id, way.node_refs@, way.tags@)
}

/// The abstract state of an accumulator.
pub ghost struct AccumulatorModel<L> {
    /// Nodes counted.
    pub nodes_seen: int,
    /// Ways counted.
    pub ways_seen: int,
    /// Relations counted.
    pub relations_seen: int,
    /// Known node locations, keyed by encoded node identifier.
    pub nodes: Map<u64, L>,
    /// Encoded node identifiers that ways refer to and whose location is
    /// not known yet.
    pub pending: Set<u64>,
    /// Points of interest derived from nodes, in processing order.
    pub node_pois: Seq<PoiModel<L>>,
    /// Tagged ways, in processing order.
    pub ways: Seq<WayModel>,
}

/// The state of an accumulator that has seen nothing.
pub open spec fn model_empty<L>() -> AccumulatorModel<L> {
    AccumulatorModel {
        nodes_seen: 0,
        ways_seen: 0,
        relations_seen: 0,
        nodes: Map::empty(),
        pending: Set::empty(),
        node_pois: Seq::empty(),
        ways: Seq::empty(),
    }
}

/// Well-formedness: a node whose location is known is never pending.
pub open spec fn model_wf<L>(m: AccumulatorModel<L>) -> bool {
    &&& m.pending.disjoint(m.nodes.dom())
    &&& m.pending.finite()
    &&& m.nodes.dom().finite()
}

/// The merge of two accumulators: counts add up, the first accumulator's
/// node locations win, the pending sets are joined minus the nodes now
/// known, and the points of interest and ways are concatenated.
pub open spec fn model_combine<L>(a: AccumulatorModel<L>, b: AccumulatorModel<L>) -> AccumulatorModel<L> {
    let nodes = b.nodes.union_prefer_right(a.nodes);
    AccumulatorModel {
        nodes_seen: a.nodes_seen + b.nodes_seen,
        ways_seen: a.ways_seen + b.ways_seen,
        relations_seen: a.relations_seen + b.relations_seen,
        nodes: nodes,
        pending: a.pending.union(b.pending).difference(nodes.dom()),
        node_pois: a.node_pois + b.node_pois,
        ways: a.ways + b.ways,
    }
}

/// The effect of a node on the node-related parts of the state (counts
/// aside): an unencodable identifier changes nothing; an unusable location
/// only clears the node from the pending set; otherwise the location is kept
/// when the node is relevant or pending, and a relevant node becomes a point
/// of interest.
pub open spec fn model_after_node<L>(
    m: AccumulatorModel<L>,
    raw_id: int,
    location: Option<L>,
    tags: Seq<(String, String)>,
) -> AccumulatorModel<L> {
    let counted = AccumulatorModel { nodes_seen: m.nodes_seen + 1, ..m };
    match spec_encode_element_id(OsmElementKind::Node, raw_id) {
        None => counted,
        Some(id) => {
            let was_pending = m.pending.contains(id);
            let relevant = spec_has_relevant_key(tags);
            match location {
                None => AccumulatorModel { pending: m.pending.remove(id), ..counted },
                Some(loc) => if !relevant && !was_pending {
                    counted
                } else {
                    AccumulatorModel {
                        pending: m.pending.remove(id),
                        nodes: m.nodes.insert(id, loc),
                        node_pois: if relevant {
                            m.node_pois.push((id, loc, pairs_map(tags)))
                        } else {
                            m.node_pois
                        },
                        ..counted
                    }
                },
            }
        },
    }
}

/// The encoded node references of a way, in order, without those that
/// cannot be encoded.
pub open spec fn encoded_node_refs(refs: Seq<i64>) -> Seq<u64>
    decreases refs.len(),
{
    if refs.len() == 0 {
        Seq::empty()
    } else {
        let rest = encoded_node_refs(refs.drop_last());
        match spec_encode_element_id(OsmElementKind::Node, refs.last() as int) {
            Some(id) => rest.push(id),
            None => rest,
        }
    }
}

/// The effect of a way: an irrelevant way or an unencodable way identifier
/// only counts; otherwise the way becomes a candidate and its node
/// references without a known location become pending.
pub open spec fn model_after_way<L>(
    m: AccumulatorModel<L>,
    raw_id: int,
    refs: Seq<i64>,
    tags: Seq<(String, String)>,
) -> AccumulatorModel<L> {
    let counted = AccumulatorModel { ways_seen: m.ways_seen + 1, ..m };
    if !spec_has_relevant_key(tags) {
        counted
    } else {
        match spec_encode_element_id(OsmElementKind::Way, raw_id) {
            None => counted,
            Some(id) => {
                let node_refs = encoded_node_refs(refs);
                AccumulatorModel {
                    pending: m.pending.union(
                        node_refs.to_set().filter(|n: u64| !m.nodes.contains_key(n)),
                    ),
                    ways: m.ways.push((id, node_refs, pairs_map(tags))),
                    ..counted
                }
            },
        }
    }
}

/// The effect of the second pass on one node: a pending node leaves the
/// pending set and, when its location is usable, its location is kept.
pub open spec fn model_after_resolve<L>(
    m: AccumulatorModel<L>,
    raw_id: int,
    location: Option<L>,
) -> AccumulatorModel<L> {
    match spec_encode_element_id(OsmElementKind::Node, raw_id) {
        None => m,
        Some(id) => if !m.pending.contains(id) {
            m
        } else {
            match location {
                Some(loc) => AccumulatorModel {
                    pending: m.pending.remove(id),
                    nodes: m.nodes.insert(id, loc),
                    ..m
                },
                None => AccumulatorModel { pending: m.pending.remove(id), ..m },
            }
        },
    }
}

/// The location of the first node reference whose location is known.
pub open spec fn first_resolved<L>(refs: Seq<u64>, nodes: Map<u64, L>) -> Option<L>
    decreases refs.len(),
{
    if refs.len() == 0 {
        None
    } else if nodes.contains_key(refs[0]) {
        Some(nodes[refs[0]])
    } else {
        first_resolved(refs.drop_first(), nodes)
    }
}

/// The points of interest that ways yield: each way is anchored to its
/// first node reference with a known location; a way without one yields
/// nothing.
pub open spec fn anchored_ways<L>(ways: Seq<WayModel>, nodes: Map<u64, L>) -> Seq<PoiModel<L>>
    decreases ways.len(),
{
    if ways.len() == 0 {
        Seq::empty()
    } else {
        let rest = anchored_ways(ways.drop_last(), nodes);
        let way = ways.last();
        match first_resolved(way.1, nodes) {
            Some(loc) => rest.push((way.0, loc, way.2)),
            None => rest,
        }
    }
}

/// The points of interest of a report: node points of interest followed by
/// anchored ways, sorted by identifier (stably).
pub open spec fn model_report_pois<L>(m: AccumulatorModel<L>) -> Seq<PoiModel<L>> {
    sort_by_id(m.node_pois + anchored_ways(m.ways, m.nodes))
}

/// Counts and points of interest of an ingestion run.
#[derive(Debug)]
pub struct OsmPoiReport<L> {
    /// Element counts.
    pub counts: OsmElementCounts,
    /// Points of interest sorted by identifier.
    pub pois: Vec<PointOfInterest<L>>,
}

/// The location of the first node reference whose location is known.
pub fn first_resolved_location<L: Copy>(refs: &Vec<u64>, nodes: &HashMap<u64, L>) -> (result:
    Option<L>)
    ensures
        result == first_resolved(refs@, nodes@),
{
    let mut i: usize = 0;
    assert(refs@.skip(0) == refs@);
    while i < refs.len()
        invariant
            i <= refs@.len(),
            first_resolved(refs@, nodes@) == first_resolved(refs@.skip(i as int), nodes@),
        decreases refs@.len() - i,
    {
        proof {
            assert(refs@.skip(i as int)[0] == refs@[i as int]);
            assert(refs@.skip(i as int).drop_first() == refs@.skip(i + 1));
        }
        match nodes.get(&refs[i]) {
            Some(loc) => {
                return Some(*loc);
            },
            None => {},
        }
        i = i + 1;
    }
    None
}

/// Encode the node references of a way, dropping those that cannot be
/// encoded.
pub fn encode_node_refs(refs: &Vec<i64>) -> (result: Vec<u64>)
    ensures
        result@ == encoded_node_refs(refs@),
{
    let mut out: Vec<u64> = Vec::new();
    let mut i: usize = 0;
    while i < refs.len()
        invariant
            i <= refs@.len(),
            out@ == encoded_node_refs(refs@.take(i as int)),
        decreases refs@.len() - i,
    {
        proof {
            assert(refs@.take(i + 1).drop_last() == refs@.take(i as int));
        }
        match encode_element_id(OsmElementKind::Node, refs[i]) {
            Some(id) => out.push(id),
            None => {},
        }
        i = i + 1;
    }
    assert(refs@.take(refs@.len() as int) == refs@);
    out
}

/// Accumulates counts, node locations, node points of interest and way
/// candidates.
#[derive(Debug)]
pub struct OsmPoiAccumulator<L> {
    counts: OsmElementCounts,
    nodes: HashMap<u64, L>,
    pending_way_nodes: HashSet<u64>,
    node_pois: Vec<PointOfInterest<L>>,
    way_candidates: Vec<WayCandidate>,
}

impl<L: Copy> OsmPoiAccumulator<L> {
    /// The abstract state.
    pub closed spec fn model(&self) -> AccumulatorModel<L> {
        AccumulatorModel {
            nodes_seen: self.counts.nodes as int,
            ways_seen: self.counts.ways as int,
            relations_seen: self.counts.relations as int,
            nodes: self.nodes@,
            pending: self.pending_way_nodes@,
            node_pois: self.node_pois@.map_values(|p: PointOfInterest<L>| poi_model(p)),
            ways: self.way_candidates@.map_values(|w: WayCandidate| way_model(w)),
        }
    }

    /// Well-formedness of the state.
    pub open spec fn wf(&self) -> bool {
        model_wf(self.model())
    }

    /// The element counts.
    pub closed spec fn spec_counts(&self) -> OsmElementCounts {
        self.counts
    }

    /// An accumulator that has seen nothing.
    pub fn new() -> (result: Self)
        ensures
            result.model() == model_empty::<L>(),
            result.wf(),
    {
        let result = OsmPoiAccumulator {
            counts: OsmElementCounts::new(),
            nodes: HashMap::new(),
            pending_way_nodes: HashSet::new(),
            node_pois: Vec::new(),
            way_candidates: Vec::new(),
        };
        assert(result.model().node_pois =~= Seq::<PoiModel<L>>::empty());
        assert(result.model().ways =~= Seq::<WayModel>::empty());
        assert(result.model().nodes =~= Map::<u64, L>::empty());
        assert(result.model().pending =~= Set::<u64>::empty());
        result
    }

    /// The element counts.
    pub fn counts(&self) -> (result: OsmElementCounts)
        ensures
            result == self.spec_counts(),
            result.nodes == self.model().nodes_seen,
            result.ways == self.model().ways_seen,
            result.relations == self.model().relations_seen,
    {
        self.counts
    }

    /// Process a node: count it and, when it is relevant or a way waits for
    /// it, keep its location; a relevant node becomes a point of interest.
    /// `location` is `None` when the node's coordinates are unusable. The
    /// point of interest of a relevant node carries all its tags, each key
    /// with the value of its last pair (see [`lemma_node_poi`]).
    pub fn process_node(&mut self, raw_id: i64, location: Option<L>, tags: Vec<(String, String)>)
        requires
            old(self).wf(),
            old(self).model().nodes_seen < u64::MAX,
        ensures
            final(self).wf(),
            final(self).model() == model_after_node(old(self).model(), raw_id as int, location, tags@),
            if spec_encode_element_id(OsmElementKind::Node, raw_id as int) is Some && location is Some
                && spec_has_relevant_key(tags@) {
                &&& final(self).model().node_pois.len() == old(self).model().node_pois.len() + 1
                &&& final(self).model().node_pois.take(old(self).model().node_pois.len() as int)
                    == old(self).model().node_pois
                &&& final(self).model().node_pois.last().0 == spec_encode_element_id(
                    OsmElementKind::Node,
                    raw_id as int,
                ).unwrap()
                &&& final(self).model().node_pois.last().1 == location.unwrap()
                &&& tags_of_pairs(final(self).model().node_pois.last().2, tags@)
            } else {
                final(self).model().node_pois == old(self).model().node_pois
            },
    {
        let ghost m0 = self.model();
        proof {
            lemma_node_poi(m0, raw_id as int, location, tags@);
        }
        let ghost pairs = tags@;
        let ghost old_pois = self.node_pois@;
        self.counts.record_node();
        let encoded = encode_element_id(OsmElementKind::Node, raw_id);
        let id = match encoded {
            None => {
                assert(self.model() =~= model_after_node(m0, raw_id as int, location, tags@));
                return;
            },
            Some(id) => id,
        };
        let was_pending = self.pending_way_nodes.contains(&id);
        let relevant = has_relevant_key(&tags);
        let loc = match location {
            None => {
                if was_pending {
                    self.pending_way_nodes.remove(&id);
                }
                assert(self.model().pending =~= m0.pending.remove(id));
                assert(self.model() =~= model_after_node(m0, raw_id as int, location, tags@));
                return;
            },
            Some(loc) => loc,
        };
        if !relevant && !was_pending {
            assert(self.model() =~= model_after_node(m0, raw_id as int, location, tags@));
            return;
        }
        if was_pending {
            self.pending_way_nodes.remove(&id);
        }
        self.nodes.insert(id, loc);
        if relevant {
            let collected = collect_tags(tags);
            let poi = PointOfInterest::new(id, loc, collected);
            self.node_pois.push(poi);
            assert(poi_model(poi) == (id, loc, pairs_map(pairs)));
            assert(self.node_pois@ == old_pois.push(poi));
            assert(self.model().node_pois =~= m0.node_pois.push((id, loc, pairs_map(pairs))));
        } else {
            assert(self.model().node_pois =~= m0.node_pois);
        }
        assert(self.model().pending =~= m0.pending.remove(id));
        assert(self.model().nodes =~= m0.nodes.insert(id, loc));
        assert(self.model() =~= model_after_node(m0, raw_id as int, location, pairs));
    }

    /// Process a relation: relations are only counted.
    pub fn process_relation(&mut self)
        requires
            old(self).wf(),
            old(self).model().relations_seen < u64::MAX,
        ensures
            final(self).wf(),
            final(self).model() == (AccumulatorModel {
                relations_seen: old(self).model().relations_seen + 1,
                ..old(self).model()
            }),
    {
        let ghost m0 = self.model();
        self.counts.record_relation();
        assert(self.model() =~= (AccumulatorModel { relations_seen: m0.relations_seen + 1, ..m0 }));
    }

    /// Process a way: count it and, when it carries a relevant tag, keep it
    /// as a candidate and mark its node references without a known location
    /// as pending.
    pub fn process_way(&mut self, raw_id: i64, refs: Vec<i64>, tags: Vec<(String, String)>)
        requires
            old(self).wf(),
            old(self).model().ways_seen < u64::MAX,
        ensures
            final(self).wf(),
            final(self).model() == model_after_way(old(self).model(), raw_id as int, refs@, tags@),
    {
        let ghost m0 = self.model();
        let ghost pairs = tags@;
        let ghost old_ways = self.way_candidates@;
        self.counts.record_way();
        if !has_relevant_key(&tags) {
            assert(self.model() =~= model_after_way(m0, raw_id as int, refs@, pairs));
            return;
        }
        let collected = collect_tags(tags);
        let id = match encode_element_id(OsmElementKind::Way, raw_id) {
            None => {
                assert(self.model() =~= model_after_way(m0, raw_id as int, refs@, pairs));
                return;
            },
            Some(id) => id,
        };
        let node_refs = encode_node_refs(&refs);
        let ghost added = node_refs@.to_set().filter(|n: u64| !m0.nodes.contains_key(n));
        let ghost counts1 = self.counts;
        let ghost pois1 = self.node_pois@;
        let mut i: usize = 0;
        while i < node_refs.len()
            invariant
                i <= node_refs@.len(),
                self.counts == counts1,
                self.node_pois@ == pois1,
                self.way_candidates@ == old_ways,
                self.nodes@ == m0.nodes,
                self.pending_way_nodes@ == m0.pending.union(
                    node_refs@.take(i as int).to_set().filter(|n: u64| !m0.nodes.contains_key(n)),
                ),
            decreases node_refs@.len() - i,
        {
            let node_id = node_refs[i];
            proof {
                assert(node_refs@.take(i + 1) == node_refs@.take(i as int).push(node_id));
                node_refs@.take(i as int).lemma_push_to_set_commute(node_id);
            }
            if !self.nodes.contains_key(&node_id) {
                self.pending_way_nodes.insert(node_id);
            }
            proof {
                assert(self.pending_way_nodes@ =~= m0.pending.union(
                    node_refs@.take(i + 1).to_set().filter(|n: u64| !m0.nodes.contains_key(n)),
                ));
            }
            i = i + 1;
        }
        assert(node_refs@.take(node_refs@.len() as int) == node_refs@);
        let candidate = WayCandidate { id, node_refs, tags: collected };
        self.way_candidates.push(candidate);
        proof {
            assert(self.way_candidates@ == old_ways.push(candidate));
            assert(self.model().ways =~= m0.ways.push((id, encoded_node_refs(refs@), pairs_map(pairs))));
            assert(self.model().pending =~= m0.pending.union(added));
            assert(self.model() =~= model_after_way(m0, raw_id as int, refs@, pairs));
        }
    }

    /// Second pass over the nodes: a node that a way waits for leaves the
    /// pending set and, when its location is usable, its location is kept.
    pub fn resolve_pending_node(&mut self, raw_id: i64, location: Option<L>)
        requires
            old(self).wf(),
        ensures
            final(self).wf(),
            final(self).model() == model_after_resolve(old(self).model(), raw_id as int, location),
    {
        let ghost m0 = self.model();
        let id = match encode_element_id(OsmElementKind::Node, raw_id) {
            None => {
                return;
            },
            Some(id) => id,
        };
        if !self.pending_way_nodes.contains(&id) {
            return;
        }
        match location {
            Some(loc) => {
                self.pending_way_nodes.remove(&id);
                self.nodes.insert(id, loc);
                assert(self.model() =~= model_after_resolve(m0, raw_id as int, location));
            },
            None => {
                self.pending_way_nodes.remove(&id);
                assert(self.model() =~= model_after_resolve(m0, raw_id as int, location));
            },
        }
    }

    /// Whether some way still waits for a node location.
    pub fn has_pending_nodes(&self) -> (result: bool)
        requires
            self.wf(),
        ensures
            result == (self.model().pending.len() > 0),
    {
        !self.pending_way_nodes.is_empty()
    }

    /// Number of node references that ways still wait for.
    pub fn pending_way_node_count(&self) -> (result: usize)
        requires
            self.wf(),
        ensures
            result == self.model().pending.len(),
    {
        self.pending_way_nodes.len()
    }

    /// Finish the run: anchor each way to its first node reference with a
    /// known location and sort all points of interest by identifier.
    pub fn into_report(self) -> (result: OsmPoiReport<L>)
        requires
            self.wf(),
        ensures
            result.counts == self.spec_counts(),
            poi_models(result.pois@) == model_report_pois(self.model()),
            ids_sorted(poi_models(result.pois@)),
            forall|id: u64| #[trigger] with_id(poi_models(result.pois@), id) == with_id(
                self.model().node_pois + anchored_ways(self.model().ways, self.model().nodes),
                id,
            ),
    {
        let ghost m = self.model();
        let mut pois = self.node_pois;
        let nodes = self.nodes;
        let ghost ways_all = self.way_candidates@;
        let ghost way_models = m.ways;
        for candidate in it: self.way_candidates
            invariant
                it.seq() == ways_all,
                way_models == ways_all.map_values(|w: WayCandidate| way_model(w)),
                nodes@ == m.nodes,
                poi_models(pois@) == m.node_pois + anchored_ways(
                    way_models.take(it.index() as int),
                    m.nodes,
                ),
        {
            let ghost idx = it.index();
            let ghost pois0 = pois@;
            proof {
                assert(way_models.take(idx + 1).drop_last() == way_models.take(idx as int));
                assert(way_models.take(idx + 1).last() == way_model(candidate));
            }
            let WayCandidate { id, node_refs, tags } = candidate;
            match first_resolved_location(&node_refs, &nodes) {
                Some(loc) => {
                    let poi = PointOfInterest::new(id, loc, tags);
                    pois.push(poi);
                    proof {
                        assert(pois@ == pois0.push(poi));
                        assert(poi_models(pois@) =~= poi_models(pois0).push(poi_model(poi)));
                    }
                },
                None => {},
            }
        }
        assert(way_models.take(way_models.len() as int) == way_models);
        let sorted = sort_pois_by_id(pois);
        OsmPoiReport { counts: self.counts, pois: sorted }
    }

    /// Merge two accumulators (see [`model_combine`]).
    pub fn combine(self, other: Self) -> (result: Self)
        requires
            self.wf(),
            other.wf(),
            self.model().nodes_seen + other.model().nodes_seen <= u64::MAX,
            self.model().ways_seen + other.model().ways_seen <= u64::MAX,
            self.model().relations_seen + other.model().relations_seen <= u64::MAX,
        ensures
            result.wf(),
            result.model() == model_combine(self.model(), other.model()),
    {
        let ghost ma = self.model();
        let ghost mb = other.model();
        let counts = self.counts.combine(other.counts);
        let mut nodes = self.nodes;
        let ghost a0 = nodes@;
        for (k, v) in it: other.nodes.iter()
            invariant
                a0 == ma.nodes,
                forall|j: int|
                    0 <= j < it.seq().len() ==> mb.nodes.contains_key(*#[trigger] it.seq()[j].0)
                        && mb.nodes[*it.seq()[j].0] == *it.seq()[j].1,
                forall|x: u64| #[trigger]
                    mb.nodes.contains_key(x) ==> it.seq().contains((&x, &mb.nodes[x])),
                forall|x: u64| #[trigger]
                    nodes@.contains_key(x) <==> (a0.contains_key(x) || exists|j: int|
                        0 <= j < it.index() && *it.seq()[j].0 == x),
                forall|x: u64| #[trigger]
                    nodes@.contains_key(x) ==> nodes@[x] == (if a0.contains_key(x) {
                        a0[x]
                    } else {
                        mb.nodes[x]
                    }),
        {
            if !nodes.contains_key(k) {
                nodes.insert(*k, *v);
            }
        }
        let ghost merged = mb.nodes.union_prefer_right(ma.nodes);
        assert(nodes@ =~= merged);
        let mut pending: HashSet<u64> = HashSet::new();
        for k in it: self.pending_way_nodes.iter()
            invariant
                nodes@ == merged,
                forall|x: u64| #[trigger] ma.pending.contains(x) <==> it.seq().unref().contains(x),
                forall|j: int|
                    0 <= j < it.seq().len() ==> it.seq().unref()[j] == *#[trigger] it.seq()[j],
                forall|x: u64| #[trigger]
                    pending@.contains(x) <==> (exists|j: int|
                        0 <= j < it.index() && it.seq().unref()[j] == x) && !merged.contains_key(x),
        {
            if !nodes.contains_key(k) {
                pending.insert(*k);
            }
        }
        let ghost pending_a = pending@;
        assert(pending_a =~= ma.pending.difference(merged.dom()));
        for k in it: other.pending_way_nodes.iter()
            invariant
                nodes@ == merged,
                pending_a == ma.pending.difference(merged.dom()),
                forall|x: u64| #[trigger] mb.pending.contains(x) <==> it.seq().unref().contains(x),
                forall|j: int|
                    0 <= j < it.seq().len() ==> it.seq().unref()[j] == *#[trigger] it.seq()[j],
                forall|x: u64| #[trigger]
                    pending@.contains(x) <==> pending_a.contains(x) || ((exists|j: int|
                        0 <= j < it.index() && it.seq().unref()[j] == x) && !merged.contains_key(x)),
        {
            if !nodes.contains_key(k) {
                pending.insert(*k);
            }
        }
        assert(pending@ =~= ma.pending.union(mb.pending).difference(merged.dom()));
        let mut node_pois = self.node_pois;
        let mut other_pois = other.node_pois;
        let ghost pois_a = node_pois@;
        let ghost pois_b = other_pois@;
        node_pois.append(&mut other_pois);
        let mut ways = self.way_candidates;
        let mut other_ways = other.way_candidates;
        let ghost ways_a = ways@;
        let ghost ways_b = other_ways@;
        ways.append(&mut other_ways);
        let result = OsmPoiAccumulator {
            counts,
            nodes,
            pending_way_nodes: pending,
            node_pois,
            way_candidates: ways,
        };
        proof {
            assert(node_pois@ == pois_a + pois_b);
            assert(result.model().node_pois =~= ma.node_pois + mb.node_pois);
            assert(result.model().ways =~= ma.ways + mb.ways);
            assert(result.model() =~= model_combine(ma, mb));
        }
        result
    }
}

/// Merging is associative: accumulators built over consecutive parts of a
/// file can be merged in any grouping.
pub proof fn lemma_combine_associative<L>(
    a: AccumulatorModel<L>,
    b: AccumulatorModel<L>,
    c: AccumulatorModel<L>,
)
    ensures
        model_combine(model_combine(a, b), c) == model_combine(a, model_combine(b, c)),
{
    let left = model_combine(model_combine(a, b), c);
    let right = model_combine(a, model_combine(b, c));
    assert(left.nodes =~= right.nodes);
    assert(left.pending =~= right.pending);
    assert(left.node_pois =~= right.node_pois);
    assert(left.ways =~= right.ways);
}

/// The empty accumulator is a neutral element of merging.
pub proof fn lemma_combine_identity<L>(a: AccumulatorModel<L>)
    requires
        model_wf(a),
    ensures
        model_combine(model_empty(), a) == a,
        model_combine(a, model_empty()) == a,
{
    let left = model_combine(model_empty(), a);
    let right = model_combine(a, model_empty());
    assert(left.nodes =~= a.nodes);
    assert(right.nodes =~= a.nodes);
    assert(left.pending =~= a.pending);
    assert(right.pending =~= a.pending);
    assert(left.node_pois =~= a.node_pois);
    assert(right.node_pois =~= a.node_pois);
    assert(left.ways =~= a.ways);
    assert(right.ways =~= a.ways);
}

/// Merging keeps well-formedness: no known node stays pending.
pub proof fn lemma_combine_wf<L>(a: AccumulatorModel<L>, b: AccumulatorModel<L>)
    requires
        model_wf(a),
        model_wf(b),
    ensures
        model_wf(model_combine(a, b)),
{
    let c = model_combine(a, b);
    assert(c.nodes.dom() =~= b.nodes.dom().union(a.nodes.dom()));
    vstd::set_lib::lemma_set_union_finite_iff(b.nodes.dom(), a.nodes.dom());
    vstd::set_lib::lemma_set_union_finite_iff(a.pending, b.pending);
    assert(c.pending.subset_of(a.pending.union(b.pending)));
    vstd::set_lib::lemma_set_subset_finite(a.pending.union(b.pending), c.pending);
}

/// After a node is processed, a way never waits for it: its identifier is
/// not pending, and its location is known exactly when it was usable and the
/// node was relevant or pending.
pub proof fn lemma_processed_node_not_pending<L>(
    m: AccumulatorModel<L>,
    raw_id: int,
    location: Option<L>,
    tags: Seq<(String, String)>,
)
    requires
        spec_encode_element_id(OsmElementKind::Node, raw_id) is Some,
    ensures
        ({
            let id = spec_encode_element_id(OsmElementKind::Node, raw_id).unwrap();
            let after = model_after_node(m, raw_id, location, tags);
            &&& !after.pending.contains(id)
            &&& after.nodes.contains_key(id) == (m.nodes.contains_key(id) || (location is Some && (
            spec_has_relevant_key(tags) || m.pending.contains(id))))
        }),
{
}


/// A node becomes a point of interest exactly when its identifier encodes,
/// its location is usable and it has a relevant key. That point of interest
/// is added after the earlier ones, with the node's identifier and location,
/// and carries every key of the node's tags, each with the value of its last
/// pair; other nodes add no point of interest.
pub proof fn lemma_node_poi<L>(
    m: AccumulatorModel<L>,
    raw_id: int,
    location: Option<L>,
    tags: Seq<(String, String)>,
)
    ensures
        ({
            let after = model_after_node(m, raw_id, location, tags);
            if spec_encode_element_id(OsmElementKind::Node, raw_id) is Some && location is Some
                && spec_has_relevant_key(tags) {
                &&& after.node_pois.len() == m.node_pois.len() + 1
                &&& after.node_pois.take(m.node_pois.len() as int) == m.node_pois
                &&& after.node_pois.last().0 == spec_encode_element_id(OsmElementKind::Node, raw_id).unwrap()
                &&& after.node_pois.last().1 == location.unwrap()
                &&& tags_of_pairs(after.node_pois.last().2, tags)
            } else {
                after.node_pois == m.node_pois
            }
        }),
{
    lemma_pairs_map_tags(tags);
    let after = model_after_node(m, raw_id, location, tags);
    if spec_encode_element_id(OsmElementKind::Node, raw_id) is Some && location is Some
        && spec_has_relevant_key(tags) {
        assert(after.node_pois.take(m.node_pois.len() as int) =~= m.node_pois);
    }
}

} // verus!
