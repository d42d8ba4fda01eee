//! Points of interest and their tags.
//!
//! A point of interest carries an encoded identifier, a location and a map
//! of OpenStreetMap tags. The location type is left to the caller: the
//! library never inspects coordinates, it only moves them.

use vstd::prelude::*;

use crate::text::{chars_eq, chars_of, str_eq};

verus! {

/// The map that inserting `pairs` in order into an empty map yields (a later
/// pair replaces an earlier one with the same key).
pub open spec fn pairs_map(pairs: Seq<(String, String)>) -> Map<Seq<char>, Seq<char>>
    decreases pairs.len(),
{
    if pairs.len() == 0 {
        Map::empty()
    } else {
        pairs_map(pairs.drop_last()).insert(pairs.last().0@, pairs.last().1@)
    }
}

/// `t` is the tag map of `pairs`: it has exactly the keys of the pairs, and
/// each key maps to the value of the last pair with that key.
pub open spec fn tags_of_pairs(t: Map<Seq<char>, Seq<char>>, pairs: Seq<(String, String)>) -> bool {
    &&& forall|i: int| 0 <= i < pairs.len() ==> t.contains_key(#[trigger] pairs[i].0@)
    &&& forall|k: Seq<char>| #[trigger] t.contains_key(k) ==> exists|i: int| 0 <= i < pairs.len() && pairs[i].0@ == k
    &&& forall|i: int|
        0 <= i < pairs.len() && (forall|j: int| i < j < pairs.len() ==> pairs[j].0@ != pairs[i].0@)
            ==> t[#[trigger] pairs[i].0@] == pairs[i].1@
}

/// Inserting pairs in order into an empty map keeps every key, with the
/// value of its last pair, and no other key.
pub proof fn lemma_pairs_map_tags(pairs: Seq<(String, String)>)
    ensures
        tags_of_pairs(pairs_map(pairs), pairs),
    decreases pairs.len(),
{
    if pairs.len() > 0 {
        let n = pairs.len() - 1;
        let rest = pairs.drop_last();
        lemma_pairs_map_tags(rest);
        let pm = pairs_map(pairs);
        let prev = pairs_map(rest);
        assert forall|i: int| 0 <= i < pairs.len() implies pm.contains_key(#[trigger] pairs[i].0@) by {
            if i < n {
                assert(rest[i] == pairs[i]);
            }
        }
        assert forall|k: Seq<char>| #[trigger] pm.contains_key(k) implies exists|i: int|
            0 <= i < pairs.len() && pairs[i].0@ == k by {
            if k != pairs[n].0@ {
                assert(prev.contains_key(k));
                let i = choose|i: int| 0 <= i < rest.len() && rest[i].0@ == k;
                assert(pairs[i] == rest[i]);
            }
        }
        assert forall|i: int|
            0 <= i < pairs.len() && (forall|j: int| i < j < pairs.len() ==> pairs[j].0@ != pairs[i].0@)
            implies pm[#[trigger] pairs[i].0@] == pairs[i].1@ by {
            if i < n {
                assert(pairs[n].0@ != pairs[i].0@);
                assert(rest[i] == pairs[i]);
                assert forall|j: int| i < j < rest.len() implies rest[j].0@ != rest[i].0@ by {
                    assert(rest[j] == pairs[j]);
                }
            }
        }
    }
}

/// No key occurs twice in `pairs`.
pub open spec fn keys_unique(pairs: Seq<(String, String)>) -> bool {
    forall|i: int, j: int|
        0 <= i < j < pairs.len() ==> #[trigger] pairs[i].0@ != #[trigger] pairs[j].0@
}

/// OpenStreetMap tags: a map from keys to values, kept in insertion order.
#[derive(Debug)]
pub struct Tags {
    entries: Vec<(String, String)>,
}

impl View for Tags {
    type V = Map<Seq<char>, Seq<char>>;

    closed spec fn view(&self) -> Map<Seq<char>, Seq<char>> {
        pairs_map(self.entries@)
    }
}

proof fn lemma_pairs_map_lookup(pairs: Seq<(String, String)>, i: int)
    requires
        keys_unique(pairs),
        0 <= i < pairs.len(),
    ensures
        pairs_map(pairs).contains_key(pairs[i].0@),
        pairs_map(pairs)[pairs[i].0@] == pairs[i].1@,
    decreases pairs.len(),
{
    if i < pairs.len() - 1 {
        assert(pairs.drop_last()[i] == pairs[i]);
        lemma_pairs_map_lookup(pairs.drop_last(), i);
        assert(pairs[i].0@ != pairs[pairs.len() - 1].0@);
    }
}

proof fn lemma_pairs_map_absent(pairs: Seq<(String, String)>, key: Seq<char>)
    requires
        forall|i: int| 0 <= i < pairs.len() ==> #[trigger] pairs[i].0@ != key,
    ensures
        !pairs_map(pairs).contains_key(key),
    decreases pairs.len(),
{
    if pairs.len() > 0 {
        assert forall|i: int| 0 <= i < pairs.drop_last().len() implies #[trigger] pairs.drop_last()[i].0@
            != key by {
            assert(pairs.drop_last()[i] == pairs[i]);
        }
        lemma_pairs_map_absent(pairs.drop_last(), key);
        assert(pairs[pairs.len() - 1].0@ != key);
    }
}

proof fn lemma_pairs_map_update(pairs: Seq<(String, String)>, i: int, p: (String, String))
    requires
        keys_unique(pairs),
        0 <= i < pairs.len(),
        pairs[i].0@ == p.0@,
    ensures
        pairs_map(pairs.update(i, p)) == pairs_map(pairs).insert(p.0@, p.1@),
    decreases pairs.len(),
{
    let n = pairs.len() - 1;
    let updated = pairs.update(i, p);
    if i == n {
        assert(updated.drop_last() == pairs.drop_last());
        assert(pairs_map(updated) =~= pairs_map(pairs).insert(p.0@, p.1@));
    } else {
        assert(updated.drop_last() == pairs.drop_last().update(i, p));
        assert(keys_unique(pairs.drop_last())) by {
            assert forall|a: int, b: int| 0 <= a < b < pairs.drop_last().len() implies #[trigger] pairs.drop_last()[a].0@
                != #[trigger] pairs.drop_last()[b].0@ by {
                assert(pairs.drop_last()[a] == pairs[a]);
                assert(pairs.drop_last()[b] == pairs[b]);
            }
        }
        lemma_pairs_map_update(pairs.drop_last(), i, p);
        assert(pairs[i].0@ != pairs[n].0@);
        assert(updated.last() == pairs.last());
        assert(pairs_map(updated) =~= pairs_map(pairs).insert(p.0@, p.1@));
    }
}

impl Tags {
    #[verifier::type_invariant]
    spec fn inv(self) -> bool {
        keys_unique(self.entries@)
    }

    /// The tag pairs in insertion order.
    pub closed spec fn spec_entries(&self) -> Seq<(String, String)> {
        self.entries@
    }

    /// An empty set of tags.
    pub fn new() -> (result: Self)
        ensures
            result@ == Map::<Seq<char>, Seq<char>>::empty(),
            result.spec_entries().len() == 0,
    {
        Tags { entries: Vec::new() }
    }

    /// Insert a tag, replacing the value of an existing key. Returns the
    /// previous value of the key, if any.
    pub fn insert(&mut self, key: String, value: String) -> (previous: Option<String>)
        ensures
            final(self)@ == old(self)@.insert(key@, value@),
            match previous {
                Some(v) => old(self)@.contains_key(key@) && v@ == old(self)@[key@],
                None => !old(self)@.contains_key(key@),
            },
    {
        proof {
            use_type_invariant(&*self);
        }
        let key_chars = chars_of(key.as_str());
        let mut i: usize = 0;
        while i < self.entries.len()
            invariant
                i <= self.entries@.len(),
                key_chars@ == key@,
                self.entries@ == old(self).entries@,
                keys_unique(self.entries@),
                forall|k: int| 0 <= k < i ==> #[trigger] self.entries@[k].0@ != key@,
            decreases self.entries@.len() - i,
        {
            let existing = chars_of(self.entries[i].0.as_str());
            if chars_eq(&existing, &key_chars) {
                proof {
                    lemma_pairs_map_lookup(self.entries@, i as int);
                    lemma_pairs_map_update(self.entries@, i as int, (key, value));
                }
                let old_value = self.entries[i].1.clone();
                let ghost old_entries = self.entries@;
                let mut entries: Vec<(String, String)> = Vec::new();
                std::mem::swap(&mut entries, &mut self.entries);
                entries.set(i, (key, value));
                proof {
                    assert(keys_unique(entries@)) by {
                        assert forall|a: int, b: int| 0 <= a < b < entries@.len() implies #[trigger] entries@[a].0@
                            != #[trigger] entries@[b].0@ by {
                            assert(old_entries[a].0@ != old_entries[b].0@);
                        }
                    }
                }
                self.entries = entries;
                return Some(old_value);
            }
            i = i + 1;
        }
        proof {
            lemma_pairs_map_absent(self.entries@, key@);
        }
        let ghost old_entries = self.entries@;
        let mut entries: Vec<(String, String)> = Vec::new();
        std::mem::swap(&mut entries, &mut self.entries);
        entries.push((key, value));
        proof {
            assert(entries@.drop_last() == old_entries);
            assert(keys_unique(entries@)) by {
                assert forall|a: int, b: int| 0 <= a < b < entries@.len() implies #[trigger] entries@[a].0@
                    != #[trigger] entries@[b].0@ by {
                    if b < old_entries.len() {
                        assert(old_entries[a].0@ != old_entries[b].0@);
                    } else {
                        assert(old_entries[a].0@ != key@);
                    }
                }
            }
        }
        self.entries = entries;
        None
    }

    /// The value of `key`, if present.
    pub fn get(&self, key: &str) -> (result: Option<&String>)
        ensures
            match result {
                Some(v) => self@.contains_key(key@) && v@ == self@[key@],
                None => !self@.contains_key(key@),
            },
    {
        proof {
            use_type_invariant(self);
        }
        let mut i: usize = 0;
        while i < self.entries.len()
            invariant
                i <= self.entries@.len(),
                keys_unique(self.entries@),
                forall|k: int| 0 <= k < i ==> #[trigger] self.entries@[k].0@ != key@,
            decreases self.entries@.len() - i,
        {
            if str_eq(self.entries[i].0.as_str(), key) {
                proof {
                    lemma_pairs_map_lookup(self.entries@, i as int);
                }
                return Some(&self.entries[i].1);
            }
            i = i + 1;
        }
        proof {
            lemma_pairs_map_absent(self.entries@, key@);
        }
        None
    }

    /// Number of tags.
    pub fn len(&self) -> (result: usize)
        ensures
            result == self@.len(),
    {
        proof {
            use_type_invariant(self);
            lemma_pairs_map_len(self.entries@);
        }
        self.entries.len()
    }

    /// Whether there are no tags.
    pub fn is_empty(&self) -> (result: bool)
        ensures
            result == (self@.len() == 0),
    {
        self.len() == 0
    }

    /// The tag pairs in insertion order; their keys are distinct.
    pub fn entries(&self) -> (result: &Vec<(String, String)>)
        ensures
            result@ == self.spec_entries(),
            keys_unique(result@),
            pairs_map(result@) == self@,
    {
        proof {
            use_type_invariant(self);
        }
        &self.entries
    }
}

proof fn lemma_pairs_map_len(pairs: Seq<(String, String)>)
    requires
        keys_unique(pairs),
    ensures
        pairs_map(pairs).dom().finite(),
        pairs_map(pairs).len() == pairs.len(),
    decreases pairs.len(),
{
    if pairs.len() > 0 {
        let rest = pairs.drop_last();
        assert(keys_unique(rest)) by {
            assert forall|a: int, b: int| 0 <= a < b < rest.len() implies #[trigger] rest[a].0@
                != #[trigger] rest[b].0@ by {
                assert(rest[a] == pairs[a]);
                assert(rest[b] == pairs[b]);
            }
        }
        lemma_pairs_map_len(rest);
        assert forall|i: int| 0 <= i < rest.len() implies #[trigger] rest[i].0@ != pairs.last().0@ by {
            assert(rest[i] == pairs[i]);
        }
        lemma_pairs_map_absent(rest, pairs.last().0@);
    }
}

/// A point of interest derived from a tagged OSM element.
#[derive(Debug)]
pub struct PointOfInterest<L> {
    /// Encoded element identifier (see [`crate::ids`]).
    pub id: u64,
    /// Location of the element.
    pub location: L,
    /// Tags of the element.
    pub tags: Tags,
}

impl<L> PointOfInterest<L> {
    /// Build a point of interest from its parts.
    pub fn new(id: u64, location: L, tags: Tags) -> (result: Self)
        ensures
            result.id == id,
            result.location == location,
            result.tags == tags,
    {
        PointOfInterest { id, location, tags }
    }

    /// Build a point of interest without tags.
    pub fn with_empty_tags(id: u64, location: L) -> (result: Self)
        ensures
            result.id == id,
            result.location == location,
            result.tags@ == Map::<Seq<char>, Seq<char>>::empty(),
    {
        PointOfInterest { id, location, tags: Tags::new() }
    }
}

/// Whether a tag key marks an element as a point of interest: the
/// `historic` and `tourism` tag families.
pub open spec fn spec_is_relevant_key(key: Seq<char>) -> bool {
    key == "historic"@ || key == "tourism"@
}

/// Whether a tag key marks an element as a point of interest.
pub fn is_relevant_key(key: &str) -> (result: bool)
    ensures
        result == spec_is_relevant_key(key@),
{
    str_eq(key, "historic") || str_eq(key, "tourism")
}

/// Whether any of the keys in `tags` marks a point of interest.
pub open spec fn spec_has_relevant_key(tags: Seq<(String, String)>) -> bool {
    exists|i: int| 0 <= i < tags.len() && spec_is_relevant_key(#[trigger] tags[i].0@)
}

/// Whether any of the keys in `tags` marks a point of interest.
pub fn has_relevant_key(tags: &Vec<(String, String)>) -> (result: bool)
    ensures
        result == spec_has_relevant_key(tags@),
{
    let mut i: usize = 0;
    while i < tags.len()
        invariant
            i <= tags@.len(),
            forall|k: int| 0 <= k < i ==> !spec_is_relevant_key(#[trigger] tags@[k].0@),
        decreases tags@.len() - i,
    {
        if is_relevant_key(tags[i].0.as_str()) {
            return true;
        }
        i = i + 1;
    }
    false
}

/// Collect key/value pairs into a tag map; a later pair replaces an earlier
/// one with the same key.
pub fn collect_tags(tags: Vec<(String, String)>) -> (result: Tags)
    ensures
        result@ == pairs_map(tags@),
        tags_of_pairs(result@, tags@),
{
    proof {
        lemma_pairs_map_tags(tags@);
    }
    let mut collected = Tags::new();
    let ghost all = tags@;
    for p in it: tags
        invariant
            it.seq() == all,
            collected@ == pairs_map(all.take(it.index() as int)),
    {
        proof {
            assert(all.take(it.index() + 1).drop_last() == all.take(it.index() as int));
        }
        collected.insert(p.0, p.1);
    }
    assert(all.take(all.len() as int) == all);
    collected
}

} // verus!
