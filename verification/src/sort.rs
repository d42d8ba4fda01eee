//! Stable merge sort of points of interest by identifier.
//!
//! The sort keeps points of interest with the same identifier in their
//! input order, as `slice::sort_by_key` does.

use vstd::prelude::*;

use crate::accumulator::{PoiModel, poi_model};
use crate::poi::PointOfInterest;

verus! {

/// The abstract contents of a sequence of points of interest.
pub open spec fn poi_models<L>(s: Seq<PointOfInterest<L>>) -> Seq<PoiModel<L>> {
    s.map_values(|p: PointOfInterest<L>| poi_model(p))
}

/// Identifiers never decrease along `s`.
pub open spec fn ids_sorted<L>(s: Seq<PoiModel<L>>) -> bool {
    forall|i: int, j: int| 0 <= i < j < s.len() ==> #[trigger] s[i].0 <= #[trigger] s[j].0
}

/// The elements of `s` with identifier `id`, in order.
pub open spec fn with_id<L>(s: Seq<PoiModel<L>>, id: u64) -> Seq<PoiModel<L>> {
    s.filter(id_is(id))
}

/// The predicate "has identifier `id`".
pub open spec fn id_is<L>(id: u64) -> spec_fn(PoiModel<L>) -> bool {
    |p: PoiModel<L>| p.0 == id
}

/// Merge of two sequences; on equal identifiers the element of `a` comes
/// first.
pub open spec fn merge_by_id<L>(a: Seq<PoiModel<L>>, b: Seq<PoiModel<L>>) -> Seq<PoiModel<L>>
    decreases a.len() + b.len(),
{
    if a.len() == 0 {
        b
    } else if b.len() == 0 {
        a
    } else if a[0].0 <= b[0].0 {
        seq![a[0]] + merge_by_id(a.drop_first(), b)
    } else {
        seq![b[0]] + merge_by_id(a, b.drop_first())
    }
}

/// Merge sort by identifier.
pub open spec fn sort_by_id<L>(s: Seq<PoiModel<L>>) -> Seq<PoiModel<L>>
    decreases s.len(),
{
    if s.len() <= 1 {
        s
    } else {
        let mid = s.len() / 2;
        merge_by_id(sort_by_id(s.take(mid as int)), sort_by_id(s.skip(mid as int)))
    }
}

proof fn lemma_merge_len_and_bound<L>(a: Seq<PoiModel<L>>, b: Seq<PoiModel<L>>, lb: u64)
    requires
        forall|i: int| 0 <= i < a.len() ==> lb <= #[trigger] a[i].0,
        forall|i: int| 0 <= i < b.len() ==> lb <= #[trigger] b[i].0,
    ensures
        merge_by_id(a, b).len() == a.len() + b.len(),
        forall|i: int| 0 <= i < merge_by_id(a, b).len() ==> lb <= #[trigger] merge_by_id(a, b)[i].0,
    decreases a.len() + b.len(),
{
    if a.len() == 0 || b.len() == 0 {
    } else if a[0].0 <= b[0].0 {
        lemma_merge_len_and_bound(a.drop_first(), b, lb);
        let rest = merge_by_id(a.drop_first(), b);
        assert forall|i: int| 0 <= i < merge_by_id(a, b).len() implies lb <= #[trigger] merge_by_id(
            a,
            b,
        )[i].0 by {
            if i > 0 {
                assert(merge_by_id(a, b)[i] == rest[i - 1]);
            }
        }
    } else {
        lemma_merge_len_and_bound(a, b.drop_first(), lb);
        let rest = merge_by_id(a, b.drop_first());
        assert forall|i: int| 0 <= i < merge_by_id(a, b).len() implies lb <= #[trigger] merge_by_id(
            a,
            b,
        )[i].0 by {
            if i > 0 {
                assert(merge_by_id(a, b)[i] == rest[i - 1]);
            }
        }
    }
}

proof fn lemma_merge_sorted<L>(a: Seq<PoiModel<L>>, b: Seq<PoiModel<L>>)
    requires
        ids_sorted(a),
        ids_sorted(b),
    ensures
        ids_sorted(merge_by_id(a, b)),
    decreases a.len() + b.len(),
{
    if a.len() == 0 || b.len() == 0 {
    } else if a[0].0 <= b[0].0 {
        let a1 = a.drop_first();
        lemma_merge_sorted(a1, b);
        lemma_merge_len_and_bound(a1, b, a[0].0);
        let m = merge_by_id(a, b);
        let rest = merge_by_id(a1, b);
        assert forall|i: int, j: int| 0 <= i < j < m.len() implies #[trigger] m[i].0 <= #[trigger] m[j].0 by {
            assert(m[j] == rest[j - 1]);
            if i > 0 {
                assert(m[i] == rest[i - 1]);
            }
        }
    } else {
        let b1 = b.drop_first();
        lemma_merge_sorted(a, b1);
        lemma_merge_len_and_bound(a, b1, b[0].0);
        let m = merge_by_id(a, b);
        let rest = merge_by_id(a, b1);
        assert forall|i: int, j: int| 0 <= i < j < m.len() implies #[trigger] m[i].0 <= #[trigger] m[j].0 by {
            assert(m[j] == rest[j - 1]);
            if i > 0 {
                assert(m[i] == rest[i - 1]);
            }
        }
    }
}

proof fn lemma_with_id_empty<L>(a: Seq<PoiModel<L>>, id: u64)
    requires
        forall|i: int| 0 <= i < a.len() ==> #[trigger] a[i].0 != id,
    ensures
        with_id(a, id) == Seq::<PoiModel<L>>::empty(),
    decreases a.len(),
{
    reveal(Seq::filter);
    if a.len() > 0 {
        assert forall|i: int| 0 <= i < a.drop_last().len() implies #[trigger] a.drop_last()[i].0 != id by {
            assert(a.drop_last()[i] == a[i]);
        }
        lemma_with_id_empty(a.drop_last(), id);
        assert(a.last().0 != id);
    }
}

proof fn lemma_merge_with_id<L>(a: Seq<PoiModel<L>>, b: Seq<PoiModel<L>>, id: u64)
    requires
        ids_sorted(a),
    ensures
        with_id(merge_by_id(a, b), id) == with_id(a, id) + with_id(b, id),
    decreases a.len() + b.len(),
{
    let pred = id_is::<L>(id);
    if a.len() == 0 {
        assert(with_id(a, id) =~= Seq::<PoiModel<L>>::empty()) by {
            reveal(Seq::filter);
        }
        assert(with_id(a, id) + with_id(b, id) =~= with_id(b, id));
    } else if b.len() == 0 {
        assert(with_id(b, id) =~= Seq::<PoiModel<L>>::empty()) by {
            reveal(Seq::filter);
        }
        assert(with_id(a, id) + with_id(b, id) =~= with_id(a, id));
    } else if a[0].0 <= b[0].0 {
        let a1 = a.drop_first();
        assert(ids_sorted(a1)) by {
            assert forall|i: int, j: int| 0 <= i < j < a1.len() implies #[trigger] a1[i].0
                <= #[trigger] a1[j].0 by {
                assert(a1[i] == a[i + 1]);
                assert(a1[j] == a[j + 1]);
            }
        }
        lemma_merge_with_id(a1, b, id);
        let rest = merge_by_id(a1, b);
        rest.lemma_filter_prepend(a[0], pred);
        a1.lemma_filter_prepend(a[0], pred);
        assert(a == seq![a[0]] + a1);
        let head = if pred(a[0]) {
            seq![a[0]]
        } else {
            Seq::<PoiModel<L>>::empty()
        };
        assert(with_id(merge_by_id(a, b), id) == head + with_id(rest, id));
        assert(with_id(a, id) == head + with_id(a1, id));
        assert(head + (with_id(a1, id) + with_id(b, id)) =~= (head + with_id(a1, id)) + with_id(b, id));
    } else {
        let b1 = b.drop_first();
        lemma_merge_with_id(a, b1, id);
        let rest = merge_by_id(a, b1);
        rest.lemma_filter_prepend(b[0], pred);
        b1.lemma_filter_prepend(b[0], pred);
        assert(b == seq![b[0]] + b1);
        if b[0].0 == id {
            assert forall|i: int| 0 <= i < a.len() implies #[trigger] a[i].0 != id by {
                if i > 0 {
                    assert(a[0].0 <= a[i].0);
                }
            }
            lemma_with_id_empty(a, id);
            assert(with_id(merge_by_id(a, b), id) == seq![b[0]] + with_id(rest, id));
            assert(with_id(b, id) == seq![b[0]] + with_id(b1, id));
            assert(with_id(a, id) + with_id(b, id) =~= with_id(b, id));
            assert(with_id(a, id) + with_id(b1, id) =~= with_id(b1, id));
        } else {
            assert(with_id(merge_by_id(a, b), id) =~= with_id(rest, id));
            assert(with_id(b, id) =~= with_id(b1, id));
        }
    }
}

/// The merge sort yields identifiers in non-decreasing order.
pub proof fn lemma_sort_by_id_sorted<L>(s: Seq<PoiModel<L>>)
    ensures
        ids_sorted(sort_by_id(s)),
    decreases s.len(),
{
    if s.len() > 1 {
        let mid = s.len() / 2;
        lemma_sort_by_id_sorted(s.take(mid as int));
        lemma_sort_by_id_sorted(s.skip(mid as int));
        lemma_merge_sorted(sort_by_id(s.take(mid as int)), sort_by_id(s.skip(mid as int)));
    }
}

/// The merge sort is stable: the elements with a given identifier keep
/// their input order.
pub proof fn lemma_sort_by_id_stable<L>(s: Seq<PoiModel<L>>, id: u64)
    ensures
        with_id(sort_by_id(s), id) == with_id(s, id),
    decreases s.len(),
{
    if s.len() > 1 {
        let mid = s.len() / 2;
        let left = s.take(mid as int);
        let right = s.skip(mid as int);
        lemma_sort_by_id_stable(left, id);
        lemma_sort_by_id_stable(right, id);
        lemma_sort_by_id_sorted(left);
        lemma_merge_with_id(sort_by_id(left), sort_by_id(right), id);
        assert(s == left + right);
        Seq::filter_distributes_over_add(left, right, id_is::<L>(id));
    }
}

/// Reverse a vector.
fn reverse_pois<L>(v: Vec<PointOfInterest<L>>) -> (result: Vec<PointOfInterest<L>>)
    ensures
        result@ == v@.reverse(),
{
    let ghost v0 = v@;
    let mut rest = v;
    let mut out: Vec<PointOfInterest<L>> = Vec::new();
    while rest.len() > 0
        invariant
            rest@.len() <= v0.len(),
            rest@ == v0.subrange(0, rest@.len() as int),
            out@ == v0.subrange(rest@.len() as int, v0.len() as int).reverse(),
        decreases rest@.len(),
    {
        let ghost n = rest@.len();
        let ghost rest0 = rest@;
        let ghost out0 = out@;
        let x = rest.pop().unwrap();
        out.push(x);
        proof {
            assert(rest0 == v0.subrange(0, n as int));
            assert(x == rest0[n - 1]);
            assert(rest@ == rest0.drop_last());
            assert(rest@ =~= v0.subrange(0, n - 1));
            assert(out@ == out0.push(x));
            assert(out@ =~= v0.subrange(n - 1, v0.len() as int).reverse());
        }
    }
    assert(v0.subrange(0, v0.len() as int) == v0);
    out
}

/// Stable merge of two vectors sorted by identifier.
fn merge_pois<L>(a: Vec<PointOfInterest<L>>, b: Vec<PointOfInterest<L>>) -> (result: Vec<
    PointOfInterest<L>,
>)
    ensures
        poi_models(result@) == merge_by_id(poi_models(a@), poi_models(b@)),
{
    let ghost total = merge_by_id(poi_models(a@), poi_models(b@));
    let mut ra = reverse_pois(a);
    let mut rb = reverse_pois(b);
    let mut out: Vec<PointOfInterest<L>> = Vec::new();
    proof {
        assert(ra@.reverse() =~= a@);
        assert(rb@.reverse() =~= b@);
    }
    while ra.len() > 0 && rb.len() > 0
        invariant
            poi_models(out@) + merge_by_id(poi_models(ra@.reverse()), poi_models(rb@.reverse()))
                == total,
        decreases ra@.len() + rb@.len(),
    {
        let ghost ra0 = ra@;
        let ghost rb0 = rb@;
        let ghost out0 = out@;
        let ia = ra.len() - 1;
        let ib = rb.len() - 1;
        proof {
            assert(poi_models(ra0.reverse())[0] == poi_model(ra0[ia as int]));
            assert(poi_models(rb0.reverse())[0] == poi_model(rb0[ib as int]));
        }
        if ra[ia].id <= rb[ib].id {
            let x = ra.pop().unwrap();
            out.push(x);
            proof {
                assert(poi_models(ra@.reverse()) =~= poi_models(ra0.reverse()).drop_first());
                assert(poi_models(out@) =~= poi_models(out0) + seq![poi_model(x)]);
            }
        } else {
            let x = rb.pop().unwrap();
            out.push(x);
            proof {
                assert(poi_models(rb@.reverse()) =~= poi_models(rb0.reverse()).drop_first());
                assert(poi_models(out@) =~= poi_models(out0) + seq![poi_model(x)]);
            }
        }
    }
    while ra.len() > 0
        invariant
            rb@.len() == 0 || ra@.len() == 0,
            poi_models(out@) + merge_by_id(poi_models(ra@.reverse()), poi_models(rb@.reverse()))
                == total,
        decreases ra@.len(),
    {
        let ghost ra0 = ra@;
        let ghost out0 = out@;
        let x = ra.pop().unwrap();
        out.push(x);
        proof {
            assert(poi_models(rb@.reverse()).len() == 0);
            assert(poi_models(ra@.reverse()) =~= poi_models(ra0.reverse()).drop_first());
            assert(poi_models(ra0.reverse())[0] == poi_model(x));
            assert(poi_models(out@) =~= poi_models(out0) + seq![poi_model(x)]);
            assert(poi_models(ra0.reverse()) =~= seq![poi_model(x)] + poi_models(ra@.reverse()));
        }
    }
    while rb.len() > 0
        invariant
            ra@.len() == 0,
            poi_models(out@) + merge_by_id(poi_models(ra@.reverse()), poi_models(rb@.reverse()))
                == total,
        decreases rb@.len(),
    {
        let ghost rb0 = rb@;
        let ghost out0 = out@;
        let x = rb.pop().unwrap();
        out.push(x);
        proof {
            assert(poi_models(ra@.reverse()).len() == 0);
            assert(poi_models(rb@.reverse()) =~= poi_models(rb0.reverse()).drop_first());
            assert(poi_models(rb0.reverse())[0] == poi_model(x));
            assert(poi_models(out@) =~= poi_models(out0) + seq![poi_model(x)]);
            assert(poi_models(rb0.reverse()) =~= seq![poi_model(x)] + poi_models(rb@.reverse()));
        }
    }
    proof {
        assert(poi_models(ra@.reverse()).len() == 0);
        assert(poi_models(rb@.reverse()).len() == 0);
        assert(poi_models(out@) + merge_by_id(poi_models(ra@.reverse()), poi_models(rb@.reverse()))
            =~= poi_models(out@));
    }
    out
}

/// Sort points of interest by identifier, keeping the input order of points
/// of interest with equal identifiers.
pub fn sort_pois_by_id<L>(v: Vec<PointOfInterest<L>>) -> (result: Vec<PointOfInterest<L>>)
    ensures
        poi_models(result@) == sort_by_id(poi_models(v@)),
        ids_sorted(poi_models(result@)),
        forall|id: u64| #[trigger] with_id(poi_models(result@), id) == with_id(poi_models(v@), id),
    decreases v@.len(),
{
    proof {
        lemma_sort_by_id_sorted(poi_models(v@));
        assert forall|id: u64| #[trigger] with_id(sort_by_id(poi_models(v@)), id) == with_id(
            poi_models(v@),
            id,
        ) by {
            lemma_sort_by_id_stable(poi_models(v@), id);
        }
    }
    if v.len() <= 1 {
        return v;
    }
    let mid = v.len() / 2;
    let mut left = v;
    let ghost all = left@;
    let right = left.split_off(mid);
    proof {
        assert(poi_models(left@) =~= poi_models(all).take(mid as int));
        assert(poi_models(right@) =~= poi_models(all).skip(mid as int));
    }
    let sorted_left = sort_pois_by_id(left);
    let sorted_right = sort_pois_by_id(right);
    merge_pois(sorted_left, sorted_right)
}

} // verus!
