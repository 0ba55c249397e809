use crate::encode::{fields_pairs, item_pairs, lemma_list_none_extends, list_pairs, Value};
use crate::group::{grouped, groups_view, keys_in_order, lemma_new_key_has_no_values, pairs_view, values_for, PairView};
use crate::ser::element_key;
use crate::val_or_vec::{dispatch_outcome, Request, RouteView, ValOrVec};
use vstd::prelude::*;

verus! {

/// The (key, text) pairs of fields whose values are all scalars.
pub open spec fn scalar_pairs(fields: Seq<(String, Value)>) -> Seq<PairView> {
    fields.map_values(|f: (String, Value)| (f.0@, f.1->Scalar_0@))
}

/// A key is among the grouped keys exactly when some pair carries it.
pub proof fn lemma_keys_in_order_contains(ps: Seq<PairView>, k: Seq<char>)
    ensures
        keys_in_order(ps).contains(k) == (exists|i: int| 0 <= i < ps.len() && ps[i].0 == k),
    decreases ps.len(),
{
    if ps.len() > 0 {
        let init = ps.drop_last();
        let ks = keys_in_order(init);
        lemma_keys_in_order_contains(init, k);
        if keys_in_order(ps).contains(k) {
            if ks.contains(k) {
                let i = choose|i: int| 0 <= i < init.len() && init[i].0 == k;
                assert(ps[i].0 == k);
            } else {
                let j = choose|j: int| 0 <= j < keys_in_order(ps).len() && keys_in_order(ps)[j] == k;
                assert(j == ks.len());
                assert(ps[ps.len() - 1].0 == k);
            }
        } else {
            assert forall|i: int| 0 <= i < ps.len() implies ps[i].0 != k by {
                if i < ps.len() - 1 {
                    assert(init[i] == ps[i]);
                    if ps[i].0 == k {
                        assert(ks.contains(k));
                        let j = choose|j: int| 0 <= j < ks.len() && ks[j] == k;
                        assert(keys_in_order(ps)[j] == k);
                    }
                } else if ps[i].0 == k {
                    if ks.contains(k) {
                        let j = choose|j: int| 0 <= j < ks.len() && ks[j] == k;
                        assert(keys_in_order(ps)[j] == k);
                    } else {
                        assert(keys_in_order(ps)[ks.len() as int] == k);
                    }
                }
            }
        }
    }
}

/// The groups form a mapping: no key appears twice among them.
pub proof fn lemma_group_keys_distinct(ps: Seq<PairView>)
    ensures
        keys_in_order(ps).no_duplicates(),
    decreases ps.len(),
{
    if ps.len() > 0 {
        lemma_group_keys_distinct(ps.drop_last());
    }
}

/// Round trip of scalar fields: when every field holds a scalar and no two
/// fields share a key, the encoder writes one pair per field in order, and
/// grouping those pairs gives back every field, in order, as a single value.
pub proof fn lemma_scalar_round_trip(fields: Seq<(String, Value)>)
    requires
        forall|i: int| 0 <= i < fields.len() ==> (#[trigger] fields[i]).1 is Scalar,
        forall|i: int, j: int|
            0 <= i < j < fields.len() ==> (#[trigger] fields[i]).0@ != (#[trigger] fields[j]).0@,
    ensures
        fields_pairs(fields) == Some(scalar_pairs(fields)),
        grouped(scalar_pairs(fields)) == fields.map_values(
            |f: (String, Value)| (f.0@, seq![f.1->Scalar_0@]),
        ),
    decreases fields.len(),
{
    let ps = scalar_pairs(fields);
    let expected = fields.map_values(|f: (String, Value)| (f.0@, seq![f.1->Scalar_0@]));
    if fields.len() == 0 {
        assert(ps =~= Seq::<PairView>::empty());
        assert(grouped(ps) =~= expected);
    } else {
        let init = fields.drop_last();
        lemma_scalar_round_trip(init);
        let n = fields.len() - 1;
        let k = fields[n].0@;
        let v = fields[n].1->Scalar_0@;
        assert(scalar_pairs(init) =~= ps.drop_last());
        assert(ps.last() == (k, v));
        assert(item_pairs(k, fields.last().1) == Some(seq![(k, v)]));
        assert(scalar_pairs(init) + seq![(k, v)] =~= ps);
        let pi = ps.drop_last();
        let gi = grouped(pi);
        // the last key is new
        assert forall|i: int| 0 <= i < pi.len() implies pi[i].0 != k by {
            assert(pi[i].0 == fields[i].0@);
        }
        lemma_keys_in_order_contains(pi, k);
        lemma_new_key_has_no_values(pi, k);
        assert(keys_in_order(ps) == keys_in_order(pi).push(k));
        assert(gi.len() == n);
        assert forall|j: int| 0 <= j < fields.len() implies grouped(ps)[j] == expected[j] by {
            if j < n {
                assert(gi[j] == (fields[j].0@, seq![fields[j].1->Scalar_0@]));
                assert(keys_in_order(pi)[j] == fields[j].0@);
                assert(fields[j].0@ != k);
            } else {
                assert(values_for(pi, k) =~= Seq::<Seq<char>>::empty());
                assert(values_for(ps, k) =~= seq![v]);
            }
        }
        assert(grouped(ps) =~= expected);
    }
}

/// Sequence emission: a sequence of scalars under `key` is written as one
/// pair per element, in order, the first under `key` and every later one
/// under `key[]`.
pub proof fn lemma_sequence_emission(key: Seq<char>, items: Seq<Value>)
    requires
        forall|i: int| 0 <= i < items.len() ==> (#[trigger] items[i]) is Scalar,
    ensures
        list_pairs(key, items) == Some(
            Seq::new(items.len(), |i: int| (element_key(key, i), items[i]->Scalar_0@)),
        ),
    decreases items.len(),
{
    let expected = Seq::new(items.len(), |i: int| (element_key(key, i), items[i]->Scalar_0@));
    if items.len() == 0 {
        assert(expected =~= Seq::<PairView>::empty());
    } else {
        let init = items.drop_last();
        lemma_sequence_emission(key, init);
        let n = items.len() - 1;
        let prev = Seq::new(init.len(), |i: int| (element_key(key, i), init[i]->Scalar_0@));
        assert(prev + seq![(element_key(key, n), items[n]->Scalar_0@)] =~= expected);
    }
}

/// Nested sequence rejection: a sequence with an element that is itself a
/// sequence cannot be written.
pub proof fn lemma_nested_sequence_rejected(key: Seq<char>, items: Seq<Value>, n: int)
    requires
        0 <= n < items.len(),
        items[n] is List,
    ensures
        list_pairs(key, items) is None,
{
    let prefix = items.take(n + 1);
    assert(prefix.last() == items[n]);
    lemma_list_none_extends(key, items, n + 1);
}

/// The (key, text) pairs of the fields that hold a scalar, in order.
pub open spec fn present_pairs(fields: Seq<(String, Value)>) -> Seq<PairView> {
    fields.filter(|f: (String, Value)| f.1 is Scalar).map_values(
        |f: (String, Value)| (f.0@, f.1->Scalar_0@),
    )
}

/// Absent values are omitted: of fields that each hold a scalar or nothing,
/// exactly the scalars are written, in order.
pub proof fn lemma_absent_fields_omitted(fields: Seq<(String, Value)>)
    requires
        forall|i: int|
            0 <= i < fields.len() ==> (#[trigger] fields[i]).1 is Scalar || fields[i].1 is Absent,
    ensures
        fields_pairs(fields) == Some(present_pairs(fields)),
    decreases fields.len(),
{
    reveal(Seq::filter);
    if fields.len() == 0 {
        assert(present_pairs(fields) =~= Seq::<PairView>::empty());
    } else {
        let init = fields.drop_last();
        lemma_absent_fields_omitted(init);
        let last = fields.last();
        let pred = |f: (String, Value)| f.1 is Scalar;
        let f = |f: (String, Value)| (f.0@, f.1->Scalar_0@);
        if last.1 is Scalar {
            assert(fields.filter(pred) == init.filter(pred).push(last));
            assert(present_pairs(fields) =~= present_pairs(init) + seq![(last.0@, last.1->Scalar_0@)]);
        } else {
            assert(fields.filter(pred) == init.filter(pred));
            assert(present_pairs(init) + Seq::<PairView>::empty() =~= present_pairs(init));
        }
    }
}

/// Grouping is a function of the text of the pairs: two runs over pairs with
/// the same text give groups with the same keys in the same order and the
/// same values in the same order.
pub proof fn lemma_group_deterministic(
    a: Seq<(String, String)>,
    b: Seq<(String, String)>,
    ra: Seq<(String, ValOrVec<String>)>,
    rb: Seq<(String, ValOrVec<String>)>,
)
    requires
        pairs_view(a) == pairs_view(b),
        groups_view(ra) == grouped(pairs_view(a)),
        groups_view(rb) == grouped(pairs_view(b)),
    ensures
        groups_view(ra) == groups_view(rb),
{
}

/// Single against multiple: a key that occurred once answers a scalar
/// request with its value and a sequence request with a one-element
/// sequence; a key that occurred two or more times answers a sequence or an
/// untyped request with all its values in occurrence order, and any other
/// request, but an ignored one, with the unsupported error.
pub proof fn lemma_single_vs_multiple(ps: Seq<PairView>, k: Seq<char>, req: Request)
    requires
        exists|i: int| 0 <= i < ps.len() && ps[i].0 == k,
    ensures
        ({
            let vs = values_for(ps, k);
            &&& vs.len() >= 1
            &&& vs.len() == 1 && req == Request::Sequence ==> dispatch_outcome(vs, req)
                == RouteView::Elements(seq![vs[0]])
            &&& vs.len() == 1 && req != Request::Sequence && req != Request::IgnoredAny
                ==> dispatch_outcome(vs, req) == RouteView::Forward(vs[0])
            &&& vs.len() >= 2 && (req == Request::Sequence || req == Request::Any)
                ==> dispatch_outcome(vs, req) == RouteView::Elements(vs)
            &&& vs.len() >= 2 && req != Request::Sequence && req != Request::Any && req
                != Request::IgnoredAny ==> dispatch_outcome(vs, req) == RouteView::<Seq<char>>::Unsupported
        }),
{
    lemma_keys_in_order_contains(ps, k);
    crate::group::lemma_values_for_nonempty(ps, k);
    let vs = values_for(ps, k);
    if vs.len() == 1 {
        assert(vs =~= seq![vs[0]]);
    }
}

} // verus!
