use crate::val_or_vec::ValOrVec;
use vstd::prelude::*;

verus! {

/// A decoded (key, value) pair, as text.
pub type PairView = (Seq<char>, Seq<char>);

/// The text of a list of owned pairs.
pub open spec fn pairs_view(pairs: Seq<(String, String)>) -> Seq<PairView> {
    pairs.map_values(|p: (String, String)| (p.0@, p.1@))
}

/// The distinct keys of `ps`, in order of first occurrence.
pub open spec fn keys_in_order(ps: Seq<PairView>) -> Seq<Seq<char>>
    decreases ps.len(),
{
    if ps.len() == 0 {
        seq![]
    } else {
        let ks = keys_in_order(ps.drop_last());
        if ks.contains(ps.last().0) {
            ks
        } else {
            ks.push(ps.last().0)
        }
    }
}

/// The values that `k` received in `ps`, in occurrence order.
pub open spec fn values_for(ps: Seq<PairView>, k: Seq<char>) -> Seq<Seq<char>>
    decreases ps.len(),
{
    if ps.len() == 0 {
        seq![]
    } else {
        let vs = values_for(ps.drop_last(), k);
        if ps.last().0 == k {
            vs.push(ps.last().1)
        } else {
            vs
        }
    }
}

/// The key groups of `ps`: one entry per distinct key, in order of first
/// occurrence, with every value of that key in occurrence order.
pub open spec fn grouped(ps: Seq<PairView>) -> Seq<(Seq<char>, Seq<Seq<char>>)> {
    keys_in_order(ps).map_values(|k: Seq<char>| (k, values_for(ps, k)))
}

/// The text of the groups built from owned pairs.
pub open spec fn groups_view(gs: Seq<(String, ValOrVec<String>)>) -> Seq<(Seq<char>, Seq<Seq<char>>)> {
    gs.map_values(|g: (String, ValOrVec<String>)| (g.0@, g.1.values().map_values(|v: String| v@)))
}

/// Every group is well formed.
pub open spec fn groups_wf(gs: Seq<(String, ValOrVec<String>)>) -> bool {
    forall|i: int| 0 <= i < gs.len() ==> (#[trigger] gs[i]).1.wf()
}

pub proof fn lemma_values_for_nonempty(ps: Seq<PairView>, k: Seq<char>)
    requires
        keys_in_order(ps).contains(k),
    ensures
        values_for(ps, k).len() >= 1,
    decreases ps.len(),
{
    if ps.len() > 0 {
        if keys_in_order(ps.drop_last()).contains(k) {
            lemma_values_for_nonempty(ps.drop_last(), k);
        }
    }
}

pub proof fn lemma_new_key_has_no_values(ps: Seq<PairView>, k: Seq<char>)
    requires
        !keys_in_order(ps).contains(k),
    ensures
        values_for(ps, k) == Seq::<Seq<char>>::empty(),
    decreases ps.len(),
{
    if ps.len() > 0 {
        let ks = keys_in_order(ps.drop_last());
        if ks.contains(k) {
            let idx = choose|idx: int| 0 <= idx < ks.len() && ks[idx] == k;
            assert(keys_in_order(ps)[idx] == k);
        }
        if ps.last().0 == k {
            if !ks.contains(k) {
                assert(keys_in_order(ps)[ks.len() as int] == k);
            }
        }
        lemma_new_key_has_no_values(ps.drop_last(), k);
    }
}

/// The position of `key` in `keys`, if it is there.
fn position_of(keys: &Vec<String>, key: &String) -> (r: Option<usize>)
    ensures
        r matches Some(j) ==> j < keys@.len() && keys@[j as int]@ == key@,
        r is None ==> forall|m: int| 0 <= m < keys@.len() ==> (#[trigger] keys@[m])@ != key@,
{
    let mut j: usize = 0;
    while j < keys.len()
        invariant
            j <= keys@.len(),
            forall|m: int| 0 <= m < j ==> (#[trigger] keys@[m])@ != key@,
        decreases keys@.len() - j,
    {
        if keys[j] == *key {
            return Some(j);
        }
        j = j + 1;
    }
    None
}

/// Groups `pairs` by key in one left-to-right pass.
pub fn group_pairs(pairs: &Vec<(String, String)>) -> (r: Vec<(String, ValOrVec<String>)>)
    ensures
        groups_view(r@) == grouped(pairs_view(pairs@)),
        groups_wf(r@),
{
    let ghost ps = pairs_view(pairs@);
    let mut keys: Vec<String> = Vec::new();
    let mut lists: Vec<Vec<String>> = Vec::new();
    let mut i: usize = 0;
    while i < pairs.len()
        invariant
            i <= pairs@.len(),
            ps == pairs_view(pairs@),
            keys@.len() == lists@.len(),
            keys@.map_values(|k: String| k@) == keys_in_order(ps.take(i as int)),
            forall|a: int, b: int|
                0 <= a < b < keys@.len() ==> (#[trigger] keys@[a])@ != (#[trigger] keys@[b])@,
            forall|j: int|
                0 <= j < lists@.len() ==> (#[trigger] lists@[j])@.map_values(|v: String| v@)
                    == values_for(ps.take(i as int), keys@[j]@),
        decreases pairs@.len() - i,
    {
        let ghost before = ps.take(i as int);
        let ghost after = ps.take(i + 1);
        let ghost kv = keys@.map_values(|k: String| k@);
        assert(after.drop_last() =~= before);
        assert(after.last() == ps[i as int]);
        let key = pairs[i].0.clone();
        let value = pairs[i].1.clone();
        assert(ps[i as int] == (key@, value@));
        match position_of(&keys, &key) {
            Some(j) => {
                proof {
                    assert(kv[j as int] == key@);
                    assert(kv.contains(key@));
                }
                let ghost old_lists = lists@;
                lists[j].push(value);
                proof {
                    assert forall|m: int| 0 <= m < lists@.len() implies (#[trigger] lists@[m])@.map_values(
                        |v: String| v@,
                    ) == values_for(after, keys@[m]@) by {
                        if m == j {
                            assert(lists@[m]@ == old_lists[m]@.push(value));
                            assert(lists@[m]@.map_values(|v: String| v@) =~= old_lists[m]@.map_values(
                                |v: String| v@,
                            ).push(value@));
                        } else {
                            assert(lists@[m] == old_lists[m]);
                            assert(keys@[m]@ != key@);
                        }
                    }
                }
            },
            None => {
                proof {
                    assert forall|m: int| 0 <= m < kv.len() implies kv[m] != key@ by {
                        assert(keys@[m]@ != key@);
                    }
                    assert(!kv.contains(key@));
                    lemma_new_key_has_no_values(before, key@);
                }
                let ghost old_lists = lists@;
                keys.push(key);
                lists.push(vec![value]);
                proof {
                    assert(keys@.map_values(|k: String| k@) =~= kv.push(key@));
                    assert forall|m: int| 0 <= m < lists@.len() implies (#[trigger] lists@[m])@.map_values(
                        |v: String| v@,
                    ) == values_for(after, keys@[m]@) by {
                        if m == lists@.len() - 1 {
                            assert(lists@[m]@.map_values(|v: String| v@) =~= seq![value@]);
                            assert(values_for(before, key@).push(value@) =~= seq![value@]);
                        } else {
                            assert(lists@[m] == old_lists[m]);
                            assert(kv[m] == keys@[m]@);
                        }
                    }
                }
            },
        }
        i = i + 1;
    }
    assert(ps.take(pairs@.len() as int) =~= ps);
    proof {
        assert forall|j: int| 0 <= j < keys@.len() implies values_for(ps, keys@[j]@).len() >= 1 by {
            assert(keys@.map_values(|k: String| k@)[j] == keys@[j]@);
            lemma_values_for_nonempty(ps, keys@[j]@);
        }
    }
    let ghost all_lists = lists@;
    let mut r: Vec<(String, ValOrVec<String>)> = Vec::new();
    let mut j: usize = 0;
    while j < keys.len()
        invariant
            j <= keys@.len(),
            keys@.len() == lists@.len(),
            all_lists.len() == lists@.len(),
            r@.len() == j,
            forall|m: int| j <= m < lists@.len() ==> #[trigger] lists@[m] == all_lists[m],
            forall|m: int|
                0 <= m < all_lists.len() ==> (#[trigger] all_lists[m])@.map_values(|v: String| v@)
                    == values_for(ps, keys@[m]@),
            forall|m: int| 0 <= m < keys@.len() ==> values_for(ps, (#[trigger] keys@[m])@).len() >= 1,
            forall|m: int|
                0 <= m < j ==> (#[trigger] r@[m]).0@ == keys@[m]@ && r@[m].1.wf()
                    && r@[m].1.values() == all_lists[m]@,
        decreases keys@.len() - j,
    {
        let mut list: Vec<String> = Vec::new();
        std::mem::swap(&mut list, &mut lists[j]);
        assert(list == all_lists[j as int]);
        assert(list@.map_values(|v: String| v@).len() >= 1);
        let shape = ValOrVec::from_values(list);
        r.push((keys[j].clone(), shape));
        j = j + 1;
    }
    proof {
        let gv = groups_view(r@);
        let gs = grouped(ps);
        assert forall|m: int| 0 <= m < gv.len() implies gv[m] == gs[m] by {
            assert(keys@.map_values(|k: String| k@)[m] == keys@[m]@);
        }
        assert(gv =~= gs);
    }
    r
}

} // verus!
