use crate::group::{group_pairs, grouped, groups_view, groups_wf, pairs_view, PairView};
use crate::val_or_vec::ValOrVec;
use vstd::prelude::*;

verus! {

/// The pairs that the form decoder reads from a byte string.
pub uninterp spec fn form_parsed(input: Seq<u8>) -> Seq<PairView>;

/// Relies on `form_urlencoded::parse` (with `into_owned`): it splits the input
/// at `&`, skips empty pieces, splits each piece at its first `=` and
/// percent-decodes both halves, so the pairs depend on the bytes alone and an
/// input made only of `&` gives none.
#[verifier::external_body]
fn parse_pairs(input: &[u8]) -> (r: Vec<(String, String)>)
    ensures
        pairs_view(r@) == form_parsed(input@),
        (forall|i: int| 0 <= i < input@.len() ==> input@[i] == 38u8) ==> r@.len() == 0,
{
    form_urlencoded::parse(input).into_owned().collect()
}

/// The key that a pair is grouped under: its text without a trailing `[]`.
pub open spec fn base_key(k: Seq<char>) -> Seq<char> {
    if k.len() >= 2 && k[k.len() - 2] == '[' && k[k.len() - 1] == ']' {
        k.take(k.len() - 2)
    } else {
        k
    }
}

/// The pairs with every key replaced by its base key.
pub open spec fn base_keys(ps: Seq<PairView>) -> Seq<PairView> {
    ps.map_values(|p: PairView| (base_key(p.0), p.1))
}

/// Removes a trailing `[]` from a key, so that `key[]=a` and `key=a` are
/// grouped together.
pub fn strip_brackets(key: &str) -> (r: String)
    ensures
        r@ == base_key(key@),
{
    let n = key.unicode_len();
    if n >= 2 && key.get_char(n - 2) == '[' && key.get_char(n - 1) == ']' {
        key.substring_char(0, n - 2).to_owned()
    } else {
        key.to_owned()
    }
}

/// Decodes a form body into its key groups: one entry per distinct base key
/// in order of first occurrence, a single value as `Val` and a repeated key
/// as `Vec` with its values in occurrence order.
pub fn decode(input: &[u8]) -> (r: Vec<(String, ValOrVec<String>)>)
    ensures
        groups_view(r@) == grouped(base_keys(form_parsed(input@))),
        groups_wf(r@),
        (forall|i: int| 0 <= i < input@.len() ==> input@[i] == 38u8) ==> r@.len() == 0,
{
    let parsed = parse_pairs(input);
    let ghost ps = pairs_view(parsed@);
    let mut pairs: Vec<(String, String)> = Vec::new();
    let mut i: usize = 0;
    assert(pairs_view(pairs@) =~= base_keys(ps.take(0)));
    while i < parsed.len()
        invariant
            i <= parsed@.len(),
            ps == pairs_view(parsed@),
            pairs@.len() == i,
            pairs_view(pairs@) == base_keys(ps.take(i as int)),
        decreases parsed@.len() - i,
    {
        let key = strip_brackets(parsed[i].0.as_str());
        let value = parsed[i].1.clone();
        let ghost prev = pairs@;
        pairs.push((key, value));
        proof {
            assert(ps[i as int] == (parsed@[i as int].0@, parsed@[i as int].1@));
            let next = base_keys(ps.take(i + 1));
            assert forall|j: int| 0 <= j < pairs@.len() implies pairs_view(pairs@)[j] == next[j] by {
                if j < i {
                    assert(pairs@[j] == prev[j]);
                    assert(pairs_view(prev)[j] == base_keys(ps.take(i as int))[j]);
                }
            }
            assert(pairs_view(pairs@) =~= next);
        }
        i = i + 1;
    }
    assert(ps.take(parsed@.len() as int) =~= ps);
    let r = group_pairs(&pairs);
    proof {
        if parsed@.len() == 0 {
            assert(pairs_view(pairs@) =~= Seq::<PairView>::empty());
            assert(grouped(pairs_view(pairs@)).len() == 0);
        }
    }
    r
}

} // verus!
