use crate::error::Error;
use crate::group::PairView;
use crate::ser::{appended, element_key, wire, ValueSink};
use vstd::prelude::*;

verus! {

/// A value to be written under one key: the shapes this format can carry.
#[derive(Debug, PartialEq, Eq)]
pub enum Value {
    /// An absent option: nothing is written.
    Absent,
    /// A unit, or a unit struct: nothing is written.
    Unit,
    /// One scalar, already turned into text.
    Scalar(String),
    /// A sequence of values.
    List(Vec<Value>),
}

/// The pairs written for one element of a sequence under `key`, or `None`
/// when the element is itself a sequence.
pub open spec fn item_pairs(key: Seq<char>, item: Value) -> Option<Seq<PairView>> {
    match item {
        Value::Absent => Some(seq![]),
        Value::Unit => Some(seq![]),
        Value::Scalar(s) => Some(seq![(key, s@)]),
        Value::List(_) => None,
    }
}

/// The pairs written for a sequence under `key`, or `None` when an element
/// is itself a sequence.
pub open spec fn list_pairs(key: Seq<char>, items: Seq<Value>) -> Option<Seq<PairView>>
    decreases items.len(),
{
    if items.len() == 0 {
        Some(seq![])
    } else {
        match (
            list_pairs(key, items.drop_last()),
            item_pairs(element_key(key, items.len() - 1), items.last()),
        ) {
            (Some(a), Some(b)) => Some(a + b),
            _ => None,
        }
    }
}

/// The pairs written for `v` under `key`, or `None` when `v` nests a
/// sequence in a sequence.
pub open spec fn value_pairs(key: Seq<char>, v: Value) -> Option<Seq<PairView>> {
    match v {
        Value::List(items) => list_pairs(key, items@),
        _ => item_pairs(key, v),
    }
}

/// The pairs written for a list of fields, in order, or `None` when one of
/// them cannot be written.
pub open spec fn fields_pairs(fields: Seq<(String, Value)>) -> Option<Seq<PairView>>
    decreases fields.len(),
{
    if fields.len() == 0 {
        Some(seq![])
    } else {
        match (
            fields_pairs(fields.drop_last()),
            value_pairs(fields.last().0@, fields.last().1),
        ) {
            (Some(a), Some(b)) => Some(a + b),
            _ => None,
        }
    }
}

/// Appending two runs of pairs one after the other appends their concatenation.
pub proof fn lemma_appended_concat(t: Seq<char>, a: Seq<PairView>, b: Seq<PairView>)
    ensures
        appended(appended(t, a), b) == appended(t, a + b),
    decreases b.len(),
{
    if b.len() == 0 {
        assert(a + b =~= a);
    } else {
        lemma_appended_concat(t, a, b.drop_last());
        assert((a + b).drop_last() =~= a + b.drop_last());
        assert((a + b).last() == b.last());
    }
}

/// Writes a value that is not a sequence, or an element of a sequence with
/// its element sink.
fn encode_item(sink: ValueSink, target: &mut String, item: &Value) -> (r: Result<(), Error>)
    requires
        sink.nested || !(item is List),
    ensures
        match item_pairs(sink.key@, *item) {
            Some(ps) => r is Ok && final(target)@ == appended(old(target)@, ps),
            None => r == Err::<(), Error>(Error::Unsupported),
        },
{
    match item {
        Value::Absent => {
            assert(appended(target@, seq![]) == target@);
            Ok(())
        },
        Value::Unit => {
            assert(appended(target@, seq![]) == target@);
            Ok(())
        },
        Value::Scalar(s) => {
            let ghost before = target@;
            let ghost key = sink.key@;
            let r = sink.serialize_str(target, s.as_str());
            proof {
                let ps = seq![(key, s@)];
                assert(ps.drop_last() =~= Seq::<PairView>::empty());
                assert(appended(before, ps.drop_last()) == before);
                assert(ps.last() == (key, s@));
                assert(appended(before, ps) == crate::ser::append_encoded(before, (key, s@)));
            }
            r
        },
        // only an element sink gets here, and it refuses a sequence
        Value::List(_) => match sink.serialize_seq() {
            Ok(_) => Ok(()),
            Err(e) => Err(e),
        },
    }
}

/// Writes `value` under `key`, appending its pairs to `target`: nothing for
/// an absent value or a unit, one pair for a scalar, one pair per element for
/// a sequence (the first under `key`, the rest under `key[]`). A sequence
/// inside a sequence is refused.
pub fn encode_value(key: &str, value: &Value, target: &mut String) -> (r: Result<(), Error>)
    ensures
        match value_pairs(key@, *value) {
            Some(ps) => r is Ok && final(target)@ == appended(old(target)@, ps),
            None => r == Err::<(), Error>(Error::Unsupported),
        },
{
    let sink = ValueSink::new(key);
    match value {
        Value::List(items) => {
            assert(value_pairs(key@, *value) == list_pairs(key@, items@));
            let mut seq = match sink.serialize_seq() {
                Ok(s) => s,
                Err(e) => return Err(e),
            };
            let ghost start = target@;
            let mut i: usize = 0;
            while i < items.len()
                invariant
                    i <= items@.len(),
                    value_pairs(key@, *value) == list_pairs(key@, items@),
                    seq.key@ == key@,
                    !seq.nested,
                    seq.started == (i > 0),
                    list_pairs(key@, items@.take(i as int)) matches Some(ps) && target@ == appended(
                        start,
                        ps,
                    ),
                decreases items@.len() - i,
            {
                let ghost prev = list_pairs(key@, items@.take(i as int))->Some_0;
                let element = seq.serialize_element();
                let res = encode_item(element, target, &items[i]);
                proof {
                    let next = items@.take(i + 1);
                    assert(next.drop_last() =~= items@.take(i as int));
                    assert(next.last() == items@[i as int]);
                }
                match res {
                    Ok(()) => {
                        proof {
                            let b = item_pairs(element_key(key@, i as int), items@[i as int])->Some_0;
                            lemma_appended_concat(start, prev, b);
                        }
                    },
                    Err(e) => {
                        proof {
                            assert(e == Error::Unsupported);
                            assert(list_pairs(key@, items@.take(i + 1)) is None);
                            lemma_list_none_extends(key@, items@, i + 1);
                        }
                        return Err(e);
                    },
                }
                i = i + 1;
            }
            assert(items@.take(items@.len() as int) =~= items@);
            Ok(())
        },
        _ => encode_item(sink, target, value),
    }
}

/// Once an element of a sequence cannot be written, the whole sequence cannot.
pub proof fn lemma_list_none_extends(key: Seq<char>, items: Seq<Value>, n: int)
    requires
        0 <= n <= items.len(),
        list_pairs(key, items.take(n)) is None,
    ensures
        list_pairs(key, items) is None,
    decreases items.len() - n,
{
    if n == items.len() {
        assert(items.take(n) =~= items);
    } else {
        let next = items.take(n + 1);
        assert(next.drop_last() =~= items.take(n));
        lemma_list_none_extends(key, items, n + 1);
    }
}

/// Encodes a list of fields as a form body: the pairs of each field in turn,
/// joined by `&`. Fails, writing nothing, when a field nests a sequence in a
/// sequence.
pub fn encode(fields: &Vec<(String, Value)>) -> (r: Result<String, Error>)
    ensures
        match fields_pairs(fields@) {
            Some(ps) => r matches Ok(s) && s@ == wire(ps),
            None => r == Err::<String, Error>(Error::Unsupported),
        },
{
    let mut target = String::new();
    let mut i: usize = 0;
    while i < fields.len()
        invariant
            i <= fields@.len(),
            fields_pairs(fields@.take(i as int)) matches Some(ps) && target@ == wire(ps),
        decreases fields@.len() - i,
    {
        let ghost prev = fields_pairs(fields@.take(i as int))->Some_0;
        let res = encode_value(fields[i].0.as_str(), &fields[i].1, &mut target);
        proof {
            let next = fields@.take(i + 1);
            assert(next.drop_last() =~= fields@.take(i as int));
            assert(next.last() == fields@[i as int]);
        }
        match res {
            Ok(()) => {
                proof {
                    let b = value_pairs(fields@[i as int].0@, fields@[i as int].1)->Some_0;
                    lemma_appended_concat(seq![], prev, b);
                }
            },
            Err(e) => {
                proof {
                    lemma_fields_none_extends(fields@, i + 1);
                }
                return Err(e);
            },
        }
        i = i + 1;
    }
    assert(fields@.take(fields@.len() as int) =~= fields@);
    Ok(target)
}

/// Once a field cannot be written, the list of fields cannot.
pub proof fn lemma_fields_none_extends(fields: Seq<(String, Value)>, n: int)
    requires
        0 <= n <= fields.len(),
        fields_pairs(fields.take(n)) is None,
    ensures
        fields_pairs(fields) is None,
    decreases fields.len() - n,
{
    if n == fields.len() {
        assert(fields.take(n) =~= fields);
    } else {
        let next = fields.take(n + 1);
        assert(next.drop_last() =~= fields.take(n));
        lemma_fields_none_extends(fields, n + 1);
    }
}

} // verus!
