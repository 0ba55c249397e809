use crate::error::Error;
use crate::group::PairView;
use vstd::prelude::*;

verus! {

/// What the form encoder writes for one name or value.
pub uninterp spec fn form_encoded(s: Seq<char>) -> Seq<char>;

/// The text of one encoded pair: `name=value`, both encoded.
pub open spec fn encoded_pair(p: PairView) -> Seq<char> {
    form_encoded(p.0) + seq!['='] + form_encoded(p.1)
}

/// `target` with the pair `p` appended, after a `&` unless `target` is empty.
pub open spec fn append_encoded(target: Seq<char>, p: PairView) -> Seq<char> {
    if target.len() > 0 {
        target + seq!['&'] + encoded_pair(p)
    } else {
        encoded_pair(p)
    }
}

/// `target` with every pair of `ps` appended in order.
pub open spec fn appended(target: Seq<char>, ps: Seq<PairView>) -> Seq<char>
    decreases ps.len(),
{
    if ps.len() == 0 {
        target
    } else {
        append_encoded(appended(target, ps.drop_last()), ps.last())
    }
}

/// The form body that holds exactly the pairs `ps`, in order.
pub open spec fn wire(ps: Seq<PairView>) -> Seq<char> {
    appended(seq![], ps)
}

/// Relies on `form_urlencoded::Serializer::append_pair`, on a `String` target
/// serialized from its start: it pushes `&` when the target is not empty, then
/// the byte-serialized name, `=` and the byte-serialized value.
#[verifier::external_body]
fn append_pair(target: &mut String, name: &str, value: &str)
    ensures
        final(target)@ == (if old(target)@.len() > 0 {
            old(target)@ + seq!['&']
        } else {
            seq![]
        }) + form_encoded(name@) + seq!['='] + form_encoded(value@),
{
    let mut serializer = form_urlencoded::Serializer::for_suffix(std::mem::take(target), 0);
    serializer.append_pair(name, value);
    *target = serializer.finish();
}

/// The key under which the element at `index` of a sequence is written:
/// the first under the key itself, every later one under `key[]`.
pub open spec fn element_key(key: Seq<char>, index: int) -> Seq<char> {
    if index == 0 {
        key
    } else {
        key + seq!['[', ']']
    }
}

/// Writes the values of one key. A sink made by `serialize_element` is
/// nested: it cannot take a sequence.
#[derive(Debug, Clone, PartialEq, Eq)]
pub struct ValueSink {
    /// The key that pairs are written under.
    pub key: String,
    /// Whether this sink writes an element of a sequence.
    pub nested: bool,
    /// Whether this sequence sink has handed out an element sink.
    pub started: bool,
}

impl ValueSink {
    pub fn new(key: &str) -> (r: ValueSink)
        ensures
            r.key@ == key@,
            !r.nested,
            !r.started,
    {
        ValueSink { key: key.to_owned(), nested: false, started: false }
    }

    /// Appends the pair (key, value) to `target`.
    pub fn serialize_str(self, target: &mut String, value: &str) -> (r: Result<(), Error>)
        ensures
            r is Ok,
            final(target)@ == append_encoded(old(target)@, (self.key@, value@)),
    {
        let ghost before = target@;
        append_pair(target, self.key.as_str(), value);
        assert(target@ =~= append_encoded(before, (self.key@, value@)));
        Ok(())
    }

    /// Starts a sequence under this key; a nested sink refuses.
    pub fn serialize_seq(self) -> (r: Result<ValueSink, Error>)
        ensures
            self.nested ==> r == Err::<ValueSink, Error>(Error::Unsupported),
            !self.nested ==> (r matches Ok(s) && s.key@ == self.key@ && !s.nested && !s.started),
    {
        if self.nested {
            Err(self.unsupported())
        } else {
            Ok(ValueSink { key: self.key, nested: false, started: false })
        }
    }

    /// The sink for the next element of this sequence: the first element is
    /// written under the key, every later one under `key[]`.
    pub fn serialize_element(&mut self) -> (r: ValueSink)
        ensures
            r.key@ == element_key(old(self).key@, if old(self).started { 1 } else { 0 }),
            r.nested,
            !r.started,
            final(self).key == old(self).key,
            final(self).nested == old(self).nested,
            final(self).started,
    {
        let key = if self.started {
            proof {
                reveal_strlit("[]");
            }
            self.key.clone().concat("[]")
        } else {
            self.key.clone()
        };
        self.started = true;
        ValueSink { key, nested: true, started: false }
    }

    pub fn unsupported(self) -> (r: Error)
        ensures
            r == Error::Unsupported,
    {
        Error::Unsupported
    }
}

} // verus!
