//! The object model: composite identifiers and the tagged-union value type
//! that one document's object graph is made of.

use vstd::prelude::*;

use crate::assoc::{assoc_first, assoc_first_at, assoc_get, lemma_assoc_first_unique,
    lemma_assoc_get_none};

verus! {

/// Composite identifier of one object inside a document's namespace:
/// an object number together with a generation number.
#[derive(Clone, Copy, PartialEq, Eq, Structural, Debug, Hash)]
pub struct ObjectId {
    pub number: u64,
    pub generation: u16,
}

/// A dictionary: an ordered mapping from names (byte strings) to objects.
/// Entry order is significant and preserved by every operation.
#[derive(Debug, PartialEq, Eq)]
pub struct Dict {
    pub entries: Vec<(Vec<u8>, Object)>,
}

/// The tagged-union value type of the object model.
///
/// A `Reference` is a non-owning pointer into the graph, by identifier.
/// A `Stream` is a dictionary plus an opaque byte payload that the core
/// never interprets. A `Real` carries its numeric payload opaquely, as a
/// fixed-width bit representation, since the core only ever copies it.
#[derive(Debug, PartialEq, Eq)]
pub enum Object {
    Null,
    Boolean(bool),
    Integer(i64),
    Real(u32),
    Text(Vec<u8>),
    Name(Vec<u8>),
    Array(Vec<Object>),
    Dictionary(Dict),
    Stream(Dict, Vec<u8>),
    Reference(ObjectId),
}

/// Mathematical model of an `Object`: the same tree, over `Seq`.
#[verifier::ext_equal]
pub enum ObjV {
    Null,
    Boolean(bool),
    Integer(i64),
    Real(u32),
    Text(Seq<u8>),
    Name(Seq<u8>),
    Array(Seq<ObjV>),
    Dictionary(Seq<(Seq<u8>, ObjV)>),
    Stream(Seq<(Seq<u8>, ObjV)>, Seq<u8>),
    Reference(ObjectId),
}

/// Model of an object value: the value tree with every `Vec` read as a `Seq`.
pub open spec fn obj_view(o: Object) -> ObjV
    decreases o,
{
    match o {
        Object::Null => ObjV::Null,
        Object::Boolean(b) => ObjV::Boolean(b),
        Object::Integer(i) => ObjV::Integer(i),
        Object::Real(bits) => ObjV::Real(bits),
        Object::Text(bytes) => ObjV::Text(bytes@),
        Object::Name(bytes) => ObjV::Name(bytes@),
        Object::Array(items) => ObjV::Array(obj_seq_view(items@)),
        Object::Dictionary(d) => ObjV::Dictionary(entries_view(d.entries@)),
        Object::Stream(d, payload) => ObjV::Stream(entries_view(d.entries@), payload@),
        Object::Reference(id) => ObjV::Reference(id),
    }
}

/// Model of a sequence of object values, element-wise.
pub open spec fn obj_seq_view(items: Seq<Object>) -> Seq<ObjV>
    decreases items,
{
    if items.len() == 0 {
        Seq::empty()
    } else {
        seq![obj_view(items[0])] + obj_seq_view(items.subrange(1, items.len() as int))
    }
}

/// Model of a dictionary's entry list, element-wise.
pub open spec fn entries_view(es: Seq<(Vec<u8>, Object)>) -> Seq<(Seq<u8>, ObjV)>
    decreases es,
{
    if es.len() == 0 {
        Seq::empty()
    } else {
        seq![(es[0].0@, obj_view(es[0].1))] + entries_view(es.subrange(1, es.len() as int))
    }
}

impl View for Object {
    type V = ObjV;

    open spec fn view(&self) -> ObjV {
        obj_view(*self)
    }
}

impl View for Dict {
    type V = Seq<(Seq<u8>, ObjV)>;

    open spec fn view(&self) -> Seq<(Seq<u8>, ObjV)> {
        entries_view(self.entries@)
    }
}

/// The element-wise views keep length and are read index-wise.
pub proof fn lemma_obj_seq_view(items: Seq<Object>)
    ensures
        obj_seq_view(items).len() == items.len(),
        forall|i: int| 0 <= i < items.len() ==> obj_seq_view(items)[i] == obj_view(items[i]),
    decreases items,
{
    if items.len() > 0 {
        lemma_obj_seq_view(items.subrange(1, items.len() as int));
    }
}

/// Byte-for-byte comparison of two byte strings.
pub fn bytes_eq(a: &[u8], b: &[u8]) -> (r: bool)
    ensures
        r == (a@ == b@),
{
    if a.len() != b.len() {
        return false;
    }
    let n = a.len();
    let mut i: usize = 0;
    while i < n
        invariant
            i <= n,
            n == a@.len() == b@.len(),
            forall|j: int| 0 <= j < i ==> a@[j] == b@[j],
        decreases n - i,
    {
        if a[i] != b[i] {
            return false;
        }
        i = i + 1;
    }
    proof {
        assert(a@ =~= b@);
    }
    true
}

/// What setting a key of a dictionary's entry list yields: the first entry
/// with that key is replaced in place, or, where the key is absent, a new
/// entry is appended; entry order is preserved either way.
pub open spec fn ents_set(es: Seq<(Seq<u8>, ObjV)>, k: Seq<u8>, v: ObjV) -> Seq<(Seq<u8>, ObjV)> {
    if exists|i: int| assoc_first_at(es, k, i) {
        es.update(assoc_first(es, k), (k, v))
    } else {
        es.push((k, v))
    }
}

/// Setting a key makes that key read back as the new value.
pub proof fn lemma_ents_set_get(es: Seq<(Seq<u8>, ObjV)>, k: Seq<u8>, v: ObjV)
    ensures
        assoc_get(ents_set(es, k, v), k) == Some(v),
{
    let new = ents_set(es, k, v);
    if exists|i: int| assoc_first_at(es, k, i) {
        let i = assoc_first(es, k);
        assert(assoc_first_at(es, k, i));
        assert(assoc_first_at(new, k, i));
        lemma_assoc_first_unique(new, k, i, assoc_first(new, k));
    } else {
        let i = es.len() as int;
        assert forall|j: int| 0 <= j < i implies new[j].0 != k by {
            if es[j].0 == k {
                lemma_assoc_has_first(es, k, j);
                assert(false);
            }
        }
        assert(assoc_first_at(new, k, i));
        lemma_assoc_first_unique(new, k, i, assoc_first(new, k));
    }
}

/// Setting a key leaves every other key's reading unchanged.
pub proof fn lemma_ents_set_get_other(es: Seq<(Seq<u8>, ObjV)>, k: Seq<u8>, v: ObjV, k2: Seq<u8>)
    requires
        k2 != k,
    ensures
        assoc_get(ents_set(es, k, v), k2) == assoc_get(es, k2),
{
    let new = ents_set(es, k, v);
    assert(forall|j: int| 0 <= j < es.len() ==> new[j].0 == es[j].0 || (es[j].0 == k && new[j].0
        == k));
    if exists|i: int| assoc_first_at(es, k2, i) {
        let i = assoc_first(es, k2);
        assert(assoc_first_at(es, k2, i));
        assert(new[i] == es[i]);
        assert(assoc_first_at(new, k2, i));
        lemma_assoc_first_unique(new, k2, i, assoc_first(new, k2));
        lemma_assoc_first_unique(es, k2, i, assoc_first(es, k2));
    } else {
        assert forall|j: int| 0 <= j < es.len() implies es[j].0 != k2 by {
            if es[j].0 == k2 {
                lemma_assoc_has_first(es, k2, j);
                assert(false);
            }
        }
        assert forall|j: int| 0 <= j < new.len() implies new[j].0 != k2 by {}
        lemma_assoc_get_none(new, k2);
        lemma_assoc_get_none(es, k2);
    }
}

/// Where some position holds the key, some first position does.
pub proof fn lemma_assoc_has_first(es: Seq<(Seq<u8>, ObjV)>, k: Seq<u8>, w: int)
    requires
        0 <= w < es.len(),
        es[w].0 == k,
    ensures
        exists|i: int| assoc_first_at(es, k, i),
    decreases w,
{
    if forall|l: int| 0 <= l < w ==> es[l].0 != k {
        assert(assoc_first_at(es, k, w));
    } else {
        let w2 = choose|l: int| 0 <= l < w && es[l].0 == k;
        lemma_assoc_has_first(es, k, w2);
    }
}

impl Dict {
    /// The value of the first entry named `key`, if any.
    pub fn get(&self, key: &[u8]) -> (r: Option<&Object>)
        ensures
            match r {
                Some(o) => assoc_get(self@, key@) == Some(o@),
                None => assoc_get::<Seq<u8>, ObjV>(self@, key@) is None,
            },
    {
        proof {
            lemma_entries_view(self.entries@);
        }
        let n = self.entries.len();
        let mut i: usize = 0;
        while i < n
            invariant
                i <= n,
                n == self.entries@.len(),
                self@.len() == n,
                forall|j: int| 0 <= j < n ==> self@[j] == (
                    self.entries@[j].0@,
                    obj_view(self.entries@[j].1),
                ),
                forall|j: int| 0 <= j < i ==> self@[j].0 != key@,
            decreases n - i,
        {
            if bytes_eq(self.entries[i].0.as_slice(), key) {
                proof {
                    assert(assoc_first_at(self@, key@, i as int));
                    lemma_assoc_first_unique(self@, key@, i as int, assoc_first(self@, key@));
                }
                return Some(&self.entries[i].1);
            }
            i = i + 1;
        }
        proof {
            lemma_assoc_get_none(self@, key@);
        }
        None
    }

    /// Sets `key` to `value`: replaces the first entry so named, or appends
    /// one; entry order is preserved.
    pub fn set(&mut self, key: Vec<u8>, value: Object)
        ensures
            final(self)@ == ents_set(old(self)@, key@, value@),
    {
        proof {
            lemma_entries_view(self.entries@);
        }
        let ghost old_view = old(self)@;
        let n = self.entries.len();
        let mut i: usize = 0;
        while i < n
            invariant
                i <= n,
                n == self.entries@.len(),
                self.entries@ == old(self).entries@,
                old_view == entries_view(self.entries@),
                old_view.len() == n,
                forall|j: int| 0 <= j < n ==> old_view[j] == (
                    self.entries@[j].0@,
                    obj_view(self.entries@[j].1),
                ),
                forall|j: int| 0 <= j < i ==> old_view[j].0 != key@,
            decreases n - i,
        {
            if bytes_eq(self.entries[i].0.as_slice(), key.as_slice()) {
                proof {
                    assert(assoc_first_at(old_view, key@, i as int));
                    lemma_assoc_first_unique(
                        old_view,
                        key@,
                        i as int,
                        assoc_first(old_view, key@),
                    );
                }
                let ghost kv: Seq<u8> = key@;
                let ghost vv: ObjV = obj_view(value);
                vstd::pervasive::VecAdditionalExecFns::set(&mut self.entries, i, (key, value));
                proof {
                    lemma_entries_view(self.entries@);
                    assert(self@ =~= old_view.update(i as int, (kv, vv)));
                }
                return ;
            }
            i = i + 1;
        }
        proof {
            lemma_assoc_get_none(old_view, key@);
        }
        self.entries.push((key, value));
        proof {
            lemma_entries_view(self.entries@);
            assert(self@ =~= old_view.push((key@, obj_view(value))));
        }
    }
}

/// The entry-list view keeps length and is read index-wise.
pub proof fn lemma_entries_view(es: Seq<(Vec<u8>, Object)>)
    ensures
        entries_view(es).len() == es.len(),
        forall|i: int| 0 <= i < es.len() ==> entries_view(es)[i] == (es[i].0@, obj_view(es[i].1)),
    decreases es,
{
    if es.len() > 0 {
        lemma_entries_view(es.subrange(1, es.len() as int));
    }
}

} // verus!
