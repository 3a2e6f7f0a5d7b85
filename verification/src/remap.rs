//! Identifier remapping: allocating collision-free destination identifiers
//! for every identifier of one source graph, and rewriting a copied object
//! value so that every embedded reference with a known remap is translated.

use vstd::prelude::*;

use crate::assoc::{
    assoc_first, assoc_first_at, assoc_get, assoc_has, distinct_keys, lemma_assoc_first_unique,
    lemma_assoc_get_none, lemma_assoc_has_get,
};
use crate::graph::DocumentGraph;
use crate::object::{
    entries_view, lemma_entries_view, lemma_obj_seq_view, obj_seq_view, obj_view, ObjV, Object,
    ObjectId,
};

verus! {

/// Position of the store entry keyed by `id`; meaningful under distinct keys.
pub open spec fn key_index(s: Seq<(ObjectId, ObjV)>, id: ObjectId) -> int {
    choose|i: int| 0 <= i < s.len() && s[i].0 == id
}

/// The remap table for one source store, as a mapping: the identifier at
/// store position `i` goes to number `next + i`, generation 0.
pub open spec fn remap_map(s: Seq<(ObjectId, ObjV)>, next: u64) -> Map<ObjectId, ObjectId> {
    Map::new(
        |id: ObjectId| assoc_has(s, id),
        |id: ObjectId|
            ObjectId { number: (next + key_index(s, id)) as u64, generation: 0u16 },
    )
}

/// Under distinct keys, the mapping reads off positionally.
pub proof fn lemma_remap_map_at(s: Seq<(ObjectId, ObjV)>, next: u64, i: int)
    requires
        distinct_keys(s),
        0 <= i < s.len(),
        next + s.len() <= u64::MAX,
    ensures
        remap_map(s, next).dom().contains(s[i].0),
        remap_map(s, next)[s[i].0] == (ObjectId { number: (next + i) as u64, generation: 0u16 }),
{
    assert(assoc_has(s, s[i].0));
    assert(key_index(s, s[i].0) == i) by {
        let w = key_index(s, s[i].0);
        assert(0 <= w < s.len() && s[w].0 == s[i].0);
    }
}

/// Every remapped identifier's number lies in `[next, next + s.len())`.
pub proof fn lemma_remap_map_range(s: Seq<(ObjectId, ObjV)>, next: u64, id: ObjectId)
    requires
        remap_map(s, next).dom().contains(id),
        next + s.len() <= u64::MAX,
    ensures
        next <= remap_map(s, next)[id].number < next + s.len(),
        remap_map(s, next)[id].generation == 0,
{
    let w = key_index(s, id);
    assert(0 <= w < s.len() && s[w].0 == id);
}

/// A sequence of source/destination identifier pairs, as a mapping.
pub open spec fn table_map(t: Seq<(ObjectId, ObjectId)>) -> Map<ObjectId, ObjectId> {
    Map::new(|id: ObjectId| assoc_has(t, id), |id: ObjectId| t[assoc_first(t, id)].1)
}

/// A table whose pairs read off `remap_map` positionally denotes that map.
pub proof fn lemma_table_map_is_remap_map(
    s: Seq<(ObjectId, ObjV)>,
    next: u64,
    t: Seq<(ObjectId, ObjectId)>,
)
    requires
        distinct_keys(s),
        next + s.len() <= u64::MAX,
        t.len() == s.len(),
        forall|i: int| 0 <= i < s.len() ==> t[i] == (s[i].0, remap_map(s, next)[s[i].0]),
    ensures
        table_map(t) == remap_map(s, next),
{
    assert forall|id: ObjectId| assoc_has(t, id) <==> assoc_has(s, id) by {
        if assoc_has(t, id) {
            let i = choose|i: int| 0 <= i < t.len() && t[i].0 == id;
            assert(s[i].0 == id);
        }
        if assoc_has(s, id) {
            let i = choose|i: int| 0 <= i < s.len() && s[i].0 == id;
            assert(t[i].0 == id);
        }
    }
    assert forall|id: ObjectId| assoc_has(t, id) implies table_map(t)[id] == remap_map(s, next)[id] by {
        let i = choose|i: int| 0 <= i < s.len() && s[i].0 == id;
        lemma_remap_map_at(s, next, i);
        assert(assoc_first_at(t, id, i)) by {
            assert forall|j: int| 0 <= j < i implies t[j].0 != id by {
                assert(t[j].0 == s[j].0);
            }
        }
        lemma_assoc_first_unique(t, id, i, assoc_first(t, id));
    }
    assert(table_map(t) =~= remap_map(s, next));
}

/// Builds the remap table for `doc`'s store, assigning numbers from `next`
/// upward in store order, and returns it with the advanced counter.
pub fn build_remap(doc: &DocumentGraph, next: u64) -> (r: (Vec<(ObjectId, ObjectId)>, u64))
    requires
        doc@.wf(),
        next + doc@.objects.len() <= u64::MAX,
    ensures
        r.0@.len() == doc@.objects.len(),
        forall|i: int| 0 <= i < doc@.objects.len() ==> r.0@[i] == (
            doc@.objects[i].0,
            remap_map(doc@.objects, next)[doc@.objects[i].0],
        ),
        table_map(r.0@) == remap_map(doc@.objects, next),
        r.1 == next + doc@.objects.len(),
{
    let n = doc.objects.len();
    let mut table: Vec<(ObjectId, ObjectId)> = Vec::new();
    let mut i: usize = 0;
    while i < n
        invariant
            i <= n,
            n == doc.objects.len(),
            doc@.wf(),
            next + n <= u64::MAX,
            table@.len() == i,
            forall|j: int| 0 <= j < i ==> table@[j] == (
                doc@.objects[j].0,
                remap_map(doc@.objects, next)[doc@.objects[j].0],
            ),
        decreases n - i,
    {
        proof {
            lemma_remap_map_at(doc@.objects, next, i as int);
        }
        let dst = ObjectId { number: next + i as u64, generation: 0 };
        table.push((doc.objects[i].0, dst));
        i = i + 1;
    }
    proof {
        lemma_table_map_is_remap_map(doc@.objects, next, table@);
    }
    (table, next + n as u64)
}

/// Looks `id` up in a remap table.
pub(crate) fn table_lookup(t: &Vec<(ObjectId, ObjectId)>, id: ObjectId) -> (r: Option<ObjectId>)
    ensures
        r == (if table_map(t@).dom().contains(id) {
            Some(table_map(t@)[id])
        } else {
            None::<ObjectId>
        }),
{
    let n = t.len();
    let mut i: usize = 0;
    while i < n
        invariant
            i <= n,
            n == t@.len(),
            forall|j: int| 0 <= j < i ==> t@[j].0 != id,
        decreases n - i,
    {
        if t[i].0 == id {
            proof {
                assert(assoc_first_at(t@, id, i as int));
                lemma_assoc_first_unique(t@, id, i as int, assoc_first(t@, id));
            }
            return Some(t[i].1);
        }
        i = i + 1;
    }
    proof {
        lemma_assoc_get_none(t@, id);
        lemma_assoc_has_get(t@, id);
    }
    None
}

/// What rewriting an object value under a mapping yields: every embedded
/// reference with a known remap is translated, every other part is kept.
pub open spec fn remap_obj(o: ObjV, m: Map<ObjectId, ObjectId>) -> ObjV
    decreases o,
{
    match o {
        ObjV::Reference(id) => ObjV::Reference(
            if m.dom().contains(id) {
                m[id]
            } else {
                id
            },
        ),
        ObjV::Array(items) => ObjV::Array(remap_seq(items, m)),
        ObjV::Dictionary(es) => ObjV::Dictionary(remap_ents(es, m)),
        ObjV::Stream(es, payload) => ObjV::Stream(remap_ents(es, m), payload),
        _ => o,
    }
}

/// Element-wise rewriting of a sequence of object values.
pub open spec fn remap_seq(items: Seq<ObjV>, m: Map<ObjectId, ObjectId>) -> Seq<ObjV>
    decreases items,
{
    if items.len() == 0 {
        Seq::empty()
    } else {
        seq![remap_obj(items[0], m)] + remap_seq(items.subrange(1, items.len() as int), m)
    }
}

/// Entry-wise rewriting of a dictionary entry list: keys and order are kept,
/// each value is rewritten.
pub open spec fn remap_ents(es: Seq<(Seq<u8>, ObjV)>, m: Map<ObjectId, ObjectId>) -> Seq<
    (Seq<u8>, ObjV),
>
    decreases es,
{
    if es.len() == 0 {
        Seq::empty()
    } else {
        seq![(es[0].0, remap_obj(es[0].1, m))] + remap_ents(es.subrange(1, es.len() as int), m)
    }
}

/// The element-wise rewrite keeps length and is read index-wise.
pub proof fn lemma_remap_seq(items: Seq<ObjV>, m: Map<ObjectId, ObjectId>)
    ensures
        remap_seq(items, m).len() == items.len(),
        forall|i: int| 0 <= i < items.len() ==> remap_seq(items, m)[i] == remap_obj(items[i], m),
    decreases items,
{
    if items.len() > 0 {
        lemma_remap_seq(items.subrange(1, items.len() as int), m);
    }
}

/// The entry-wise rewrite keeps length and is read index-wise.
pub proof fn lemma_remap_ents(es: Seq<(Seq<u8>, ObjV)>, m: Map<ObjectId, ObjectId>)
    ensures
        remap_ents(es, m).len() == es.len(),
        forall|i: int| 0 <= i < es.len() ==> remap_ents(es, m)[i] == (
            es[i].0,
            remap_obj(es[i].1, m),
        ),
    decreases es,
{
    if es.len() > 0 {
        lemma_remap_ents(es.subrange(1, es.len() as int), m);
    }
}

/// Under an empty mapping the rewrite is the identity.
pub proof fn lemma_remap_obj_identity(o: ObjV, m: Map<ObjectId, ObjectId>)
    requires
        forall|id: ObjectId| !m.dom().contains(id),
    ensures
        remap_obj(o, m) == o,
    decreases o,
{
    match o {
        ObjV::Array(items) => {
            lemma_remap_seq_identity(items, m);
        },
        ObjV::Dictionary(es) => {
            lemma_remap_ents_identity(es, m);
        },
        ObjV::Stream(es, payload) => {
            lemma_remap_ents_identity(es, m);
        },
        _ => {},
    }
}

/// Under an empty mapping the element-wise rewrite is the identity.
pub proof fn lemma_remap_seq_identity(items: Seq<ObjV>, m: Map<ObjectId, ObjectId>)
    requires
        forall|id: ObjectId| !m.dom().contains(id),
    ensures
        remap_seq(items, m) == items,
    decreases items,
{
    if items.len() == 0 {
        assert(remap_seq(items, m) =~= items);
    } else {
        lemma_remap_obj_identity(items[0], m);
        lemma_remap_seq_identity(items.subrange(1, items.len() as int), m);
        assert(remap_seq(items, m) =~= items);
    }
}

/// Under an empty mapping the entry-wise rewrite is the identity.
pub proof fn lemma_remap_ents_identity(es: Seq<(Seq<u8>, ObjV)>, m: Map<ObjectId, ObjectId>)
    requires
        forall|id: ObjectId| !m.dom().contains(id),
    ensures
        remap_ents(es, m) == es,
    decreases es,
{
    if es.len() == 0 {
        assert(remap_ents(es, m) =~= es);
    } else {
        lemma_remap_obj_identity(es[0].1, m);
        lemma_remap_ents_identity(es.subrange(1, es.len() as int), m);
        assert(remap_ents(es, m) =~= es);
    }
}

/// Byte-for-byte copy of a byte vector.
fn copy_bytes(b: &Vec<u8>) -> (r: Vec<u8>)
    ensures
        r@ == b@,
{
    let n = b.len();
    let mut out: Vec<u8> = Vec::new();
    let mut i: usize = 0;
    while i < n
        invariant
            i <= n,
            n == b@.len(),
            out@ == b@.subrange(0, i as int),
        decreases n - i,
    {
        out.push(b[i]);
        i = i + 1;
    }
    assert(out@ == b@);
    out
}

/// Deep copy of `o` with every embedded reference translated through the
/// table: a reference whose source identifier is a key of the table is
/// replaced by the mapped identifier, any other reference is left unchanged.
/// Containers are rebuilt, recursing into every element and entry value and
/// preserving dictionary entry order; a stream's payload is copied verbatim;
/// all other variants are copied as they are.
#[verifier::loop_isolation(false)]
pub fn remap_object(o: &Object, table: &Vec<(ObjectId, ObjectId)>) -> (r: Object)
    ensures
        r@ == remap_obj(o@, table_map(table@)),
    decreases *o,
{
    let ghost m = table_map(table@);
    match o {
        Object::Null => Object::Null,
        Object::Boolean(b) => Object::Boolean(*b),
        Object::Integer(i) => Object::Integer(*i),
        Object::Real(bits) => Object::Real(*bits),
        Object::Text(bytes) => Object::Text(copy_bytes(bytes)),
        Object::Name(bytes) => Object::Name(copy_bytes(bytes)),
        Object::Reference(id) => match table_lookup(table, *id) {
            Some(dst) => Object::Reference(dst),
            None => Object::Reference(*id),
        },
        Object::Array(items) => {
            let n = items.len();
            let mut out: Vec<Object> = Vec::new();
            let mut i: usize = 0;
            while i < n
                invariant
                    i <= n,
                    out@.len() == i,
                    forall|j: int| 0 <= j < i ==> obj_view(out@[j]) == remap_obj(
                        obj_view(items@[j]),
                        m,
                    ),
                decreases n - i,
            {
                let x = remap_object(&items[i], table);
                out.push(x);
                i = i + 1;
            }
            proof {
                lemma_obj_seq_view(out@);
                lemma_obj_seq_view(items@);
                lemma_remap_seq(obj_seq_view(items@), m);
                assert(obj_seq_view(out@) =~= remap_seq(obj_seq_view(items@), m));
            }
            Object::Array(out)
        },
        Object::Dictionary(d) => {
            let out = remap_entries(&d.entries, table);
            proof {
                lemma_entries_view(out@);
                lemma_entries_view(d.entries@);
                lemma_remap_ents(entries_view(d.entries@), m);
                assert(entries_view(out@) =~= remap_ents(entries_view(d.entries@), m));
            }
            Object::Dictionary(crate::object::Dict { entries: out })
        },
        Object::Stream(d, payload) => {
            let out = remap_entries(&d.entries, table);
            proof {
                lemma_entries_view(out@);
                lemma_entries_view(d.entries@);
                lemma_remap_ents(entries_view(d.entries@), m);
                assert(entries_view(out@) =~= remap_ents(entries_view(d.entries@), m));
            }
            Object::Stream(crate::object::Dict { entries: out }, copy_bytes(payload))
        },
    }
}

/// Rewrites each entry's value of a dictionary entry list, keeping keys and
/// entry order.
#[verifier::loop_isolation(false)]
fn remap_entries(es: &Vec<(Vec<u8>, Object)>, table: &Vec<(ObjectId, ObjectId)>) -> (r: Vec<
    (Vec<u8>, Object),
>)
    ensures
        r@.len() == es@.len(),
        forall|j: int| 0 <= j < es@.len() ==> r@[j].0@ == es@[j].0@ && obj_view(r@[j].1)
            == remap_obj(obj_view(es@[j].1), table_map(table@)),
    decreases es@,
{
    let ghost m = table_map(table@);
    let n = es.len();
    let mut out: Vec<(Vec<u8>, Object)> = Vec::new();
    let mut i: usize = 0;
    while i < n
        invariant
            i <= n,
            out@.len() == i,
            forall|j: int| 0 <= j < i ==> out@[j].0@ == es@[j].0@ && obj_view(out@[j].1)
                == remap_obj(obj_view(es@[j].1), m),
        decreases n - i,
    {
        let key = copy_bytes(&es[i].0);
        let value = remap_object(&es[i].1, table);
        out.push((key, value));
        i = i + 1;
    }
    out
}

} // verus!
