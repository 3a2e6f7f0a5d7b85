//! One document's graph: the object store (an ordered sequence of
//! identifier/object pairs read as a mapping), the highest identifier number
//! in use, the root reference that designates the Catalog, and the ordered
//! list of leaf page identifiers that the loader enumerated.

use vstd::prelude::*;

use crate::assoc::{assoc_first_at, assoc_get, distinct_keys};
use crate::object::{obj_view, ObjV, Object, ObjectId};

verus! {

/// A document graph, fully materialized in memory.
#[derive(Debug)]
pub struct DocumentGraph {
    /// The object store: identifier/object pairs, no key twice.
    pub objects: Vec<(ObjectId, Object)>,
    /// The highest object number currently in use; at least every key's number.
    pub max_id: u64,
    /// The well-known root reference; it designates the Catalog object.
    pub root_id: ObjectId,
    /// Leaf page identifiers in document reading order, as the loader
    /// enumerated them.
    pub pages: Vec<ObjectId>,
}

/// Mathematical model of a document graph.
#[verifier::ext_equal]
pub struct GraphV {
    pub objects: Seq<(ObjectId, ObjV)>,
    pub max_id: u64,
    pub root_id: ObjectId,
    pub pages: Seq<ObjectId>,
}

/// Model of a store: each pair with its object's value tree.
pub open spec fn store_view(s: Seq<(ObjectId, Object)>) -> Seq<(ObjectId, ObjV)> {
    Seq::new(s.len(), |i: int| (s[i].0, obj_view(s[i].1)))
}

impl View for DocumentGraph {
    type V = GraphV;

    open spec fn view(&self) -> GraphV {
        GraphV {
            objects: store_view(self.objects@),
            max_id: self.max_id,
            root_id: self.root_id,
            pages: self.pages@,
        }
    }
}

impl GraphV {
    /// Well-formedness: no identifier keys two store entries, and `max_id`
    /// bounds every key's number.
    pub open spec fn wf(self) -> bool {
        &&& distinct_keys(self.objects)
        &&& forall|i: int| 0 <= i < self.objects.len() ==> self.objects[i].0.number
            <= self.max_id
    }
}

impl DocumentGraph {
    /// Position of the store entry keyed by `id`, if one is present.
    pub fn find(&self, id: ObjectId) -> (r: Option<usize>)
        ensures
            match r {
                Some(i) => assoc_first_at(self@.objects, id, i as int) && assoc_get(
                    self@.objects,
                    id,
                ) == Some(self@.objects[i as int].1),
                None => assoc_get::<ObjectId, ObjV>(self@.objects, id) is None,
            },
    {
        let n = self.objects.len();
        let mut i: usize = 0;
        while i < n
            invariant
                i <= n,
                n == self.objects.len(),
                forall|j: int| 0 <= j < i ==> self@.objects[j].0 != id,
            decreases n - i,
        {
            if self.objects[i].0 == id {
                proof {
                    crate::assoc::lemma_assoc_get_at_first(self@.objects, id, i as int);
                }
                return Some(i);
            }
            i = i + 1;
        }
        proof {
            crate::assoc::lemma_assoc_get_none(self@.objects, id);
        }
        None
    }

    /// The object stored under `id`, if one is present.
    pub fn get(&self, id: ObjectId) -> (r: Option<&Object>)
        ensures
            match r {
                Some(o) => assoc_get(self@.objects, id) == Some(o@),
                None => assoc_get::<ObjectId, ObjV>(self@.objects, id) is None,
            },
    {
        match self.find(id) {
            Some(i) => Some(&self.objects[i].1),
            None => None,
        }
    }
}

} // verus!
