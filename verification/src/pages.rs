//! The page tree builder: locating the Catalog's page-root dictionary and
//! rebuilding it as one flat page index — its child list becomes exactly the
//! accumulated page reference list, its child count that list's length. Any
//! nested page-tree structure is deliberately flattened: intermediate
//! grouping nodes are no longer referenced from the root (though they remain
//! in the store), and only leaf page objects stand as direct children.

use vstd::prelude::*;

use crate::assoc::assoc_get;
use crate::error::MergeError;
use crate::graph::{DocumentGraph, GraphV};
use crate::names::{
    count_name, count_name_bytes, kids_name, kids_name_bytes, pages_name, pages_name_bytes,
};
use crate::object::{ents_set, lemma_obj_seq_view, obj_seq_view, obj_view, Dict, ObjV, Object,
    ObjectId};
use crate::remap::{key_index, lemma_remap_obj_identity, remap_object, table_map};

verus! {

/// The given page identifiers as a sequence of reference values.
pub open spec fn refs_seq(refs: Seq<ObjectId>) -> Seq<ObjV> {
    refs.map_values(|id: ObjectId| ObjV::Reference(id))
}

/// The page-root dictionary rebuilt around `refs`: its child count set to
/// the list's length, then its child list set to exactly the list.
pub open spec fn rebuilt_pages_dict(pd: Seq<(Seq<u8>, ObjV)>, refs: Seq<ObjectId>) -> Seq<
    (Seq<u8>, ObjV),
> {
    ents_set(
        ents_set(pd, count_name(), ObjV::Integer(refs.len() as i64)),
        kids_name(),
        ObjV::Array(refs_seq(refs)),
    )
}

/// What rebuilding the page index of `g` around `refs` yields: the store
/// entry of the page-root dictionary is replaced by the rebuilt dictionary,
/// everything else is kept; or the specific error naming what failed on the
/// way from the Catalog to that dictionary.
pub open spec fn rebuild_spec(g: GraphV, refs: Seq<ObjectId>) -> Result<GraphV, MergeError> {
    match assoc_get(g.objects, g.root_id) {
        Some(ObjV::Dictionary(cat)) => match assoc_get(cat, pages_name()) {
            Some(ObjV::Reference(pid)) => match assoc_get(g.objects, pid) {
                Some(ObjV::Dictionary(pd)) => Ok(
                    GraphV {
                        objects: g.objects.update(
                            key_index(g.objects, pid),
                            (pid, ObjV::Dictionary(rebuilt_pages_dict(pd, refs))),
                        ),
                        max_id: g.max_id,
                        root_id: g.root_id,
                        pages: g.pages,
                    },
                ),
                Some(_) => Err(MergeError::PageRootNotDictionary),
                None => Err(MergeError::PageRootObjectMissing),
            },
            Some(_) => Err(MergeError::PageRootNotReference),
            None => Err(MergeError::CatalogMissingPageRoot),
        },
        _ => Err(MergeError::CatalogMissingPageRoot),
    }
}

/// The identifier of the page-root object, as the Catalog names it.
pub open spec fn page_root_id(g: GraphV) -> ObjectId {
    match assoc_get(g.objects, g.root_id) {
        Some(ObjV::Dictionary(cat)) => match assoc_get(cat, pages_name()) {
            Some(ObjV::Reference(pid)) => pid,
            _ => g.root_id,
        },
        _ => g.root_id,
    }
}

/// Rebuilds `doc`'s page index as one flat list holding exactly `page_refs`,
/// in order, with the child count set to the list's length. On failure the
/// graph is left unchanged and the error names what failed: no page-root
/// field on the Catalog, a page-root field that is not a reference, a
/// page-root reference that resolves to nothing, or to a non-dictionary.
pub fn rebuild_pages_tree(doc: &mut DocumentGraph, page_refs: &Vec<ObjectId>) -> (r: Result<
    (),
    MergeError,
>)
    requires
        old(doc)@.wf(),
        page_refs@.len() <= i64::MAX,
    ensures
        match r {
            Ok(_) => rebuild_spec(old(doc)@, page_refs@) == Ok::<GraphV, MergeError>(final(doc)@),
            Err(e) => rebuild_spec(old(doc)@, page_refs@) == Err::<GraphV, MergeError>(e) && final(doc)@
                == old(doc)@,
        },
{
    let ghost g0 = doc@;
    let root = doc.root_id;
    let cat_idx = match doc.find(root) {
        Some(i) => i,
        None => {
            return Err(MergeError::CatalogMissingPageRoot);
        },
    };
    let pages_ref: ObjectId = match &doc.objects[cat_idx].1 {
        Object::Dictionary(cat) => {
            let pkey = pages_name_bytes();
            match cat.get(pkey.as_slice()) {
                Some(field) => match field {
                    Object::Reference(pid) => *pid,
                    _ => {
                        return Err(MergeError::PageRootNotReference);
                    },
                },
                None => {
                    return Err(MergeError::CatalogMissingPageRoot);
                },
            }
        },
        _ => {
            return Err(MergeError::CatalogMissingPageRoot);
        },
    };
    let pd_idx = match doc.find(pages_ref) {
        Some(i) => i,
        None => {
            return Err(MergeError::PageRootObjectMissing);
        },
    };

    // Deep copy of the page-root object; rewriting under an empty table
    // copies the value unchanged.
    let empty_table: Vec<(ObjectId, ObjectId)> = Vec::new();
    let copy = remap_object(&doc.objects[pd_idx].1, &empty_table);
    proof {
        assert(forall|id: ObjectId| !table_map(empty_table@).dom().contains(id));
        lemma_remap_obj_identity(obj_view(doc.objects@[pd_idx as int].1), table_map(empty_table@));
    }
    let mut pd: Dict = match copy {
        Object::Dictionary(d) => d,
        _ => {
            return Err(MergeError::PageRootNotDictionary);
        },
    };

    // Rebuild: set the child count, then the flat child list.
    let count: i64 = page_refs.len() as i64;
    pd.set(count_name_bytes(), Object::Integer(count));
    let mut kids: Vec<Object> = Vec::new();
    let np = page_refs.len();
    let mut i: usize = 0;
    while i < np
        invariant
            i <= np,
            np == page_refs@.len(),
            kids@.len() == i,
            forall|j: int| 0 <= j < i ==> kids@[j] == Object::Reference(page_refs@[j]),
        decreases np - i,
    {
        kids.push(Object::Reference(page_refs[i]));
        i = i + 1;
    }
    proof {
        lemma_obj_seq_view(kids@);
        assert(obj_seq_view(kids@) =~= refs_seq(page_refs@));
    }
    pd.set(kids_name_bytes(), Object::Array(kids));

    proof {
        // The found position is the position the specification's update names.
        let ki = key_index(g0.objects, pages_ref);
        assert(0 <= ki < g0.objects.len() && g0.objects[ki].0 == pages_ref);
        assert(ki == pd_idx as int);
    }
    vstd::pervasive::VecAdditionalExecFns::set(
        &mut doc.objects,
        pd_idx,
        (pages_ref, Object::Dictionary(pd)),
    );
    proof {
        let spec_graph = rebuild_spec(g0, page_refs@);
        assert(doc@.objects =~= spec_graph->Ok_0.objects);
        assert(doc@ =~= spec_graph->Ok_0);
    }
    Ok(())
}

} // verus!
