//! The unsupported-feature guard: before any document is merged, each is
//! scanned for container streams that bundle several logical objects into
//! one physical object. The object model cannot represent what such a
//! container holds, so merging one would silently drop objects; the guard
//! makes that an explicit failure instead.

use vstd::prelude::*;

use crate::assoc::assoc_get;
use crate::graph::{DocumentGraph, GraphV};
use crate::names::{objstm_name, objstm_name_bytes, type_tag, type_tag_bytes};
use crate::object::{bytes_eq, ObjV, Object};

verus! {

/// An object is a container stream: a stream whose dictionary's type tag
/// names the container-of-objects stream type.
pub open spec fn is_container_stream(o: ObjV) -> bool {
    match o {
        ObjV::Stream(es, _) => assoc_get(es, type_tag()) == Some(ObjV::Name(objstm_name())),
        _ => false,
    }
}

/// Some object of the graph's store is a container stream.
pub open spec fn has_container_stream(g: GraphV) -> bool {
    exists|i: int| 0 <= i < g.objects.len() && is_container_stream(g.objects[i].1)
}

/// Whether any object of `doc`'s store is a container stream.
pub fn has_object_streams(doc: &DocumentGraph) -> (r: bool)
    ensures
        r == has_container_stream(doc@),
{
    let tkey = type_tag_bytes();
    let cname = objstm_name_bytes();
    let n = doc.objects.len();
    let mut i: usize = 0;
    while i < n
        invariant
            i <= n,
            n == doc.objects@.len(),
            tkey@ == type_tag(),
            cname@ == objstm_name(),
            forall|j: int| 0 <= j < i ==> !is_container_stream(doc@.objects[j].1),
        decreases n - i,
    {
        match &doc.objects[i].1 {
            Object::Stream(d, _) => {
                match d.get(tkey.as_slice()) {
                    Some(o) => match o {
                        Object::Name(bytes) => {
                            if bytes_eq(bytes.as_slice(), cname.as_slice()) {
                                assert(is_container_stream(doc@.objects[i as int].1));
                                return true;
                            }
                        },
                        _ => {},
                    },
                    None => {},
                }
            },
            _ => {},
        }
        assert(!is_container_stream(doc@.objects[i as int].1));
        i = i + 1;
    }
    false
}

} // verus!
