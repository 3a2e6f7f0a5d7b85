//! The merge orchestrator: sequences the guard, the identifier remapper, the
//! graph rewriter and the page tree builder across N input graphs, owning
//! the growing merged graph and the identifier counter.
//!
//! Graph 0 is the merge base, taken verbatim. For each later graph, in input
//! order, a remap table is computed from the running counter, every object
//! is rewritten and copied into the merged store under its mapped
//! identifier — the whole store, not just the page-reachable subset — and
//! the graph's page list, translated through the same table, is appended to
//! the running page list. At the end the page index is rebuilt once around
//! the accumulated list. Every error aborts the whole merge: there is no
//! partial output.

use vstd::prelude::*;

use crate::assoc::assoc_has;
use crate::error::MergeError;
use crate::graph::{DocumentGraph, GraphV};
use crate::guard::{has_container_stream, has_object_streams};
use crate::object::{ObjV, ObjectId};
use crate::pages::{rebuild_pages_tree, rebuild_spec};
use crate::remap::{
    build_remap, remap_map, remap_obj, table_lookup, table_map, remap_object,
};

verus! {

/// The models of a list of documents.
pub open spec fn views(docs: Seq<DocumentGraph>) -> Seq<GraphV> {
    docs.map_values(|d: DocumentGraph| d@)
}

/// Every listed graph is well-formed.
pub open spec fn all_wf(ds: Seq<GraphV>) -> bool {
    forall|i: int| 0 <= i < ds.len() ==> (#[trigger] ds[i]).wf()
}

/// The number of objects of graphs `i` onward.
pub open spec fn count_from(ds: Seq<GraphV>, i: int) -> int
    decreases ds.len() - i,
{
    if i < 0 || i >= ds.len() {
        0
    } else {
        ds[i].objects.len() + count_from(ds, i + 1)
    }
}

/// The highest identifier number the whole merge can reach: the base
/// graph's counter plus one fresh number for every object of every later
/// graph.
pub open spec fn id_budget(ds: Seq<GraphV>) -> int {
    ds[0].max_id + count_from(ds, 1)
}

/// The number of pages of graphs `i` onward.
pub open spec fn pages_from(ds: Seq<GraphV>, i: int) -> int
    decreases ds.len() - i,
{
    if i < 0 || i >= ds.len() {
        0
    } else {
        ds[i].pages.len() + pages_from(ds, i + 1)
    }
}

/// The merged page count: the sum of every graph's own page count.
pub open spec fn pages_total(ds: Seq<GraphV>) -> int {
    pages_from(ds, 0)
}

pub proof fn lemma_count_from_nonneg(ds: Seq<GraphV>, i: int)
    ensures
        count_from(ds, i) >= 0,
        0 <= i < ds.len() ==> count_from(ds, i) >= ds[i].objects.len(),
    decreases ds.len() - i,
{
    if 0 <= i < ds.len() {
        lemma_count_from_nonneg(ds, i + 1);
    }
}

pub proof fn lemma_pages_from_nonneg(ds: Seq<GraphV>, i: int)
    ensures
        pages_from(ds, i) >= 0,
        0 <= i < ds.len() ==> pages_from(ds, i) >= ds[i].pages.len(),
    decreases ds.len() - i,
{
    if 0 <= i < ds.len() {
        lemma_pages_from_nonneg(ds, i + 1);
    }
}

/// One source store, rewritten and re-keyed through the mapping, in store
/// order.
pub open spec fn remapped_store(s: Seq<(ObjectId, ObjV)>, m: Map<ObjectId, ObjectId>) -> Seq<
    (ObjectId, ObjV),
> {
    Seq::new(s.len(), |i: int| (m[s[i].0], remap_obj(s[i].1, m)))
}

/// A page list translated through the mapping.
pub open spec fn translate_pages(pages: Seq<ObjectId>, m: Map<ObjectId, ObjectId>) -> Seq<
    ObjectId,
> {
    pages.map_values(|id: ObjectId| m[id])
}

/// The merged state after graphs `[0, n)` are processed: graph 0 verbatim,
/// then, for each later graph in order, its rewritten store appended and its
/// translated page list appended, with the counter advanced by its object
/// count.
pub open spec fn fold_state(ds: Seq<GraphV>, n: int) -> GraphV
    decreases n,
{
    if n <= 1 {
        ds[0]
    } else {
        let prev = fold_state(ds, n - 1);
        let d = ds[n - 1];
        let m = remap_map(d.objects, (prev.max_id + 1) as u64);
        GraphV {
            objects: prev.objects + remapped_store(d.objects, m),
            max_id: (prev.max_id + d.objects.len()) as u64,
            root_id: prev.root_id,
            pages: prev.pages + translate_pages(d.pages, m),
        }
    }
}

/// `i` is the first input the unsupported-feature guard flags.
pub open spec fn is_first_container(ds: Seq<GraphV>, i: int) -> bool {
    &&& 0 <= i < ds.len()
    &&& has_container_stream(ds[i])
    &&& forall|j: int| 0 <= j < i ==> !has_container_stream(ds[j])
}

/// The first input the unsupported-feature guard flags.
pub open spec fn first_container_idx(ds: Seq<GraphV>) -> int {
    choose|i: int| is_first_container(ds, i)
}

/// Some later graph lists a page identifier that its own store does not
/// hold, so that page could not be remapped.
pub open spec fn some_page_unresolved(ds: Seq<GraphV>) -> bool {
    exists|i: int, j: int|
        1 <= i < ds.len() && 0 <= j < ds[i].pages.len() && !assoc_has(
            ds[i].objects,
            ds[i].pages[j],
        )
}

/// What merging a list of graphs yields. An empty list is rejected
/// outright. A graph the guard flags fails the whole merge, naming the first
/// such input. A later graph whose page list names an identifier outside its
/// own store is an internal inconsistency. Otherwise the graphs are folded
/// into one and the page index is rebuilt around the accumulated page list.
pub open spec fn merge_spec(ds: Seq<GraphV>) -> Result<GraphV, MergeError> {
    if ds.len() == 0 {
        Err(MergeError::EmptyInput)
    } else if exists|i: int| 0 <= i < ds.len() && has_container_stream(#[trigger] ds[i]) {
        Err(MergeError::UnsupportedFeature { index: first_container_idx(ds) as usize })
    } else if some_page_unresolved(ds) {
        Err(MergeError::PageReferenceUnresolved)
    } else {
        let g = fold_state(ds, ds.len() as int);
        rebuild_spec(g, g.pages)
    }
}

/// Appends one source graph to the merged graph: computes the remap table
/// from the counter, copies every rewritten object, appends the translated
/// page list, and advances the counter by the source's object count.
#[verifier::loop_isolation(false)]
fn append_document(merged: &mut DocumentGraph, doc: &DocumentGraph) -> (r: Result<
    (),
    MergeError,
>)
    requires
        doc@.wf(),
        old(merged)@.max_id + 1 + doc@.objects.len() <= u64::MAX,
    ensures
        ({
            let m = remap_map(doc@.objects, (old(merged)@.max_id + 1) as u64);
            match r {
                Ok(_) => final(merged)@ == (GraphV {
                    objects: old(merged)@.objects + remapped_store(doc@.objects, m),
                    max_id: (old(merged)@.max_id + doc@.objects.len()) as u64,
                    root_id: old(merged)@.root_id,
                    pages: old(merged)@.pages + translate_pages(doc@.pages, m),
                }) && forall|j: int|
                    0 <= j < doc@.pages.len() ==> assoc_has(doc@.objects, doc@.pages[j]),
                Err(e) => e == MergeError::PageReferenceUnresolved && exists|j: int|
                    0 <= j < doc@.pages.len() && !assoc_has(doc@.objects, doc@.pages[j]),
            }
        }),
{
    let ghost prev = old(merged)@;
    let ghost d = doc@;
    let next0 = merged.max_id + 1;
    let ghost m = remap_map(d.objects, next0);
    let (table, next) = build_remap(doc, next0);

    // Copy every object of the source store, rewritten, under its mapped
    // identifier: the whole store, not just what pages reach.
    let n_objs = doc.objects.len();
    let mut j: usize = 0;
    while j < n_objs
        invariant
            j <= n_objs,
            n_objs == doc.objects@.len(),
            doc@.wf(),
            table_map(table@) == m,
            table@.len() == n_objs,
            forall|k: int| 0 <= k < n_objs ==> table@[k] == (d.objects[k].0, m[d.objects[k].0]),
            d == doc@,
            prev.objects.len() + j == merged.objects@.len(),
            merged@.objects.len() == prev.objects.len() + j,
            forall|k: int| 0 <= k < prev.objects.len() ==> merged@.objects[k] == prev.objects[k],
            forall|k: int| 0 <= k < j ==> merged@.objects[prev.objects.len() + k] == (
                m[d.objects[k].0],
                remap_obj(d.objects[k].1, m),
            ),
            merged.max_id == old(merged).max_id,
            merged.root_id == old(merged).root_id,
            merged.pages@ == prev.pages,
        decreases n_objs - j,
    {
        let new_id = table[j].1;
        let new_obj = remap_object(&doc.objects[j].1, &table);
        merged.objects.push((new_id, new_obj));
        j = j + 1;
    }

    // Translate this graph's page list through the same table and append
    // it; a page identifier without a mapping is an internal inconsistency.
    let n_pages = doc.pages.len();
    let mut k: usize = 0;
    while k < n_pages
        invariant
            k <= n_pages,
            n_pages == doc.pages@.len(),
            d == doc@,
            table_map(table@) == m,
            merged@.objects.len() == prev.objects.len() + n_objs,
            n_objs == d.objects.len(),
            forall|t: int| 0 <= t < prev.objects.len() ==> merged@.objects[t] == prev.objects[t],
            forall|t: int| 0 <= t < n_objs ==> merged@.objects[prev.objects.len() + t] == (
                m[d.objects[t].0],
                remap_obj(d.objects[t].1, m),
            ),
            merged.max_id == old(merged).max_id,
            merged.root_id == old(merged).root_id,
            merged.pages@.len() == prev.pages.len() + k,
            forall|t: int| 0 <= t < prev.pages.len() ==> merged.pages@[t] == prev.pages[t],
            forall|t: int| 0 <= t < k ==> merged.pages@[prev.pages.len() + t] == m[d.pages[t]],
            forall|t: int| 0 <= t < k ==> assoc_has(d.objects, d.pages[t]),
        decreases n_pages - k,
    {
        match table_lookup(&table, doc.pages[k]) {
            Some(new_id) => {
                proof {
                    assert(m.dom().contains(d.pages[k as int]));
                    assert(assoc_has(d.objects, d.pages[k as int]));
                }
                merged.pages.push(new_id);
            },
            None => {
                proof {
                    assert(!m.dom().contains(d.pages[k as int]));
                    assert(!assoc_has(d.objects, d.pages[k as int]));
                }
                return Err(MergeError::PageReferenceUnresolved);
            },
        }
        k = k + 1;
    }

    merged.max_id = next - 1;
    proof {
        assert(merged@.objects =~= prev.objects + remapped_store(d.objects, m));
        assert(merged@.pages =~= prev.pages + translate_pages(d.pages, m));
        assert(merged@ =~= (GraphV {
            objects: prev.objects + remapped_store(d.objects, m),
            max_id: (prev.max_id + d.objects.len()) as u64,
            root_id: prev.root_id,
            pages: prev.pages + translate_pages(d.pages, m),
        }));
    }
    Ok(())
}

/// Merges the given graphs into one. Graph 0 is the base; every later
/// graph's store is copied in whole under fresh identifiers, with embedded
/// references rewritten, and its page list, translated, is appended in
/// input order. The merged Catalog's page index is then rebuilt as one flat
/// list. All-or-nothing: any error aborts the merge with no merged graph.
#[verifier::loop_isolation(false)]
pub fn merge(docs: Vec<DocumentGraph>) -> (r: Result<DocumentGraph, MergeError>)
    requires
        all_wf(views(docs@)),
        docs@.len() > 0 ==> id_budget(views(docs@)) < u64::MAX,
        docs@.len() > 0 ==> pages_total(views(docs@)) <= i64::MAX,
    ensures
        match r {
            Ok(g) => merge_spec(views(docs@)) == Ok::<GraphV, MergeError>(g@),
            Err(e) => merge_spec(views(docs@)) == Err::<GraphV, MergeError>(e),
        },
{
    let ghost ds = views(docs@);
    let n = docs.len();
    if n == 0 {
        return Err(MergeError::EmptyInput);
    }

    // The unsupported-feature guard: scan every input before any is merged.
    let mut i: usize = 0;
    while i < n
        invariant
            i <= n,
            n == docs@.len(),
            ds == views(docs@),
            forall|j: int| 0 <= j < i ==> !has_container_stream(ds[j]),
        decreases n - i,
    {
        if has_object_streams(&docs[i]) {
            proof {
                assert(is_first_container(ds, i as int));
                let w = first_container_idx(ds);
                assert(is_first_container(ds, w));
                assert(w == i as int);
            }
            return Err(MergeError::UnsupportedFeature { index: i });
        }
        i = i + 1;
    }

    let mut docs = docs;
    let mut merged: DocumentGraph = docs.remove(0);
    proof {
        lemma_fold_bound(ds, 1);
        lemma_pages_bound(ds, 1);
    }

    let mut idx: usize = 1;
    while idx < n
        invariant
            1 <= idx <= n,
            n == ds.len(),
            docs@.len() == n - 1,
            forall|t: int| 0 <= t < n - 1 ==> (#[trigger] docs@[t])@ == ds[t + 1],
            all_wf(ds),
            id_budget(ds) < u64::MAX,
            pages_total(ds) <= i64::MAX,
            forall|j: int| 0 <= j < n ==> !has_container_stream(ds[j]),
            forall|t: int, u: int|
                1 <= t < idx && 0 <= u < ds[t].pages.len() ==> assoc_has(
                    ds[t].objects,
                    ds[t].pages[u],
                ),
            merged@ == fold_state(ds, idx as int),
            merged@.max_id + count_from(ds, idx as int) == id_budget(ds),
            merged@.pages.len() + pages_from(ds, idx as int) == pages_total(ds),
        decreases n - idx,
    {
        let ghost prev = merged@;
        proof {
            lemma_count_from_nonneg(ds, idx as int);
            lemma_count_from_nonneg(ds, idx as int + 1);
            lemma_pages_from_nonneg(ds, idx as int);
            lemma_pages_from_nonneg(ds, idx as int + 1);
        }
        match append_document(&mut merged, &docs[idx - 1]) {
            Ok(_) => {},
            Err(e) => {
                proof {
                    let i0: int = idx as int;
                    let j = choose|j: int|
                        0 <= j < ds[i0].pages.len() && !assoc_has(ds[i0].objects, ds[i0].pages[j]);
                    assert(1 <= i0 && i0 < ds.len());
                    assert(0 <= j && j < ds[i0].pages.len());
                    assert(!assoc_has(ds[i0].objects, ds[i0].pages[j]));
                    assert(some_page_unresolved(ds));
                }
                return Err(e);
            },
        }
        proof {
            assert(merged@ == fold_state(ds, idx as int + 1));
        }
        idx = idx + 1;
    }

    proof {
        lemma_fold_wf(ds, n as int);
        lemma_pages_from_nonneg(ds, n as int);
    }
    let refs = copy_ids(&merged.pages);
    match rebuild_pages_tree(&mut merged, &refs) {
        Ok(_) => {},
        Err(e) => {
            return Err(e);
        },
    }
    Ok(merged)
}

/// Copy of a list of identifiers.
fn copy_ids(v: &Vec<ObjectId>) -> (r: Vec<ObjectId>)
    ensures
        r@ == v@,
{
    let n = v.len();
    let mut out: Vec<ObjectId> = Vec::new();
    let mut i: usize = 0;
    while i < n
        invariant
            i <= n,
            n == v@.len(),
            out@ == v@.subrange(0, i as int),
        decreases n - i,
    {
        out.push(v[i]);
        i = i + 1;
    }
    assert(out@ == v@);
    out
}

/// The folded counter, with what is still to come, always accounts for the
/// whole identifier budget.
pub proof fn lemma_fold_bound(ds: Seq<GraphV>, n: int)
    requires
        1 <= n <= ds.len(),
        id_budget(ds) < u64::MAX,
    ensures
        fold_state(ds, n).max_id + count_from(ds, n) == id_budget(ds),
        fold_state(ds, n).root_id == ds[0].root_id,
    decreases n,
{
    if n > 1 {
        lemma_fold_bound(ds, n - 1);
        lemma_count_from_nonneg(ds, n);
        lemma_count_from_nonneg(ds, n - 1);
        assert(count_from(ds, n - 1) == ds[n - 1].objects.len() + count_from(ds, n));
    }
}

/// The folded page list, with what is still to come, always accounts for
/// the merged page total.
pub proof fn lemma_pages_bound(ds: Seq<GraphV>, n: int)
    requires
        1 <= n <= ds.len(),
    ensures
        fold_state(ds, n).pages.len() + pages_from(ds, n) == pages_total(ds),
    decreases n,
{
    if n <= 1 {
        lemma_pages_bound_head(ds);
    } else {
        lemma_pages_bound(ds, n - 1);
        lemma_pages_from_nonneg(ds, n);
    }
}

proof fn lemma_pages_bound_head(ds: Seq<GraphV>)
    requires
        1 <= ds.len(),
    ensures
        ds[0].pages.len() + pages_from(ds, 1) == pages_total(ds),
{
}

/// The folded graph is well-formed: no identifier keys two store entries,
/// and the counter bounds every key's number. Every identifier assigned at
/// step `n` is fresh: greater than the counter stood before that step.
pub proof fn lemma_fold_wf(ds: Seq<GraphV>, n: int)
    requires
        1 <= n <= ds.len(),
        all_wf(ds),
        id_budget(ds) < u64::MAX,
    ensures
        fold_state(ds, n).wf(),
    decreases n,
{
    lemma_fold_bound(ds, n);
    lemma_count_from_nonneg(ds, n);
    if n > 1 {
        lemma_fold_wf(ds, n - 1);
        lemma_fold_bound(ds, n - 1);
        lemma_count_from_nonneg(ds, n - 1);
        let prev = fold_state(ds, n - 1);
        let d = ds[n - 1];
        let next = (prev.max_id + 1) as u64;
        let m = remap_map(d.objects, next);
        let extra = remapped_store(d.objects, m);
        assert(d.wf());
        assert(next + d.objects.len() <= u64::MAX);
        assert forall|k: int| 0 <= k < d.objects.len() implies (#[trigger] extra[k]).0.number
            == next + k by {
            crate::remap::lemma_remap_map_at(d.objects, next, k);
        }
        let g = fold_state(ds, n);
        assert forall|i: int, j: int| 0 <= i < j < g.objects.len() implies g.objects[i].0
            != g.objects[j].0 by {
            let pl = prev.objects.len() as int;
            if j < pl {
                assert(prev.wf());
            } else if i >= pl {
                assert(extra[i - pl].0.number == next + (i - pl));
                assert(extra[j - pl].0.number == next + (j - pl));
            } else {
                assert(prev.objects[i].0.number <= prev.max_id);
                assert(extra[j - pl].0.number == next + (j - pl));
            }
        }
        assert forall|i: int| 0 <= i < g.objects.len() implies (#[trigger] g.objects[i]).0.number
            <= g.max_id by {
            let pl = prev.objects.len() as int;
            if i < pl {
                assert(prev.objects[i].0.number <= prev.max_id);
            } else {
                assert(extra[i - pl].0.number == next + (i - pl));
            }
        }
    }
}

} // verus!
