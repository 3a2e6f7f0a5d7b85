//! The general laws of the merge, stated and proved over the specification
//! that `merge` is verified against: identifier uniqueness and freshness,
//! page count and page order, whole-store copying, and the single-document
//! case.

use vstd::prelude::*;

use crate::assoc::{assoc_has, distinct_keys};
use crate::error::MergeError;
use crate::graph::GraphV;
use crate::merge::{
    all_wf, count_from, fold_state, id_budget, lemma_count_from_nonneg, lemma_fold_bound,
    lemma_fold_wf, lemma_pages_bound, merge_spec, pages_from, pages_total, remapped_store,
    translate_pages,
};
use crate::object::{ObjV, ObjectId};
use crate::pages::{page_root_id, rebuild_spec, rebuilt_pages_dict};
use crate::remap::{key_index, lemma_remap_map_range, remap_map, remap_obj};

verus! {

/// The remap table of merge step `t`: what translates the identifiers of
/// graph `t` (for `1 <= t`) into the merged namespace.
pub open spec fn step_map(ds: Seq<GraphV>, t: int) -> Map<ObjectId, ObjectId> {
    remap_map(ds[t].objects, (fold_state(ds, t).max_id + 1) as u64)
}

/// The merged-store position where graph `t`'s copied objects begin.
pub open spec fn store_offset(ds: Seq<GraphV>, t: int) -> int
    decreases t,
{
    if t <= 1 {
        ds[0].objects.len() as int
    } else {
        store_offset(ds, t - 1) + ds[t - 1].objects.len()
    }
}

pub proof fn lemma_store_offset_mono(ds: Seq<GraphV>, a: int, b: int)
    requires
        1 <= a <= b,
    ensures
        store_offset(ds, a) <= store_offset(ds, b),
    decreases b,
{
    if a < b {
        lemma_store_offset_mono(ds, a, b - 1);
    }
}

/// Where each object stands in the folded store: graph 0's objects first,
/// verbatim; then, for each later graph in input order, every one of its
/// objects — rewritten, under its mapped identifier — at that graph's
/// offset. The whole store of every graph is copied, not only what pages
/// reach.
pub proof fn lemma_fold_contents(ds: Seq<GraphV>, n: int)
    requires
        1 <= n <= ds.len(),
        all_wf(ds),
        id_budget(ds) < u64::MAX,
    ensures
        fold_state(ds, n).objects.len() == store_offset(ds, n),
        forall|i: int| 0 <= i < ds[0].objects.len() ==> fold_state(ds, n).objects[i]
            == ds[0].objects[i],
        forall|t: int, i: int|
            1 <= t < n && 0 <= i < ds[t].objects.len() ==> fold_state(ds, n).objects[store_offset(
                ds,
                t,
            ) + i] == (
                step_map(ds, t)[ds[t].objects[i].0],
                remap_obj(ds[t].objects[i].1, step_map(ds, t)),
            ),
    decreases n,
{
    if n > 1 {
        lemma_fold_contents(ds, n - 1);
        lemma_store_offset_mono(ds, 1, n - 1);
        let prev = fold_state(ds, n - 1);
        let d = ds[n - 1];
        let m = step_map(ds, n - 1);
        let cur = fold_state(ds, n);
        assert(cur.objects == prev.objects + remapped_store(d.objects, m));
        assert(prev.objects.len() == store_offset(ds, n - 1));
        assert(cur.objects.len() == store_offset(ds, n));
        assert forall|i: int| 0 <= i < ds[0].objects.len() implies cur.objects[i]
            == ds[0].objects[i] by {
            assert(i < prev.objects.len());
            assert(cur.objects[i] == prev.objects[i]);
        }
        assert forall|t: int, i: int|
            1 <= t < n && 0 <= i < ds[t].objects.len() implies cur.objects[store_offset(ds, t)
            + i] == (
            step_map(ds, t)[ds[t].objects[i].0],
            remap_obj(ds[t].objects[i].1, step_map(ds, t)),
        ) by {
            if t < n - 1 {
                lemma_store_offset_mono(ds, 1, t);
                lemma_store_offset_mono(ds, t + 1, n - 1);
                assert(store_offset(ds, t + 1) == store_offset(ds, t) + ds[t].objects.len());
                let p = store_offset(ds, t) + i;
                assert(0 <= p < prev.objects.len());
                assert(cur.objects[p] == prev.objects[p]);
            } else {
                let p = store_offset(ds, n - 1) + i;
                assert(cur.objects[p] == remapped_store(d.objects, m)[i]);
                assert(remapped_store(d.objects, m)[i] == (
                    m[d.objects[i].0],
                    remap_obj(d.objects[i].1, m),
                ));
            }
        }
    }
}

/// After a successful rebuild the store's keys, the counter, the root and
/// the page list are unchanged; only the page-root entry's object differs,
/// and well-formedness is preserved.
pub proof fn lemma_rebuild_frame(g: GraphV, refs: Seq<ObjectId>, h: GraphV)
    requires
        g.wf(),
        rebuild_spec(g, refs) == Ok::<GraphV, MergeError>(h),
    ensures
        h.objects.len() == g.objects.len(),
        forall|i: int| 0 <= i < g.objects.len() ==> h.objects[i].0 == g.objects[i].0,
        forall|i: int|
            0 <= i < g.objects.len() && g.objects[i].0 != page_root_id(g) ==> h.objects[i]
                == g.objects[i],
        h.max_id == g.max_id,
        h.root_id == g.root_id,
        h.pages == g.pages,
        h.wf(),
{
    let pid = page_root_id(g);
    let ki = key_index(g.objects, pid);
    assert(crate::assoc::assoc_get(g.objects, pid) is Some);
    crate::assoc::lemma_assoc_has_get(g.objects, pid);
    assert(0 <= ki < g.objects.len() && g.objects[ki].0 == pid);
}

/// Merging a single-graph list keeps that graph's page list: same count,
/// same order.
pub proof fn lemma_merge_single_pages(ds: Seq<GraphV>, g: GraphV)
    requires
        ds.len() == 1,
        merge_spec(ds) == Ok::<GraphV, MergeError>(g),
    ensures
        g.pages == ds[0].pages,
{
    assert(fold_state(ds, 1) == ds[0]);
}

/// Every resulting identifier is unique across the merged store, and the
/// merged counter bounds every key's number: the merged graph is
/// well-formed.
pub proof fn lemma_merge_ids_unique(ds: Seq<GraphV>, g: GraphV)
    requires
        all_wf(ds),
        ds.len() > 0,
        id_budget(ds) < u64::MAX,
        merge_spec(ds) == Ok::<GraphV, MergeError>(g),
    ensures
        g.wf(),
        distinct_keys(g.objects),
{
    lemma_fold_wf(ds, ds.len() as int);
    let f = fold_state(ds, ds.len() as int);
    lemma_rebuild_frame(f, f.pages, g);
}

/// Identifier freshness: every identifier assigned when graph `t` is
/// merged is numbered above the merged counter as it stood at that moment.
pub proof fn lemma_assigned_ids_fresh(ds: Seq<GraphV>, t: int, id: ObjectId)
    requires
        all_wf(ds),
        id_budget(ds) < u64::MAX,
        1 <= t < ds.len(),
        step_map(ds, t).dom().contains(id),
    ensures
        step_map(ds, t)[id].number > fold_state(ds, t).max_id,
{
    lemma_fold_bound(ds, t);
    lemma_count_from_nonneg(ds, t);
    lemma_count_from_nonneg(ds, t + 1);
    let prev = fold_state(ds, t);
    let next = (prev.max_id + 1) as u64;
    assert(count_from(ds, t) >= ds[t].objects.len());
    lemma_remap_map_range(ds[t].objects, next, id);
}

/// The merged page count is the sum of every input graph's own page count.
pub proof fn lemma_merge_page_count(ds: Seq<GraphV>, g: GraphV)
    requires
        ds.len() > 0,
        merge_spec(ds) == Ok::<GraphV, MergeError>(g),
    ensures
        g.pages.len() == pages_total(ds),
{
    lemma_pages_bound(ds, ds.len() as int);
}

/// The merged page lists of the input graphs, concatenated in input order:
/// graph 0's list verbatim, every later graph's list translated through
/// that graph's remap table.
pub open spec fn concat_pages(ds: Seq<GraphV>, n: int) -> Seq<ObjectId>
    decreases n,
{
    if n <= 1 {
        ds[0].pages
    } else {
        concat_pages(ds, n - 1) + translate_pages(ds[n - 1].pages, step_map(ds, n - 1))
    }
}

/// The merged page order is exactly the concatenation, in input order, of
/// each graph's page list — graph 0's unchanged, later ones remapped.
pub proof fn lemma_merge_page_order(ds: Seq<GraphV>, g: GraphV)
    requires
        ds.len() > 0,
        merge_spec(ds) == Ok::<GraphV, MergeError>(g),
    ensures
        g.pages == concat_pages(ds, ds.len() as int),
{
    lemma_fold_pages(ds, ds.len() as int);
}

proof fn lemma_fold_pages(ds: Seq<GraphV>, n: int)
    requires
        1 <= n <= ds.len(),
    ensures
        fold_state(ds, n).pages == concat_pages(ds, n),
    decreases n,
{
    if n > 1 {
        lemma_fold_pages(ds, n - 1);
    }
}

/// Merging the same graph with itself doubles the page count and still
/// leaves every merged identifier distinct, though every source identifier
/// occurs twice.
pub proof fn lemma_merge_self_twice(d: GraphV, g: GraphV)
    requires
        d.wf(),
        id_budget(seq![d, d]) < u64::MAX,
        merge_spec(seq![d, d]) == Ok::<GraphV, MergeError>(g),
    ensures
        g.pages.len() == 2 * d.pages.len(),
        distinct_keys(g.objects),
{
    let ds = seq![d, d];
    assert(all_wf(ds));
    assert(pages_from(ds, 2) == 0);
    assert(pages_from(ds, 1) == d.pages.len());
    assert(pages_total(ds) == 2 * d.pages.len());
    lemma_merge_page_count(ds, g);
    lemma_merge_ids_unique(ds, g);
}

/// Whole-store copying: after a successful merge, every object of every
/// input graph is still present in the merged store — graph 0's under its
/// own identifier, every later graph's under its remapped identifier —
/// whether or not any page reaches it. Every such entry other than the
/// page-root entry also keeps its (rewritten) object.
#[verifier::rlimit(50)]
pub proof fn lemma_merge_whole_store(ds: Seq<GraphV>, g: GraphV)
    requires
        all_wf(ds),
        ds.len() > 0,
        id_budget(ds) < u64::MAX,
        merge_spec(ds) == Ok::<GraphV, MergeError>(g),
    ensures
        forall|i: int| 0 <= i < ds[0].objects.len() ==> assoc_has(
            g.objects,
            ds[0].objects[i].0,
        ),
        forall|t: int, i: int|
            1 <= t < ds.len() && 0 <= i < ds[t].objects.len() ==> assoc_has(
                g.objects,
                step_map(ds, t)[ds[t].objects[i].0],
            ),
{
    let n = ds.len() as int;
    let f = fold_state(ds, n);
    lemma_fold_contents(ds, n);
    lemma_fold_wf(ds, n);
    lemma_rebuild_frame(f, f.pages, g);
    assert forall|i: int| 0 <= i < ds[0].objects.len() implies assoc_has(
        g.objects,
        ds[0].objects[i].0,
    ) by {
        lemma_store_offset_mono(ds, 1, n);
        assert(f.objects[i] == ds[0].objects[i]);
        assert(g.objects[i].0 == ds[0].objects[i].0);
    }
    assert forall|t: int, i: int|
        1 <= t < ds.len() && 0 <= i < ds[t].objects.len() implies assoc_has(
        g.objects,
        step_map(ds, t)[ds[t].objects[i].0],
    ) by {
        lemma_store_offset_mono(ds, 1, t);
        lemma_store_offset_mono(ds, t + 1, n);
        let p = store_offset(ds, t) + i;
        assert(store_offset(ds, t) + ds[t].objects.len() == store_offset(ds, t + 1));
        assert(0 <= p < f.objects.len());
        assert(f.objects[p].0 == step_map(ds, t)[ds[t].objects[i].0]);
        assert(g.objects[p].0 == f.objects[p].0);
    }
}

/// The rebuilt page index is exact: after a successful merge the page-root
/// dictionary's child-count field equals the merged page list's length, and
/// its child list holds exactly that list's references, in order.
pub proof fn lemma_merge_child_count(ds: Seq<GraphV>, g: GraphV)
    requires
        all_wf(ds),
        ds.len() > 0,
        id_budget(ds) < u64::MAX,
        merge_spec(ds) == Ok::<GraphV, MergeError>(g),
    ensures
        ({
            let pid = page_root_id(fold_state(ds, ds.len() as int));
            match crate::assoc::assoc_get(g.objects, pid) {
                Some(ObjV::Dictionary(d)) => {
                    &&& crate::assoc::assoc_get(d, crate::names::count_name()) == Some(
                        ObjV::Integer(g.pages.len() as i64),
                    )
                    &&& crate::assoc::assoc_get(d, crate::names::kids_name()) == Some(
                        ObjV::Array(crate::pages::refs_seq(g.pages)),
                    )
                },
                _ => false,
            }
        }),
{
    let n = ds.len() as int;
    let f = fold_state(ds, n);
    lemma_fold_wf(ds, n);
    let pid = page_root_id(f);
    let ki = key_index(f.objects, pid);
    crate::assoc::lemma_assoc_has_get(f.objects, pid);
    assert(0 <= ki < f.objects.len() && f.objects[ki].0 == pid);
    let pd = match crate::assoc::assoc_get(f.objects, pid) {
        Some(ObjV::Dictionary(d)) => d,
        _ => arbitrary(),
    };
    let d2 = rebuilt_pages_dict(pd, f.pages);
    assert(g.objects == f.objects.update(ki, (pid, ObjV::Dictionary(d2))));
    assert(g.objects[ki] == (pid, ObjV::Dictionary(d2)));
    crate::assoc::lemma_assoc_get_at(g.objects, pid, ki);
    let cn = crate::names::count_name();
    let kn = crate::names::kids_name();
    assert(cn != kn) by {
        assert(cn.len() != kn.len());
    }
    let after_count = crate::object::ents_set(pd, cn, ObjV::Integer(f.pages.len() as i64));
    crate::object::lemma_ents_set_get(pd, cn, ObjV::Integer(f.pages.len() as i64));
    crate::object::lemma_ents_set_get_other(
        after_count,
        kn,
        ObjV::Array(crate::pages::refs_seq(f.pages)),
        cn,
    );
    crate::object::lemma_ents_set_get(after_count, kn, ObjV::Array(crate::pages::refs_seq(f.pages)));
    assert(g.pages == f.pages);
}

} // verus!
