use document_factory::error::MergeError;
use document_factory::graph::DocumentGraph;
use document_factory::merge::merge;
use document_factory::object::{Dict, Object, ObjectId};

fn oid(number: u64, generation: u16) -> ObjectId {
    ObjectId { number, generation }
}

/// A well-formed document: catalog at 1, page root at 2, `npages` leaf
/// pages at 3.., plus one auxiliary object (a name) at `3 + npages` that no
/// page references.
fn simple_doc(npages: u64) -> DocumentGraph {
    let mut objects: Vec<(ObjectId, Object)> = Vec::new();
    let mut page_ids: Vec<ObjectId> = Vec::new();
    let mut kids: Vec<Object> = Vec::new();
    for k in 0..npages {
        let pid = oid(3 + k, 0);
        page_ids.push(pid);
        kids.push(Object::Reference(pid));
        objects.push((
            pid,
            Object::Dictionary(Dict {
                entries: vec![
                    (b"Type".to_vec(), Object::Name(b"Page".to_vec())),
                    (b"Parent".to_vec(), Object::Reference(oid(2, 0))),
                ],
            }),
        ));
    }
    objects.push((
        oid(2, 0),
        Object::Dictionary(Dict {
            entries: vec![
                (b"Type".to_vec(), Object::Name(b"Pages".to_vec())),
                (b"Kids".to_vec(), Object::Array(kids)),
                (b"Count".to_vec(), Object::Integer(npages as i64)),
            ],
        }),
    ));
    objects.push((
        oid(1, 0),
        Object::Dictionary(Dict {
            entries: vec![
                (b"Type".to_vec(), Object::Name(b"Catalog".to_vec())),
                (b"Pages".to_vec(), Object::Reference(oid(2, 0))),
            ],
        }),
    ));
    let aux = oid(3 + npages, 0);
    objects.push((aux, Object::Name(b"AuxResource".to_vec())));
    DocumentGraph {
        objects,
        max_id: 3 + npages,
        root_id: oid(1, 0),
        pages: page_ids,
    }
}

fn pages_dict_of(doc: &DocumentGraph) -> &Dict {
    let catalog = match doc.get(doc.root_id) {
        Some(Object::Dictionary(d)) => d,
        _ => panic!("catalog missing"),
    };
    let pages_ref = match catalog.get(b"Pages") {
        Some(Object::Reference(id)) => *id,
        _ => panic!("page root reference missing"),
    };
    match doc.get(pages_ref) {
        Some(Object::Dictionary(d)) => d,
        _ => panic!("page root dictionary missing"),
    }
}

#[test]
fn single_document_keeps_pages() {
    let d = simple_doc(3);
    let expected = d.pages.clone();
    let merged = merge(vec![d]).expect("merge should succeed");
    assert_eq!(merged.pages, expected);
    let pd = pages_dict_of(&merged);
    match pd.get(b"Count") {
        Some(Object::Integer(n)) => assert_eq!(*n, 3),
        _ => panic!("count missing"),
    }
    match pd.get(b"Kids") {
        Some(Object::Array(kids)) => {
            assert_eq!(kids.len(), 3);
            for (k, kid) in kids.iter().enumerate() {
                assert_eq!(*kid, Object::Reference(oid(3 + k as u64, 0)));
            }
        }
        _ => panic!("kids missing"),
    }
}

#[test]
fn merged_identifiers_are_unique() {
    let merged = merge(vec![simple_doc(2), simple_doc(3), simple_doc(1)]).unwrap();
    for (i, (id_a, _)) in merged.objects.iter().enumerate() {
        for (id_b, _) in merged.objects.iter().skip(i + 1) {
            assert_ne!(id_a, id_b, "duplicate identifier in merged store");
        }
    }
}

#[test]
fn assigned_identifiers_exceed_base_counter() {
    let d0 = simple_doc(2);
    let base_max = d0.max_id;
    let base_count = d0.objects.len();
    let merged = merge(vec![d0, simple_doc(3)]).unwrap();
    for (id, _) in merged.objects.iter().skip(base_count) {
        assert!(id.number > base_max, "newly assigned id not above the base counter");
        assert_eq!(id.generation, 0);
    }
    assert!(merged.max_id >= base_max);
}

#[test]
fn page_count_is_sum_of_inputs() {
    let merged = merge(vec![simple_doc(2), simple_doc(5), simple_doc(0), simple_doc(1)]).unwrap();
    assert_eq!(merged.pages.len(), 2 + 5 + 0 + 1);
    let pd = pages_dict_of(&merged);
    match pd.get(b"Count") {
        Some(Object::Integer(n)) => assert_eq!(*n, 8),
        _ => panic!("count missing"),
    }
}

#[test]
fn page_order_is_concatenation_in_input_order() {
    let d0 = simple_doc(2);
    let d1 = simple_doc(3);
    let d0_pages = d0.pages.clone();
    let d0_max = d0.max_id;
    let merged = merge(vec![d0, d1]).unwrap();
    assert_eq!(merged.pages.len(), 5);
    // Document 0's pages come first, unchanged.
    assert_eq!(&merged.pages[..2], &d0_pages[..]);
    // Document 1's pages follow, remapped to fresh consecutive numbers in
    // its own store order (pages sit at store positions 0..3).
    assert_eq!(merged.pages[2], oid(d0_max + 1, 0));
    assert_eq!(merged.pages[3], oid(d0_max + 2, 0));
    assert_eq!(merged.pages[4], oid(d0_max + 3, 0));
    // The rebuilt child list mirrors the merged page list exactly.
    let pd = pages_dict_of(&merged);
    match pd.get(b"Kids") {
        Some(Object::Array(kids)) => {
            assert_eq!(kids.len(), 5);
            for (k, kid) in kids.iter().enumerate() {
                assert_eq!(*kid, Object::Reference(merged.pages[k]));
            }
        }
        _ => panic!("kids missing"),
    }
}

#[test]
fn merging_document_with_itself_doubles_pages() {
    let merged = merge(vec![simple_doc(4), simple_doc(4)]).unwrap();
    assert_eq!(merged.pages.len(), 8);
    for (i, (id_a, _)) in merged.objects.iter().enumerate() {
        for (id_b, _) in merged.objects.iter().skip(i + 1) {
            assert_ne!(id_a, id_b, "identifier collision when merging a document with itself");
        }
    }
}

#[test]
fn unreferenced_objects_survive_the_merge() {
    let d0 = simple_doc(1);
    let d1 = simple_doc(2);
    let d0_max = d0.max_id; // 4
    let merged = merge(vec![d0, d1]).unwrap();
    // Document 0's auxiliary object, under its own identifier.
    assert_eq!(
        merged.get(oid(4, 0)),
        Some(&Object::Name(b"AuxResource".to_vec()))
    );
    // Document 1's auxiliary object sits at store position 4 (after its two
    // pages, page root and catalog), so it is remapped to
    // base-max + 1 + 4 = 9.
    let d1_aux_new = oid(d0_max + 5, 0);
    assert_eq!(
        merged.get(d1_aux_new),
        Some(&Object::Name(b"AuxResource".to_vec()))
    );
    // Every object of both stores is present: 4 + 5 entries.
    assert_eq!(merged.objects.len(), 9);
}

#[test]
fn embedded_references_are_rewritten() {
    let d0 = simple_doc(1);
    let d0_max = d0.max_id; // 4
    let merged = merge(vec![d0, simple_doc(1)]).unwrap();
    // Document 1's page (store position 0) is remapped to d0_max + 1; its
    // Parent reference must point at document 1's remapped page root
    // (store position 1 -> d0_max + 2).
    let page = match merged.get(oid(d0_max + 1, 0)) {
        Some(Object::Dictionary(d)) => d,
        _ => panic!("remapped page missing"),
    };
    match page.get(b"Parent") {
        Some(Object::Reference(parent)) => assert_eq!(*parent, oid(d0_max + 2, 0)),
        _ => panic!("parent reference missing"),
    }
}

#[test]
fn dangling_references_pass_through_unchanged() {
    let mut d1 = simple_doc(1);
    // An object holding a reference to an identifier outside d1's store.
    d1.max_id += 1;
    let extra = oid(d1.max_id, 0);
    d1.objects.push((extra, Object::Reference(oid(999, 7))));
    let d0 = simple_doc(1);
    let d0_max = d0.max_id;
    let merged = merge(vec![d0, d1]).unwrap();
    // The extra object is d1's fifth store entry (position 4), so its new
    // number is base-max + 1 + 4; the dangling reference inside it is kept
    // byte for byte.
    let new_id = oid(d0_max + 5, 0);
    assert_eq!(merged.get(new_id), Some(&Object::Reference(oid(999, 7))));
}

#[test]
fn empty_input_is_rejected() {
    match merge(vec![]) {
        Err(MergeError::EmptyInput) => {}
        other => panic!("expected EmptyInput, got {:?}", other),
    }
}

#[test]
fn container_stream_fails_with_unsupported_feature() {
    let mut d1 = simple_doc(1);
    d1.max_id += 1;
    let sid = oid(d1.max_id, 0);
    d1.objects.push((
        sid,
        Object::Stream(
            Dict {
                entries: vec![(b"Type".to_vec(), Object::Name(b"ObjStm".to_vec()))],
            },
            vec![1, 2, 3],
        ),
    ));
    match merge(vec![simple_doc(1), d1]) {
        Err(MergeError::UnsupportedFeature { index }) => assert_eq!(index, 1),
        other => panic!("expected UnsupportedFeature, got {:?}", other),
    }
}

#[test]
fn ordinary_streams_are_not_flagged() {
    let mut d0 = simple_doc(1);
    d0.max_id += 1;
    let sid = oid(d0.max_id, 0);
    d0.objects.push((
        sid,
        Object::Stream(
            Dict {
                entries: vec![(b"Length".to_vec(), Object::Integer(3))],
            },
            vec![9, 9, 9],
        ),
    ));
    let merged = merge(vec![d0]).unwrap();
    match merged.get(sid) {
        Some(Object::Stream(_, payload)) => assert_eq!(payload, &vec![9, 9, 9]),
        _ => panic!("stream missing from merged store"),
    }
}

#[test]
fn catalog_without_page_root_field() {
    let mut d = simple_doc(1);
    // Replace the catalog with one lacking the page-root field.
    let root = d.root_id;
    for entry in d.objects.iter_mut() {
        if entry.0 == root {
            entry.1 = Object::Dictionary(Dict {
                entries: vec![(b"Type".to_vec(), Object::Name(b"Catalog".to_vec()))],
            });
        }
    }
    match merge(vec![d]) {
        Err(MergeError::CatalogMissingPageRoot) => {}
        other => panic!("expected CatalogMissingPageRoot, got {:?}", other),
    }
}

#[test]
fn page_root_field_not_a_reference() {
    let mut d = simple_doc(1);
    let root = d.root_id;
    for entry in d.objects.iter_mut() {
        if entry.0 == root {
            entry.1 = Object::Dictionary(Dict {
                entries: vec![(b"Pages".to_vec(), Object::Integer(2))],
            });
        }
    }
    match merge(vec![d]) {
        Err(MergeError::PageRootNotReference) => {}
        other => panic!("expected PageRootNotReference, got {:?}", other),
    }
}

#[test]
fn page_root_object_missing_from_store() {
    let mut d = simple_doc(1);
    let root = d.root_id;
    for entry in d.objects.iter_mut() {
        if entry.0 == root {
            entry.1 = Object::Dictionary(Dict {
                entries: vec![(b"Pages".to_vec(), Object::Reference(oid(2, 9)))],
            });
        }
    }
    match merge(vec![d]) {
        Err(MergeError::PageRootObjectMissing) => {}
        other => panic!("expected PageRootObjectMissing, got {:?}", other),
    }
}

#[test]
fn page_root_not_a_dictionary() {
    let mut d = simple_doc(1);
    for entry in d.objects.iter_mut() {
        if entry.0 == oid(2, 0) {
            entry.1 = Object::Integer(7);
        }
    }
    match merge(vec![d]) {
        Err(MergeError::PageRootNotDictionary) => {}
        other => panic!("expected PageRootNotDictionary, got {:?}", other),
    }
}

#[test]
fn page_outside_its_own_store_is_an_internal_inconsistency() {
    let mut d1 = simple_doc(1);
    d1.pages.push(oid(77, 0)); // not a key of d1's store
    match merge(vec![simple_doc(1), d1]) {
        Err(MergeError::PageReferenceUnresolved) => {}
        other => panic!("expected PageReferenceUnresolved, got {:?}", other),
    }
}

#[test]
fn base_document_page_list_is_taken_verbatim() {
    // A page identifier of graph 0 is taken as-is, even when nothing checks
    // it against graph 0's store; the rebuilt child list then names it.
    let merged = merge(vec![simple_doc(2)]).unwrap();
    assert_eq!(merged.pages, vec![oid(3, 0), oid(4, 0)]);
}

#[test]
fn container_stream_in_base_document_is_flagged_first() {
    let mut d0 = simple_doc(1);
    d0.max_id += 1;
    let sid = oid(d0.max_id, 0);
    d0.objects.push((
        sid,
        Object::Stream(
            Dict {
                entries: vec![(b"Type".to_vec(), Object::Name(b"ObjStm".to_vec()))],
            },
            vec![0],
        ),
    ));
    match merge(vec![d0, simple_doc(1)]) {
        Err(MergeError::UnsupportedFeature { index }) => assert_eq!(index, 0),
        other => panic!("expected UnsupportedFeature, got {:?}", other),
    }
}

#[test]
fn deeply_nested_references_are_rewritten() {
    let mut d1 = simple_doc(0);
    d1.max_id += 1;
    let vid = oid(d1.max_id, 0);
    // An array holding a dictionary holding an array holding a reference to
    // d1's page root (identifier 2, store position 0).
    d1.objects.push((
        vid,
        Object::Array(vec![Object::Dictionary(Dict {
            entries: vec![(
                b"Inner".to_vec(),
                Object::Array(vec![Object::Reference(oid(2, 0))]),
            )],
        })]),
    ));
    let d0 = simple_doc(1);
    let d0_max = d0.max_id; // 4
    let merged = merge(vec![d0, d1]).unwrap();
    // d1 store order: root(2), catalog(1), aux(3), array(4); the root is
    // remapped to d0_max + 1, the array object to d0_max + 4.
    let arr = match merged.get(oid(d0_max + 4, 0)) {
        Some(Object::Array(items)) => items,
        _ => panic!("copied array missing"),
    };
    let inner_dict = match &arr[0] {
        Object::Dictionary(d) => d,
        _ => panic!("inner dictionary missing"),
    };
    match inner_dict.get(b"Inner") {
        Some(Object::Array(inner)) => {
            assert_eq!(inner[0], Object::Reference(oid(d0_max + 1, 0)));
        }
        _ => panic!("inner array missing"),
    }
}

#[test]
fn dictionary_set_replaces_in_place_and_appends() {
    let mut d = Dict {
        entries: vec![
            (b"A".to_vec(), Object::Integer(1)),
            (b"B".to_vec(), Object::Integer(2)),
        ],
    };
    d.set(b"A".to_vec(), Object::Integer(10));
    d.set(b"C".to_vec(), Object::Integer(3));
    assert_eq!(d.entries.len(), 3);
    assert_eq!(d.entries[0], (b"A".to_vec(), Object::Integer(10)));
    assert_eq!(d.entries[1], (b"B".to_vec(), Object::Integer(2)));
    assert_eq!(d.entries[2], (b"C".to_vec(), Object::Integer(3)));
}

#[test]
fn scalar_variants_are_copied_verbatim() {
    let mut d1 = simple_doc(0);
    d1.max_id += 1;
    let vid = oid(d1.max_id, 0);
    d1.objects.push((
        vid,
        Object::Array(vec![
            Object::Null,
            Object::Boolean(true),
            Object::Integer(-5),
            Object::Real(0x3f800000),
            Object::Text(b"hello".to_vec()),
            Object::Name(b"N".to_vec()),
        ]),
    ));
    let d0 = simple_doc(1);
    let d0_max = d0.max_id;
    let merged = merge(vec![d0, d1]).unwrap();
    // d1 has 4 objects (catalog, root, aux) plus the array at position 3.
    let new_id = oid(d0_max + 4, 0);
    match merged.get(new_id) {
        Some(Object::Array(items)) => {
            assert_eq!(items.len(), 6);
            assert_eq!(items[0], Object::Null);
            assert_eq!(items[1], Object::Boolean(true));
            assert_eq!(items[2], Object::Integer(-5));
            assert_eq!(items[3], Object::Real(0x3f800000));
            assert_eq!(items[4], Object::Text(b"hello".to_vec()));
            assert_eq!(items[5], Object::Name(b"N".to_vec()));
        }
        _ => panic!("copied array missing"),
    }
}
