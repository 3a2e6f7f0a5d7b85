//! The error taxonomy of the merge. Every error aborts the whole operation:
//! there is no partial output. Where an input's position is meaningful the
//! error carries it, so that callers never see a generic failure.

use vstd::prelude::*;

verus! {

/// Why a merge, or the surrounding load/save boundary, failed.
#[derive(Clone, Debug, PartialEq, Eq)]
pub enum MergeError {
    /// The input list was empty.
    EmptyInput,
    /// An input item had the wrong shape or type for the boundary to accept.
    InvalidInputItem { index: usize },
    /// The loader could not parse the input at `index`.
    UnparseableDocument { index: usize, detail: String },
    /// The input at `index` bundles several logical objects into one physical
    /// object, which the object model cannot represent; merging it would
    /// silently drop the bundled objects.
    UnsupportedFeature { index: usize },
    /// A page identifier of a source graph had no entry in that graph's own
    /// store, so it could not be remapped: an internal inconsistency.
    PageReferenceUnresolved,
    /// The Catalog could not be resolved to a dictionary holding a page-root
    /// field, or the field was absent.
    CatalogMissingPageRoot,
    /// The Catalog's page-root field is not a reference.
    PageRootNotReference,
    /// The page-root reference does not resolve to any object in the store.
    PageRootObjectMissing,
    /// The page-root reference resolves to an object that is not a dictionary.
    PageRootNotDictionary,
    /// The serializer could not write the merged graph out.
    SerializationFailed { detail: String },
}

} // verus!
