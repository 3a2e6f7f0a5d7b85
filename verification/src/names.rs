//! The well-known dictionary names the merge reads and writes: the Catalog's
//! page-root field, the page root's child list and child count, and the type
//! tag that marks a container-of-objects stream.

use vstd::prelude::*;

verus! {

/// The name of the Catalog's page-root field: "Pages".
pub open spec fn pages_name() -> Seq<u8> {
    seq!['P' as u8, 'a' as u8, 'g' as u8, 'e' as u8, 's' as u8]
}

/// The name of the page root's child-list field: "Kids".
pub open spec fn kids_name() -> Seq<u8> {
    seq!['K' as u8, 'i' as u8, 'd' as u8, 's' as u8]
}

/// The name of the page root's child-count field: "Count".
pub open spec fn count_name() -> Seq<u8> {
    seq!['C' as u8, 'o' as u8, 'u' as u8, 'n' as u8, 't' as u8]
}

/// The name of a dictionary's type tag field: "Type".
pub open spec fn type_tag() -> Seq<u8> {
    seq!['T' as u8, 'y' as u8, 'p' as u8, 'e' as u8]
}

/// The type tag of a stream that bundles several logical objects into one
/// physical object: "ObjStm".
pub open spec fn objstm_name() -> Seq<u8> {
    seq!['O' as u8, 'b' as u8, 'j' as u8, 'S' as u8, 't' as u8, 'm' as u8]
}

/// The "Pages" name as bytes.
pub fn pages_name_bytes() -> (r: Vec<u8>)
    ensures
        r@ == pages_name(),
{
    let mut v: Vec<u8> = Vec::new();
    v.push('P' as u8);
    v.push('a' as u8);
    v.push('g' as u8);
    v.push('e' as u8);
    v.push('s' as u8);
    proof {
        assert(v@ =~= pages_name());
    }
    v
}

/// The "Kids" name as bytes.
pub fn kids_name_bytes() -> (r: Vec<u8>)
    ensures
        r@ == kids_name(),
{
    let mut v: Vec<u8> = Vec::new();
    v.push('K' as u8);
    v.push('i' as u8);
    v.push('d' as u8);
    v.push('s' as u8);
    proof {
        assert(v@ =~= kids_name());
    }
    v
}

/// The "Count" name as bytes.
pub fn count_name_bytes() -> (r: Vec<u8>)
    ensures
        r@ == count_name(),
{
    let mut v: Vec<u8> = Vec::new();
    v.push('C' as u8);
    v.push('o' as u8);
    v.push('u' as u8);
    v.push('n' as u8);
    v.push('t' as u8);
    proof {
        assert(v@ =~= count_name());
    }
    v
}

/// The "Type" name as bytes.
pub fn type_tag_bytes() -> (r: Vec<u8>)
    ensures
        r@ == type_tag(),
{
    let mut v: Vec<u8> = Vec::new();
    v.push('T' as u8);
    v.push('y' as u8);
    v.push('p' as u8);
    v.push('e' as u8);
    proof {
        assert(v@ =~= type_tag());
    }
    v
}

/// The "ObjStm" type tag as bytes.
pub fn objstm_name_bytes() -> (r: Vec<u8>)
    ensures
        r@ == objstm_name(),
{
    let mut v: Vec<u8> = Vec::new();
    v.push('O' as u8);
    v.push('b' as u8);
    v.push('j' as u8);
    v.push('S' as u8);
    v.push('t' as u8);
    v.push('m' as u8);
    proof {
        assert(v@ =~= objstm_name());
    }
    v
}

} // verus!
