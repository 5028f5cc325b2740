//! Meshes as the asset loader hands them over: a flat list of indices, three
//! to a triangle, in one of several widths or absent.

use vstd::prelude::*;
use three_d_asset::Indices;
use crate::edge::Triangle;
use crate::extract::{extract_edge_segments, extraction, outcome, EdgeError, Segment};
use crate::position::Position;

verus! {

/// The index list of a mesh, as `three_d_asset` holds it.
#[verifier::external_type_specification]
#[verifier::external_body]
pub struct ExIndices(Indices);

/// The indices that an index list holds, each widened to 32 bits, in order;
/// `None` for a mesh without indices.
pub uninterp spec fn index_values(indices: Indices) -> Option<Seq<u32>>;

/// Calls `Indices::to_u32`, which copies the indices out as `u32` values, in
/// order, and gives `None` where the mesh has no indices. The copy is what
/// `index_values` names.
#[verifier::external_body]
fn indices_to_u32(indices: &Indices) -> (r: Option<Vec<u32>>)
    ensures
        r.is_some() == index_values(*indices).is_some(),
        r matches Some(v) ==> v@ == index_values(*indices).unwrap(),
{
    indices.to_u32()
}

/// The triangles of a flat index list: each three indices in a row make one.
/// One or two indices left over at the end make none.
pub open spec fn grouped(flat: Seq<u32>) -> Seq<Triangle> {
    Seq::new((flat.len() / 3) as nat, |f: int| (flat[3 * f], flat[3 * f + 1], flat[3 * f + 2]))
}

/// Groups a flat index list into triangles.
pub fn group_triangles(flat: &Vec<u32>) -> (r: Vec<Triangle>)
    ensures
        r@ == grouped(flat@),
{
    let count: usize = flat.len() / 3;
    let mut r: Vec<Triangle> = Vec::new();
    let mut f: usize = 0;
    while f < count
        invariant
            count == flat.len() / 3,
            f <= count,
            r.len() == f,
            forall|j: int| 0 <= j < f ==> #[trigger] r[j] == grouped(flat@)[j],
        decreases count - f,
    {
        r.push((flat[3 * f], flat[3 * f + 1], flat[3 * f + 2]));
        f += 1;
    }
    assert(r@ =~= grouped(flat@));
    r
}

/// What a mesh yields whose indices were copied out as `listed`.
pub open spec fn listed_extraction(positions: Seq<Position>, listed: Option<Seq<u32>>) -> Result<
    Seq<Segment>,
    EdgeError,
> {
    match listed {
        None => Err(EdgeError::MissingIndices),
        Some(flat) => extraction(positions, grouped(flat)),
    }
}

/// The view of an index list that may be absent.
pub open spec fn listed_view(listed: Option<Vec<u32>>) -> Option<Seq<u32>> {
    match listed {
        None => None,
        Some(flat) => Some(flat@),
    }
}

/// Lists the segments of a mesh given by its positions and its flat index
/// list. Without an index list there are no triangles to speak of, and the
/// mesh is refused with `MissingIndices`.
pub fn segments_of_listed(positions: &Vec<Position>, listed: &Option<Vec<u32>>) -> (r: Result<
    Vec<Segment>,
    EdgeError,
>)
    ensures
        outcome(r) == listed_extraction(positions@, listed_view(*listed)),
        r matches Ok(v) ==> listed matches Some(flat) && v.len() <= flat.len(),
{
    match listed {
        None => Err(EdgeError::MissingIndices),
        Some(flat) => {
            let triangles = group_triangles(flat);
            extract_edge_segments(positions, &triangles)
        },
    }
}

/// Lists the segments of a mesh given by its positions and its indices as
/// loaded.
pub fn edge_segments(positions: &Vec<Position>, indices: &Indices) -> (r: Result<
    Vec<Segment>,
    EdgeError,
>)
    ensures
        outcome(r) == listed_extraction(positions@, index_values(*indices)),
{
    let listed = indices_to_u32(indices);
    segments_of_listed(positions, &listed)
}

} // verus!
