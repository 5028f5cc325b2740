//! The extractor: from positions and triangles to the segments to draw.

use vstd::prelude::*;
use crate::edge::{mesh_edges, slot_edges, triangle_edges, Edge, Triangle};
use crate::edge::{has_slot, lemma_edge_count_bound, lemma_edge_membership, lemma_mesh_edges_push};
use crate::position::{coincident, Position};

verus! {

/// Why a mesh yields no segments.
#[derive(Clone, Copy, Debug, PartialEq, Eq)]
pub enum EdgeError {
    /// Some triangle names a vertex that the position list does not hold.
    InvalidIndex,
    /// Some edge joins two vertices that lie at the same point, so that it
    /// has no direction.
    DegenerateEdge,
    /// The mesh lists no indices at all.
    MissingIndices,
}

/// An edge together with the positions of its two ends.
#[derive(Clone, Copy, Debug, PartialEq, Eq)]
pub struct Segment {
    pub edge: Edge,
    pub start: Position,
    pub end: Position,
}

/// All three indices of `t` are below `count`.
pub open spec fn triangle_in_range(t: Triangle, count: nat) -> bool {
    t.0 < count && t.1 < count && t.2 < count
}

/// Every triangle names only vertices below `count`.
pub open spec fn all_in_range(triangles: Seq<Triangle>, count: nat) -> bool {
    forall|k: int| 0 <= k < triangles.len() ==> triangle_in_range(#[trigger] triangles[k], count)
}

/// The slot `(x, y)` is kept and its two ends lie at the same point.
pub open spec fn slot_degenerate(positions: Seq<Position>, x: u32, y: u32) -> bool {
    x < y && coincident(positions[x as int], positions[y as int])
}

/// One of the triangle's kept slots joins two vertices at the same point.
pub open spec fn triangle_degenerate(positions: Seq<Position>, t: Triangle) -> bool {
    ||| slot_degenerate(positions, t.0, t.1)
    ||| slot_degenerate(positions, t.1, t.2)
    ||| slot_degenerate(positions, t.2, t.0)
}

/// Some triangle of the list has a degenerate edge.
pub open spec fn any_degenerate(positions: Seq<Position>, triangles: Seq<Triangle>) -> bool {
    exists|k: int|
        0 <= k < triangles.len() && triangle_degenerate(positions, #[trigger] triangles[k])
}

/// The segment along edge `e`.
pub open spec fn segment_of(positions: Seq<Position>, e: Edge) -> Segment {
    Segment { edge: e, start: positions[e.from as int], end: positions[e.to as int] }
}

/// The segments along the given edges, in the same order.
pub open spec fn segments_of(positions: Seq<Position>, edges: Seq<Edge>) -> Seq<Segment> {
    edges.map_values(|e: Edge| segment_of(positions, e))
}

/// What the extractor yields for a mesh. A mesh with an index out of range
/// is refused as a whole; so is, among the others, one with a degenerate
/// edge; every other mesh yields the segments along its edges, in order.
pub open spec fn extraction(positions: Seq<Position>, triangles: Seq<Triangle>) -> Result<
    Seq<Segment>,
    EdgeError,
> {
    if !all_in_range(triangles, positions.len()) {
        Err(EdgeError::InvalidIndex)
    } else if any_degenerate(positions, triangles) {
        Err(EdgeError::DegenerateEdge)
    } else {
        Ok(segments_of(positions, mesh_edges(triangles)))
    }
}

/// The outcome of a run, with the list of segments taken as a sequence.
pub open spec fn outcome(r: Result<Vec<Segment>, EdgeError>) -> Result<Seq<Segment>, EdgeError> {
    match r {
        Ok(v) => Ok(v@),
        Err(e) => Err(e),
    }
}

/// Decides whether all three indices of `t` are below `count`.
pub fn triangle_is_in_range(t: &Triangle, count: usize) -> (r: bool)
    ensures
        r == triangle_in_range(*t, count as nat),
{
    (t.0 as usize) < count && (t.1 as usize) < count && (t.2 as usize) < count
}

/// Decides whether every triangle names only vertices below `count`.
pub fn indices_are_in_range(triangles: &Vec<Triangle>, count: usize) -> (r: bool)
    ensures
        r == all_in_range(triangles@, count as nat),
{
    let mut k: usize = 0;
    while k < triangles.len()
        invariant
            k <= triangles.len(),
            all_in_range(triangles@.take(k as int), count as nat),
        decreases triangles.len() - k,
    {
        if !triangle_is_in_range(&triangles[k], count) {
            return false;
        }
        proof {
            let before = triangles@.take(k as int);
            let after = triangles@.take(k + 1);
            assert forall|j: int| 0 <= j < after.len() implies triangle_in_range(
                #[trigger] after[j],
                count as nat,
            ) by {
                if j < k {
                    assert(after[j] == before[j]);
                }
            }
        }
        k += 1;
    }
    assert(triangles@.take(k as int) =~= triangles@);
    true
}

/// Handles the slot `(x, y)`: where it is kept, appends its segment to
/// `out`, unless its two ends lie at the same point. Returns whether the slot
/// is free of that fault.
fn push_slot(positions: &Vec<Position>, x: u32, y: u32, out: &mut Vec<Segment>) -> (sound: bool)
    requires
        x < positions.len(),
        y < positions.len(),
    ensures
        sound == !slot_degenerate(positions@, x, y),
        sound ==> final(out)@ == old(out)@ + segments_of(positions@, slot_edges(x, y)),
        !sound ==> final(out)@ == old(out)@,
{
    if x < y {
        let start = positions[x as usize];
        let end = positions[y as usize];
        if start.coincides(&end) {
            return false;
        }
        out.push(Segment { edge: Edge { from: x, to: y }, start, end });
    }
    assert(out@ =~= old(out)@ + segments_of(positions@, slot_edges(x, y)));
    true
}

/// Lists the segments of a wireframe.
///
/// Each triangle is visited in order, and in it the slots `(i1, i2)`,
/// `(i2, i3)`, `(i3, i1)`; a slot `(x, y)` gives a segment from
/// `positions[x]` to `positions[y]` exactly when `x < y`. A mesh in which
/// some index is out of range is refused with `InvalidIndex`, whatever else
/// it holds. A mesh in which some kept slot joins two vertices at the same
/// point is refused with `DegenerateEdge`: such an edge has no direction,
/// and no placement can be computed for it.
pub fn extract_edge_segments(positions: &Vec<Position>, triangles: &Vec<Triangle>) -> (r: Result<
    Vec<Segment>,
    EdgeError,
>)
    ensures
        outcome(r) == extraction(positions@, triangles@),
        r matches Ok(v) ==> v.len() <= 3 * triangles.len(),
{
    if !indices_are_in_range(triangles, positions.len()) {
        return Err(EdgeError::InvalidIndex);
    }
    let mut out: Vec<Segment> = Vec::new();
    let mut k: usize = 0;
    assert(triangles@.take(0) =~= Seq::<Triangle>::empty());
    while k < triangles.len()
        invariant
            k <= triangles.len(),
            all_in_range(triangles@, positions.len() as nat),
            !any_degenerate(positions@, triangles@.take(k as int)),
            out@ == segments_of(positions@, mesh_edges(triangles@.take(k as int))),
        decreases triangles.len() - k,
    {
        let t = triangles[k];
        assert(triangle_in_range(triangles@[k as int], positions.len() as nat));
        let ghost before = triangles@.take(k as int);
        let ghost after = triangles@.take(k + 1);
        let sound = push_slot(positions, t.0, t.1, &mut out) && push_slot(
            positions,
            t.1,
            t.2,
            &mut out,
        ) && push_slot(positions, t.2, t.0, &mut out);
        if !sound {
            assert(triangle_degenerate(positions@, triangles@[k as int]));
            return Err(EdgeError::DegenerateEdge);
        }
        proof {
            assert(after =~= before.push(t));
            lemma_mesh_edges_push(before, t);
            assert(out@ =~= segments_of(positions@, mesh_edges(after)));
            assert forall|j: int| 0 <= j < after.len() implies !triangle_degenerate(
                positions@,
                #[trigger] after[j],
            ) by {
                if j < k {
                    assert(before[j] == after[j]);
                }
            }
        }
        k += 1;
    }
    proof {
        assert(triangles@.take(k as int) =~= triangles@);
        lemma_edge_count_bound(triangles@);
    }
    Ok(out)
}

/// The outcome is a function of the mesh: two runs on the same positions and
/// triangles end alike, with the same segments in the same order or with the
/// same error.
pub proof fn lemma_extraction_deterministic(
    positions: Seq<Position>,
    triangles: Seq<Triangle>,
    first: Result<Vec<Segment>, EdgeError>,
    second: Result<Vec<Segment>, EdgeError>,
)
    requires
        outcome(first) == extraction(positions, triangles),
        outcome(second) == extraction(positions, triangles),
    ensures
        outcome(first) == outcome(second),
        first is Ok ==> second is Ok && first->Ok_0@ == second->Ok_0@,
        first is Err ==> second is Err && first->Err_0 == second->Err_0,
{
}

/// A mesh is refused with `DegenerateEdge` exactly when all its indices are
/// in range and some kept slot joins two vertices at the same point; it is
/// never answered with a segment of no length.
pub proof fn lemma_degenerate_refused(positions: Seq<Position>, triangles: Seq<Triangle>)
    ensures
        extraction(positions, triangles) == Err::<Seq<Segment>, EdgeError>(
            EdgeError::DegenerateEdge,
        ) <==> all_in_range(triangles, positions.len()) && any_degenerate(positions, triangles),
        extraction(positions, triangles) matches Ok(segments) ==> forall|i: int|
            0 <= i < segments.len() ==> !coincident(
                (#[trigger] segments[i]).start,
                segments[i].end,
            ),
{
    if let Ok(segments) = extraction(positions, triangles) {
        lemma_segments_sound(positions, triangles);
    }
}

/// What holds of the segments of a mesh that is not refused: there is one
/// for each edge, in order; each runs from the position of the smaller index
/// to that of the larger, both in range; and its two ends are distinct
/// points.
pub proof fn lemma_segments_sound(positions: Seq<Position>, triangles: Seq<Triangle>)
    requires
        extraction(positions, triangles) is Ok,
    ensures
        extraction(positions, triangles) matches Ok(segments) && {
            &&& segments.len() == mesh_edges(triangles).len()
            &&& segments.len() <= 3 * triangles.len()
            &&& forall|i: int|
                0 <= i < segments.len() ==> {
                    let s = #[trigger] segments[i];
                    &&& s.edge == mesh_edges(triangles)[i]
                    &&& s.edge.from < s.edge.to < positions.len()
                    &&& s.start == positions[s.edge.from as int]
                    &&& s.end == positions[s.edge.to as int]
                    &&& !coincident(s.start, s.end)
                }
        },
{
    let edges = mesh_edges(triangles);
    let segments = segments_of(positions, edges);
    lemma_edge_count_bound(triangles);
    assert forall|i: int| 0 <= i < segments.len() implies {
        let s = #[trigger] segments[i];
        &&& s.edge == edges[i]
        &&& s.edge.from < s.edge.to < positions.len()
        &&& s.start == positions[s.edge.from as int]
        &&& s.end == positions[s.edge.to as int]
        &&& !coincident(s.start, s.end)
    } by {
        let e = edges[i];
        assert(edges.contains(e));
        lemma_edge_membership(triangles, e);
        let k = choose|k: int|
            0 <= k < triangles.len() && has_slot(#[trigger] triangles[k], e.from, e.to);
        assert(triangle_in_range(triangles[k], positions.len()));
        assert(!triangle_degenerate(positions, triangles[k]));
    }
}

} // verus!
