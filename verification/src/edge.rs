//! Edges of a triangle list, in the order in which they are drawn.
//!
//! A triangle `(i1, i2, i3)` has three edge slots: `(i1, i2)`, `(i2, i3)` and
//! `(i3, i1)`. A slot `(x, y)` is kept exactly when `x < y`. In a closed mesh
//! whose triangles are wound alike, each edge is walked once in each
//! direction, so that this keeps one copy of it. Nothing else removes
//! duplicates: on other meshes an edge may be listed twice or not at all.

use vstd::prelude::*;

verus! {

/// A triangle, as three indices into the position list.
pub type Triangle = (u32, u32, u32);

/// An edge between two vertices, named by their indices.
#[derive(Clone, Copy, Debug, PartialEq, Eq)]
pub struct Edge {
    pub from: u32,
    pub to: u32,
}

/// The edges that the slot `(x, y)` contributes: itself when `x < y`, none
/// otherwise.
pub open spec fn slot_edges(x: u32, y: u32) -> Seq<Edge> {
    if x < y {
        seq![Edge { from: x, to: y }]
    } else {
        Seq::empty()
    }
}

/// The edges of one triangle, in slot order.
pub open spec fn triangle_edges(t: Triangle) -> Seq<Edge> {
    slot_edges(t.0, t.1) + slot_edges(t.1, t.2) + slot_edges(t.2, t.0)
}

/// The edges of a triangle list: those of each triangle, in triangle order.
pub open spec fn mesh_edges(triangles: Seq<Triangle>) -> Seq<Edge>
    decreases triangles.len(),
{
    if triangles.len() == 0 {
        Seq::empty()
    } else {
        mesh_edges(triangles.drop_last()) + triangle_edges(triangles.last())
    }
}

/// `(x, y)` is one of the three slots of `t`.
pub open spec fn has_slot(t: Triangle, x: u32, y: u32) -> bool {
    ||| (x == t.0 && y == t.1)
    ||| (x == t.1 && y == t.2)
    ||| (x == t.2 && y == t.0)
}

/// How many edges the slot `(x, y)` contributes.
pub open spec fn slot_count(x: u32, y: u32) -> nat {
    if x < y {
        1
    } else {
        0
    }
}

/// A triangle contributes one edge for each of its slots `(x, y)` with
/// `x < y`, and so at most three. (It never contributes exactly three: the
/// indices cannot rise all the way round.)
pub proof fn lemma_triangle_edge_count(t: Triangle)
    ensures
        triangle_edges(t).len() == slot_count(t.0, t.1) + slot_count(t.1, t.2) + slot_count(
            t.2,
            t.0,
        ),
        triangle_edges(t).len() <= 2,
{
}

/// An edge is among those of a triangle exactly when it is one of the
/// triangle's slots and its first index is the smaller one.
pub proof fn lemma_triangle_edge_membership(t: Triangle, e: Edge)
    ensures
        triangle_edges(t).contains(e) <==> has_slot(t, e.from, e.to) && e.from < e.to,
{
    let a = slot_edges(t.0, t.1);
    let b = slot_edges(t.1, t.2);
    let c = slot_edges(t.2, t.0);
    let all = triangle_edges(t);
    if all.contains(e) {
        let i = choose|i: int| 0 <= i < all.len() && all[i] == e;
        assert(all[i] == e);
    }
    if has_slot(t, e.from, e.to) && e.from < e.to {
        if e.from == t.0 && e.to == t.1 {
            assert(all[0] == e);
        } else if e.from == t.1 && e.to == t.2 {
            assert(all[a.len() as int] == e);
        } else {
            assert(all[(a.len() + b.len()) as int] == e);
        }
    }
}

/// Adding a triangle at the end adds its edges at the end.
pub proof fn lemma_mesh_edges_push(triangles: Seq<Triangle>, t: Triangle)
    ensures
        mesh_edges(triangles.push(t)) == mesh_edges(triangles) + triangle_edges(t),
{
    assert(triangles.push(t).drop_last() =~= triangles);
}

/// The edges come in triangle order: those of a list made of two parts are
/// the edges of the first part followed by those of the second.
pub proof fn lemma_mesh_edges_concat(first: Seq<Triangle>, second: Seq<Triangle>)
    ensures
        mesh_edges(first + second) == mesh_edges(first) + mesh_edges(second),
    decreases second.len(),
{
    if second.len() == 0 {
        assert(first + second =~= first);
    } else {
        lemma_mesh_edges_concat(first, second.drop_last());
        assert((first + second).drop_last() =~= first + second.drop_last());
        assert((first + second).last() == second.last());
        assert(mesh_edges(first + second) =~= mesh_edges(first) + mesh_edges(second));
    }
}

/// A list of `T` triangles has between 0 and `3 T` edges: one per slot at
/// most. Since no triangle fills all three of its slots, it has in fact no
/// more than `2 T`.
pub proof fn lemma_edge_count_bound(triangles: Seq<Triangle>)
    ensures
        0 <= mesh_edges(triangles).len() <= 3 * triangles.len(),
        mesh_edges(triangles).len() <= 2 * triangles.len(),
    decreases triangles.len(),
{
    if triangles.len() > 0 {
        lemma_edge_count_bound(triangles.drop_last());
        lemma_triangle_edge_count(triangles.last());
    }
}

/// Every listed edge runs from the smaller index to the larger.
pub proof fn lemma_edges_ascend(triangles: Seq<Triangle>)
    ensures
        forall|i: int|
            0 <= i < mesh_edges(triangles).len() ==> (#[trigger] mesh_edges(triangles)[i]).from
                < mesh_edges(triangles)[i].to,
    decreases triangles.len(),
{
    if triangles.len() > 0 {
        lemma_edges_ascend(triangles.drop_last());
        let head = mesh_edges(triangles.drop_last());
        let tail = triangle_edges(triangles.last());
        assert forall|i: int| 0 <= i < mesh_edges(triangles).len() implies (
        #[trigger] mesh_edges(triangles)[i]).from < mesh_edges(triangles)[i].to by {
            if i >= head.len() {
                let e = tail[i - head.len()];
                assert(tail.contains(e));
                lemma_triangle_edge_membership(triangles.last(), e);
            }
        }
    }
}

/// An edge is listed exactly when some triangle has it as a slot `(x, y)`
/// with `x < y`.
pub proof fn lemma_edge_membership(triangles: Seq<Triangle>, e: Edge)
    ensures
        mesh_edges(triangles).contains(e) <==> e.from < e.to && exists|k: int|
            0 <= k < triangles.len() && has_slot(#[trigger] triangles[k], e.from, e.to),
    decreases triangles.len(),
{
    if triangles.len() > 0 {
        let front = triangles.drop_last();
        let t = triangles.last();
        let head = mesh_edges(front);
        let tail = triangle_edges(t);
        let all = mesh_edges(triangles);
        lemma_edge_membership(front, e);
        lemma_triangle_edge_membership(t, e);
        if all.contains(e) {
            let i = choose|i: int| 0 <= i < all.len() && all[i] == e;
            if i < head.len() {
                assert(head[i] == e);
                let k = choose|k: int|
                    0 <= k < front.len() && has_slot(#[trigger] front[k], e.from, e.to);
                assert(triangles[k] == front[k]);
            } else {
                assert(tail[i - head.len()] == e);
                assert(has_slot(triangles[triangles.len() - 1], e.from, e.to));
            }
        }
        if e.from < e.to && exists|k: int|
            0 <= k < triangles.len() && has_slot(#[trigger] triangles[k], e.from, e.to) {
            let k = choose|k: int|
                0 <= k < triangles.len() && has_slot(#[trigger] triangles[k], e.from, e.to);
            if k < front.len() {
                assert(has_slot(front[k], e.from, e.to));
                let i = choose|i: int| 0 <= i < head.len() && head[i] == e;
                assert(all[i] == e);
            } else {
                let i = choose|i: int| 0 <= i < tail.len() && tail[i] == e;
                assert(all[head.len() + i] == e);
            }
        }
    }
}

} // verus!
