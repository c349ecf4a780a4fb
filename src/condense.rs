use vstd::prelude::*;

use crate::mesh::{edges_in_range, Mesh};

verus! {

/// `pooled` holds the vertices of `vertices` with repeats left out, as
/// `same` tells them apart, and `map` sends each vertex to its place there:
/// - each vertex goes to the first pooled vertex that `same` matched with
///   it, or to a copy of itself, placed after every earlier one that did not
///   match;
/// - pooled vertex `j` is the copy of vertex `origin[j]`;
/// - no pooled vertex matched an earlier one.
pub open spec fn pooled_by<V, F: Fn(V, V) -> bool>(
    vertices: Seq<V>,
    pooled: Seq<V>,
    map: Seq<usize>,
    origin: Seq<int>,
    same: F,
) -> bool {
    &&& map.len() == vertices.len()
    &&& forall|i: int|
        0 <= i < vertices.len() ==> {
            &&& #[trigger] map[i] < pooled.len()
            &&& pooled[map[i] as int] == vertices[i] || same.ensures(
                (pooled[map[i] as int], vertices[i]),
                true,
            )
            &&& forall|j: int| 0 <= j < map[i] ==> same.ensures((#[trigger] pooled[j], vertices[i]), false)
        }
    &&& origin.len() == pooled.len()
    &&& forall|j: int|
        0 <= j < pooled.len() ==> {
            &&& 0 <= #[trigger] origin[j] < vertices.len()
            &&& map[origin[j]] == j
            &&& pooled[j] == vertices[origin[j]]
        }
    &&& forall|j: int, k: int|
        0 <= j < k < pooled.len() ==> same.ensures((#[trigger] pooled[j], #[trigger] pooled[k]), false)
}

/// A copy of `v`.
fn copy_all<T: Copy>(v: &Vec<T>) -> (r: Vec<T>)
    ensures
        r@ == v@,
{
    let mut r: Vec<T> = Vec::new();
    let mut i: usize = 0;
    while i < v.len()
        invariant
            i <= v.len(),
            r@ == v@.subrange(0, i as int),
        decreases v.len() - i,
    {
        r.push(v[i]);
        i += 1;
        assert(r@ =~= v@.subrange(0, i as int));
    }
    assert(v@.subrange(0, i as int) =~= v@);
    r
}

/// The index of the first of `pooled` that `same` matches with `v`, if any.
fn position<V: Copy, F: Fn(V, V) -> bool>(pooled: &Vec<V>, v: V, same: &F) -> (r: Option<usize>)
    requires
        forall|a: V, b: V| #[trigger] same.requires((a, b)),
    ensures
        match r {
            Some(k) => k < pooled.len() && same.ensures((pooled@[k as int], v), true) && forall|j: int|
                0 <= j < k ==> same.ensures((#[trigger] pooled@[j], v), false),
            None => forall|j: int| 0 <= j < pooled.len() ==> same.ensures((#[trigger] pooled@[j], v), false),
        },
{
    let mut k: usize = 0;
    while k < pooled.len()
        invariant
            forall|a: V, b: V| #[trigger] same.requires((a, b)),
            k <= pooled.len(),
            forall|j: int| 0 <= j < k ==> same.ensures((#[trigger] pooled@[j], v), false),
        decreases pooled.len() - k,
    {
        if same(pooled[k], v) {
            return Some(k);
        }
        k += 1;
    }
    None
}

/// The same mesh with repeated vertices merged: `same(a, b)` tells whether
/// two vertices are one. Each edge is redirected to the merged vertices;
/// the faces, which name edges, are unchanged.
pub fn condense_mesh<V: Copy, C: Copy, F: Fn(V, V) -> bool>(mesh: &Mesh<V, C>, same: F) -> (r: Mesh<
    V,
    C,
>)
    requires
        mesh.wf(),
        forall|a: V, b: V| #[trigger] same.requires((a, b)),
    ensures
        r.wf(),
        r.lines@ == mesh.lines@,
        r.triangles@ == mesh.triangles@,
        r.parallelograms@ == mesh.parallelograms@,
        r.edges.len() == mesh.edges.len(),
        exists|map: Seq<usize>, origin: Seq<int>|
            {
                &&& pooled_by(mesh.vertices@, r.vertices@, map, origin, same)
                &&& forall|e: int|
                    0 <= e < mesh.edges.len() ==> #[trigger] r.edges@[e] == (
                        map[mesh.edges@[e].0 as int],
                        map[mesh.edges@[e].1 as int],
                    )
            },
{
    let mut mapping: Vec<usize> = Vec::new();
    let mut vertices: Vec<V> = Vec::new();
    let ghost mut origin: Seq<int> = seq![];
    let mut i: usize = 0;
    while i < mesh.vertices.len()
        invariant
            forall|a: V, b: V| #[trigger] same.requires((a, b)),
            i <= mesh.vertices.len(),
            pooled_by(mesh.vertices@.subrange(0, i as int), vertices@, mapping@, origin, same),
        decreases mesh.vertices.len() - i,
    {
        let v = mesh.vertices[i];
        let ghost before = vertices@;
        let ghost old_map = mapping@;
        let ghost done = mesh.vertices@.subrange(0, i as int);
        let ghost next = mesh.vertices@.subrange(0, i + 1);
        assert(next =~= done.push(v));
        match position(&vertices, v, &same) {
            Some(index) => {
                mapping.push(index);
            },
            None => {
                let index = vertices.len();
                vertices.push(v);
                mapping.push(index);
                assert forall|k: int| 0 <= k < next.len() implies {
                    &&& #[trigger] mapping@[k] < vertices.len()
                    &&& vertices@[mapping@[k] as int] == next[k] || same.ensures(
                        (vertices@[mapping@[k] as int], next[k]),
                        true,
                    )
                    &&& forall|j: int| 0 <= j < mapping@[k] ==> same.ensures((#[trigger] vertices@[j], next[k]), false)
                } by {
                    if k < i {
                        assert(mapping@[k] == old_map[k] && next[k] == done[k]);
                        assert forall|j: int| 0 <= j < mapping@[k] implies same.ensures((#[trigger] vertices@[j], next[k]), false) by {
                            assert(vertices@[j] == before[j]);
                        }
                    } else {
                        assert forall|j: int| 0 <= j < mapping@[k] implies same.ensures((#[trigger] vertices@[j], next[k]), false) by {
                            assert(vertices@[j] == before[j]);
                        }
                    }
                }
                proof {
                    origin = origin.push(i as int);
                }
                assert forall|j: int, k: int| 0 <= j < k < vertices.len() implies same.ensures(
                    (#[trigger] vertices@[j], #[trigger] vertices@[k]),
                    false,
                ) by {
                    assert(vertices@[j] == before[j]);
                    if k < index {
                        assert(vertices@[k] == before[k]);
                    }
                }
            },
        }
        i += 1;
    }
    assert(mesh.vertices@.subrange(0, i as int) =~= mesh.vertices@);

    let mut edges: Vec<(usize, usize)> = Vec::new();
    let mut e: usize = 0;
    while e < mesh.edges.len()
        invariant
            mesh.wf(),
            pooled_by(mesh.vertices@, vertices@, mapping@, origin, same),
            e <= mesh.edges.len(),
            edges.len() == e,
            forall|k: int|
                0 <= k < e ==> #[trigger] edges@[k] == (
                    mapping@[mesh.edges@[k].0 as int],
                    mapping@[mesh.edges@[k].1 as int],
                ),
            edges_in_range(edges@, vertices.len() as nat),
        decreases mesh.edges.len() - e,
    {
        let (a, b) = mesh.edges[e];
        assert(a < mesh.vertices.len() && b < mesh.vertices.len());
        assert(mapping@[a as int] < vertices.len() && mapping@[b as int] < vertices.len());
        edges.push((mapping[a], mapping[b]));
        e += 1;
    }
    let r = Mesh {
        vertices,
        edges,
        lines: copy_all(&mesh.lines),
        triangles: copy_all(&mesh.triangles),
        parallelograms: copy_all(&mesh.parallelograms),
    };
    assert(pooled_by(mesh.vertices@, r.vertices@, mapping@, origin, same));
    assert(forall|e: int|
        0 <= e < mesh.edges.len() ==> #[trigger] r.edges@[e] == (
            mapping@[mesh.edges@[e].0 as int],
            mapping@[mesh.edges@[e].1 as int],
        ));
    r
}

} // verus!
