use vstd::prelude::*;

verus! {

/// One side of a face: an index into the edge table, and whether the face
/// walks that edge from its second vertex to its first.
pub type Side = (usize, bool);

/// A mesh whose faces share their edges.
///
/// `V` is the type of a vertex position and `C` the type of a colour; the
/// mesh itself only records how the pieces refer to each other.
#[derive(Debug)]
pub struct Mesh<V, C> {
    pub vertices: Vec<V>,
    pub edges: Vec<(usize, usize)>,
    pub lines: Vec<(usize, C)>,
    pub triangles: Vec<([Side; 3], C)>,
    pub parallelograms: Vec<([Side; 4], C)>,
}

/// Why a mesh was refused.
#[derive(Debug, Clone, Copy, PartialEq, Eq)]
pub enum MeshError {
    /// An edge, or a primitive, names a vertex that is not in the pool.
    DanglingVertex,
    /// A face names an edge that is not in the edge table.
    DanglingEdge,
}

/// The vertex at which a face enters the given side.
pub open spec fn side_start(edges: Seq<(usize, usize)>, side: Side) -> usize {
    if side.1 {
        edges[side.0 as int].1
    } else {
        edges[side.0 as int].0
    }
}

/// The vertex at which a face leaves the given side.
pub open spec fn side_end(edges: Seq<(usize, usize)>, side: Side) -> usize {
    if side.1 {
        edges[side.0 as int].0
    } else {
        edges[side.0 as int].1
    }
}

/// Every edge names two vertices of a pool of `n_vertices`.
pub open spec fn edges_in_range(edges: Seq<(usize, usize)>, n_vertices: nat) -> bool {
    forall|e: int| 0 <= e < edges.len() ==> #[trigger] edges[e].0 < n_vertices && edges[e].1 < n_vertices
}

/// Every side names an edge of a table of `n_edges`.
pub open spec fn sides_in_range(sides: Seq<Side>, n_edges: nat) -> bool {
    forall|i: int| 0 <= i < sides.len() ==> #[trigger] sides[i].0 < n_edges
}

/// Walking the sides in order, each one ends where the next one starts, and
/// the last one ends where the first one starts.
pub open spec fn closed_loop(edges: Seq<(usize, usize)>, sides: Seq<Side>) -> bool {
    forall|i: int|
        0 <= i < sides.len() ==> side_end(edges, #[trigger] sides[i]) == side_start(
            edges,
            sides[(i + 1) % (sides.len() as int)],
        )
}

/// Every edge index that a line names exists.
pub open spec fn lines_in_range<C>(lines: Seq<(usize, C)>, n_edges: nat) -> bool {
    forall|l: int| 0 <= l < lines.len() ==> #[trigger] lines[l].0 < n_edges
}

/// Every edge index that a face names exists.
pub open spec fn faces_in_range<F, C>(faces: Seq<(F, C)>, n_edges: nat) -> bool where F: View<V = Seq<Side>> {
    forall|f: int| 0 <= f < faces.len() ==> sides_in_range((#[trigger] faces[f]).0@, n_edges)
}

/// No edge refers to a missing vertex and no face to a missing edge.
pub open spec fn parts_valid<C>(
    n_vertices: nat,
    edges: Seq<(usize, usize)>,
    lines: Seq<(usize, C)>,
    triangles: Seq<([Side; 3], C)>,
    parallelograms: Seq<([Side; 4], C)>,
) -> bool {
    &&& edges_in_range(edges, n_vertices)
    &&& lines_in_range(lines, edges.len())
    &&& faces_in_range(triangles, edges.len())
    &&& faces_in_range(parallelograms, edges.len())
}

impl<V, C> Mesh<V, C> {
    /// No edge refers to a missing vertex and no face to a missing edge.
    pub open spec fn wf(&self) -> bool {
        parts_valid(
            self.vertices.len() as nat,
            self.edges@,
            self.lines@,
            self.triangles@,
            self.parallelograms@,
        )
    }

    /// The sides of every triangle and parallelogram form a closed loop.
    pub open spec fn faces_closed(&self) -> bool {
        &&& forall|t: int|
            0 <= t < self.triangles.len() ==> closed_loop(
                self.edges@,
                (#[trigger] self.triangles@[t]).0@,
            )
        &&& forall|p: int|
            0 <= p < self.parallelograms.len() ==> closed_loop(
                self.edges@,
                (#[trigger] self.parallelograms@[p]).0@,
            )
    }
}

/// Whether every side in `sides` names an edge below `n_edges`.
fn check_sides(sides: &[Side], n_edges: usize) -> (r: bool)
    ensures
        r == sides_in_range(sides@, n_edges as nat),
{
    let mut i: usize = 0;
    while i < sides.len()
        invariant
            i <= sides@.len(),
            sides_in_range(sides@.subrange(0, i as int), n_edges as nat),
        decreases sides@.len() - i,
    {
        if sides[i].0 >= n_edges {
            assert(sides@[i as int].0 >= n_edges);
            return false;
        }
        i += 1;
        assert forall|j: int| 0 <= j < i implies #[trigger] sides@.subrange(0, i as int)[j].0
            < n_edges by {
            if j < i - 1 {
                assert(sides@.subrange(0, i as int)[j] == sides@.subrange(0, i - 1)[j]);
            }
        }
    }
    assert(sides@.subrange(0, i as int) =~= sides@);
    true
}

impl<V, C> Mesh<V, C> {
    /// Builds a mesh from its parts, refusing one in which an edge names a
    /// missing vertex or a face names a missing edge.
    pub fn new(
        vertices: Vec<V>,
        edges: Vec<(usize, usize)>,
        lines: Vec<(usize, C)>,
        triangles: Vec<([Side; 3], C)>,
        parallelograms: Vec<([Side; 4], C)>,
    ) -> (r: Result<Mesh<V, C>, MeshError>)
        ensures
            match r {
                Ok(m) => {
                    &&& m.wf()
                    &&& m.vertices@ == vertices@
                    &&& m.edges@ == edges@
                    &&& m.lines@ == lines@
                    &&& m.triangles@ == triangles@
                    &&& m.parallelograms@ == parallelograms@
                },
                Err(e) => e == MeshError::DanglingVertex && !edges_in_range(
                    edges@,
                    vertices.len() as nat,
                ) || e == MeshError::DanglingEdge && edges_in_range(
                    edges@,
                    vertices.len() as nat,
                ),
            },
            r is Err <==> !parts_valid(
                vertices.len() as nat,
                edges@,
                lines@,
                triangles@,
                parallelograms@,
            ),
    {
        let nv = vertices.len();
        let ne = edges.len();
        let mut e: usize = 0;
        while e < ne
            invariant
                ne == edges.len(),
                nv == vertices.len(),
                e <= ne,
                forall|k: int| 0 <= k < e ==> #[trigger] edges@[k].0 < nv && edges@[k].1 < nv,
            decreases ne - e,
        {
            if edges[e].0 >= nv || edges[e].1 >= nv {
                assert(!(edges@[e as int].0 < nv && edges@[e as int].1 < nv));
                return Err(MeshError::DanglingVertex);
            }
            e += 1;
        }
        let mut l: usize = 0;
        while l < lines.len()
            invariant
                ne == edges.len(),
                nv == vertices.len(),
                edges_in_range(edges@, nv as nat),
                l <= lines.len(),
                forall|k: int| 0 <= k < l ==> #[trigger] lines@[k].0 < ne,
            decreases lines.len() - l,
        {
            if lines[l].0 >= ne {
                assert(lines@[l as int].0 >= ne);
                return Err(MeshError::DanglingEdge);
            }
            l += 1;
        }
        let mut t: usize = 0;
        while t < triangles.len()
            invariant
                ne == edges.len(),
                nv == vertices.len(),
                edges_in_range(edges@, nv as nat),
                forall|k: int| 0 <= k < lines.len() ==> #[trigger] lines@[k].0 < ne,
                t <= triangles.len(),
                forall|k: int| 0 <= k < t ==> sides_in_range((#[trigger] triangles@[k]).0@, ne as nat),
            decreases triangles.len() - t,
        {
            if !check_sides(&triangles[t].0, ne) {
                assert(!sides_in_range(triangles@[t as int].0@, ne as nat));
                return Err(MeshError::DanglingEdge);
            }
            t += 1;
        }
        let mut p: usize = 0;
        while p < parallelograms.len()
            invariant
                ne == edges.len(),
                nv == vertices.len(),
                edges_in_range(edges@, nv as nat),
                forall|k: int| 0 <= k < lines.len() ==> #[trigger] lines@[k].0 < ne,
                forall|k: int| 0 <= k < triangles.len() ==> sides_in_range((#[trigger] triangles@[k]).0@, ne as nat),
                p <= parallelograms.len(),
                forall|k: int|
                    0 <= k < p ==> sides_in_range((#[trigger] parallelograms@[k]).0@, ne as nat),
            decreases parallelograms.len() - p,
        {
            if !check_sides(&parallelograms[p].0, ne) {
                assert(!sides_in_range(parallelograms@[p as int].0@, ne as nat));
                return Err(MeshError::DanglingEdge);
            }
            p += 1;
        }
        Ok(Mesh { vertices, edges, lines, triangles, parallelograms })
    }
}

/// The twelve edges of a cuboid whose corners are numbered as
/// `Mesh::cuboid` documents.
pub open spec fn cuboid_edges() -> Seq<(usize, usize)> {
    seq![
        (0usize, 1usize), (1, 2), (2, 3), (3, 4), (4, 5), (5, 6),
        (6, 7), (7, 0), (0, 3), (1, 6), (2, 5), (4, 7),
    ]
}

/// The six faces of that cuboid, each as four sides over `cuboid_edges`.
pub open spec fn cuboid_faces() -> Seq<Seq<Side>> {
    seq![
        seq![(0usize, false), (1, false), (2, false), (8, true)],
        seq![(0usize, false), (9, false), (6, false), (7, false)],
        seq![(1usize, false), (10, false), (5, false), (9, true)],
        seq![(2usize, false), (3, false), (4, false), (10, true)],
        seq![(3usize, false), (11, false), (7, false), (8, false)],
        seq![(4usize, false), (5, false), (6, false), (11, true)],
    ]
}

/// Four sides over the cuboid's edges, each ending where the next starts,
/// form a closed loop.
proof fn lemma_face_closed(f: Seq<Side>)
    requires
        f.len() == 4,
        forall|k: int| 0 <= k < 3 ==> side_end(cuboid_edges(), #[trigger] f[k]) == side_start(cuboid_edges(), f[k + 1]),
        side_end(cuboid_edges(), f[3]) == side_start(cuboid_edges(), f[0]),
        sides_in_range(f, 12),
    ensures
        closed_loop(cuboid_edges(), f),
{
    assert forall|k: int| 0 <= k < 4 implies side_end(cuboid_edges(), #[trigger] f[k]) == side_start(
        cuboid_edges(),
        f[(k + 1) % 4],
    ) by {
        assert((k + 1) % 4 == if k == 3 { 0 } else { k + 1 });
    }
}

/// Each face of the cuboid walks a closed loop of existing edges.
proof fn lemma_cuboid_faces_closed()
    ensures
        forall|p: int|
            0 <= p < 6 ==> closed_loop(cuboid_edges(), #[trigger] cuboid_faces()[p])
                && sides_in_range(cuboid_faces()[p], 12),
{
    let e = cuboid_edges();
    let fs = cuboid_faces();
    assert forall|p: int| 0 <= p < 6 implies closed_loop(e, #[trigger] fs[p]) && sides_in_range(fs[p], 12) by {
        let f = fs[p];
        assert(sides_in_range(f, 12));
        assert(side_end(e, f[0]) == side_start(e, f[1]));
        assert(side_end(e, f[1]) == side_start(e, f[2]));
        assert(side_end(e, f[2]) == side_start(e, f[3]));
        assert(side_end(e, f[3]) == side_start(e, f[0]));
        lemma_face_closed(f);
    }
}

impl<V, C: Copy> Mesh<V, C> {
    /// The mesh of a cuboid, from its eight corners.
    ///
    /// The corners are taken in this order, writing each by the signs of
    /// its coordinates: `+++`, `++-`, `+--`, `+-+`, `--+`, `---`, `-+-`,
    /// `-++`. Every edge is also drawn as a line in `color`, and every face
    /// is filled with `face_color`.
    pub fn cuboid(corners: Vec<V>, color: C, face_color: C) -> (r: Mesh<V, C>)
        requires
            corners.len() == 8,
        ensures
            r.wf(),
            r.faces_closed(),
            r.vertices@ == corners@,
            r.edges@ == cuboid_edges(),
            r.lines.len() == 12,
            forall|l: int| 0 <= l < 12 ==> #[trigger] r.lines@[l] == (l as usize, color),
            r.triangles.len() == 0,
            r.parallelograms.len() == 6,
            forall|p: int|
                0 <= p < 6 ==> (#[trigger] r.parallelograms@[p]).0@ == cuboid_faces()[p]
                    && r.parallelograms@[p].1 == face_color,
    {
        let mut edges: Vec<(usize, usize)> = Vec::new();
        edges.push((0, 1));
        edges.push((1, 2));
        edges.push((2, 3));
        edges.push((3, 4));
        edges.push((4, 5));
        edges.push((5, 6));
        edges.push((6, 7));
        edges.push((7, 0));
        edges.push((0, 3));
        edges.push((1, 6));
        edges.push((2, 5));
        edges.push((4, 7));
        assert(edges@ =~= cuboid_edges());

        let mut lines: Vec<(usize, C)> = Vec::new();
        let mut i: usize = 0;
        while i < edges.len()
            invariant
                edges@ == cuboid_edges(),
                i <= 12,
                lines.len() == i,
                forall|l: int| 0 <= l < i ==> #[trigger] lines@[l] == (l as usize, color),
            decreases 12 - i,
        {
            lines.push((i, color));
            i += 1;
        }

        let mut parallelograms: Vec<([Side; 4], C)> = Vec::new();
        parallelograms.push(([(0, false), (1, false), (2, false), (8, true)], face_color));
        parallelograms.push(([(0, false), (9, false), (6, false), (7, false)], face_color));
        parallelograms.push(([(1, false), (10, false), (5, false), (9, true)], face_color));
        parallelograms.push(([(2, false), (3, false), (4, false), (10, true)], face_color));
        parallelograms.push(([(3, false), (11, false), (7, false), (8, false)], face_color));
        parallelograms.push(([(4, false), (5, false), (6, false), (11, true)], face_color));
        assert forall|p: int| 0 <= p < 6 implies (#[trigger] parallelograms@[p]).0@ == cuboid_faces()[p] by {
            assert(parallelograms@[p].0@ =~= cuboid_faces()[p]);
        }

        proof {
            lemma_cuboid_faces_closed();
        }
        let r = Mesh { vertices: corners, edges, lines, triangles: Vec::new(), parallelograms };
        assert forall|p: int| 0 <= p < 6 implies closed_loop(
            r.edges@,
            (#[trigger] r.parallelograms@[p]).0@,
        ) && sides_in_range(r.parallelograms@[p].0@, 12) by {
            assert(r.parallelograms@[p].0@ == cuboid_faces()[p]);
        }
        r
    }
}

} // verus!
