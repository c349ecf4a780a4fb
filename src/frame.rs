use vstd::prelude::*;

use crate::mesh::{side_start, Mesh, Side};

verus! {

/// A curve as a face walks it: as computed, or back to front.
pub open spec fn oriented<S>(curve: Seq<S>, reversed: bool) -> Seq<S> {
    if reversed {
        curve.reverse()
    } else {
        curve
    }
}

/// The boundary of a face: the curves of its sides, each oriented the way
/// the face walks it, one after the other.
pub open spec fn outline_of<S>(curves: Seq<Vec<S>>, sides: Seq<Side>) -> Seq<S>
    decreases sides.len(),
{
    if sides.len() == 0 {
        seq![]
    } else {
        outline_of(curves, sides.drop_last()) + oriented(
            curves[sides.last().0 as int]@,
            sides.last().1,
        )
    }
}

/// The screen curve of every edge of `mesh`, one call of `curve` per edge,
/// on the world positions of the edge's two vertices. Faces that share an
/// edge then share its curve.
pub fn edge_curves<V: Copy, C, S, F>(mesh: &Mesh<V, C>, world: &Vec<V>, curve: F) -> (r: Vec<
    Vec<S>,
>) where F: Fn(V, V) -> Vec<S>
    requires
        mesh.wf(),
        world.len() == mesh.vertices.len(),
        forall|a: V, b: V| #[trigger] curve.requires((a, b)),
    ensures
        r.len() == mesh.edges.len(),
        forall|e: int|
            0 <= e < r.len() ==> curve.ensures(
                (world@[mesh.edges@[e].0 as int], world@[mesh.edges@[e].1 as int]),
                #[trigger] r@[e],
            ),
{
    let mut r: Vec<Vec<S>> = Vec::new();
    let mut e: usize = 0;
    while e < mesh.edges.len()
        invariant
            mesh.wf(),
            world.len() == mesh.vertices.len(),
            forall|a: V, b: V| #[trigger] curve.requires((a, b)),
            e <= mesh.edges.len(),
            r.len() == e,
            forall|k: int|
                0 <= k < e ==> curve.ensures(
                    (world@[mesh.edges@[k].0 as int], world@[mesh.edges@[k].1 as int]),
                    #[trigger] r@[k],
                ),
        decreases mesh.edges.len() - e,
    {
        let (a, b) = mesh.edges[e];
        assert(mesh.edges@[e as int].0 < mesh.vertices.len());
        let points = curve(world[a], world[b]);
        r.push(points);
        e += 1;
    }
    r
}

/// The boundary of a face, from the curves of its sides: each curve is
/// taken as computed, or reversed where the face walks its edge backwards.
pub fn face_outline<S: Copy>(curves: &Vec<Vec<S>>, sides: &[Side]) -> (r: Vec<S>)
    requires
        forall|i: int| 0 <= i < sides@.len() ==> #[trigger] sides@[i].0 < curves.len(),
    ensures
        r@ == outline_of(curves@, sides@),
{
    let mut r: Vec<S> = Vec::new();
    let mut i: usize = 0;
    while i < sides.len()
        invariant
            forall|k: int| 0 <= k < sides@.len() ==> #[trigger] sides@[k].0 < curves.len(),
            i <= sides@.len(),
            r@ == outline_of(curves@, sides@.subrange(0, i as int)),
        decreases sides@.len() - i,
    {
        let (e, reversed) = sides[i];
        let c = &curves[e];
        let ghost before = r@;
        let n = c.len();
        let mut j: usize = 0;
        while j < n
            invariant
                n == c.len(),
                j <= n,
                r@ == before + oriented(c@, reversed).subrange(0, j as int),
            decreases n - j,
        {
            if reversed {
                r.push(c[n - 1 - j]);
            } else {
                r.push(c[j]);
            }
            j += 1;
            assert(oriented(c@, reversed).subrange(0, j as int) =~= oriented(c@, reversed).subrange(
                0,
                j - 1,
            ).push(oriented(c@, reversed)[j - 1]));
        }
        i += 1;
        proof {
            let s = sides@.subrange(0, i as int);
            assert(s.drop_last() =~= sides@.subrange(0, i - 1));
            assert(oriented(c@, reversed).subrange(0, j as int) =~= oriented(c@, reversed));
        }
    }
    assert(sides@.subrange(0, i as int) =~= sides@);
    r
}

/// The world positions of the corners of a face: the vertex at which it
/// enters each of its sides.
pub open spec fn corners_of<V>(edges: Seq<(usize, usize)>, world: Seq<V>, sides: Seq<Side>) -> Seq<V> {
    sides.map_values(|s: Side| world[side_start(edges, s) as int])
}

/// One thing to draw in a frame.
#[derive(Debug)]
pub enum DrawCommand<S, C> {
    /// The curve of an edge, as a line.
    Curve { edge: usize, color: C },
    /// A face, filled; `behind` marks a face that surrounds the viewer.
    Polygon { outline: Vec<S>, behind: bool, color: C },
}

/// `cmd` fills the given outline with the given colour.
pub open spec fn fills<S, C>(cmd: DrawCommand<S, C>, outline: Seq<S>, color: C) -> bool {
    cmd matches DrawCommand::Polygon { outline: o, color: c, .. } && o@ == outline && c == color
}

/// The `behind` mark of a polygon command.
pub open spec fn behind_mark<S, C>(cmd: DrawCommand<S, C>) -> bool {
    match cmd {
        DrawCommand::Polygon { behind, .. } => behind,
        DrawCommand::Curve { .. } => false,
    }
}

/// `cmd` fills the outline of `face` with its colour, and carries as its
/// `behind` mark what `test` returned on the face's corners.
pub open spec fn face_command<V, S, C, F, const K: usize>(
    cmd: DrawCommand<S, C>,
    curves: Seq<Vec<S>>,
    edges: Seq<(usize, usize)>,
    world: Seq<V>,
    face: ([Side; K], C),
    test: F,
) -> bool where F: Fn([V; K]) -> bool {
    &&& fills(cmd, outline_of(curves, face.0@), face.1)
    &&& exists|cs: [V; K]|
        cs@ == corners_of(edges, world, face.0@) && test.ensures((cs,), behind_mark(cmd))
}

/// The world position at which a face enters a side.
fn corner<V: Copy, C>(mesh: &Mesh<V, C>, world: &Vec<V>, side: Side) -> (r: V)
    requires
        mesh.wf(),
        world.len() == mesh.vertices.len(),
        side.0 < mesh.edges.len(),
    ensures
        r == world@[side_start(mesh.edges@, side) as int],
{
    assert(mesh.edges@[side.0 as int].0 < world.len() && mesh.edges@[side.0 as int].1 < world.len());
    let (a, b) = mesh.edges[side.0];
    if side.1 {
        world[b]
    } else {
        world[a]
    }
}

/// What to draw for one frame of a mesh, given the world positions of its
/// vertices and the curve of each of its edges: first every line, as the
/// curve of its edge; then every triangle and every parallelogram, filled
/// inside the outline that its sides' curves make, and marked `behind` as
/// the test for its kind of face says of its corners.
pub fn plan_frame<V: Copy, S: Copy, C: Copy, T, Q>(
    mesh: &Mesh<V, C>,
    world: &Vec<V>,
    curves: &Vec<Vec<S>>,
    behind_triangle: T,
    behind_parallelogram: Q,
) -> (r: Vec<DrawCommand<S, C>>) where T: Fn([V; 3]) -> bool, Q: Fn([V; 4]) -> bool
    requires
        mesh.wf(),
        world.len() == mesh.vertices.len(),
        curves.len() == mesh.edges.len(),
        forall|cs: [V; 3]| #[trigger] behind_triangle.requires((cs,)),
        forall|cs: [V; 4]| #[trigger] behind_parallelogram.requires((cs,)),
    ensures
        r.len() == mesh.lines.len() + mesh.triangles.len() + mesh.parallelograms.len(),
        forall|l: int|
            0 <= l < mesh.lines.len() ==> #[trigger] r@[l] == (DrawCommand::<S, C>::Curve {
                edge: mesh.lines@[l].0,
                color: mesh.lines@[l].1,
            }),
        forall|t: int|
            #![trigger mesh.triangles@[t]]
            0 <= t < mesh.triangles.len() ==> face_command(
                r@[mesh.lines.len() + t],
                curves@,
                mesh.edges@,
                world@,
                mesh.triangles@[t],
                behind_triangle,
            ),
        forall|p: int|
            #![trigger mesh.parallelograms@[p]]
            0 <= p < mesh.parallelograms.len() ==> face_command(
                r@[mesh.lines.len() + mesh.triangles.len() + p],
                curves@,
                mesh.edges@,
                world@,
                mesh.parallelograms@[p],
                behind_parallelogram,
            ),
{
    let mut r: Vec<DrawCommand<S, C>> = Vec::new();
    let mut l: usize = 0;
    while l < mesh.lines.len()
        invariant
            l <= mesh.lines.len(),
            r.len() == l,
            forall|j: int|
                0 <= j < l ==> #[trigger] r@[j] == (DrawCommand::<S, C>::Curve {
                    edge: mesh.lines@[j].0,
                    color: mesh.lines@[j].1,
                }),
        decreases mesh.lines.len() - l,
    {
        let (edge, color) = mesh.lines[l];
        r.push(DrawCommand::Curve { edge, color });
        l += 1;
    }
    let nl = mesh.lines.len();
    let mut t: usize = 0;
    while t < mesh.triangles.len()
        invariant
            mesh.wf(),
            world.len() == mesh.vertices.len(),
            curves.len() == mesh.edges.len(),
            forall|cs: [V; 3]| #[trigger] behind_triangle.requires((cs,)),
            nl == mesh.lines.len(),
            t <= mesh.triangles.len(),
            r.len() == nl + t,
            forall|j: int|
                0 <= j < nl ==> #[trigger] r@[j] == (DrawCommand::<S, C>::Curve {
                    edge: mesh.lines@[j].0,
                    color: mesh.lines@[j].1,
                }),
            forall|j: int|
                #![trigger mesh.triangles@[j]]
                0 <= j < t ==> face_command(
                    r@[nl + j],
                    curves@,
                    mesh.edges@,
                    world@,
                    mesh.triangles@[j],
                    behind_triangle,
                ),
        decreases mesh.triangles.len() - t,
    {
        let (sides, color) = mesh.triangles[t];
        assert(sides@ == mesh.triangles@[t as int].0@);
        assert(forall|i: int| 0 <= i < 3 ==> #[trigger] sides@[i].0 < mesh.edges.len());
        let c0 = corner(mesh, world, sides[0]);
        let c1 = corner(mesh, world, sides[1]);
        let c2 = corner(mesh, world, sides[2]);
        let cs = [c0, c1, c2];
        assert(cs@ =~= corners_of(mesh.edges@, world@, sides@));
        let behind = behind_triangle(cs);
        let outline = face_outline(curves, &sides);
        r.push(DrawCommand::Polygon { outline, behind, color });
        t += 1;
    }
    let nt = mesh.triangles.len();
    let mut p: usize = 0;
    while p < mesh.parallelograms.len()
        invariant
            mesh.wf(),
            world.len() == mesh.vertices.len(),
            curves.len() == mesh.edges.len(),
            forall|cs: [V; 4]| #[trigger] behind_parallelogram.requires((cs,)),
            nl == mesh.lines.len(),
            nt == mesh.triangles.len(),
            p <= mesh.parallelograms.len(),
            r.len() == nl + nt + p,
            forall|j: int|
                0 <= j < nl ==> #[trigger] r@[j] == (DrawCommand::<S, C>::Curve {
                    edge: mesh.lines@[j].0,
                    color: mesh.lines@[j].1,
                }),
            forall|j: int|
                #![trigger mesh.triangles@[j]]
                0 <= j < nt ==> face_command(
                    r@[nl + j],
                    curves@,
                    mesh.edges@,
                    world@,
                    mesh.triangles@[j],
                    behind_triangle,
                ),
            forall|j: int|
                #![trigger mesh.parallelograms@[j]]
                0 <= j < p ==> face_command(
                    r@[nl + nt + j],
                    curves@,
                    mesh.edges@,
                    world@,
                    mesh.parallelograms@[j],
                    behind_parallelogram,
                ),
        decreases mesh.parallelograms.len() - p,
    {
        let (sides, color) = mesh.parallelograms[p];
        assert(sides@ == mesh.parallelograms@[p as int].0@);
        assert(forall|i: int| 0 <= i < 4 ==> #[trigger] sides@[i].0 < mesh.edges.len());
        let c0 = corner(mesh, world, sides[0]);
        let c1 = corner(mesh, world, sides[1]);
        let c2 = corner(mesh, world, sides[2]);
        let c3 = corner(mesh, world, sides[3]);
        let cs = [c0, c1, c2, c3];
        assert(cs@ =~= corners_of(mesh.edges@, world@, sides@));
        let behind = behind_parallelogram(cs);
        let outline = face_outline(curves, &sides);
        r.push(DrawCommand::Polygon { outline, behind, color });
        p += 1;
    }
    r
}

} // verus!
