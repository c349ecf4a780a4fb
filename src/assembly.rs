use vstd::prelude::*;

use std::collections::HashMap;

use crate::mesh::{
    closed_loop, edges_in_range, side_end, side_start, sides_in_range, Mesh, MeshError, Side,
};

verus! {

broadcast use vstd::std_specs::hash::group_hash_axioms;

/// A primitive of a mesh object, by indices into that object's own vertices.
#[derive(Debug, Clone, Copy, PartialEq, Eq)]
pub enum Primitive {
    Point(usize),
    Line(usize, usize),
    Triangle(usize, usize, usize),
}

/// One object of a model: its vertices and the primitives drawn over them.
#[derive(Debug)]
pub struct MeshObject<V> {
    pub vertices: Vec<V>,
    pub primitives: Vec<Primitive>,
}

/// An undirected edge, written with its smaller vertex first.
pub open spec fn ordered(a: usize, b: usize) -> (usize, usize) {
    if b < a {
        (b, a)
    } else {
        (a, b)
    }
}

/// Whether a primitive only names vertices below `n`. A point is never
/// drawn, so it names nothing.
pub open spec fn primitive_in_range(p: Primitive, n: nat) -> bool {
    match p {
        Primitive::Point(_) => true,
        Primitive::Line(a, b) => a < n && b < n,
        Primitive::Triangle(a, b, c) => a < n && b < n && c < n,
    }
}

/// Whether every primitive of every object names vertices of that object.
pub open spec fn objects_in_range<V>(objects: Seq<MeshObject<V>>) -> bool {
    forall|o: int, k: int|
        0 <= o < objects.len() && 0 <= k < objects[o].primitives.len() ==> primitive_in_range(
            #[trigger] objects[o].primitives@[k],
            objects[o].vertices.len() as nat,
        )
}

/// The primitive with `offset` added to each of its vertex indices.
pub open spec fn shifted(p: Primitive, offset: nat) -> Primitive {
    match p {
        Primitive::Point(a) => Primitive::Point((a + offset) as usize),
        Primitive::Line(a, b) => Primitive::Line((a + offset) as usize, (b + offset) as usize),
        Primitive::Triangle(a, b, c) => Primitive::Triangle(
            (a + offset) as usize,
            (b + offset) as usize,
            (c + offset) as usize,
        ),
    }
}

/// The vertices of all objects, one object after the other.
pub open spec fn pooled_vertices<V>(objects: Seq<MeshObject<V>>) -> Seq<V>
    decreases objects.len(),
{
    if objects.len() == 0 {
        seq![]
    } else {
        pooled_vertices(objects.drop_last()) + objects.last().vertices@
    }
}

/// The primitives of all objects, with indices into the pooled vertices.
pub open spec fn pooled_primitives<V>(objects: Seq<MeshObject<V>>) -> Seq<Primitive>
    decreases objects.len(),
{
    if objects.len() == 0 {
        seq![]
    } else {
        let offset = pooled_vertices(objects.drop_last()).len();
        pooled_primitives(objects.drop_last()) + objects.last().primitives@.map_values(
            |p: Primitive| shifted(p, offset),
        )
    }
}

/// The undirected edges that a primitive draws, in the order it draws them.
pub open spec fn primitive_edges(p: Primitive) -> Seq<(usize, usize)> {
    match p {
        Primitive::Point(_) => seq![],
        Primitive::Line(a, b) => seq![ordered(a, b)],
        Primitive::Triangle(a, b, c) => seq![ordered(a, b), ordered(b, c), ordered(c, a)],
    }
}

/// The undirected edges that a list of primitives draws, repeats included.
pub open spec fn drawn_edges(ps: Seq<Primitive>) -> Seq<(usize, usize)>
    decreases ps.len(),
{
    if ps.len() == 0 {
        seq![]
    } else {
        drawn_edges(ps.drop_last()) + primitive_edges(ps.last())
    }
}

/// The distinct elements of `s`, in the order of their first occurrence.
pub open spec fn first_seen(s: Seq<(usize, usize)>) -> Seq<(usize, usize)>
    decreases s.len(),
{
    if s.len() == 0 {
        seq![]
    } else {
        let d = first_seen(s.drop_last());
        if d.contains(s.last()) {
            d
        } else {
            d.push(s.last())
        }
    }
}

/// `first_seen` keeps each element once, and keeps every element.
pub proof fn lemma_first_seen_distinct(s: Seq<(usize, usize)>)
    ensures
        first_seen(s).no_duplicates(),
        forall|x: (usize, usize)| first_seen(s).contains(x) <==> s.contains(x),
    decreases s.len(),
{
    if s.len() > 0 {
        let d = first_seen(s.drop_last());
        lemma_first_seen_distinct(s.drop_last());
        assert forall|x: (usize, usize)| s.contains(x) <==> s.drop_last().contains(x) || x == s.last() by {
            if s.contains(x) {
                let i = choose|i: int| 0 <= i < s.len() && s[i] == x;
                if i < s.len() - 1 {
                    assert(s.drop_last()[i] == x);
                }
            }
            if s.drop_last().contains(x) {
                let i = choose|i: int| 0 <= i < s.drop_last().len() && s.drop_last()[i] == x;
                assert(s[i] == x);
            }
            if x == s.last() {
                assert(s[s.len() - 1] == x);
            }
        }
        if !d.contains(s.last()) {
            let e = d.push(s.last());
            assert forall|x: (usize, usize)| e.contains(x) <==> d.contains(x) || x == s.last() by {
                if e.contains(x) {
                    let i = choose|i: int| 0 <= i < e.len() && e[i] == x;
                    if i < d.len() {
                        assert(d[i] == x);
                    }
                }
                if d.contains(x) {
                    let i = choose|i: int| 0 <= i < d.len() && d[i] == x;
                    assert(e[i] == x);
                }
                if x == s.last() {
                    assert(e[e.len() - 1] == x);
                }
            }
            assert forall|i: int, j: int| 0 <= i < e.len() && 0 <= j < e.len() && i != j implies e[i] != e[j] by {
                if i == e.len() - 1 {
                    assert(d[j] == e[j]);
                } else if j == e.len() - 1 {
                    assert(d[i] == e[i]);
                }
            }
        }
    }
}

/// The end points of the line primitives, in order.
pub open spec fn line_ends(ps: Seq<Primitive>) -> Seq<(usize, usize)>
    decreases ps.len(),
{
    if ps.len() == 0 {
        seq![]
    } else {
        match ps.last() {
            Primitive::Line(a, b) => line_ends(ps.drop_last()).push((a, b)),
            _ => line_ends(ps.drop_last()),
        }
    }
}

/// The corners of the triangle primitives, in order.
pub open spec fn triangle_corners(ps: Seq<Primitive>) -> Seq<Seq<usize>>
    decreases ps.len(),
{
    if ps.len() == 0 {
        seq![]
    } else {
        match ps.last() {
            Primitive::Triangle(a, b, c) => triangle_corners(ps.drop_last()).push(seq![a, b, c]),
            _ => triangle_corners(ps.drop_last()),
        }
    }
}

/// The sides walk the corners in order: side `i` goes from corner `i` to
/// corner `i + 1`, and the last one back to the first.
pub open spec fn walks(edges: Seq<(usize, usize)>, sides: Seq<Side>, corners: Seq<usize>) -> bool {
    &&& sides.len() == corners.len()
    &&& sides_in_range(sides, edges.len())
    &&& forall|i: int|
        0 <= i < sides.len() ==> side_start(edges, #[trigger] sides[i]) == corners[i] && side_end(
            edges,
            sides[i],
        ) == corners[(i + 1) % (sides.len() as int)]
}

/// Sides that walk a list of corners form a closed loop.
pub proof fn lemma_walk_is_closed(edges: Seq<(usize, usize)>, sides: Seq<Side>, corners: Seq<usize>)
    requires
        walks(edges, sides, corners),
    ensures
        closed_loop(edges, sides),
{
    let n = sides.len() as int;
    assert forall|i: int| 0 <= i < n implies side_end(edges, #[trigger] sides[i]) == side_start(
        edges,
        sides[(i + 1) % n],
    ) by {
        assert(0 <= (i + 1) % n < n) by {
            vstd::arithmetic::div_mod::lemma_mod_bound(i + 1, n);
        }
        assert(side_start(edges, sides[(i + 1) % n]) == corners[(i + 1) % n]);
    }
}

/// The key under which the table files the edge `(lo, hi)`.
pub open spec fn edge_key(e: (usize, usize)) -> int {
    e.0 as int * 0x1_0000_0000_0000_0000 + e.1 as int
}

/// Two edges filed under one key are the same edge.
proof fn lemma_edge_key_injective(e: (usize, usize), f: (usize, usize))
    requires
        edge_key(e) == edge_key(f),
    ensures
        e == f,
{
    let k: int = 0x1_0000_0000_0000_0000;
    let (a, b, c, d) = (e.0 as int, e.1 as int, f.0 as int, f.1 as int);
    assert(0 <= b < k && 0 <= d < k);
    assert(a == c) by (nonlinear_arith)
        requires
            a * k + b == c * k + d,
            0 <= b < k,
            0 <= d < k,
            k > 0,
    {
        if a < c {
            assert(a * k + k <= c * k);
        } else if a > c {
            assert(c * k + k <= a * k);
        }
    }
}

/// Every key fits in a `u128`.
proof fn lemma_edge_key_bound(e: (usize, usize))
    ensures
        0 <= edge_key(e) <= u128::MAX,
{
    let (a, b) = (e.0 as int, e.1 as int);
    assert(0 <= a * 0x1_0000_0000_0000_0000 + b <= u128::MAX) by (nonlinear_arith)
        requires
            0 <= a <= 0xffff_ffff_ffff_ffff,
            0 <= b <= 0xffff_ffff_ffff_ffff,
    ;
}

/// The key of the edge `(lo, hi)`.
fn key_of(lo: usize, hi: usize) -> (k: u128)
    ensures
        k == edge_key((lo, hi)),
{
    let a = lo as u128;
    let b = hi as u128;
    assert(a * 0x1_0000_0000_0000_0000 + b <= u128::MAX) by (nonlinear_arith)
        requires
            a <= 0xffff_ffff_ffff_ffff,
            b <= 0xffff_ffff_ffff_ffff,
    ;
    a * 0x1_0000_0000_0000_0000 + b
}

/// The edges met so far, each once, and where each one stands.
struct EdgeTable {
    edges: Vec<(usize, usize)>,
    index: HashMap<u128, usize>,
}

impl EdgeTable {
    spec fn wf(&self) -> bool {
        &&& self.edges@.no_duplicates()
        &&& forall|i: int|
            0 <= i < self.edges.len() ==> #[trigger] self.index@.contains_key(
                edge_key(self.edges@[i]) as u128,
            ) && self.index@[edge_key(self.edges@[i]) as u128] == i
        &&& forall|k: u128| #[trigger]
            self.index@.contains_key(k) ==> self.index@[k] < self.edges.len() && edge_key(
                self.edges@[self.index@[k] as int],
            ) == k
    }

    fn new() -> (t: EdgeTable)
        ensures
            t.wf(),
            t.edges@ == Seq::<(usize, usize)>::empty(),
    {
        EdgeTable { edges: Vec::new(), index: HashMap::new() }
    }

    /// The index of the edge between `a` and `b`, added if it is new.
    fn get_edge(&mut self, a: usize, b: usize, Ghost(n_vertices): Ghost<nat>) -> (r: usize)
        requires
            old(self).wf(),
            a < n_vertices,
            b < n_vertices,
            edges_in_range(old(self).edges@, n_vertices),
        ensures
            final(self).wf(),
            edges_in_range(final(self).edges@, n_vertices),
            final(self).edges@ == (if old(self).edges@.contains(ordered(a, b)) {
                old(self).edges@
            } else {
                old(self).edges@.push(ordered(a, b))
            }),
            r < final(self).edges.len(),
            final(self).edges@[r as int] == ordered(a, b),
    {
        let (lo, hi) = if b < a {
            (b, a)
        } else {
            (a, b)
        };
        let key = key_of(lo, hi);
        match self.index.get(&key) {
            Some(i) => {
                let i = *i;
                proof {
                    lemma_edge_key_injective(self.edges@[i as int], (lo, hi));
                }
                i
            },
            None => {
                assert(!self.edges@.contains(ordered(a, b))) by {
                    if self.edges@.contains(ordered(a, b)) {
                        let j = choose|j: int|
                            0 <= j < self.edges.len() && self.edges@[j] == ordered(a, b);
                        assert(self.index@.contains_key(edge_key(self.edges@[j]) as u128));
                    }
                }
                let i = self.edges.len();
                let ghost old_edges = self.edges@;
                let ghost old_index = self.index@;
                self.edges.push((lo, hi));
                self.index.insert(key, i);
                proof {
                    lemma_edge_key_bound((lo, hi));
                    assert forall|e: int| 0 <= e < self.edges.len() implies #[trigger] self.edges@[e].0
                        < n_vertices && self.edges@[e].1 < n_vertices by {
                        if e < i {
                            assert(self.edges@[e] == old_edges[e]);
                        }
                    }
                }
                assert forall|j: int| 0 <= j < self.edges.len() implies #[trigger] self.index@.contains_key(
                    edge_key(self.edges@[j]) as u128,
                ) && self.index@[edge_key(self.edges@[j]) as u128] == j by {
                    lemma_edge_key_bound(self.edges@[j]);
                    if j < i {
                        assert(self.edges@[j] == old_edges[j]);
                        assert(old_index.contains_key(edge_key(old_edges[j]) as u128));
                        if edge_key(self.edges@[j]) == key {
                            lemma_edge_key_injective(self.edges@[j], (lo, hi));
                            assert(old_edges.contains(ordered(a, b)));
                        }
                    }
                }
                i
            },
        }
    }
}

/// How the edges, lines and triangles of a mesh stand to a list of
/// primitives over its vertex pool: the edges are the undirected edges the
/// primitives draw, each once, in the order they are first met; each line
/// primitive becomes a line over its edge, and each triangle a face whose
/// sides walk its three corners.
pub open spec fn built_from<C>(
    edges: Seq<(usize, usize)>,
    lines: Seq<(usize, C)>,
    triangles: Seq<([Side; 3], C)>,
    ps: Seq<Primitive>,
    color: C,
    face_color: C,
) -> bool {
    &&& edges == first_seen(drawn_edges(ps))
    &&& lines.len() == line_ends(ps).len()
    &&& forall|k: int|
        0 <= k < lines.len() ==> {
            &&& (#[trigger] lines[k]).0 < edges.len()
            &&& edges[lines[k].0 as int] == ordered(line_ends(ps)[k].0, line_ends(ps)[k].1)
            &&& lines[k].1 == color
        }
    &&& triangles.len() == triangle_corners(ps).len()
    &&& forall|t: int|
        0 <= t < triangles.len() ==> walks(edges, (#[trigger] triangles[t]).0@, triangle_corners(ps)[t])
            && triangles[t].1 == face_color
}

/// The mesh that `mesh_from_objects` makes of `objects`.
pub open spec fn assembled<V, C>(objects: Seq<MeshObject<V>>, m: Mesh<V, C>, color: C, face_color: C) -> bool {
    &&& m.vertices@ == pooled_vertices(objects)
    &&& built_from(m.edges@, m.lines@, m.triangles@, pooled_primitives(objects), color, face_color)
    &&& m.parallelograms.len() == 0
}

/// Lines and triangles keep their edges when the edge table grows at its end.
proof fn lemma_grow_edges<C>(
    edges: Seq<(usize, usize)>,
    more: Seq<(usize, usize)>,
    lines: Seq<(usize, C)>,
    triangles: Seq<([Side; 3], C)>,
    ps: Seq<Primitive>,
    color: C,
    face_color: C,
)
    requires
        built_from(edges, lines, triangles, ps, color, face_color),
        edges.len() <= more.len(),
        more.subrange(0, edges.len() as int) == edges,
    ensures
        forall|k: int|
            0 <= k < lines.len() ==> {
                &&& (#[trigger] lines[k]).0 < more.len()
                &&& more[lines[k].0 as int] == ordered(line_ends(ps)[k].0, line_ends(ps)[k].1)
            },
        forall|t: int|
            0 <= t < triangles.len() ==> walks(more, (#[trigger] triangles[t]).0@, triangle_corners(ps)[t]),
{
    assert forall|k: int| 0 <= k < lines.len() implies {
        &&& (#[trigger] lines[k]).0 < more.len()
        &&& more[lines[k].0 as int] == ordered(line_ends(ps)[k].0, line_ends(ps)[k].1)
    } by {
        assert(more[lines[k].0 as int] == more.subrange(0, edges.len() as int)[lines[k].0 as int]);
    }
    assert forall|t: int| 0 <= t < triangles.len() implies walks(
        more,
        (#[trigger] triangles[t]).0@,
        triangle_corners(ps)[t],
    ) by {
        let sides = triangles[t].0@;
        assert(walks(edges, sides, triangle_corners(ps)[t]));
        assert forall|i: int| 0 <= i < sides.len() implies #[trigger] more[sides[i].0 as int]
            == edges[sides[i].0 as int] by {
            assert(sides[i].0 < edges.len());
            assert(more[sides[i].0 as int] == more.subrange(0, edges.len() as int)[sides[i].0 as int]);
        }
        assert forall|i: int| 0 <= i < sides.len() implies side_start(more, #[trigger] sides[i])
            == side_start(edges, sides[i]) && side_end(more, sides[i]) == side_end(edges, sides[i]) by {
            assert(more[sides[i].0 as int] == edges[sides[i].0 as int]);
        }
    }
}

/// Whether every primitive of `object` names one of its vertices.
fn object_in_range<V>(object: &MeshObject<V>) -> (r: bool)
    ensures
        r == forall|k: int|
            0 <= k < object.primitives.len() ==> primitive_in_range(
                #[trigger] object.primitives@[k],
                object.vertices.len() as nat,
            ),
{
    let n = object.vertices.len();
    let mut k: usize = 0;
    while k < object.primitives.len()
        invariant
            n == object.vertices.len(),
            k <= object.primitives.len(),
            forall|j: int| 0 <= j < k ==> primitive_in_range(#[trigger] object.primitives@[j], n as nat),
        decreases object.primitives.len() - k,
    {
        let ok = match object.primitives[k] {
            Primitive::Point(_) => true,
            Primitive::Line(a, b) => a < n && b < n,
            Primitive::Triangle(a, b, c) => a < n && b < n && c < n,
        };
        if !ok {
            return false;
        }
        k += 1;
    }
    true
}

/// Whether every primitive of every object names one of its own vertices.
fn objects_checked<V>(objects: &Vec<MeshObject<V>>) -> (r: bool)
    ensures
        r == objects_in_range(objects@),
{
    let mut o: usize = 0;
    while o < objects.len()
        invariant
            o <= objects.len(),
            forall|j: int, k: int|
                0 <= j < o && 0 <= k < objects@[j].primitives.len() ==> primitive_in_range(
                    #[trigger] objects@[j].primitives@[k],
                    objects@[j].vertices.len() as nat,
                ),
        decreases objects.len() - o,
    {
        if !object_in_range(&objects[o]) {
            return false;
        }
        o += 1;
    }
    true
}

/// Which side of edge `e` a face walks when it goes from vertex `from`.
fn side_from(edges: &Vec<(usize, usize)>, e: usize, from: usize, to: usize) -> (s: Side)
    requires
        e < edges.len(),
        edges@[e as int] == ordered(from, to),
    ensures
        s.0 == e,
        side_start(edges@, s) == from,
        side_end(edges@, s) == to,
{
    (e, edges[e].0 != from)
}

/// Adds the edge that the line from `a` to `b` draws, and the line.
fn add_line<C: Copy>(
    table: &mut EdgeTable,
    lines: &mut Vec<(usize, C)>,
    triangles: &Vec<([Side; 3], C)>,
    a: usize,
    b: usize,
    color: C,
    face_color: C,
    Ghost(done): Ghost<Seq<Primitive>>,
    Ghost(n_vertices): Ghost<nat>,
)
    requires
        old(table).wf(),
        a < n_vertices,
        b < n_vertices,
        built_from(old(table).edges@, old(lines)@, triangles@, done, color, face_color),
        edges_in_range(old(table).edges@, n_vertices),
    ensures
        final(table).wf(),
        built_from(
            final(table).edges@,
            final(lines)@,
            triangles@,
            done.push(Primitive::Line(a, b)),
            color,
            face_color,
        ),
        edges_in_range(final(table).edges@, n_vertices),
{
    let ghost drawn = drawn_edges(done);
    let ghost old_edges = table.edges@;
    let ghost old_lines = lines@;
    let e = table.get_edge(a, b, Ghost(n_vertices));
    proof {
        let d = done.push(Primitive::Line(a, b));
        assert(d.drop_last() =~= done);
        assert(drawn_edges(d) =~= drawn.push(ordered(a, b)));
        assert(drawn.push(ordered(a, b)).drop_last() =~= drawn);
        assert(table.edges@.subrange(0, old_edges.len() as int) =~= old_edges);
        lemma_grow_edges(old_edges, table.edges@, old_lines, triangles@, done, color, face_color);
    }
    lines.push((e, color));
    proof {
        let d = done.push(Primitive::Line(a, b));
        assert(line_ends(d) == line_ends(done).push((a, b)));
        assert(triangle_corners(d) == triangle_corners(done));
        assert forall|q: int| 0 <= q < lines.len() implies {
            &&& (#[trigger] lines@[q]).0 < table.edges.len()
            &&& table.edges@[lines@[q].0 as int] == ordered(line_ends(d)[q].0, line_ends(d)[q].1)
            &&& lines@[q].1 == color
        } by {
            if q < old_lines.len() {
                assert(lines@[q] == old_lines[q]);
            }
        }
    }
}

/// Adds the edges that the triangle `a`, `b`, `c` draws, and the face.
fn add_triangle<C: Copy>(
    table: &mut EdgeTable,
    lines: &Vec<(usize, C)>,
    triangles: &mut Vec<([Side; 3], C)>,
    a: usize,
    b: usize,
    c: usize,
    color: C,
    face_color: C,
    Ghost(done): Ghost<Seq<Primitive>>,
    Ghost(n_vertices): Ghost<nat>,
)
    requires
        old(table).wf(),
        a < n_vertices,
        b < n_vertices,
        c < n_vertices,
        built_from(old(table).edges@, lines@, old(triangles)@, done, color, face_color),
        edges_in_range(old(table).edges@, n_vertices),
    ensures
        final(table).wf(),
        built_from(
            final(table).edges@,
            lines@,
            final(triangles)@,
            done.push(Primitive::Triangle(a, b, c)),
            color,
            face_color,
        ),
        edges_in_range(final(table).edges@, n_vertices),
{
    let ghost drawn = drawn_edges(done);
    let ghost old_edges = table.edges@;
    let ghost old_triangles = triangles@;
    let ab = table.get_edge(a, b, Ghost(n_vertices));
    let ghost d1 = drawn.push(ordered(a, b));
    assert(d1.drop_last() =~= drawn);
    assert(table.edges@ == first_seen(d1));
    let bc = table.get_edge(b, c, Ghost(n_vertices));
    let ghost d2 = d1.push(ordered(b, c));
    assert(d2.drop_last() =~= d1);
    assert(table.edges@ == first_seen(d2));
    let ca = table.get_edge(c, a, Ghost(n_vertices));
    let ghost d3 = d2.push(ordered(c, a));
    assert(d3.drop_last() =~= d2);
    assert(table.edges@ == first_seen(d3));
    let s0 = side_from(&table.edges, ab, a, b);
    let s1 = side_from(&table.edges, bc, b, c);
    let s2 = side_from(&table.edges, ca, c, a);
    let sides = [s0, s1, s2];
    let ghost corners = seq![a, b, c];
    proof {
        let d = done.push(Primitive::Triangle(a, b, c));
        assert(d.drop_last() =~= done);
        assert(drawn_edges(d) =~= d3);
        assert(table.edges@.subrange(0, old_edges.len() as int) =~= old_edges);
        lemma_grow_edges(old_edges, table.edges@, lines@, old_triangles, done, color, face_color);
        assert(sides@ =~= seq![s0, s1, s2]);
        assert forall|i: int| 0 <= i < 3 implies side_start(table.edges@, #[trigger] sides@[i])
            == corners[i] && side_end(table.edges@, sides@[i]) == corners[(i + 1) % 3] by {
            assert((i + 1) % 3 == if i == 2 { 0 } else { i + 1 });
        }
        assert(walks(table.edges@, sides@, corners));
    }
    triangles.push((sides, face_color));
    proof {
        let d = done.push(Primitive::Triangle(a, b, c));
        assert(triangle_corners(d) == triangle_corners(done).push(corners));
        assert(line_ends(d) == line_ends(done));
        assert forall|t: int| 0 <= t < triangles.len() implies walks(
            table.edges@,
            (#[trigger] triangles@[t]).0@,
            triangle_corners(d)[t],
        ) && triangles@[t].1 == face_color by {
            if t < old_triangles.len() {
                assert(triangles@[t] == old_triangles[t]);
            }
        }
    }
}

/// Adds the edges, line or triangle that one primitive draws; `offset` is
/// where its object's vertices start in the pool and `n` how many it has.
fn add_primitive<C: Copy>(
    table: &mut EdgeTable,
    lines: &mut Vec<(usize, C)>,
    triangles: &mut Vec<([Side; 3], C)>,
    prim: Primitive,
    offset: usize,
    n: usize,
    color: C,
    face_color: C,
    Ghost(done): Ghost<Seq<Primitive>>,
)
    requires
        old(table).wf(),
        offset + n <= usize::MAX,
        primitive_in_range(prim, n as nat),
        built_from(old(table).edges@, old(lines)@, old(triangles)@, done, color, face_color),
        edges_in_range(old(table).edges@, (offset + n) as nat),
    ensures
        final(table).wf(),
        built_from(
            final(table).edges@,
            final(lines)@,
            final(triangles)@,
            done.push(shifted(prim, offset as nat)),
            color,
            face_color,
        ),
        edges_in_range(final(table).edges@, (offset + n) as nat),
{
    let ghost nv = (offset + n) as nat;
    match prim {
        Primitive::Point(_) => {
            proof {
                let d = done.push(shifted(prim, offset as nat));
                assert(d.drop_last() =~= done);
                assert(drawn_edges(d) =~= drawn_edges(done));
            }
        },
        Primitive::Line(a, b) => {
            add_line(table, lines, triangles, a + offset, b + offset, color, face_color, Ghost(done), Ghost(nv));
        },
        Primitive::Triangle(a, b, c) => {
            add_triangle(
                table,
                lines,
                triangles,
                a + offset,
                b + offset,
                c + offset,
                color,
                face_color,
                Ghost(done),
                Ghost(nv),
            );
        },
    }
}

/// Builds one mesh from the objects of a model: their vertices are pooled
/// one object after the other, every undirected edge that a line or a
/// triangle draws is kept once, lines are coloured `color` and triangles
/// `face_color`. Points are left out. Refused when a primitive names a
/// vertex that its object does not have.
pub fn mesh_from_objects<V: Copy, C: Copy>(
    objects: &Vec<MeshObject<V>>,
    color: C,
    face_color: C,
) -> (r: Result<Mesh<V, C>, MeshError>)
    ensures
        r is Err <==> !objects_in_range(objects@),
        r matches Err(e) ==> e == MeshError::DanglingVertex,
        r matches Ok(m) ==> {
            &&& m.wf()
            &&& m.faces_closed()
            &&& m.edges@.no_duplicates()
            &&& assembled(objects@, m, color, face_color)
        },
{
    if !objects_checked(objects) {
        return Err(MeshError::DanglingVertex);
    }
    let mut vertices: Vec<V> = Vec::new();
    let mut table = EdgeTable::new();
    let mut lines: Vec<(usize, C)> = Vec::new();
    let mut triangles: Vec<([Side; 3], C)> = Vec::new();
    let ghost mut done: Seq<Primitive> = seq![];
    proof {
        assert(objects@.subrange(0, 0) =~= seq![]);
    }

    let mut o: usize = 0;
    while o < objects.len()
        invariant
            o <= objects.len(),
            objects_in_range(objects@),
            table.wf(),
            vertices@ == pooled_vertices(objects@.subrange(0, o as int)),
            done == pooled_primitives(objects@.subrange(0, o as int)),
            built_from(table.edges@, lines@, triangles@, done, color, face_color),
            edges_in_range(table.edges@, vertices.len() as nat),
        decreases objects.len() - o,
    {
        let object = &objects[o];
        let offset = vertices.len();
        let ghost base = done;
        let mut j: usize = 0;
        while j < object.vertices.len()
            invariant
                o < objects.len(),
                object == objects@[o as int],
                offset <= vertices.len(),
                j <= object.vertices.len(),
                vertices@ == pooled_vertices(objects@.subrange(0, o as int)) + object.vertices@.subrange(0, j as int),
                offset == pooled_vertices(objects@.subrange(0, o as int)).len(),
            decreases object.vertices.len() - j,
        {
            vertices.push(object.vertices[j]);
            j += 1;
            proof {
                assert(object.vertices@.subrange(0, j as int) =~= object.vertices@.subrange(0, j - 1).push(object.vertices@[j - 1]));
            }
        }
        proof {
            assert(object.vertices@.subrange(0, j as int) =~= object.vertices@);
        }
        let n = object.vertices.len();

        let mut k: usize = 0;
        while k < object.primitives.len()
            invariant
                object == objects@[o as int],
                o < objects.len(),
                objects_in_range(objects@),
                table.wf(),
                vertices.len() == offset + n,
                n == object.vertices.len(),
                k <= object.primitives.len(),
                done == base + object.primitives@.subrange(0, k as int).map_values(
                    |p: Primitive| shifted(p, offset as nat),
                ),
                built_from(table.edges@, lines@, triangles@, done, color, face_color),
                edges_in_range(table.edges@, vertices.len() as nat),
            decreases object.primitives.len() - k,
        {
            let prim = object.primitives[k];
            assert(primitive_in_range(objects@[o as int].primitives@[k as int], n as nat));
            let ghost next = shifted(prim, offset as nat);
            add_primitive(&mut table, &mut lines, &mut triangles, prim, offset, n, color, face_color, Ghost(done));
            proof {
                let d = done.push(next);
                assert(object.primitives@.subrange(0, k + 1).map_values(|p: Primitive| shifted(p, offset as nat))
                    =~= object.primitives@.subrange(0, k as int).map_values(|p: Primitive| shifted(p, offset as nat)).push(next));
                done = d;
            }
            k += 1;
        }
        proof {
            let sub = objects@.subrange(0, o + 1);
            assert(sub.drop_last() =~= objects@.subrange(0, o as int));
            assert(sub.last() == objects@[o as int]);
            assert(object.primitives@.subrange(0, k as int) =~= object.primitives@);
        }
        o += 1;
    }
    proof {
        assert(objects@.subrange(0, o as int) =~= objects@);
        assert forall|t: int| 0 <= t < triangles.len() implies closed_loop(
            table.edges@,
            (#[trigger] triangles@[t]).0@,
        ) by {
            lemma_walk_is_closed(table.edges@, triangles@[t].0@, triangle_corners(done)[t]);
        }
        lemma_first_seen_distinct(drawn_edges(done));
    }
    let m = Mesh {
        vertices,
        edges: table.edges,
        lines,
        triangles,
        parallelograms: Vec::new(),
    };
    Ok(m)
}

} // verus!
