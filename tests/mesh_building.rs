use fisheye_mesh::assembly::{mesh_from_objects, MeshObject, Primitive};
use fisheye_mesh::condense::condense_mesh;
use fisheye_mesh::mesh::{Mesh, MeshError};

type Point = [f64; 3];

fn corners(size: f64) -> Vec<Point> {
    let h = size * 0.5;
    vec![
        [h, h, h],
        [h, h, -h],
        [h, -h, -h],
        [h, -h, h],
        [-h, -h, h],
        [-h, -h, -h],
        [-h, h, -h],
        [-h, h, h],
    ]
}

/// The vertex at which a face enters a side, and the one at which it leaves.
fn walk(edges: &[(usize, usize)], side: (usize, bool)) -> (usize, usize) {
    let (a, b) = edges[side.0];
    if side.1 {
        (b, a)
    } else {
        (a, b)
    }
}

#[test]
fn new_accepts_a_consistent_mesh() {
    let m = Mesh::new(
        vec![[0.0; 3], [1.0; 3], [2.0; 3]],
        vec![(0, 1), (1, 2), (2, 0)],
        vec![(0, 'l')],
        vec![([(0, false), (1, false), (2, false)], 't')],
        vec![],
    )
    .unwrap();
    assert_eq!(m.edges, vec![(0, 1), (1, 2), (2, 0)]);
    assert_eq!(m.lines, vec![(0, 'l')]);
    assert_eq!(m.triangles.len(), 1);
}

#[test]
fn new_refuses_an_edge_to_a_missing_vertex() {
    let r = Mesh::<Point, char>::new(vec![[0.0; 3], [1.0; 3]], vec![(0, 1), (1, 2)], vec![], vec![], vec![]);
    assert_eq!(r.unwrap_err(), MeshError::DanglingVertex);
}

#[test]
fn new_refuses_a_line_to_a_missing_edge() {
    let r = Mesh::new(vec![[0.0; 3], [1.0; 3]], vec![(0, 1)], vec![(1, 'l')], vec![], vec![]);
    assert_eq!(r.unwrap_err(), MeshError::DanglingEdge);
}

#[test]
fn new_refuses_a_face_to_a_missing_edge() {
    let r = Mesh::new(
        vec![[0.0; 3], [1.0; 3], [2.0; 3]],
        vec![(0, 1), (1, 2), (2, 0)],
        vec![],
        vec![([(0, false), (1, false), (3, false)], 't')],
        vec![],
    );
    assert_eq!(r.unwrap_err(), MeshError::DanglingEdge);
    let r = Mesh::new(
        vec![[0.0; 3], [1.0; 3], [2.0; 3]],
        vec![(0, 1), (1, 2), (2, 0)],
        vec![],
        vec![],
        vec![([(0, false), (1, false), (2, false), (7, true)], 'p')],
    );
    assert_eq!(r.unwrap_err(), MeshError::DanglingEdge);
}

#[test]
fn dangling_vertex_is_reported_before_dangling_edge() {
    let r = Mesh::new(vec![[0.0; 3]], vec![(0, 1)], vec![(5, 'l')], vec![], vec![]);
    assert_eq!(r.unwrap_err(), MeshError::DanglingVertex);
}

#[test]
fn cuboid_has_twelve_edges_and_six_closed_faces() {
    let m = Mesh::cuboid(corners(100.0), 'c', 'f');
    assert_eq!(m.vertices, corners(100.0));
    assert_eq!(
        m.edges,
        vec![(0, 1), (1, 2), (2, 3), (3, 4), (4, 5), (5, 6), (6, 7), (7, 0), (0, 3), (1, 6), (2, 5), (4, 7)]
    );
    assert_eq!(m.lines, (0..12).map(|i| (i, 'c')).collect::<Vec<_>>());
    assert!(m.triangles.is_empty());
    assert_eq!(m.parallelograms.len(), 6);
    assert_eq!(m.parallelograms[0].0, [(0, false), (1, false), (2, false), (8, true)]);
    assert_eq!(m.parallelograms[5].0, [(4, false), (5, false), (6, false), (11, true)]);
    for (sides, color) in &m.parallelograms {
        assert_eq!(*color, 'f');
        for i in 0..4 {
            assert_eq!(walk(&m.edges, sides[i]).1, walk(&m.edges, sides[(i + 1) % 4]).0);
        }
    }
}

#[test]
fn cuboid_faces_touch_every_edge_twice() {
    let m = Mesh::cuboid(corners(2.0), 0u8, 1u8);
    let mut uses = [0; 12];
    for (sides, _) in &m.parallelograms {
        for s in sides {
            uses[s.0] += 1;
        }
    }
    assert_eq!(uses, [2; 12]);
}

#[test]
fn shared_edges_are_kept_once_and_walked_both_ways() {
    let objects = vec![MeshObject {
        vertices: vec![[0.0; 3], [1.0; 3], [2.0; 3], [3.0; 3]],
        primitives: vec![Primitive::Triangle(0, 1, 2), Primitive::Triangle(2, 1, 3)],
    }];
    let m = mesh_from_objects(&objects, 'l', 'f').unwrap();
    assert_eq!(m.edges, vec![(0, 1), (1, 2), (0, 2), (1, 3), (2, 3)]);
    assert_eq!(m.triangles[0], ([(0, false), (1, false), (2, true)], 'f'));
    assert_eq!(m.triangles[1], ([(1, true), (3, false), (4, true)], 'f'));
    assert!(m.lines.is_empty());
    assert!(m.parallelograms.is_empty());
}

#[test]
fn lines_share_edges_with_triangles() {
    let objects = vec![MeshObject {
        vertices: vec![[0.0; 3], [1.0; 3], [2.0; 3]],
        primitives: vec![
            Primitive::Line(1, 0),
            Primitive::Point(2),
            Primitive::Triangle(0, 1, 2),
            Primitive::Line(2, 1),
        ],
    }];
    let m = mesh_from_objects(&objects, 'l', 'f').unwrap();
    assert_eq!(m.edges, vec![(0, 1), (1, 2), (0, 2)]);
    assert_eq!(m.lines, vec![(0, 'l'), (1, 'l')]);
    assert_eq!(m.triangles, vec![([(0, false), (1, false), (2, true)], 'f')]);
}

#[test]
fn objects_are_pooled_with_offsets() {
    let objects = vec![
        MeshObject { vertices: vec![[0.0; 3], [1.0; 3]], primitives: vec![Primitive::Line(0, 1)] },
        MeshObject {
            vertices: vec![[5.0; 3], [6.0; 3], [7.0; 3]],
            primitives: vec![Primitive::Triangle(2, 1, 0)],
        },
    ];
    let m = mesh_from_objects(&objects, 'l', 'f').unwrap();
    assert_eq!(m.vertices, vec![[0.0; 3], [1.0; 3], [5.0; 3], [6.0; 3], [7.0; 3]]);
    assert_eq!(m.edges, vec![(0, 1), (3, 4), (2, 3), (2, 4)]);
    assert_eq!(m.lines, vec![(0, 'l')]);
    let (sides, _) = m.triangles[0];
    assert_eq!(walk(&m.edges, sides[0]), (4, 3));
    assert_eq!(walk(&m.edges, sides[1]), (3, 2));
    assert_eq!(walk(&m.edges, sides[2]), (2, 4));
}

#[test]
fn a_primitive_beyond_its_object_is_refused() {
    let objects = vec![
        MeshObject { vertices: vec![[0.0; 3], [1.0; 3]], primitives: vec![Primitive::Line(0, 1)] },
        MeshObject { vertices: vec![[5.0; 3]], primitives: vec![Primitive::Line(0, 1)] },
    ];
    assert_eq!(mesh_from_objects(&objects, 'l', 'f').unwrap_err(), MeshError::DanglingVertex);
}

#[test]
fn a_point_is_ignored_even_out_of_range() {
    let objects = vec![MeshObject { vertices: vec![[0.0; 3]], primitives: vec![Primitive::Point(9)] }];
    let m = mesh_from_objects(&objects, 'l', 'f').unwrap();
    assert!(m.edges.is_empty() && m.lines.is_empty() && m.triangles.is_empty());
}

#[test]
fn no_objects_give_an_empty_mesh() {
    let objects: Vec<MeshObject<Point>> = vec![];
    let m = mesh_from_objects(&objects, 'l', 'f').unwrap();
    assert!(m.vertices.is_empty() && m.edges.is_empty());
}

#[test]
fn condense_merges_repeated_vertices() {
    let m = Mesh::new(
        vec![[0.0; 3], [1.0; 3], [0.0; 3], [2.0; 3], [1.0; 3]],
        vec![(0, 1), (2, 3), (3, 4)],
        vec![(0, 'l'), (2, 'l')],
        vec![],
        vec![],
    )
    .unwrap();
    let c = condense_mesh(&m, |a: Point, b: Point| a == b);
    assert_eq!(c.vertices, vec![[0.0; 3], [1.0; 3], [2.0; 3]]);
    assert_eq!(c.edges, vec![(0, 1), (0, 2), (2, 1)]);
    assert_eq!(c.lines, m.lines);
}

#[test]
fn condense_keeps_distinct_vertices() {
    let m = Mesh::cuboid(corners(4.0), 'c', 'f');
    let c = condense_mesh(&m, |a: Point, b: Point| a == b);
    assert_eq!(c.vertices, m.vertices);
    assert_eq!(c.edges, m.edges);
    assert_eq!(c.parallelograms, m.parallelograms);
}
