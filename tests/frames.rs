use std::cell::Cell;

use fisheye_mesh::curve::{approximate_curve, CurveOps};
use fisheye_mesh::fill::{fan, fill_steps, FillStep};
use fisheye_mesh::frame::{edge_curves, face_outline, plan_frame, DrawCommand};
use fisheye_mesh::mesh::Mesh;

type Point = [f64; 3];

fn corners(size: f64) -> Vec<Point> {
    let h = size * 0.5;
    vec![
        [h, h, h],
        [h, h, -h],
        [h, -h, -h],
        [h, -h, h],
        [-h, -h, h],
        [-h, -h, -h],
        [-h, h, -h],
        [-h, h, h],
    ]
}

fn shifted(p: Point, by: Point) -> Point {
    [p[0] + by[0], p[1] + by[1], p[2] + by[2]]
}

#[test]
fn one_curve_per_edge_of_a_cuboid() {
    let mesh = Mesh::cuboid(corners(100.0), 1u8, 2u8);
    let camera = [-30.0, 0.0, -30.0];
    let world: Vec<Point> = mesh.vertices.iter().map(|&v| shifted(v, [0.0, 0.0, 0.0])).collect();
    let ops = CurveOps {
        project: |w: Point| [w[1] - camera[1], w[2] - camera[2]],
        near: |s: [f64; 2], t: [f64; 2]| ((s[0] - t[0]).powi(2) + (s[1] - t[1]).powi(2)).sqrt() <= 40.0,
        behind: |w: Point| w[0] < camera[0],
        midpoint: |a: Point, b: Point| [(a[0] + b[0]) * 0.5, (a[1] + b[1]) * 0.5, (a[2] + b[2]) * 0.5],
        arc: |_s: [f64; 2], _t: [f64; 2]| Vec::new(),
    };
    let calls = Cell::new(0usize);
    let curves = edge_curves(&mesh, &world, |a: Point, b: Point| {
        calls.set(calls.get() + 1);
        approximate_curve(a, b, &ops, 9)
    });
    assert_eq!(calls.get(), 12);
    assert_eq!(curves.len(), 12);
    let tests = Cell::new(0usize);
    let plan = plan_frame(&mesh, &world, &curves, |_t: [Point; 3]| false, |_p: [Point; 4]| {
        tests.set(tests.get() + 1);
        false
    });
    assert_eq!(calls.get(), 12);
    assert_eq!(tests.get(), 6);
    assert_eq!(plan.len(), 18);
    for (i, cmd) in plan.iter().take(12).enumerate() {
        match cmd {
            DrawCommand::Curve { edge, color } => assert_eq!((*edge, *color), (i, 1)),
            _ => panic!("a line was expected"),
        }
    }
    let first = &mesh.parallelograms[0].0;
    match &plan[12] {
        DrawCommand::Polygon { outline, behind, color } => {
            let mut expected = Vec::new();
            for &(e, rev) in first {
                let mut c = curves[e].clone();
                if rev {
                    c.reverse();
                }
                expected.extend(c);
            }
            assert_eq!(*outline, expected);
            assert!(!*behind);
            assert_eq!(*color, 2);
        }
        _ => panic!("a face was expected"),
    }
}

#[test]
fn edge_curves_pass_each_edge_its_own_ends() {
    let mesh = Mesh::new(vec![10, 20, 30], vec![(0, 1), (2, 0)], vec![], vec![], vec![]).unwrap_or_else(|_| panic!());
    let world = vec![1, 2, 3];
    let curves: Vec<Vec<i32>> = edge_curves::<i32, u8, i32, _>(&mesh, &world, |a: i32, b: i32| vec![a, b]);
    assert_eq!(curves, vec![vec![1, 2], vec![3, 1]]);
}

#[test]
fn outline_reverses_backward_sides() {
    let curves = vec![vec![1, 2, 3], vec![3, 4], vec![1, 5, 3]];
    let r = face_outline(&curves, &[(0, false), (1, false), (2, true)]);
    assert_eq!(r, vec![1, 2, 3, 3, 4, 3, 5, 1]);
    let empty: Vec<(usize, bool)> = vec![];
    assert!(face_outline(&curves, &empty).is_empty());
}

#[test]
fn face_marked_behind_when_its_test_says_so() {
    let mesh = Mesh::new(
        vec![[0.0; 3], [1.0, 0.0, 0.0], [0.0, 1.0, 0.0]],
        vec![(0, 1), (1, 2), (2, 0)],
        vec![],
        vec![([(0, false), (1, false), (2, false)], 'a'), ([(2, true), (1, true), (0, true)], 'b')],
        vec![],
    )
    .unwrap();
    let curves: Vec<Vec<u32>> = vec![vec![0, 1], vec![1, 2], vec![2, 0]];
    let plan = plan_frame(&mesh, &mesh.vertices, &curves, |cs: [Point; 3]| cs[1][1] == 1.0, |_p: [Point; 4]| false);
    assert_eq!(plan.len(), 2);
    match (&plan[0], &plan[1]) {
        (
            DrawCommand::Polygon { outline: o1, behind: b1, color: c1 },
            DrawCommand::Polygon { outline: o2, behind: b2, color: c2 },
        ) => {
            assert_eq!((*b1, *c1), (false, 'a'));
            assert_eq!((*b2, *c2), (true, 'b'));
            assert_eq!(*o1, vec![0, 1, 1, 2, 2, 0]);
            assert_eq!(*o2, vec![0, 2, 2, 1, 1, 0]);
        }
        _ => panic!("two faces were expected"),
    }
}

#[test]
fn fan_of_a_pentagon() {
    let t = fan(&vec!['a', 'b', 'c', 'd', 'e']);
    assert_eq!(t, vec![('a', 'b', 'c'), ('a', 'c', 'd'), ('a', 'd', 'e')]);
    assert_eq!(fan(&vec![1, 2, 3]), vec![(1, 2, 3)]);
}

#[test]
fn fill_of_a_face_in_front() {
    let steps = fill_steps(&vec![1, 2, 3, 4], false);
    assert_eq!(
        steps,
        vec![
            FillStep::Flush,
            FillStep::BeginStencil,
            FillStep::StencilTriangle(1, 2, 3),
            FillStep::StencilTriangle(1, 3, 4),
            FillStep::PaintMarked,
            FillStep::Flush,
        ]
    );
}

#[test]
fn fill_of_a_face_behind_inverts_the_stencil() {
    let front = fill_steps(&vec![1, 2, 3, 4], false);
    let back = fill_steps(&vec![1, 2, 3, 4], true);
    assert_ne!(front, back);
    assert_eq!(back.len(), front.len() + 1);
    assert_eq!(back[4], FillStep::InvertAll);
    assert_eq!(back[5], FillStep::PaintMarked);
}
