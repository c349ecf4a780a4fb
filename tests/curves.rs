use fisheye_mesh::curve::{approximate_curve, CurveOps};

/// A flat geometry on the number line: a world point is shown at ten times
/// its value, and two screen points are near when at most `res` apart.
fn flat(
    res: f64,
    behind: bool,
) -> CurveOps<
    impl Fn(f64) -> f64,
    impl Fn(f64, f64) -> bool,
    impl Fn(f64) -> bool,
    impl Fn(f64, f64) -> f64,
    impl Fn(f64, f64) -> Vec<f64>,
> {
    CurveOps {
        project: |w: f64| w * 10.0,
        near: move |s: f64, t: f64| (s - t).abs() <= res,
        behind: move |_w: f64| behind,
        midpoint: |v: f64, w: f64| (v + w) * 0.5,
        arc: |s: f64, t: f64| vec![s + (t - s) / 3.0, s + 2.0 * (t - s) / 3.0],
    }
}

#[test]
fn bisects_until_neighbours_are_near() {
    let ops = flat(10.0, false);
    let r = approximate_curve(0.0, 4.0, &ops, 9);
    assert_eq!(r, vec![0.0, 10.0, 20.0, 30.0, 40.0]);
}

#[test]
fn stops_at_the_split_limit() {
    let ops = flat(1.0, false);
    let r = approximate_curve(0.0, 4.0, &ops, 2);
    assert_eq!(r, vec![0.0, 10.0, 20.0, 30.0, 40.0]);
    let r = approximate_curve(0.0, 4.0, &ops, 1);
    assert_eq!(r, vec![0.0, 20.0, 40.0]);
}

#[test]
fn begins_and_ends_at_the_projected_ends() {
    let ops = flat(0.5, false);
    for &(a, b, depth) in &[(0.0, 1.0, 3usize), (-2.5, 7.0, 5), (3.0, 3.0, 0), (1.0, -1.0, 4)] {
        let r = approximate_curve(a, b, &ops, depth);
        assert!(r.len() >= 2);
        assert_eq!(r[0], a * 10.0);
        assert_eq!(*r.last().unwrap(), b * 10.0);
    }
}

#[test]
fn no_split_gives_the_two_ends() {
    let ops = flat(1.0, false);
    assert_eq!(approximate_curve(0.0, 5.0, &ops, 0), vec![0.0, 50.0]);
    assert_eq!(approximate_curve(2.0, 2.25, &ops, 0), vec![20.0, 22.5]);
}

#[test]
fn far_ends_behind_the_viewer_are_joined_by_an_arc() {
    let ops = flat(1.0, true);
    assert_eq!(approximate_curve(0.0, 3.0, &ops, 0), vec![0.0, 10.0, 20.0, 30.0]);
}

#[test]
fn near_ends_behind_the_viewer_need_no_arc() {
    let ops = flat(100.0, true);
    assert_eq!(approximate_curve(0.0, 3.0, &ops, 0), vec![0.0, 30.0]);
}

#[test]
fn arcs_only_at_the_deepest_level() {
    let ops = flat(5.0, true);
    // 0..20 is cut once; each half is still 10 apart and gets an arc.
    let r = approximate_curve(0.0, 2.0, &ops, 1);
    assert_eq!(r.len(), 7);
    assert_eq!(r[0], 0.0);
    assert_eq!(r[3], 10.0);
    assert_eq!(r[6], 20.0);
}

#[test]
fn same_arguments_give_the_same_points() {
    let ops = flat(0.3, false);
    let first = approximate_curve(-1.0, 2.0, &ops, 6);
    let second = approximate_curve(-1.0, 2.0, &ops, 6);
    assert_eq!(first, second);
}

#[test]
fn bisection_count_stays_within_two_to_the_split_limit() {
    let ops = flat(0.0, false);
    for depth in 0..8usize {
        let r = approximate_curve(0.0, 1.0, &ops, depth);
        assert_eq!(r.len(), (1usize << depth) + 1);
    }
}
