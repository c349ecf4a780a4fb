use vstd::prelude::*;

verus! {

/// The geometry that the curve approximation works with, as five functions
/// over world points `W` and screen points `S`:
/// - `project` places a world point on the screen;
/// - `near` tells whether two screen points are close enough that the
///   straight segment between them is a faithful drawing;
/// - `behind` tells whether a world point lies behind the viewer;
/// - `midpoint` halves the world segment between two points;
/// - `arc` gives the screen points strictly between two screen points
///   along a circular arc about the screen centre.
pub struct CurveOps<P, N, B, M, A> {
    pub project: P,
    pub near: N,
    pub behind: B,
    pub midpoint: M,
    pub arc: A,
}

impl<P, N, B, M, A> CurveOps<P, N, B, M, A> {
    /// Every function may be called on every argument.
    pub open spec fn callable<W, S>(&self) -> bool where
        P: Fn(W) -> S,
        N: Fn(S, S) -> bool,
        B: Fn(W) -> bool,
        M: Fn(W, W) -> W,
        A: Fn(S, S) -> Vec<S>,
     {
        &&& forall|w: W| #[trigger] self.project.requires((w,))
        &&& forall|s: S, t: S| #[trigger] self.near.requires((s, t))
        &&& forall|w: W| #[trigger] self.behind.requires((w,))
        &&& forall|v: W, w: W| #[trigger] self.midpoint.requires((v, w))
        &&& forall|s: S, t: S| #[trigger] self.arc.requires((s, t))
    }
}

/// `out` is what the approximation appends for the piece of the curve from
/// `begin` to `end` (each a world point with its screen point), found at
/// bisection depth `level` of at most `max_split`:
/// - when the two screen points are near, the end point alone;
/// - else, at the deepest level, the end point, preceded by the arc between
///   the two screen points when both world points are behind the viewer;
/// - else the pieces for the two halves, split at the projected midpoint.
pub open spec fn refined<W, S, P, N, B, M, A>(
    ops: CurveOps<P, N, B, M, A>,
    level: nat,
    max_split: nat,
    begin: (W, S),
    end: (W, S),
    out: Seq<S>,
) -> bool where
    P: Fn(W) -> S,
    N: Fn(S, S) -> bool,
    B: Fn(W) -> bool,
    M: Fn(W, W) -> W,
    A: Fn(S, S) -> Vec<S>,
    decreases max_split - level,
{
    ||| ops.near.ensures((begin.1, end.1), true) && out == seq![end.1]
    ||| ops.near.ensures((begin.1, end.1), false) && level >= max_split && exists|bb: bool, eb: bool|
        {
            &&& ops.behind.ensures((begin.0,), bb)
            &&& ops.behind.ensures((end.0,), eb)
            &&& if bb && eb {
                exists|arc: Vec<S>|
                    ops.arc.ensures((begin.1, end.1), arc) && out == arc@.push(end.1)
            } else {
                out == seq![end.1]
            }
        }
    ||| ops.near.ensures((begin.1, end.1), false) && level < max_split && exists|
        mid: W,
        mid_s: S,
        k: int,
    |
        {
            &&& ops.midpoint.ensures((begin.0, end.0), mid)
            &&& ops.project.ensures((mid,), mid_s)
            &&& 0 <= k <= out.len()
            &&& refined(ops, level + 1, max_split, begin, (mid, mid_s), out.subrange(0, k))
            &&& refined(ops, level + 1, max_split, (mid, mid_s), end, out.subrange(k, out.len() as int))
        }
}

/// What the approximation from `a` to `b` returns: the screen point of `a`,
/// then the pieces that bisection appends up to the screen point of `b`.
pub open spec fn curve_of<W, S, P, N, B, M, A>(
    ops: CurveOps<P, N, B, M, A>,
    a: W,
    b: W,
    max_split: nat,
    r: Seq<S>,
) -> bool where
    P: Fn(W) -> S,
    N: Fn(S, S) -> bool,
    B: Fn(W) -> bool,
    M: Fn(W, W) -> W,
    A: Fn(S, S) -> Vec<S>,
 {
    exists|sa: S, sb: S|
        {
            &&& ops.project.ensures((a,), sa)
            &&& ops.project.ensures((b,), sb)
            &&& r.len() >= 1
            &&& r[0] == sa
            &&& refined(ops, 0, max_split, (a, sa), (b, sb), r.drop_first())
        }
}

/// A piece never comes out empty, and it ends at the screen point of its end.
pub proof fn lemma_piece_ends_at_end<W, S, P, N, B, M, A>(
    ops: CurveOps<P, N, B, M, A>,
    level: nat,
    max_split: nat,
    begin: (W, S),
    end: (W, S),
    out: Seq<S>,
) where
    P: Fn(W) -> S,
    N: Fn(S, S) -> bool,
    B: Fn(W) -> bool,
    M: Fn(W, W) -> W,
    A: Fn(S, S) -> Vec<S>,

    requires
        refined(ops, level, max_split, begin, end, out),
    ensures
        out.len() >= 1,
        out.last() == end.1,
    decreases max_split - level,
{
    if ops.near.ensures((begin.1, end.1), true) && out == seq![end.1] {
    } else if ops.near.ensures((begin.1, end.1), false) && level >= max_split {
        let (bb, eb) = choose|bb: bool, eb: bool|
            {
                &&& ops.behind.ensures((begin.0,), bb)
                &&& ops.behind.ensures((end.0,), eb)
                &&& if bb && eb {
                    exists|arc: Vec<S>|
                        ops.arc.ensures((begin.1, end.1), arc) && out == arc@.push(end.1)
                } else {
                    out == seq![end.1]
                }
            };
        if bb && eb {
            let arc = choose|arc: Vec<S>|
                ops.arc.ensures((begin.1, end.1), arc) && out == arc@.push(end.1);
        }
    } else {
        let (mid, mid_s, k) = choose|mid: W, mid_s: S, k: int|
            {
                &&& ops.midpoint.ensures((begin.0, end.0), mid)
                &&& ops.project.ensures((mid,), mid_s)
                &&& 0 <= k <= out.len()
                &&& refined(ops, level + 1, max_split, begin, (mid, mid_s), out.subrange(0, k))
                &&& refined(
                    ops,
                    level + 1,
                    max_split,
                    (mid, mid_s),
                    end,
                    out.subrange(k, out.len() as int),
                )
            };
        lemma_piece_ends_at_end(ops, level + 1, max_split, begin, (mid, mid_s), out.subrange(0, k));
        lemma_piece_ends_at_end(
            ops,
            level + 1,
            max_split,
            (mid, mid_s),
            end,
            out.subrange(k, out.len() as int),
        );
        assert(out.last() == out.subrange(k, out.len() as int).last());
    }
}

/// With no bisection allowed, the approximation is exactly the screen
/// points of its two ends, except where the ends are far apart on screen
/// and both behind the viewer, which is left out here: there the arc
/// between them stands in the middle.
pub proof fn lemma_unsplit_curve<W, S, P, N, B, M, A>(
    ops: CurveOps<P, N, B, M, A>,
    a: W,
    b: W,
    r: Seq<S>,
) where
    P: Fn(W) -> S,
    N: Fn(S, S) -> bool,
    B: Fn(W) -> bool,
    M: Fn(W, W) -> W,
    A: Fn(S, S) -> Vec<S>,

    requires
        curve_of(ops, a, b, 0, r),
        forall|sa: S, sb: S, close: bool, bb: bool, eb: bool|
            ops.project.ensures((a,), sa) && ops.project.ensures((b,), sb) && ops.near.ensures(
                (sa, sb),
                close,
            ) && ops.behind.ensures((a,), bb) && ops.behind.ensures((b,), eb) ==> close || !(bb
                && eb),
    ensures
        r.len() == 2,
        ops.project.ensures((a,), r[0]),
        ops.project.ensures((b,), r[1]),
{
    let (sa, sb) = choose|sa: S, sb: S|
        {
            &&& ops.project.ensures((a,), sa)
            &&& ops.project.ensures((b,), sb)
            &&& r.len() >= 1
            &&& r[0] == sa
            &&& refined(ops, 0, 0, (a, sa), (b, sb), r.drop_first())
        };
    let out = r.drop_first();
    if ops.near.ensures((sa, sb), true) && out == seq![sb] {
    } else {
        assert(ops.near.ensures((sa, sb), false));
        let (bb, eb) = choose|bb: bool, eb: bool|
            {
                &&& ops.behind.ensures((a,), bb)
                &&& ops.behind.ensures((b,), eb)
                &&& if bb && eb {
                    exists|arc: Vec<S>| ops.arc.ensures((sa, sb), arc) && out == arc@.push(sb)
                } else {
                    out == seq![sb]
                }
            };
        assert(!(bb && eb));
    }
    assert(r =~= seq![sa].add(out));
}

/// Appends to `out` the screen points after `begin` up to `end`, bisecting
/// the world segment until neighbouring screen points are near or the
/// depth `max_split` is reached.
fn refine<W: Copy, S: Copy, P, N, B, M, A>(
    ops: &CurveOps<P, N, B, M, A>,
    level: usize,
    max_split: usize,
    begin: (W, S),
    end: (W, S),
    out: &mut Vec<S>,
) where
    P: Fn(W) -> S,
    N: Fn(S, S) -> bool,
    B: Fn(W) -> bool,
    M: Fn(W, W) -> W,
    A: Fn(S, S) -> Vec<S>,

    requires
        ops.callable(),
        level <= max_split,
    ensures
        final(out)@.len() >= old(out)@.len(),
        final(out)@.subrange(0, old(out)@.len() as int) == old(out)@,
        refined(
            *ops,
            level as nat,
            max_split as nat,
            begin,
            end,
            final(out)@.subrange(old(out)@.len() as int, final(out)@.len() as int),
        ),
    decreases max_split - level,
{
    let ghost start = out@;
    let close = (ops.near)(begin.1, end.1);
    if close {
        out.push(end.1);
        assert(out@.subrange(start.len() as int, out@.len() as int) =~= seq![end.1]);
        assert(out@.subrange(0, start.len() as int) =~= start);
    } else if level >= max_split {
        let bb = (ops.behind)(begin.0);
        let eb = (ops.behind)(end.0);
        if bb && eb {
            let arc = (ops.arc)(begin.1, end.1);
            let mut i: usize = 0;
            while i < arc.len()
                invariant
                    i <= arc.len(),
                    out@ == start + arc@.subrange(0, i as int),
                decreases arc.len() - i,
            {
                out.push(arc[i]);
                i += 1;
                assert(arc@.subrange(0, i as int) =~= arc@.subrange(0, i - 1).push(arc@[i - 1]));
            }
            out.push(end.1);
            assert(out@.subrange(start.len() as int, out@.len() as int) =~= arc@.push(end.1));
            assert(out@.subrange(0, start.len() as int) =~= start);
        } else {
            out.push(end.1);
            assert(out@.subrange(start.len() as int, out@.len() as int) =~= seq![end.1]);
            assert(out@.subrange(0, start.len() as int) =~= start);
        }
    } else {
        let mid = (ops.midpoint)(begin.0, end.0);
        let mid_s = (ops.project)(mid);
        refine(ops, level + 1, max_split, begin, (mid, mid_s), out);
        let ghost half = out@;
        refine(ops, level + 1, max_split, (mid, mid_s), end, out);
        proof {
            let added = out@.subrange(start.len() as int, out@.len() as int);
            let k = half.len() - start.len();
            assert(added.subrange(0, k) =~= half.subrange(start.len() as int, half.len() as int));
            assert(added.subrange(k, added.len() as int) =~= out@.subrange(half.len() as int, out@.len() as int));
            assert(out@.subrange(0, start.len() as int) =~= half.subrange(0, start.len() as int));
        }
    }
}

/// Approximates the screen image of the world segment from `a` to `b` by a
/// polyline.
///
/// Where two neighbouring screen points are not `near`, the midpoint of
/// their world segment is projected and both halves are refined, down to
/// `max_split` levels of bisection. At that depth, a piece whose two ends
/// are both behind the viewer is drawn as a circular arc instead of a
/// straight segment. Calling it again on the same arguments gives the same
/// points, as far as the five functions of `ops` do.
pub fn approximate_curve<W: Copy, S: Copy, P, N, B, M, A>(
    a: W,
    b: W,
    ops: &CurveOps<P, N, B, M, A>,
    max_split: usize,
) -> (r: Vec<S>) where
    P: Fn(W) -> S,
    N: Fn(S, S) -> bool,
    B: Fn(W) -> bool,
    M: Fn(W, W) -> W,
    A: Fn(S, S) -> Vec<S>,

    requires
        ops.callable(),
    ensures
        curve_of(*ops, a, b, max_split as nat, r@),
        r@.len() >= 2,
        ops.project.ensures((a,), r@[0]),
        ops.project.ensures((b,), r@.last()),
{
    let sa = (ops.project)(a);
    let sb = (ops.project)(b);
    let mut r: Vec<S> = Vec::new();
    r.push(sa);
    refine(ops, 0, max_split, (a, sa), (b, sb), &mut r);
    proof {
        assert(r@[0] == r@.subrange(0, 1)[0]);
        assert(r@.drop_first() =~= r@.subrange(1, r@.len() as int));
        lemma_piece_ends_at_end(*ops, 0, max_split as nat, (a, sa), (b, sb), r@.drop_first());
        assert(r@.last() == r@.drop_first().last());
    }
    r
}

} // verus!
