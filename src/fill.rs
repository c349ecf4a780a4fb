use vstd::prelude::*;

verus! {

/// One step of filling a polygon through the stencil buffer.
#[derive(Debug, PartialEq, Eq)]
pub enum FillStep<S> {
    /// Send what is pending and return to the default draw state.
    Flush,
    /// Clear the stencil, mask colour writes, and make every draw invert
    /// the stencil bit of the pixels it covers.
    BeginStencil,
    /// Draw one triangle into the stencil.
    StencilTriangle(S, S, S),
    /// Invert the stencil bit of every pixel of the screen.
    InvertAll,
    /// Paint the fill colour over the pixels whose stencil bit is set.
    PaintMarked,
}

/// The triangles of the fan of `poly` from its first point: the `i`-th one
/// is `poly[0]`, `poly[i + 1]`, `poly[i + 2]`.
pub open spec fn fan_of<S>(poly: Seq<S>) -> Seq<(S, S, S)> {
    Seq::new((poly.len() - 2) as nat, |i: int| (poly[0], poly[i + 1], poly[i + 2]))
}

/// The steps that fill `poly`: flush; draw every fan triangle into a
/// cleared, inverting stencil, so that a pixel ends up marked when an odd
/// number of triangles cover it; for a face that surrounds the viewer,
/// invert the whole stencil; paint the marked pixels; flush again.
pub open spec fn fill_plan<S>(poly: Seq<S>, is_behind: bool) -> Seq<FillStep<S>> {
    seq![FillStep::Flush, FillStep::BeginStencil] + fan_of(poly).map_values(
        |t: (S, S, S)| FillStep::StencilTriangle(t.0, t.1, t.2),
    ) + (if is_behind {
        seq![FillStep::InvertAll]
    } else {
        seq![]
    }) + seq![FillStep::PaintMarked, FillStep::Flush]
}

/// The fan of triangles from the first point of a polygon.
pub fn fan<S: Copy>(poly: &Vec<S>) -> (r: Vec<(S, S, S)>)
    requires
        poly.len() >= 3,
    ensures
        r@ == fan_of(poly@),
{
    let anchor = poly[0];
    let mut prev = poly[1];
    let mut r: Vec<(S, S, S)> = Vec::new();
    let mut i: usize = 2;
    while i < poly.len()
        invariant
            2 <= i <= poly.len(),
            anchor == poly@[0],
            prev == poly@[i - 1],
            r@ == fan_of(poly@.subrange(0, i as int)),
        decreases poly.len() - i,
    {
        let next = poly[i];
        r.push((anchor, prev, next));
        prev = next;
        i += 1;
        assert(r@ =~= fan_of(poly@.subrange(0, i as int)));
    }
    assert(poly@.subrange(0, i as int) =~= poly@);
    r
}

/// The steps that fill the polygon `poly` whatever its shape: a parity
/// fill of its fan, inverted where the face surrounds the viewer.
pub fn fill_steps<S: Copy>(poly: &Vec<S>, is_behind: bool) -> (r: Vec<FillStep<S>>)
    requires
        poly.len() >= 3,
    ensures
        r@ == fill_plan(poly@, is_behind),
{
    let mut r: Vec<FillStep<S>> = Vec::new();
    r.push(FillStep::Flush);
    r.push(FillStep::BeginStencil);
    let triangles = fan(poly);
    let mut i: usize = 0;
    while i < triangles.len()
        invariant
            i <= triangles.len(),
            r@ == seq![FillStep::Flush, FillStep::BeginStencil] + triangles@.subrange(
                0,
                i as int,
            ).map_values(|t: (S, S, S)| FillStep::StencilTriangle(t.0, t.1, t.2)),
        decreases triangles.len() - i,
    {
        let (a, b, c) = triangles[i];
        r.push(FillStep::StencilTriangle(a, b, c));
        i += 1;
        assert(triangles@.subrange(0, i as int).map_values(
            |t: (S, S, S)| FillStep::StencilTriangle(t.0, t.1, t.2),
        ) =~= triangles@.subrange(0, i - 1).map_values(
            |t: (S, S, S)| FillStep::StencilTriangle(t.0, t.1, t.2),
        ).push(FillStep::StencilTriangle(a, b, c)));
    }
    assert(triangles@.subrange(0, i as int) =~= triangles@);
    if is_behind {
        r.push(FillStep::InvertAll);
    }
    r.push(FillStep::PaintMarked);
    r.push(FillStep::Flush);
    assert(r@ =~= fill_plan(poly@, is_behind));
    r
}

} // verus!
