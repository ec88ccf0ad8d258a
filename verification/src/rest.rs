//! The fluid at rest: what a step does to the density where nothing moves and
//! nothing diffuses.
//!
//! The solver computes with whatever arithmetic its scalar type brings, and an
//! arithmetic that rounds has no identities that hold of every value. So the
//! identities that the laws of this module rest on are stated as premises, one
//! operation at a time and only of the values that the solver meets: that zero
//! times the step is nothing, that a cell plus nothing is the cell, and the
//! like. `nought` is the property of standing for nothing; a scalar type
//! chooses it, and the laws hold for every choice that meets the premises.

use crate::advection::is_advected;
use crate::diffusion::is_diffused;
use crate::field::FieldView;
use crate::fluid_simulation::{is_stepped, SimulationView};
use crate::formula::{
    is_clamped, is_denominator, is_inner_span, is_last, is_lerp, is_rate, is_relaxed, is_ring,
    is_source, is_split, is_traced,
};
use crate::laws::{
    is_inert, is_null_weight, is_own_source, lemma_advection_keeps_own_sources,
    lemma_inert_diffusion_keeps_interior, lemma_step_stages, occurs,
};
use crate::scalar::{
    is_diff, is_floor, is_max, is_min, is_prod, is_quot, is_sum, is_whole, Scalar,
};
use vstd::prelude::*;

verus! {

/// Along a side of `limit` cells the arithmetic keeps the coordinate of a
/// cell that does not move through the step `dt`.
pub open spec fn keeps_coordinates<T: Scalar>(
    nought: spec_fn(T) -> bool,
    dt: T,
    limit: usize,
) -> bool {
    // zero velocity times the step is nothing
    &&& forall|v: T, m: T| is_whole(0, v) && #[trigger] is_prod(v, dt, m) ==> nought(m)
    // a coordinate less nothing is the coordinate
    &&& forall|pos: usize, p: T, m: T, s: T|
        pos < limit && #[trigger] is_whole(pos, p) && nought(m) && #[trigger] is_diff(p, m, s)
            ==> is_whole(pos, s)
    // the larger of a coordinate and zero is the coordinate
    &&& forall|pos: usize, s: T, z: T, lo: T|
        pos < limit && #[trigger] is_whole(pos, s) && is_whole(0, z) && #[trigger] is_max(s, z, lo)
            ==> is_whole(pos, lo)
    // the smaller of a coordinate and the last coordinate is the coordinate
    &&& forall|pos: usize, lo: T, hi: T, c: T|
        pos < limit && #[trigger] is_whole(pos, lo) && is_last(limit, hi) && #[trigger] is_min(
            lo,
            hi,
            c,
        ) ==> is_whole(pos, c)
    // the whole part of a coordinate is its cell
    &&& forall|pos: usize, c: T, k: usize|
        pos < limit && #[trigger] is_whole(pos, c) && #[trigger] is_floor(c, k) ==> k == pos
    // a coordinate less itself is nothing
    &&& forall|pos: usize, c: T, f: T, t: T|
        pos < limit && #[trigger] is_whole(pos, c) && is_whole(pos, f) && #[trigger] is_diff(
            c,
            f,
            t,
        ) ==> nought(t)
}

/// The arithmetic keeps the cells of `d` where nothing is added to them.
pub open spec fn keeps_cells<T: Scalar>(nought: spec_fn(T) -> bool, d: FieldView<T>) -> bool {
    // nothing times the difference of two cells is nothing
    &&& forall|x1: int, y1: int, x2: int, y2: int, t: T, e: T, p: T|
        d.contains(x1, y1) && d.contains(x2, y2) && nought(t) && #[trigger] is_diff(
            d.at(x2, y2),
            d.at(x1, y1),
            e,
        ) && #[trigger] is_prod(t, e, p) ==> nought(p)
    // a cell plus nothing is the cell
    &&& forall|x: int, y: int, p: T, r: T|
        d.contains(x, y) && nought(p) && #[trigger] is_sum(d.at(x, y), p, r) ==> r == d.at(x, y)
}

/// The arithmetic keeps the cells of `d` through a relaxation whose rate comes
/// from the step `dt` and a coefficient of zero.
pub open spec fn keeps_relaxed<T: Scalar>(
    nought: spec_fn(T) -> bool,
    d: FieldView<T>,
    dt: T,
) -> bool {
    // the step times a coefficient of zero is nothing
    &&& forall|z: T, m: T| is_whole(0, z) && #[trigger] is_prod(dt, z, m) ==> nought(m)
    // nothing times the inner span of a side is nothing
    &&& forall|n: usize, m: T, r: T, q: T|
        (n == d.width || n == d.height) && nought(m) && #[trigger] is_inner_span(n, r)
            && #[trigger] is_prod(m, r, q) ==> nought(q)
    // nothing times the sum of four values that occur in the field is nothing
    &&& forall|a: T, l: T, r: T, u: T, b: T, s: T, m: T|
        nought(a) && occurs(d, l) && occurs(d, r) && occurs(d, u) && occurs(d, b)
            && #[trigger] is_ring(l, r, u, b, s) && #[trigger] is_prod(a, s, m) ==> nought(m)
    // one plus four times nothing is one
    &&& forall|a: T, den: T| nought(a) && #[trigger] is_denominator(a, den) ==> is_whole(1, den)
    // a cell over one is the cell
    &&& forall|x: int, y: int, den: T, out: T|
        d.contains(x, y) && is_whole(1, den) && #[trigger] is_quot(d.at(x, y), den, out) ==> out
            == d.at(x, y)
}

/// Nothing is a null weight: a blend by it is the first of the two cells.
pub proof fn lemma_nought_is_null_weight<T: Scalar>(
    nought: spec_fn(T) -> bool,
    d: FieldView<T>,
    t: T,
)
    requires
        keeps_cells(nought, d),
        nought(t),
    ensures
        is_null_weight(d, t),
{
    assert forall|x1: int, y1: int, x2: int, y2: int, r: T|
        d.contains(x1, y1) && d.contains(x2, y2) && #[trigger] is_lerp(
            d.at(x1, y1),
            d.at(x2, y2),
            t,
            r,
        ) implies r == d.at(x1, y1) by {
        let (e, p) = choose|e: T, p: T|
            is_diff(d.at(x2, y2), d.at(x1, y1), e) && #[trigger] is_prod(t, e, p) && is_sum(
                d.at(x1, y1),
                p,
                r,
            );
        assert(nought(p));
    }
}

/// A cell that holds no velocity is its own source.
pub proof fn lemma_still_cell_is_own_source<T: Scalar>(
    nought: spec_fn(T) -> bool,
    d: FieldView<T>,
    pos: usize,
    v: T,
    dt: T,
    limit: usize,
)
    requires
        keeps_coordinates(nought, dt, limit),
        keeps_cells(nought, d),
        pos < limit,
        is_whole(0, v),
    ensures
        is_own_source(d, pos as int, v, dt, limit),
{
    assert forall|c: T, base: usize, t: T|
        is_source(pos, v, dt, limit, c) && #[trigger] is_split(c, limit, base, t) implies base
        == pos && is_null_weight(d, t) by {
        let s = choose|s: T| #[trigger] is_traced(pos, v, dt, s) && is_clamped(s, limit, c);
        let (p, m) = choose|p: T, m: T|
            is_whole(pos, p) && is_prod(v, dt, m) && #[trigger] is_diff(p, m, s);
        assert(nought(m));
        assert(is_whole(pos, s));
        let (z, lo, hi) = choose|z: T, lo: T, hi: T|
            is_whole(0, z) && #[trigger] is_max(s, z, lo) && is_last(limit, hi)
                && #[trigger] is_min(lo, hi, c);
        assert(is_whole(pos, lo));
        assert(is_whole(pos, c));
        let (k, f) = choose|k: usize, f: T|
            {
                &&& #[trigger] is_floor(c, k)
                &&& base == if k < limit {
                    k
                } else {
                    (limit - 1) as usize
                }
                &&& is_whole(base, f)
                &&& #[trigger] is_diff(c, f, t)
            };
        assert(k == pos);
        assert(nought(t));
        lemma_nought_is_null_weight(nought, d, t);
    }
}

/// Advection of a density whose velocity is zero everywhere returns the very
/// density, border and corners included, in every arithmetic that keeps
/// coordinates along both sides and keeps the cells.
pub proof fn lemma_advection_at_rest<T: Scalar>(
    nought: spec_fn(T) -> bool,
    before: FieldView<T>,
    vx: FieldView<T>,
    vy: FieldView<T>,
    dt: T,
    after: FieldView<T>,
)
    requires
        before.well_formed(),
        before.width <= usize::MAX,
        before.height <= usize::MAX,
        is_advected(before, vx, vy, dt, after),
        forall|x: int, y: int| before.contains(x, y) ==> is_whole(0, #[trigger] vx.at(x, y)),
        forall|x: int, y: int| before.contains(x, y) ==> is_whole(0, #[trigger] vy.at(x, y)),
        keeps_coordinates(nought, dt, before.width as usize),
        keeps_coordinates(nought, dt, before.height as usize),
        keeps_cells(nought, before),
    ensures
        after == before,
{
    let w = before.width as usize;
    let h = before.height as usize;
    assert forall|x: int, y: int| before.contains(x, y) implies is_own_source(
        before,
        x,
        #[trigger] vx.at(x, y),
        dt,
        w,
    ) by {
        lemma_still_cell_is_own_source(nought, before, x as usize, vx.at(x, y), dt, w);
    }
    assert forall|x: int, y: int| before.contains(x, y) implies is_own_source(
        before,
        y,
        #[trigger] vy.at(x, y),
        dt,
        h,
    ) by {
        lemma_still_cell_is_own_source(nought, before, y as usize, vy.at(x, y), dt, h);
    }
    lemma_advection_keeps_own_sources(before, vx, vy, dt, after);
}

/// The rate that a coefficient of zero gives makes the relaxation inert.
pub proof fn lemma_zero_coefficient_is_inert<T: Scalar>(
    nought: spec_fn(T) -> bool,
    d: FieldView<T>,
    diff: T,
    dt: T,
    a: T,
)
    requires
        d.width <= usize::MAX,
        d.height <= usize::MAX,
        is_whole(0, diff),
        keeps_relaxed(nought, d, dt),
        keeps_cells(nought, d),
        is_rate(dt, diff, d.width as usize, d.height as usize, a),
    ensures
        is_inert(d, a),
{
    let w = d.width as usize;
    let h = d.height as usize;
    let (m1, wi, m2, hi) = choose|m1: T, wi: T, m2: T, hi: T|
        {
            &&& is_prod(dt, diff, m1)
            &&& is_inner_span(w, wi)
            &&& #[trigger] is_prod(m1, wi, m2)
            &&& is_inner_span(h, hi)
            &&& #[trigger] is_prod(m2, hi, a)
        };
    assert(nought(m1));
    assert(nought(m2));
    assert(nought(a));
    assert forall|x: int, y: int, l: T, r: T, u: T, b: T, out: T|
        d.in_interior(x, y) && occurs(d, l) && occurs(d, r) && occurs(d, u) && occurs(d, b)
            && #[trigger] is_relaxed(d.at(x, y), l, r, u, b, a, out) implies out == d.at(x, y) by {
        let (s, m, num, den) = choose|s: T, m: T, num: T, den: T|
            {
                &&& is_ring(l, r, u, b, s)
                &&& #[trigger] is_prod(a, s, m)
                &&& is_sum(d.at(x, y), m, num)
                &&& is_denominator(a, den)
                &&& #[trigger] is_quot(num, den, out)
            };
        assert(nought(m));
        assert(d.contains(x, y));
        assert(num == d.at(x, y));
        assert(is_whole(1, den));
    }
}

/// A diffusion pass with a coefficient of zero on a grid with interior cells
/// keeps every interior cell and leaves zero in every border cell, in every
/// arithmetic that keeps the cells through the relaxation.
pub proof fn lemma_diffusion_without_coefficient<T: Scalar>(
    nought: spec_fn(T) -> bool,
    before: FieldView<T>,
    diff: T,
    dt: T,
    after: FieldView<T>,
)
    requires
        before.well_formed(),
        before.has_interior(),
        before.width <= usize::MAX,
        before.height <= usize::MAX,
        is_diffused(before, diff, dt, after),
        is_whole(0, diff),
        keeps_relaxed(nought, before, dt),
        keeps_cells(nought, before),
    ensures
        after.well_formed(),
        after.same_shape(before),
        forall|x: int, y: int|
            before.in_interior(x, y) ==> #[trigger] after.at(x, y) == before.at(x, y),
        forall|x: int, y: int| after.on_border(x, y) ==> is_whole(0, #[trigger] after.at(x, y)),
{
    assert forall|a: T| #[trigger]
        is_rate(dt, diff, before.width as usize, before.height as usize, a) implies is_inert(
        before,
        a,
    ) by {
        lemma_zero_coefficient_is_inert(nought, before, diff, dt, a);
    }
    lemma_inert_diffusion_keeps_interior(before, diff, dt, after);
}

/// One step of a fluid whose velocity is zero everywhere, with a diffusion
/// coefficient of zero, on a grid with interior cells: every interior cell
/// keeps its density and every border cell ends at zero, in every arithmetic
/// that keeps coordinates and cells. The step leaves the velocity pulled by
/// gravity, so the law speaks of one step and not of the steps after it.
pub proof fn lemma_step_at_rest<T: Scalar>(
    nought: spec_fn(T) -> bool,
    before: SimulationView<T>,
    dt: T,
    diff: T,
    after: SimulationView<T>,
)
    requires
        before.well_formed(),
        before.density.has_interior(),
        before.width() <= usize::MAX,
        before.height() <= usize::MAX,
        is_stepped(before, dt, diff, after),
        forall|x: int, y: int|
            before.contains(x, y) ==> is_whole(0, #[trigger] before.velocity_x.at(x, y)),
        forall|x: int, y: int|
            before.contains(x, y) ==> is_whole(0, #[trigger] before.velocity_y.at(x, y)),
        is_whole(0, diff),
        keeps_coordinates(nought, dt, before.width() as usize),
        keeps_coordinates(nought, dt, before.height() as usize),
        keeps_cells(nought, before.density),
        keeps_relaxed(nought, before.density, dt),
    ensures
        after.density.same_shape(before.density),
        forall|x: int, y: int|
            before.density.in_interior(x, y) ==> #[trigger] after.density.at(x, y)
                == before.density.at(x, y),
        forall|x: int, y: int|
            after.density.on_border(x, y) ==> is_whole(0, #[trigger] after.density.at(x, y)),
{
    let (carried, z, g, fx, fy) = lemma_step_stages(before, dt, diff, after);
    lemma_advection_at_rest(
        nought,
        before.density,
        before.velocity_x,
        before.velocity_y,
        dt,
        carried,
    );
    lemma_diffusion_without_coefficient(nought, before.density, diff, dt, after.density);
}

} // verus!
