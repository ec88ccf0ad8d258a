//! Properties of the solver that follow from the relations its stages
//! compute, whatever the scalar type.

use crate::advection::{is_advected, is_carried, is_sample, next_or_same};
use crate::diffusion::{
    is_diffused, is_diffusion_round, is_diffusion_rounds, is_diffusion_sweep, is_pinned,
    DIFFUSION_ROUNDS,
};
use crate::field::{lemma_equal_cells, FieldView};
use crate::fluid_simulation::{is_forced, is_stepped, SimulationView};
use crate::formula::{is_gravity, is_lerp, is_rate, is_relaxed, is_source, is_split};
use crate::projection::{
    is_gradient_removed_x, is_gradient_removed_y, is_mirrored, is_pressure_of, is_projected,
};
use crate::scalar::{is_whole, Scalar};
use vstd::prelude::*;

verus! {

/// `t` is a weight under which the blend of any two cells of `d` is the first
/// of the two.
pub open spec fn is_null_weight<T: Scalar>(d: FieldView<T>, t: T) -> bool {
    forall|x1: int, y1: int, x2: int, y2: int, r: T|
        d.contains(x1, y1) && d.contains(x2, y2) && #[trigger] is_lerp(
            d.at(x1, y1),
            d.at(x2, y2),
            t,
            r,
        ) ==> r == d.at(x1, y1)
}

/// Along a side of `limit` cells, the cell at `pos` is its own source under
/// the velocity component `v` and the step `dt`: every coordinate that the
/// backward trace can give splits into the cell `pos` and a null weight.
pub open spec fn is_own_source<T: Scalar>(
    d: FieldView<T>,
    pos: int,
    v: T,
    dt: T,
    limit: usize,
) -> bool {
    forall|c: T, base: usize, t: T|
        is_source(pos as usize, v, dt, limit, c) && #[trigger] is_split(c, limit, base, t) ==> base
            == pos && is_null_weight(d, t)
}

/// A blend by null weights is the value of the lower corner.
pub proof fn lemma_sample_at_null_weights<T: Scalar>(
    d: FieldView<T>,
    x0: int,
    y0: int,
    sx: T,
    sy: T,
    out: T,
)
    requires
        d.well_formed(),
        d.contains(x0, y0),
        is_null_weight(d, sx),
        is_null_weight(d, sy),
        is_sample(d, x0, y0, sx, sy, out),
    ensures
        out == d.at(x0, y0),
{
    let x1 = next_or_same(d.width, x0);
    let y1 = next_or_same(d.height, y0);
    let (d0, d1) = choose|d0: T, d1: T|
        {
            &&& is_lerp(d.at(x0, y0), d.at(x1, y0), sx, d0)
            &&& is_lerp(d.at(x0, y1), d.at(x1, y1), sx, d1)
            &&& #[trigger] is_lerp(d0, d1, sy, out)
        };
    assert(d0 == d.at(x0, y0));
    assert(d1 == d.at(x0, y1));
}

/// Advection reproduces the density exactly wherever every cell is its own
/// source, that is, wherever the backward trace lands on the cell it started
/// from and the weights of the blend are null.
pub proof fn lemma_advection_keeps_own_sources<T: Scalar>(
    before: FieldView<T>,
    vx: FieldView<T>,
    vy: FieldView<T>,
    dt: T,
    after: FieldView<T>,
)
    requires
        before.well_formed(),
        is_advected(before, vx, vy, dt, after),
        forall|x: int, y: int|
            before.contains(x, y) ==> is_own_source(
                before,
                x,
                #[trigger] vx.at(x, y),
                dt,
                before.width as usize,
            ),
        forall|x: int, y: int|
            before.contains(x, y) ==> is_own_source(
                before,
                y,
                #[trigger] vy.at(x, y),
                dt,
                before.height as usize,
            ),
    ensures
        after == before,
{
    assert forall|x: int, y: int| after.contains(x, y) implies #[trigger] after.at(x, y)
        == before.at(x, y) by {
        let out = after.at(x, y);
        let w = before.width as usize;
        let h = before.height as usize;
        assert(is_carried(before, vx.at(x, y), vy.at(x, y), dt, x, y, out));
        let (xs, ys, x0, y0, sx, sy) = choose|xs: T, ys: T, x0: usize, y0: usize, sx: T, sy: T|
            {
                &&& is_source(x as usize, vx.at(x, y), dt, w, xs)
                &&& is_source(y as usize, vy.at(x, y), dt, h, ys)
                &&& #[trigger] is_split(xs, w, x0, sx)
                &&& #[trigger] is_split(ys, h, y0, sy)
                &&& is_sample(before, x0 as int, y0 as int, sx, sy, out)
            };
        assert(is_own_source(before, x, vx.at(x, y), dt, w));
        assert(is_own_source(before, y, vy.at(x, y), dt, h));
        assert(x0 == x && is_null_weight(before, sx));
        assert(y0 == y && is_null_weight(before, sy));
        lemma_sample_at_null_weights(before, x, y, sx, sy, out);
    }
    lemma_equal_cells(after, before);
}

/// The last of `n` rounds of diffusion: the field before it and the field
/// between its sweep and its pinning.
pub proof fn lemma_last_round<T: Scalar>(
    origin: FieldView<T>,
    a: T,
    n: nat,
    after: FieldView<T>,
) -> (mid: (FieldView<T>, FieldView<T>))
    requires
        n >= 1,
        is_diffusion_rounds(origin, a, n, after),
    ensures
        is_diffusion_rounds(origin, a, (n - 1) as nat, mid.0),
        is_diffusion_sweep(origin, mid.0, a, mid.1),
        is_pinned(mid.1, after),
{
    let prev = choose|prev: FieldView<T>|
        is_diffusion_rounds(origin, a, (n - 1) as nat, prev) && #[trigger] is_diffusion_round(
            origin,
            prev,
            a,
            after,
        );
    let swept = choose|swept: FieldView<T>| #[trigger]
        is_diffusion_sweep(origin, prev, a, swept) && is_pinned(swept, after);
    (prev, swept)
}

/// Rounds of diffusion never change the shape of a field.
pub proof fn lemma_diffusion_rounds_keep_shape<T: Scalar>(
    before: FieldView<T>,
    a: T,
    n: nat,
    after: FieldView<T>,
)
    requires
        before.well_formed(),
        is_diffusion_rounds(before, a, n, after),
    ensures
        after.well_formed(),
        after.same_shape(before),
    decreases n,
{
    if n > 0 {
        let (prev, swept) = lemma_last_round(before, a, n, after);
        lemma_diffusion_rounds_keep_shape(before, a, (n - 1) as nat, prev);
    }
}

/// At least one round of diffusion leaves zero in every border cell.
pub proof fn lemma_diffusion_rounds_pin_border<T: Scalar>(
    before: FieldView<T>,
    a: T,
    n: nat,
    after: FieldView<T>,
)
    requires
        before.well_formed(),
        n >= 1,
        is_diffusion_rounds(before, a, n, after),
    ensures
        forall|x: int, y: int| after.on_border(x, y) ==> is_whole(0, #[trigger] after.at(x, y)),
{
    let (prev, swept) = lemma_last_round(before, a, n, after);
    lemma_diffusion_rounds_keep_shape(before, a, (n - 1) as nat, prev);
    assert forall|x: int, y: int| after.on_border(x, y) implies is_whole(
        0,
        #[trigger] after.at(x, y),
    ) by {
        assert(swept.on_border(x, y));
    }
}

/// A diffusion pass on a grid with interior cells leaves zero in every border
/// cell, whatever the field held before and whatever the coefficient and the
/// time step are.
pub proof fn lemma_diffusion_pins_border<T: Scalar>(
    before: FieldView<T>,
    diff: T,
    dt: T,
    after: FieldView<T>,
)
    requires
        before.well_formed(),
        before.has_interior(),
        is_diffused(before, diff, dt, after),
    ensures
        after.well_formed(),
        after.same_shape(before),
        forall|x: int, y: int| after.on_border(x, y) ==> is_whole(0, #[trigger] after.at(x, y)),
{
    let a = choose|a: T| #[trigger]
        is_rate(dt, diff, before.width as usize, before.height as usize, a) && is_diffusion_rounds(
            before,
            a,
            DIFFUSION_ROUNDS as nat,
            after,
        );
    lemma_diffusion_rounds_keep_shape(before, a, DIFFUSION_ROUNDS as nat, after);
    lemma_diffusion_rounds_pin_border(before, a, DIFFUSION_ROUNDS as nat, after);
}

/// `v` is zero or the value of some cell of `d`.
pub open spec fn occurs<T: Scalar>(d: FieldView<T>, v: T) -> bool {
    is_whole(0, v) || exists|x: int, y: int| d.contains(x, y) && #[trigger] d.at(x, y) == v
}

/// Relaxation with the coefficient `a` is inert on `d`: an interior cell of
/// `d` keeps its value, whichever of the values that occur in `d` its four
/// neighbours hold.
pub open spec fn is_inert<T: Scalar>(d: FieldView<T>, a: T) -> bool {
    forall|x: int, y: int, l: T, r: T, u: T, b: T, out: T|
        d.in_interior(x, y) && occurs(d, l) && occurs(d, r) && occurs(d, u) && occurs(d, b)
            && #[trigger] is_relaxed(d.at(x, y), l, r, u, b, a, out) ==> out == d.at(x, y)
}

/// `cur` has the interior of `origin`, and on its border only values that
/// occur in `origin`.
pub open spec fn has_interior_of<T: Scalar>(origin: FieldView<T>, cur: FieldView<T>) -> bool {
    &&& cur.well_formed()
    &&& cur.same_shape(origin)
    &&& forall|x: int, y: int|
        origin.contains(x, y) ==> if origin.in_interior(x, y) {
            #[trigger] cur.at(x, y) == origin.at(x, y)
        } else {
            occurs(origin, cur.at(x, y))
        }
}

/// Under an inert relaxation a sweep toward the diffusion of `origin` gives
/// the interior cell `(x, y)` the value that it has in `origin`, although the
/// sweep reads cells that it has already written.
pub proof fn lemma_inert_sweep_keeps_cell<T: Scalar>(
    origin: FieldView<T>,
    cur: FieldView<T>,
    a: T,
    next: FieldView<T>,
    x: int,
    y: int,
)
    requires
        origin.well_formed(),
        is_inert(origin, a),
        has_interior_of(origin, cur),
        is_diffusion_sweep(origin, cur, a, next),
        origin.in_interior(x, y),
    ensures
        next.at(x, y) == origin.at(x, y),
    decreases y, x,
{
    if origin.in_interior(x - 1, y) {
        lemma_inert_sweep_keeps_cell(origin, cur, a, next, x - 1, y);
    }
    if origin.in_interior(x, y - 1) {
        lemma_inert_sweep_keeps_cell(origin, cur, a, next, x, y - 1);
    }
    let l = next.at(x - 1, y);
    let r = cur.at(x + 1, y);
    let u = next.at(x, y - 1);
    let b = cur.at(x, y + 1);
    assert(cur.contains(x - 1, y) && cur.contains(x + 1, y) && cur.contains(x, y - 1)
        && cur.contains(x, y + 1));
    assert(occurs(origin, l)) by {
        if origin.in_interior(x - 1, y) {
            assert(origin.contains(x - 1, y) && origin.at(x - 1, y) == l);
        } else {
            assert(l == cur.at(x - 1, y));
        }
    }
    assert(occurs(origin, u)) by {
        if origin.in_interior(x, y - 1) {
            assert(origin.contains(x, y - 1) && origin.at(x, y - 1) == u);
        } else {
            assert(u == cur.at(x, y - 1));
        }
    }
    assert(occurs(origin, r)) by {
        if origin.in_interior(x + 1, y) {
            assert(origin.contains(x + 1, y) && origin.at(x + 1, y) == r);
        }
    }
    assert(occurs(origin, b)) by {
        if origin.in_interior(x, y + 1) {
            assert(origin.contains(x, y + 1) && origin.at(x, y + 1) == b);
        }
    }
    assert(is_relaxed(origin.at(x, y), l, r, u, b, a, next.at(x, y)));
}

/// Under an inert relaxation any number of rounds keeps the interior.
pub proof fn lemma_inert_rounds<T: Scalar>(
    origin: FieldView<T>,
    a: T,
    n: nat,
    after: FieldView<T>,
)
    requires
        origin.well_formed(),
        is_inert(origin, a),
        is_diffusion_rounds(origin, a, n, after),
    ensures
        has_interior_of(origin, after),
    decreases n,
{
    if n == 0 {
        assert forall|x: int, y: int| origin.contains(x, y) implies if origin.in_interior(x, y) {
            #[trigger] after.at(x, y) == origin.at(x, y)
        } else {
            occurs(origin, after.at(x, y))
        } by {
            assert(origin.at(x, y) == after.at(x, y));
        }
    } else {
        let (prev, swept) = lemma_last_round(origin, a, n, after);
        lemma_inert_rounds(origin, a, (n - 1) as nat, prev);
        assert forall|x: int, y: int| origin.contains(x, y) implies if origin.in_interior(x, y) {
            #[trigger] after.at(x, y) == origin.at(x, y)
        } else {
            occurs(origin, after.at(x, y))
        } by {
            if origin.in_interior(x, y) {
                lemma_inert_sweep_keeps_cell(origin, prev, a, swept, x, y);
                assert(!swept.on_border(x, y));
                assert(after.at(x, y) == swept.at(x, y));
            } else {
                assert(swept.on_border(x, y));
                assert(is_whole(0, after.at(x, y)));
            }
        }
    }
}

/// Where the relaxation is inert, a diffusion pass on a grid with interior
/// cells changes nothing but the border: every interior cell keeps its value
/// and every border cell becomes zero.
pub proof fn lemma_inert_diffusion_keeps_interior<T: Scalar>(
    before: FieldView<T>,
    diff: T,
    dt: T,
    after: FieldView<T>,
)
    requires
        before.well_formed(),
        before.has_interior(),
        is_diffused(before, diff, dt, after),
        forall|a: T| #[trigger]
            is_rate(dt, diff, before.width as usize, before.height as usize, a) ==> is_inert(
                before,
                a,
            ),
    ensures
        after.well_formed(),
        after.same_shape(before),
        forall|x: int, y: int|
            before.in_interior(x, y) ==> #[trigger] after.at(x, y) == before.at(x, y),
        forall|x: int, y: int| after.on_border(x, y) ==> is_whole(0, #[trigger] after.at(x, y)),
{
    let a = choose|a: T| #[trigger]
        is_rate(dt, diff, before.width as usize, before.height as usize, a) && is_diffusion_rounds(
            before,
            a,
            DIFFUSION_ROUNDS as nat,
            after,
        );
    lemma_inert_rounds(before, a, DIFFUSION_ROUNDS as nat, after);
    lemma_diffusion_pins_border(before, diff, dt, after);
}

/// A diffusion pass never changes the shape of a field.
pub proof fn lemma_diffusion_keeps_shape<T: Scalar>(
    before: FieldView<T>,
    diff: T,
    dt: T,
    after: FieldView<T>,
)
    requires
        before.well_formed(),
        is_diffused(before, diff, dt, after),
    ensures
        after.well_formed(),
        after.same_shape(before),
{
    if before.has_interior() {
        lemma_diffusion_pins_border(before, diff, dt, after);
    }
}

/// Projection never changes the shape of the velocity.
pub proof fn lemma_projection_keeps_shape<T: Scalar>(
    vx: FieldView<T>,
    vy: FieldView<T>,
    vx2: FieldView<T>,
    vy2: FieldView<T>,
)
    requires
        vx.well_formed(),
        vy.well_formed(),
        vy.same_shape(vx),
        is_projected(vx, vy, vx2, vy2),
    ensures
        vx2.well_formed(),
        vy2.well_formed(),
        vx2.same_shape(vx),
        vy2.same_shape(vx),
{
    if vx.has_interior() {
        let (p, cx, cy) = choose|p: FieldView<T>, cx: FieldView<T>, cy: FieldView<T>|
            {
                &&& is_pressure_of(vx, vy, p)
                &&& #[trigger] is_gradient_removed_x(vx, p, cx)
                &&& #[trigger] is_gradient_removed_y(vy, p, cy)
                &&& is_mirrored(cx, vx2)
                &&& is_mirrored(cy, vy2)
            };
    }
}

/// What lies between the stages of a step: the density after advection, the
/// zero and the gravity that force the velocity, and the two velocity
/// components after forcing.
pub proof fn lemma_step_stages<T: Scalar>(
    before: SimulationView<T>,
    dt: T,
    diff: T,
    after: SimulationView<T>,
) -> (mid: (FieldView<T>, T, T, FieldView<T>, FieldView<T>))
    requires
        is_stepped(before, dt, diff, after),
    ensures
        is_advected(before.density, before.velocity_x, before.velocity_y, dt, mid.0),
        is_diffused(mid.0, diff, dt, after.density),
        is_whole(0, mid.1),
        is_gravity(mid.2),
        is_forced(before.velocity_x, mid.1, dt, mid.3),
        is_forced(before.velocity_y, mid.2, dt, mid.4),
        is_projected(mid.3, mid.4, after.velocity_x, after.velocity_y),
{
    choose|carried: FieldView<T>, z: T, g: T, fx: FieldView<T>, fy: FieldView<T>|
        {
            &&& #[trigger] is_advected(
                before.density,
                before.velocity_x,
                before.velocity_y,
                dt,
                carried,
            )
            &&& is_diffused(carried, diff, dt, after.density)
            &&& is_whole(0, z)
            &&& is_gravity(g)
            &&& #[trigger] is_forced(before.velocity_x, z, dt, fx)
            &&& #[trigger] is_forced(before.velocity_y, g, dt, fy)
            &&& is_projected(fx, fy, after.velocity_x, after.velocity_y)
        }
}

/// After any step on a grid with interior cells, the density of every border
/// cell is zero.
pub proof fn lemma_step_pins_border<T: Scalar>(
    before: SimulationView<T>,
    dt: T,
    diff: T,
    after: SimulationView<T>,
)
    requires
        before.well_formed(),
        before.density.has_interior(),
        is_stepped(before, dt, diff, after),
    ensures
        after.density.same_shape(before.density),
        forall|x: int, y: int|
            after.density.on_border(x, y) ==> is_whole(0, #[trigger] after.density.at(x, y)),
{
    let (carried, z, g, fx, fy) = lemma_step_stages(before, dt, diff, after);
    lemma_diffusion_pins_border(carried, diff, dt, after.density);
}

/// A step takes a well-formed state to a well-formed state on the same grid.
pub proof fn lemma_step_keeps_shape<T: Scalar>(
    before: SimulationView<T>,
    dt: T,
    diff: T,
    after: SimulationView<T>,
)
    requires
        before.well_formed(),
        is_stepped(before, dt, diff, after),
    ensures
        after.well_formed(),
        after.density.same_shape(before.density),
{
    let (carried, z, g, fx, fy) = lemma_step_stages(before, dt, diff, after);
    lemma_diffusion_keeps_shape(carried, diff, dt, after.density);
    lemma_projection_keeps_shape(fx, fy, after.velocity_x, after.velocity_y);
}

} // verus!
