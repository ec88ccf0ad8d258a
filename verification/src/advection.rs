//! Transport of a field along the velocity, by tracing every cell backward
//! and blending the four cells around the place it came from.

use crate::field::{Field, FieldView};
use crate::formula::{backtrace, is_lerp, is_source, is_split, lerp, split};
use crate::scalar::Scalar;
use vstd::prelude::*;

verus! {

/// The neighbour of the coordinate `c` along a side of `limit` cells: the
/// next cell, or `c` itself where `c` is the last one.
pub open spec fn next_or_same(limit: nat, c: int) -> int {
    if c + 1 < limit {
        c + 1
    } else {
        c
    }
}

/// `out` is the blend of the four cells whose lower corner is `(x0, y0)`, by
/// the weights `sx` across and `sy` down: the two upper cells are blended by
/// `sx`, the two lower cells likewise, and the two results by `sy`. Past the
/// last column or row the corner's own column or row is read again.
pub open spec fn is_sample<T: Scalar>(
    d: FieldView<T>,
    x0: int,
    y0: int,
    sx: T,
    sy: T,
    out: T,
) -> bool {
    let x1 = next_or_same(d.width, x0);
    let y1 = next_or_same(d.height, y0);
    exists|d0: T, d1: T|
        {
            &&& is_lerp(d.at(x0, y0), d.at(x1, y0), sx, d0)
            &&& is_lerp(d.at(x0, y1), d.at(x1, y1), sx, d1)
            &&& #[trigger] is_lerp(d0, d1, sy, out)
        }
}

/// Blends the four cells whose lower corner is `(x0, y0)`.
pub fn sample<T: Scalar>(d: &Field<T>, x0: usize, y0: usize, sx: T, sy: T) -> (out: T)
    requires
        d.wf(),
        d@.contains(x0 as int, y0 as int),
    ensures
        is_sample(d@, x0 as int, y0 as int, sx, sy, out),
{
    let w = d.width();
    let h = d.height();
    let x1 = if x0 < w - 1 {
        x0 + 1
    } else {
        x0
    };
    let y1 = if y0 < h - 1 {
        y0 + 1
    } else {
        y0
    };
    let d0 = lerp(d.read(x0, y0), d.read(x1, y0), sx);
    let d1 = lerp(d.read(x0, y1), d.read(x1, y1), sx);
    let out = lerp(d0, d1, sy);
    assert(is_lerp(d@.at(x0 as int, y0 as int), d@.at(x1 as int, y0 as int), sx, d0) && is_lerp(
        d@.at(x0 as int, y1 as int),
        d@.at(x1 as int, y1 as int),
        sx,
        d1,
    ) && is_lerp(d0, d1, sy, out));
    out
}

/// `out` is what the cell `(x, y)` holds after `d` was carried along the
/// velocity `(vx, vy)` for the time `dt`: the cell is traced back to its
/// clamped source, and the four cells around the source are blended.
pub open spec fn is_carried<T: Scalar>(
    d: FieldView<T>,
    vx: T,
    vy: T,
    dt: T,
    x: int,
    y: int,
    out: T,
) -> bool {
    exists|xs: T, ys: T, x0: usize, y0: usize, sx: T, sy: T|
        {
            &&& is_source(x as usize, vx, dt, d.width as usize, xs)
            &&& is_source(y as usize, vy, dt, d.height as usize, ys)
            &&& #[trigger] is_split(xs, d.width as usize, x0, sx)
            &&& #[trigger] is_split(ys, d.height as usize, y0, sy)
            &&& is_sample(d, x0 as int, y0 as int, sx, sy, out)
        }
}

/// The new value of the cell `(x, y)` when `d` is carried along the velocity
/// `(vx, vy)` for the time `dt`.
pub fn carry<T: Scalar>(d: &Field<T>, vx: T, vy: T, dt: T, x: usize, y: usize) -> (out: T)
    requires
        d.wf(),
        d@.contains(x as int, y as int),
    ensures
        is_carried(d@, vx, vy, dt, x as int, y as int, out),
{
    let w = d.width();
    let h = d.height();
    let xs = backtrace(x, vx, dt, w);
    let ys = backtrace(y, vy, dt, h);
    let (x0, sx) = split(xs, w);
    let (y0, sy) = split(ys, h);
    let out = sample(d, x0, y0, sx, sy);
    assert(d@.width as usize == w && d@.height as usize == h);
    assert((x as int) as usize == x && (y as int) as usize == y);
    assert(is_source(x, vx, dt, w, xs) && is_source(y, vy, dt, h, ys));
    assert(is_split(xs, w, x0, sx) && is_split(ys, h, y0, sy));
    assert(is_sample(d@, x0 as int, y0 as int, sx, sy, out));
    out
}

/// `after` is `before` carried along the velocity field `(vx, vy)` for the
/// time `dt`. Every cell of `after` is computed from `before` alone.
pub open spec fn is_advected<T: Scalar>(
    before: FieldView<T>,
    vx: FieldView<T>,
    vy: FieldView<T>,
    dt: T,
    after: FieldView<T>,
) -> bool {
    &&& after.well_formed()
    &&& after.same_shape(before)
    &&& forall|x: int, y: int|
        before.contains(x, y) ==> is_carried(
            before,
            vx.at(x, y),
            vy.at(x, y),
            dt,
            x,
            y,
            #[trigger] after.at(x, y),
        )
}

/// Carries `d` along the velocity field `(vx, vy)` for the time `dt` into a
/// fresh field.
pub fn transport<T: Scalar>(d: &Field<T>, vx: &Field<T>, vy: &Field<T>, dt: T) -> (r: Field<T>)
    requires
        d.wf(),
        vx.wf(),
        vy.wf(),
        vx@.same_shape(d@),
        vy@.same_shape(d@),
    ensures
        r.wf(),
        is_advected(d@, vx@, vy@, dt, r@),
{
    let w = d.width();
    let h = d.height();
    let mut fresh = d.blank(T::from_index(0));
    let mut y: usize = 0;
    while y < h
        invariant
            d.wf(),
            vx.wf(),
            vy.wf(),
            vx@.same_shape(d@),
            vy@.same_shape(d@),
            fresh.wf(),
            fresh@.same_shape(d@),
            w == d@.width,
            h == d@.height,
            y <= h,
            forall|x2: int, y2: int|
                d@.contains(x2, y2) && y2 < y ==> is_carried(
                    d@,
                    vx@.at(x2, y2),
                    vy@.at(x2, y2),
                    dt,
                    x2,
                    y2,
                    #[trigger] fresh@.at(x2, y2),
                ),
        decreases h - y,
    {
        let mut x: usize = 0;
        while x < w
            invariant
                d.wf(),
                vx.wf(),
                vy.wf(),
                vx@.same_shape(d@),
                vy@.same_shape(d@),
                fresh.wf(),
                fresh@.same_shape(d@),
                w == d@.width,
                h == d@.height,
                y < h,
                x <= w,
                forall|x2: int, y2: int|
                    d@.contains(x2, y2) && (y2 < y || (y2 == y && x2 < x)) ==> is_carried(
                        d@,
                        vx@.at(x2, y2),
                        vy@.at(x2, y2),
                        dt,
                        x2,
                        y2,
                        #[trigger] fresh@.at(x2, y2),
                    ),
            decreases w - x,
        {
            let out = carry(d, vx.read(x, y), vy.read(x, y), dt, x, y);
            fresh.set(x, y, out);
            x += 1;
        }
        y += 1;
    }
    fresh
}

} // verus!
