//! Removal of divergence from the velocity: the divergence of the velocity,
//! the pressure that answers it, and the subtraction of the pressure gradient.

use crate::field::{nearest_inner, Field, FieldView};
use crate::formula::{correct, divergence, is_corrected, is_divergence, is_pressure, pressure};
use crate::scalar::{is_whole, Scalar};
use vstd::prelude::*;

verus! {

/// `div` holds the divergence of the velocity `(vx, vy)` at every interior
/// cell and zero on the border.
pub open spec fn is_divergence_field<T: Scalar>(
    vx: FieldView<T>,
    vy: FieldView<T>,
    div: FieldView<T>,
) -> bool {
    &&& div.well_formed()
    &&& div.same_shape(vx)
    &&& forall|x: int, y: int|
        vx.contains(x, y) ==> if vx.in_interior(x, y) {
            is_divergence(
                vx.at(x + 1, y),
                vx.at(x - 1, y),
                vy.at(x, y + 1),
                vy.at(x, y - 1),
                vx.width as usize,
                #[trigger] div.at(x, y),
            )
        } else {
            is_whole(0, div.at(x, y))
        }
}

/// The divergence of the velocity `(vx, vy)` as a fresh field.
pub fn divergence_field<T: Scalar>(vx: &Field<T>, vy: &Field<T>) -> (div: Field<T>)
    requires
        vx.wf(),
        vy.wf(),
        vy@.same_shape(vx@),
        vx@.has_interior(),
    ensures
        div.wf(),
        is_divergence_field(vx@, vy@, div@),
{
    let w = vx.width();
    let h = vx.height();
    let zero = T::from_index(0);
    let mut div = vx.blank(zero);
    let mut y: usize = 1;
    while y < h - 1
        invariant
            vx.wf(),
            vy.wf(),
            vy@.same_shape(vx@),
            div.wf(),
            div@.same_shape(vx@),
            w == vx@.width,
            h == vx@.height,
            w >= 3,
            h >= 3,
            1 <= y <= h - 1,
            is_whole(0, zero),
            forall|x2: int, y2: int|
                vx@.contains(x2, y2) ==> if vx@.in_interior(x2, y2) && y2 < y {
                    is_divergence(
                        vx@.at(x2 + 1, y2),
                        vx@.at(x2 - 1, y2),
                        vy@.at(x2, y2 + 1),
                        vy@.at(x2, y2 - 1),
                        w,
                        #[trigger] div@.at(x2, y2),
                    )
                } else {
                    div@.at(x2, y2) == zero
                },
        decreases h - y,
    {
        let mut x: usize = 1;
        while x < w - 1
            invariant
                vx.wf(),
                vy.wf(),
                vy@.same_shape(vx@),
                div.wf(),
                div@.same_shape(vx@),
                w == vx@.width,
                h == vx@.height,
                w >= 3,
                h >= 3,
                1 <= y < h - 1,
                1 <= x <= w - 1,
                is_whole(0, zero),
                forall|x2: int, y2: int|
                    vx@.contains(x2, y2) ==> if vx@.in_interior(x2, y2) && (y2 < y || (y2 == y
                        && x2 < x)) {
                        is_divergence(
                            vx@.at(x2 + 1, y2),
                            vx@.at(x2 - 1, y2),
                            vy@.at(x2, y2 + 1),
                            vy@.at(x2, y2 - 1),
                            w,
                            #[trigger] div@.at(x2, y2),
                        )
                    } else {
                        div@.at(x2, y2) == zero
                    },
            decreases w - x,
        {
            let out = divergence(
                vx.read(x + 1, y),
                vx.read(x - 1, y),
                vy.read(x, y + 1),
                vy.read(x, y - 1),
                w,
            );
            div.set(x, y, out);
            x += 1;
        }
        y += 1;
    }
    div
}

/// Every cell of `p` is zero.
pub open spec fn is_zero_field<T: Scalar>(p: FieldView<T>) -> bool {
    &&& p.well_formed()
    &&& forall|x: int, y: int| p.contains(x, y) ==> is_whole(0, #[trigger] p.at(x, y))
}

/// `after` is `before` with every border cell replaced by the interior cell
/// nearest to it.
pub open spec fn is_mirrored<T>(before: FieldView<T>, after: FieldView<T>) -> bool {
    &&& after.well_formed()
    &&& after.same_shape(before)
    &&& forall|x: int, y: int|
        before.contains(x, y) ==> #[trigger] after.at(x, y) == before.at(
            nearest_inner(before.width, x),
            nearest_inner(before.height, y),
        )
}

/// `after` is the pressure `before` after one relaxation sweep against the
/// divergence `div`.
///
/// The sweep visits the interior cells row by row and writes in place, so the
/// cell to the left and the cell above are read with their new value, the
/// cells to the right and below with their old one. The border is not written.
pub open spec fn is_pressure_sweep<T: Scalar>(
    div: FieldView<T>,
    before: FieldView<T>,
    after: FieldView<T>,
) -> bool {
    &&& after.well_formed()
    &&& after.same_shape(before)
    &&& forall|x: int, y: int|
        before.contains(x, y) ==> if before.in_interior(x, y) {
            is_pressure(
                div.at(x, y),
                after.at(x - 1, y),
                before.at(x + 1, y),
                after.at(x, y - 1),
                before.at(x, y + 1),
                #[trigger] after.at(x, y),
            )
        } else {
            after.at(x, y) == before.at(x, y)
        }
}

/// One relaxation sweep of the pressure `p` against the divergence `div`, in
/// place.
pub fn pressure_sweep<T: Scalar>(p: &mut Field<T>, div: &Field<T>)
    requires
        old(p).wf(),
        div.wf(),
        div@.same_shape(old(p)@),
        old(p)@.has_interior(),
    ensures
        final(p).wf(),
        is_pressure_sweep(div@, old(p)@, final(p)@),
{
    let w = p.width();
    let h = p.height();
    let mut y: usize = 1;
    while y < h - 1
        invariant
            p.wf(),
            div.wf(),
            div@.same_shape(p@),
            p@.same_shape(old(p)@),
            w == p@.width,
            h == p@.height,
            w >= 3,
            h >= 3,
            1 <= y <= h - 1,
            forall|x2: int, y2: int|
                old(p)@.contains(x2, y2) ==> if old(p)@.in_interior(x2, y2) && y2 < y {
                    is_pressure(
                        div@.at(x2, y2),
                        p@.at(x2 - 1, y2),
                        old(p)@.at(x2 + 1, y2),
                        p@.at(x2, y2 - 1),
                        old(p)@.at(x2, y2 + 1),
                        #[trigger] p@.at(x2, y2),
                    )
                } else {
                    p@.at(x2, y2) == old(p)@.at(x2, y2)
                },
        decreases h - y,
    {
        let mut x: usize = 1;
        while x < w - 1
            invariant
                p.wf(),
                div.wf(),
                div@.same_shape(p@),
                p@.same_shape(old(p)@),
                w == p@.width,
                h == p@.height,
                w >= 3,
                h >= 3,
                1 <= y < h - 1,
                1 <= x <= w - 1,
                forall|x2: int, y2: int|
                    old(p)@.contains(x2, y2) ==> if old(p)@.in_interior(x2, y2) && (y2 < y || (y2
                        == y && x2 < x)) {
                        is_pressure(
                            div@.at(x2, y2),
                            p@.at(x2 - 1, y2),
                            old(p)@.at(x2 + 1, y2),
                            p@.at(x2, y2 - 1),
                            old(p)@.at(x2, y2 + 1),
                            #[trigger] p@.at(x2, y2),
                        )
                    } else {
                        p@.at(x2, y2) == old(p)@.at(x2, y2)
                    },
            decreases w - x,
        {
            let out = pressure(
                div.read(x, y),
                p.read(x - 1, y),
                p.read(x + 1, y),
                p.read(x, y - 1),
                p.read(x, y + 1),
            );
            p.set(x, y, out);
            x += 1;
        }
        y += 1;
    }
}

/// `after` is the pressure `before` after one sweep followed by mirroring the
/// border.
pub open spec fn is_pressure_round<T: Scalar>(
    div: FieldView<T>,
    before: FieldView<T>,
    after: FieldView<T>,
) -> bool {
    exists|swept: FieldView<T>| #[trigger]
        is_pressure_sweep(div, before, swept) && is_mirrored(swept, after)
}

/// `after` is the pressure `before` after `n` rounds of sweeping and
/// mirroring.
pub open spec fn is_pressure_rounds<T: Scalar>(
    div: FieldView<T>,
    before: FieldView<T>,
    n: nat,
    after: FieldView<T>,
) -> bool
    decreases n,
{
    if n == 0 {
        after == before
    } else {
        exists|prev: FieldView<T>|
            is_pressure_rounds(div, before, (n - 1) as nat, prev) && #[trigger] is_pressure_round(
                div,
                prev,
                after,
            )
    }
}

/// Number of relaxation rounds of one pressure solve.
pub const PRESSURE_ROUNDS: usize = 20;

/// `p` is the pressure that answers the velocity `(vx, vy)`: the divergence
/// is taken and mirrored onto the border, and a pressure that starts at zero,
/// mirrored likewise, is relaxed against it for twenty rounds.
pub open spec fn is_pressure_of<T: Scalar>(
    vx: FieldView<T>,
    vy: FieldView<T>,
    p: FieldView<T>,
) -> bool {
    exists|raw: FieldView<T>, div: FieldView<T>, zero: FieldView<T>, start: FieldView<T>|
        {
            &&& #[trigger] is_divergence_field(vx, vy, raw)
            &&& #[trigger] is_mirrored(raw, div)
            &&& is_zero_field(zero)
            &&& zero.same_shape(vx)
            &&& #[trigger] is_mirrored(zero, start)
            &&& #[trigger] is_pressure_rounds(div, start, PRESSURE_ROUNDS as nat, p)
        }
}

/// `after` is the horizontal velocity `v` less the pressure gradient across
/// each interior cell. The border is not written.
pub open spec fn is_gradient_removed_x<T: Scalar>(
    v: FieldView<T>,
    p: FieldView<T>,
    after: FieldView<T>,
) -> bool {
    &&& after.well_formed()
    &&& after.same_shape(v)
    &&& forall|x: int, y: int|
        v.contains(x, y) ==> if v.in_interior(x, y) {
            is_corrected(
                v.at(x, y),
                p.at(x + 1, y),
                p.at(x - 1, y),
                v.width as usize,
                #[trigger] after.at(x, y),
            )
        } else {
            after.at(x, y) == v.at(x, y)
        }
}

/// `after` is the vertical velocity `v` less the pressure gradient down each
/// interior cell. The border is not written.
pub open spec fn is_gradient_removed_y<T: Scalar>(
    v: FieldView<T>,
    p: FieldView<T>,
    after: FieldView<T>,
) -> bool {
    &&& after.well_formed()
    &&& after.same_shape(v)
    &&& forall|x: int, y: int|
        v.contains(x, y) ==> if v.in_interior(x, y) {
            is_corrected(
                v.at(x, y),
                p.at(x, y + 1),
                p.at(x, y - 1),
                v.height as usize,
                #[trigger] after.at(x, y),
            )
        } else {
            after.at(x, y) == v.at(x, y)
        }
}

/// Subtracts the gradient of the pressure `p` from the velocity `(vx, vy)` at
/// every interior cell.
pub fn remove_gradient<T: Scalar>(vx: &mut Field<T>, vy: &mut Field<T>, p: &Field<T>)
    requires
        old(vx).wf(),
        old(vy).wf(),
        p.wf(),
        old(vy)@.same_shape(old(vx)@),
        p@.same_shape(old(vx)@),
        old(vx)@.has_interior(),
    ensures
        final(vx).wf(),
        final(vy).wf(),
        is_gradient_removed_x(old(vx)@, p@, final(vx)@),
        is_gradient_removed_y(old(vy)@, p@, final(vy)@),
{
    let w = p.width();
    let h = p.height();
    let mut y: usize = 1;
    while y < h - 1
        invariant
            vx.wf(),
            vy.wf(),
            p.wf(),
            vx@.same_shape(old(vx)@),
            vy@.same_shape(old(vx)@),
            old(vy)@.same_shape(old(vx)@),
            p@.same_shape(old(vx)@),
            w == p@.width,
            h == p@.height,
            w >= 3,
            h >= 3,
            1 <= y <= h - 1,
            forall|x2: int, y2: int|
                old(vx)@.contains(x2, y2) ==> if old(vx)@.in_interior(x2, y2) && y2 < y {
                    is_corrected(
                        old(vx)@.at(x2, y2),
                        p@.at(x2 + 1, y2),
                        p@.at(x2 - 1, y2),
                        w,
                        #[trigger] vx@.at(x2, y2),
                    )
                } else {
                    vx@.at(x2, y2) == old(vx)@.at(x2, y2)
                },
            forall|x2: int, y2: int|
                old(vx)@.contains(x2, y2) ==> if old(vx)@.in_interior(x2, y2) && y2 < y {
                    is_corrected(
                        old(vy)@.at(x2, y2),
                        p@.at(x2, y2 + 1),
                        p@.at(x2, y2 - 1),
                        h,
                        #[trigger] vy@.at(x2, y2),
                    )
                } else {
                    vy@.at(x2, y2) == old(vy)@.at(x2, y2)
                },
        decreases h - y,
    {
        let mut x: usize = 1;
        while x < w - 1
            invariant
                vx.wf(),
                vy.wf(),
                p.wf(),
                vx@.same_shape(old(vx)@),
                vy@.same_shape(old(vx)@),
                old(vy)@.same_shape(old(vx)@),
                p@.same_shape(old(vx)@),
                w == p@.width,
                h == p@.height,
                w >= 3,
                h >= 3,
                1 <= y < h - 1,
                1 <= x <= w - 1,
                forall|x2: int, y2: int|
                    old(vx)@.contains(x2, y2) ==> if old(vx)@.in_interior(x2, y2) && (y2 < y || (
                    y2 == y && x2 < x)) {
                        is_corrected(
                            old(vx)@.at(x2, y2),
                            p@.at(x2 + 1, y2),
                            p@.at(x2 - 1, y2),
                            w,
                            #[trigger] vx@.at(x2, y2),
                        )
                    } else {
                        vx@.at(x2, y2) == old(vx)@.at(x2, y2)
                    },
                forall|x2: int, y2: int|
                    old(vx)@.contains(x2, y2) ==> if old(vx)@.in_interior(x2, y2) && (y2 < y || (
                    y2 == y && x2 < x)) {
                        is_corrected(
                            old(vy)@.at(x2, y2),
                            p@.at(x2, y2 + 1),
                            p@.at(x2, y2 - 1),
                            h,
                            #[trigger] vy@.at(x2, y2),
                        )
                    } else {
                        vy@.at(x2, y2) == old(vy)@.at(x2, y2)
                    },
            decreases w - x,
        {
            let across = correct(vx.read(x, y), p.read(x + 1, y), p.read(x - 1, y), w);
            let down = correct(vy.read(x, y), p.read(x, y + 1), p.read(x, y - 1), h);
            vx.set(x, y, across);
            vy.set(x, y, down);
            x += 1;
        }
        y += 1;
    }
}

/// `(vx2, vy2)` is the velocity `(vx, vy)` after projection: the gradient of
/// the pressure that answers `(vx, vy)` is subtracted in the interior, and
/// each component is mirrored onto the border. A grid without interior cells
/// is left as it was.
pub open spec fn is_projected<T: Scalar>(
    vx: FieldView<T>,
    vy: FieldView<T>,
    vx2: FieldView<T>,
    vy2: FieldView<T>,
) -> bool {
    if vx.has_interior() {
        exists|p: FieldView<T>, cx: FieldView<T>, cy: FieldView<T>|
            {
                &&& is_pressure_of(vx, vy, p)
                &&& #[trigger] is_gradient_removed_x(vx, p, cx)
                &&& #[trigger] is_gradient_removed_y(vy, p, cy)
                &&& is_mirrored(cx, vx2)
                &&& is_mirrored(cy, vy2)
            }
    } else {
        vx2 == vx && vy2 == vy
    }
}

} // verus!
