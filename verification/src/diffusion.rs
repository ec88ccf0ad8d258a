//! Implicit diffusion of a field: the linear system that ties the diffused
//! field to the field before the pass, relaxed in place a fixed number of
//! times.

use crate::field::{Field, FieldView};
use crate::formula::{is_rate, is_relaxed, relax};
use crate::scalar::{is_whole, Scalar};
use vstd::prelude::*;

verus! {

/// `after` is `before` after one relaxation sweep with the coefficient `a`
/// toward the diffusion of `origin`, the field before the pass.
///
/// Every interior cell is relaxed from its value in `origin`, which stays the
/// same through all sweeps of a pass, and from its four neighbours. The sweep
/// visits the interior cells row by row and writes in place, so the cell to
/// the left and the cell above are read with their new value, the cells to
/// the right and below with their old one. The border is not written.
pub open spec fn is_diffusion_sweep<T: Scalar>(
    origin: FieldView<T>,
    before: FieldView<T>,
    a: T,
    after: FieldView<T>,
) -> bool {
    &&& after.well_formed()
    &&& after.same_shape(before)
    &&& forall|x: int, y: int|
        before.contains(x, y) ==> if before.in_interior(x, y) {
            is_relaxed(
                origin.at(x, y),
                after.at(x - 1, y),
                before.at(x + 1, y),
                after.at(x, y - 1),
                before.at(x, y + 1),
                a,
                #[trigger] after.at(x, y),
            )
        } else {
            after.at(x, y) == before.at(x, y)
        }
}

/// One relaxation sweep over the interior of `field`, in place, toward the
/// diffusion of `origin`.
pub fn diffusion_sweep<T: Scalar>(field: &mut Field<T>, origin: &Field<T>, a: T)
    requires
        old(field).wf(),
        origin.wf(),
        origin@.same_shape(old(field)@),
        old(field)@.has_interior(),
    ensures
        final(field).wf(),
        is_diffusion_sweep(origin@, old(field)@, a, final(field)@),
{
    let w = field.width();
    let h = field.height();
    let mut y: usize = 1;
    while y < h - 1
        invariant
            field.wf(),
            origin.wf(),
            origin@.same_shape(field@),
            field@.same_shape(old(field)@),
            w == field@.width,
            h == field@.height,
            w >= 3,
            h >= 3,
            1 <= y <= h - 1,
            forall|x2: int, y2: int|
                old(field)@.contains(x2, y2) ==> if old(field)@.in_interior(x2, y2) && y2 < y {
                    is_relaxed(
                        origin@.at(x2, y2),
                        field@.at(x2 - 1, y2),
                        old(field)@.at(x2 + 1, y2),
                        field@.at(x2, y2 - 1),
                        old(field)@.at(x2, y2 + 1),
                        a,
                        #[trigger] field@.at(x2, y2),
                    )
                } else {
                    field@.at(x2, y2) == old(field)@.at(x2, y2)
                },
        decreases h - y,
    {
        let mut x: usize = 1;
        while x < w - 1
            invariant
                field.wf(),
                origin.wf(),
                origin@.same_shape(field@),
                field@.same_shape(old(field)@),
                w == field@.width,
                h == field@.height,
                w >= 3,
                h >= 3,
                1 <= y < h - 1,
                1 <= x <= w - 1,
                forall|x2: int, y2: int|
                    old(field)@.contains(x2, y2) ==> if old(field)@.in_interior(x2, y2) && (y2 < y
                        || (y2 == y && x2 < x)) {
                        is_relaxed(
                            origin@.at(x2, y2),
                            field@.at(x2 - 1, y2),
                            old(field)@.at(x2 + 1, y2),
                            field@.at(x2, y2 - 1),
                            old(field)@.at(x2, y2 + 1),
                            a,
                            #[trigger] field@.at(x2, y2),
                        )
                    } else {
                        field@.at(x2, y2) == old(field)@.at(x2, y2)
                    },
            decreases w - x,
        {
            let c = origin.read(x, y);
            let l = field.read(x - 1, y);
            let r = field.read(x + 1, y);
            let u = field.read(x, y - 1);
            let d = field.read(x, y + 1);
            let out = relax(c, l, r, u, d, a);
            field.set(x, y, out);
            x += 1;
        }
        y += 1;
    }
}

/// `after` is `before` with every border cell set to zero.
pub open spec fn is_pinned<T: Scalar>(before: FieldView<T>, after: FieldView<T>) -> bool {
    &&& after.well_formed()
    &&& after.same_shape(before)
    &&& forall|x: int, y: int|
        before.contains(x, y) ==> if before.on_border(x, y) {
            is_whole(0, #[trigger] after.at(x, y))
        } else {
            after.at(x, y) == before.at(x, y)
        }
}

/// `after` is `before` after one sweep toward the diffusion of `origin`,
/// followed by pinning the border.
pub open spec fn is_diffusion_round<T: Scalar>(
    origin: FieldView<T>,
    before: FieldView<T>,
    a: T,
    after: FieldView<T>,
) -> bool {
    exists|swept: FieldView<T>| #[trigger]
        is_diffusion_sweep(origin, before, a, swept) && is_pinned(swept, after)
}

/// `after` is what `n` rounds of sweeping and pinning make of `origin`. The
/// first round starts from `origin` itself, and every round relaxes toward
/// the diffusion of `origin`.
pub open spec fn is_diffusion_rounds<T: Scalar>(
    origin: FieldView<T>,
    a: T,
    n: nat,
    after: FieldView<T>,
) -> bool
    decreases n,
{
    if n == 0 {
        after == origin
    } else {
        exists|prev: FieldView<T>|
            is_diffusion_rounds(origin, a, (n - 1) as nat, prev) && #[trigger] is_diffusion_round(
                origin,
                prev,
                a,
                after,
            )
    }
}

/// Number of relaxation rounds of one diffusion pass.
pub const DIFFUSION_ROUNDS: usize = 20;

/// `after` is `before` diffused with the coefficient `diff` over the time
/// `dt`: twenty rounds of relaxation, all of them from the values that
/// `before` holds, with the rate that `diff`, `dt` and the grid give. A grid
/// without interior cells is left as it was.
pub open spec fn is_diffused<T: Scalar>(
    before: FieldView<T>,
    diff: T,
    dt: T,
    after: FieldView<T>,
) -> bool {
    if before.has_interior() {
        exists|a: T| #[trigger]
            is_rate(dt, diff, before.width as usize, before.height as usize, a)
                && is_diffusion_rounds(before, a, DIFFUSION_ROUNDS as nat, after)
    } else {
        after == before
    }
}

} // verus!
