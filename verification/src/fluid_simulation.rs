//! The simulation state and its entry points.

use crate::advection::{is_advected, transport};
use crate::diffusion::{
    diffusion_sweep, is_diffused, is_diffusion_round, is_diffusion_rounds, is_diffusion_sweep,
    is_pinned, DIFFUSION_ROUNDS,
};
use crate::field::{offset, Field, FieldView};
use crate::formula::{gravity, is_gravity, is_pushed, is_rate, push, rate};
use crate::laws::{lemma_diffusion_pins_border, lemma_step_pins_border};
use crate::projection::{
    divergence_field, is_divergence_field, is_gradient_removed_x, is_gradient_removed_y,
    is_mirrored, is_pressure_of, is_pressure_round, is_pressure_rounds, is_pressure_sweep,
    is_projected, is_zero_field, pressure_sweep, remove_gradient, PRESSURE_ROUNDS,
};
use crate::scalar::{is_sum, is_whole, Scalar};
use vstd::prelude::*;

verus! {

/// The mathematical content of a simulation: one density and two velocity
/// components per cell.
pub struct SimulationView<T> {
    pub density: FieldView<T>,
    pub velocity_x: FieldView<T>,
    pub velocity_y: FieldView<T>,
}

impl<T> SimulationView<T> {
    /// The three fields are well formed and cover the same grid.
    pub open spec fn well_formed(self) -> bool {
        &&& self.density.well_formed()
        &&& self.velocity_x.well_formed()
        &&& self.velocity_y.well_formed()
        &&& self.velocity_x.same_shape(self.density)
        &&& self.velocity_y.same_shape(self.density)
    }

    /// Number of columns of the grid.
    pub open spec fn width(self) -> nat {
        self.density.width
    }

    /// Number of rows of the grid.
    pub open spec fn height(self) -> nat {
        self.density.height
    }

    /// `(x, y)` names a cell of the grid.
    pub open spec fn contains(self, x: int, y: int) -> bool {
        self.density.contains(x, y)
    }
}

/// `after` is `before` with `f * dt` added to every cell.
pub open spec fn is_forced<T: Scalar>(before: FieldView<T>, f: T, dt: T, after: FieldView<T>) -> bool {
    &&& after.well_formed()
    &&& after.same_shape(before)
    &&& forall|x: int, y: int|
        before.contains(x, y) ==> is_pushed(before.at(x, y), f, dt, #[trigger] after.at(x, y))
}

/// Adds `f * dt` to every cell of `field`.
pub fn accelerate<T: Scalar>(field: &mut Field<T>, f: T, dt: T)
    requires
        old(field).wf(),
    ensures
        final(field).wf(),
        is_forced(old(field)@, f, dt, final(field)@),
{
    let w = field.width();
    let h = field.height();
    let mut y: usize = 0;
    while y < h
        invariant
            field.wf(),
            field@.same_shape(old(field)@),
            w == field@.width,
            h == field@.height,
            y <= h,
            forall|x2: int, y2: int|
                old(field)@.contains(x2, y2) ==> if y2 < y {
                    is_pushed(old(field)@.at(x2, y2), f, dt, #[trigger] field@.at(x2, y2))
                } else {
                    field@.at(x2, y2) == old(field)@.at(x2, y2)
                },
        decreases h - y,
    {
        let mut x: usize = 0;
        while x < w
            invariant
                field.wf(),
                field@.same_shape(old(field)@),
                w == field@.width,
                h == field@.height,
                y < h,
                x <= w,
                forall|x2: int, y2: int|
                    old(field)@.contains(x2, y2) ==> if y2 < y || (y2 == y && x2 < x) {
                        is_pushed(old(field)@.at(x2, y2), f, dt, #[trigger] field@.at(x2, y2))
                    } else {
                        field@.at(x2, y2) == old(field)@.at(x2, y2)
                    },
            decreases w - x,
        {
            let v = field.read(x, y);
            let pushed = push(v, f, dt);
            field.set(x, y, pushed);
            x += 1;
        }
        y += 1;
    }
}

/// `after` is the state `before` after one step of length `dt` with the
/// diffusion coefficient `diff`: the density is carried along the velocity and
/// then diffused; the velocity is pulled downward by gravity and then
/// projected.
pub open spec fn is_stepped<T: Scalar>(
    before: SimulationView<T>,
    dt: T,
    diff: T,
    after: SimulationView<T>,
) -> bool {
    exists|carried: FieldView<T>, z: T, g: T, fx: FieldView<T>, fy: FieldView<T>|
        {
            &&& #[trigger] is_advected(
                before.density,
                before.velocity_x,
                before.velocity_y,
                dt,
                carried,
            )
            &&& is_diffused(carried, diff, dt, after.density)
            &&& is_whole(0, z)
            &&& is_gravity(g)
            &&& #[trigger] is_forced(before.velocity_x, z, dt, fx)
            &&& #[trigger] is_forced(before.velocity_y, g, dt, fy)
            &&& is_projected(fx, fy, after.velocity_x, after.velocity_y)
        }
}

/// A fluid on a fixed grid: a density that is carried along by a velocity
/// field, which in turn is kept free of divergence.
pub struct FluidSimulation<T> {
    density: Field<T>,
    velocity_x: Field<T>,
    velocity_y: Field<T>,
}

impl<T> View for FluidSimulation<T> {
    type V = SimulationView<T>;

    closed spec fn view(&self) -> SimulationView<T> {
        SimulationView {
            density: self.density@,
            velocity_x: self.velocity_x@,
            velocity_y: self.velocity_y@,
        }
    }
}

impl<T: Scalar> FluidSimulation<T> {
    /// The representation invariant, stated over the view.
    pub open spec fn wf(&self) -> bool {
        self@.well_formed()
    }

    /// A fluid at rest on a `width` by `height` grid, with no density anywhere.
    /// `None` when a side is zero or the number of cells does not fit in `usize`.
    pub fn new(width: usize, height: usize) -> (r: Option<FluidSimulation<T>>)
        ensures
            r is Some <==> width >= 1 && height >= 1 && width * height <= usize::MAX,
            r matches Some(s) ==> {
                &&& s.wf()
                &&& s@.width() == width
                &&& s@.height() == height
                &&& forall|x: int, y: int|
                    s@.contains(x, y) ==> is_whole(0, #[trigger] s@.density.at(x, y))
                &&& forall|x: int, y: int|
                    s@.contains(x, y) ==> is_whole(0, #[trigger] s@.velocity_x.at(x, y))
                &&& forall|x: int, y: int|
                    s@.contains(x, y) ==> is_whole(0, #[trigger] s@.velocity_y.at(x, y))
            },
    {
        let zero = T::from_index(0);
        match Field::new(width, height, zero) {
            None => None,
            Some(density) => {
                let velocity_x = density.blank(zero);
                let velocity_y = density.blank(zero);
                Some(FluidSimulation { density, velocity_x, velocity_y })
            },
        }
    }

    /// Number of columns of the grid.
    pub fn width(&self) -> (w: usize)
        ensures
            w == self@.width(),
    {
        self.density.width()
    }

    /// Number of rows of the grid.
    pub fn height(&self) -> (h: usize)
        ensures
            h == self@.height(),
    {
        self.density.height()
    }

    /// The flat offset of the cell `(x, y)` in each of the three fields, or
    /// `None` when `(x, y)` is outside the grid.
    pub fn index(&self, x: usize, y: usize) -> (r: Option<usize>)
        requires
            self.wf(),
        ensures
            r == if self@.contains(x as int, y as int) {
                Some(offset(self@.width(), x as int, y as int) as usize)
            } else {
                None
            },
            r matches Some(i) ==> i == offset(self@.width(), x as int, y as int) && i
                < self@.density.cells.len(),
    {
        self.density.index(x, y)
    }

    /// The density at `(x, y)`, and zero for a cell outside the grid.
    pub fn density_at(&self, x: usize, y: usize) -> (r: T)
        requires
            self.wf(),
        ensures
            self@.contains(x as int, y as int) ==> r == self@.density.at(x as int, y as int),
            !self@.contains(x as int, y as int) ==> is_whole(0, r),
    {
        match self.density.get(x, y) {
            Some(v) => v,
            None => T::from_index(0),
        }
    }

    /// The two velocity components at `(x, y)`, and zero for a cell outside
    /// the grid.
    pub fn velocity_at(&self, x: usize, y: usize) -> (r: (T, T))
        requires
            self.wf(),
        ensures
            self@.contains(x as int, y as int) ==> r.0 == self@.velocity_x.at(x as int, y as int)
                && r.1 == self@.velocity_y.at(x as int, y as int),
            !self@.contains(x as int, y as int) ==> is_whole(0, r.0) && is_whole(0, r.1),
    {
        match (self.velocity_x.get(x, y), self.velocity_y.get(x, y)) {
            (Some(vx), Some(vy)) => (vx, vy),
            _ => (T::from_index(0), T::from_index(0)),
        }
    }

    /// Adds `amount` to the density at `(x, y)`. A cell outside the grid is
    /// ignored.
    pub fn add_density(&mut self, x: usize, y: usize, amount: T)
        requires
            old(self).wf(),
        ensures
            final(self).wf(),
            final(self)@.velocity_x == old(self)@.velocity_x,
            final(self)@.velocity_y == old(self)@.velocity_y,
            final(self)@.density.same_shape(old(self)@.density),
            !old(self)@.contains(x as int, y as int) ==> final(self)@ == old(self)@,
            old(self)@.contains(x as int, y as int) ==> {
                &&& is_sum(
                    old(self)@.density.at(x as int, y as int),
                    amount,
                    final(self)@.density.at(x as int, y as int),
                )
                &&& final(self)@.density.cells == old(self)@.density.cells.update(
                    offset(old(self)@.width(), x as int, y as int),
                    final(self)@.density.at(x as int, y as int),
                )
            },
    {
        match self.density.get(x, y) {
            Some(v) => {
                let sum = v.add(amount);
                self.density.set(x, y, sum);
            },
            None => {},
        }
    }

    /// Adds `(amount_x, amount_y)` to the velocity at `(x, y)`. A cell outside
    /// the grid is ignored.
    pub fn add_velocity(&mut self, x: usize, y: usize, amount_x: T, amount_y: T)
        requires
            old(self).wf(),
        ensures
            final(self).wf(),
            final(self)@.density == old(self)@.density,
            final(self)@.velocity_x.same_shape(old(self)@.velocity_x),
            final(self)@.velocity_y.same_shape(old(self)@.velocity_y),
            !old(self)@.contains(x as int, y as int) ==> final(self)@ == old(self)@,
            old(self)@.contains(x as int, y as int) ==> {
                &&& is_sum(
                    old(self)@.velocity_x.at(x as int, y as int),
                    amount_x,
                    final(self)@.velocity_x.at(x as int, y as int),
                )
                &&& is_sum(
                    old(self)@.velocity_y.at(x as int, y as int),
                    amount_y,
                    final(self)@.velocity_y.at(x as int, y as int),
                )
                &&& final(self)@.velocity_x.cells == old(self)@.velocity_x.cells.update(
                    offset(old(self)@.width(), x as int, y as int),
                    final(self)@.velocity_x.at(x as int, y as int),
                )
                &&& final(self)@.velocity_y.cells == old(self)@.velocity_y.cells.update(
                    offset(old(self)@.width(), x as int, y as int),
                    final(self)@.velocity_y.at(x as int, y as int),
                )
            },
    {
        match (self.velocity_x.get(x, y), self.velocity_y.get(x, y)) {
            (Some(vx), Some(vy)) => {
                let sum_x = vx.add(amount_x);
                let sum_y = vy.add(amount_y);
                self.velocity_x.set(x, y, sum_x);
                self.velocity_y.set(x, y, sum_y);
            },
            _ => {},
        }
    }

    /// Accelerates every cell by the uniform force `(force_x, force_y)` over
    /// the time `dt`. The density is not touched.
    pub fn apply_forces(&mut self, force_x: T, force_y: T, dt: T)
        requires
            old(self).wf(),
        ensures
            final(self).wf(),
            final(self)@.density == old(self)@.density,
            is_forced(old(self)@.velocity_x, force_x, dt, final(self)@.velocity_x),
            is_forced(old(self)@.velocity_y, force_y, dt, final(self)@.velocity_y),
    {
        accelerate(&mut self.velocity_x, force_x, dt);
        accelerate(&mut self.velocity_y, force_y, dt);
    }

    /// Carries the density along the velocity for the time `dt`. The new
    /// density is computed from the old one as a whole and then put in its
    /// place.
    pub fn advect(&mut self, dt: T)
        requires
            old(self).wf(),
        ensures
            final(self).wf(),
            final(self)@.velocity_x == old(self)@.velocity_x,
            final(self)@.velocity_y == old(self)@.velocity_y,
            is_advected(
                old(self)@.density,
                old(self)@.velocity_x,
                old(self)@.velocity_y,
                dt,
                final(self)@.density,
            ),
    {
        let fresh = transport(&self.density, &self.velocity_x, &self.velocity_y, dt);
        self.density = fresh;
    }

    /// Sets the density of every border cell to zero.
    pub fn set_bnd(&mut self)
        requires
            old(self).wf(),
        ensures
            final(self).wf(),
            final(self)@.velocity_x == old(self)@.velocity_x,
            final(self)@.velocity_y == old(self)@.velocity_y,
            is_pinned(old(self)@.density, final(self)@.density),
    {
        self.density.pin_border(T::from_index(0));
    }

    /// Diffuses the density with the coefficient `diff` over the time `dt`.
    /// Every round relaxes from the density as it was before the pass, of
    /// which a copy is kept. On a grid without interior cells nothing happens.
    pub fn diffuse(&mut self, diff: T, dt: T)
        requires
            old(self).wf(),
        ensures
            final(self).wf(),
            final(self)@.velocity_x == old(self)@.velocity_x,
            final(self)@.velocity_y == old(self)@.velocity_y,
            is_diffused(old(self)@.density, diff, dt, final(self)@.density),
            old(self)@.density.has_interior() ==> forall|x: int, y: int|
                final(self)@.density.on_border(x, y) ==> is_whole(
                    0,
                    #[trigger] final(self)@.density.at(x, y),
                ),
    {
        let w = self.width();
        let h = self.height();
        if w < 3 || h < 3 {
            return ;
        }
        let a = rate(dt, diff, w, h);
        let origin = self.density.duplicate();
        let mut k: usize = 0;
        while k < DIFFUSION_ROUNDS
            invariant
                self.wf(),
                origin.wf(),
                origin@ == old(self)@.density,
                self@.velocity_x == old(self)@.velocity_x,
                self@.velocity_y == old(self)@.velocity_y,
                self@.density.same_shape(old(self)@.density),
                self@.density.has_interior(),
                k <= DIFFUSION_ROUNDS,
                is_diffusion_rounds(origin@, a, k as nat, self@.density),
            decreases DIFFUSION_ROUNDS - k,
        {
            let ghost prev = self@.density;
            diffusion_sweep(&mut self.density, &origin, a);
            let ghost swept = self@.density;
            self.set_bnd();
            proof {
                assert(is_diffusion_sweep(origin@, prev, a, swept) && is_pinned(
                    swept,
                    self@.density,
                ));
                assert(is_diffusion_round(origin@, prev, a, self@.density));
            }
            k += 1;
        }
        proof {
            assert(is_rate(
                dt,
                diff,
                old(self)@.density.width as usize,
                old(self)@.density.height as usize,
                a,
            ));
            lemma_diffusion_pins_border(old(self)@.density, diff, dt, self@.density);
        }
    }

    /// Mirrors the interior of `array` onto its border. On a grid without
    /// interior cells nothing happens.
    pub fn set_bnd_p(&self, array: &mut Field<T>)
        requires
            self.wf(),
            old(array).wf(),
            old(array)@.same_shape(self@.density),
        ensures
            final(array).wf(),
            final(array)@.same_shape(old(array)@),
            self@.density.has_interior() ==> is_mirrored(old(array)@, final(array)@),
            !self@.density.has_interior() ==> final(array)@ == old(array)@,
    {
        array.mirror_border();
    }

    /// Mirrors the interior of both velocity components onto the border. On a
    /// grid without interior cells nothing happens.
    pub fn set_bnd_velocity(&mut self)
        requires
            old(self).wf(),
        ensures
            final(self).wf(),
            final(self)@.density == old(self)@.density,
            old(self)@.density.has_interior() ==> is_mirrored(
                old(self)@.velocity_x,
                final(self)@.velocity_x,
            ) && is_mirrored(old(self)@.velocity_y, final(self)@.velocity_y),
            !old(self)@.density.has_interior() ==> final(self)@ == old(self)@,
    {
        self.velocity_x.mirror_border();
        self.velocity_y.mirror_border();
    }

    /// Makes the velocity nearly free of divergence. On a grid without
    /// interior cells nothing happens.
    pub fn project(&mut self)
        requires
            old(self).wf(),
        ensures
            final(self).wf(),
            final(self)@.density == old(self)@.density,
            is_projected(
                old(self)@.velocity_x,
                old(self)@.velocity_y,
                final(self)@.velocity_x,
                final(self)@.velocity_y,
            ),
    {
        let w = self.width();
        let h = self.height();
        if w < 3 || h < 3 {
            return ;
        }
        let mut div = divergence_field(&self.velocity_x, &self.velocity_y);
        let mut p = self.density.blank(T::from_index(0));
        let ghost raw = div@;
        let ghost zero = p@;
        self.set_bnd_p(&mut p);
        self.set_bnd_p(&mut div);
        let ghost start = p@;
        let mut k: usize = 0;
        while k < PRESSURE_ROUNDS
            invariant
                self.wf(),
                self@ == old(self)@,
                self@.density.has_interior(),
                p.wf(),
                div.wf(),
                p@.same_shape(self@.density),
                div@.same_shape(self@.density),
                k <= PRESSURE_ROUNDS,
                is_pressure_rounds(div@, start, k as nat, p@),
            decreases PRESSURE_ROUNDS - k,
        {
            let ghost prev = p@;
            pressure_sweep(&mut p, &div);
            let ghost swept = p@;
            self.set_bnd_p(&mut p);
            proof {
                assert(is_pressure_sweep(div@, prev, swept) && is_mirrored(swept, p@));
                assert(is_pressure_round(div@, prev, p@));
            }
            k += 1;
        }
        proof {
            assert(is_divergence_field(old(self)@.velocity_x, old(self)@.velocity_y, raw)
                && is_mirrored(raw, div@) && is_zero_field(zero) && is_mirrored(zero, start)
                && is_pressure_rounds(div@, start, PRESSURE_ROUNDS as nat, p@));
            assert(is_pressure_of(old(self)@.velocity_x, old(self)@.velocity_y, p@));
        }
        remove_gradient(&mut self.velocity_x, &mut self.velocity_y, &p);
        let ghost cx = self@.velocity_x;
        let ghost cy = self@.velocity_y;
        self.set_bnd_velocity();
        proof {
            assert(is_gradient_removed_x(old(self)@.velocity_x, p@, cx) && is_gradient_removed_y(
                old(self)@.velocity_y,
                p@,
                cy,
            ));
        }
    }

    /// Advances the fluid by one step of length `dt` with the diffusion
    /// coefficient `diff`: the density is carried along the velocity and
    /// diffused, then the velocity is pulled downward by gravity and projected.
    pub fn step(&mut self, dt: T, diff: T)
        requires
            old(self).wf(),
        ensures
            final(self).wf(),
            final(self)@.density.same_shape(old(self)@.density),
            is_stepped(old(self)@, dt, diff, final(self)@),
            old(self)@.density.has_interior() ==> forall|x: int, y: int|
                final(self)@.density.on_border(x, y) ==> is_whole(
                    0,
                    #[trigger] final(self)@.density.at(x, y),
                ),
    {
        self.advect(dt);
        let ghost carried = self@.density;
        self.diffuse(diff, dt);
        let zero = T::from_index(0);
        let g = gravity::<T>();
        self.apply_forces(zero, g, dt);
        let ghost fx = self@.velocity_x;
        let ghost fy = self@.velocity_y;
        self.project();
        proof {
            assert(is_advected(
                old(self)@.density,
                old(self)@.velocity_x,
                old(self)@.velocity_y,
                dt,
                carried,
            ) && is_forced(old(self)@.velocity_x, zero, dt, fx) && is_forced(
                old(self)@.velocity_y,
                g,
                dt,
                fy,
            ));
            if old(self)@.density.has_interior() {
                lemma_step_pins_border(old(self)@, dt, diff, self@);
            }
        }
    }
}

} // verus!
