//! The per-cell formulas of the solver, each with the relation it computes.

use crate::scalar::{
    is_diff, is_floor, is_max, is_min, is_prod, is_quot, is_sum, is_whole, Scalar,
};
use vstd::prelude::*;

verus! {

/// `r` is `a + t * (b - a)`.
pub open spec fn is_lerp<T: Scalar>(a: T, b: T, t: T, r: T) -> bool {
    exists|d: T, p: T| is_diff(b, a, d) && #[trigger] is_prod(t, d, p) && is_sum(a, p, r)
}

/// Linear blend from `a` to `b` by the weight `t`.
pub fn lerp<T: Scalar>(a: T, b: T, t: T) -> (r: T)
    ensures
        is_lerp(a, b, t, r),
{
    let d = b.sub(a);
    let p = t.mul(d);
    let r = a.add(p);
    assert(is_diff(b, a, d) && is_prod(t, d, p) && is_sum(a, p, r));
    r
}

/// `s` is `pos - v * dt`: where the content of cell `pos` was one step ago.
pub open spec fn is_traced<T: Scalar>(pos: usize, v: T, dt: T, s: T) -> bool {
    exists|p: T, m: T| is_whole(pos, p) && is_prod(v, dt, m) && #[trigger] is_diff(p, m, s)
}

/// `hi` is `limit - 1`, the last coordinate along a side of `limit` cells.
pub open spec fn is_last<T: Scalar>(limit: usize, hi: T) -> bool {
    exists|n: T, one: T| is_whole(limit, n) && is_whole(1, one) && #[trigger] is_diff(n, one, hi)
}

/// `c` is `s` clamped to `0 ..= limit - 1`: first raised to zero, then lowered
/// to the last coordinate.
pub open spec fn is_clamped<T: Scalar>(s: T, limit: usize, c: T) -> bool {
    exists|z: T, lo: T, hi: T|
        is_whole(0, z) && #[trigger] is_max(s, z, lo) && is_last(limit, hi) && #[trigger] is_min(
            lo,
            hi,
            c,
        )
}

/// `c` is the clamped source coordinate of cell `pos` along a side of `limit`
/// cells, for the velocity component `v` and the step `dt`.
pub open spec fn is_source<T: Scalar>(pos: usize, v: T, dt: T, limit: usize, c: T) -> bool {
    exists|s: T| #[trigger] is_traced(pos, v, dt, s) && is_clamped(s, limit, c)
}

/// Traces cell `pos` back along the velocity component `v` for the time `dt`
/// and clamps the result to the side.
pub fn backtrace<T: Scalar>(pos: usize, v: T, dt: T, limit: usize) -> (c: T)
    ensures
        is_source(pos, v, dt, limit, c),
{
    let p = T::from_index(pos);
    let m = v.mul(dt);
    let s = p.sub(m);
    assert(is_whole(pos, p) && is_prod(v, dt, m) && is_diff(p, m, s));
    let z = T::from_index(0);
    let lo = s.max(z);
    let n = T::from_index(limit);
    let one = T::from_index(1);
    let hi = n.sub(one);
    assert(is_whole(limit, n) && is_whole(1, one) && is_diff(n, one, hi));
    let c = lo.min(hi);
    assert(is_whole(0, z) && is_max(s, z, lo) && is_last(limit, hi) && is_min(lo, hi, c));
    assert(is_traced(pos, v, dt, s) && is_clamped(s, limit, c));
    c
}

/// `base` is the cell at or below the coordinate `c`, kept inside a side of
/// `limit` cells, and `t` is `c - base`, the weight of the next cell.
pub open spec fn is_split<T: Scalar>(c: T, limit: usize, base: usize, t: T) -> bool {
    exists|k: usize, f: T|
        {
            &&& #[trigger] is_floor(c, k)
            &&& base == if k < limit {
                k
            } else {
                (limit - 1) as usize
            }
            &&& is_whole(base, f)
            &&& #[trigger] is_diff(c, f, t)
        }
}

/// Splits a coordinate into the cell below it and the fractional weight.
pub fn split<T: Scalar>(c: T, limit: usize) -> (r: (usize, T))
    requires
        limit >= 1,
    ensures
        r.0 < limit,
        is_split(c, limit, r.0, r.1),
{
    let k = c.floor_index();
    let base = if k < limit {
        k
    } else {
        limit - 1
    };
    let f = T::from_index(base);
    let t = c.sub(f);
    assert(is_floor(c, k) && is_whole(base, f) && is_diff(c, f, t));
    (base, t)
}

/// `s` is `((l + r) + u) + d`.
pub open spec fn is_ring<T: Scalar>(l: T, r: T, u: T, d: T, s: T) -> bool {
    exists|s1: T, s2: T| is_sum(l, r, s1) && #[trigger] is_sum(s1, u, s2) && is_sum(s2, d, s)
}

/// `den` is `1 + 4 * a`.
pub open spec fn is_denominator<T: Scalar>(a: T, den: T) -> bool {
    exists|one: T, four: T, m: T|
        is_whole(1, one) && is_whole(4, four) && #[trigger] is_prod(four, a, m) && #[trigger] is_sum(
            one,
            m,
            den,
        )
}

/// `out` is `(c + a * (((l + r) + u) + d)) / (1 + 4 * a)`: one relaxation of
/// the implicit diffusion equation at a cell with value `c` and neighbours
/// `l`, `r`, `u`, `d`.
pub open spec fn is_relaxed<T: Scalar>(c: T, l: T, r: T, u: T, d: T, a: T, out: T) -> bool {
    exists|s: T, m: T, num: T, den: T|
        {
            &&& is_ring(l, r, u, d, s)
            &&& #[trigger] is_prod(a, s, m)
            &&& is_sum(c, m, num)
            &&& is_denominator(a, den)
            &&& #[trigger] is_quot(num, den, out)
        }
}

/// One relaxation of the implicit diffusion equation at a cell.
pub fn relax<T: Scalar>(c: T, l: T, r: T, u: T, d: T, a: T) -> (out: T)
    ensures
        is_relaxed(c, l, r, u, d, a, out),
{
    let s1 = l.add(r);
    let s2 = s1.add(u);
    let s = s2.add(d);
    assert(is_sum(l, r, s1) && is_sum(s1, u, s2) && is_sum(s2, d, s));
    let m = a.mul(s);
    let num = c.add(m);
    let one = T::from_index(1);
    let four = T::from_index(4);
    let fa = four.mul(a);
    let den = one.add(fa);
    assert(is_whole(1, one) && is_whole(4, four) && is_prod(four, a, fa) && is_sum(one, fa, den));
    let out = num.div(den);
    assert(is_ring(l, r, u, d, s) && is_prod(a, s, m) && is_sum(c, m, num) && is_denominator(
        a,
        den,
    ) && is_quot(num, den, out));
    out
}

/// `r` is `n - 2`, the number of interior cells along a side of `n` cells.
pub open spec fn is_inner_span<T: Scalar>(n: usize, r: T) -> bool {
    exists|f: T, two: T| is_whole(n, f) && is_whole(2, two) && #[trigger] is_diff(f, two, r)
}

/// `a` is `((dt * diff) * (width - 2)) * (height - 2)`, the coefficient of the
/// diffusion relaxation.
pub open spec fn is_rate<T: Scalar>(dt: T, diff: T, width: usize, height: usize, a: T) -> bool {
    exists|m1: T, wi: T, m2: T, hi: T|
        {
            &&& is_prod(dt, diff, m1)
            &&& is_inner_span(width, wi)
            &&& #[trigger] is_prod(m1, wi, m2)
            &&& is_inner_span(height, hi)
            &&& #[trigger] is_prod(m2, hi, a)
        }
}

/// The coefficient of the diffusion relaxation.
pub fn rate<T: Scalar>(dt: T, diff: T, width: usize, height: usize) -> (a: T)
    ensures
        is_rate(dt, diff, width, height, a),
{
    let m1 = dt.mul(diff);
    let two = T::from_index(2);
    let fw = T::from_index(width);
    let wi = fw.sub(two);
    assert(is_whole(width, fw) && is_whole(2, two) && is_diff(fw, two, wi));
    let m2 = m1.mul(wi);
    let fh = T::from_index(height);
    let hi = fh.sub(two);
    assert(is_whole(height, fh) && is_whole(2, two) && is_diff(fh, two, hi));
    let a = m2.mul(hi);
    assert(is_prod(dt, diff, m1) && is_inner_span(width, wi) && is_prod(m1, wi, m2)
        && is_inner_span(height, hi) && is_prod(m2, hi, a));
    a
}

/// `h` is one half.
pub open spec fn is_half<T: Scalar>(h: T) -> bool {
    exists|one: T, two: T| is_whole(1, one) && is_whole(2, two) && #[trigger] is_quot(one, two, h)
}

/// One half.
pub fn half<T: Scalar>() -> (h: T)
    ensures
        is_half(h),
{
    let one = T::from_index(1);
    let two = T::from_index(2);
    let h = one.div(two);
    assert(is_whole(1, one) && is_whole(2, two) && is_quot(one, two, h));
    h
}

/// `n` is minus one half.
pub open spec fn is_neg_half<T: Scalar>(n: T) -> bool {
    exists|z: T, h: T| is_whole(0, z) && is_half(h) && #[trigger] is_diff(z, h, n)
}

/// `out` is `(-1/2 * (((r - l) + d) - u)) / width`: the divergence of the
/// velocity at a cell, from the horizontal component to its right and left and
/// the vertical component below and above it.
pub open spec fn is_divergence<T: Scalar>(r: T, l: T, d: T, u: T, width: usize, out: T) -> bool {
    exists|d1: T, s: T, d2: T, nh: T, m: T, w: T|
        {
            &&& is_diff(r, l, d1)
            &&& #[trigger] is_sum(d1, d, s)
            &&& #[trigger] is_diff(s, u, d2)
            &&& is_neg_half(nh)
            &&& #[trigger] is_prod(nh, d2, m)
            &&& is_whole(width, w)
            &&& #[trigger] is_quot(m, w, out)
        }
}

/// The divergence of the velocity at a cell.
pub fn divergence<T: Scalar>(r: T, l: T, d: T, u: T, width: usize) -> (out: T)
    ensures
        is_divergence(r, l, d, u, width, out),
{
    let d1 = r.sub(l);
    let s = d1.add(d);
    let d2 = s.sub(u);
    let z = T::from_index(0);
    let h = half::<T>();
    let nh = z.sub(h);
    assert(is_whole(0, z) && is_half(h) && is_diff(z, h, nh));
    let m = nh.mul(d2);
    let w = T::from_index(width);
    let out = m.div(w);
    assert(is_diff(r, l, d1) && is_sum(d1, d, s) && is_diff(s, u, d2) && is_neg_half(nh)
        && is_prod(nh, d2, m) && is_whole(width, w) && is_quot(m, w, out));
    out
}

/// `out` is `((((div + l) + r) + u) + d) / 4`: one relaxation of the pressure
/// equation at a cell with divergence `div` and neighbouring pressures `l`,
/// `r`, `u`, `d`.
pub open spec fn is_pressure<T: Scalar>(div: T, l: T, r: T, u: T, d: T, out: T) -> bool {
    exists|s1: T, s: T, four: T|
        {
            &&& #[trigger] is_sum(div, l, s1)
            &&& is_ring(s1, r, u, d, s)
            &&& is_whole(4, four)
            &&& #[trigger] is_quot(s, four, out)
        }
}

/// One relaxation of the pressure equation at a cell.
pub fn pressure<T: Scalar>(div: T, l: T, r: T, u: T, d: T) -> (out: T)
    ensures
        is_pressure(div, l, r, u, d, out),
{
    let s1 = div.add(l);
    let s2 = s1.add(r);
    let s3 = s2.add(u);
    let s = s3.add(d);
    assert(is_sum(s1, r, s2) && is_sum(s2, u, s3) && is_sum(s3, d, s));
    let four = T::from_index(4);
    let out = s.div(four);
    assert(is_sum(div, l, s1) && is_ring(s1, r, u, d, s) && is_whole(4, four) && is_quot(
        s,
        four,
        out,
    ));
    out
}

/// `out` is `v - ((1/2 * (hi - lo)) * n)`: the velocity component `v` less the
/// pressure gradient between the two neighbours along its axis, scaled by the
/// side `n`.
pub open spec fn is_corrected<T: Scalar>(v: T, hi: T, lo: T, n: usize, out: T) -> bool {
    exists|h: T, d: T, m1: T, f: T, m2: T|
        {
            &&& is_half(h)
            &&& is_diff(hi, lo, d)
            &&& #[trigger] is_prod(h, d, m1)
            &&& is_whole(n, f)
            &&& #[trigger] is_prod(m1, f, m2)
            &&& is_diff(v, m2, out)
        }
}

/// Subtracts the pressure gradient from a velocity component.
pub fn correct<T: Scalar>(v: T, hi: T, lo: T, n: usize) -> (out: T)
    ensures
        is_corrected(v, hi, lo, n, out),
{
    let h = half::<T>();
    let d = hi.sub(lo);
    let m1 = h.mul(d);
    let f = T::from_index(n);
    let m2 = m1.mul(f);
    let out = v.sub(m2);
    assert(is_half(h) && is_diff(hi, lo, d) && is_prod(h, d, m1) && is_whole(n, f) && is_prod(
        m1,
        f,
        m2,
    ) && is_diff(v, m2, out));
    out
}

/// `out` is `v + f * dt`.
pub open spec fn is_pushed<T: Scalar>(v: T, f: T, dt: T, out: T) -> bool {
    exists|m: T| #[trigger] is_prod(f, dt, m) && is_sum(v, m, out)
}

/// Accelerates a velocity component by the force `f` over the time `dt`.
pub fn push<T: Scalar>(v: T, f: T, dt: T) -> (out: T)
    ensures
        is_pushed(v, f, dt, out),
{
    let m = f.mul(dt);
    let out = v.add(m);
    assert(is_prod(f, dt, m) && is_sum(v, m, out));
    out
}

/// `g` is `98 / 10`, the downward acceleration applied in every step.
pub open spec fn is_gravity<T: Scalar>(g: T) -> bool {
    exists|a: T, b: T| is_whole(98, a) && is_whole(10, b) && #[trigger] is_quot(a, b, g)
}

/// The downward acceleration applied in every step.
pub fn gravity<T: Scalar>() -> (g: T)
    ensures
        is_gravity(g),
{
    let a = T::from_index(98);
    let b = T::from_index(10);
    let g = a.div(b);
    assert(is_whole(98, a) && is_whole(10, b) && is_quot(a, b, g));
    g
}

} // verus!
