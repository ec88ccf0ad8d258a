use stable_fluids::formula::{backtrace, lerp, rate, relax, split};
use stable_fluids::scalar::Scalar;

#[derive(Clone, Copy, Debug, PartialEq)]
struct Real(f32);

impl Scalar for Real {
    fn from_index(n: usize) -> Self {
        Real(n as f32)
    }

    fn add(self, rhs: Self) -> Self {
        Real(self.0 + rhs.0)
    }

    fn sub(self, rhs: Self) -> Self {
        Real(self.0 - rhs.0)
    }

    fn mul(self, rhs: Self) -> Self {
        Real(self.0 * rhs.0)
    }

    fn div(self, rhs: Self) -> Self {
        Real(self.0 / rhs.0)
    }

    fn max(self, rhs: Self) -> Self {
        Real(self.0.max(rhs.0))
    }

    fn min(self, rhs: Self) -> Self {
        Real(self.0.min(rhs.0))
    }

    fn floor_index(self) -> usize {
        self.0.floor() as usize
    }
}

/// Standing for nothing: zero of either sign.
fn nought(v: Real) -> bool {
    v.0 == 0.0
}

fn same(a: Real, b: Real) -> bool {
    a.0.to_bits() == b.0.to_bits()
}

const STEPS: [f32; 8] = [0.0, 0.1, 1.0, -3.5, 250.0, 1.0e30, f32::MAX, f32::MIN_POSITIVE];

const SIDES: [usize; 7] = [1, 2, 3, 10, 256, 65_537, 1 << 24];

const CELLS: [f32; 10] = [
    0.0,
    1.0,
    -1.0,
    100.0,
    0.001,
    -123.456,
    1.0e-40,
    3.0e37,
    -3.0e37,
    f32::MAX / 2.0,
];

fn positions(limit: usize) -> Vec<usize> {
    let mut out = vec![0, limit / 3, limit / 2, limit - 1];
    out.dedup();
    out
}

#[test]
fn zero_velocity_times_the_step_is_nothing() {
    for dt in STEPS {
        assert!(nought(Real::from_index(0).mul(Real(dt))));
        assert!(nought(Real(dt).mul(Real::from_index(0))));
    }
}

#[test]
fn a_coordinate_less_nothing_is_the_coordinate() {
    for limit in SIDES {
        for pos in positions(limit) {
            let p = Real::from_index(pos);
            assert!(same(p.sub(Real(0.0)), p));
            assert!(same(p.sub(Real(-0.0)), p));
        }
    }
}

#[test]
fn clamping_keeps_a_coordinate_of_the_side() {
    for limit in SIDES {
        let last = Real::from_index(limit).sub(Real::from_index(1));
        for pos in positions(limit) {
            let p = Real::from_index(pos);
            let raised = p.max(Real::from_index(0));
            assert!(same(raised, p));
            assert!(same(raised.min(last), p));
        }
    }
}

#[test]
fn the_whole_part_of_a_coordinate_is_its_cell() {
    for limit in SIDES {
        for pos in positions(limit) {
            assert_eq!(Real::from_index(pos).floor_index(), pos);
        }
    }
}

#[test]
fn a_coordinate_less_itself_is_nothing() {
    for limit in SIDES {
        for pos in positions(limit) {
            assert!(nought(Real::from_index(pos).sub(Real::from_index(pos))));
        }
    }
}

#[test]
fn nothing_times_the_difference_of_two_cells_is_nothing() {
    for a in CELLS {
        for b in CELLS {
            for t in [0.0f32, -0.0] {
                assert!(nought(Real(t).mul(Real(b).sub(Real(a)))));
            }
        }
    }
}

#[test]
fn a_cell_plus_nothing_is_the_cell() {
    for a in CELLS {
        for p in [0.0f32, -0.0] {
            assert!(same(Real(a).add(Real(p)), Real(a)));
        }
    }
}

#[test]
fn a_still_cell_traces_back_to_itself() {
    for limit in SIDES {
        for pos in positions(limit) {
            for dt in STEPS {
                let source = backtrace(pos, Real::from_index(0), Real(dt), limit);
                assert!(same(source, Real::from_index(pos)));
                let (base, weight) = split(source, limit);
                assert_eq!(base, pos);
                assert!(nought(weight));
            }
        }
    }
}

#[test]
fn a_blend_by_nothing_is_the_first_cell() {
    for a in CELLS {
        for b in CELLS {
            for t in [0.0f32, -0.0] {
                assert!(same(lerp(Real(a), Real(b), Real(t)), Real(a)));
            }
        }
    }
}

#[test]
fn the_rate_of_a_zero_coefficient_is_nothing() {
    for dt in STEPS {
        for width in [3usize, 10, 256, 1 << 24] {
            for height in [3usize, 144, 65_537] {
                assert!(nought(rate(Real(dt), Real::from_index(0), width, height)));
            }
        }
    }
}

#[test]
fn one_plus_four_times_nothing_is_one() {
    for a in [0.0f32, -0.0] {
        let den = Real::from_index(1).add(Real::from_index(4).mul(Real(a)));
        assert!(same(den, Real::from_index(1)));
    }
}

#[test]
fn a_cell_over_one_is_the_cell() {
    for a in CELLS {
        assert!(same(Real(a).div(Real::from_index(1)), Real(a)));
    }
}

#[test]
fn relaxing_at_a_rate_of_nothing_keeps_the_cell() {
    let around = [0.0f32, 1.0, -1.0, 100.0, -123.456, 1.0e-40, 3.0e37, -3.0e37];
    for c in CELLS {
        for l in around {
            for r in around {
                for a in [0.0f32, -0.0] {
                    let out = relax(Real(c), Real(l), Real(r), Real(-l), Real(r), Real(a));
                    assert!(same(out, Real(c)));
                }
            }
        }
    }
}

#[test]
fn negative_zero_is_where_a_cell_plus_nothing_changes() {
    assert!(!same(Real(-0.0).add(Real(0.0)), Real(-0.0)));
    assert_eq!(Real(-0.0).add(Real(0.0)), Real(-0.0));
}

#[test]
fn a_side_past_the_exact_whole_numbers_moves_its_last_cell() {
    let limit = (1usize << 24) + 2;
    let source = backtrace(limit - 1, Real::from_index(0), Real(0.1), limit);
    let (base, _) = split(source, limit);
    assert_eq!(base, 1 << 24);
}
