use stable_fluids::fluid_simulation::FluidSimulation;
use stable_fluids::scalar::Scalar;

#[derive(Clone, Copy, Debug, PartialEq)]
struct Real(f32);

impl Scalar for Real {
    fn from_index(n: usize) -> Self {
        Real(n as f32)
    }

    fn add(self, rhs: Self) -> Self {
        Real(self.0 + rhs.0)
    }

    fn sub(self, rhs: Self) -> Self {
        Real(self.0 - rhs.0)
    }

    fn mul(self, rhs: Self) -> Self {
        Real(self.0 * rhs.0)
    }

    fn div(self, rhs: Self) -> Self {
        Real(self.0 / rhs.0)
    }

    fn max(self, rhs: Self) -> Self {
        Real(self.0.max(rhs.0))
    }

    fn min(self, rhs: Self) -> Self {
        Real(self.0.min(rhs.0))
    }

    fn floor_index(self) -> usize {
        self.0.floor() as usize
    }
}

fn fluid(width: usize, height: usize) -> FluidSimulation<Real> {
    FluidSimulation::new(width, height).expect("a grid with positive sides")
}

fn densities(sim: &FluidSimulation<Real>) -> Vec<f32> {
    let mut out = Vec::new();
    for y in 0..sim.height() {
        for x in 0..sim.width() {
            out.push(sim.density_at(x, y).0);
        }
    }
    out
}

fn velocities(sim: &FluidSimulation<Real>) -> (Vec<f32>, Vec<f32>) {
    let mut across = Vec::new();
    let mut down = Vec::new();
    for y in 0..sim.height() {
        for x in 0..sim.width() {
            let (vx, vy) = sim.velocity_at(x, y);
            across.push(vx.0);
            down.push(vy.0);
        }
    }
    (across, down)
}

/// The sum of the squared divergence over the interior cells, with the
/// divergence taken as the solver takes it.
fn squared_divergence(sim: &FluidSimulation<Real>) -> f64 {
    let width = sim.width();
    let mut total = 0.0f64;
    for y in 1..sim.height() - 1 {
        for x in 1..width - 1 {
            let right = sim.velocity_at(x + 1, y).0 .0;
            let left = sim.velocity_at(x - 1, y).0 .0;
            let below = sim.velocity_at(x, y + 1).1 .0;
            let above = sim.velocity_at(x, y - 1).1 .0;
            let div = -0.5 * (right - left + below - above) / width as f32;
            total += (div as f64) * (div as f64);
        }
    }
    total
}

#[test]
fn advect_at_rest_reproduces_the_density() {
    let mut sim = fluid(9, 7);
    for y in 0..7 {
        for x in 0..9 {
            sim.add_density(x, y, Real(0.37 * x as f32 - 1.25 * y as f32 + 0.001));
        }
    }
    let before = densities(&sim);
    for dt in [0.0, 0.1, 1.0, 250.0] {
        sim.advect(Real(dt));
        assert_eq!(densities(&sim), before);
    }
    let (across, down) = velocities(&sim);
    assert_eq!(across, vec![0.0; 63]);
    assert_eq!(down, vec![0.0; 63]);
}

#[test]
fn advect_blends_the_four_cells_around_the_source() {
    let mut sim = fluid(6, 6);
    sim.add_density(2, 2, Real(8.0));
    sim.add_density(3, 2, Real(4.0));
    sim.add_density(2, 3, Real(2.0));
    sim.add_density(3, 3, Real(1.0));
    sim.add_velocity(3, 3, Real(0.5), Real(0.25));
    sim.advect(Real(1.0));
    for y in 0..6 {
        for x in 0..6 {
            let expected = match (x, y) {
                (2, 2) => 8.0,
                (3, 2) => 4.0,
                (2, 3) => 2.0,
                (3, 3) => 2.625,
                _ => 0.0,
            };
            assert_eq!(sim.density_at(x, y), Real(expected));
        }
    }
    assert_eq!(sim.velocity_at(3, 3), (Real(0.5), Real(0.25)));
}

#[test]
fn advect_clamps_the_source_to_the_grid() {
    let mut sim = fluid(4, 4);
    for y in 0..4 {
        for x in 0..4 {
            sim.add_density(x, y, Real((1 + x + 4 * y) as f32));
        }
    }
    sim.add_velocity(0, 0, Real(10.0), Real(10.0));
    sim.add_velocity(3, 3, Real(-10.0), Real(-10.0));
    sim.add_velocity(1, 2, Real(-0.5), Real(0.0));
    sim.add_velocity(2, 1, Real(0.0), Real(-2.75));
    sim.advect(Real(1.0));
    let expected: Vec<f32> = vec![
        1.0, 2.0, 3.0, 4.0,
        5.0, 6.0, 15.0, 8.0,
        9.0, 10.5, 11.0, 12.0,
        13.0, 14.0, 15.0, 16.0,
    ];
    assert_eq!(densities(&sim), expected);
}

#[test]
fn advect_reads_the_old_density_only() {
    let mut sim = fluid(5, 1);
    for x in 0..5 {
        sim.add_density(x, 0, Real((x + 1) as f32));
        sim.add_velocity(x, 0, Real(1.0), Real(0.0));
    }
    sim.advect(Real(1.0));
    assert_eq!(densities(&sim), vec![1.0, 1.0, 2.0, 3.0, 4.0]);
}

#[test]
fn diffuse_without_coefficient_keeps_the_interior() {
    let mut sim = fluid(6, 5);
    for y in 0..5 {
        for x in 0..6 {
            sim.add_density(x, y, Real(1.0 + (x + 6 * y) as f32));
        }
    }
    sim.diffuse(Real(0.0), Real(0.1));
    for y in 0..5 {
        for x in 0..6 {
            let ring = x == 0 || y == 0 || x == 5 || y == 4;
            let expected = if ring { 0.0 } else { 1.0 + (x + 6 * y) as f32 };
            assert_eq!(sim.density_at(x, y), Real(expected));
        }
    }
}

#[test]
fn diffuse_relaxes_from_the_density_before_the_pass() {
    let mut sim = fluid(3, 3);
    sim.add_density(1, 1, Real(100.0));
    sim.diffuse(Real(0.25), Real(1.0));
    assert_eq!(densities(&sim), vec![0.0, 0.0, 0.0, 0.0, 50.0, 0.0, 0.0, 0.0, 0.0]);
    sim.diffuse(Real(0.25), Real(1.0));
    assert_eq!(sim.density_at(1, 1), Real(25.0));
}

#[test]
fn diffuse_relaxes_twenty_times() {
    let mut sim = fluid(5, 5);
    sim.add_density(2, 2, Real(100.0));
    sim.diffuse(Real(0.1), Real(0.1));
    let expected: Vec<f32> = vec![
        0.0, 0.0, 0.0, 0.0, 0.0,
        0.0, 0.6674006581306458, 5.042582035064697, 0.6674006581306458, 0.0,
        0.0, 5.0425825119018555, 74.86421203613281, 5.0425825119018555, 0.0,
        0.0, 0.6674006581306458, 5.042582035064697, 0.6674006581306458, 0.0,
        0.0, 0.0, 0.0, 0.0, 0.0,
    ];
    assert_eq!(densities(&sim), expected);
}

#[test]
fn diffuse_drops_what_the_border_held() {
    let mut sim = fluid(4, 4);
    for y in 0..4 {
        for x in 0..4 {
            sim.add_density(x, y, Real((1 + x + 4 * y) as f32));
        }
    }
    sim.diffuse(Real(0.5), Real(0.5));
    let expected: Vec<f32> = vec![
        0.0, 0.0, 0.0, 0.0,
        0.0, 2.3333334922790527, 2.5333333015441895, 0.0,
        0.0, 3.133333444595337, 3.3333334922790527, 0.0,
        0.0, 0.0, 0.0, 0.0,
    ];
    assert_eq!(densities(&sim), expected);
}

#[test]
fn diffuse_on_a_grid_without_interior_does_nothing() {
    let mut sim = fluid(2, 4);
    for y in 0..4 {
        for x in 0..2 {
            sim.add_density(x, y, Real((1 + x + 2 * y) as f32));
        }
    }
    sim.diffuse(Real(0.5), Real(0.5));
    assert_eq!(densities(&sim), vec![1.0, 2.0, 3.0, 4.0, 5.0, 6.0, 7.0, 8.0]);
}

#[test]
fn diffusion_keeps_the_mass_away_from_the_border() {
    let mut sim = fluid(16, 16);
    sim.add_density(8, 8, Real(100.0));
    sim.diffuse(Real(0.001), Real(0.1));
    let total: f64 = densities(&sim).iter().map(|d| *d as f64).sum();
    assert!((total - 100.0).abs() < 0.001, "mass after diffusion: {}", total);
    assert!(sim.density_at(8, 8).0 < 100.0);
    assert!(sim.density_at(7, 8).0 > 0.0);
}

#[test]
fn conservation_without_forcing() {
    let mut sim = fluid(8, 8);
    for y in 0..8 {
        for x in 0..8 {
            sim.add_density(x, y, Real(0.5 + (x * x + 3 * y) as f32));
        }
    }
    for _ in 0..5 {
        sim.advect(Real(0.1));
        sim.diffuse(Real(0.0), Real(0.1));
        for y in 0..8 {
            for x in 0..8 {
                let ring = x == 0 || y == 0 || x == 7 || y == 7;
                let expected = if ring { 0.0 } else { 0.5 + (x * x + 3 * y) as f32 };
                assert_eq!(sim.density_at(x, y), Real(expected));
            }
        }
    }
}

#[test]
fn project_on_a_single_interior_cell_levels_the_velocity() {
    let mut sim = fluid(3, 3);
    sim.add_velocity(1, 1, Real(2.0), Real(-1.0));
    sim.add_velocity(0, 1, Real(1.0), Real(0.0));
    sim.add_velocity(1, 0, Real(0.0), Real(3.0));
    sim.project();
    let (across, down) = velocities(&sim);
    assert_eq!(across, vec![2.0; 9]);
    assert_eq!(down, vec![-1.0; 9]);
}

#[test]
fn project_spreads_a_single_impulse() {
    let mut sim = fluid(5, 5);
    sim.add_velocity(2, 2, Real(4.0), Real(0.0));
    sim.add_density(2, 2, Real(1.0));
    sim.project();
    let (across, down) = velocities(&sim);
    let expected_across: Vec<f32> = vec![
        -0.24966277182102203, -0.24966277182102203, -0.49942833185195923, -0.249765545129776, -0.249765545129776,
        -0.24966277182102203, -0.24966277182102203, -0.49942833185195923, -0.249765545129776, -0.249765545129776,
        -0.4997366964817047, -0.4997366964817047, 3.000446319580078, -0.4998169541358948, -0.4998169541358948,
        -0.249765545129776, -0.249765545129776, -0.4996025562286377, -0.2498370110988617, -0.2498370110988617,
        -0.249765545129776, -0.249765545129776, -0.4996025562286377, -0.2498370110988617, -0.2498370110988617,
    ];
    let expected_down: Vec<f32> = vec![
        0.25007393956184387, 0.25007393956184387, 4.6566128730773926e-09, -0.2500513792037964, -0.2500513792037964,
        0.25007393956184387, 0.25007393956184387, 4.6566128730773926e-09, -0.2500513792037964, -0.2500513792037964,
        0.0001027621328830719, 0.0001027621328830719, -4.6566128730773926e-09, -7.145106792449951e-05, -7.145106792449951e-05,
        -0.2499711662530899, -0.2499711662530899, -9.313225746154785e-09, 0.24997994303703308, 0.24997994303703308,
        -0.2499711662530899, -0.2499711662530899, -9.313225746154785e-09, 0.24997994303703308, 0.24997994303703308,
    ];
    assert_eq!(across, expected_across);
    assert_eq!(down, expected_down);
    assert_eq!(sim.density_at(2, 2), Real(1.0));
}

#[test]
fn project_on_a_grid_without_interior_does_nothing() {
    let mut sim = fluid(4, 2);
    for y in 0..2 {
        for x in 0..4 {
            sim.add_velocity(x, y, Real(x as f32), Real(y as f32 + 0.5));
        }
    }
    sim.project();
    let (across, down) = velocities(&sim);
    assert_eq!(across, vec![0.0, 1.0, 2.0, 3.0, 0.0, 1.0, 2.0, 3.0]);
    assert_eq!(down, vec![0.5, 0.5, 0.5, 0.5, 1.5, 1.5, 1.5, 1.5]);
}

#[test]
fn projection_reduces_divergence() {
    let mut sim = fluid(10, 10);
    for y in 0..10 {
        for x in 0..10 {
            let across = ((x * 7 + y * 13) % 11) as f32 - 5.0;
            let down = ((x * 5 + y * 3) % 7) as f32 - 3.0;
            sim.add_velocity(x, y, Real(across), Real(down));
        }
    }
    let before = squared_divergence(&sim);
    sim.project();
    let after = squared_divergence(&sim);
    assert!(before > 4.0, "divergence before projection: {}", before);
    assert!(after < before, "divergence {} did not fall below {}", after, before);
    assert!(after < 2.5, "divergence after projection: {}", after);
}

#[test]
fn projection_of_a_uniform_flow_changes_nothing() {
    let mut sim = fluid(6, 6);
    sim.apply_forces(Real(1.5), Real(-2.0), Real(1.0));
    sim.project();
    let (across, down) = velocities(&sim);
    assert_eq!(across, vec![1.5; 36]);
    assert_eq!(down, vec![-2.0; 36]);
}
