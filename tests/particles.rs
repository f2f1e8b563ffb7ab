use sph2d::arith::{isqrt, mul_div_trunc};
use sph2d::hydroparticles::{BoundaryForce, HydroParticles, PairForce};
use sph2d::units::{Rect, Vec2};

fn world(density: u64) -> HydroParticles {
    HydroParticles::new(120, density, Vec2::new(0, -9_810_000))
}

#[test]
fn construction_derives_lengths() {
    let p = world(2500);
    assert_eq!(p.smoothing_length(), 24_000);
    assert_eq!(p.suggested_particle_render_radius(), 10_000);
    assert_eq!(p.particle_density(), 2500);
    assert_eq!(p.gravity(), Vec2::new(0, -9_810_000));
    assert!(p.positions().is_empty());
    assert!(p.boundary_particles().is_empty());
}

#[test]
fn fluid_rect_count_and_lattice() {
    let mut p = world(100);
    p.add_fluid_rect(&Rect::new(100_000, 200_000, 550_000, 300_000), 0, &Vec::new());
    assert_eq!(p.positions().len(), 15);
    assert_eq!(p.velocities().len(), 15);
    assert_eq!(p.accellerations().len(), 15);
    for k in 0..15i64 {
        let expected = Vec2::new(100_000 + 100_000 * (k % 5), 200_000 + 100_000 * (k / 5));
        assert_eq!(p.positions()[k as usize], expected);
        assert_eq!(p.velocities()[k as usize], Vec2::new(0, 0));
    }
}

#[test]
fn fluid_rect_spacing_follows_density() {
    // 0.25 m square at density 100: two particles per axis, 0.1 m apart
    let mut p = world(100);
    p.add_fluid_rect(&Rect::new(0, 0, 250_000, 250_000), 0, &Vec::new());
    assert_eq!(
        p.positions().clone(),
        vec![Vec2::new(0, 0), Vec2::new(100_000, 0), Vec2::new(0, 100_000), Vec2::new(100_000, 100_000)]
    );
}

#[test]
fn density_need_not_be_a_square() {
    let mut p = world(2000);
    // 1.2 / sqrt(2000) m = 26832.8 um
    assert_eq!(p.smoothing_length(), 26_832);
    // 0.5 / sqrt(2000) m = 11180.3 um
    assert_eq!(p.suggested_particle_render_radius(), 11_180);
    // floor(1 * sqrt(2000)) = 44 particles along a metre, 22360 um apart
    p.add_fluid_rect(&Rect::new(0, 0, 1_000_000, 0), 0, &Vec::new());
    assert_eq!(p.positions().len(), 44);
    assert_eq!(p.positions()[43], Vec2::new(43 * 22_360, 0));
    p.add_boundary_line(&Vec2::new(0, 0), &Vec2::new(0, 1_000_000));
    assert_eq!(p.boundary_particles().len(), 44);
}

#[test]
fn fluid_rect_degenerate_gives_one_particle() {
    let mut p = world(100);
    p.add_fluid_rect(&Rect::new(5, 7, 0, 0), 0, &Vec::new());
    assert_eq!(p.positions().len(), 1);
    assert_eq!(p.positions()[0], Vec2::new(5, 7));
}

#[test]
fn fluid_rect_applies_jitter() {
    let mut p = world(100);
    // jitter of half the spacing (0.05 m); draws are fractions of 2^32
    let draws = vec![(0u32, 0u32), (0x8000_0000u32, 0xffff_ffffu32)];
    p.add_fluid_rect(&Rect::new(0, 0, 200_000, 100_000), 500, &draws);
    assert_eq!(p.positions().len(), 2);
    assert_eq!(p.positions()[0], Vec2::new(0, 0));
    assert_eq!(p.positions()[1], Vec2::new(100_000 + 25_000, 49_999));
}

#[test]
fn fluid_rect_appends() {
    let mut p = world(100);
    p.add_fluid_rect(&Rect::new(0, 0, 100_000, 100_000), 0, &Vec::new());
    p.add_fluid_rect(&Rect::new(0, 0, 200_000, 100_000), 0, &Vec::new());
    assert_eq!(p.positions().len(), 3);
    assert_eq!(p.positions()[2], Vec2::new(100_000, 0));
}

#[test]
fn boundary_line_of_one_metre() {
    let mut p = world(100);
    p.add_boundary_line(&Vec2::new(0, 0), &Vec2::new(1_000_000, 0));
    let b = p.boundary_particles();
    assert_eq!(b.len(), 10);
    for k in 0..10i64 {
        assert_eq!(b[k as usize], Vec2::new(100_000 * k, 0));
    }
    assert!(p.positions().is_empty());
}

#[test]
fn boundary_line_diagonal_and_degenerate() {
    let mut p = world(100);
    // length 0.5 m: five points
    p.add_boundary_line(&Vec2::new(0, 0), &Vec2::new(-300_000, 400_000));
    assert_eq!(p.boundary_particles().len(), 5);
    assert_eq!(p.boundary_particles()[1], Vec2::new(-60_000, 80_000));
    p.add_boundary_line(&Vec2::new(7, 7), &Vec2::new(7, 7));
    assert_eq!(p.boundary_particles().len(), 6);
    assert_eq!(p.boundary_particles()[5], Vec2::new(7, 7));
}

#[test]
fn leapfrog_single_particle_under_gravity() {
    let mut p = world(100);
    p.add_fluid_rect(&Rect::new(0, 0, 0, 0), 0, &Vec::new());
    // a step of zero length computes the acceleration without moving
    p.begin_step(0);
    p.physics_step(0, &Vec::new(), &Vec::new());
    assert_eq!(p.accellerations()[0], Vec2::new(0, -9_810_000));
    assert_eq!(p.positions()[0], Vec2::new(0, 0));
    p.begin_step(100_000);
    let pairs = p.fluid_pairs();
    assert!(pairs.is_empty());
    p.physics_step(100_000, &Vec::new(), &Vec::new());
    assert_eq!(p.velocities()[0], Vec2::new(0, -981_000));
    assert_eq!(p.positions()[0], Vec2::new(0, -49_050));
}

#[test]
fn pair_contributions_cancel() {
    let mut p = HydroParticles::new(120, 100, Vec2::new(0, 0));
    p.add_fluid_rect(&Rect::new(0, 0, 400_000, 100_000), 0, &Vec::new());
    let pairs = vec![
        PairForce { i: 0, j: 1, f: Vec2::new(5, -3) },
        PairForce { i: 1, j: 2, f: Vec2::new(-7, 11) },
        PairForce { i: 3, j: 0, f: Vec2::new(1_000, 2) },
    ];
    p.physics_step(0, &pairs, &Vec::new());
    let a = p.accellerations();
    assert_eq!(a[0], Vec2::new(5 - 1_000, -3 - 2));
    assert_eq!(a[1], Vec2::new(-5 - 7, 3 + 11));
    assert_eq!(a[2], Vec2::new(7, -11));
    assert_eq!(a[3], Vec2::new(1_000, 2));
    let sx: i64 = a.iter().map(|v| v.x).sum();
    let sy: i64 = a.iter().map(|v| v.y).sum();
    assert_eq!((sx, sy), (0, 0));
}

#[test]
fn boundary_contributions_and_gravity() {
    let mut p = HydroParticles::new(120, 100, Vec2::new(1, -2));
    p.add_fluid_rect(&Rect::new(0, 0, 200_000, 100_000), 0, &Vec::new());
    let bs = vec![BoundaryForce { i: 1, f: Vec2::new(10, 20) }, BoundaryForce { i: 1, f: Vec2::new(1, 1) }];
    p.physics_step(1_000_000, &Vec::new(), &bs);
    assert_eq!(p.accellerations()[0], Vec2::new(1, -2));
    assert_eq!(p.accellerations()[1], Vec2::new(12, 19));
    // half-kick over one second, rounded toward zero
    assert_eq!(p.velocities()[1], Vec2::new(6, 9));
    assert_eq!(p.velocities()[0], Vec2::new(0, -1));
}

#[test]
fn fluid_pairs_within_smoothing_length() {
    // smoothing length 120% of 0.1 m spacing = 0.12 m
    let mut p = world(100);
    p.add_fluid_rect(&Rect::new(0, 0, 300_000, 100_000), 0, &Vec::new());
    assert_eq!(p.smoothing_length(), 120_000);
    let mut pairs = p.fluid_pairs();
    pairs.sort();
    assert_eq!(pairs, vec![(0, 1), (1, 2)]);
    p.add_fluid_rect(&Rect::new(50_000, 0, 0, 0), 0, &Vec::new());
    let mut pairs = p.fluid_pairs();
    pairs.sort();
    assert_eq!(pairs, vec![(0, 1), (0, 3), (1, 2), (1, 3)]);
}

#[test]
fn boundary_pairs_within_smoothing_length() {
    let mut p = world(100);
    p.add_fluid_rect(&Rect::new(0, 100_000, 300_000, 100_000), 0, &Vec::new());
    p.add_boundary_line(&Vec2::new(0, 0), &Vec2::new(300_000, 0));
    assert_eq!(p.boundary_particles().len(), 3);
    // each fluid particle sits 0.1 m above one boundary particle; diagonals are 0.141 m
    assert_eq!(p.boundary_pairs(), vec![(0, 0), (1, 1), (2, 2)]);
}

#[test]
fn truncating_division_and_square_root() {
    assert_eq!(mul_div_trunc(-7, 1, 2), -3);
    assert_eq!(mul_div_trunc(7, 1, 2), 3);
    assert_eq!(mul_div_trunc(-9_810_000, 100_000, 2_000_000), -490_500);
    assert_eq!(isqrt(0), 0);
    assert_eq!(isqrt(15), 3);
    assert_eq!(isqrt(16), 4);
    assert_eq!(isqrt(1_000_000_000_000), 1_000_000);
}
