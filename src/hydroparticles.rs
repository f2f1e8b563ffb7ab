use vstd::prelude::*;
use crate::arith::{isqrt, mul_div_trunc, trunc_div};
use crate::neighborhood_search::{NeighborhoodSearch, ParticleIndex, MAX_RADIUS};
use crate::units::{dist_sq, distance_squared, point_in_range, Point, Rect, Vec2, Vector, UNITS_PER_METRE};

verus! {

/// Most particles, fluid or boundary, that a store holds.
pub const MAX_PARTICLES: usize = 0x8000_0000;

/// Largest magnitude of a position, velocity or acceleration component at the start of a step.
pub const STATE_LIMIT: i64 = 0x0400_0000_0000_0000;

/// Largest magnitude of a component of gravity or of one force contribution.
pub const FORCE_LIMIT: i64 = 0x100_0000_0000;

/// Most force contributions, pair and boundary together, in one force pass.
pub const MAX_CONTRIBUTIONS: usize = 0x10_0000;

/// Longest time step, in microseconds.
pub const MAX_DT: i64 = 1_000_000;

/// Acceleration contribution of a pair of fluid particles: `f` is added to the
/// acceleration of `i` and subtracted from that of `j`.
#[derive(Clone, Copy, PartialEq, Eq, Structural, Debug)]
pub struct PairForce {
    pub i: u32,
    pub j: u32,
    pub f: Vector,
}

/// Acceleration contribution of a boundary particle to the fluid particle `i`.
#[derive(Clone, Copy, PartialEq, Eq, Structural, Debug)]
pub struct BoundaryForce {
    pub i: u32,
    pub f: Vector,
}

pub open spec fn vec_model(v: Vector) -> (int, int) {
    (v.x as int, v.y as int)
}

pub open spec fn vecs_model(s: Seq<Vector>) -> Seq<(int, int)> {
    s.map_values(|v: Vector| vec_model(v))
}

pub open spec fn component_ok(v: int, limit: int) -> bool {
    -limit <= v <= limit
}

pub open spec fn vector_ok(v: Vector, limit: int) -> bool {
    component_ok(v.x as int, limit) && component_ok(v.y as int, limit)
}

/// The accelerations after adding each pair contribution to its first particle
/// and subtracting it from its second, in order.
pub open spec fn apply_pairs(acc: Seq<(int, int)>, pairs: Seq<PairForce>) -> Seq<(int, int)>
    decreases pairs.len(),
{
    if pairs.len() == 0 {
        acc
    } else {
        let a = apply_pairs(acc, pairs.drop_last());
        let p = pairs.last();
        let ai = a[p.i as int];
        let a2 = a.update(p.i as int, (ai.0 + p.f.x, ai.1 + p.f.y));
        let aj = a2[p.j as int];
        a2.update(p.j as int, (aj.0 - p.f.x, aj.1 - p.f.y))
    }
}

/// The accelerations after adding each boundary contribution to its particle.
pub open spec fn apply_boundary(acc: Seq<(int, int)>, bs: Seq<BoundaryForce>) -> Seq<(int, int)>
    decreases bs.len(),
{
    if bs.len() == 0 {
        acc
    } else {
        let a = apply_boundary(acc, bs.drop_last());
        let b = bs.last();
        let ai = a[b.i as int];
        a.update(b.i as int, (ai.0 + b.f.x, ai.1 + b.f.y))
    }
}

pub open spec fn sum_x(s: Seq<(int, int)>) -> int
    decreases s.len(),
{
    if s.len() == 0 {
        0
    } else {
        sum_x(s.drop_last()) + s.last().0
    }
}

pub open spec fn sum_y(s: Seq<(int, int)>) -> int
    decreases s.len(),
{
    if s.len() == 0 {
        0
    } else {
        sum_y(s.drop_last()) + s.last().1
    }
}

/// Position after the drift of a leapfrog step: `p + v dt + a dt² / 2`, each term
/// rounded toward zero in micrometres.
pub open spec fn drift(p: int, v: int, a: int, dt: int) -> int {
    p + trunc_div(v * dt, UNITS_PER_METRE as int) + trunc_div(
        trunc_div(a * dt, UNITS_PER_METRE as int) * dt,
        2 * UNITS_PER_METRE,
    )
}

/// Velocity after a half-kick: `v + a dt / 2`, rounded toward zero.
pub open spec fn half_kick(v: int, a: int, dt: int) -> int {
    v + trunc_div(a * dt, 2 * UNITS_PER_METRE)
}

/// Largest magnitude of a coordinate, extent or jitter offset handed to the particle sources.
pub const SOURCE_LIMIT: i64 = 0x100_0000_0000;

/// Largest rest particle density, in particles per square metre: one per square micrometre.
pub const MAX_PARTICLE_DENSITY: u64 = 1_000_000_000_000;

/// Particles along an extent of resting fluid: `max(1, floor(extent * sqrt(density)))`,
/// the extent in micrometres and the density in particles per square metre.
pub open spec fn lattice_count(extent: int, density: int) -> int {
    let c = floor_sqrt(extent * extent * density / 1_000_000_000_000);
    if c < 1 {
        1
    } else {
        c
    }
}

/// Spacing of resting particles, `1 / sqrt(density)`, in whole micrometres.
pub open spec fn lattice_spacing(density: int) -> int {
    floor_sqrt(1_000_000_000_000int / density)
}

/// Jitter offset for the random draw `draw`, a fraction `draw / 2^32` of
/// `jitter_permille / 1000` of the spacing, rounded down.
pub open spec fn jitter_offset(draw: u32, jitter_permille: int, spacing: int) -> int {
    draw * jitter_permille * spacing / (1000int * 0x1_0000_0000int)
}

/// Jitter offset of the `k`-th new particle: zero past the end of `draws`.
pub open spec fn jitter_at(draws: Seq<(u32, u32)>, k: int, jitter_permille: int, spacing: int) -> (int, int) {
    if k < draws.len() {
        (
            jitter_offset(draws[k].0, jitter_permille, spacing),
            jitter_offset(draws[k].1, jitter_permille, spacing),
        )
    } else {
        (0, 0)
    }
}

/// Every jitter offset lies in `[0, jitter * spacing)`, and is zero without jitter.
pub proof fn lemma_jitter_offset_range(draw: u32, jitter_permille: int, spacing: int)
    requires
        0 <= jitter_permille,
        0 <= spacing,
    ensures
        0 <= jitter_offset(draw, jitter_permille, spacing),
        jitter_permille * spacing > 0 ==> 1000 * jitter_offset(draw, jitter_permille, spacing)
            < jitter_permille * spacing,
        jitter_permille == 0 ==> jitter_offset(draw, jitter_permille, spacing) == 0,
{
    let js = jitter_permille * spacing;
    let prod = draw * jitter_permille * spacing;
    let d = 1000 * 0x1_0000_0000int;
    let off = prod / d;
    assert(prod == draw * js) by (nonlinear_arith)
        requires prod == draw * jitter_permille * spacing, js == jitter_permille * spacing;
    assert(0 <= js) by (nonlinear_arith)
        requires 0 <= jitter_permille, 0 <= spacing, js == jitter_permille * spacing;
    assert(0 <= prod) by (nonlinear_arith)
        requires prod == draw * js, 0 <= js, 0 <= draw;
    vstd::arithmetic::div_mod::lemma_fundamental_div_mod(prod, d);
    vstd::arithmetic::div_mod::lemma_div_pos_is_pos(prod, d);
    vstd::arithmetic::div_mod::lemma_mod_bound(prod, d);
    if js > 0 {
        assert(prod < 0x1_0000_0000 * js) by (nonlinear_arith)
            requires prod == draw * js, js > 0, draw < 0x1_0000_0000;
        assert(1000 * off < js) by (nonlinear_arith)
            requires prod == d * off + prod % d, prod % d >= 0, prod < 0x1_0000_0000 * js,
                d == 1000 * 0x1_0000_0000int, off >= 0;
    }
    if jitter_permille == 0 {
        assert(prod == 0) by (nonlinear_arith)
            requires prod == draw * jitter_permille * spacing, jitter_permille == 0;
    }
}

/// `r` is the floor of the square root of `n`.
pub open spec fn is_floor_sqrt(r: int, n: int) -> bool {
    0 <= r && r * r <= n < (r + 1) * (r + 1)
}

pub open spec fn floor_sqrt(n: int) -> int {
    choose|r: int| is_floor_sqrt(r, n)
}

/// Boundary particles along a segment: `max(1, floor(length * sqrt(density)))`.
pub open spec fn segment_count(start: Point, end: Point, density: int) -> int {
    let c = floor_sqrt(dist_sq(start, end) * density / 1_000_000_000_000);
    if c < 1 {
        1
    } else {
        c
    }
}

pub open spec fn source_ok(v: int) -> bool {
    -SOURCE_LIMIT <= v <= SOURCE_LIMIT
}

proof fn lemma_floor_sqrt_unique(a: int, b: int, n: int)
    requires
        is_floor_sqrt(a, n),
        is_floor_sqrt(b, n),
    ensures
        a == b,
{
    if a < b {
        assert((a + 1) * (a + 1) <= b * b) by (nonlinear_arith)
            requires 0 <= a, a + 1 <= b;
    } else if b < a {
        assert((b + 1) * (b + 1) <= a * a) by (nonlinear_arith)
            requires 0 <= b, b + 1 <= a;
    }
}

/// The offset `jitter_offset(draw, jitter_permille, spacing)`.
fn jitter_offset_exec(draw: u32, jitter_permille: u32, spacing: i64) -> (r: i64)
    requires
        jitter_permille <= 1_000_000,
        0 <= spacing <= 1_000_000,
    ensures
        r == jitter_offset(draw, jitter_permille as int, spacing as int),
        0 <= r <= 1_000_000_000,
{
    proof {
        assert(0 <= draw * jitter_permille <= 0x1_0000_0000 * 1_000_000) by (nonlinear_arith)
            requires draw < 0x1_0000_0000, jitter_permille <= 1_000_000;
        assert(0 <= draw * jitter_permille * spacing <= 0x1_0000_0000 * 1_000_000 * 1_000_000) by (nonlinear_arith)
            requires 0 <= draw * jitter_permille <= 0x1_0000_0000 * 1_000_000, 0 <= spacing <= 1_000_000;
    }
    let p = draw as u128 * jitter_permille as u128 * spacing as u128;
    proof {
        assert(p <= 0x1_0000_0000 * 1_000_000 * 1_000_000) by (nonlinear_arith)
            requires p == draw * jitter_permille * spacing, draw < 0x1_0000_0000, jitter_permille <= 1_000_000,
                0 <= spacing <= 1_000_000;
        vstd::arithmetic::div_mod::lemma_div_is_ordered(p as int, 0x1_0000_0000int * 1_000_000 * 1_000_000, 1000int * 0x1_0000_0000);
        vstd::arithmetic::div_mod::lemma_div_pos_is_pos(p as int, 1000int * 0x1_0000_0000);
    }
    (p / (1000 * 0x1_0000_0000)) as i64
}

/// Floor of the square root of `n`.
fn floor_sqrt_exec(n: u128) -> (r: u64)
    requires
        n < 0x10_0000_0000_0000_0000_0000,
    ensures
        r == floor_sqrt(n as int),
        is_floor_sqrt(r as int, n as int),
{
    let r = isqrt(n);
    proof {
        assert(is_floor_sqrt(r as int, n as int));
        lemma_floor_sqrt_unique(r as int, floor_sqrt(n as int), n as int);
    }
    r
}

pub struct HydroParticles {
    positions: Vec<Point>,
    velocities: Vec<Vector>,
    accellerations: Vec<Vector>,
    /// Immovable particles that form the walls ("shadow particles").
    boundary_particles: Vec<Point>,
    /// Interaction radius h, in micrometres.
    smoothing_length: i64,
    /// Rest particle density, in particles per square metre.
    particle_density: u64,
    /// Gravity, in micrometres per second squared.
    gravity: Vector,
    search: NeighborhoodSearch,
}

impl HydroParticles {
    pub closed spec fn positions_spec(&self) -> Seq<Point> {
        self.positions@
    }

    pub closed spec fn velocities_spec(&self) -> Seq<Vector> {
        self.velocities@
    }

    pub closed spec fn accellerations_spec(&self) -> Seq<Vector> {
        self.accellerations@
    }

    pub closed spec fn boundary_spec(&self) -> Seq<Point> {
        self.boundary_particles@
    }

    pub open spec fn len(&self) -> nat {
        self.positions_spec().len()
    }

    /// Positions, velocities and accelerations have one entry per fluid particle.
    pub open spec fn lengths_agree(&self) -> bool {
        &&& self.velocities_spec().len() == self.len()
        &&& self.accellerations_spec().len() == self.len()
    }

    pub closed spec fn smoothing_length_spec(&self) -> int {
        self.smoothing_length as int
    }

    pub closed spec fn particle_density_spec(&self) -> int {
        self.particle_density as int
    }

    pub closed spec fn gravity_spec(&self) -> Vector {
        self.gravity
    }

    pub closed spec fn wf(&self) -> bool {
        &&& self.positions@.len() == self.velocities@.len()
        &&& self.positions@.len() == self.accellerations@.len()
        &&& self.positions@.len() < MAX_PARTICLES
        &&& self.boundary_particles@.len() < MAX_PARTICLES
        &&& 0 < self.smoothing_length <= MAX_RADIUS
        &&& 1 <= self.particle_density <= MAX_PARTICLE_DENSITY
        &&& vector_ok(self.gravity, FORCE_LIMIT as int)
        &&& self.search.wf()
        &&& self.search.radius_spec() == self.smoothing_length
        &&& self.search.codes_spec().len() <= self.positions@.len()
    }

    /// Every position, velocity and acceleration component within `STATE_LIMIT`.
    pub open spec fn state_ok(&self) -> bool {
        &&& forall|i: int|
            0 <= i < self.positions_spec().len() ==> vector_ok(
                #[trigger] self.positions_spec()[i],
                STATE_LIMIT as int,
            )
        &&& forall|i: int|
            0 <= i < self.velocities_spec().len() ==> vector_ok(
                #[trigger] self.velocities_spec()[i],
                STATE_LIMIT as int,
            )
        &&& forall|i: int|
            0 <= i < self.accellerations_spec().len() ==> vector_ok(
                #[trigger] self.accellerations_spec()[i],
                STATE_LIMIT as int,
            )
    }

    /// * smoothing_factor_percent: interaction radius, in percent of the spacing of resting particles
    /// * particle_density: rest particle density, in particles per square metre
    /// * gravity: in micrometres per second squared
    ///
    /// The smoothing length is `factor / sqrt(density)`: `floor(sqrt(factor² * 10^8 / density))`
    /// micrometres for the factor in percent.
    pub fn new(smoothing_factor_percent: u32, particle_density: u64, gravity: Vector) -> (r:
        HydroParticles)
        requires
            1 <= particle_density <= MAX_PARTICLE_DENSITY,
            1 <= smoothing_factor_percent <= 10_000,
            particle_density <= smoothing_factor_percent as int * smoothing_factor_percent as int
                * 100_000_000,
            vector_ok(gravity, FORCE_LIMIT as int),
        ensures
            r.wf(),
            r.lengths_agree(),
            r.len() == 0,
            r.velocities_spec().len() == 0,
            r.accellerations_spec().len() == 0,
            r.boundary_spec().len() == 0,
            r.smoothing_length_spec() == floor_sqrt(
                smoothing_factor_percent as int * smoothing_factor_percent as int * 100_000_000
                    / particle_density as int,
            ),
            r.particle_density_spec() == particle_density,
            r.gravity_spec() == gravity,
    {
        let f = smoothing_factor_percent as u128;
        assert(f * f <= 100_000_000) by (nonlinear_arith)
            requires f <= 10_000;
        let num = f * f * 100_000_000;
        let n = num / (particle_density as u128);
        proof {
            assert(num <= 10_000_000_000_000_000) by (nonlinear_arith)
                requires num == f * f * 100_000_000, f <= 10_000;
            vstd::arithmetic::div_mod::lemma_div_is_ordered_by_denominator(num as int, 1, particle_density as int);
            vstd::arithmetic::div_mod::lemma_div_is_ordered(particle_density as int, num as int, particle_density as int);
            vstd::arithmetic::div_mod::lemma_div_by_self(particle_density as int);
        }
        let h = floor_sqrt_exec(n);
        proof {
            assert(h <= 100_000_000) by (nonlinear_arith)
                requires h * h <= n, n <= 10_000_000_000_000_000, h >= 0;
            assert(h >= 1) by (nonlinear_arith)
                requires n < (h + 1) * (h + 1), n >= 1, h >= 0;
        }
        let smoothing_length = h as i64;
        HydroParticles {
            positions: Vec::new(),
            velocities: Vec::new(),
            accellerations: Vec::new(),
            boundary_particles: Vec::new(),
            smoothing_length,
            particle_density,
            gravity,
            search: NeighborhoodSearch::new(smoothing_length),
        }
    }

    /// Interaction radius h, in micrometres.
    pub fn smoothing_length(&self) -> (r: i64)
        ensures
            r == self.smoothing_length_spec(),
    {
        self.smoothing_length
    }

    /// Rest particle density, in particles per square metre.
    pub fn particle_density(&self) -> (r: u64)
        ensures
            r == self.particle_density_spec(),
    {
        self.particle_density
    }

    pub fn gravity(&self) -> (r: Vector)
        ensures
            r == self.gravity_spec(),
    {
        self.gravity
    }

    pub fn positions(&self) -> (r: &Vec<Point>)
        ensures
            r@ == self.positions_spec(),
    {
        &self.positions
    }

    pub fn velocities(&self) -> (r: &Vec<Vector>)
        ensures
            r@ == self.velocities_spec(),
    {
        &self.velocities
    }

    pub fn accellerations(&self) -> (r: &Vec<Vector>)
        ensures
            r@ == self.accellerations_spec(),
    {
        &self.accellerations
    }

    pub fn boundary_particles(&self) -> (r: &Vec<Point>)
        ensures
            r@ == self.boundary_spec(),
    {
        &self.boundary_particles
    }

    /// Radius, in micrometres, of a disc that a resting particle fills: half the
    /// spacing, `0.5 / sqrt(density)` metres, rounded down.
    pub fn suggested_particle_render_radius(&self) -> (r: i64)
        requires
            self.wf(),
        ensures
            r == floor_sqrt(250_000_000_000int / self.particle_density_spec()),
    {
        let n = 250_000_000_000u128 / (self.particle_density as u128);
        proof {
            vstd::arithmetic::div_mod::lemma_div_is_ordered_by_denominator(250_000_000_000, 1, self.particle_density as int);
        }
        let r = floor_sqrt_exec(n);
        proof {
            assert(r <= 1_000_000) by (nonlinear_arith)
                requires r * r <= n, n <= 250_000_000_000, r >= 0;
        }
        r as i64
    }

    /// First half of a leapfrog step: drift every particle by `v dt + a dt² / 2`
    /// and kick its velocity by `a dt / 2`, with the acceleration of the last force pass.
    /// `dt` is in microseconds.
    pub fn begin_step(&mut self, dt: i64)
        requires
            old(self).wf(),
            old(self).state_ok(),
            0 <= dt <= MAX_DT,
        ensures
            final(self).wf(),
            final(self).lengths_agree(),
            final(self).len() == old(self).len(),
            final(self).accellerations_spec() == old(self).accellerations_spec(),
            final(self).boundary_spec() == old(self).boundary_spec(),
            final(self).smoothing_length_spec() == old(self).smoothing_length_spec(),
            final(self).particle_density_spec() == old(self).particle_density_spec(),
            final(self).gravity_spec() == old(self).gravity_spec(),
            forall|i: int|
                #![trigger final(self).positions_spec()[i]]
                0 <= i < old(self).len() ==> {
                    let p = old(self).positions_spec()[i];
                    let v = old(self).velocities_spec()[i];
                    let a = old(self).accellerations_spec()[i];
                    &&& final(self).positions_spec()[i].x == drift(p.x as int, v.x as int, a.x as int, dt as int)
                    &&& final(self).positions_spec()[i].y == drift(p.y as int, v.y as int, a.y as int, dt as int)
                    &&& final(self).velocities_spec()[i].x == half_kick(v.x as int, a.x as int, dt as int)
                    &&& final(self).velocities_spec()[i].y == half_kick(v.y as int, a.y as int, dt as int)
                },
    {
        let n = self.positions.len();
        let ghost old_p = self.positions@;
        let ghost old_v = self.velocities@;
        assert forall|m: int| 0 <= m < n implies vector_ok(#[trigger] old_v[m], 2 * STATE_LIMIT) by {
            assert(vector_ok(old(self).velocities_spec()[m], 2 * STATE_LIMIT));
        }
        let mut i: usize = 0;
        while i < n
            invariant
                self.wf(),
                n == self.len(),
                0 <= dt <= MAX_DT,
                i <= n,
                self.accellerations@ == old(self).accellerations@,
                self.boundary_particles@ == old(self).boundary_particles@,
                self.smoothing_length == old(self).smoothing_length,
                self.particle_density == old(self).particle_density,
                self.gravity == old(self).gravity,
                old_p == old(self).positions@,
                n == old(self).len(),
                old(self).wf(),
                old_v == old(self).velocities@,
                old(self).state_ok(),
                forall|k: int| i <= k < n ==> self.positions@[k] == old_p[k] && self.velocities@[k] == old_v[k],
                forall|k: int|
                    #![trigger self.positions@[k]]
                    0 <= k < i ==> {
                        let p = old_p[k];
                        let v = old_v[k];
                        let a = self.accellerations@[k];
                        &&& self.positions@[k].x == drift(p.x as int, v.x as int, a.x as int, dt as int)
                        &&& self.positions@[k].y == drift(p.y as int, v.y as int, a.y as int, dt as int)
                        &&& self.velocities@[k].x == half_kick(v.x as int, a.x as int, dt as int)
                        &&& self.velocities@[k].y == half_kick(v.y as int, a.y as int, dt as int)
                    },
            decreases n - i,
        {
            let p = self.positions[i];
            let v = self.velocities[i];
            let a = self.accellerations[i];
            assert(vector_ok(old(self).positions_spec()[i as int], STATE_LIMIT as int));
            assert(vector_ok(old(self).velocities_spec()[i as int], STATE_LIMIT as int));
            assert(vector_ok(old(self).accellerations_spec()[i as int], STATE_LIMIT as int));
            let px = p.x + mul_div_trunc(v.x, dt, UNITS_PER_METRE) + mul_div_trunc(
                mul_div_trunc(a.x, dt, UNITS_PER_METRE),
                dt,
                2 * UNITS_PER_METRE,
            );
            let py = p.y + mul_div_trunc(v.y, dt, UNITS_PER_METRE) + mul_div_trunc(
                mul_div_trunc(a.y, dt, UNITS_PER_METRE),
                dt,
                2 * UNITS_PER_METRE,
            );
            let vx = v.x + mul_div_trunc(a.x, dt, 2 * UNITS_PER_METRE);
            let vy = v.y + mul_div_trunc(a.y, dt, 2 * UNITS_PER_METRE);
            self.positions.set(i, Vec2 { x: px, y: py });
            self.velocities.set(i, Vec2 { x: vx, y: vy });
            i = i + 1;
        }
    }

    /// Second half of a leapfrog step, after `begin_step`: every acceleration is
    /// reset to gravity, each pair contribution is added to its first particle and
    /// subtracted from its second, each boundary contribution is added to its
    /// particle, and then every velocity is kicked by `a dt / 2` with the new
    /// acceleration. `dt` is in microseconds.
    pub fn physics_step(
        &mut self,
        dt: i64,
        pair_forces: &Vec<PairForce>,
        boundary_forces: &Vec<BoundaryForce>,
    )
        requires
            old(self).wf(),
            0 <= dt <= MAX_DT,
            forall|i: int|
                0 <= i < old(self).len() ==> vector_ok(
                    #[trigger] old(self).velocities_spec()[i],
                    2 * STATE_LIMIT,
                ),
            pair_forces@.len() + boundary_forces@.len() < MAX_CONTRIBUTIONS,
            forall|k: int|
                0 <= k < pair_forces@.len() ==> {
                    let p = #[trigger] pair_forces@[k];
                    p.i < old(self).len() && p.j < old(self).len() && p.i != p.j && vector_ok(
                        p.f,
                        FORCE_LIMIT as int,
                    )
                },
            forall|k: int|
                0 <= k < boundary_forces@.len() ==> {
                    let b = #[trigger] boundary_forces@[k];
                    b.i < old(self).len() && vector_ok(b.f, FORCE_LIMIT as int)
                },
        ensures
            final(self).wf(),
            final(self).lengths_agree(),
            final(self).len() == old(self).len(),
            final(self).positions_spec() == old(self).positions_spec(),
            final(self).boundary_spec() == old(self).boundary_spec(),
            final(self).smoothing_length_spec() == old(self).smoothing_length_spec(),
            final(self).particle_density_spec() == old(self).particle_density_spec(),
            final(self).gravity_spec() == old(self).gravity_spec(),
            vecs_model(final(self).accellerations_spec()) == apply_boundary(
                apply_pairs(
                    Seq::new(old(self).len(), |k: int| vec_model(old(self).gravity_spec())),
                    pair_forces@,
                ),
                boundary_forces@,
            ),
            forall|i: int|
                #![trigger final(self).velocities_spec()[i]]
                0 <= i < old(self).len() ==> {
                    let v = old(self).velocities_spec()[i];
                    let a = final(self).accellerations_spec()[i];
                    &&& final(self).velocities_spec()[i].x == half_kick(v.x as int, a.x as int, dt as int)
                    &&& final(self).velocities_spec()[i].y == half_kick(v.y as int, a.y as int, dt as int)
                },
    {
        let n = self.positions.len();
        let g = self.gravity;
        let ghost init = Seq::new(n as nat, |k: int| vec_model(g));
        let mut acc: Vec<Vector> = Vec::new();
        let mut k: usize = 0;
        while k < n
            invariant
                k <= n,
                acc@.len() == k,
                forall|m: int| 0 <= m < k ==> #[trigger] acc@[m] == g,
            decreases n - k,
        {
            acc.push(g);
            k = k + 1;
        }
        assert(vecs_model(acc@) =~= init);
        let np = pair_forces.len();
        let mut t: usize = 0;
        while t < np
            invariant
                self.wf(),
                n == self.len(),
                np == pair_forces@.len(),
                np + boundary_forces@.len() < MAX_CONTRIBUTIONS,
                t <= np,
                acc@.len() == n,
                vector_ok(g, FORCE_LIMIT as int),
                forall|q: int|
                    0 <= q < pair_forces@.len() ==> {
                        let p = #[trigger] pair_forces@[q];
                        p.i < n && p.j < n && p.i != p.j && vector_ok(p.f, FORCE_LIMIT as int)
                    },
                forall|m: int| 0 <= m < n ==> vector_ok(#[trigger] acc@[m], FORCE_LIMIT * (1 + t)),
                vecs_model(acc@) == apply_pairs(init, pair_forces@.take(t as int)),
            decreases np - t,
        {
            let pf = pair_forces[t];
            let ghost before = acc@;
            let ai = acc[pf.i as usize];
            acc.set(pf.i as usize, Vec2 { x: ai.x + pf.f.x, y: ai.y + pf.f.y });
            let aj = acc[pf.j as usize];
            acc.set(pf.j as usize, Vec2 { x: aj.x - pf.f.x, y: aj.y - pf.f.y });
            proof {
                let taken = pair_forces@.take(t + 1);
                assert(taken.drop_last() =~= pair_forces@.take(t as int));
                assert(taken.last() == pf);
                let m0 = vecs_model(before);
                let m1 = m0.update(pf.i as int, (m0[pf.i as int].0 + pf.f.x, m0[pf.i as int].1 + pf.f.y));
                assert(vecs_model(acc@) =~= m1.update(pf.j as int, (m1[pf.j as int].0 - pf.f.x, m1[pf.j as int].1 - pf.f.y)));
            }
            t = t + 1;
        }
        let nb = boundary_forces.len();
        let mut b: usize = 0;
        let ghost after_pairs = vecs_model(acc@);
        assert(pair_forces@.take(np as int) =~= pair_forces@);
        while b < nb
            invariant
                self.wf(),
                n == self.len(),
                np == pair_forces@.len(),
                nb == boundary_forces@.len(),
                np + nb < MAX_CONTRIBUTIONS,
                b <= nb,
                acc@.len() == n,
                forall|q: int|
                    0 <= q < boundary_forces@.len() ==> {
                        let p = #[trigger] boundary_forces@[q];
                        p.i < n && vector_ok(p.f, FORCE_LIMIT as int)
                    },
                forall|m: int| 0 <= m < n ==> vector_ok(#[trigger] acc@[m], FORCE_LIMIT * (1 + np + b)),
                after_pairs == apply_pairs(init, pair_forces@),
                vecs_model(acc@) == apply_boundary(after_pairs, boundary_forces@.take(b as int)),
            decreases nb - b,
        {
            let bf = boundary_forces[b];
            let ghost before = acc@;
            let ai = acc[bf.i as usize];
            acc.set(bf.i as usize, Vec2 { x: ai.x + bf.f.x, y: ai.y + bf.f.y });
            proof {
                let taken = boundary_forces@.take(b + 1);
                assert(taken.drop_last() =~= boundary_forces@.take(b as int));
                assert(taken.last() == bf);
                let m0 = vecs_model(before);
                assert(vecs_model(acc@) =~= m0.update(bf.i as int, (m0[bf.i as int].0 + bf.f.x, m0[bf.i as int].1 + bf.f.y)));
            }
            b = b + 1;
        }
        assert(boundary_forces@.take(nb as int) =~= boundary_forces@);
        let ghost old_v = self.velocities@;
        assert forall|m: int| 0 <= m < n implies vector_ok(#[trigger] old_v[m], 2 * STATE_LIMIT) by {
            assert(vector_ok(old(self).velocities_spec()[m], 2 * STATE_LIMIT));
        }
        let mut i: usize = 0;
        while i < n
            invariant
                self.wf(),
                n == self.len(),
                0 <= dt <= MAX_DT,
                i <= n,
                acc@.len() == n,
                np + nb < MAX_CONTRIBUTIONS,
                forall|m: int| 0 <= m < n ==> vector_ok(#[trigger] acc@[m], FORCE_LIMIT * (1 + np + nb)),
                self.positions@ == old(self).positions@,
                self.boundary_particles@ == old(self).boundary_particles@,
                self.smoothing_length == old(self).smoothing_length,
                self.particle_density == old(self).particle_density,
                self.gravity == old(self).gravity,
                old_v == old(self).velocities@,
                forall|m: int| 0 <= m < n ==> vector_ok(#[trigger] old_v[m], 2 * STATE_LIMIT),
                forall|m: int| i <= m < n ==> self.velocities@[m] == old_v[m],
                forall|m: int|
                    #![trigger self.velocities@[m]]
                    0 <= m < i ==> {
                        let v = old_v[m];
                        let a = acc@[m];
                        &&& self.velocities@[m].x == half_kick(v.x as int, a.x as int, dt as int)
                        &&& self.velocities@[m].y == half_kick(v.y as int, a.y as int, dt as int)
                    },
            decreases n - i,
        {
            let v = self.velocities[i];
            let a = acc[i];
            assert(vector_ok(old_v[i as int], 2 * STATE_LIMIT));
            assert(vector_ok(acc@[i as int], FORCE_LIMIT * (1 + np + nb)));
            let vx = v.x + mul_div_trunc(a.x, dt, 2 * UNITS_PER_METRE);
            let vy = v.y + mul_div_trunc(a.y, dt, 2 * UNITS_PER_METRE);
            self.velocities.set(i, Vec2 { x: vx, y: vy });
            i = i + 1;
        }
        self.accellerations = acc;
    }

    /// Fills `rect` with a lattice of `nx * ny` new fluid particles at rest, where
    /// `nx = max(1, floor(w * sqrt(density)))` and likewise `ny` for the height.
    /// The `k`-th new particle (row-major, `k % nx` along x) sits at
    /// `corner + spacing * (k % nx, k / nx) + offset`, with `spacing = 1 / sqrt(density)`
    /// and an offset drawn from `draws[k]`: each component a fraction `draw / 2^32` of
    /// `jitter_permille / 1000` of the spacing, so in `[0, jitter * spacing)`. A missing
    /// draw, or no jitter, gives a perfect lattice.
    pub fn add_fluid_rect(&mut self, fluid_rect: &Rect, jitter_permille: u32, draws: &Vec<(u32, u32)>)
        requires
            old(self).wf(),
            source_ok(fluid_rect.x as int),
            source_ok(fluid_rect.y as int),
            0 <= fluid_rect.w <= SOURCE_LIMIT,
            0 <= fluid_rect.h <= SOURCE_LIMIT,
            jitter_permille <= 1_000_000,
            old(self).len() + lattice_count(fluid_rect.w as int, old(self).particle_density_spec())
                * lattice_count(fluid_rect.h as int, old(self).particle_density_spec()) < MAX_PARTICLES,
        ensures
            final(self).wf(),
            final(self).lengths_agree(),
            old(self).state_ok() ==> final(self).state_ok(),
            final(self).boundary_spec() == old(self).boundary_spec(),
            final(self).smoothing_length_spec() == old(self).smoothing_length_spec(),
            final(self).particle_density_spec() == old(self).particle_density_spec(),
            final(self).gravity_spec() == old(self).gravity_spec(),
            ({
                let rho = old(self).particle_density_spec();
                let nx = lattice_count(fluid_rect.w as int, rho);
                let ny = lattice_count(fluid_rect.h as int, rho);
                let step = lattice_spacing(rho);
                let old_n = old(self).len() as int;
                &&& final(self).len() == old_n + nx * ny
                &&& final(self).positions_spec().take(old_n) == old(self).positions_spec()
                &&& final(self).velocities_spec().take(old_n) == old(self).velocities_spec()
                &&& final(self).accellerations_spec().take(old_n) == old(self).accellerations_spec()
                &&& forall|k: int|
                    #![trigger final(self).positions_spec()[old_n + k]]
                    0 <= k < nx * ny ==> {
                        &&& final(self).positions_spec()[old_n + k].x == fluid_rect.x + step * (k % nx)
                            + jitter_at(draws@, k, jitter_permille as int, step).0
                        &&& final(self).positions_spec()[old_n + k].y == fluid_rect.y + step * (k / nx)
                            + jitter_at(draws@, k, jitter_permille as int, step).1
                        &&& final(self).velocities_spec()[old_n + k] == Vec2 { x: 0, y: 0 }
                        &&& final(self).accellerations_spec()[old_n + k] == Vec2 { x: 0, y: 0 }
                    }
            }),
    {
        let rho = self.particle_density as u128;
        let w = fluid_rect.w as u128;
        let hgt = fluid_rect.h as u128;
        proof {
            assert(w * w <= 0x1_0000_0000_0000_0000_0000) by (nonlinear_arith)
                requires w <= 0x100_0000_0000;
            assert(hgt * hgt <= 0x1_0000_0000_0000_0000_0000) by (nonlinear_arith)
                requires hgt <= 0x100_0000_0000;
            assert(w * w * rho <= 0x1_0000_0000_0000_0000_0000int * 1_000_000_000_000) by (nonlinear_arith)
                requires w * w <= 0x1_0000_0000_0000_0000_0000, 1 <= rho <= 1_000_000_000_000;
            assert(hgt * hgt * rho <= 0x1_0000_0000_0000_0000_0000int * 1_000_000_000_000) by (nonlinear_arith)
                requires hgt * hgt <= 0x1_0000_0000_0000_0000_0000, 1 <= rho <= 1_000_000_000_000;
            vstd::arithmetic::div_mod::lemma_div_is_ordered((w * w * rho) as int, 0x1_0000_0000_0000_0000_0000int * 1_000_000_000_000, 1_000_000_000_000);
            vstd::arithmetic::div_mod::lemma_div_is_ordered((hgt * hgt * rho) as int, 0x1_0000_0000_0000_0000_0000int * 1_000_000_000_000, 1_000_000_000_000);
            vstd::arithmetic::div_mod::lemma_div_multiples_vanish(0x1_0000_0000_0000_0000_0000, 1_000_000_000_000);
        }
        let cx = floor_sqrt_exec(w * w * rho / 1_000_000_000_000);
        let cy = floor_sqrt_exec(hgt * hgt * rho / 1_000_000_000_000);
        let nx: u64 = if cx < 1 { 1 } else { cx };
        let ny: u64 = if cy < 1 { 1 } else { cy };
        let ghost old_n = self.positions@.len() as int;
        proof {
            assert(nx <= nx * ny < MAX_PARTICLES && ny <= nx * ny) by (nonlinear_arith)
                requires nx >= 1, ny >= 1, nx * ny < MAX_PARTICLES;
            vstd::arithmetic::div_mod::lemma_div_is_ordered_by_denominator(1_000_000_000_000, 1, rho as int);
        }
        let nxu = nx as usize;
        let total = nxu * (ny as usize);
        let sp = floor_sqrt_exec(1_000_000_000_000u128 / rho);
        proof {
            assert(sp <= 1_000_000) by (nonlinear_arith)
                requires sp * sp <= 1_000_000_000_000u128 / rho, 1_000_000_000_000u128 / rho <= 1_000_000_000_000, sp >= 0;
        }
        let step = sp as i64;
        let mut k: usize = 0;
        while k < total
            invariant
                self.wf(),
                old(self).wf(),
                k <= total,
                total == nx * ny,
                nx >= 1,
                ny >= 1,
                nxu == nx,
                old_n == old(self).len(),
                old_n + total < MAX_PARTICLES,
                nx < MAX_PARTICLES,
                ny < MAX_PARTICLES,
                0 <= fluid_rect.w <= SOURCE_LIMIT,
                0 <= fluid_rect.h <= SOURCE_LIMIT,
                0 <= step <= 1_000_000,
                jitter_permille <= 1_000_000,
                source_ok(fluid_rect.x as int),
                source_ok(fluid_rect.y as int),
                self.len() == old_n + k,
                self.positions@.take(old_n) == old(self).positions@,
                self.velocities@.take(old_n) == old(self).velocities@,
                self.accellerations@.take(old_n) == old(self).accellerations@,
                self.boundary_particles@ == old(self).boundary_particles@,
                self.smoothing_length == old(self).smoothing_length,
                self.particle_density == old(self).particle_density,
                self.gravity == old(self).gravity,
                forall|q: int|
                    #![trigger self.positions@[old_n + q]]
                    0 <= q < k ==> {
                        &&& self.positions@[old_n + q].x == fluid_rect.x + step * (q % (nx as int))
                            + jitter_at(draws@, q, jitter_permille as int, step as int).0
                        &&& self.positions@[old_n + q].y == fluid_rect.y + step * (q / (nx as int))
                            + jitter_at(draws@, q, jitter_permille as int, step as int).1
                        &&& vector_ok(self.positions@[old_n + q], STATE_LIMIT as int)
                    },
                forall|q: int| old_n <= q < old_n + k ==> #[trigger] self.velocities@[q] == (Vec2 { x: 0, y: 0 }),
                forall|q: int| old_n <= q < old_n + k ==> #[trigger] self.accellerations@[q] == (Vec2 { x: 0, y: 0 }),
            decreases total - k,
        {
            let x = k % nxu;
            let y = k / nxu;
            proof {
                vstd::arithmetic::div_mod::lemma_fundamental_div_mod(k as int, nx as int);
                vstd::arithmetic::div_mod::lemma_mod_bound(k as int, nx as int);
                vstd::arithmetic::div_mod::lemma_div_pos_is_pos(k as int, nx as int);
                assert(y < ny) by (nonlinear_arith)
                    requires k == nx * y + x, 0 <= x, k < nx * ny, nx >= 1;
                assert(0 <= step * x <= 1_000_000 * MAX_PARTICLES) by (nonlinear_arith)
                    requires 0 <= step <= 1_000_000, 0 <= x < nx, nx < MAX_PARTICLES;
                assert(0 <= step * y <= 1_000_000 * MAX_PARTICLES) by (nonlinear_arith)
                    requires 0 <= step <= 1_000_000, 0 <= y < ny, ny < MAX_PARTICLES;
            }
            let (jx, jy) = if k < draws.len() {
                (
                    jitter_offset_exec(draws[k].0, jitter_permille, step),
                    jitter_offset_exec(draws[k].1, jitter_permille, step),
                )
            } else {
                (0i64, 0i64)
            };
            proof {
                assert(jx == jitter_at(draws@, k as int, jitter_permille as int, step as int).0);
                assert(jy == jitter_at(draws@, k as int, jitter_permille as int, step as int).1);
            }
            let px = fluid_rect.x + step * (x as i64) + jx;
            let py = fluid_rect.y + step * (y as i64) + jy;
            let ghost before_p = self.positions@;
            let ghost before_v = self.velocities@;
            let ghost before_a = self.accellerations@;
            self.positions.push(Vec2 { x: px, y: py });
            self.velocities.push(Vec2 { x: 0, y: 0 });
            self.accellerations.push(Vec2 { x: 0, y: 0 });
            proof {
                assert(self.positions@.take(old_n) =~= before_p.take(old_n));
                assert(self.velocities@.take(old_n) =~= before_v.take(old_n));
                assert(self.accellerations@.take(old_n) =~= before_a.take(old_n));
                assert(self.positions@[old_n + k] == Vec2 { x: px, y: py });
            }
            k = k + 1;
        }
        proof {
            let rho_s = old(self).particle_density_spec();
            assert(nx == lattice_count(fluid_rect.w as int, rho_s));
            assert(ny == lattice_count(fluid_rect.h as int, rho_s));
            assert(step == lattice_spacing(rho_s));
            if old(self).state_ok() {
                assert forall|i: int| 0 <= i < self.positions@.len() implies vector_ok(
                    #[trigger] self.positions_spec()[i],
                    STATE_LIMIT as int,
                ) by {
                    if i < old_n {
                        assert(self.positions@[i] == self.positions@.take(old_n)[i]);
                        assert(vector_ok(old(self).positions_spec()[i], STATE_LIMIT as int));
                    } else {
                        assert(self.positions@[old_n + (i - old_n)] == self.positions@[i]);
                    }
                }
                assert forall|i: int| 0 <= i < self.velocities@.len() implies vector_ok(
                    #[trigger] self.velocities_spec()[i],
                    STATE_LIMIT as int,
                ) by {
                    if i < old_n {
                        assert(self.velocities@[i] == self.velocities@.take(old_n)[i]);
                        assert(vector_ok(old(self).velocities_spec()[i], STATE_LIMIT as int));
                    }
                }
                assert forall|i: int| 0 <= i < self.accellerations@.len() implies vector_ok(
                    #[trigger] self.accellerations_spec()[i],
                    STATE_LIMIT as int,
                ) by {
                    if i < old_n {
                        assert(self.accellerations@[i] == self.accellerations@.take(old_n)[i]);
                        assert(vector_ok(old(self).accellerations_spec()[i], STATE_LIMIT as int));
                    } else {
                        assert(self.positions@[old_n + (i - old_n)] == self.positions@[i]);
                    }
                }
            }
        }
    }

    /// Adds `count = max(1, floor(|end - start| * sqrt(density)))` boundary
    /// particles along the segment from `start` toward `end`: the `k`-th sits at
    /// `start + (end - start) * k / count`, rounded toward zero.
    pub fn add_boundary_line(&mut self, start: &Point, end: &Point)
        requires
            old(self).wf(),
            source_ok(start.x as int),
            source_ok(start.y as int),
            source_ok(end.x as int),
            source_ok(end.y as int),
            old(self).boundary_spec().len() + segment_count(*start, *end, old(self).particle_density_spec())
                < MAX_PARTICLES,
        ensures
            final(self).wf(),
            final(self).lengths_agree(),
            final(self).positions_spec() == old(self).positions_spec(),
            final(self).velocities_spec() == old(self).velocities_spec(),
            final(self).accellerations_spec() == old(self).accellerations_spec(),
            final(self).smoothing_length_spec() == old(self).smoothing_length_spec(),
            final(self).particle_density_spec() == old(self).particle_density_spec(),
            final(self).gravity_spec() == old(self).gravity_spec(),
            ({
                let count = segment_count(*start, *end, old(self).particle_density_spec());
                let old_n = old(self).boundary_spec().len() as int;
                &&& final(self).boundary_spec().len() == old_n + count
                &&& final(self).boundary_spec().take(old_n) == old(self).boundary_spec()
                &&& forall|k: int|
                    #![trigger final(self).boundary_spec()[old_n + k]]
                    0 <= k < count ==> {
                        &&& final(self).boundary_spec()[old_n + k].x == start.x + trunc_div(
                            (end.x - start.x) * k,
                            count,
                        )
                        &&& final(self).boundary_spec()[old_n + k].y == start.y + trunc_div(
                            (end.y - start.y) * k,
                            count,
                        )
                    }
            }),
    {
        let dx = end.x - start.x;
        let dy = end.y - start.y;
        proof {
            assert(0 <= dx * dx <= 0x4_0000_0000_0000_0000_0000) by (nonlinear_arith)
                requires -0x200_0000_0000 <= dx <= 0x200_0000_0000;
            assert(0 <= dy * dy <= 0x4_0000_0000_0000_0000_0000) by (nonlinear_arith)
                requires -0x200_0000_0000 <= dy <= 0x200_0000_0000;
        }
        let sq: i128 = dx as i128 * dx as i128 + dy as i128 * dy as i128;
        assert(sq == dist_sq(*start, *end)) by (nonlinear_arith)
            requires sq == dx * dx + dy * dy, dx == end.x - start.x, dy == end.y - start.y;
        let dsq = sq as u128;
        let rho = self.particle_density as u128;
        proof {
            assert(dsq * rho <= 0x8_0000_0000_0000_0000_0000 * 1_000_000_000_000) by (nonlinear_arith)
                requires dsq <= 0x8_0000_0000_0000_0000_0000, 1 <= rho <= 1_000_000_000_000;
            vstd::arithmetic::div_mod::lemma_div_is_ordered((dsq * rho) as int, 0x8_0000_0000_0000_0000_0000int * 1_000_000_000_000, 1_000_000_000_000);
            vstd::arithmetic::div_mod::lemma_div_multiples_vanish(0x8_0000_0000_0000_0000_0000, 1_000_000_000_000);
        }
        let cr = floor_sqrt_exec(dsq * rho / 1_000_000_000_000);
        proof {
            assert(cr <= 0x400_0000_0000) by (nonlinear_arith)
                requires cr * cr <= dsq * rho / 1_000_000_000_000, dsq * rho / 1_000_000_000_000 <= 0x8_0000_0000_0000_0000_0000, cr >= 0;
        }
        let c = cr as i64;
        let count: i64 = if c < 1 { 1 } else { c };
        let ghost old_n = self.boundary_particles@.len() as int;
        let mut k: i64 = 0;
        while k < count
            invariant
                self.wf(),
                0 <= k <= count,
                old_n == old(self).boundary_spec().len(),
                old_n + count < MAX_PARTICLES,
                source_ok(start.x as int),
                source_ok(start.y as int),
                dx == end.x - start.x,
                dy == end.y - start.y,
                -0x200_0000_0000 <= dx <= 0x200_0000_0000,
                -0x200_0000_0000 <= dy <= 0x200_0000_0000,
                self.boundary_particles@.len() == old_n + k,
                self.boundary_particles@.take(old_n) == old(self).boundary_particles@,
                self.positions@ == old(self).positions@,
                self.velocities@ == old(self).velocities@,
                self.accellerations@ == old(self).accellerations@,
                self.smoothing_length == old(self).smoothing_length,
                self.particle_density == old(self).particle_density,
                self.gravity == old(self).gravity,
                self.search == old(self).search,
                forall|q: int|
                    #![trigger self.boundary_particles@[old_n + q]]
                    0 <= q < k ==> {
                        &&& self.boundary_particles@[old_n + q].x == start.x + trunc_div(dx * q, count as int)
                        &&& self.boundary_particles@[old_n + q].y == start.y + trunc_div(dy * q, count as int)
                    },
            decreases count - k,
        {
            let ox = mul_div_trunc(dx, k, count);
            let oy = mul_div_trunc(dy, k, count);
            let ghost before = self.boundary_particles@;
            self.boundary_particles.push(Vec2 { x: start.x + ox, y: start.y + oy });
            proof {
                assert(self.boundary_particles@.take(old_n) =~= before.take(old_n));
                assert forall|q: int| 0 <= q < k + 1 implies {
                    &&& #[trigger] self.boundary_particles@[old_n + q].x == start.x + trunc_div(dx * q, count as int)
                    &&& self.boundary_particles@[old_n + q].y == start.y + trunc_div(dy * q, count as int)
                } by {
                    if q < k {
                        assert(self.boundary_particles@[old_n + q] == before[old_n + q]);
                    }
                }
            }
            k = k + 1;
        }
    }

    #[verifier::rlimit(50)]
    /// Every unordered pair `(i, j)`, `i < j`, of fluid particles whose distance is at
    /// most the smoothing length, each once; the neighbor index is rebuilt first.
    pub fn fluid_pairs(&mut self) -> (r: Vec<(ParticleIndex, ParticleIndex)>)
        requires
            old(self).wf(),
            forall|i: int| 0 <= i < old(self).len() ==> point_in_range(#[trigger] old(self).positions_spec()[i]),
        ensures
            final(self).wf(),
            final(self).lengths_agree(),
            final(self).positions_spec() == old(self).positions_spec(),
            final(self).velocities_spec() == old(self).velocities_spec(),
            final(self).accellerations_spec() == old(self).accellerations_spec(),
            final(self).boundary_spec() == old(self).boundary_spec(),
            final(self).smoothing_length_spec() == old(self).smoothing_length_spec(),
            final(self).particle_density_spec() == old(self).particle_density_spec(),
            final(self).gravity_spec() == old(self).gravity_spec(),
            r@.no_duplicates(),
            forall|m: int|
                0 <= m < r@.len() ==> {
                    let (i, j) = #[trigger] r@[m];
                    &&& i < j < old(self).len()
                    &&& dist_sq(old(self).positions_spec()[i as int], old(self).positions_spec()[j as int])
                        <= old(self).smoothing_length_spec() * old(self).smoothing_length_spec()
                },
            forall|i: int, j: int|
                0 <= i < j < old(self).len() && dist_sq(
                    #[trigger] old(self).positions_spec()[i],
                    #[trigger] old(self).positions_spec()[j],
                ) <= old(self).smoothing_length_spec() * old(self).smoothing_length_spec()
                    ==> r@.contains((i as u32, j as u32)),
    {
        proof {
            assert forall|q: int| 0 <= q < self.positions@.len() implies point_in_range(#[trigger] self.positions@[q]) by {
                assert(point_in_range(old(self).positions_spec()[q]));
            }
        }
        self.search.update(&self.positions);
        let n = self.positions.len();
        let ghost h = self.smoothing_length as int;
        let mut out: Vec<(ParticleIndex, ParticleIndex)> = Vec::new();
        let mut i: usize = 0;
        while i < n
            invariant
                self.wf(),
                n == self.len(),
                self.search.built_from(self.positions@),
                h == self.smoothing_length,
                self.positions@ == old(self).positions@,
                self.velocities@ == old(self).velocities@,
                self.accellerations@ == old(self).accellerations@,
                self.boundary_particles@ == old(self).boundary_particles@,
                self.smoothing_length == old(self).smoothing_length,
                self.particle_density == old(self).particle_density,
                self.gravity == old(self).gravity,
                forall|q: int| 0 <= q < n ==> point_in_range(#[trigger] self.positions@[q]),
                i <= n,
                out@.no_duplicates(),
                forall|m: int|
                    0 <= m < out@.len() ==> {
                        let (a, b) = #[trigger] out@[m];
                        &&& a < i
                        &&& a < b < n
                        &&& dist_sq(self.positions@[a as int], self.positions@[b as int]) <= h * h
                    },
                forall|a: int, b: int|
                    0 <= a < i && a < b < n && dist_sq(
                        #[trigger] self.positions@[a],
                        #[trigger] self.positions@[b],
                    ) <= h * h ==> out@.contains((a as u32, b as u32)),
            decreases n - i,
        {
            assert(point_in_range(self.positions@[i as int]));
            let nb = self.search.neighbors_within(&self.positions, self.positions[i]);
            let mut t: usize = 0;
            while t < nb.len()
                invariant
                    self.wf(),
                    n == self.len(),
                    i < n,
                    h == self.smoothing_length,
                    h == self.search.radius_spec(),
                    nb@.no_duplicates(),
                    forall|m: int|
                        0 <= m < nb@.len() ==> (#[trigger] nb@[m]) < n && dist_sq(
                            self.positions@[i as int],
                            self.positions@[nb@[m] as int],
                        ) <= h * h,
                    t <= nb@.len(),
                    out@.no_duplicates(),
                    forall|m: int|
                        0 <= m < out@.len() ==> {
                            let (a, b) = #[trigger] out@[m];
                            &&& a <= i
                            &&& a < b < n
                            &&& dist_sq(self.positions@[a as int], self.positions@[b as int]) <= h * h
                            &&& (a == i ==> nb@.take(t as int).contains(b))
                        },
                    forall|a: int, b: int|
                        0 <= a < i && a < b < n && dist_sq(
                            #[trigger] self.positions@[a],
                            #[trigger] self.positions@[b],
                        ) <= h * h ==> out@.contains((a as u32, b as u32)),
                    forall|u: int| 0 <= u < t && (#[trigger] nb@[u]) > i ==> out@.contains((i as u32, nb@[u])),
                decreases nb@.len() - t,
            {
                let j = nb[t];
                let ghost prev = out@;
                if j as usize > i {
                    proof {
                        assert forall|m: int| 0 <= m < prev.len() implies prev[m] != (i as u32, j) by {
                            let (a, b) = prev[m];
                            if a == i as u32 {
                                assert(nb@.take(t as int).contains(b));
                                let w = choose|w: int| 0 <= w < t && nb@.take(t as int)[w] == b;
                                assert(nb@[w] == b);
                                if b == j {
                                    assert(nb@[w] == nb@[t as int]);
                                }
                            }
                        }
                    }
                    out.push((i as u32, j));
                }
                proof {
                    assert forall|m: int| 0 <= m < out@.len() implies {
                        let (a, b) = #[trigger] out@[m];
                        &&& a <= i
                        &&& a < b < n
                        &&& dist_sq(self.positions@[a as int], self.positions@[b as int]) <= h * h
                        &&& (a == i ==> nb@.take(t + 1).contains(b))
                    } by {
                        let (a, b) = out@[m];
                        if m < prev.len() {
                            assert(out@[m] == prev[m]);
                            if a == i {
                                let w = choose|w: int| 0 <= w < t && nb@.take(t as int)[w] == b;
                                assert(nb@.take(t + 1)[w] == b);
                            }
                        } else {
                            assert(nb@.take(t + 1)[t as int] == j);
                        }
                    }
                    assert forall|u: int| 0 <= u < t + 1 && (#[trigger] nb@[u]) > i implies out@.contains((i as u32, nb@[u])) by {
                        if u < t {
                            assert(prev.contains((i as u32, nb@[u])));
                            let w = choose|w: int| 0 <= w < prev.len() && prev[w] == (i as u32, nb@[u]);
                            assert(out@[w] == prev[w]);
                        } else {
                            assert(out@[out@.len() - 1] == (i as u32, j));
                        }
                    }
                    assert forall|a: int, b: int|
                        0 <= a < i && a < b < n && dist_sq(
                            #[trigger] self.positions@[a],
                            #[trigger] self.positions@[b],
                        ) <= h * h implies out@.contains((a as u32, b as u32)) by {
                        assert(prev.contains((a as u32, b as u32)));
                        let w = choose|w: int| 0 <= w < prev.len() && prev[w] == (a as u32, b as u32);
                        assert(out@[w] == prev[w]);
                    }
                }
                t = t + 1;
            }
            proof {
                assert forall|b: int|
                    i < b < n && dist_sq(self.positions@[i as int], #[trigger] self.positions@[b]) <= h * h
                        implies out@.contains((i as u32, b as u32)) by {
                    assert(nb@.contains(b as u32));
                    let u = choose|u: int| 0 <= u < nb@.len() && nb@[u] == b as u32;
                    assert(nb@[u] > i);
                }
            }
            i = i + 1;
        }
        out
    }

    /// Every pair `(i, k)` of a fluid particle `i` and a boundary particle `k` whose
    /// distance is at most the smoothing length, each once, ordered by `i` then `k`.
    pub fn boundary_pairs(&self) -> (r: Vec<(ParticleIndex, ParticleIndex)>)
        requires
            self.wf(),
            forall|i: int| 0 <= i < self.len() ==> point_in_range(#[trigger] self.positions_spec()[i]),
            forall|k: int|
                0 <= k < self.boundary_spec().len() ==> point_in_range(#[trigger] self.boundary_spec()[k]),
        ensures
            r@.no_duplicates(),
            forall|m: int|
                0 <= m < r@.len() ==> {
                    let (i, k) = #[trigger] r@[m];
                    &&& i < self.len()
                    &&& k < self.boundary_spec().len()
                    &&& dist_sq(self.positions_spec()[i as int], self.boundary_spec()[k as int])
                        <= self.smoothing_length_spec() * self.smoothing_length_spec()
                },
            forall|i: int, k: int|
                0 <= i < self.len() && 0 <= k < self.boundary_spec().len() && dist_sq(
                    #[trigger] self.positions_spec()[i],
                    #[trigger] self.boundary_spec()[k],
                ) <= self.smoothing_length_spec() * self.smoothing_length_spec()
                    ==> r@.contains((i as u32, k as u32)),
    {
        let n = self.positions.len();
        let nb = self.boundary_particles.len();
        assert(0 < self.smoothing_length * self.smoothing_length <= MAX_RADIUS * MAX_RADIUS) by (nonlinear_arith)
            requires 0 < self.smoothing_length <= MAX_RADIUS;
        let h_sq = (self.smoothing_length as i128) * (self.smoothing_length as i128);
        proof {
            assert forall|q: int| 0 <= q < n implies point_in_range(#[trigger] self.positions@[q]) by {
                assert(point_in_range(self.positions_spec()[q]));
            }
            assert forall|q: int| 0 <= q < nb implies point_in_range(#[trigger] self.boundary_particles@[q]) by {
                assert(point_in_range(self.boundary_spec()[q]));
            }
        }
        let mut out: Vec<(ParticleIndex, ParticleIndex)> = Vec::new();
        let mut i: usize = 0;
        while i < n
            invariant
                self.wf(),
                n == self.positions@.len(),
                nb == self.boundary_particles@.len(),
                h_sq == self.smoothing_length * self.smoothing_length,
                forall|q: int| 0 <= q < n ==> point_in_range(#[trigger] self.positions@[q]),
                forall|q: int| 0 <= q < nb ==> point_in_range(#[trigger] self.boundary_particles@[q]),
                i <= n,
                out@.no_duplicates(),
                forall|m: int|
                    0 <= m < out@.len() ==> {
                        let (a, b) = #[trigger] out@[m];
                        &&& a < i
                        &&& b < nb
                        &&& dist_sq(self.positions@[a as int], self.boundary_particles@[b as int]) <= h_sq
                    },
                forall|a: int, b: int|
                    0 <= a < i && 0 <= b < nb && dist_sq(
                        #[trigger] self.positions@[a],
                        #[trigger] self.boundary_particles@[b],
                    ) <= h_sq ==> out@.contains((a as u32, b as u32)),
            decreases n - i,
        {
            let mut k: usize = 0;
            while k < nb
                invariant
                    self.wf(),
                    n == self.positions@.len(),
                    nb == self.boundary_particles@.len(),
                    h_sq == self.smoothing_length * self.smoothing_length,
                    forall|q: int| 0 <= q < n ==> point_in_range(#[trigger] self.positions@[q]),
                    forall|q: int| 0 <= q < nb ==> point_in_range(#[trigger] self.boundary_particles@[q]),
                    i < n,
                    k <= nb,
                    out@.no_duplicates(),
                    forall|m: int|
                        0 <= m < out@.len() ==> {
                            let (a, b) = #[trigger] out@[m];
                            &&& (a < i || (a == i && b < k))
                            &&& b < nb
                            &&& dist_sq(self.positions@[a as int], self.boundary_particles@[b as int]) <= h_sq
                        },
                    forall|a: int, b: int|
                        0 <= a < i && 0 <= b < nb && dist_sq(
                            #[trigger] self.positions@[a],
                            #[trigger] self.boundary_particles@[b],
                        ) <= h_sq ==> out@.contains((a as u32, b as u32)),
                    forall|b: int|
                        0 <= b < k && dist_sq(self.positions@[i as int], #[trigger] self.boundary_particles@[b])
                            <= h_sq ==> out@.contains((i as u32, b as u32)),
                decreases nb - k,
            {
                let d = distance_squared(self.positions[i], self.boundary_particles[k]);
                let ghost prev = out@;
                if d <= h_sq {
                    out.push((i as u32, k as u32));
                    proof {
                        assert forall|m: int| 0 <= m < prev.len() implies prev[m] != (i as u32, k as u32) by {
                            let (a, b) = prev[m];
                        }
                        assert forall|a: int, b: int|
                            0 <= a < i && 0 <= b < nb && dist_sq(
                                #[trigger] self.positions@[a],
                                #[trigger] self.boundary_particles@[b],
                            ) <= h_sq implies out@.contains((a as u32, b as u32)) by {
                            let w = choose|w: int| 0 <= w < prev.len() && prev[w] == (a as u32, b as u32);
                            assert(out@[w] == prev[w]);
                        }
                        assert forall|b: int|
                            0 <= b < k + 1 && dist_sq(self.positions@[i as int], #[trigger] self.boundary_particles@[b])
                                <= h_sq implies out@.contains((i as u32, b as u32)) by {
                            if b < k {
                                let w = choose|w: int| 0 <= w < prev.len() && prev[w] == (i as u32, b as u32);
                                assert(out@[w] == prev[w]);
                            } else {
                                assert(out@[out@.len() - 1] == (i as u32, k as u32));
                            }
                        }
                    }
                }
                k = k + 1;
            }
            i = i + 1;
        }
        out
    }
}

/// Summing over all particles is unchanged when one entry is replaced, but for the entry itself.
proof fn lemma_sum_update(s: Seq<(int, int)>, i: int, v: (int, int))
    requires
        0 <= i < s.len(),
    ensures
        sum_x(s.update(i, v)) == sum_x(s) - s[i].0 + v.0,
        sum_y(s.update(i, v)) == sum_y(s) - s[i].1 + v.1,
    decreases s.len(),
{
    if i == s.len() - 1 {
        assert(s.update(i, v).drop_last() =~= s.drop_last());
    } else {
        assert(s.update(i, v).drop_last() =~= s.drop_last().update(i, v));
        lemma_sum_update(s.drop_last(), i, v);
    }
}

/// Pair contributions cancel: applying any sequence of them (each added to one
/// particle and subtracted from another) leaves the sum of the accelerations over
/// all particles unchanged.
pub proof fn lemma_pair_forces_cancel(acc: Seq<(int, int)>, pairs: Seq<PairForce>)
    requires
        forall|k: int|
            0 <= k < pairs.len() ==> (#[trigger] pairs[k]).i < acc.len() && pairs[k].j < acc.len(),
    ensures
        apply_pairs(acc, pairs).len() == acc.len(),
        sum_x(apply_pairs(acc, pairs)) == sum_x(acc),
        sum_y(apply_pairs(acc, pairs)) == sum_y(acc),
    decreases pairs.len(),
{
    if pairs.len() > 0 {
        let rest = pairs.drop_last();
        assert forall|k: int| 0 <= k < rest.len() implies (#[trigger] rest[k]).i < acc.len()
            && rest[k].j < acc.len() by {
            assert(rest[k] == pairs[k]);
        }
        lemma_pair_forces_cancel(acc, rest);
        let a = apply_pairs(acc, rest);
        let p = pairs.last();
        assert(pairs[pairs.len() - 1] == p);
        let ai = a[p.i as int];
        let a2 = a.update(p.i as int, (ai.0 + p.f.x, ai.1 + p.f.y));
        lemma_sum_update(a, p.i as int, (ai.0 + p.f.x, ai.1 + p.f.y));
        let aj = a2[p.j as int];
        lemma_sum_update(a2, p.j as int, (aj.0 - p.f.x, aj.1 - p.f.y));
    }
}

proof fn lemma_sum_zero(n: nat)
    ensures
        sum_x(Seq::new(n, |k: int| (0int, 0int))) == 0,
        sum_y(Seq::new(n, |k: int| (0int, 0int))) == 0,
    decreases n,
{
    if n > 0 {
        assert(Seq::new(n, |k: int| (0int, 0int)).drop_last() =~= Seq::new(
            (n - 1) as nat,
            |k: int| (0int, 0int),
        ));
        lemma_sum_zero((n - 1) as nat);
    }
}

/// One force pass conserves momentum: starting from zero accelerations, the pair
/// contributions (pressure and viscosity, without gravity or boundary terms) sum
/// to zero over all particles.
pub proof fn lemma_pair_forces_net_zero(n: nat, pairs: Seq<PairForce>)
    requires
        forall|k: int| 0 <= k < pairs.len() ==> (#[trigger] pairs[k]).i < n && pairs[k].j < n,
    ensures
        sum_x(apply_pairs(Seq::new(n, |k: int| (0int, 0int)), pairs)) == 0,
        sum_y(apply_pairs(Seq::new(n, |k: int| (0int, 0int)), pairs)) == 0,
{
    lemma_pair_forces_cancel(Seq::new(n, |k: int| (0int, 0int)), pairs);
    lemma_sum_zero(n);
}

} // verus!
