//! Point-mass particles on a fixed-point plane.
//!
//! Each step applies, in order: an attraction of bounded strength toward a
//! pointer position (only while the pointer is held down), a friction factor,
//! and an explicit Euler integration of position by velocity. All state is
//! signed 64-bit fixed-point (see `crate::fixed`), and every operation clamps
//! into the documented limits, so no step can overflow.

use vstd::prelude::*;
use crate::fixed::{
    clamp_i64, clamp_spec, isqrt, is_isqrt, lemma_isqrt_dominates, FP_SCALE, GRAV_MAX, POS_LIMIT,
    TIME_MAX, VEL_LIMIT,
};
use rand::Rng;

verus! {

/// Largest random velocity kick, in fixed-point units (one cell per time
/// unit, matching a unit vector scaled by a radius of at most one).
pub const RAND_VEL: i64 = 1024;

/// One point mass: position and velocity in fixed-point units.
#[derive(Clone, Copy, Debug, PartialEq, Eq, Structural)]
pub struct Particle {
    pub x: i64,
    pub y: i64,
    pub dx: i64,
    pub dy: i64,
}

impl Particle {
    /// Position within [-POS_LIMIT, POS_LIMIT], velocity within
    /// [-VEL_LIMIT, VEL_LIMIT].
    pub open spec fn wf(self) -> bool {
        &&& -POS_LIMIT <= self.x <= POS_LIMIT
        &&& -POS_LIMIT <= self.y <= POS_LIMIT
        &&& -VEL_LIMIT <= self.dx <= VEL_LIMIT
        &&& -VEL_LIMIT <= self.dy <= VEL_LIMIT
    }

    /// A particle at rest at the given fixed-point position.
    pub fn new_at(x: i64, y: i64) -> (p: Particle)
        requires
            -POS_LIMIT <= x <= POS_LIMIT,
            -POS_LIMIT <= y <= POS_LIMIT,
        ensures
            p == (Particle { x, y, dx: 0, dy: 0 }),
            p.wf(),
    {
        Particle { x, y, dx: 0, dy: 0 }
    }
}

/// Relies on rand::Rng::gen_range on rand::thread_rng: a value drawn
/// uniformly from [lo, hi), so always within that half-open interval.
#[verifier::external_body]
fn random_i64_in(lo: i64, hi: i64) -> (r: i64)
    requires
        lo < hi,
    ensures
        lo <= r < hi,
{
    rand::thread_rng().gen_range(lo..hi)
}

/// Relies on rand::Rng::gen_range on rand::thread_rng: an index drawn
/// uniformly from [0, n), so always below `n`.
#[verifier::external_body]
fn random_index_below(n: usize) -> (r: usize)
    requires
        n >= 1,
    ensures
        r < n,
{
    rand::thread_rng().gen_range(0..n)
}

impl Particle {
    /// A particle resting at the center of a `width` x `height` cell grid,
    /// kicked in a random direction.
    pub fn new_random(width: u32, height: u32) -> (p: Particle)
        ensures
            p.x == (width as int) * (FP_SCALE as int) / 2,
            p.y == (height as int) * (FP_SCALE as int) / 2,
            -RAND_VEL <= p.dx <= RAND_VEL,
            -RAND_VEL <= p.dy <= RAND_VEL,
            p.wf(),
    {
        let seed = Particle { x: (width as i64) * 512, y: (height as i64) * 512, dx: 0, dy: 0 };
        proof {
            assert(seed.x == (width as int) * (FP_SCALE as int) / 2 && seed.y == (height as int) * (
            FP_SCALE as int) / 2) by (nonlinear_arith)
                requires
                    seed.x == (width as int) * 512,
                    seed.y == (height as int) * 512,
                    FP_SCALE == 1024,
            ;
        }
        Particle::new_from_existing(&seed)
    }

    /// A particle at the same position as `particle`, with its velocity
    /// perturbed by a random kick of at most `RAND_VEL` per axis.
    pub fn new_from_existing(particle: &Particle) -> (p: Particle)
        requires
            particle.wf(),
        ensures
            p.x == particle.x,
            p.y == particle.y,
            particle.dx - RAND_VEL <= p.dx <= particle.dx + RAND_VEL,
            particle.dy - RAND_VEL <= p.dy <= particle.dy + RAND_VEL,
            p.wf(),
    {
        let kick_x = random_i64_in(-RAND_VEL, RAND_VEL + 1);
        let kick_y = random_i64_in(-RAND_VEL, RAND_VEL + 1);
        let dx = clamp_i64(particle.dx + kick_x, -VEL_LIMIT, VEL_LIMIT);
        let dy = clamp_i64(particle.dy + kick_y, -VEL_LIMIT, VEL_LIMIT);
        Particle { x: particle.x, y: particle.y, dx, dy }
    }
}

/// The magnitude of the attraction applied to one axis: the gravity strength
/// scaled by that axis's share of the distance. Zero when the particle sits
/// exactly on the pointer.
pub open spec fn grav_pull_spec(delta: int, dist: int, grav_norm: int) -> int
    recommends
        0 <= dist,
        0 <= grav_norm,
{
    if dist == 0 {
        0
    } else if delta >= 0 {
        grav_norm * delta / dist
    } else {
        -(grav_norm * (-delta) / dist)
    }
}

/// The velocity of `p` after one attraction step toward `(mouse_x, mouse_y)`
/// with strength `grav_norm`, on the x axis (`dy` analogously).
pub open spec fn grav_dx_spec(p: Particle, mouse_x: int, mouse_y: int, grav_norm: int) -> int {
    clamp_spec(
        p.dx - grav_pull_spec(
            p.x - mouse_x,
            dist_spec(p.x - mouse_x, p.y - mouse_y),
            grav_norm,
        ),
        -VEL_LIMIT as int,
        VEL_LIMIT as int,
    )
}

pub open spec fn grav_dy_spec(p: Particle, mouse_x: int, mouse_y: int, grav_norm: int) -> int {
    clamp_spec(
        p.dy - grav_pull_spec(
            p.y - mouse_y,
            dist_spec(p.x - mouse_x, p.y - mouse_y),
            grav_norm,
        ),
        -VEL_LIMIT as int,
        VEL_LIMIT as int,
    )
}

/// The integer distance from the origin to `(dx, dy)`: the integer square
/// root of dx^2 + dy^2.
pub open spec fn dist_spec(dx: int, dy: int) -> int {
    choose|r: int| #[trigger] is_isqrt(dx * dx + dy * dy, r)
}

proof fn lemma_dist_spec_unique(dx: int, dy: int, r: int)
    requires
        is_isqrt(dx * dx + dy * dy, r),
    ensures
        dist_spec(dx, dy) == r,
{
    assert(dx * dx + dy * dy >= 0) by (nonlinear_arith);
    let r2 = dist_spec(dx, dy);
    assert(is_isqrt(dx * dx + dy * dy, r2));
    let n = dx * dx + dy * dy;
    if r < r2 {
        lemma_isqrt_dominates(n, r, r2);
        assert(false);
    }
    if r2 < r {
        lemma_isqrt_dominates(n, r2, r);
        assert(false);
    }
}

fn abs_magnitude(v: i64) -> (r: u64)
    requires
        v > i64::MIN,
    ensures
        r == if v >= 0 { v as int } else { -(v as int) },
{
    if v >= 0 {
        v as u64
    } else {
        (-v) as u64
    }
}

impl Particle {
    /// One attraction step toward the pointer at `(mouse_x, mouse_y)`: while
    /// the pointer is held down, the velocity moves by `grav_norm` along the
    /// unit vector from the particle to the pointer (clamped into the
    /// velocity limits); otherwise nothing changes.
    pub fn apply_grav(&mut self, mouse_x: i64, mouse_y: i64, mouse_down: bool, grav_norm: i64)
        requires
            old(self).wf(),
            -POS_LIMIT <= mouse_x <= POS_LIMIT,
            -POS_LIMIT <= mouse_y <= POS_LIMIT,
            0 <= grav_norm <= GRAV_MAX,
        ensures
            final(self).x == old(self).x,
            final(self).y == old(self).y,
            mouse_down ==> final(self).dx == grav_dx_spec(*old(self), mouse_x as int, mouse_y as int, grav_norm as int),
            mouse_down ==> final(self).dy == grav_dy_spec(*old(self), mouse_x as int, mouse_y as int, grav_norm as int),
            !mouse_down ==> *final(self) == *old(self),
            final(self).wf(),
    {
        if !mouse_down {
            return ;
        }
        let delta_x = self.x - mouse_x;
        let delta_y = self.y - mouse_y;
        let ax = abs_magnitude(delta_x);
        let ay = abs_magnitude(delta_y);
        proof {
            assert((ax as int) * (ax as int) <= 0x8_0000_0000_0000 * 0x8_0000_0000_0000 && (
            ay as int) * (ay as int) <= 0x8_0000_0000_0000 * 0x8_0000_0000_0000 && 0 <= (
            ax as int) * (ax as int) && 0 <= (ay as int) * (ay as int)) by (nonlinear_arith)
                requires
                    0 <= ax <= 0x8_0000_0000_0000,
                    0 <= ay <= 0x8_0000_0000_0000,
            ;
        }
        let sq: u128 = (ax as u128) * (ax as u128) + (ay as u128) * (ay as u128);
        proof {
            assert((ax as int) * (ax as int) == (delta_x as int) * (delta_x as int)
                && (ay as int) * (ay as int) == (delta_y as int) * (delta_y as int))
                by (nonlinear_arith)
                requires
                    ax == if delta_x >= 0 { delta_x as int } else { -(delta_x as int) },
                    ay == if delta_y >= 0 { delta_y as int } else { -(delta_y as int) },
            ;
        }
        let dist: u128 = isqrt(sq);
        proof {
            lemma_dist_spec_unique(delta_x as int, delta_y as int, dist as int);
            assert(0 <= (ax as int) * (ax as int) && 0 <= (ay as int) * (ay as int))
                by (nonlinear_arith);
            lemma_isqrt_dominates(sq as int, dist as int, ax as int);
            lemma_isqrt_dominates(sq as int, dist as int, ay as int);
        }
        let pull_x = pull_magnitude(delta_x, ax, dist, grav_norm);
        let pull_y = pull_magnitude(delta_y, ay, dist, grav_norm);
        self.dx = clamp_i64(self.dx - pull_x, -VEL_LIMIT, VEL_LIMIT);
        self.dy = clamp_i64(self.dy - pull_y, -VEL_LIMIT, VEL_LIMIT);
    }

    /// One friction step: both velocity components are scaled by
    /// `fric_norm / FP_SCALE`, rounding magnitudes toward zero.
    pub fn apply_fric(&mut self, fric_norm: i64)
        requires
            old(self).wf(),
            0 <= fric_norm <= FP_SCALE,
        ensures
            final(self).x == old(self).x,
            final(self).y == old(self).y,
            final(self).dx == fric_spec(old(self).dx as int, fric_norm as int),
            final(self).dy == fric_spec(old(self).dy as int, fric_norm as int),
            final(self).wf(),
    {
        self.dx = scale_toward_zero(self.dx, fric_norm);
        self.dy = scale_toward_zero(self.dy, fric_norm);
    }
}

/// `v` scaled by `f / FP_SCALE`, the magnitude rounding toward zero.
pub open spec fn fric_spec(v: int, f: int) -> int
    recommends
        0 <= f <= FP_SCALE,
{
    if v >= 0 {
        v * f / (FP_SCALE as int)
    } else {
        -((-v) * f / (FP_SCALE as int))
    }
}

fn scale_toward_zero(v: i64, f: i64) -> (r: i64)
    requires
        -VEL_LIMIT <= v <= VEL_LIMIT,
        0 <= f <= FP_SCALE,
    ensures
        r == fric_spec(v as int, f as int),
        -VEL_LIMIT <= r <= VEL_LIMIT,
{
    let mag = abs_magnitude(v);
    proof {
        assert(mag * (f as int) <= (VEL_LIMIT as int) * (FP_SCALE as int)) by (nonlinear_arith)
            requires
                0 <= mag <= VEL_LIMIT as int,
                0 <= f <= FP_SCALE as int,
        ;
        assert(0 <= mag * (f as int) / (FP_SCALE as int) <= mag) by (nonlinear_arith)
            requires
                0 <= mag,
                0 <= f <= FP_SCALE as int,
                FP_SCALE == 1024,
        ;
    }
    let scaled: u64 = mag * (f as u64) / (FP_SCALE as u64);
    if v >= 0 {
        scaled as i64
    } else {
        -(scaled as i64)
    }
}

/// The attraction along one axis, as executed: `grav_norm * |delta| / dist`
/// with the sign of `delta`, zero at distance zero.
fn pull_magnitude(delta: i64, abs_delta: u64, dist: u128, grav_norm: i64) -> (r: i64)
    requires
        delta > i64::MIN,
        abs_delta == if delta >= 0 { delta as int } else { -(delta as int) },
        0 <= grav_norm <= GRAV_MAX,
        abs_delta <= dist,
    ensures
        r == grav_pull_spec(delta as int, dist as int, grav_norm as int),
        -GRAV_MAX <= r <= GRAV_MAX,
{
    if dist == 0 {
        0
    } else {
        proof {
            assert(0 <= (grav_norm as int) * (abs_delta as int) <= (GRAV_MAX as int) * (
            u64::MAX as int)) by (nonlinear_arith)
                requires
                    0 <= grav_norm <= GRAV_MAX as int,
                    0 <= abs_delta <= u64::MAX as int,
            ;
            assert((grav_norm as int) * (abs_delta as int) / (dist as int) <= grav_norm as int)
                by (nonlinear_arith)
                requires
                    0 <= grav_norm as int,
                    0 <= abs_delta as int <= dist as int,
                    0 < dist as int,
            ;
        }
        let mag: u128 = (grav_norm as u128) * (abs_delta as u128) / dist;
        if delta >= 0 {
            mag as i64
        } else {
            -(mag as i64)
        }
    }
}

/// The position change contributed by velocity `d` over time `t`:
/// `d * t / FP_SCALE`, the magnitude rounding toward zero.
pub open spec fn shift_spec(d: int, t: int) -> int
    recommends
        0 <= t,
{
    if d >= 0 {
        d * t / (FP_SCALE as int)
    } else {
        -((-d) * t / (FP_SCALE as int))
    }
}

fn velocity_shift(d: i64, t: i64) -> (r: i64)
    requires
        -VEL_LIMIT <= d <= VEL_LIMIT,
        0 <= t <= TIME_MAX,
    ensures
        r == shift_spec(d as int, t as int),
        -0x100_0000_0000 <= r <= 0x100_0000_0000,
{
    let mag = abs_magnitude(d);
    proof {
        assert(0 <= mag * (t as int) <= (VEL_LIMIT as int) * (TIME_MAX as int))
            by (nonlinear_arith)
            requires
                0 <= mag <= VEL_LIMIT as int,
                0 <= t <= TIME_MAX as int,
        ;
        assert(0 <= mag * (t as int) / (FP_SCALE as int) <= 0x100_0000_0000) by (nonlinear_arith)
            requires
                0 <= mag * (t as int) <= (VEL_LIMIT as int) * (TIME_MAX as int),
                VEL_LIMIT == 0x4000_0000,
                TIME_MAX == 0x10_0000,
                FP_SCALE == 1024,
        ;
    }
    let shifted: u64 = mag * (t as u64) / (FP_SCALE as u64);
    if d >= 0 {
        shifted as i64
    } else {
        -(shifted as i64)
    }
}

impl Particle {
    /// One integration step: the position moves by velocity times `time_norm`
    /// (in `FP_SCALE` units of time), clamped into the position limits; the
    /// velocity is unchanged.
    pub fn advance(&mut self, time_norm: i64)
        requires
            old(self).wf(),
            0 <= time_norm <= TIME_MAX,
        ensures
            final(self).x == clamp_spec(
                old(self).x + shift_spec(old(self).dx as int, time_norm as int),
                -POS_LIMIT as int,
                POS_LIMIT as int,
            ),
            final(self).y == clamp_spec(
                old(self).y + shift_spec(old(self).dy as int, time_norm as int),
                -POS_LIMIT as int,
                POS_LIMIT as int,
            ),
            final(self).dx == old(self).dx,
            final(self).dy == old(self).dy,
            final(self).wf(),
    {
        let sx = velocity_shift(self.dx, time_norm);
        let sy = velocity_shift(self.dy, time_norm);
        self.x = clamp_i64(self.x + sx, -POS_LIMIT, POS_LIMIT);
        self.y = clamp_i64(self.y + sy, -POS_LIMIT, POS_LIMIT);
    }
}

/// The particle state after one full step: attraction toward the pointer,
/// then friction, then integration of position by the resulting velocity.
pub open spec fn step_spec(
    p: Particle,
    time_norm: int,
    fric_norm: int,
    grav_norm: int,
    mouse_x: int,
    mouse_y: int,
    mouse_down: bool,
) -> Particle {
    let dx1 = if mouse_down {
        grav_dx_spec(p, mouse_x, mouse_y, grav_norm)
    } else {
        p.dx as int
    };
    let dy1 = if mouse_down {
        grav_dy_spec(p, mouse_x, mouse_y, grav_norm)
    } else {
        p.dy as int
    };
    let dx2 = fric_spec(dx1, fric_norm);
    let dy2 = fric_spec(dy1, fric_norm);
    Particle {
        x: clamp_spec(p.x + shift_spec(dx2, time_norm), -POS_LIMIT as int, POS_LIMIT as int) as i64,
        y: clamp_spec(p.y + shift_spec(dy2, time_norm), -POS_LIMIT as int, POS_LIMIT as int) as i64,
        dx: dx2 as i64,
        dy: dy2 as i64,
    }
}

/// The particle at index `j` of `s` sits at the same position as some
/// particle earlier in `s`.
pub open spec fn copies_position(s: Seq<Particle>, j: int) -> bool {
    exists|k: int| 0 <= k < j && (#[trigger] s[k]).x == s[j].x && s[k].y == s[j].y
}

/// A caller-owned collection of particles stepped as one body.
pub struct Particles {
    pub particles: Vec<Particle>,
}

impl Particles {
    /// Every particle within the position and velocity limits.
    pub open spec fn wf(self) -> bool {
        forall|i: int| 0 <= i < self.particles@.len() ==> (#[trigger] self.particles@[i]).wf()
    }

    /// An empty collection.
    pub fn new() -> (s: Particles)
        ensures
            s.particles@.len() == 0,
            s.wf(),
    {
        Particles { particles: Vec::new() }
    }

    /// The number of particles.
    pub fn len(&self) -> (n: usize)
        ensures
            n == self.particles@.len(),
    {
        self.particles.len()
    }

    /// Moves every particle by `(dx, dy)`, clamped into the position limits;
    /// velocities are unchanged.
    pub fn shift(&mut self, dx: i64, dy: i64)
        requires
            old(self).wf(),
            -POS_LIMIT <= dx <= POS_LIMIT,
            -POS_LIMIT <= dy <= POS_LIMIT,
        ensures
            final(self).particles@.len() == old(self).particles@.len(),
            forall|i: int|
                0 <= i < old(self).particles@.len() ==> (#[trigger] final(self).particles@[i])
                    == (Particle {
                    x: clamp_spec(
                        old(self).particles@[i].x + dx,
                        -POS_LIMIT as int,
                        POS_LIMIT as int,
                    ) as i64,
                    y: clamp_spec(
                        old(self).particles@[i].y + dy,
                        -POS_LIMIT as int,
                        POS_LIMIT as int,
                    ) as i64,
                    ..old(self).particles@[i]
                }),
            final(self).wf(),
    {
        let n = self.particles.len();
        let mut i: usize = 0;
        while i < n
            invariant
                n == self.particles@.len(),
                n == old(self).particles@.len(),
                i <= n,
                -POS_LIMIT <= dx <= POS_LIMIT,
                -POS_LIMIT <= dy <= POS_LIMIT,
                forall|j: int|
                    0 <= j < i ==> (#[trigger] self.particles@[j]) == (Particle {
                        x: clamp_spec(
                            old(self).particles@[j].x + dx,
                            -POS_LIMIT as int,
                            POS_LIMIT as int,
                        ) as i64,
                        y: clamp_spec(
                            old(self).particles@[j].y + dy,
                            -POS_LIMIT as int,
                            POS_LIMIT as int,
                        ) as i64,
                        ..old(self).particles@[j]
                    }),
                forall|j: int| i <= j < n ==> #[trigger] self.particles@[j] == old(self).particles@[j],
                old(self).wf(),
            decreases n - i,
        {
            let p = self.particles[i];
            assert(p == old(self).particles@[i as int]);
            let moved = Particle {
                x: clamp_i64(p.x + dx, -POS_LIMIT, POS_LIMIT),
                y: clamp_i64(p.y + dy, -POS_LIMIT, POS_LIMIT),
                dx: p.dx,
                dy: p.dy,
            };
            self.particles.set(i, moved);
            i = i + 1;
        }
    }

    /// One simulation step for every particle, with one set of step
    /// parameters: each particle independently follows `step_spec`.
    pub fn update(
        &mut self,
        time_norm: i64,
        fric_norm: i64,
        grav_norm: i64,
        mouse_x: i64,
        mouse_y: i64,
        mouse_down: bool,
    )
        requires
            old(self).wf(),
            0 <= time_norm <= TIME_MAX,
            0 <= fric_norm <= FP_SCALE,
            0 <= grav_norm <= GRAV_MAX,
            -POS_LIMIT <= mouse_x <= POS_LIMIT,
            -POS_LIMIT <= mouse_y <= POS_LIMIT,
        ensures
            final(self).particles@.len() == old(self).particles@.len(),
            forall|i: int|
                0 <= i < old(self).particles@.len() ==> (#[trigger] final(self).particles@[i])
                    == step_spec(
                    old(self).particles@[i],
                    time_norm as int,
                    fric_norm as int,
                    grav_norm as int,
                    mouse_x as int,
                    mouse_y as int,
                    mouse_down,
                ),
            final(self).wf(),
    {
        let n = self.particles.len();
        let mut i: usize = 0;
        while i < n
            invariant
                n == self.particles@.len(),
                n == old(self).particles@.len(),
                i <= n,
                0 <= time_norm <= TIME_MAX,
                0 <= fric_norm <= FP_SCALE,
                0 <= grav_norm <= GRAV_MAX,
                -POS_LIMIT <= mouse_x <= POS_LIMIT,
                -POS_LIMIT <= mouse_y <= POS_LIMIT,
                forall|j: int|
                    0 <= j < i ==> (#[trigger] self.particles@[j]) == step_spec(
                        old(self).particles@[j],
                        time_norm as int,
                        fric_norm as int,
                        grav_norm as int,
                        mouse_x as int,
                        mouse_y as int,
                        mouse_down,
                    ),
                forall|j: int| i <= j < n ==> #[trigger] self.particles@[j] == old(self).particles@[j],
                forall|j: int| 0 <= j < i ==> (#[trigger] self.particles@[j]).wf(),
                old(self).wf(),
            decreases n - i,
        {
            let mut p = self.particles[i];
            assert(p == old(self).particles@[i as int]);
            p.apply_grav(mouse_x, mouse_y, mouse_down, grav_norm);
            p.apply_fric(fric_norm);
            p.advance(time_norm);
            self.particles.set(i, p);
            i = i + 1;
        }
    }

    /// Grows the collection by `n` particles (seeding one at the grid center
    /// first when it was empty, which counts against `n`). Each new particle
    /// takes the position of one already present.
    pub fn add_particles(&mut self, n: usize, width: u32, height: u32)
        requires
            old(self).wf(),
            old(self).particles@.len() + n <= usize::MAX,
        ensures
            final(self).particles@.len() == if old(self).particles@.len() == 0 {
                if n == 0 {
                    1int
                } else {
                    n as int
                }
            } else {
                old(self).particles@.len() + n
            },
            forall|i: int|
                0 <= i < old(self).particles@.len() ==> #[trigger] final(self).particles@[i] == old(
                self).particles@[i],
            old(self).particles@.len() == 0 ==> final(self).particles@[0].x == (width as int) * (
            FP_SCALE as int) / 2 && final(self).particles@[0].y == (height as int) * (
            FP_SCALE as int) / 2,
            forall|j: int|
                old(self).particles@.len() + (if old(self).particles@.len() == 0 {
                    1int
                } else {
                    0int
                }) <= j < final(self).particles@.len() ==> #[trigger] copies_position(
                    final(self).particles@,
                    j,
                ),
            final(self).wf(),
    {
        let mut remaining = n;
        if self.particles.len() == 0 {
            let seed = Particle::new_random(width, height);
            self.particles.push(seed);
            remaining = if remaining >= 1 {
                remaining - 1
            } else {
                0
            };
        }
        let base = self.particles.len();
        let start = random_index_below(base);
        let ghost mid = self.particles@;
        let mut i = start;
        let mut added: usize = 0;
        while added < remaining
            invariant
                base == mid.len(),
                base >= 1,
                self.particles@.len() == mid.len() + added,
                added <= remaining,
                i == start + added,
                start < base,
                mid.len() + remaining <= usize::MAX,
                forall|j: int| 0 <= j < mid.len() ==> #[trigger] self.particles@[j] == mid[j],
                forall|j: int|
                    mid.len() <= j < self.particles@.len() ==> (#[trigger] self.particles@[j]).x
                        == mid[(start + (j - mid.len())) % (base as int)].x && self.particles@[j].y
                        == mid[(start + (j - mid.len())) % (base as int)].y,
                forall|j: int|
                    0 <= j < self.particles@.len() ==> (#[trigger] self.particles@[j]).wf(),
            decreases remaining - added,
        {
            let ghost prev = self.particles@;
            let src = i % base;
            let p = Particle::new_from_existing(&self.particles[src]);
            self.particles.push(p);
            proof {
                assert(self.particles@ == prev.push(p));
                assert(forall|j: int| 0 <= j < prev.len() ==> #[trigger] self.particles@[j] == prev[j]);
                assert(self.particles@[prev.len() as int] == p);
                assert(p.x == mid[src as int].x && p.y == mid[src as int].y);
                assert((start + (prev.len() - mid.len())) % (base as int) == src as int);
            }
            i = i + 1;
            added = added + 1;
        }
        proof {
            assert forall|j: int|
                old(self).particles@.len() + (if old(self).particles@.len() == 0 {
                    1int
                } else {
                    0int
                }) <= j < self.particles@.len() implies #[trigger] copies_position(
                self.particles@,
                j,
            ) by {
                assert(mid.len() <= j < self.particles@.len());
                let k1 = (start + (j - mid.len())) % (base as int);
                assert(0 <= k1 < base as int);
                assert(self.particles@[j].x == mid[k1].x && self.particles@[j].y == mid[k1].y);
                assert(self.particles@[k1] == mid[k1]);
                assert(0 <= k1 < j && self.particles@[k1].x == self.particles@[j].x
                    && self.particles@[k1].y == self.particles@[j].y);
            }
        }
    }
}

} // verus!
