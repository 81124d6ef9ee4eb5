use particle_pool::fixed::{isqrt, FP_SCALE};
use particle_pool::particles::{Particle, Particles, RAND_VEL};

#[test]
fn isqrt_exact_values() {
    assert_eq!(isqrt(0), 0);
    assert_eq!(isqrt(1), 1);
    assert_eq!(isqrt(3), 1);
    assert_eq!(isqrt(4), 2);
    assert_eq!(isqrt(24), 4);
    assert_eq!(isqrt(25), 5);
    assert_eq!(isqrt(u64::MAX as u128), 0xffff_ffff);
    assert_eq!(isqrt((1u128 << 102) - 1), (1 << 51) - 1);
}

#[test]
fn friction_scales_toward_zero() {
    let mut p = Particle { x: 0, y: 0, dx: 1000, dy: -1001 };
    p.apply_fric(512);
    assert_eq!(p.dx, 500);
    // Magnitudes round toward zero: -1001 * 512 / 1024 is -500, not -501.
    assert_eq!(p.dy, -500);
    // Full friction factor keeps the velocity.
    let mut q = Particle { x: 0, y: 0, dx: 77, dy: -77 };
    q.apply_fric(FP_SCALE);
    assert_eq!((q.dx, q.dy), (77, -77));
    // Zero factor stops the particle.
    q.apply_fric(0);
    assert_eq!((q.dx, q.dy), (0, 0));
}

#[test]
fn gravity_pulls_along_unit_vector() {
    // A 3-4-5 triangle: the particle sits 3000 right and 4000 below the
    // pointer, so the pull of strength 1000 splits 600 / 800.
    let mut p = Particle { x: 3000, y: 4000, dx: 0, dy: 0 };
    p.apply_grav(0, 0, true, 1000);
    assert_eq!((p.x, p.y), (3000, 4000));
    assert_eq!((p.dx, p.dy), (-600, -800));
    // The pointer on the other side pulls the other way.
    let mut q = Particle { x: 0, y: 0, dx: 0, dy: 0 };
    q.apply_grav(3000, 4000, true, 1000);
    assert_eq!((q.dx, q.dy), (600, 800));
}

#[test]
fn gravity_ignored_without_button_or_distance() {
    let mut p = Particle { x: 3000, y: 4000, dx: 5, dy: 6 };
    p.apply_grav(0, 0, false, 1000);
    assert_eq!((p.dx, p.dy), (5, 6));
    // A particle exactly on the pointer feels no pull at all.
    let mut q = Particle { x: 70, y: 80, dx: 5, dy: 6 };
    q.apply_grav(70, 80, true, 1000);
    assert_eq!((q.dx, q.dy), (5, 6));
}

#[test]
fn advance_integrates_position() {
    let mut p = Particle { x: 10_000, y: 20_000, dx: 2048, dy: -2048 };
    // One full time unit (FP_SCALE) moves by exactly the velocity.
    p.advance(FP_SCALE);
    assert_eq!((p.x, p.y), (12_048, 17_952));
    // A half step moves by half.
    p.advance(FP_SCALE / 2);
    assert_eq!((p.x, p.y), (13_072, 16_928));
    assert_eq!((p.dx, p.dy), (2048, -2048));
}

#[test]
fn update_composes_the_three_steps() {
    let start = Particle { x: 3000, y: 4000, dx: 100, dy: -100 };
    let mut all = Particles::new();
    all.particles.push(start);
    all.update(FP_SCALE, 512, 1000, 0, 0, true);

    let mut manual = start;
    manual.apply_grav(0, 0, true, 1000);
    manual.apply_fric(512);
    manual.advance(FP_SCALE);
    assert_eq!(all.particles[0], manual);
    // Concretely: gravity (-600, -800), friction halves, integration adds.
    assert_eq!((manual.dx, manual.dy), (-250, -450));
    assert_eq!((manual.x, manual.y), (2750, 3550));
}

#[test]
fn new_random_starts_at_grid_center() {
    for _ in 0..50 {
        let p = Particle::new_random(100, 50);
        assert_eq!(p.x, 100 * FP_SCALE / 2);
        assert_eq!(p.y, 50 * FP_SCALE / 2);
        assert!(-RAND_VEL <= p.dx && p.dx <= RAND_VEL);
        assert!(-RAND_VEL <= p.dy && p.dy <= RAND_VEL);
    }
}

#[test]
fn new_from_existing_keeps_position() {
    let src = Particle { x: 12_345, y: -6789, dx: 40, dy: -40 };
    for _ in 0..50 {
        let p = Particle::new_from_existing(&src);
        assert_eq!((p.x, p.y), (src.x, src.y));
        assert!((p.dx - src.dx).abs() <= RAND_VEL);
        assert!((p.dy - src.dy).abs() <= RAND_VEL);
    }
}

#[test]
fn add_particles_lengths() {
    // An empty set seeds one particle first, which counts against the
    // request; a non-empty set grows by exactly the request.
    let mut empty = Particles::new();
    empty.add_particles(0, 10, 10);
    assert_eq!(empty.len(), 1);

    let mut seeded = Particles::new();
    seeded.add_particles(5, 10, 10);
    assert_eq!(seeded.len(), 5);

    seeded.add_particles(3, 10, 10);
    assert_eq!(seeded.len(), 8);
}

#[test]
fn add_particles_copies_existing_positions() {
    let mut all = Particles::new();
    all.particles.push(Particle { x: 111, y: 222, dx: 0, dy: 0 });
    all.particles.push(Particle { x: 333, y: 444, dx: 0, dy: 0 });
    all.add_particles(6, 10, 10);
    assert_eq!(all.len(), 8);
    assert_eq!((all.particles[0].x, all.particles[0].y), (111, 222));
    assert_eq!((all.particles[1].x, all.particles[1].y), (333, 444));
    for p in all.particles.iter().skip(2) {
        assert!((p.x, p.y) == (111, 222) || (p.x, p.y) == (333, 444));
    }
}

#[test]
fn shift_moves_every_particle() {
    let mut all = Particles::new();
    all.particles.push(Particle { x: 0, y: 0, dx: 1, dy: 2 });
    all.particles.push(Particle { x: 1000, y: -1000, dx: 3, dy: 4 });
    all.shift(50, -70);
    assert_eq!((all.particles[0].x, all.particles[0].y), (50, -70));
    assert_eq!((all.particles[1].x, all.particles[1].y), (1050, -1070));
    assert_eq!((all.particles[1].dx, all.particles[1].dy), (3, 4));
}

#[test]
fn update_moves_all_particles_alike() {
    let mut all = Particles::new();
    for i in 0..20 {
        all.particles.push(Particle { x: i * 1000, y: 0, dx: 1024, dy: 0 });
    }
    all.update(FP_SCALE, FP_SCALE, 0, 0, 0, false);
    for (i, p) in all.particles.iter().enumerate() {
        assert_eq!(p.x, i as i64 * 1000 + 1024);
        assert_eq!(p.dx, 1024);
    }
}
