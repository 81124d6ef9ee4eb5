use particle_pool::fixed::FP_SCALE;
use particle_pool::particles::Particle;
use particle_pool::pipeline::{accumulate, accumulate_with, cell_index, pick_chunk_len};
use particle_pool::pool::Pool;

/// A particle resting at the middle of cell (cx, cy).
fn at_cell(cx: i64, cy: i64) -> Particle {
    Particle::new_at(cx * FP_SCALE + FP_SCALE / 2, cy * FP_SCALE + FP_SCALE / 2)
}

/// Single-threaded reference count.
fn reference_grid(particles: &[Particle], width: u32, height: u32) -> Vec<u16> {
    let mut grid = vec![0u16; (width as usize) * (height as usize)];
    for p in particles {
        if p.x >= 0
            && p.x < (width as i64) * FP_SCALE
            && p.y >= 0
            && p.y < (height as i64) * FP_SCALE
        {
            let c = (p.x / FP_SCALE) as usize + (p.y / FP_SCALE) as usize * width as usize;
            grid[c] = grid[c].saturating_add(1);
        }
    }
    grid
}

#[test]
fn reduction_matches_reference() {
    // A fixed element set at known positions: every worker count and chunk
    // length gives exactly the single-threaded reference counts.
    let particles = vec![
        at_cell(0, 0),
        at_cell(0, 0),
        at_cell(3, 2),
        at_cell(1, 1),
        at_cell(3, 2),
        at_cell(3, 2),
        at_cell(2, 0),
        at_cell(0, 2),
    ];
    let (w, h) = (4u32, 3u32);
    let expected = reference_grid(&particles, w, h);
    assert_eq!(expected[0], 2);
    assert_eq!(expected[1 + 4], 1);
    assert_eq!(expected[3 + 2 * 4], 3);
    for workers in [1usize, 2, 8] {
        for chunk_len in [1usize, 2, 5, 100] {
            let grid = accumulate_with(&particles, w, h, workers, chunk_len);
            assert_eq!(grid, expected, "workers={workers} chunk_len={chunk_len}");
        }
    }
}

#[test]
fn boundary_exclusion() {
    // Elements exactly at x = W or y = H, or negative, land in no cell —
    // never wrapped or clamped into an edge cell.
    let (w, h) = (4u32, 3u32);
    let outside = vec![
        Particle::new_at(4 * FP_SCALE, FP_SCALE / 2),
        Particle::new_at(FP_SCALE / 2, 3 * FP_SCALE),
        Particle::new_at(-1, FP_SCALE / 2),
        Particle::new_at(FP_SCALE / 2, -1),
        Particle::new_at(100 * FP_SCALE, 100 * FP_SCALE),
    ];
    let grid = accumulate_with(&outside, w, h, 2, 1);
    assert!(grid.iter().all(|&c| c == 0));
    for p in &outside {
        assert_eq!(cell_index(&p, w, h), None);
    }
    // The last representable positions inside the grid still count.
    let inside = vec![
        Particle::new_at(4 * FP_SCALE - 1, 3 * FP_SCALE - 1),
        Particle::new_at(0, 0),
    ];
    let grid = accumulate_with(&inside, w, h, 2, 1);
    assert_eq!(grid[0], 1);
    assert_eq!(grid[3 + 2 * 4], 1);
}

#[test]
fn idempotent_rerun() {
    // Re-running on an unchanged element set gives bit-identical output.
    let particles: Vec<Particle> = (0..50).map(|i| at_cell(i % 5, (i * 7) % 4)).collect();
    let first = accumulate_with(&particles, 5, 4, 3, 4);
    let second = accumulate_with(&particles, 5, 4, 3, 4);
    assert_eq!(first, second);
}

#[test]
fn degenerate_inputs() {
    // No elements: an all-zero grid. A zero-area grid: an empty buffer. No
    // faults either way.
    let empty: Vec<Particle> = Vec::new();
    let grid = accumulate_with(&empty, 3, 3, 2, 1);
    assert_eq!(grid, vec![0u16; 9]);
    let particles = vec![at_cell(0, 0)];
    assert_eq!(accumulate_with(&particles, 0, 5, 2, 1), Vec::<u16>::new());
    assert_eq!(accumulate_with(&particles, 5, 0, 2, 1), Vec::<u16>::new());
}

#[test]
fn cell_counts_saturate() {
    // More than u16::MAX elements in one cell saturate instead of wrapping.
    let n = 70_000usize;
    let mut particles = Vec::with_capacity(n);
    for _ in 0..n {
        particles.push(at_cell(1, 0));
    }
    let grid = accumulate_with(&particles, 2, 1, 4, 8);
    assert_eq!(grid[1], u16::MAX);
    assert_eq!(grid[0], 0);
}

#[test]
fn accumulate_takes_worker_count_from_pool() {
    let pool = Pool::new(3).unwrap();
    let particles = vec![at_cell(0, 0), at_cell(1, 1), at_cell(1, 1)];
    let grid = accumulate(&pool, &particles, 2, 2);
    assert_eq!(grid, vec![1, 0, 0, 2]);
}

#[test]
fn chunk_length_policy() {
    // About ten chunks per worker, never below one element.
    assert_eq!(pick_chunk_len(1000, 4), 25);
    assert_eq!(pick_chunk_len(39, 4), 1);
    assert_eq!(pick_chunk_len(0, 1), 1);
    assert_eq!(pick_chunk_len(1_000_000, 10), 10_000);
}
