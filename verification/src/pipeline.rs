//! Two-round map/reduce rasterization of a particle set into a grid of cell
//! counts.
//!
//! Round one walks the particles in contiguous chunks, each chunk assigned to
//! one worker round-robin, and counts every in-bounds particle into that
//! worker's private scratch grid. Round two walks the cell space in
//! contiguous chunks and sums, per cell, the scratch grids into the final
//! 16-bit grid, saturating at `u16::MAX`. The final grid depends only on the
//! particles and the grid dimensions: neither the worker count nor the chunk
//! length can change a single cell.

use vstd::prelude::*;
use crate::fixed::FP_SCALE;
use crate::particles::Particle;
use crate::pool::Pool;

verus! {

/// Largest representable cell count.
pub const COUNT_MAX: u16 = 0xffff;

/// The particle lies inside the `width` x `height` cell grid. A particle at
/// or beyond an edge (or at a negative coordinate) is outside.
pub open spec fn in_bounds(p: Particle, width: int, height: int) -> bool {
    &&& 0 <= p.x < width * FP_SCALE
    &&& 0 <= p.y < height * FP_SCALE
}

/// The flat index of the cell holding `p` (meaningful only in bounds).
pub open spec fn cell_of(p: Particle, width: int) -> int {
    (p.x as int) / (FP_SCALE as int) + ((p.y as int) / (FP_SCALE as int)) * width
}

/// How many particles of `s` fall into cell `c` of a `width` x `height`
/// grid. Out-of-bounds particles fall into no cell at all.
pub open spec fn cell_count(s: Seq<Particle>, width: int, height: int, c: int) -> nat
    decreases s.len(),
{
    if s.len() == 0 {
        0
    } else {
        cell_count(s.drop_last(), width, height, c) + (if in_bounds(s.last(), width, height)
            && cell_of(s.last(), width) == c {
            1nat
        } else {
            0nat
        })
    }
}

/// The dealing policy round one uses: elements are cut into contiguous
/// chunks of `chunk_len`, and the chunks dealt round-robin over `workers`
/// workers.
pub open spec fn round_robin(chunk_len: int, workers: int) -> spec_fn(int) -> int {
    |e: int| (e / chunk_len) % workers
}

/// How many particles of `s` that `assign` hands to worker `w` fall into
/// cell `c`.
pub open spec fn assigned_cell_count(
    s: Seq<Particle>,
    assign: spec_fn(int) -> int,
    w: int,
    width: int,
    height: int,
    c: int,
) -> nat
    decreases s.len(),
{
    if s.len() == 0 {
        0
    } else {
        assigned_cell_count(s.drop_last(), assign, w, width, height, c) + (if assign(s.len() - 1)
            == w && in_bounds(s.last(), width, height) && cell_of(s.last(), width) == c {
            1nat
        } else {
            0nat
        })
    }
}

/// The per-cell counts of workers `0 .. k` added up.
pub open spec fn sum_assigned_counts(
    s: Seq<Particle>,
    assign: spec_fn(int) -> int,
    k: int,
    width: int,
    height: int,
    c: int,
) -> nat
    decreases k,
{
    if k <= 0 {
        0
    } else {
        sum_assigned_counts(s, assign, k - 1, width, height, c) + assigned_cell_count(
            s,
            assign,
            k - 1,
            width,
            height,
            c,
        )
    }
}

proof fn lemma_sum_push(
    s: Seq<Particle>,
    assign: spec_fn(int) -> int,
    k: int,
    width: int,
    height: int,
    c: int,
)
    requires
        s.len() >= 1,
    ensures
        sum_assigned_counts(s, assign, k, width, height, c) == sum_assigned_counts(
            s.drop_last(),
            assign,
            k,
            width,
            height,
            c,
        ) + (if 0 <= assign(s.len() - 1) < k && in_bounds(s.last(), width, height) && cell_of(
            s.last(),
            width,
        ) == c {
            1nat
        } else {
            0nat
        }),
    decreases k,
{
    if k > 0 {
        lemma_sum_push(s, assign, k - 1, width, height, c);
    }
}

/// Reduction correctness — order independence. However the elements are
/// dealt out to the workers, the per-worker counts of round one, added over
/// all workers, give exactly the reference count of every cell: each element
/// lands in exactly one worker's scratch grid, and addition does not care in
/// which. Neither the worker count nor the chunking policy can change a
/// single cell of the final grid.
pub proof fn lemma_assignment_decomposition(
    s: Seq<Particle>,
    assign: spec_fn(int) -> int,
    workers: int,
    width: int,
    height: int,
    c: int,
)
    requires
        workers >= 1,
        forall|e: int| 0 <= e < s.len() ==> 0 <= #[trigger] assign(e) < workers,
    ensures
        sum_assigned_counts(s, assign, workers, width, height, c) == cell_count(
            s,
            width,
            height,
            c,
        ),
    decreases s.len(),
{
    if s.len() == 0 {
        lemma_sum_empty(s, assign, workers, width, height, c);
    } else {
        lemma_assignment_decomposition(s.drop_last(), assign, workers, width, height, c);
        lemma_sum_push(s, assign, workers, width, height, c);
        assert(0 <= assign(s.len() - 1) < workers);
    }
}

proof fn lemma_sum_empty(
    s: Seq<Particle>,
    assign: spec_fn(int) -> int,
    k: int,
    width: int,
    height: int,
    c: int,
)
    requires
        s.len() == 0,
    ensures
        sum_assigned_counts(s, assign, k, width, height, c) == 0,
    decreases k,
{
    if k > 0 {
        lemma_sum_empty(s, assign, k - 1, width, height, c);
    }
}

/// Round-robin dealing always names a worker of the pool.
proof fn lemma_round_robin_bounds(chunk_len: int, workers: int, e: int)
    requires
        chunk_len >= 1,
        workers >= 1,
        0 <= e,
    ensures
        0 <= round_robin(chunk_len, workers)(e) < workers,
{
    assert(0 <= (e / chunk_len) % workers < workers) by (nonlinear_arith)
        requires
            chunk_len >= 1,
            workers >= 1,
            0 <= e,
    ;
}

/// No count can exceed the number of elements.
proof fn lemma_assigned_count_le_len(
    s: Seq<Particle>,
    assign: spec_fn(int) -> int,
    w: int,
    width: int,
    height: int,
    c: int,
)
    ensures
        assigned_cell_count(s, assign, w, width, height, c) <= s.len(),
    decreases s.len(),
{
    if s.len() > 0 {
        lemma_assigned_count_le_len(s.drop_last(), assign, w, width, height, c);
    }
}

/// Boundary exclusion: a particle outside the grid — at or beyond `width` or
/// `height`, or at a negative coordinate — contributes to no cell at all.
pub proof fn lemma_boundary_exclusion(s: Seq<Particle>, p: Particle, width: int, height: int, c: int)
    requires
        !in_bounds(p, width, height),
    ensures
        cell_count(s.push(p), width, height, c) == cell_count(s, width, height, c),
{
    assert(s.push(p).drop_last() =~= s);
    assert(s.push(p).last() == p);
}

fn zeroed_u64(n: usize) -> (v: Vec<u64>)
    ensures
        v@.len() == n,
        forall|i: int| 0 <= i < n ==> v@[i] == 0,
{
    let mut v: Vec<u64> = Vec::new();
    let mut i: usize = 0;
    while i < n
        invariant
            i <= n,
            v@.len() == i,
            forall|j: int| 0 <= j < i ==> v@[j] == 0,
        decreases n - i,
    {
        v.push(0);
        i = i + 1;
    }
    v
}

fn zeroed_u16(n: usize) -> (v: Vec<u16>)
    ensures
        v@.len() == n,
        forall|i: int| 0 <= i < n ==> v@[i] == 0,
{
    let mut v: Vec<u16> = Vec::new();
    let mut i: usize = 0;
    while i < n
        invariant
            i <= n,
            v@.len() == i,
            forall|j: int| 0 <= j < i ==> v@[j] == 0,
        decreases n - i,
    {
        v.push(0);
        i = i + 1;
    }
    v
}

/// The flat cell index of `p` in a `width` x `height` grid, or `None` for a
/// particle outside it. Out-of-bounds positions are discarded, never clamped
/// into an edge cell.
pub fn cell_index(p: &Particle, width: u32, height: u32) -> (r: Option<usize>)
    requires
        (width as int) * (height as int) <= usize::MAX,
    ensures
        r is Some <==> in_bounds(*p, width as int, height as int),
        r is Some ==> r.unwrap() == cell_of(*p, width as int) && r.unwrap() < (width as int) * (
        height as int),
{
    let bound_x: i64 = (width as i64) * FP_SCALE;
    let bound_y: i64 = (height as i64) * FP_SCALE;
    if p.x >= 0 && p.x < bound_x && p.y >= 0 && p.y < bound_y {
        let cx: u64 = (p.x as u64) / (FP_SCALE as u64);
        let cy: u64 = (p.y as u64) / (FP_SCALE as u64);
        proof {
            assert(cx < width && cy < height) by (nonlinear_arith)
                requires
                    cx == (p.x as int) / (FP_SCALE as int),
                    cy == (p.y as int) / (FP_SCALE as int),
                    0 <= p.x < (width as int) * (FP_SCALE as int),
                    0 <= p.y < (height as int) * (FP_SCALE as int),
                    FP_SCALE == 1024,
            ;
            assert(cx + cy * (width as int) < (width as int) * (height as int))
                by (nonlinear_arith)
                requires
                    0 <= cx < width as int,
                    0 <= cy < height as int,
            ;
        }
        Some((cx as usize) + (cy as usize) * (width as usize))
    } else {
        None
    }
}

/// Round one for one worker: counts every in-bounds particle that round-robin
/// chunking assigns to worker `w` into that worker's own scratch grid. Each
/// worker writes only the grid it owns, so the rounds need no locks.
pub fn scatter_for_worker(
    particles: &Vec<Particle>,
    width: u32,
    height: u32,
    chunk_len: usize,
    workers: usize,
    w: usize,
) -> (row: Vec<u64>)
    requires
        chunk_len >= 1,
        workers >= 1,
        w < workers,
        (width as int) * (height as int) <= usize::MAX,
    ensures
        row@.len() == (width as int) * (height as int),
        forall|c: int|
            0 <= c < row@.len() ==> row@[c] == assigned_cell_count(
                particles@,
                round_robin(chunk_len as int, workers as int),
                w as int,
                width as int,
                height as int,
                c,
            ),
{
    let grid_len: usize = (width as usize) * (height as usize);
    let mut row = zeroed_u64(grid_len);
    let n = particles.len();
    let mut e: usize = 0;
    while e < n
        invariant
            e <= n,
            n == particles@.len(),
            chunk_len >= 1,
            workers >= 1,
            w < workers,
            (width as int) * (height as int) <= usize::MAX,
            grid_len == (width as int) * (height as int),
            row@.len() == grid_len,
            forall|c: int|
                0 <= c < row@.len() ==> row@[c] == assigned_cell_count(
                    particles@.take(e as int),
                    round_robin(chunk_len as int, workers as int),
                    w as int,
                    width as int,
                    height as int,
                    c,
                ),
        decreases n - e,
    {
        let ghost pre = particles@.take(e as int);
        proof {
            assert(particles@.take(e + 1).drop_last() =~= pre);
            assert(particles@.take(e + 1).last() == particles@[e as int]);
            assert forall|c: int| 0 <= c < row@.len() implies #[trigger] assigned_cell_count(
                pre,
                round_robin(chunk_len as int, workers as int),
                w as int,
                width as int,
                height as int,
                c,
            ) <= e by {
                lemma_assigned_count_le_len(
                    pre,
                    round_robin(chunk_len as int, workers as int),
                    w as int,
                    width as int,
                    height as int,
                    c,
                );
            }
        }
        let assigned = (e / chunk_len) % workers;
        if assigned == w {
            let p = particles[e];
            match cell_index(&p, width, height) {
                Some(cell) => {
                    let prev_count = row[cell];
                    row.set(cell, prev_count + 1);
                },
                None => {},
            }
        }
        e = e + 1;
    }
    proof {
        assert(particles@.take(n as int) =~= particles@);
    }
    row
}

/// Round one: one private scratch grid per worker, holding exactly that
/// worker's share of the counts.
pub fn accumulate_round1(
    particles: &Vec<Particle>,
    width: u32,
    height: u32,
    chunk_len: usize,
    workers: usize,
) -> (scratches: Vec<Vec<u64>>)
    requires
        chunk_len >= 1,
        workers >= 1,
        (width as int) * (height as int) <= usize::MAX,
    ensures
        scratches@.len() == workers,
        forall|w: int|
            0 <= w < workers ==> (#[trigger] scratches@[w])@.len() == (width as int) * (
            height as int),
        forall|w: int, c: int|
            0 <= w < workers && 0 <= c < (width as int) * (height as int)
                ==> (#[trigger] scratches@[w]@[c]) == assigned_cell_count(
                particles@,
                round_robin(chunk_len as int, workers as int),
                w,
                width as int,
                height as int,
                c,
            ),
{
    let mut scratches: Vec<Vec<u64>> = Vec::new();
    let mut w: usize = 0;
    while w < workers
        invariant
            w <= workers,
            chunk_len >= 1,
            workers >= 1,
            (width as int) * (height as int) <= usize::MAX,
            scratches@.len() == w,
            forall|v: int|
                0 <= v < w ==> (#[trigger] scratches@[v])@.len() == (width as int) * (
                height as int),
            forall|v: int, c: int|
                0 <= v < w && 0 <= c < (width as int) * (height as int)
                    ==> (#[trigger] scratches@[v]@[c]) == assigned_cell_count(
                    particles@,
                    round_robin(chunk_len as int, workers as int),
                    v,
                    width as int,
                    height as int,
                    c,
                ),
        decreases workers - w,
    {
        let row = scatter_for_worker(particles, width, height, chunk_len, workers, w);
        scratches.push(row);
        w = w + 1;
    }
    scratches
}

/// A count capped at `COUNT_MAX`.
pub open spec fn sat16(n: int) -> int {
    if n > COUNT_MAX {
        COUNT_MAX as int
    } else {
        n
    }
}

/// The cell-`c` entries of the first `k` scratch grids added up.
pub open spec fn scratch_sum(rows: Seq<Seq<u64>>, k: int, c: int) -> int
    decreases k,
{
    if k <= 0 {
        0
    } else {
        scratch_sum(rows, k - 1, c) + rows[k - 1][c]
    }
}

/// Round two for one cell: the cell-`c` entries of all scratch grids added
/// up, saturating at `COUNT_MAX`.
pub fn reduce_cell(scratches: &Vec<Vec<u64>>, c: usize) -> (r: u16)
    requires
        forall|w: int| 0 <= w < scratches@.len() ==> c < (#[trigger] scratches@[w])@.len(),
    ensures
        r == sat16(
            scratch_sum(
                scratches@.map_values(|row: Vec<u64>| row@),
                scratches@.len() as int,
                c as int,
            ),
        ),
{
    let ghost rows = scratches@.map_values(|row: Vec<u64>| row@);
    let nw = scratches.len();
    let mut acc: u64 = 0;
    let mut w: usize = 0;
    while w < nw
        invariant
            w <= nw,
            nw == scratches@.len(),
            rows == scratches@.map_values(|row: Vec<u64>| row@),
            forall|v: int| 0 <= v < scratches@.len() ==> c < (#[trigger] scratches@[v])@.len(),
            acc == if scratch_sum(rows, w as int, c as int) > u64::MAX {
                u64::MAX as int
            } else {
                scratch_sum(rows, w as int, c as int)
            },
        decreases nw - w,
    {
        let v = scratches[w][c];
        assert(v == rows[w as int][c as int]);
        if acc > u64::MAX - v {
            acc = u64::MAX;
        } else {
            acc = acc + v;
        }
        w = w + 1;
    }
    if acc > COUNT_MAX as u64 {
        COUNT_MAX
    } else {
        acc as u16
    }
}

/// Round two over one contiguous chunk of the cell space: every cell in
/// [start, end) of `out` becomes the sum of that cell over all scratch
/// grids, saturating at `COUNT_MAX`; cells outside the chunk are untouched.
pub fn reduce_chunk(scratches: &Vec<Vec<u64>>, start: usize, end: usize, out: &mut Vec<u16>)
    requires
        start <= end <= old(out)@.len(),
        forall|w: int|
            0 <= w < scratches@.len() ==> (#[trigger] scratches@[w])@.len() == old(out)@.len(),
    ensures
        final(out)@.len() == old(out)@.len(),
        forall|c: int|
            start <= c < end ==> (#[trigger] final(out)@[c]) == sat16(
                scratch_sum(scratches@.map_values(|r: Vec<u64>| r@), scratches@.len() as int, c),
            ),
        forall|c: int|
            0 <= c < old(out)@.len() && !(start <= c < end) ==> #[trigger] final(out)@[c] == old(
            out)@[c],
{
    let ghost rows = scratches@.map_values(|r: Vec<u64>| r@);
    let mut c = start;
    while c < end
        invariant
            start <= c <= end <= out@.len(),
            out@.len() == old(out)@.len(),
            rows == scratches@.map_values(|r: Vec<u64>| r@),
            forall|w: int|
                0 <= w < scratches@.len() ==> (#[trigger] scratches@[w])@.len() == out@.len(),
            forall|d: int|
                start <= d < c ==> (#[trigger] out@[d]) == sat16(
                    scratch_sum(rows, scratches@.len() as int, d),
                ),
            forall|d: int|
                0 <= d < out@.len() && !(start <= d < c) ==> #[trigger] out@[d] == old(out)@[d],
        decreases end - c,
    {
        let capped = reduce_cell(scratches, c);
        out.set(c, capped);
        c = c + 1;
    }
}

/// Chunks per worker round one aims for: trades load balance against
/// scheduling overhead.
pub const CHUNKS_PER_WORKER: usize = 10;

/// The chunk length the pipeline picks for `len` elements over `workers`
/// workers: about `CHUNKS_PER_WORKER` chunks per worker, but never below 1.
pub open spec fn chunk_len_spec(len: int, workers: int) -> int
    recommends
        workers >= 1,
{
    let even = len / (workers * (CHUNKS_PER_WORKER as int));
    if even >= 1 {
        even
    } else {
        1
    }
}

/// Picks the round-one chunk length for `len` elements over `workers`
/// workers.
pub fn pick_chunk_len(len: usize, workers: usize) -> (r: usize)
    requires
        workers >= 1,
    ensures
        r == chunk_len_spec(len as int, workers as int),
        r >= 1,
{
    if workers > usize::MAX / CHUNKS_PER_WORKER {
        proof {
            assert((len as int) / ((workers as int) * (CHUNKS_PER_WORKER as int)) == 0)
                by (nonlinear_arith)
                requires
                    workers as int > (usize::MAX as int) / (CHUNKS_PER_WORKER as int),
                    CHUNKS_PER_WORKER == 10,
                    0 <= len as int <= usize::MAX as int,
            ;
        }
        1
    } else {
        let per = workers * CHUNKS_PER_WORKER;
        let even = len / per;
        if even >= 1 {
            even
        } else {
            1
        }
    }
}

/// What every cell of the finished grid must hold: the exact number of
/// particles inside that cell, saturated at `COUNT_MAX`.
pub open spec fn grid_spec(s: Seq<Particle>, width: int, height: int, c: int) -> int {
    sat16(cell_count(s, width, height, c) as int)
}

/// The full pipeline with an explicit worker count and chunk length: round
/// one into per-worker scratch grids, round two into the final grid. The
/// result depends only on the particles and the dimensions — not on
/// `workers` or `chunk_len`.
pub fn accumulate_with(
    particles: &Vec<Particle>,
    width: u32,
    height: u32,
    workers: usize,
    chunk_len: usize,
) -> (grid: Vec<u16>)
    requires
        workers >= 1,
        chunk_len >= 1,
        (width as int) * (height as int) <= usize::MAX,
    ensures
        grid@.len() == (width as int) * (height as int),
        forall|c: int|
            0 <= c < grid@.len() ==> #[trigger] grid@[c] == grid_spec(
                particles@,
                width as int,
                height as int,
                c,
            ),
{
    let grid_len: usize = (width as usize) * (height as usize);
    let scratches = accumulate_round1(particles, width, height, chunk_len, workers);
    let mut grid = zeroed_u16(grid_len);
    let ghost rows = scratches@.map_values(|r: Vec<u64>| r@);
    let cell_chunk_len = pick_chunk_len(grid_len, workers);
    let mut start: usize = 0;
    while start < grid_len
        invariant
            grid@.len() == grid_len,
            cell_chunk_len >= 1,
            start <= grid_len,
            grid_len == (width as int) * (height as int),
            rows == scratches@.map_values(|r: Vec<u64>| r@),
            scratches@.len() == workers,
            workers >= 1,
            forall|w: int| 0 <= w < workers ==> (#[trigger] scratches@[w])@.len() == grid_len,
            forall|c: int|
                0 <= c < start ==> (#[trigger] grid@[c]) == sat16(
                    scratch_sum(rows, workers as int, c),
                ),
        decreases grid_len - start,
    {
        let end = if grid_len - start < cell_chunk_len {
            grid_len
        } else {
            start + cell_chunk_len
        };
        reduce_chunk(&scratches, start, end, &mut grid);
        start = end;
    }
    proof {
        assert forall|c: int| 0 <= c < grid@.len() implies #[trigger] grid@[c] == grid_spec(
            particles@,
            width as int,
            height as int,
            c,
        ) by {
            let assign = round_robin(chunk_len as int, workers as int);
            lemma_scratch_sum_is_assigned_sum(
                rows,
                particles@,
                assign,
                workers as int,
                workers as int,
                width as int,
                height as int,
                c,
            );
            assert forall|e: int| 0 <= e < particles@.len() implies 0 <= #[trigger] assign(e)
                < workers as int by {
                lemma_round_robin_bounds(chunk_len as int, workers as int, e);
            }
            lemma_assignment_decomposition(
                particles@,
                assign,
                workers as int,
                width as int,
                height as int,
                c,
            );
        }
    }
    grid
}

/// The full pipeline as a frame loop calls it: the worker count comes from
/// the pool, the chunk length from the partitioning policy. Every cell of
/// the result counts exactly the particles inside it (saturated at
/// `COUNT_MAX`); an empty particle set or a zero-area grid gives an all-zero
/// or empty grid rather than a fault.
pub fn accumulate(pool: &Pool, particles: &Vec<Particle>, width: u32, height: u32) -> (grid: Vec<
    u16,
>)
    requires
        pool.inv(),
        (width as int) * (height as int) <= usize::MAX,
    ensures
        grid@.len() == (width as int) * (height as int),
        forall|c: int|
            0 <= c < grid@.len() ==> #[trigger] grid@[c] == grid_spec(
                particles@,
                width as int,
                height as int,
                c,
            ),
{
    let workers = pool.thread_count();
    let chunk_len = pick_chunk_len(particles.len(), workers);
    accumulate_with(particles, width, height, workers, chunk_len)
}

/// When every scratch row holds its worker's counts, the row sums equal the
/// worker-count sums.
proof fn lemma_scratch_sum_is_assigned_sum(
    rows: Seq<Seq<u64>>,
    s: Seq<Particle>,
    assign: spec_fn(int) -> int,
    workers: int,
    k: int,
    width: int,
    height: int,
    c: int,
)
    requires
        rows.len() == workers,
        k <= workers,
        0 <= c < width * height,
        forall|w: int, d: int|
            0 <= w < workers && 0 <= d < width * height ==> (#[trigger] rows[w][d])
                == assigned_cell_count(s, assign, w, width, height, d),
    ensures
        scratch_sum(rows, k, c) == sum_assigned_counts(s, assign, k, width, height, c),
    decreases k,
{
    if k > 0 {
        lemma_scratch_sum_is_assigned_sum(rows, s, assign, workers, k - 1, width, height, c);
    }
}

} // verus!
