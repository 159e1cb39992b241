//! Grid passage finder for World Weaver's dawn playback and the scripted keeper. The caller lays
//! the hull-inflated land onto a square occupancy grid; this module picks the free cells nearest
//! to the start and goal and searches eight-connected moves (no corner cutting) between them.
//! A route it reports is always a cheapest chain of legal moves; when it reports none, none exists.

use vstd::prelude::*;
use vstd::arithmetic::div_mod::lemma_fundamental_div_mod_converse;
use vstd::arithmetic::div_mod::lemma_fundamental_div_mod;

verus! {

/// Largest grid edge the finder accepts: move costs along any explored chain stay within `u32`.
pub const MAX_GRID_SIZE: usize = 16384;

/// Sentinel for "not reached yet" in the cost table.
pub const UNREACHED: u32 = 0xffff_ffff;

/// Occupancy grid: `size` by `size` cells stored row by row, cell `(i, j)` at `j * size + i`.
pub struct Grid {
    pub size: usize,
    pub blocked: Vec<bool>,
}

/// Move `d` of the eight-direction table: column step, row step, cost in tenths of a cell.
pub open spec fn dir_spec(d: int) -> (int, int, int) {
    if d == 0 {
        (1, 0, 10)
    } else if d == 1 {
        (-1, 0, 10)
    } else if d == 2 {
        (0, 1, 10)
    } else if d == 3 {
        (0, -1, 10)
    } else if d == 4 {
        (1, 1, 14)
    } else if d == 5 {
        (1, -1, 14)
    } else if d == 6 {
        (-1, 1, 14)
    } else {
        (-1, -1, 14)
    }
}

/// Chebyshev ring of `(i, j)` around `(i0, j0)`.
pub open spec fn ring(i0: int, j0: int, i: int, j: int) -> int {
    let di = if i >= i0 { i - i0 } else { i0 - i };
    let dj = if j >= j0 { j - j0 } else { j0 - j };
    if di >= dj { di } else { dj }
}

/// Search order of the nearest-free-cell scan: inner rings first, then by row, then by column.
pub open spec fn scanned_before(i0: int, j0: int, k: int, l: int, i: int, j: int) -> bool {
    ring(i0, j0, k, l) < ring(i0, j0, i, j) || (ring(i0, j0, k, l) == ring(i0, j0, i, j) && (l < j
        || (l == j && k < i)))
}

/// Number of entries of `s` that hold a reached cost.
pub open spec fn count_reached(s: Seq<u32>) -> nat
    decreases s.len(),
{
    if s.len() == 0 {
        0
    } else {
        count_reached(s.drop_last()) + if s.last() != UNREACHED {
            1nat
        } else {
            0nat
        }
    }
}

/// Sum of all entries of `s`.
pub open spec fn sum_costs(s: Seq<u32>) -> nat
    decreases s.len(),
{
    if s.len() == 0 {
        0
    } else {
        sum_costs(s.drop_last()) + s.last() as nat
    }
}

/// No cell occurs twice.
pub open spec fn no_repeats(p: Seq<usize>) -> bool {
    forall|a: int, b: int| 0 <= a < b < p.len() ==> #[trigger] p[a] != #[trigger] p[b]
}

/// Whether some queue entry refers to cell `x`.
pub open spec fn queued(q: Seq<(u64, usize)>, x: int) -> bool {
    exists|k: int| 0 <= k < q.len() && #[trigger] q[k].1 == x
}

impl Grid {
    pub open spec fn wf(&self) -> bool {
        &&& self.size <= MAX_GRID_SIZE
        &&& self.blocked@.len() == self.size * self.size
    }

    pub open spec fn cells(&self) -> int {
        self.size * self.size
    }

    /// Cell `(i, j)` lies on the grid and is not blocked.
    pub open spec fn open_at(&self, i: int, j: int) -> bool {
        &&& 0 <= i < self.size
        &&& 0 <= j < self.size
        &&& !self.blocked@[j * self.size + i]
    }

    pub open spec fn col(&self, c: int) -> int {
        c % (self.size as int)
    }

    pub open spec fn row(&self, c: int) -> int {
        c / (self.size as int)
    }

    /// A legal move from `(i, j)` by `(di, dj)`: one of the eight neighbours, onto an open cell,
    /// and a diagonal only when both orthogonal cells beside it are open.
    pub open spec fn move_ok(&self, i: int, j: int, di: int, dj: int) -> bool {
        &&& -1 <= di <= 1
        &&& -1 <= dj <= 1
        &&& !(di == 0 && dj == 0)
        &&& self.open_at(i + di, j + dj)
        &&& (di == 0 || dj == 0 || (self.open_at(i + di, j) && self.open_at(i, j + dj)))
    }

    /// A legal move between cell indices `a` and `b`.
    pub open spec fn step(&self, a: int, b: int) -> bool {
        &&& 0 <= a < self.cells()
        &&& 0 <= b < self.cells()
        &&& self.move_ok(
            self.col(a),
            self.row(a),
            self.col(b) - self.col(a),
            self.row(b) - self.row(a),
        )
    }

    /// `p` is a chain of legal moves from cell `from` to cell `to`.
    pub open spec fn is_path(&self, p: Seq<usize>, from: int, to: int) -> bool {
        &&& p.len() >= 1
        &&& p[0] == from
        &&& p[p.len() - 1] == to
        &&& forall|k: int| 0 <= k < p.len() ==> #[trigger] p[k] < self.cells()
        &&& forall|k: int| 0 <= k < p.len() - 1 ==> self.step(#[trigger] p[k] as int, p[k + 1] as int)
    }

    pub open spec fn reachable(&self, from: int, to: int) -> bool {
        exists|p: Seq<usize>| #[trigger] self.is_path(p, from, to)
    }

    /// Cost of the move from cell `a` to its neighbour `b`, in tenths of a cell: 10 straight,
    /// 14 diagonal.
    pub open spec fn move_cost(&self, a: int, b: int) -> int {
        if self.col(a) != self.col(b) && self.row(a) != self.row(b) {
            14
        } else {
            10
        }
    }

    /// Total cost of the moves along a chain of cells.
    pub open spec fn path_cost(&self, p: Seq<usize>) -> int
        decreases p.len(),
    {
        if p.len() <= 1 {
            0
        } else {
            self.path_cost(p.drop_last()) + self.move_cost(p[p.len() - 2] as int, p[p.len() - 1] as int)
        }
    }

    /// Octile estimate of the cost from cell `x` to cell `goal`.
    pub open spec fn estimate(&self, x: int, goal: int) -> int {
        let dx = if self.col(x) >= self.col(goal) { self.col(x) - self.col(goal) } else { self.col(goal) - self.col(x) };
        let dy = if self.row(x) >= self.row(goal) { self.row(x) - self.row(goal) } else { self.row(goal) - self.row(x) };
        if dx >= dy {
            10 * dx + 4 * dy
        } else {
            10 * dy + 4 * dx
        }
    }

    /// `(i, j)` is the open cell the scan around `(i0, j0)` finds first.
    pub open spec fn is_nearest_free(&self, i0: int, j0: int, i: int, j: int) -> bool {
        &&& self.open_at(i, j)
        &&& forall|k: int, l: int|
            #[trigger] self.open_at(k, l) ==> !scanned_before(i0, j0, k, l, i, j)
    }

    pub open spec fn has_open_cell(&self) -> bool {
        exists|i: int, j: int| #[trigger] self.open_at(i, j)
    }

    /// Every cell the cost table has reached passes reach on to all its legal moves.
    pub open spec fn closed(&self, g: Seq<u32>) -> bool {
        forall|x: int, y: int|
            0 <= x < g.len() && g[x] != UNREACHED && #[trigger] self.step(x, y) ==> g[y]
                != UNREACHED
    }

    /// Predecessor links lead every reached cell but `start` back along legal moves to strictly
    /// cheaper reached cells.
    #[verifier::opaque]
    pub open spec fn links_ok(&self, g: Seq<u32>, came: Seq<usize>, start: int) -> bool {
        forall|x: int|
            0 <= x < g.len() && #[trigger] g[x] != UNREACHED && x != start ==> {
                &&& came[x] < g.len()
                &&& self.step(came[x] as int, x)
                &&& g[came[x] as int] < g[x]
                &&& g[came[x] as int] + self.move_cost(came[x] as int, x) <= g[x]
            }
    }
}

proof fn lemma_cell_index(n: int, i: int, j: int)
    requires
        0 <= i < n,
        0 <= j < n,
    ensures
        0 <= j * n + i < n * n,
        (j * n + i) % n == i,
        (j * n + i) / n == j,
{
    assert(0 <= j * n + i < n * n) by (nonlinear_arith)
        requires
            0 <= i < n,
            0 <= j < n,
    ;
    lemma_fundamental_div_mod_converse(j * n + i, n, j, i);
}

proof fn lemma_index_cell(n: int, c: int)
    requires
        0 <= c < n * n,
        n > 0,
    ensures
        0 <= c % n < n,
        0 <= c / n < n,
        c == (c / n) * n + c % n,
{
    lemma_fundamental_div_mod(c, n);
    assert(0 <= c % n < n) by {
        vstd::arithmetic::div_mod::lemma_mod_bound(c, n);
    }
    assert((c / n) * n == n * (c / n)) by (nonlinear_arith);
    assert(0 <= c / n) by {
        vstd::arithmetic::div_mod::lemma_div_pos_is_pos(c, n);
    }
    assert(c / n < n) by (nonlinear_arith)
        requires
            c == n * (c / n) + c % n,
            0 <= c % n,
            c < n * n,
            n > 0,
    ;
}

proof fn lemma_count_update(s: Seq<u32>, i: int, v: u32)
    requires
        0 <= i < s.len(),
    ensures
        count_reached(s.update(i, v)) + (if s[i] != UNREACHED {
            1int
        } else {
            0int
        }) == count_reached(s) + (if v != UNREACHED {
            1int
        } else {
            0int
        }),
    decreases s.len(),
{
    let t = s.update(i, v);
    if i == s.len() - 1 {
        assert(t.drop_last() =~= s.drop_last());
    } else {
        assert(t.drop_last() =~= s.drop_last().update(i, v));
        lemma_count_update(s.drop_last(), i, v);
    }
}

proof fn lemma_sum_update(s: Seq<u32>, i: int, v: u32)
    requires
        0 <= i < s.len(),
    ensures
        sum_costs(s.update(i, v)) + s[i] == sum_costs(s) + v,
    decreases s.len(),
{
    let t = s.update(i, v);
    if i == s.len() - 1 {
        assert(t.drop_last() =~= s.drop_last());
    } else {
        assert(t.drop_last() =~= s.drop_last().update(i, v));
        lemma_sum_update(s.drop_last(), i, v);
    }
}

proof fn lemma_count_bound(s: Seq<u32>)
    ensures
        count_reached(s) <= s.len(),
    decreases s.len(),
{
    if s.len() > 0 {
        lemma_count_bound(s.drop_last());
    }
}

proof fn lemma_count_none(s: Seq<u32>)
    requires
        forall|k: int| 0 <= k < s.len() ==> s[k] == UNREACHED,
    ensures
        count_reached(s) == 0,
    decreases s.len(),
{
    if s.len() > 0 {
        lemma_count_none(s.drop_last());
    }
}

/// Every one of the eight neighbour offsets appears in the direction table.
proof fn lemma_dir_covers(di: int, dj: int) -> (d: int)
    requires
        -1 <= di <= 1,
        -1 <= dj <= 1,
        !(di == 0 && dj == 0),
    ensures
        0 <= d < 8,
        dir_spec(d).0 == di,
        dir_spec(d).1 == dj,
{
    if di == 1 && dj == 0 {
        0
    } else if di == -1 && dj == 0 {
        1
    } else if di == 0 && dj == 1 {
        2
    } else if di == 0 && dj == -1 {
        3
    } else if di == 1 && dj == 1 {
        4
    } else if di == 1 && dj == -1 {
        5
    } else if di == -1 && dj == 1 {
        6
    } else {
        7
    }
}

fn direction(d: usize) -> (r: (isize, isize, u32))
    requires
        d < 8,
    ensures
        r.0 == dir_spec(d as int).0,
        r.1 == dir_spec(d as int).1,
        r.2 == dir_spec(d as int).2,
{
    if d == 0 {
        (1, 0, 10)
    } else if d == 1 {
        (-1, 0, 10)
    } else if d == 2 {
        (0, 1, 10)
    } else if d == 3 {
        (0, -1, 10)
    } else if d == 4 {
        (1, 1, 14)
    } else if d == 5 {
        (1, -1, 14)
    } else if d == 6 {
        (-1, 1, 14)
    } else {
        (-1, -1, 14)
    }
}

/// Position of the smallest `(score, cell)` entry of a non-empty queue.
fn min_entry(q: &Vec<(u64, usize)>) -> (k: usize)
    requires
        q@.len() > 0,
    ensures
        k < q@.len(),
        forall|m: int|
            0 <= m < q@.len() ==> q@[k as int].0 < q@[m].0 || (q@[k as int].0 == q@[m].0
                && q@[k as int].1 <= q@[m].1),
{
    let mut best: usize = 0;
    let mut m: usize = 1;
    while m < q.len()
        invariant
            0 < m <= q@.len(),
            best < m,
            forall|x: int|
                0 <= x < m ==> q@[best as int].0 < q@[x].0 || (q@[best as int].0 == q@[x].0
                    && q@[best as int].1 <= q@[x].1),
        decreases q@.len() - m,
    {
        if q[m].0 < q[best].0 || (q[m].0 == q[best].0 && q[m].1 < q[best].1) {
            best = m;
        }
        m += 1;
    }
    best
}

impl Grid {
    /// Whether `(i, j)` is on the grid and not blocked.
    pub fn free(&self, i: isize, j: isize) -> (r: bool)
        requires
            self.wf(),
        ensures
            r == self.open_at(i as int, j as int),
    {
        if i < 0 || j < 0 {
            return false;
        }
        let (iu, ju) = (i as usize, j as usize);
        if iu >= self.size || ju >= self.size {
            return false;
        }
        let total = self.blocked.len();
        proof {
            lemma_cell_index(self.size as int, iu as int, ju as int);
            assert(ju * self.size <= ju * self.size + iu < total);
        }
        !self.blocked[ju * self.size + iu]
    }

    /// The first open cell of a scan in growing square rings around `(i0, j0)`; within a ring,
    /// row by row from the lowest, each row from the lowest column. `None` when no cell is open.
    pub fn nearest_free(&self, i0: usize, j0: usize) -> (r: Option<(usize, usize)>)
        requires
            self.wf(),
            i0 < self.size,
            j0 < self.size,
        ensures
            match r {
                Some((i, j)) => self.is_nearest_free(i0 as int, j0 as int, i as int, j as int),
                None => !self.has_open_cell(),
            },
    {
        let n = self.size as isize;
        let ci = i0 as isize;
        let cj = j0 as isize;
        let mut rg: isize = 0;
        while rg < n
            invariant
                self.wf(),
                n == self.size,
                ci == i0,
                cj == j0,
                i0 < self.size,
                j0 < self.size,
                0 <= rg <= n,
                forall|k: int, l: int|
                    #[trigger] self.open_at(k, l) ==> ring(ci as int, cj as int, k, l) >= rg,
            decreases n - rg,
        {
            let mut dj: isize = -rg;
            while dj <= rg
                invariant
                    self.wf(),
                    n == self.size,
                    ci == i0,
                    cj == j0,
                    i0 < self.size,
                    j0 < self.size,
                    0 <= rg < n,
                    -rg <= dj <= rg + 1,
                    forall|k: int, l: int|
                        #[trigger] self.open_at(k, l) ==> ring(ci as int, cj as int, k, l) > rg
                            || (ring(ci as int, cj as int, k, l) == rg && l >= cj + dj),
                decreases rg + 1 - dj,
            {
                let mut di: isize = -rg;
                while di <= rg
                    invariant
                        self.wf(),
                        n == self.size,
                        ci == i0,
                        cj == j0,
                        i0 < self.size,
                        j0 < self.size,
                        0 <= rg < n,
                        -rg <= dj <= rg,
                        -rg <= di <= rg + 1,
                        forall|k: int, l: int|
                            #[trigger] self.open_at(k, l) ==> ring(ci as int, cj as int, k, l) > rg
                                || (ring(ci as int, cj as int, k, l) == rg && (l > cj + dj || (l
                                == cj + dj && k >= ci + di))),
                    decreases rg + 1 - di,
                {
                    let on_ring = di == rg || di == -rg || dj == rg || dj == -rg;
                    if on_ring {
                        let (i, j) = (ci + di, cj + dj);
                        if self.free(i, j) {
                            assert(ring(ci as int, cj as int, i as int, j as int) == rg);
                            return Some((i as usize, j as usize));
                        }
                    } else {
                        assert(ring(ci as int, cj as int, (ci + di) as int, (cj + dj) as int) < rg);
                    }
                    di += 1;
                }
                dj += 1;
            }
            rg += 1;
        }
        proof {
            assert forall|k: int, l: int| !#[trigger] self.open_at(k, l) by {
                if self.open_at(k, l) {
                    assert(ring(ci as int, cj as int, k, l) < n);
                }
            }
        }
        None
    }

    /// Octile distance estimate between two cells, in tenths of a cell.
    fn heuristic(&self, idx: usize, goal: usize) -> (h: u64)
        requires
            self.wf(),
            idx < self.cells(),
            goal < self.cells(),
        ensures
            h <= 14 * MAX_GRID_SIZE,
            h == self.estimate(idx as int, goal as int),
    {
        let n = self.size;
        proof {
            lemma_index_cell(n as int, idx as int);
            lemma_index_cell(n as int, goal as int);
        }
        let (i, j) = ((idx % n) as i64, (idx / n) as i64);
        let (gi, gj) = ((goal % n) as i64, (goal / n) as i64);
        let dx = if i >= gi { i - gi } else { gi - i };
        let dy = if j >= gj { j - gj } else { gj - j };
        let (hi, lo) = if dx >= dy { (dx, dy) } else { (dy, dx) };
        (hi * 10 + lo * 4) as u64
    }
}

/// Along a chain of legal moves, a closed cost table reaches every cell once it reaches the first.
proof fn lemma_path_reached(grid: &Grid, g: Seq<u32>, p: Seq<usize>, from: int, to: int, k: int)
    requires
        grid.wf(),
        g.len() == grid.cells(),
        grid.closed(g),
        grid.is_path(p, from, to),
        g[from] != UNREACHED,
        0 <= k < p.len(),
    ensures
        g[p[k] as int] != UNREACHED,
    decreases k,
{
    if k > 0 {
        lemma_path_reached(grid, g, p, from, to, k - 1);
        assert(grid.step(p[k - 1] as int, p[k] as int));
    }
}

/// Reached costs stay below fourteen per reached cell, so no cost sum can overflow.
#[verifier::opaque]
pub open spec fn costs_bounded(g: Seq<u32>) -> bool {
    &&& count_reached(g) >= 1
    &&& forall|x: int|
        0 <= x < g.len() && #[trigger] g[x] != UNREACHED ==> g[x] <= 14 * (count_reached(g) - 1)
}

/// Every queue entry names a reached cell.
#[verifier::opaque]
pub open spec fn queue_ok(q: Seq<(u64, usize)>, g: Seq<u32>) -> bool {
    forall|k: int| 0 <= k < q.len() ==> #[trigger] q[k].1 < g.len() && g[q[k].1 as int] != UNREACHED
}

/// Lowering a cell's cost and queueing it scored with its new cost plus estimate keeps every
/// queue entry scored at or above its cell's cost plus estimate, and every other reached cell
/// either passed on or queued with its exact score.
proof fn lemma_relax_keeps_queue(
    grid: &Grid,
    g: Seq<u32>,
    q: Seq<(u64, usize)>,
    goal: int,
    idx: int,
    nidx: usize,
    cost: u32,
    score: u64,
)
    requires
        g.len() == grid.cells(),
        nidx < g.len(),
        nidx != idx,
        cost < g[nidx as int],
        score == cost + grid.estimate(nidx as int, goal),
        queue_ok(q, g),
        grid.entries_ok(q, g, goal),
        grid.pending_ok(g, q, goal, idx),
    ensures
        grid.entries_ok(q.push((score, nidx)), g.update(nidx as int, cost), goal),
        grid.pending_ok(g.update(nidx as int, cost), q.push((score, nidx)), goal, idx),
{
    let ng = g.update(nidx as int, cost);
    let nq = q.push((score, nidx));
    reveal(Grid::entries_ok);
    reveal(Grid::pending_ok);
    reveal(queue_ok);
    assert forall|k: int| 0 <= k < nq.len() implies #[trigger] nq[k].0 >= ng[nq[k].1 as int] + grid.estimate(nq[k].1 as int, goal) by {
        if k < q.len() {
            assert(nq[k] == q[k]);
            assert(q[k].0 >= g[q[k].1 as int] + grid.estimate(q[k].1 as int, goal));
        }
    }
    assert forall|x: int| 0 <= x < ng.len() && x != idx && #[trigger] ng[x] != UNREACHED implies grid.relaxed(ng, x)
        || exists|k: int| 0 <= k < nq.len() && #[trigger] nq[k].1 == x && nq[k].0 == ng[x] + grid.estimate(x, goal) by {
        if x == nidx {
            assert(nq[q.len() as int].1 == x);
        } else {
            assert(g[x] != UNREACHED);
            if grid.relaxed(g, x) {
                assert forall|y: int| #[trigger] grid.step(x, y) implies ng[y] != UNREACHED && ng[y] <= ng[x] + grid.move_cost(x, y) by {
                    assert(g[y] != UNREACHED && g[y] <= g[x] + grid.move_cost(x, y));
                }
            } else {
                let k = choose|k: int| 0 <= k < q.len() && #[trigger] q[k].1 == x && q[k].0 == g[x] + grid.estimate(x, goal);
                assert(nq[k] == q[k]);
            }
        }
    }
}

/// One successful relaxation keeps every search invariant: the neighbour `nidx` of `idx` got the
/// cheaper cost `tentative`, its link back to `idx`, and a queue entry scored `score`.
proof fn lemma_relax_update(
    grid: &Grid,
    old_g: Seq<u32>,
    old_came: Seq<usize>,
    old_open: Seq<(u64, usize)>,
    g: Seq<u32>,
    came: Seq<usize>,
    open: Seq<(u64, usize)>,
    start: int,
    goal: int,
    idx: int,
    i: int,
    j: int,
    d: int,
    nidx: usize,
    tentative: u32,
    score: u64,
)
    requires
        grid.wf(),
        grid.size * grid.size <= MAX_GRID_SIZE * MAX_GRID_SIZE,
        old_g.len() == grid.cells(),
        old_came.len() == grid.cells(),
        0 <= start < grid.cells(),
        0 <= goal < grid.cells(),
        0 <= idx < grid.cells(),
        0 <= i < grid.size,
        0 <= j < grid.size,
        i == grid.col(idx),
        j == grid.row(idx),
        idx == j * grid.size + i,
        0 <= d < 8,
        old_g[start] == 0,
        old_g[idx] != UNREACHED,
        costs_bounded(old_g),
        grid.links_ok(old_g, old_came, start),
        queue_ok(old_open, old_g),
        grid.closed_except(old_g, old_open, idx),
        grid.dirs_done(old_g, i, j, d),
        grid.entries_ok(old_open, old_g, goal),
        grid.pending_ok(old_g, old_open, goal, idx),
        grid.move_ok(i, j, dir_spec(d).0, dir_spec(d).1),
        nidx == (j + dir_spec(d).1) * grid.size + (i + dir_spec(d).0),
        tentative == old_g[idx] + dir_spec(d).2,
        tentative < old_g[nidx as int],
        score == tentative + grid.estimate(nidx as int, goal),
        g == old_g.update(nidx as int, tentative),
        came == old_came.update(nidx as int, idx as usize),
        open == old_open.push((score, nidx)),
    ensures
        g[start] == 0,
        g[idx] == old_g[idx],
        costs_bounded(g),
        grid.links_ok(g, came, start),
        queue_ok(open, g),
        grid.closed_except(g, open, idx),
        grid.dirs_done(g, i, j, d + 1),
        grid.entries_ok(open, g, goal),
        grid.pending_ok(g, open, goal, idx),
        sum_costs(g) + open.len() <= sum_costs(old_g) + old_open.len(),
{
    let n = grid.size;
    let niu = i + dir_spec(d).0;
    let nju = j + dir_spec(d).1;
    lemma_cell_index(n as int, niu, nju);
    lemma_count_bound(old_g);
    reveal(costs_bounded);
    assert(14 * count_reached(old_g) <= 14 * (MAX_GRID_SIZE * MAX_GRID_SIZE));
    lemma_relax_keeps_queue(grid, old_g, old_open, goal, idx, nidx, tentative, score);
    lemma_sum_update(old_g, nidx as int, tentative);
    assert(nidx != start);
    assert(nidx != idx);
    assert(grid.col(nidx as int) == niu && grid.row(nidx as int) == nju);
    assert(grid.step(idx as int, nidx as int));
    assert(costs_bounded(g)) by {
        lemma_count_update(old_g, nidx as int, tentative);
        reveal(costs_bounded);
        assert forall|x: int|
            0 <= x < g.len() && #[trigger] g[x] != UNREACHED implies g[x] <= 14 * (count_reached(g) - 1) by {
            if x != nidx {
                assert(old_g[x] != UNREACHED);
            }
        }
    }
    assert(grid.links_ok(g, came, start)) by {
        reveal(Grid::links_ok);
        assert(grid.move_cost(idx, nidx as int) == dir_spec(d).2);
        assert forall|x: int|
            0 <= x < g.len() && #[trigger] g[x] != UNREACHED && x != start implies {
                &&& came[x] < g.len()
                &&& grid.step(came[x] as int, x)
                &&& g[came[x] as int] < g[x]
                &&& g[came[x] as int] + grid.move_cost(came[x] as int, x) <= g[x]
            } by {
            if x != nidx {
                assert(old_g[x] != UNREACHED);
                assert(came[x] == old_came[x]);
            }
        }
    }
    assert(queue_ok(open, g)) by {
        reveal(queue_ok);
        assert forall|k: int| 0 <= k < open.len() implies #[trigger] open[k].1 < g.len()
            && g[open[k].1 as int] != UNREACHED by {
            if k < old_open.len() {
                assert(open[k] == old_open[k]);
            }
        }
    }
    assert(grid.closed_except(g, open, idx)) by {
        reveal(Grid::closed_except);
        assert forall|x: int, y: int|
            0 <= x < g.len() && x != idx && g[x] != UNREACHED && #[trigger] grid.step(x, y)
                && !queued(open, x) implies g[y] != UNREACHED by {
            if x != nidx {
                assert(old_g[x] != UNREACHED);
                if queued(old_open, x) {
                    let w = choose|w: int| 0 <= w < old_open.len() && #[trigger] old_open[w].1 == x;
                    assert(open[w].1 == x);
                }
                if y != nidx {
                    assert(old_g[y] != UNREACHED);
                }
            } else {
                assert(open[open.len() - 1].1 == x);
            }
        }
    }
    assert(grid.dirs_done(g, i, j, d + 1)) by {
        reveal(Grid::dirs_done);
        assert(g[idx as int] == old_g[idx as int]);
        assert forall|e: int|
            0 <= e < d + 1 && #[trigger] grid.move_ok(i as int, j as int, dir_spec(e).0, dir_spec(e).1)
                implies ({
                    let c = (j + dir_spec(e).1) * n + (i + dir_spec(e).0);
                    &&& g[c] != UNREACHED
                    &&& g[c] <= g[j * n + i] + dir_spec(e).2
                }) by {
            let c = (j + dir_spec(e).1) * n + (i + dir_spec(e).0);
            if e < d {
                lemma_cell_index(n as int, i + dir_spec(e).0, j + dir_spec(e).1);
                assert(old_g[c] != UNREACHED);
                if c != nidx {
                    assert(g[c] == old_g[c]);
                }
            }
        }
    }
}

impl Grid {
    /// Reached cells that are no longer queued (other than `skip`) have reached all neighbours.
    #[verifier::opaque]
    pub open spec fn closed_except(&self, g: Seq<u32>, q: Seq<(u64, usize)>, skip: int) -> bool {
        forall|x: int, y: int|
            0 <= x < g.len() && x != skip && g[x] != UNREACHED && #[trigger] self.step(x, y)
                && !queued(q, x) ==> g[y] != UNREACHED
    }

    /// The first `d` moves out of `(i, j)` lead to reached cells whenever they are legal, each
    /// no dearer than going through `(i, j)`.
    #[verifier::opaque]
    pub open spec fn dirs_done(&self, g: Seq<u32>, i: int, j: int, d: int) -> bool {
        forall|e: int|
            0 <= e < d && #[trigger] self.move_ok(i, j, dir_spec(e).0, dir_spec(e).1) ==> {
                let c = (j + dir_spec(e).1) * self.size + (i + dir_spec(e).0);
                &&& g[c] != UNREACHED
                &&& g[c] <= g[j * self.size + i] + dir_spec(e).2
            }
    }

    /// Cell `x` has passed its cost on: every legal move out of it reaches a cell no dearer than
    /// going through `x`.
    pub open spec fn relaxed(&self, g: Seq<u32>, x: int) -> bool {
        forall|y: int|
            #[trigger] self.step(x, y) ==> g[y] != UNREACHED && g[y] <= g[x] + self.move_cost(x, y)
    }

    /// Every reached cell but `skip` has passed its cost on, or waits in the queue scored with
    /// exactly its cost plus its estimate.
    #[verifier::opaque]
    pub open spec fn pending_ok(&self, g: Seq<u32>, q: Seq<(u64, usize)>, goal: int, skip: int) -> bool {
        forall|x: int|
            0 <= x < g.len() && x != skip && #[trigger] g[x] != UNREACHED ==> self.relaxed(g, x)
                || exists|k: int|
                0 <= k < q.len() && #[trigger] q[k].1 == x && q[k].0 == g[x] + self.estimate(x, goal)
    }

    /// No queue entry is scored below its cell's cost plus estimate.
    #[verifier::opaque]
    pub open spec fn entries_ok(&self, q: Seq<(u64, usize)>, g: Seq<u32>, goal: int) -> bool {
        forall|k: int|
            0 <= k < q.len() ==> #[trigger] q[k].0 >= g[q[k].1 as int] + self.estimate(q[k].1 as int, goal)
    }

    #[verifier::rlimit(40)]
    /// Try move `d` out of cell `idx = (i, j)`: when it is legal and cheaper than the neighbour's
    /// recorded cost, record it and queue the neighbour.
    fn relax(
        &self,
        g: &mut Vec<u32>,
        came: &mut Vec<usize>,
        open: &mut Vec<(u64, usize)>,
        start: usize,
        goal: usize,
        idx: usize,
        i: usize,
        j: usize,
        d: usize,
    )
        requires
            self.wf(),
            self.size * self.size <= MAX_GRID_SIZE * MAX_GRID_SIZE,
            old(g)@.len() == self.cells(),
            old(came)@.len() == self.cells(),
            start < self.cells(),
            goal < self.cells(),
            idx < self.cells(),
            i < self.size,
            j < self.size,
            i == self.col(idx as int),
            j == self.row(idx as int),
            idx == j * self.size + i,
            d < 8,
            old(g)@[start as int] == 0,
            old(g)@[idx as int] != UNREACHED,
            costs_bounded(old(g)@),
            self.links_ok(old(g)@, old(came)@, start as int),
            queue_ok(old(open)@, old(g)@),
            self.closed_except(old(g)@, old(open)@, idx as int),
            self.dirs_done(old(g)@, i as int, j as int, d as int),
            self.entries_ok(old(open)@, old(g)@, goal as int),
            self.pending_ok(old(g)@, old(open)@, goal as int, idx as int),
        ensures
            final(g)@.len() == self.cells(),
            final(came)@.len() == self.cells(),
            final(g)@[start as int] == 0,
            final(g)@[idx as int] == old(g)@[idx as int],
            costs_bounded(final(g)@),
            self.links_ok(final(g)@, final(came)@, start as int),
            queue_ok(final(open)@, final(g)@),
            self.closed_except(final(g)@, final(open)@, idx as int),
            self.dirs_done(final(g)@, i as int, j as int, d + 1),
            self.entries_ok(final(open)@, final(g)@, goal as int),
            self.pending_ok(final(g)@, final(open)@, goal as int, idx as int),
            sum_costs(final(g)@) + final(open)@.len() <= sum_costs(old(g)@) + old(open)@.len(),
    {
        let n = self.size;
        let (di, dj, cost) = direction(d);
        let ni = i as isize + di;
        let nj = j as isize + dj;
        let mut legal = self.free(ni, nj);
        if legal && di != 0 && dj != 0 {
            legal = self.free(i as isize + di, j as isize) && self.free(i as isize, j as isize + dj);
        }
        proof {
            assert(legal == self.move_ok(i as int, j as int, di as int, dj as int));
        }
        if !legal {
            proof {
                reveal(Grid::dirs_done);
            }
            return;
        }
        let (niu, nju) = (ni as usize, nj as usize);
        proof {
            lemma_cell_index(n as int, niu as int, nju as int);
            lemma_count_bound(g@);
            reveal(costs_bounded);
            assert(14 * count_reached(g@) <= 14 * (MAX_GRID_SIZE * MAX_GRID_SIZE));
        }
        let nidx = nju * n + niu;
        let tentative = g[idx] + cost;
        if tentative >= g[nidx] {
            proof {
                reveal(Grid::dirs_done);
            }
            return;
        }
        let ghost old_g = g@;
        let ghost old_came = came@;
        let ghost old_open = open@;
        g.set(nidx, tentative);
        came.set(nidx, idx);
        let h = self.heuristic(nidx, goal);
        let score = tentative as u64 + h;
        open.push((score, nidx));
        proof {
            lemma_relax_update(
                self, old_g, old_came, old_open, g@, came@, open@, start as int, goal as int, idx as int,
                i as int, j as int, d as int, nidx, tentative, score,
            );
        }
    }

    /// Best-first search over legal moves from `start` to `goal` (both cell indices), guided by
    /// the octile estimate; ties go to the lower cell index. Returns a cheapest chain of cells.
    fn search(&self, start: usize, goal: usize) -> (r: Option<Vec<usize>>)
        requires
            self.wf(),
            start < self.cells(),
            goal < self.cells(),
        ensures
            match r {
                Some(p) => self.is_path(p@, start as int, goal as int) && no_repeats(p@) && forall|q: Seq<usize>|
                    #[trigger] self.is_path(q, start as int, goal as int) ==> self.path_cost(p@) <= self.path_cost(q),
                None => !self.reachable(start as int, goal as int),
            },
    {
        let n = self.size;
        let total = self.blocked.len();
        let mut g: Vec<u32> = vec![UNREACHED; total];
        let mut came: Vec<usize> = vec![usize::MAX; total];
        proof {
            assert forall|k: int| 0 <= k < g@.len() implies g@[k] == UNREACHED by {
                assert(cloned(UNREACHED, g@[k]));
            }
            lemma_count_none(g@);
        }
        let ghost g0 = g@;
        g.set(start, 0);
        let mut open: Vec<(u64, usize)> = Vec::new();
        let h0 = self.heuristic(start, goal);
        open.push((h0, start));
        proof {
            lemma_count_update(g0, start as int, 0);
            assert(total <= MAX_GRID_SIZE * MAX_GRID_SIZE) by (nonlinear_arith)
                requires
                    total == n * n,
                    n <= MAX_GRID_SIZE,
            ;
            reveal(costs_bounded);
            assert forall|x: int| 0 <= x < g@.len() && #[trigger] g@[x] != UNREACHED implies x == start by {
                if x != start {
                    assert(g@[x] == g0[x]);
                }
            }
            reveal(queue_ok);
            reveal(Grid::links_ok);
            reveal(Grid::closed_except);
            reveal(Grid::entries_ok);
            reveal(Grid::pending_ok);
            assert(open@[0].1 == start);
            assert(queued(open@, start as int));
        }
        loop
            invariant_except_break
                self.closed_except(g@, open@, -1),
                self.pending_ok(g@, open@, goal as int, -1),
            invariant
                self.wf(),
                n == self.size,
                total == self.cells(),
                total <= MAX_GRID_SIZE * MAX_GRID_SIZE,
                start < total,
                goal < total,
                g@.len() == total,
                came@.len() == total,
                g@[start as int] == 0,
                costs_bounded(g@),
                self.links_ok(g@, came@, start as int),
                queue_ok(open@, g@),
                self.entries_ok(open@, g@, goal as int),
            ensures
                g@.len() == total,
                came@.len() == total,
                g@[start as int] == 0,
                self.links_ok(g@, came@, start as int),
                g@[goal as int] == UNREACHED ==> self.closed(g@),
                g@[goal as int] != UNREACHED ==> forall|q: Seq<usize>| #[trigger]
                    self.is_path(q, start as int, goal as int) ==> g@[goal as int] <= self.path_cost(q),
            decreases sum_costs(g@) + open@.len(),
        {
            if open.len() == 0 {
                proof {
                    reveal(Grid::closed_except);
                    assert forall|q: Seq<usize>| #[trigger] self.is_path(q, start as int, goal as int) implies
                        g@[goal as int] != UNREACHED ==> g@[goal as int] <= self.path_cost(q) by {
                        lemma_frontier(self, g@, open@, start as int, goal as int, q);
                    }
                }
                break;
            }
            let k = min_entry(&open);
            let ghost before = open@;
            let (_, idx) = open.swap_remove(k);
            proof {
                lemma_pop(self, g@, before, open@, k as int, goal as int);
                reveal(queue_ok);
                assert(before[k as int].1 == idx);
                assert forall|m: int| 0 <= m < open@.len() implies #[trigger] open@[m].1 < g@.len()
                    && g@[open@[m].1 as int] != UNREACHED by {
                    if m == k {
                        assert(open@[m] == before[before.len() - 1]);
                    } else {
                        assert(open@[m] == before[m]);
                    }
                }
                reveal(Grid::closed_except);
                assert forall|x: int, y: int|
                    0 <= x < g@.len() && x != idx && g@[x] != UNREACHED && #[trigger] self.step(x, y)
                        && !queued(open@, x) implies g@[y] != UNREACHED by {
                    if queued(before, x) {
                        let w = choose|w: int| 0 <= w < before.len() && #[trigger] before[w].1 == x;
                        if w == before.len() - 1 {
                            assert(open@[k as int].1 == x);
                        } else {
                            assert(open@[w].1 == x);
                        }
                    }
                }
            }
            if idx == goal {
                proof {
                    assert forall|q: Seq<usize>| #[trigger] self.is_path(q, start as int, goal as int) implies
                        g@[goal as int] != UNREACHED ==> g@[goal as int] <= self.path_cost(q) by {
                        lemma_frontier(self, g@, before, start as int, goal as int, q);
                        reveal(Grid::entries_ok);
                        assert(before[k as int].0 >= g@[goal as int] + self.estimate(goal as int, goal as int));
                    }
                }
                break;
            }
            proof {
                assert(n > 0) by (nonlinear_arith)
                    requires
                        idx < total,
                        total == n * n,
                ;
                lemma_index_cell(n as int, idx as int);
                reveal(Grid::dirs_done);
            }
            let i = idx % n;
            let j = idx / n;
            let ghost m0 = sum_costs(g@) + open@.len();
            let mut d: usize = 0;
            while d < 8
                invariant
                    self.wf(),
                    n == self.size,
                    total == self.cells(),
                    total <= MAX_GRID_SIZE * MAX_GRID_SIZE,
                    start < total,
                    goal < total,
                    idx < total,
                    i == self.col(idx as int),
                    j == self.row(idx as int),
                    i < n,
                    j < n,
                    idx == j * n + i,
                    g@[idx as int] != UNREACHED,
                    0 <= d <= 8,
                    g@.len() == total,
                    came@.len() == total,
                    g@[start as int] == 0,
                    costs_bounded(g@),
                    self.links_ok(g@, came@, start as int),
                    queue_ok(open@, g@),
                    self.closed_except(g@, open@, idx as int),
                    self.dirs_done(g@, i as int, j as int, d as int),
                    self.entries_ok(open@, g@, goal as int),
                    self.pending_ok(g@, open@, goal as int, idx as int),
                    sum_costs(g@) + open@.len() <= m0,
                decreases 8 - d,
            {
                self.relax(&mut g, &mut came, &mut open, start, goal, idx, i, j, d);
                d += 1;
            }
            proof {
                lemma_dirs_relaxed(self, g@, idx as int, i as int, j as int);
                lemma_unskip(self, g@, open@, goal as int, idx as int);
                reveal(Grid::dirs_done);
                reveal(Grid::closed_except);
                assert forall|x: int, y: int|
                    0 <= x < g@.len() && x != -1 && g@[x] != UNREACHED && #[trigger] self.step(x, y)
                        && !queued(open@, x) implies g@[y] != UNREACHED by {
                    if x == idx {
                        lemma_index_cell(n as int, y);
                        let e = lemma_dir_covers(self.col(y) - i, self.row(y) - j);
                        assert(self.move_ok(i as int, j as int, dir_spec(e).0, dir_spec(e).1));
                    }
                }
            }
        }
        if g[goal] == UNREACHED {
            proof {
                assert forall|p: Seq<usize>| !#[trigger] self.is_path(p, start as int, goal as int) by {
                    if self.is_path(p, start as int, goal as int) {
                        lemma_path_reached(self, g@, p, start as int, goal as int, p.len() - 1);
                    }
                }
            }
            return None;
        }
        let p = self.trace(&g, &came, start, goal);
        Some(p)
    }
}

/// Taking entry `k` off the queue (the last entry moves into its place) keeps every remaining
/// entry scored at or above its cell's cost plus estimate, and every reached cell other than the
/// one taken off passed on or queued with its exact score.
proof fn lemma_pop(grid: &Grid, g: Seq<u32>, before: Seq<(u64, usize)>, after: Seq<(u64, usize)>, k: int, goal: int)
    requires
        0 <= k < before.len(),
        after.len() + 1 == before.len(),
        forall|m: int| 0 <= m < after.len() && m != k ==> after[m] == before[m],
        k < after.len() ==> after[k] == before[before.len() - 1],
        grid.entries_ok(before, g, goal),
        grid.pending_ok(g, before, goal, -1),
    ensures
        grid.entries_ok(after, g, goal),
        grid.pending_ok(g, after, goal, before[k].1 as int),
{
    reveal(Grid::entries_ok);
    reveal(Grid::pending_ok);
    assert forall|m: int| 0 <= m < after.len() implies #[trigger] after[m].0 >= g[after[m].1 as int]
        + grid.estimate(after[m].1 as int, goal) by {
        if m == k {
            assert(before[before.len() - 1].0 >= g[before[before.len() - 1].1 as int]
                + grid.estimate(before[before.len() - 1].1 as int, goal));
        } else {
            assert(before[m].0 >= g[before[m].1 as int] + grid.estimate(before[m].1 as int, goal));
        }
    }
    let idx = before[k].1 as int;
    assert forall|x: int| 0 <= x < g.len() && x != idx && #[trigger] g[x] != UNREACHED implies grid.relaxed(g, x)
        || exists|w: int| 0 <= w < after.len() && #[trigger] after[w].1 == x && after[w].0 == g[x] + grid.estimate(x, goal) by {
        if !grid.relaxed(g, x) {
            assert(x != -1);
            let w = choose|w: int| 0 <= w < before.len() && #[trigger] before[w].1 == x && before[w].0 == g[x] + grid.estimate(x, goal);
            if w == before.len() - 1 {
                assert(after[k] == before[w]);
            } else {
                assert(after[w] == before[w]);
            }
        }
    }
}

/// Once cell `idx` has passed its cost on it no longer needs excusing.
proof fn lemma_unskip(grid: &Grid, g: Seq<u32>, q: Seq<(u64, usize)>, goal: int, idx: int)
    requires
        grid.pending_ok(g, q, goal, idx),
        grid.relaxed(g, idx),
    ensures
        grid.pending_ok(g, q, goal, -1),
{
    reveal(Grid::pending_ok);
}

/// Cost of the first `k + 1` cells of a chain.
pub open spec fn prefix_cost(grid: &Grid, p: Seq<usize>, k: int) -> int {
    grid.path_cost(p.subrange(0, k + 1))
}

proof fn lemma_prefix_step(grid: &Grid, p: Seq<usize>, k: int)
    requires
        0 <= k,
        k + 1 < p.len(),
    ensures
        prefix_cost(grid, p, k + 1) == prefix_cost(grid, p, k) + grid.move_cost(p[k] as int, p[k + 1] as int),
{
    let s = p.subrange(0, k + 2);
    assert(s.drop_last() =~= p.subrange(0, k + 1));
    assert(s[s.len() - 2] == p[k]);
    assert(s[s.len() - 1] == p[k + 1]);
}

/// The octile estimate never drops by more than a move costs.
proof fn lemma_estimate_step(grid: &Grid, a: int, b: int, goal: int)
    requires
        grid.step(a, b),
    ensures
        grid.estimate(a, goal) <= grid.move_cost(a, b) + grid.estimate(b, goal),
{
}

/// From any cell of a chain that ends at `goal`, the estimate is at most what the rest of the
/// chain costs.
proof fn lemma_remaining(grid: &Grid, p: Seq<usize>, start: int, goal: int, k: int)
    requires
        grid.is_path(p, start, goal),
        0 <= k < p.len(),
    ensures
        grid.estimate(p[k] as int, goal) <= grid.path_cost(p) - prefix_cost(grid, p, k),
    decreases p.len() - k,
{
    if k == p.len() - 1 {
        assert(p.subrange(0, k + 1) =~= p);
    } else {
        lemma_remaining(grid, p, start, goal, k + 1);
        lemma_prefix_step(grid, p, k);
        assert(grid.step(p[k] as int, p[k + 1] as int));
        lemma_estimate_step(grid, p[k] as int, p[k + 1] as int, goal);
    }
}

/// Walking a chain from `start`: each cell is reached no dearer than the chain so far, until a
/// cell waits in the queue scored no higher than the whole chain costs.
proof fn lemma_walk(grid: &Grid, g: Seq<u32>, q: Seq<(u64, usize)>, start: int, goal: int, p: Seq<usize>, k: int)
    requires
        grid.wf(),
        g.len() == grid.cells(),
        g[start] == 0,
        grid.pending_ok(g, q, goal, -1),
        grid.is_path(p, start, goal),
        0 <= k < p.len(),
    ensures
        (g[p[k] as int] != UNREACHED && g[p[k] as int] <= prefix_cost(grid, p, k)) || exists|m: int|
            #![trigger q[m]]
            0 <= m < q.len() && q[m].0 <= grid.path_cost(p),
    decreases k,
{
    if k == 0 {
        assert(p.subrange(0, 1).len() == 1);
    } else {
        lemma_walk(grid, g, q, start, goal, p, k - 1);
        let x = p[k - 1] as int;
        if g[x] != UNREACHED && g[x] <= prefix_cost(grid, p, k - 1) {
            lemma_prefix_step(grid, p, k - 1);
            assert(grid.step(x, p[k] as int));
            reveal(Grid::pending_ok);
            if !grid.relaxed(g, x) {
                let m = choose|m: int| 0 <= m < q.len() && #[trigger] q[m].1 == x && q[m].0 == g[x] + grid.estimate(x, goal);
                lemma_remaining(grid, p, start, goal, k - 1);
                assert(q[m].0 <= grid.path_cost(p));
            }
        }
    }
}

/// With every reached cell passed on or queued with its exact score, a chain from `start` to
/// `goal` costs at least the goal's cost, or at least some queued score.
proof fn lemma_frontier(grid: &Grid, g: Seq<u32>, q: Seq<(u64, usize)>, start: int, goal: int, p: Seq<usize>)
    requires
        grid.wf(),
        g.len() == grid.cells(),
        g[start] == 0,
        grid.pending_ok(g, q, goal, -1),
        grid.is_path(p, start, goal),
    ensures
        (g[goal] != UNREACHED && g[goal] <= grid.path_cost(p)) || exists|m: int|
            #![trigger q[m]]
            0 <= m < q.len() && q[m].0 <= grid.path_cost(p),
{
    lemma_walk(grid, g, q, start, goal, p, p.len() - 1);
    assert(p.subrange(0, p.len() as int) =~= p);
}

/// A cell whose eight moves have all been tried has passed its cost on.
proof fn lemma_dirs_relaxed(grid: &Grid, g: Seq<u32>, idx: int, i: int, j: int)
    requires
        grid.wf(),
        g.len() == grid.cells(),
        0 <= i < grid.size,
        0 <= j < grid.size,
        idx == j * grid.size + i,
        i == grid.col(idx),
        j == grid.row(idx),
        grid.dirs_done(g, i, j, 8),
    ensures
        grid.relaxed(g, idx),
{
    reveal(Grid::dirs_done);
    let n = grid.size as int;
    assert(n > 0) by (nonlinear_arith)
        requires
            0 <= i < n,
    ;
    assert forall|y: int| #[trigger] grid.step(idx, y) implies g[y] != UNREACHED && g[y] <= g[idx] + grid.move_cost(idx, y) by {
        lemma_index_cell(n, y);
        let e = lemma_dir_covers(grid.col(y) - i, grid.row(y) - j);
        assert(grid.move_ok(i, j, dir_spec(e).0, dir_spec(e).1));
        assert((j + dir_spec(e).1) * n + (i + dir_spec(e).0) == y);
    }
}

/// Cost of a chain of cells read backwards: each cell is reached from the one after it.
pub open spec fn back_cost(grid: &Grid, b: Seq<usize>) -> int
    decreases b.len(),
{
    if b.len() <= 1 {
        0
    } else {
        back_cost(grid, b.drop_last()) + grid.move_cost(b[b.len() - 1] as int, b[b.len() - 2] as int)
    }
}

/// What the predecessor link of one reached cell promises.
proof fn lemma_link(grid: &Grid, g: Seq<u32>, came: Seq<usize>, start: int, x: int)
    requires
        grid.links_ok(g, came, start),
        0 <= x < g.len(),
        g[x] != UNREACHED,
        x != start,
    ensures
        came[x] < g.len(),
        grid.step(came[x] as int, x),
        g[came[x] as int] < g[x],
        g[came[x] as int] + grid.move_cost(came[x] as int, x) <= g[x],
{
    reveal(Grid::links_ok);
}

impl Grid {
    /// The chain of cells from `start` to `goal` that the predecessor links record.
    fn trace(&self, g: &Vec<u32>, came: &Vec<usize>, start: usize, goal: usize) -> (p: Vec<usize>)
        requires
            self.wf(),
            g@.len() == self.cells(),
            came@.len() == self.cells(),
            start < self.cells(),
            goal < self.cells(),
            g@[start as int] == 0,
            g@[goal as int] != UNREACHED,
            self.links_ok(g@, came@, start as int),
        ensures
            self.is_path(p@, start as int, goal as int),
            no_repeats(p@),
            self.path_cost(p@) <= g@[goal as int],
    {
        let total = g.len();
        let mut back: Vec<usize> = Vec::new();
        back.push(goal);
        let mut cur = goal;
        while cur != start
            invariant
                total == self.cells(),
                start < total,
                g@.len() == total,
                came@.len() == total,
                g@[start as int] == 0,
                self.links_ok(g@, came@, start as int),
                cur < total,
                g@[cur as int] != UNREACHED,
                back@.len() >= 1,
                back@[0] == goal,
                back@[back@.len() - 1] == cur,
                forall|k: int| 0 <= k < back@.len() ==> #[trigger] back@[k] < total,
                forall|k: int|
                    0 <= k < back@.len() - 1 ==> self.step(back@[k + 1] as int, #[trigger] back@[k] as int),
                forall|a: int, b: int|
                    0 <= a < b < back@.len() ==> g@[#[trigger] back@[a] as int] > g@[#[trigger] back@[b] as int],
                back_cost(self, back@) + g@[cur as int] <= g@[goal as int],
            decreases g@[cur as int],
        {
            proof {
                lemma_link(self, g@, came@, start as int, cur as int);
            }
            let ghost before = back@;
            cur = came[cur];
            back.push(cur);
            proof {
                assert(back@.drop_last() =~= before);
                assert forall|a: int, b: int|
                    0 <= a < b < back@.len() implies g@[#[trigger] back@[a] as int] > g@[#[trigger] back@[b] as int] by {
                    if b == back@.len() - 1 && a < b - 1 {
                        assert(g@[back@[a] as int] > g@[back@[b - 1] as int]);
                    }
                }
            }
        }
        let mut path: Vec<usize> = Vec::new();
        let mut k = back.len();
        while k > 0
            invariant
                0 <= k <= back@.len(),
                back@.len() >= 1,
                path@.len() == back@.len() - k,
                forall|m: int| 0 <= m < path@.len() ==> #[trigger] path@[m] == back@[back@.len() - 1 - m],
                k < back@.len() ==> self.path_cost(path@) + back_cost(self, back@.subrange(0, k + 1))
                    == back_cost(self, back@),
            decreases k,
        {
            k -= 1;
            let ghost before = path@;
            path.push(back[k]);
            proof {
                assert(path@.drop_last() =~= before);
                let b = back@;
                if k + 1 < b.len() {
                    assert(b.subrange(0, k + 2).drop_last() =~= b.subrange(0, k + 1));
                } else {
                    assert(b.subrange(0, k + 1) =~= b);
                }
            }
        }
        proof {
            assert(back@.subrange(0, 1) =~= seq![back@[0]]);
            assert forall|m: int| 0 <= m < path@.len() - 1 implies self.step(#[trigger] path@[m] as int, path@[m + 1] as int) by {
                let a = back@.len() - 2 - m;
                assert(self.step(back@[a + 1] as int, back@[a] as int));
            }
            assert forall|a: int, b: int| 0 <= a < b < path@.len() implies #[trigger] path@[a] != #[trigger] path@[b] by {
                let x = back@.len() - 1 - a;
                let y = back@.len() - 1 - b;
                assert(g@[back@[y] as int] > g@[back@[x] as int]);
            }
        }
        path
    }
}

/// Cell index of grid coordinates.
pub open spec fn cell_of(n: int, c: (int, int)) -> int {
    c.1 * n + c.0
}

impl Grid {
    /// The open cell the scan around `(i0, j0)` finds first (meaningful when one is open).
    pub open spec fn nearest_cell(&self, i0: int, j0: int) -> (int, int) {
        choose|c: (int, int)| self.is_nearest_free(i0, j0, c.0, c.1)
    }

    /// What the finder promises: a passage between the cells nearest to the two endpoints.
    pub open spec fn passage_exists(&self, start: (usize, usize), goal: (usize, usize)) -> bool {
        &&& start.0 < self.size && start.1 < self.size
        &&& goal.0 < self.size && goal.1 < self.size
        &&& self.has_open_cell()
        &&& self.reachable(
            cell_of(self.size as int, self.nearest_cell(start.0 as int, start.1 as int)),
            cell_of(self.size as int, self.nearest_cell(goal.0 as int, goal.1 as int)),
        )
    }
}

/// Two cells each found first by the same scan are the same cell.
proof fn lemma_nearest_unique(grid: &Grid, i0: int, j0: int, a: (int, int), b: (int, int))
    requires
        grid.is_nearest_free(i0, j0, a.0, a.1),
        grid.is_nearest_free(i0, j0, b.0, b.1),
    ensures
        a == b,
{
    assert(grid.open_at(a.0, a.1));
    assert(grid.open_at(b.0, b.1));
    assert(!scanned_before(i0, j0, a.0, a.1, b.0, b.1));
    assert(!scanned_before(i0, j0, b.0, b.1, a.0, a.1));
}

/// A cheapest passage from the free cell nearest `start` to the free cell nearest `goal` (both
/// given as `(column, row)`), as the chain of cell indices it visits, none twice; straight moves
/// cost 10 and diagonal ones 14. `None` when an endpoint lies off the grid, no cell is free, or
/// no chain of legal moves joins the two cells.
pub fn find_route(grid: &Grid, start: (usize, usize), goal: (usize, usize)) -> (r: Option<Vec<usize>>)
    requires
        grid.wf(),
    ensures
        r is Some <==> grid.passage_exists(start, goal),
        r matches Some(p) ==> grid.is_path(
            p@,
            cell_of(grid.size as int, grid.nearest_cell(start.0 as int, start.1 as int)),
            cell_of(grid.size as int, grid.nearest_cell(goal.0 as int, goal.1 as int)),
        ) && no_repeats(p@) && forall|q: Seq<usize>|
            #[trigger] grid.is_path(
                q,
                cell_of(grid.size as int, grid.nearest_cell(start.0 as int, start.1 as int)),
                cell_of(grid.size as int, grid.nearest_cell(goal.0 as int, goal.1 as int)),
            ) ==> grid.path_cost(p@) <= grid.path_cost(q),
{
    if start.0 >= grid.size || start.1 >= grid.size || goal.0 >= grid.size || goal.1 >= grid.size {
        return None;
    }
    let s = match grid.nearest_free(start.0, start.1) {
        Some(c) => c,
        None => return None,
    };
    let t = match grid.nearest_free(goal.0, goal.1) {
        Some(c) => c,
        None => return None,
    };
    proof {
        let sc = grid.nearest_cell(start.0 as int, start.1 as int);
        let tc = grid.nearest_cell(goal.0 as int, goal.1 as int);
        assert(grid.is_nearest_free(start.0 as int, start.1 as int, s.0 as int, s.1 as int));
        lemma_nearest_unique(grid, start.0 as int, start.1 as int, sc, (s.0 as int, s.1 as int));
        lemma_nearest_unique(grid, goal.0 as int, goal.1 as int, tc, (t.0 as int, t.1 as int));
        lemma_cell_index(grid.size as int, s.0 as int, s.1 as int);
        lemma_cell_index(grid.size as int, t.0 as int, t.1 as int);
    }
    let n = grid.size;
    let total = grid.blocked.len();
    proof {
        assert(s.1 * n <= s.1 * n + s.0 < total);
        assert(t.1 * n <= t.1 * n + t.0 < total);
    }
    grid.search(s.1 * n + s.0, t.1 * n + t.0)
}

} // verus!
