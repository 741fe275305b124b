//! The wave grid: cell state, the three-phase step, and its step-rate limiter.
//!
//! A [`WaveGrid`] owns a `width x height` array of [`Cell`]s, stored flat in
//! column-major order (`index = x * height + y`). A step runs in three phases:
//!
//! * Phase A computes, for every cell, a restoring force from the mean
//!   altitude of its up-to-8 in-grid neighbors, subtracts a damping term, and
//!   clamps the result into `[-LIMIT, LIMIT]`; it also accumulates the total
//!   pre-step altitude of the whole grid.
//! * Phase B adds the acceleration to the velocity and the scaled velocity to
//!   the altitude, clamping the altitude into `[-LIMIT, LIMIT]`.
//! * Phase C adds one uniform correction, `-total / (width * height)`
//!   saturated at `SHIFT_CAP`, to every cell, pulling the mean altitude
//!   toward zero. The correction is the same for every cell and is not
//!   re-clamped against `LIMIT`, so a cell can end a step slightly outside
//!   `[-LIMIT, LIMIT]`; `ALT_BOUND` bounds how far.
//!
//! Steps happen only after [`WaveGrid::trigger`] has latched the grid active,
//! and at most once per `DELAY_MICROS` microseconds of accumulated time.
//!
//! The restoring force uses the linear law, a force exponent of one: a
//! non-unit exponent would call for fractional powers, which the fixed-point
//! arithmetic does not represent.

use crate::fixed::{clamp_i64, clamped, lemma_trunc_div_bound, trunc_div, trunc_div_i64};
use vstd::arithmetic::mul::lemma_mul_inequality;
use vstd::prelude::*;

verus! {

/// Fixed-point steps per logical unit: altitudes, velocities and
/// accelerations are stored in thousandths of a unit.
pub const SCALE: i64 = 1000;

/// Largest altitude magnitude, in fixed-point steps, that Phase B leaves in a
/// cell (500.0 units).
pub const LIMIT: i64 = 500_000;

/// Reciprocal of the particle mass of 0.1 units: dividing a force by the mass
/// multiplies it by 10.
pub const INV_MASS: i64 = 10;

/// Divisor that scales velocity down when it is integrated into altitude
/// (20.0).
pub const ACTION_RESOLUTION: i64 = 20;

/// Default per-cell damping divisor (1000.0); larger values damp less.
pub const SUSTAIN: i64 = 1000;

/// Minimum number of microseconds between two simulation steps (0.001 s).
pub const DELAY_MICROS: u64 = 1000;

/// Saturation bound for the uniform Phase C correction. It is far outside
/// the band the simulation reaches in practice (one hundred times `LIMIT`)
/// and exists so that every altitude stays within `ALT_BOUND`.
pub const SHIFT_CAP: i64 = 50_000_000;

/// Every altitude stays within this magnitude at all times: `LIMIT` from the
/// Phase B clamp plus at most `SHIFT_CAP` from one uniform correction.
pub const ALT_BOUND: i64 = LIMIT + SHIFT_CAP;

/// Saturation bound for a cell's velocity, far beyond anything a clamped
/// acceleration reaches in practice; it keeps the integration arithmetic in
/// range for any number of steps.
pub const VEL_CAP: i64 = 1_000_000_000_000;

/// Largest supported number of cells (enough for a 1024 x 1024 grid); keeps
/// the grid total within `i64` range.
pub const CELLS_MAX: usize = 1_048_576;

/// One grid location.
#[derive(Clone, Copy, Debug)]
pub struct Cell {
    /// The simulated height, the primary observable output.
    pub altitude: i64,
    /// Change of altitude per step, scaled down by `ACTION_RESOLUTION`.
    pub velocity: i64,
    /// Change of velocity per step, recomputed by Phase A.
    pub acceleration: i64,
    /// Per-cell damping divisor; at least 1.
    pub sustainability: i64,
}

/// How a public grid operation can fail: these are the only failures the
/// engine has.
#[derive(Clone, Copy, Debug, PartialEq, Eq, Structural)]
pub enum GridError {
    /// A constructor was handed a zero dimension.
    InvalidDimensions,
    /// A coordinate lay outside the grid extent.
    OutOfBounds,
}

/// The simulation engine: a fixed-size grid of cells, a one-shot activation
/// latch, and an accumulator that limits the step rate.
#[derive(Debug)]
pub struct WaveGrid {
    /// Number of columns; immutable after construction.
    pub width: usize,
    /// Number of rows; immutable after construction.
    pub height: usize,
    /// The cells, flat in column-major order: `(x, y)` lives at
    /// `x * height + y`.
    pub cells: Vec<Cell>,
    /// One-shot activation latch: set by `trigger`, never cleared.
    pub active: bool,
    /// Microseconds accumulated since the last completed step.
    pub elapsed_micros: u64,
}

/// The state every cell keeps between steps.
pub open spec fn cell_ok(c: Cell) -> bool {
    &&& -ALT_BOUND <= c.altitude <= ALT_BOUND
    &&& -VEL_CAP <= c.velocity <= VEL_CAP
    &&& -LIMIT <= c.acceleration <= LIMIT
    &&& 1 <= c.sustainability
}

/// A freshly constructed cell: everything at rest, default damping.
pub open spec fn cell_at_rest(c: Cell) -> bool {
    &&& c.altitude == 0
    &&& c.velocity == 0
    &&& c.acceleration == 0
    &&& c.sustainability == SUSTAIN
}

/// The flat index of the cell at column `x`, row `y`.
pub open spec fn grid_idx(h: int, x: int, y: int) -> int {
    x * h + y
}

/// Whether `(x, y)` lies on a `w x h` grid.
pub open spec fn in_grid(w: int, h: int, x: int, y: int) -> bool {
    0 <= x < w && 0 <= y < h
}

impl WaveGrid {
    /// Well-formedness: dimensions positive and within the supported size,
    /// the cell array complete, every cell in its stable band, and the step
    /// accumulator strictly below the step interval.
    pub open spec fn wf(self) -> bool {
        &&& 1 <= self.width
        &&& 1 <= self.height
        &&& self.width * self.height <= CELLS_MAX
        &&& self.cells@.len() == self.width * self.height
        &&& self.elapsed_micros < DELAY_MICROS
        &&& forall|i: int| 0 <= i < self.cells@.len() ==> cell_ok(#[trigger] self.cells@[i])
    }
}

/// The altitude contributed by `(x, y)` to a neighbor average: its stored
/// altitude when it lies on the grid, nothing when it lies beyond an edge.
pub open spec fn nbr_alt(pre: Seq<Cell>, w: int, h: int, x: int, y: int) -> int {
    if in_grid(w, h, x, y) {
        pre[grid_idx(h, x, y)].altitude as int
    } else {
        0
    }
}

/// Whether `(x, y)` counts as a contributing neighbor: one when on the grid,
/// zero beyond an edge.
pub open spec fn nbr_one(w: int, h: int, x: int, y: int) -> int {
    if in_grid(w, h, x, y) {
        1int
    } else {
        0int
    }
}

/// Sum of the altitudes of the up-to-8 in-grid neighbors of `(x, y)`; cells
/// beyond the boundary are skipped, not treated as zero-height neighbors.
pub open spec fn neighbor_sum(pre: Seq<Cell>, w: int, h: int, x: int, y: int) -> int {
    nbr_alt(pre, w, h, x - 1, y - 1) + nbr_alt(pre, w, h, x - 1, y) + nbr_alt(
        pre,
        w,
        h,
        x - 1,
        y + 1,
    ) + nbr_alt(pre, w, h, x, y - 1) + nbr_alt(pre, w, h, x, y + 1) + nbr_alt(
        pre,
        w,
        h,
        x + 1,
        y - 1,
    ) + nbr_alt(pre, w, h, x + 1, y) + nbr_alt(pre, w, h, x + 1, y + 1)
}

/// Number of in-grid neighbors of `(x, y)`: 8 in the interior, less along
/// edges and corners, 0 only on a single-cell grid.
pub open spec fn neighbor_count(w: int, h: int, x: int, y: int) -> int {
    nbr_one(w, h, x - 1, y - 1) + nbr_one(w, h, x - 1, y) + nbr_one(w, h, x - 1, y + 1) + nbr_one(
        w,
        h,
        x,
        y - 1,
    ) + nbr_one(w, h, x, y + 1) + nbr_one(w, h, x + 1, y - 1) + nbr_one(w, h, x + 1, y) + nbr_one(
        w,
        h,
        x + 1,
        y + 1,
    )
}

/// Phase A output for `(x, y)`: the linear restoring force toward the mean
/// neighbor altitude (skipped entirely when there are no neighbors), minus
/// velocity-proportional damping, clamped into `[-LIMIT, LIMIT]`.
pub open spec fn step_accel(pre: Seq<Cell>, w: int, h: int, x: int, y: int) -> int {
    let c = pre[grid_idx(h, x, y)];
    let cnt = neighbor_count(w, h, x, y);
    let force = if cnt > 0 {
        (trunc_div(neighbor_sum(pre, w, h, x, y), cnt) - c.altitude) * INV_MASS
    } else {
        0
    };
    clamped(force - trunc_div(c.velocity as int, c.sustainability as int), -LIMIT as int, LIMIT as int)
}

/// Phase B velocity for `(x, y)`: the old velocity plus the Phase A
/// acceleration, saturated at `VEL_CAP`.
pub open spec fn step_vel(pre: Seq<Cell>, w: int, h: int, x: int, y: int) -> int {
    clamped(
        pre[grid_idx(h, x, y)].velocity + step_accel(pre, w, h, x, y),
        -VEL_CAP as int,
        VEL_CAP as int,
    )
}

/// Sum of the altitudes of the first `n` cells, in flat order.
pub open spec fn prefix_total(pre: Seq<Cell>, n: int) -> int
    decreases n,
{
    if n <= 0 {
        0
    } else {
        prefix_total(pre, n - 1) + pre[n - 1].altitude
    }
}

/// Total altitude of the whole grid as Phase A sees it, before any cell moves.
pub open spec fn total_of(pre: Seq<Cell>) -> int {
    prefix_total(pre, pre.len() as int)
}

/// The uniform Phase C correction: minus the mean pre-step altitude, rounded
/// toward zero and saturated at `SHIFT_CAP`.
pub open spec fn shift_of(pre: Seq<Cell>, w: int, h: int) -> int {
    clamped(trunc_div(-total_of(pre), w * h), -SHIFT_CAP as int, SHIFT_CAP as int)
}

/// The altitude of `(x, y)` after Phase B: old altitude plus the scaled new
/// velocity, clamped into `[-LIMIT, LIMIT]`, before the uniform correction.
pub open spec fn settled_alt(pre: Seq<Cell>, w: int, h: int, x: int, y: int) -> int {
    clamped(
        pre[grid_idx(h, x, y)].altitude + trunc_div(step_vel(pre, w, h, x, y), ACTION_RESOLUTION as int),
        -LIMIT as int,
        LIMIT as int,
    )
}

/// The altitude of `(x, y)` after a full step: its Phase B altitude plus the
/// uniform correction, which is not re-clamped.
pub open spec fn step_alt(pre: Seq<Cell>, w: int, h: int, x: int, y: int) -> int {
    settled_alt(pre, w, h, x, y) + shift_of(pre, w, h)
}

/// What one step does to the cell at `(x, y)`: the damping divisor is kept
/// and the other three fields take their phase outputs.
pub open spec fn step_cell_ok(pre: Seq<Cell>, post: Seq<Cell>, w: int, h: int, x: int, y: int) -> bool {
    let i = grid_idx(h, x, y);
    &&& post[i].acceleration == step_accel(pre, w, h, x, y)
    &&& post[i].velocity == step_vel(pre, w, h, x, y)
    &&& post[i].altitude == step_alt(pre, w, h, x, y)
    &&& post[i].sustainability == pre[i].sustainability
}

/// The full step relation between the cell array before and after one
/// synchronous three-phase update.
pub open spec fn stepped(pre: Seq<Cell>, post: Seq<Cell>, w: int, h: int) -> bool {
    &&& post.len() == pre.len()
    &&& forall|x: int, y: int|
        in_grid(w, h, x, y) ==> #[trigger] step_cell_ok(pre, post, w, h, x, y)
}

/// What one `advance(dt)` call does: nothing while the grid is idle; pure
/// accumulation while the step interval is not yet full; otherwise a reset of the
/// accumulator and exactly one step over the pre-call cells.
pub open spec fn advance_rel(pre: WaveGrid, post: WaveGrid, dt: u64) -> bool {
    &&& post.width == pre.width
    &&& post.height == pre.height
    &&& post.active == pre.active
    &&& if !pre.active {
        post.cells@ == pre.cells@ && post.elapsed_micros == pre.elapsed_micros
    } else if pre.elapsed_micros + dt < DELAY_MICROS {
        post.cells@ == pre.cells@ && post.elapsed_micros == pre.elapsed_micros + dt
    } else {
        stepped(pre.cells@, post.cells@, pre.width as int, pre.height as int)
            && post.elapsed_micros == 0
    }
}

impl Default for Cell {
    /// A cell at rest: no height, no motion, default damping.
    fn default() -> (c: Cell)
        ensures
            cell_at_rest(c),
            cell_ok(c),
    {
        Cell { altitude: 0, velocity: 0, acceleration: 0, sustainability: SUSTAIN }
    }
}

impl WaveGrid {
    /// Allocate a `width x height` grid with every cell at rest and the
    /// simulation idle. Fails exactly on a zero dimension.
    pub fn new(width: usize, height: usize) -> (r: Result<WaveGrid, GridError>)
        requires
            width * height <= CELLS_MAX,
        ensures
            r is Ok <==> (width >= 1 && height >= 1),
            r is Err ==> r == Err::<WaveGrid, GridError>(GridError::InvalidDimensions),
            r is Ok ==> (r->Ok_0).wf(),
            r is Ok ==> (r->Ok_0).width == width && (r->Ok_0).height == height,
            r is Ok ==> !(r->Ok_0).active && (r->Ok_0).elapsed_micros == 0,
            r is Ok ==> forall|i: int|
                0 <= i < (r->Ok_0).cells@.len() ==> cell_at_rest(#[trigger] (r->Ok_0).cells@[i]),
    {
        if width == 0 || height == 0 {
            return Err(GridError::InvalidDimensions);
        }
        let n = width * height;
        let mut cells: Vec<Cell> = Vec::new();
        while cells.len() < n
            invariant
                cells@.len() <= n,
                forall|i: int|
                    0 <= i < cells@.len() ==> cell_at_rest(#[trigger] cells@[i]) && cell_ok(
                        cells@[i],
                    ),
            decreases n - cells@.len(),
        {
            cells.push(Cell::default());
        }
        Ok(WaveGrid { width, height, cells, active: false, elapsed_micros: 0 })
    }

    /// Latch the simulation active for the rest of the session. There is no
    /// way to deactivate it again: the latch mirrors a one-shot "start the
    /// waves" event.
    pub fn trigger(&mut self)
        requires
            old(self).wf(),
        ensures
            final(self).wf(),
            final(self).active,
            final(self).width == old(self).width,
            final(self).height == old(self).height,
            final(self).cells@ == old(self).cells@,
            final(self).elapsed_micros == old(self).elapsed_micros,
    {
        self.active = true;
    }

    /// Read the altitude of the cell at `(x, y)`. Fails exactly when the
    /// coordinate lies outside the grid.
    pub fn altitude_at(&self, x: usize, y: usize) -> (r: Result<i64, GridError>)
        requires
            self.wf(),
        ensures
            r is Ok <==> (x < self.width && y < self.height),
            r is Err ==> r == Err::<i64, GridError>(GridError::OutOfBounds),
            r is Ok ==> r->Ok_0 == self.cells@[grid_idx(self.height as int, x as int, y as int)].altitude,
    {
        if x >= self.width || y >= self.height {
            return Err(GridError::OutOfBounds);
        }
        proof {
            lemma_grid_idx_in_range(self.width as int, self.height as int, x as int, y as int);
        }
        let i = x * self.height + y;
        Ok(self.cells[i].altitude)
    }

    /// Seed the cell at `(x, y)` with an initial altitude, leaving its
    /// motion state alone. Fails exactly when the coordinate lies outside
    /// the grid, and then changes nothing.
    pub fn set_altitude(&mut self, x: usize, y: usize, value: i64) -> (r: Result<(), GridError>)
        requires
            old(self).wf(),
            -LIMIT <= value <= LIMIT,
        ensures
            final(self).wf(),
            r is Ok <==> (x < old(self).width && y < old(self).height),
            r is Err ==> r == Err::<(), GridError>(GridError::OutOfBounds) && final(self).cells@
                == old(self).cells@,
            final(self).width == old(self).width,
            final(self).height == old(self).height,
            final(self).active == old(self).active,
            final(self).elapsed_micros == old(self).elapsed_micros,
            r is Ok ==> ({
                let i = grid_idx(old(self).height as int, x as int, y as int);
                &&& final(self).cells@.len() == old(self).cells@.len()
                &&& final(self).cells@[i].altitude == value
                &&& final(self).cells@[i].velocity == old(self).cells@[i].velocity
                &&& final(self).cells@[i].acceleration == old(self).cells@[i].acceleration
                &&& final(self).cells@[i].sustainability == old(self).cells@[i].sustainability
                &&& forall|j: int|
                    0 <= j < old(self).cells@.len() && j != i ==> final(self).cells@[j] == old(
                        self,
                    ).cells@[j]
            }),
    {
        if x >= self.width || y >= self.height {
            return Err(GridError::OutOfBounds);
        }
        proof {
            lemma_grid_idx_in_range(self.width as int, self.height as int, x as int, y as int);
        }
        let i = x * self.height + y;
        let mut c = self.cells[i];
        c.altitude = value;
        self.cells.set(i, c);
        Ok(())
    }
}

impl WaveGrid {
    /// Phase A over the whole grid: recompute every acceleration from the
    /// pre-step altitudes and velocities, and return the total pre-step
    /// altitude for the Phase C correction.
    #[verifier::loop_isolation(false)]
    #[verifier::rlimit(100)]
    fn accel_pass(&mut self) -> (total: i64)
        requires
            old(self).wf(),
        ensures
            final(self).width == old(self).width,
            final(self).height == old(self).height,
            final(self).active == old(self).active,
            final(self).elapsed_micros == old(self).elapsed_micros,
            final(self).cells@.len() == old(self).cells@.len(),
            forall|j: int|
                0 <= j < old(self).cells@.len() ==> same_but_accel(
                    old(self).cells@[j],
                    #[trigger] final(self).cells@[j],
                ),
            forall|x: int, y: int|
                in_grid(old(self).width as int, old(self).height as int, x, y)
                    ==> final(self).cells@[grid_idx(old(self).height as int, x, y)].acceleration
                    == #[trigger] step_accel(
                    old(self).cells@,
                    old(self).width as int,
                    old(self).height as int,
                    x,
                    y,
                ),
            total == total_of(old(self).cells@),
    {
        let ghost pre = self.cells@;
        let ghost wi = self.width as int;
        let ghost hi = self.height as int;
        let w = self.width;
        let h = self.height;
        let mut total: i64 = 0;
        let mut x: usize = 0;
        while x < w
            invariant
                x <= w,
                self.width == w,
                self.height == h,
                self.active == old(self).active,
                self.elapsed_micros == old(self).elapsed_micros,
                self.cells@.len() == pre.len(),
                forall|j: int|
                    0 <= j < pre.len() ==> same_but_accel(pre[j], #[trigger] self.cells@[j]),
                forall|xj: int, yj: int|
                    in_grid(wi, hi, xj, yj) && xj < x
                        ==> self.cells@[grid_idx(hi, xj, yj)].acceleration == #[trigger] step_accel(
                        pre,
                        wi,
                        hi,
                        xj,
                        yj,
                    ),
                total == prefix_total(pre, x as int * hi),
                -(x as int * hi * ALT_BOUND) <= total <= x as int * hi * ALT_BOUND,
            decreases w - x,
        {
            let mut y: usize = 0;
            while y < h
                invariant
                    y <= h,
                    x < w,
                    self.width == w,
                    self.height == h,
                    self.active == old(self).active,
                    self.elapsed_micros == old(self).elapsed_micros,
                    self.cells@.len() == pre.len(),
                    forall|j: int|
                        0 <= j < pre.len() ==> same_but_accel(pre[j], #[trigger] self.cells@[j]),
                    forall|xj: int, yj: int|
                        in_grid(wi, hi, xj, yj) && (xj < x || (xj == x && yj < y))
                            ==> self.cells@[grid_idx(hi, xj, yj)].acceleration
                            == #[trigger] step_accel(pre, wi, hi, xj, yj),
                    total == prefix_total(pre, x as int * hi + y),
                    -((x as int * hi + y) * ALT_BOUND) <= total <= (x as int * hi + y)
                        * ALT_BOUND,
                decreases h - y,
            {
                proof {
                    lemma_grid_idx_in_range(wi, hi, x as int, y as int);
                }
                let i = x * h + y;
                let c = self.cells[i];
                proof {
                    assert(same_but_accel(pre[i as int], self.cells@[i as int]));
                    assert(cell_ok(pre[i as int]));
                }
                total = total + c.altitude;

                let mut hsum: i64 = 0;
                let mut cnt: i64 = 0;
                if x > 0 && y > 0 {
                    proof {
                        lemma_grid_idx_in_range(wi, hi, x as int - 1, y as int - 1);
                        assert(cell_ok(pre[grid_idx(hi, x as int - 1, y as int - 1)]));
                    }
                    hsum = hsum + self.cells[(x - 1) * h + (y - 1)].altitude;
                    cnt = cnt + 1;
                }
                if x > 0 {
                    proof {
                        lemma_grid_idx_in_range(wi, hi, x as int - 1, y as int);
                        assert(cell_ok(pre[grid_idx(hi, x as int - 1, y as int)]));
                    }
                    hsum = hsum + self.cells[(x - 1) * h + y].altitude;
                    cnt = cnt + 1;
                }
                if x > 0 && y + 1 < h {
                    proof {
                        lemma_grid_idx_in_range(wi, hi, x as int - 1, y as int + 1);
                        assert(cell_ok(pre[grid_idx(hi, x as int - 1, y as int + 1)]));
                    }
                    hsum = hsum + self.cells[(x - 1) * h + (y + 1)].altitude;
                    cnt = cnt + 1;
                }
                if y > 0 {
                    proof {
                        lemma_grid_idx_in_range(wi, hi, x as int, y as int - 1);
                        assert(cell_ok(pre[grid_idx(hi, x as int, y as int - 1)]));
                    }
                    hsum = hsum + self.cells[x * h + (y - 1)].altitude;
                    cnt = cnt + 1;
                }
                if y + 1 < h {
                    proof {
                        lemma_grid_idx_in_range(wi, hi, x as int, y as int + 1);
                        assert(cell_ok(pre[grid_idx(hi, x as int, y as int + 1)]));
                    }
                    hsum = hsum + self.cells[x * h + (y + 1)].altitude;
                    cnt = cnt + 1;
                }
                if x + 1 < w && y > 0 {
                    proof {
                        lemma_grid_idx_in_range(wi, hi, x as int + 1, y as int - 1);
                        assert(cell_ok(pre[grid_idx(hi, x as int + 1, y as int - 1)]));
                    }
                    hsum = hsum + self.cells[(x + 1) * h + (y - 1)].altitude;
                    cnt = cnt + 1;
                }
                if x + 1 < w {
                    proof {
                        lemma_grid_idx_in_range(wi, hi, x as int + 1, y as int);
                        assert(cell_ok(pre[grid_idx(hi, x as int + 1, y as int)]));
                    }
                    hsum = hsum + self.cells[(x + 1) * h + y].altitude;
                    cnt = cnt + 1;
                }
                if x + 1 < w && y + 1 < h {
                    proof {
                        lemma_grid_idx_in_range(wi, hi, x as int + 1, y as int + 1);
                        assert(cell_ok(pre[grid_idx(hi, x as int + 1, y as int + 1)]));
                    }
                    hsum = hsum + self.cells[(x + 1) * h + (y + 1)].altitude;
                    cnt = cnt + 1;
                }
                proof {
                    assert(hsum == neighbor_sum(pre, wi, hi, x as int, y as int));
                    assert(cnt == neighbor_count(wi, hi, x as int, y as int));
                }

                let acc_raw: i64 = if cnt > 0 {
                    let mean = trunc_div_i64(hsum, cnt);
                    proof {
                        lemma_trunc_div_bound(hsum as int, cnt as int, ALT_BOUND as int);
                    }
                    (mean - c.altitude) * INV_MASS
                } else {
                    0
                };
                let damp = trunc_div_i64(c.velocity, c.sustainability);
                proof {
                    lemma_trunc_div_bound(
                        c.velocity as int,
                        c.sustainability as int,
                        VEL_CAP as int,
                    );
                }
                let a_new = clamp_i64(acc_raw - damp, -LIMIT, LIMIT);
                let mut c2 = c;
                c2.acceleration = a_new;
                self.cells.set(i, c2);
                proof {
                    assert(self.cells@[i as int].acceleration == step_accel(
                        pre,
                        wi,
                        hi,
                        x as int,
                        y as int,
                    ));
                    assert forall|xj: int, yj: int|
                        in_grid(wi, hi, xj, yj) && (xj < x || (xj == x && yj < y
                            + 1)) implies self.cells@[grid_idx(hi, xj, yj)].acceleration
                        == #[trigger] step_accel(pre, wi, hi, xj, yj) by {
                        if xj != x as int || yj != y as int {
                            lemma_lex_lt_idx(hi, xj, yj, x as int, y as int);
                        }
                    }
                }
                y = y + 1;
            }
            proof {
                assert(x as int * hi + hi == (x as int + 1) * hi) by (nonlinear_arith);
            }
            x = x + 1;
        }
        total
    }
}

impl WaveGrid {
    /// Phases B and C over the whole grid: integrate every Phase A
    /// acceleration into velocity and altitude, clamp the altitude, and add
    /// the uniform correction `s`.
    #[verifier::loop_isolation(false)]
    #[verifier::rlimit(50)]
    fn integrate_pass(&mut self, s: i64, Ghost(pre): Ghost<Seq<Cell>>)
        requires
            1 <= old(self).width,
            1 <= old(self).height,
            old(self).width * old(self).height <= CELLS_MAX,
            old(self).cells@.len() == old(self).width * old(self).height,
            pre.len() == old(self).cells@.len(),
            forall|j: int| 0 <= j < pre.len() ==> cell_ok(#[trigger] pre[j]),
            forall|j: int|
                0 <= j < pre.len() ==> same_but_accel(pre[j], #[trigger] old(self).cells@[j]),
            forall|x: int, y: int|
                in_grid(old(self).width as int, old(self).height as int, x, y)
                    ==> old(self).cells@[grid_idx(old(self).height as int, x, y)].acceleration
                    == #[trigger] step_accel(
                    pre,
                    old(self).width as int,
                    old(self).height as int,
                    x,
                    y,
                ),
            s == shift_of(pre, old(self).width as int, old(self).height as int),
        ensures
            final(self).width == old(self).width,
            final(self).height == old(self).height,
            final(self).active == old(self).active,
            final(self).elapsed_micros == old(self).elapsed_micros,
            final(self).cells@.len() == old(self).cells@.len(),
            stepped(
                pre,
                final(self).cells@,
                old(self).width as int,
                old(self).height as int,
            ),
            forall|j: int| 0 <= j < final(self).cells@.len() ==> cell_ok(#[trigger] final(self).cells@[j]),
    {
        let ghost wi = self.width as int;
        let ghost hi = self.height as int;
        let w = self.width;
        let h = self.height;
        let mut x: usize = 0;
        while x < w
            invariant
                x <= w,
                self.width == w,
                self.height == h,
                self.active == old(self).active,
                self.elapsed_micros == old(self).elapsed_micros,
                self.cells@.len() == pre.len(),
                forall|xj: int, yj: int|
                    in_grid(wi, hi, xj, yj) && xj < x ==> #[trigger] step_cell_ok(
                        pre,
                        self.cells@,
                        wi,
                        hi,
                        xj,
                        yj,
                    ),
                forall|xj: int, yj: int|
                    in_grid(wi, hi, xj, yj) && xj >= x ==> #[trigger] self.cells@[grid_idx(
                        hi,
                        xj,
                        yj,
                    )] == old(self).cells@[grid_idx(hi, xj, yj)],
            decreases w - x,
        {
            let mut y: usize = 0;
            while y < h
                invariant
                    y <= h,
                    x < w,
                    self.width == w,
                    self.height == h,
                    self.active == old(self).active,
                    self.elapsed_micros == old(self).elapsed_micros,
                    self.cells@.len() == pre.len(),
                    forall|xj: int, yj: int|
                        in_grid(wi, hi, xj, yj) && (xj < x || (xj == x && yj < y))
                            ==> #[trigger] step_cell_ok(pre, self.cells@, wi, hi, xj, yj),
                    forall|xj: int, yj: int|
                        in_grid(wi, hi, xj, yj) && (xj > x || (xj == x && yj >= y))
                            ==> #[trigger] self.cells@[grid_idx(hi, xj, yj)] == old(
                            self,
                        ).cells@[grid_idx(hi, xj, yj)],
                decreases h - y,
            {
                proof {
                    lemma_grid_idx_in_range(wi, hi, x as int, y as int);
                }
                let i = x * h + y;
                let c = self.cells[i];
                proof {
                    assert(grid_idx(hi, x as int, y as int) == i as int);
                    assert(self.cells@[grid_idx(hi, x as int, y as int)] == old(
                        self,
                    ).cells@[grid_idx(hi, x as int, y as int)]);
                    assert(c == old(self).cells@[i as int]);
                    assert(same_but_accel(pre[i as int], old(self).cells@[i as int]));
                    assert(cell_ok(pre[i as int]));
                    assert(c.acceleration == step_accel(pre, wi, hi, x as int, y as int));
                }
                let v = clamp_i64(c.velocity + c.acceleration, -VEL_CAP, VEL_CAP);
                let dv = trunc_div_i64(v, ACTION_RESOLUTION);
                proof {
                    lemma_trunc_div_bound(v as int, ACTION_RESOLUTION as int, VEL_CAP as int);
                }
                let alt_b = clamp_i64(c.altitude + dv, -LIMIT, LIMIT);
                let alt_c = alt_b + s;
                let ghost cs0 = self.cells@;
                let mut c2 = c;
                c2.velocity = v;
                c2.altitude = alt_c;
                self.cells.set(i, c2);
                proof {
                    assert(v == step_vel(pre, wi, hi, x as int, y as int));
                    assert(alt_b == settled_alt(pre, wi, hi, x as int, y as int));
                    assert(step_cell_ok(pre, self.cells@, wi, hi, x as int, y as int));
                    assert forall|xj: int, yj: int|
                        in_grid(wi, hi, xj, yj) && (xj < x || (xj == x && yj < y
                            + 1)) implies #[trigger] step_cell_ok(
                        pre,
                        self.cells@,
                        wi,
                        hi,
                        xj,
                        yj,
                    ) by {
                        if xj != x as int || yj != y as int {
                            lemma_lex_lt_idx(hi, xj, yj, x as int, y as int);
                            assert(step_cell_ok(pre, cs0, wi, hi, xj, yj));
                            assert(self.cells@[grid_idx(hi, xj, yj)] == cs0[grid_idx(hi, xj, yj)]);
                        }
                    }
                    assert forall|xj: int, yj: int|
                        in_grid(wi, hi, xj, yj) && (xj > x || (xj == x && yj >= y
                            + 1)) implies #[trigger] self.cells@[grid_idx(hi, xj, yj)] == old(
                        self,
                    ).cells@[grid_idx(hi, xj, yj)] by {
                        lemma_lex_lt_idx(hi, x as int, y as int, xj, yj);
                        lemma_grid_idx_in_range(wi, hi, xj, yj);
                        assert(cs0[grid_idx(hi, xj, yj)] == old(self).cells@[grid_idx(hi, xj, yj)]);
                        assert(self.cells@[grid_idx(hi, xj, yj)] == cs0[grid_idx(hi, xj, yj)]);
                    }
                }
                y = y + 1;
            }
            x = x + 1;
        }
        proof {
            assert forall|j: int| 0 <= j < self.cells@.len() implies cell_ok(
                #[trigger] self.cells@[j],
            ) by {
                lemma_flat_to_pair(wi, hi, j);
                assert(step_cell_ok(pre, self.cells@, wi, hi, j / hi, j % hi));
                assert(cell_ok(pre[grid_idx(hi, j / hi, j % hi)]));
            }
        }
    }

    /// One synchronous simulation step: Phase A over the whole grid, then
    /// Phases B and C, with the Phase A barrier in between so that every
    /// neighbor read sees pre-step altitudes.
    fn step(&mut self)
        requires
            old(self).wf(),
        ensures
            final(self).wf(),
            final(self).width == old(self).width,
            final(self).height == old(self).height,
            final(self).active == old(self).active,
            final(self).elapsed_micros == old(self).elapsed_micros,
            stepped(
                old(self).cells@,
                final(self).cells@,
                old(self).width as int,
                old(self).height as int,
            ),
    {
        let ghost pre = self.cells@;
        let ghost wi = self.width as int;
        let ghost hi = self.height as int;
        let total = self.accel_pass();
        proof {
            lemma_prefix_total_bound(pre, pre.len() as int);
            vstd::arithmetic::mul::lemma_mul_inequality(
                pre.len() as int,
                CELLS_MAX as int,
                ALT_BOUND as int,
            );
        }
        proof {
            assert(wi * hi >= 1) by (nonlinear_arith)
                requires
                    wi >= 1,
                    hi >= 1,
            ;
        }
        let n = self.width * self.height;
        let raw = trunc_div_i64(-total, n as i64);
        proof {
            lemma_trunc_div_bound(-total as int, n as int, ALT_BOUND as int);
        }
        let s = clamp_i64(raw, -SHIFT_CAP, SHIFT_CAP);
        proof {
            assert(s == shift_of(pre, wi, hi));
        }
        self.integrate_pass(s, Ghost(pre));
    }

    /// Account for `dt_micros` elapsed microseconds. While the grid is idle
    /// this changes nothing at all; once triggered, time accumulates until
    /// `DELAY_MICROS` is reached, and then exactly one step runs and the
    /// accumulator resets to zero.
    pub fn advance(&mut self, dt_micros: u64)
        requires
            old(self).wf(),
        ensures
            final(self).wf(),
            advance_rel(*old(self), *final(self), dt_micros),
    {
        if !self.active {
            return ;
        }
        let remaining = DELAY_MICROS - self.elapsed_micros;
        if dt_micros < remaining {
            self.elapsed_micros = self.elapsed_micros + dt_micros;
        } else {
            self.elapsed_micros = 0;
            self.step();
        }
    }
}

/// What Phase A leaves alone: everything in a cell except the acceleration.
pub open spec fn same_but_accel(a: Cell, b: Cell) -> bool {
    &&& b.altitude == a.altitude
    &&& b.velocity == a.velocity
    &&& b.sustainability == a.sustainability
}

/// A prefix total of cells in their stable band stays within `n` times the
/// altitude bound.
pub proof fn lemma_prefix_total_bound(pre: Seq<Cell>, n: int)
    requires
        0 <= n <= pre.len(),
        forall|j: int| 0 <= j < pre.len() ==> cell_ok(#[trigger] pre[j]),
    ensures
        -(n * ALT_BOUND) <= prefix_total(pre, n) <= n * ALT_BOUND,
    decreases n,
{
    if n > 0 {
        lemma_prefix_total_bound(pre, n - 1);
        assert(cell_ok(pre[n - 1]));
    }
}

/// Walking the grid in column-major order visits flat indices in strictly
/// increasing order.
proof fn lemma_lex_lt_idx(h: int, xa: int, ya: int, xb: int, yb: int)
    requires
        0 <= ya < h,
        0 <= yb < h,
        xa >= 0,
        xa < xb || (xa == xb && ya < yb),
    ensures
        grid_idx(h, xa, ya) < grid_idx(h, xb, yb),
{
    assert(xa * h + ya < xb * h + yb) by (nonlinear_arith)
        requires
            0 <= ya < h,
            0 <= yb < h,
            xa >= 0,
            xa < xb || (xa == xb && ya < yb),
    ;
}

/// Every flat index below `w * h` is the index of exactly the in-grid
/// coordinate recovered by dividing by the column height.
pub proof fn lemma_flat_to_pair(w: int, h: int, i: int)
    requires
        1 <= w,
        1 <= h,
        0 <= i < w * h,
    ensures
        in_grid(w, h, i / h, i % h),
        grid_idx(h, i / h, i % h) == i,
{
    vstd::arithmetic::div_mod::lemma_fundamental_div_mod(i, h);
    assert(i == h * (i / h) + (i % h));
    vstd::arithmetic::div_mod::lemma_mod_division_less_than_divisor(i, h);
    assert(0 <= i % h < h);
    vstd::arithmetic::div_mod::lemma_div_pos_is_pos(i, h);
    assert(0 <= i / h);
    assert(h * (i / h) == (i / h) * h) by (nonlinear_arith);
    if i / h >= w {
        lemma_mul_inequality(w, i / h, h);
        assert(w * h <= (i / h) * h);
        assert(false);
    }
    assert(grid_idx(h, i / h, i % h) == (i / h) * h + (i % h));
}

/// On a `w x h` grid, the flat index of an in-grid coordinate lies within
/// the cell array.
pub proof fn lemma_grid_idx_in_range(w: int, h: int, x: int, y: int)
    requires
        in_grid(w, h, x, y),
    ensures
        0 <= grid_idx(h, x, y) < w * h,
        grid_idx(h, x, y) == x * h + y,
{
    assert(x * h + y < w * h) by (nonlinear_arith)
        requires
            0 <= x < w,
            0 <= y < h,
    ;
    assert(x * h >= 0) by (nonlinear_arith)
        requires
            x >= 0,
            h >= 0,
    ;
}

} // verus!
