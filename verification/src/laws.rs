//! Proved laws of the simulation: boundedness of a step's outputs, idle
//! invariance, exactness of the step-rate limit, preservation of mirror
//! symmetry, and uniformity of the mean correction.

use crate::fixed::trunc_div;
use crate::grid::{
    advance_rel, grid_idx, in_grid, lemma_flat_to_pair, neighbor_count, neighbor_sum, nbr_alt,
    nbr_one, prefix_total, settled_alt, shift_of, step_accel, step_cell_ok, step_vel, stepped,
    total_of, Cell, WaveGrid, DELAY_MICROS, LIMIT, SHIFT_CAP,
};
use vstd::prelude::*;

verus! {

/// Boundedness: a completed step leaves every acceleration in
/// `[-LIMIT, LIMIT]` and every altitude within `LIMIT` of the uniform
/// correction, which is itself bounded by `SHIFT_CAP`; the correction is the
/// only way a cell ends a step outside `[-LIMIT, LIMIT]`.
pub proof fn lemma_step_bounded(pre: Seq<Cell>, post: Seq<Cell>, w: int, h: int)
    requires
        1 <= w,
        1 <= h,
        pre.len() == w * h,
        stepped(pre, post, w, h),
    ensures
        -SHIFT_CAP <= shift_of(pre, w, h) <= SHIFT_CAP,
        forall|x: int, y: int|
            #![trigger grid_idx(h, x, y)]
            in_grid(w, h, x, y) ==> -LIMIT <= post[grid_idx(h, x, y)].acceleration <= LIMIT,
        forall|x: int, y: int|
            #![trigger grid_idx(h, x, y)]
            in_grid(w, h, x, y) ==> -LIMIT + shift_of(pre, w, h) <= post[grid_idx(
                h,
                x,
                y,
            )].altitude <= LIMIT + shift_of(pre, w, h),
{
    assert forall|x: int, y: int| #![trigger grid_idx(h, x, y)]
        in_grid(w, h, x, y) implies -LIMIT <= post[grid_idx(h, x, y)].acceleration <= LIMIT
        && -LIMIT + shift_of(pre, w, h) <= post[grid_idx(h, x, y)].altitude <= LIMIT + shift_of(
        pre,
        w,
        h,
    ) by {
        assert(step_cell_ok(pre, post, w, h, x, y));
    }
}

/// Idle invariance: before `trigger` has latched the grid active, an
/// `advance` call of any length changes neither the cells nor the
/// accumulator, and leaves the grid idle, so any chain of such calls
/// changes nothing either.
pub proof fn lemma_idle_invariance(g0: WaveGrid, g1: WaveGrid, dt: u64)
    requires
        !g0.active,
        advance_rel(g0, g1, dt),
    ensures
        g1.cells@ == g0.cells@,
        g1.elapsed_micros == g0.elapsed_micros,
        !g1.active,
        g1.width == g0.width,
        g1.height == g0.height,
{
}

/// The step relation pins the post-state down completely: two cell arrays
/// stepped from the same pre-state are equal.
pub proof fn lemma_step_deterministic(pre: Seq<Cell>, p1: Seq<Cell>, p2: Seq<Cell>, w: int, h: int)
    requires
        1 <= w,
        1 <= h,
        pre.len() == w * h,
        stepped(pre, p1, w, h),
        stepped(pre, p2, w, h),
    ensures
        p1 == p2,
{
    assert forall|j: int| 0 <= j < p1.len() implies p1[j] == p2[j] by {
        lemma_flat_to_pair(w, h, j);
        assert(step_cell_ok(pre, p1, w, h, j / h, j % h));
        assert(step_cell_ok(pre, p2, w, h, j / h, j % h));
    }
    assert(p1 =~= p2);
}

/// Rate gating: accumulation is exact. If a first call does not fill the
/// step interval, following it with a second call leaves the grid in exactly the
/// state one call with the summed elapsed time produces - whether or not
/// the sum fills the step interval.
pub proof fn lemma_rate_gating(
    g0: WaveGrid,
    ga: WaveGrid,
    gb: WaveGrid,
    gc: WaveGrid,
    d1: u64,
    d2: u64,
)
    requires
        g0.wf(),
        g0.active,
        g0.elapsed_micros + d1 < DELAY_MICROS,
        d1 + d2 <= u64::MAX,
        advance_rel(g0, ga, d1),
        advance_rel(ga, gb, d2),
        advance_rel(g0, gc, (d1 + d2) as u64),
    ensures
        gb.cells@ == gc.cells@,
        gb.elapsed_micros == gc.elapsed_micros,
        gb.active == gc.active,
        gb.width == gc.width,
        gb.height == gc.height,
{
    assert(ga.cells@ == g0.cells@);
    assert(ga.elapsed_micros == g0.elapsed_micros + d1);
    if ga.elapsed_micros + d2 < DELAY_MICROS {
        assert(gb.cells@ == g0.cells@);
        assert(gc.cells@ == g0.cells@);
    } else {
        assert(stepped(g0.cells@, gb.cells@, g0.width as int, g0.height as int));
        assert(stepped(g0.cells@, gc.cells@, g0.width as int, g0.height as int));
        lemma_step_deterministic(
            g0.cells@,
            gb.cells@,
            gc.cells@,
            g0.width as int,
            g0.height as int,
        );
    }
}

/// The cell at `(x, y)` mirrors the cell at the same row on the opposite
/// side of the vertical midline.
pub open spec fn mirror_cell(cells: Seq<Cell>, w: int, h: int, x: int, y: int) -> bool {
    cells[grid_idx(h, x, y)] == cells[grid_idx(h, w - 1 - x, y)]
}

/// The whole grid is mirror-symmetric about the vertical midline.
pub open spec fn mirror_sym(cells: Seq<Cell>, w: int, h: int) -> bool {
    forall|x: int, y: int| in_grid(w, h, x, y) ==> #[trigger] mirror_cell(cells, w, h, x, y)
}

/// Symmetry: a step maps a mirror-symmetric grid to a mirror-symmetric
/// grid, because boundary truncation, the neighborhood shape, and the
/// uniform correction are all symmetric about the midline.
pub proof fn lemma_step_preserves_symmetry(pre: Seq<Cell>, post: Seq<Cell>, w: int, h: int)
    requires
        1 <= w,
        1 <= h,
        pre.len() == w * h,
        stepped(pre, post, w, h),
        mirror_sym(pre, w, h),
    ensures
        mirror_sym(post, w, h),
{
    assert forall|x: int, y: int| in_grid(w, h, x, y) implies #[trigger] mirror_cell(
        post,
        w,
        h,
        x,
        y,
    ) by {
        let mx = w - 1 - x;
        assert(in_grid(w, h, mx, y));
        assert(step_cell_ok(pre, post, w, h, x, y));
        assert(step_cell_ok(pre, post, w, h, mx, y));
        assert(mirror_cell(pre, w, h, x, y));
        if in_grid(w, h, x - 1, y - 1) {
            assert(mirror_cell(pre, w, h, x - 1, y - 1));
        }
        if in_grid(w, h, x - 1, y) {
            assert(mirror_cell(pre, w, h, x - 1, y));
        }
        if in_grid(w, h, x - 1, y + 1) {
            assert(mirror_cell(pre, w, h, x - 1, y + 1));
        }
        if in_grid(w, h, x, y - 1) {
            assert(mirror_cell(pre, w, h, x, y - 1));
        }
        if in_grid(w, h, x, y + 1) {
            assert(mirror_cell(pre, w, h, x, y + 1));
        }
        if in_grid(w, h, x + 1, y - 1) {
            assert(mirror_cell(pre, w, h, x + 1, y - 1));
        }
        if in_grid(w, h, x + 1, y) {
            assert(mirror_cell(pre, w, h, x + 1, y));
        }
        if in_grid(w, h, x + 1, y + 1) {
            assert(mirror_cell(pre, w, h, x + 1, y + 1));
        }
        assert(nbr_alt(pre, w, h, x - 1, y - 1) == nbr_alt(pre, w, h, mx + 1, y - 1));
        assert(nbr_alt(pre, w, h, x - 1, y) == nbr_alt(pre, w, h, mx + 1, y));
        assert(nbr_alt(pre, w, h, x - 1, y + 1) == nbr_alt(pre, w, h, mx + 1, y + 1));
        assert(nbr_alt(pre, w, h, x, y - 1) == nbr_alt(pre, w, h, mx, y - 1));
        assert(nbr_alt(pre, w, h, x, y + 1) == nbr_alt(pre, w, h, mx, y + 1));
        assert(nbr_alt(pre, w, h, x + 1, y - 1) == nbr_alt(pre, w, h, mx - 1, y - 1));
        assert(nbr_alt(pre, w, h, x + 1, y) == nbr_alt(pre, w, h, mx - 1, y));
        assert(nbr_alt(pre, w, h, x + 1, y + 1) == nbr_alt(pre, w, h, mx - 1, y + 1));
        assert(neighbor_sum(pre, w, h, x, y) == neighbor_sum(pre, w, h, mx, y));
        assert(nbr_one(w, h, x - 1, y - 1) == nbr_one(w, h, mx + 1, y - 1));
        assert(nbr_one(w, h, x - 1, y) == nbr_one(w, h, mx + 1, y));
        assert(nbr_one(w, h, x - 1, y + 1) == nbr_one(w, h, mx + 1, y + 1));
        assert(nbr_one(w, h, x + 1, y - 1) == nbr_one(w, h, mx - 1, y - 1));
        assert(nbr_one(w, h, x + 1, y) == nbr_one(w, h, mx - 1, y));
        assert(nbr_one(w, h, x + 1, y + 1) == nbr_one(w, h, mx - 1, y + 1));
        assert(neighbor_count(w, h, x, y) == neighbor_count(w, h, mx, y));
        assert(step_accel(pre, w, h, x, y) == step_accel(pre, w, h, mx, y));
        assert(step_vel(pre, w, h, x, y) == step_vel(pre, w, h, mx, y));
        assert(settled_alt(pre, w, h, x, y) == settled_alt(pre, w, h, mx, y));
        assert(post[grid_idx(h, x, y)] == post[grid_idx(h, mx, y)]);
    }
}

/// Mean correction: Phase C adds one and the same value to every cell's
/// Phase B altitude, and that value is exactly `-total / (w * h)` (total
/// pre-step altitude, division rounded toward zero) whenever that quotient
/// lies within the `SHIFT_CAP` guard.
pub proof fn lemma_uniform_mean_correction(pre: Seq<Cell>, post: Seq<Cell>, w: int, h: int)
    requires
        1 <= w,
        1 <= h,
        pre.len() == w * h,
        stepped(pre, post, w, h),
    ensures
        forall|x: int, y: int|
            #![trigger grid_idx(h, x, y)]
            in_grid(w, h, x, y) ==> post[grid_idx(h, x, y)].altitude == settled_alt(pre, w, h, x, y)
                + shift_of(pre, w, h),
        -SHIFT_CAP <= trunc_div(-total_of(pre), w * h) <= SHIFT_CAP ==> shift_of(pre, w, h)
            == trunc_div(-total_of(pre), w * h),
{
    assert forall|x: int, y: int| #![trigger grid_idx(h, x, y)]
        in_grid(w, h, x, y) implies post[grid_idx(h, x, y)].altitude == settled_alt(pre, w, h, x, y)
        + shift_of(pre, w, h) by {
        assert(step_cell_ok(pre, post, w, h, x, y));
    }
}

/// Sum of the Phase B altitudes of the first `n` cells, in flat order: the
/// altitudes a step would leave if Phase C did not run.
pub open spec fn settled_prefix(pre: Seq<Cell>, w: int, h: int, n: int) -> int
    decreases n,
{
    if n <= 0 {
        0
    } else {
        settled_prefix(pre, w, h, n - 1) + settled_alt(pre, w, h, (n - 1) / h, (n - 1) % h)
    }
}

/// Sum of the Phase B altitudes of the whole grid.
pub open spec fn settled_total(pre: Seq<Cell>, w: int, h: int) -> int {
    settled_prefix(pre, w, h, w * h)
}

proof fn lemma_prefix_after_shift(pre: Seq<Cell>, post: Seq<Cell>, w: int, h: int, n: int)
    requires
        1 <= w,
        1 <= h,
        pre.len() == w * h,
        stepped(pre, post, w, h),
        0 <= n <= w * h,
    ensures
        prefix_total(post, n) == settled_prefix(pre, w, h, n) + n * shift_of(pre, w, h),
    decreases n,
{
    if n > 0 {
        lemma_prefix_after_shift(pre, post, w, h, n - 1);
        lemma_flat_to_pair(w, h, n - 1);
        assert(step_cell_ok(pre, post, w, h, (n - 1) / h, (n - 1) % h));
        let s = shift_of(pre, w, h);
        assert(grid_idx(h, (n - 1) / h, (n - 1) % h) == n - 1);
        assert(post[n - 1].altitude == settled_alt(pre, w, h, (n - 1) / h, (n - 1) % h) + s);
        assert(prefix_total(post, n) == prefix_total(post, n - 1) + post[n - 1].altitude);
        assert(settled_prefix(pre, w, h, n) == settled_prefix(pre, w, h, n - 1) + settled_alt(
            pre,
            w,
            h,
            (n - 1) / h,
            (n - 1) % h,
        ));
        assert((n - 1) * s + s == n * s) by (nonlinear_arith);
    } else {
        assert(n == 0);
        assert(n * shift_of(pre, w, h) == 0) by (nonlinear_arith)
            requires
                n == 0,
        ;
    }
}

/// Mean correction, sum form: after Phase C the total altitude of the grid
/// is the total that Phase B left plus `width * height` times the uniform
/// correction.
pub proof fn lemma_total_after_step(pre: Seq<Cell>, post: Seq<Cell>, w: int, h: int)
    requires
        1 <= w,
        1 <= h,
        pre.len() == w * h,
        stepped(pre, post, w, h),
    ensures
        total_of(post) == settled_total(pre, w, h) + (w * h) * shift_of(pre, w, h),
{
    lemma_prefix_after_shift(pre, post, w, h, w * h);
}

} // verus!
