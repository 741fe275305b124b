//! Camera panning: the decision of how far the view moves in one frame.
//!
//! The host reads its input axes and drives the camera transform; the arithmetic
//! that turns an axis reading and a frame time into a displacement lives here.
//! Positions and speeds use the same fixed-point convention as the grid: one
//! logical unit is 1000 fixed-point steps, and time comes in microseconds.

use crate::fixed::{trunc_div, trunc_div_i64};
use vstd::prelude::*;

verus! {

/// Camera speed: 100.0 units per second, in fixed-point steps.
pub const CAMERA_SPEED: i64 = 100_000;

/// Largest frame time the pan arithmetic accepts: one hour, in microseconds.
pub const FRAME_MICROS_MAX: u64 = 3_600_000_000;

/// An axis reading is a fraction of full deflection in `[-1, 1]`, stored in
/// thousandths.
pub const AXIS_FULL: i64 = 1000;

/// Largest camera coordinate magnitude the pan arithmetic accepts.
pub const POS_MAX: i64 = 1_000_000_000_000;

/// The camera mover: turns axis readings into transform displacements, one
/// axis per call.
pub struct CameraSystem;

/// The displacement, in fixed-point steps, that an axis deflection of
/// `axis / 1000` held for `dt_micros` microseconds produces at
/// `CAMERA_SPEED`: `speed * (dt / 10^6) * (axis / 1000)`, rounded toward
/// zero.
pub open spec fn pan_delta(dt_micros: u64, axis: i64) -> int {
    trunc_div(dt_micros * axis, 10_000)
}

impl CameraSystem {
    /// The new coordinate of a camera at `pos` after one frame of `dt_micros`
    /// microseconds with one axis read as `axis` thousandths of full
    /// deflection, or at `None` (axis unbound): an unbound axis leaves the
    /// camera exactly where it was.
    pub fn pan(pos: i64, dt_micros: u64, axis: Option<i64>) -> (r: i64)
        requires
            dt_micros <= FRAME_MICROS_MAX,
            -POS_MAX <= pos <= POS_MAX,
            axis is Some ==> -AXIS_FULL <= axis->0 <= AXIS_FULL,
        ensures
            axis is None ==> r == pos,
            axis is Some ==> r == pos + pan_delta(dt_micros, axis->0),
    {
        match axis {
            Some(a) => {
                proof {
                    assert((dt_micros as int) * (a as int) <= (FRAME_MICROS_MAX as int) * (
                    AXIS_FULL as int) && (dt_micros as int) * (a as int) >= -((FRAME_MICROS_MAX
                        as int) * (AXIS_FULL as int))) by (nonlinear_arith)
                        requires
                            0 <= dt_micros <= FRAME_MICROS_MAX,
                            -AXIS_FULL <= a <= AXIS_FULL,
                    ;
                }
                let scaled = (dt_micros as i64) * a;
                let d = trunc_div_i64(scaled, 10_000);
                proof {
                    crate::fixed::lemma_trunc_div_bound(
                        scaled as int,
                        10_000,
                        (FRAME_MICROS_MAX as int) * (AXIS_FULL as int),
                    );
                }
                pos + d
            },
            None => pos,
        }
    }
}

} // verus!
