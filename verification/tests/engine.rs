use wavegrid::grid::{Cell, GridError, WaveGrid, ALT_BOUND, LIMIT, SUSTAIN};

fn alt(g: &WaveGrid, x: usize, y: usize) -> i64 {
    g.altitude_at(x, y).unwrap()
}

#[test]
fn construction_default_state() {
    let g = WaveGrid::new(4, 4).unwrap();
    for x in 0..4 {
        for y in 0..4 {
            assert_eq!(alt(&g, x, y), 0);
        }
    }
}

#[test]
fn construction_rejects_zero_dimensions() {
    assert_eq!(WaveGrid::new(0, 4).unwrap_err(), GridError::InvalidDimensions);
    assert_eq!(WaveGrid::new(4, 0).unwrap_err(), GridError::InvalidDimensions);
    assert_eq!(WaveGrid::new(0, 0).unwrap_err(), GridError::InvalidDimensions);
}

#[test]
fn reads_out_of_range_fail() {
    let g = WaveGrid::new(3, 2).unwrap();
    assert_eq!(g.altitude_at(3, 0).unwrap_err(), GridError::OutOfBounds);
    assert_eq!(g.altitude_at(0, 2).unwrap_err(), GridError::OutOfBounds);
    assert!(g.altitude_at(2, 1).is_ok());
}

#[test]
fn seeding_out_of_range_fails_and_changes_nothing() {
    let mut g = WaveGrid::new(2, 2).unwrap();
    g.set_altitude(1, 1, 42).unwrap();
    assert_eq!(g.set_altitude(2, 0, 7).unwrap_err(), GridError::OutOfBounds);
    assert_eq!(g.set_altitude(0, 5, 7).unwrap_err(), GridError::OutOfBounds);
    assert_eq!(alt(&g, 1, 1), 42);
    assert_eq!(alt(&g, 0, 0), 0);
}

#[test]
fn default_cell_is_at_rest() {
    let c: Cell = Default::default();
    assert_eq!(c.altitude, 0);
    assert_eq!(c.velocity, 0);
    assert_eq!(c.acceleration, 0);
    assert_eq!(c.sustainability, SUSTAIN);
}

/// One disturbance at (1, 1) on a 4x4 grid, one full step: the peak relaxes
/// toward its neighbor mean, every neighbor rises above the uniform-shift
/// baseline, and every cell farther than one step of influence sits at
/// exactly the uniform shift of -total / 16.
#[test]
fn single_disturbance_spreads_one_ring() {
    let mut g = WaveGrid::new(4, 4).unwrap();
    g.set_altitude(1, 1, 100_000).unwrap();
    g.trigger();
    g.advance(1000);

    // The peak: acceleration -(100_000 - 0) * 10 clamps to -LIMIT, the
    // altitude drops by 500_000 / 20 and then takes the -6_250 shift.
    assert_eq!(alt(&g, 1, 1), 68_750);
    assert!(alt(&g, 1, 1) < 100_000);
    // Unclamped the peak would have fallen to 100_000 - 1_000_000 / 20 plus
    // the shift; the clamp keeps it above that.
    assert!(alt(&g, 1, 1) > 100_000 - 1_000_000 / 20 - 6_250);

    // The shift baseline: cells with no path of influence within one step.
    for &(x, y) in &[(3, 0), (0, 3), (3, 1), (1, 3), (3, 2), (2, 3), (3, 3)] {
        assert_eq!(alt(&g, x, y), -6_250);
    }

    // Every neighbor of the peak rose above the baseline.
    for &(x, y) in &[(0, 0), (0, 1), (0, 2), (1, 0), (1, 2), (2, 0), (2, 1), (2, 2)] {
        assert!(alt(&g, x, y) > -6_250);
    }

    // Exact per-cell values of the fixed-point update.
    assert_eq!(alt(&g, 0, 0), 10_416);
    assert_eq!(alt(&g, 0, 1), 3_750);
    assert_eq!(alt(&g, 0, 2), 3_750);
    assert_eq!(alt(&g, 1, 0), 3_750);
    assert_eq!(alt(&g, 2, 0), 3_750);
    assert_eq!(alt(&g, 1, 2), 0);
    assert_eq!(alt(&g, 2, 1), 0);
    assert_eq!(alt(&g, 2, 2), 0);

    // Sum form of the mean correction: the post-step total is the Phase B
    // total (150_416) plus 16 times the -6_250 shift.
    let mut sum: i64 = 0;
    for x in 0..4 {
        for y in 0..4 {
            sum += alt(&g, x, y);
        }
    }
    assert_eq!(sum, 150_416 - 100_000);
}

/// A grid held level at the limit: every cell sees a neighbor mean equal to
/// its own altitude, so the only change is the global correction, which
/// returns the whole grid to zero in one step.
#[test]
fn level_grid_recenters_in_one_step() {
    let mut g = WaveGrid::new(4, 4).unwrap();
    for x in 0..4 {
        for y in 0..4 {
            g.set_altitude(x, y, LIMIT).unwrap();
        }
    }
    g.trigger();
    g.advance(1000);
    for x in 0..4 {
        for y in 0..4 {
            assert_eq!(alt(&g, x, y), 0);
        }
    }
}

/// Boundedness across a rough, asymmetric run: every post-step acceleration
/// stays in `[-LIMIT, LIMIT]` and every altitude stays within the stable
/// band, step after step.
#[test]
fn accelerations_and_altitudes_stay_bounded() {
    let mut g = WaveGrid::new(6, 5).unwrap();
    let seeds = [
        (0, 0, LIMIT),
        (5, 4, -LIMIT),
        (2, 3, 480_000),
        (3, 1, -499_999),
        (1, 4, 123_456),
    ];
    for &(x, y, v) in &seeds {
        g.set_altitude(x, y, v).unwrap();
    }
    g.trigger();
    for _ in 0..30 {
        g.advance(1000);
        for c in &g.cells {
            assert!(-LIMIT <= c.acceleration && c.acceleration <= LIMIT);
            assert!(-ALT_BOUND <= c.altitude && c.altitude <= ALT_BOUND);
        }
    }
}

/// A single-cell grid never has neighbors, so nothing ever divides by the
/// neighbor count; with no initial motion the correction cancels the seed in
/// one step and the cell stays at zero from then on.
#[test]
fn single_cell_grid_converges_to_zero() {
    let mut g = WaveGrid::new(1, 1).unwrap();
    g.set_altitude(0, 0, 100_000).unwrap();
    g.trigger();
    g.advance(1000);
    assert_eq!(alt(&g, 0, 0), 0);
    for _ in 0..50 {
        g.advance(1000);
    }
    assert_eq!(alt(&g, 0, 0), 0);
}
