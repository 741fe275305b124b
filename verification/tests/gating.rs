use wavegrid::grid::WaveGrid;

fn alt(g: &WaveGrid, x: usize, y: usize) -> i64 {
    g.altitude_at(x, y).unwrap()
}

fn seeded_grid() -> WaveGrid {
    let mut g = WaveGrid::new(4, 4).unwrap();
    g.set_altitude(1, 1, 100_000).unwrap();
    g.set_altitude(3, 2, -40_000).unwrap();
    g
}

fn grids_agree(a: &WaveGrid, b: &WaveGrid) -> bool {
    for x in 0..4 {
        for y in 0..4 {
            if alt(a, x, y) != alt(b, x, y) {
                return false;
            }
        }
    }
    true
}

/// Before `trigger`, `advance` never changes any altitude, however much
/// time it reports.
#[test]
fn idle_grid_never_moves() {
    let mut g = seeded_grid();
    for dt in [1, 500, 1000, 25_000, 0] {
        g.advance(dt);
    }
    assert_eq!(alt(&g, 1, 1), 100_000);
    assert_eq!(alt(&g, 3, 2), -40_000);
    for x in 0..4 {
        for y in 0..4 {
            if (x, y) != (1, 1) && (x, y) != (3, 2) {
                assert_eq!(alt(&g, x, y), 0);
            }
        }
    }
}

/// An active grid below the step interval does not step yet.
#[test]
fn sub_threshold_advance_changes_nothing() {
    let mut g = seeded_grid();
    g.trigger();
    g.advance(500);
    g.advance(400);
    g.advance(99);
    assert_eq!(alt(&g, 1, 1), 100_000);
    assert_eq!(alt(&g, 3, 2), -40_000);
}

/// Two half-interval calls accumulate to exactly one step, identical to a
/// single full-interval call.
#[test]
fn two_half_calls_equal_one_full_call() {
    let mut a = seeded_grid();
    a.trigger();
    a.advance(500);
    a.advance(500);

    let mut b = seeded_grid();
    b.trigger();
    b.advance(1000);

    assert!(grids_agree(&a, &b));
    assert_ne!(alt(&a, 1, 1), 100_000);
}

/// Ten tenth-of-an-interval calls accumulate to the same single step.
#[test]
fn ten_small_calls_equal_one_full_call() {
    let mut a = seeded_grid();
    a.trigger();
    for _ in 0..10 {
        a.advance(100);
    }

    let mut b = seeded_grid();
    b.trigger();
    b.advance(1000);

    assert!(grids_agree(&a, &b));
}

/// A call far beyond the step interval still performs exactly one step.
#[test]
fn oversized_advance_steps_once() {
    let mut a = seeded_grid();
    a.trigger();
    a.advance(1_000_000);

    let mut b = seeded_grid();
    b.trigger();
    b.advance(1000);

    assert!(grids_agree(&a, &b));
}
