use wavegrid::grid::WaveGrid;

fn alt(g: &WaveGrid, x: usize, y: usize) -> i64 {
    g.altitude_at(x, y).unwrap()
}

/// A pattern mirror-symmetric about the vertical midline stays
/// mirror-symmetric across any number of steps.
#[test]
fn mirror_symmetry_is_preserved() {
    let mut g = WaveGrid::new(4, 4).unwrap();
    g.set_altitude(1, 1, 100_000).unwrap();
    g.set_altitude(2, 1, 100_000).unwrap();
    g.set_altitude(0, 3, -30_000).unwrap();
    g.set_altitude(3, 3, -30_000).unwrap();
    g.trigger();
    for step in 0..12 {
        g.advance(1000);
        for x in 0..4 {
            for y in 0..4 {
                assert_eq!(
                    alt(&g, x, y),
                    alt(&g, 3 - x, y),
                    "asymmetry at ({}, {}) after step {}",
                    x,
                    y,
                    step
                );
            }
        }
    }
}

/// An odd-width grid keeps its fixed middle column symmetric too.
#[test]
fn mirror_symmetry_odd_width() {
    let mut g = WaveGrid::new(5, 3).unwrap();
    g.set_altitude(2, 1, 200_000).unwrap();
    g.trigger();
    for _ in 0..8 {
        g.advance(1000);
        for x in 0..5 {
            for y in 0..3 {
                assert_eq!(alt(&g, x, y), alt(&g, 4 - x, y));
            }
        }
    }
}

/// The uniform mean correction: after a step from a seed whose total is
/// 160_000 on a 4x4 grid, the cells out of reach of the disturbance sit at
/// exactly `-160_000 / 16`, and the same offset separates every untouched
/// cell from zero.
#[test]
fn mean_correction_is_uniform() {
    let mut g = WaveGrid::new(4, 4).unwrap();
    g.set_altitude(0, 0, 160_000).unwrap();
    g.trigger();
    g.advance(1000);
    let shift = -160_000 / 16;
    assert_eq!(alt(&g, 3, 0), shift);
    assert_eq!(alt(&g, 0, 3), shift);
    assert_eq!(alt(&g, 3, 3), shift);
    assert_eq!(alt(&g, 2, 3), shift);
    assert_eq!(alt(&g, 3, 2), shift);
}
