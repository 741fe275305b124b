use wavegrid::camera::CameraSystem;

/// Full deflection for one second moves the camera by the camera speed:
/// 100 units, in fixed-point steps.
#[test]
fn full_deflection_one_second() {
    assert_eq!(CameraSystem::pan(0, 1_000_000, Some(1000)), 100_000);
}

/// An unbound axis leaves the camera exactly where it was.
#[test]
fn unbound_axis_holds_position() {
    assert_eq!(CameraSystem::pan(123_456, 1_000_000, None), 123_456);
}

/// Deflection scales linearly and keeps its sign.
#[test]
fn deflection_scales_and_signs() {
    assert_eq!(CameraSystem::pan(0, 1_000_000, Some(500)), 50_000);
    assert_eq!(CameraSystem::pan(0, 500_000, Some(-1000)), -50_000);
    assert_eq!(CameraSystem::pan(10, 250_000, Some(-400)), 10 - 10_000);
}

/// The displacement rounds toward zero on both sides.
#[test]
fn displacement_truncates_toward_zero() {
    // 33 us at 999/1000 deflection: 33 * 999 / 10_000 = 3.2967 -> 3.
    assert_eq!(CameraSystem::pan(0, 33, Some(999)), 3);
    assert_eq!(CameraSystem::pan(0, 33, Some(-999)), -3);
}
