use playbridge::daemon::window_state::{
    adopt_stale_park, origin_text, pack_point, park_y, read_origin, unpack_point, ActivationStep, ActivationWatch,
    ParkEffect, ParkState, StalePark, WindowObservation, PARK_RETURN_NONE,
};

fn seen(iconic: bool, origin: Option<(i32, i32)>, foreground: bool, off_monitors: bool) -> WindowObservation {
    WindowObservation { iconic, origin, foreground, off_monitors }
}

#[test]
fn pack_round_trip() {
    for &(x, y) in &[(0, 0), (-1920, 40), (2560, -1), (i32::MAX, i32::MIN)] {
        assert_eq!(unpack_point(pack_point(x, y)), (x, y));
    }
    assert_eq!(pack_point(1, 2), (1i64 << 32) | 2);
    assert_eq!(pack_point(i32::MIN, 0), PARK_RETURN_NONE);
    assert_ne!(pack_point(-1, 0), PARK_RETURN_NONE);
}

#[test]
fn park_below_desktop() {
    assert_eq!(park_y(-200, 2160), 1992);
}

#[test]
fn origin_text_round_trip() {
    assert_eq!(origin_text(-1920, 35), "-1920,35");
    assert_eq!(read_origin("-1920,35"), Some((-1920, 35)));
    for &(x, y) in &[(0, 0), (i32::MIN, i32::MAX), (7, -7)] {
        assert_eq!(read_origin(&origin_text(x, y)), Some((x, y)));
    }
    assert_eq!(read_origin(""), None);
    assert_eq!(read_origin("12"), None);
    assert_eq!(read_origin("1,x"), None);
    assert_eq!(read_origin("1,2,3"), None);
}

#[test]
fn minimize_with_known_home_parks() {
    let mut s = ParkState::new("100,200");
    assert!(s.arm_hook());
    let e = s.update(&seen(true, None, false, false));
    assert_eq!(e, vec![ParkEffect::Park(100, 200)]);
    assert!(s.on_parked());
    assert!(!s.on_parked());
}

#[test]
fn minimize_without_home_surfaces_first() {
    let mut s = ParkState::new("");
    assert!(!s.arm_hook());
    assert_eq!(s.update(&seen(true, None, false, false)), vec![ParkEffect::Surface]);
    // The surfaced window shows its real origin, which becomes home, and is parked there.
    assert_eq!(
        s.update(&seen(false, Some((30, 40)), false, false)),
        vec![ParkEffect::StoreHome(30, 40), ParkEffect::Park(30, 40)]
    );
    assert!(s.arm_hook());
}

#[test]
fn pending_park_waits_for_an_origin_on_a_monitor() {
    let mut s = ParkState::new("");
    assert_eq!(s.update(&seen(true, None, false, false)), vec![ParkEffect::Surface]);
    // An origin off every monitor is a parked position: it is not taken as home.
    assert_eq!(s.update(&seen(false, Some((0, 5000)), false, true)), vec![]);
    assert!(!s.arm_hook());
    assert_eq!(
        s.update(&seen(false, Some((30, 40)), false, false)),
        vec![ParkEffect::StoreHome(30, 40), ParkEffect::Park(30, 40)]
    );
}

#[test]
fn home_follows_window_only_on_screen() {
    let mut s = ParkState::new("");
    assert_eq!(s.update(&seen(false, Some((5, 6)), false, false)), vec![ParkEffect::StoreHome(5, 6)]);
    assert!(s.update(&seen(false, Some((5, 6)), false, false)).is_empty());
    // An origin off every monitor is a parked position, never a home.
    assert!(s.update(&seen(false, Some((5, 9999)), false, true)).is_empty());
    assert_eq!(s.update(&seen(true, None, false, false)), vec![ParkEffect::Park(5, 6)]);
}

#[test]
fn parked_window_unparks_on_foreground() {
    let mut s = ParkState::new("10,20");
    s.update(&seen(true, None, false, false));
    s.on_parked();
    // Not foreground, but back on a monitor: the move off-screen is reissued.
    assert_eq!(s.update(&seen(false, Some((10, 3000)), false, false)), vec![ParkEffect::MoveOffscreen(10)]);
    // While parked the home is never overwritten.
    assert!(s.update(&seen(false, Some((10, 3000)), false, true)).is_empty());
    assert_eq!(s.update(&seen(false, Some((10, 3000)), true, true)), vec![ParkEffect::Unpark(10, 20)]);
    assert!(!s.discard());
}

#[test]
fn exit_restores_parked_window() {
    let mut s = ParkState::new("10,20");
    assert_eq!(s.restore_on_exit(), None);
    s.update(&seen(true, None, false, false));
    s.on_parked();
    assert!(s.discard());
    assert_eq!(s.restore_on_exit(), Some((10, 20)));
    assert_eq!(s.restore_on_exit(), None);
}

#[test]
fn stale_park_record() {
    assert_eq!(adopt_stale_park(None, true, true), StalePark::NoRecord);
    assert_eq!(adopt_stale_park(Some((1, 2)), false, true), StalePark::WindowGone);
    assert_eq!(adopt_stale_park(Some((1, 2)), true, false), StalePark::Drop);
    assert_eq!(adopt_stale_park(Some((1, 2)), true, true), StalePark::MoveBack(1, 2));
}

#[test]
fn activation_repaired_at_most_three_times() {
    let mut w = ActivationWatch::new();
    assert_eq!(w.update(true, 0), ActivationStep::Idle);
    assert_eq!(w.update(true, 499_999_999), ActivationStep::Idle);
    assert_eq!(w.update(true, 500_000_000), ActivationStep::Repair(1));
    assert_eq!(w.update(true, 600_000_000), ActivationStep::Idle);
    assert_eq!(w.update(true, 1_000_000_000), ActivationStep::Repair(2));
    assert_eq!(w.update(true, 1_500_000_000), ActivationStep::Repair(3));
    assert_eq!(w.update(true, 9_000_000_000), ActivationStep::Idle);
    assert_eq!(w.repairs, 3);
    assert_eq!(w.update(false, 9_100_000_000), ActivationStep::Cleared);
    assert_eq!(w.update(false, 9_200_000_000), ActivationStep::Idle);
    w.discard();
    assert_eq!(w.stale_since_ns, None);
}
