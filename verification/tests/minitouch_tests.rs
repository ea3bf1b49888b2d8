use playbridge::daemon::minitouch::{parse_line, CommitObservation, KeyAction, TouchCommand, TouchEffect, TouchState};

fn obs(held_ns: Option<u64>, window_present: bool, resized: bool, path_end: isize, current: isize) -> CommitObservation {
    CommitObservation { held_ns, window_present, resized, path_end, current }
}

#[test]
fn parse_contact_lines() {
    assert_eq!(parse_line("d 0 100 200 50"), TouchCommand::Contact { x: 100, y: 200 });
    assert_eq!(parse_line("m 0 -5 +7 50"), TouchCommand::Contact { x: -5, y: 7 });
    assert_eq!(parse_line("d 1 100 200 50"), TouchCommand::Ignored);
    assert_eq!(parse_line("d 0 100"), TouchCommand::Ignored);
    assert_eq!(parse_line("d 0 abc 200 50"), TouchCommand::Contact { x: 0, y: 200 });
    assert_eq!(parse_line("u 0"), TouchCommand::Lift);
    assert_eq!(parse_line("u 2"), TouchCommand::Ignored);
}

#[test]
fn parse_other_lines() {
    assert_eq!(parse_line("w 15"), TouchCommand::Wait(15));
    assert_eq!(parse_line("w 0"), TouchCommand::Ignored);
    assert_eq!(parse_line("w x"), TouchCommand::Ignored);
    assert_eq!(parse_line("c"), TouchCommand::Commit);
    assert_eq!(parse_line("  c  "), TouchCommand::Commit);
    assert_eq!(parse_line("r"), TouchCommand::Reset);
    assert_eq!(parse_line("k 111 d"), TouchCommand::Key { keycode: 111, action: KeyAction::Down });
    assert_eq!(parse_line("k 111 u"), TouchCommand::Key { keycode: 111, action: KeyAction::Up });
    assert_eq!(parse_line("k 111 x"), TouchCommand::Key { keycode: 111, action: KeyAction::Other });
    assert_eq!(parse_line("k 111"), TouchCommand::Ignored);
    assert_eq!(parse_line(""), TouchCommand::Ignored);
    assert_eq!(parse_line("\u{3000}c\u{a0}"), TouchCommand::Commit);
    assert_eq!(parse_line("z 1 2"), TouchCommand::Ignored);
}

#[test]
fn tap_presses_then_releases() {
    let mut s = TouchState::new();
    s.set_position(Some((10, 20)));
    let e = s.commit(obs(Some(0), true, false, 0, 0x0014_000A));
    assert!(matches!(e[..], [TouchEffect::Move(0x0014_000A), TouchEffect::Press(0x0014_000A)]));
    assert!(s.is_down);
    assert_eq!(s.touch_path, vec![(10, 20)]);

    s.set_position(None);
    let e = s.commit(obs(Some(0), true, false, 0x0014_000A, 0));
    assert!(matches!(&e[..], [TouchEffect::Move(0x0014_000A), TouchEffect::Release(0x0014_000A), TouchEffect::Finished(p)]
        if p == &vec![(10, 20)]));
    assert!(!s.is_down);
    assert!(s.touch_path.is_empty());
}

#[test]
fn drag_moves_only_on_change() {
    let mut s = TouchState::new();
    s.set_position(Some((1, 1)));
    s.commit(obs(Some(0), true, false, 0, 100));
    s.set_position(Some((1, 1)));
    assert!(s.commit(obs(Some(0), true, false, 0, 100)).is_empty());
    s.set_position(Some((2, 2)));
    let e = s.commit(obs(Some(0), true, false, 0, 200));
    assert!(matches!(e[..], [TouchEffect::Move(200)]));
    assert_eq!(s.touch_path, vec![(1, 1), (2, 2)]);
    assert_eq!(s.last_relative_pos, 200);
}

#[test]
fn long_hold_discards_touch() {
    let mut s = TouchState::new();
    s.set_position(Some((5, 5)));
    s.commit(obs(Some(0), true, false, 0, 50));
    // Held 600 ms by a modal loop, with the contact still down.
    let e = s.commit(obs(Some(600_000_000), true, false, 77, 50));
    assert!(matches!(e[0], TouchEffect::Move(77)));
    assert!(matches!(e[1], TouchEffect::Release(77)));
    assert!(matches!(e[2], TouchEffect::Discarded { resized: false }));
    // The touch then starts afresh at the current point.
    assert!(matches!(e[3], TouchEffect::Move(50)));
    assert!(matches!(e[4], TouchEffect::Press(50)));
}

#[test]
fn short_hold_nudges_touch() {
    let mut s = TouchState::new();
    s.set_position(Some((5, 5)));
    s.commit(obs(Some(0), true, false, 0, 50));
    let e = s.commit(obs(Some(100_000_000), true, false, 77, 50));
    assert!(matches!(e[..], [TouchEffect::Move(50)]));
    assert!(s.is_down);
}

#[test]
fn lost_window_forgets_touch() {
    let mut s = TouchState::new();
    s.set_position(Some((5, 5)));
    s.commit(obs(Some(0), true, false, 0, 50));
    let e = s.commit(obs(None, false, false, 0, 0));
    assert!(e.is_empty());
    assert!(!s.is_down);
    assert!(s.touch_path.is_empty());
}

#[test]
fn reset_releases_held_touch() {
    let mut s = TouchState::new();
    s.set_position(Some((5, 5)));
    s.commit(obs(Some(0), true, false, 0, 50));
    let e = s.reset(true);
    assert!(matches!(e[..], [TouchEffect::Move(50), TouchEffect::Release(50)]));
    assert!(!s.is_down);
    assert_eq!(s.current_pos, None);
    assert!(s.reset(true).is_empty());
}

#[test]
fn release_never_without_press() {
    let mut s = TouchState::new();
    s.set_position(None);
    assert!(s.commit(obs(Some(0), true, false, 0, 0)).is_empty());
    assert!(s.reset(true).is_empty());
}
