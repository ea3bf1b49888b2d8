use playbridge::daemon::launcher::is_loading_screen;
use playbridge::game::window::is_gpg_loading;
use playbridge::utils::excess_captures;
use playbridge::daemon::wgc::crop_fits;
use playbridge::game::capture::{bgra_to_rgba, draw_filled_circle, draw_x, send_black_frame, send_capture};
use playbridge::nemu::bottom_up_frame;
use playbridge::shim::command_words_ok;
use playbridge::sys::logging::rotation_due;
use playbridge::sys::maa::{maa_alive, parent_in};

fn painted_pixels(buf: &[u8], w: u32) -> Vec<(u32, u32)> {
    buf.chunks_exact(4)
        .enumerate()
        .filter(|(_, p)| p == &[9, 8, 7, 6])
        .map(|(i, _)| (i as u32 % w, i as u32 / w))
        .collect()
}

#[test]
fn dot_is_centre_and_four_neighbours() {
    let mut buf = vec![0u8; 5 * 5 * 4];
    draw_filled_circle(&mut buf, 5, 5, 2, 2, [9, 8, 7, 6]);
    let mut got = painted_pixels(&buf, 5);
    got.sort();
    assert_eq!(got, vec![(1, 2), (2, 1), (2, 2), (2, 3), (3, 2)]);
}

#[test]
fn dot_at_corner_is_clipped() {
    let mut buf = vec![0u8; 3 * 3 * 4];
    draw_filled_circle(&mut buf, 3, 3, 0, 0, [9, 8, 7, 6]);
    let mut got = painted_pixels(&buf, 3);
    got.sort();
    assert_eq!(got, vec![(0, 0), (0, 1), (1, 0)]);
}

#[test]
fn cross_covers_both_thick_diagonals() {
    let mut buf = vec![0u8; 11 * 11 * 4];
    draw_x(&mut buf, 11, 11, 5, 5, [9, 8, 7, 6]);
    let got = painted_pixels(&buf, 11);
    for (x, y) in &got {
        let (a, b) = (*x as i32 - 5, *y as i32 - 5);
        assert!((a - b).abs() <= 2 || (a + b).abs() <= 2);
    }
    assert!(got.contains(&(0, 0)) && got.contains(&(10, 10)) && got.contains(&(0, 10)) && got.contains(&(10, 0)));
    assert!(!got.contains(&(5, 0)));
    // An X at the centre of an 11x11 picture paints 9 + 2 * (3 * 9 - 4) - ... pixels; check a few exactly.
    assert!(got.contains(&(5, 5)) && got.contains(&(4, 6)) && got.contains(&(6, 4)));
    assert!(!got.contains(&(2, 5)));
}

#[test]
fn swap_twice_is_identity() {
    let orig: Vec<u8> = (0u8..32).collect();
    let mut v = orig.clone();
    bgra_to_rgba(&mut v);
    assert_ne!(v, orig);
    bgra_to_rgba(&mut v);
    assert_eq!(v, orig);
}

#[test]
fn bottom_up_twice_is_identity() {
    let frame: Vec<u8> = (0..1280 * 720 * 4).map(|i| (i % 253) as u8).collect();
    let once = bottom_up_frame(Some(&frame));
    assert_ne!(once, frame);
    assert_eq!(bottom_up_frame(Some(&once)), frame);
}

#[test]
fn png_of_display_frame_decodes_back() {
    let pixels: Vec<u8> = (0..1280 * 720 * 4).map(|i| (i % 7) as u8 * 30).collect();
    let png = send_capture(Some(pixels.clone())).expect("png");
    assert_eq!(&png[1..4], b"PNG");
    let img = image::load_from_memory_with_format(&png, image::ImageFormat::Png).expect("decode").to_rgba8();
    assert_eq!((img.width(), img.height()), (1280, 720));
    assert_eq!(img.into_raw(), pixels);
    let black = send_black_frame().expect("png");
    let img = image::load_from_memory_with_format(&black, image::ImageFormat::Png).expect("decode").to_rgba8();
    assert!(img.into_raw().iter().all(|&b| b == 0));
}

#[test]
fn small_decisions() {
    assert!(is_loading_screen("Google Play Games", Some("HwndWrapper[DefaultDomain;;1]")));
    assert!(!is_loading_screen("Google Play Games", Some("Static")));
    assert!(!is_loading_screen("Google Play Games", None));
    assert!(!is_loading_screen("Arknights", Some("HwndWrapper")));
    assert_eq!(parent_in(&[(1, 0), (7, 3), (7, 4)], 7), Some(3));
    assert_eq!(parent_in(&[(1, 0)], 7), None);
    assert!(maa_alive(0, None));
    assert!(maa_alive(5, None));
    assert!(maa_alive(5, Some(true)));
    assert!(!maa_alive(5, Some(false)));
    assert!(rotation_due(1024 * 1024));
    assert!(!rotation_due(1024 * 1024 - 1));
    assert!(crop_fits(10, 10, (0, 0, 0x8000, 0x7fff)));
    assert!(!crop_fits(10, 10, (0, 0, 0x8000, 0x8000)));
    assert!(crop_fits(10, 10, (20, 0, 0x8000, 0x8000)));
}

#[test]
fn command_words_checked() {
    let args = |s: &str| s.split_whitespace().map(String::from).collect::<Vec<_>>();
    assert!(command_words_ok(&args("-s a shell am start -n x/y")));
    assert!(!command_words_ok(&args("shell am start -n")));
    assert!(!command_words_ok(&args("exec-out screencap | nc -w 3 10.0.2.2")));
    assert!(command_words_ok(&args("devices")));
    assert!(command_words_ok(&[]));
}

#[test]
fn gpg_title_by_regex() {
    let titles = |v: &[&str]| v.iter().map(|s| s.to_string()).collect::<Vec<_>>();
    assert!(is_gpg_loading(&titles(&["Arknights", "Google Play Games"])));
    assert!(!is_gpg_loading(&titles(&["Google Play "])));
    assert!(!is_gpg_loading(&titles(&["My Google Play Games"])));
    assert!(!is_gpg_loading(&[]));
}

#[test]
fn capture_folder_limit() {
    assert_eq!(excess_captures(99), 0);
    assert_eq!(excess_captures(100), 1);
    assert_eq!(excess_captures(150), 51);
}
