use playbridge::game::input::{adb_keycode_to_vk, key_down_lparam, key_up_lparam, point_lparam};
use playbridge::game::window::{
    adopt_running_client, hold_step, in_modal_loop, resolve_client_by_title, HoldStep, RunningClient,
};
use playbridge::nemu::{bottom_up_frame, capture_call, capture_status, frame_len, CaptureCall};
use playbridge::sys::config::Client;
use playbridge::text::{parse_i32, parse_u16, parse_u64, split_whitespace, starts_with, str_eq};
use playbridge::utils::{check_folder_size, check_window_size, FolderSizeStep, WindowSizeCheck};

#[test]
fn key_codes_and_lparams() {
    assert_eq!(adb_keycode_to_vk(111), Some(0x1B));
    assert_eq!(adb_keycode_to_vk(4), None);
    assert_eq!(key_down_lparam(0x1B), 0x1B_0000);
    assert_eq!(key_up_lparam(0x1B), ((0x1Bi32 << 16) | (1 << 30) | (1 << 31)) as isize);
    assert_eq!(key_up_lparam(0x1B), 0x1B_0000 - 0x4000_0000);
    assert_eq!(point_lparam(640, 360), (360 << 16) | 640);
}

#[test]
fn window_titles_and_modal_loops() {
    assert_eq!(resolve_client_by_title("명일방주 - Google Play Games"), Some(Client::KR));
    assert_eq!(resolve_client_by_title("Arknights"), Some(Client::EN));
    assert_eq!(resolve_client_by_title("Google Play Games"), None);
    assert_eq!(adopt_running_client(Client::EN, Client::EN), RunningClient::Same);
    assert_eq!(
        adopt_running_client(Client::KR, Client::EN),
        RunningClient::Adopt { client: Client::EN, mismatch_with: Some(Client::KR) }
    );
    assert_eq!(
        adopt_running_client(Client::Empty, Client::JP),
        RunningClient::Adopt { client: Client::JP, mismatch_with: None }
    );
    assert!(in_modal_loop(0x2));
    assert!(!in_modal_loop(0x1));
    assert_eq!(hold_step(false, true, 0), HoldStep::WindowGone);
    assert_eq!(hold_step(true, false, 42), HoldStep::Ended(42));
    assert_eq!(hold_step(true, true, 2_999_999_999), HoldStep::Wait { warn: false });
    assert_eq!(hold_step(true, true, 3_000_000_000), HoldStep::Wait { warn: true });
}

#[test]
fn nemu_frame_header() {
    assert_eq!(frame_len([0x00, 0x05, 0, 0, 0xD0, 0x02, 0, 0]), Some(1280 * 720 * 4));
    assert_eq!(frame_len([0, 0, 0, 0, 1, 0, 0, 0]), None);
    assert_eq!(frame_len([0xFF, 0xFF, 0xFF, 0xFF, 0xFF, 0xFF, 0xFF, 0xFF]), None);
    assert_eq!(frame_len([0x00, 0x10, 0, 0, 0x00, 0x10, 0, 0]), Some(64 * 1024 * 1024));
    assert_eq!(frame_len([0x01, 0x10, 0, 0, 0x00, 0x10, 0, 0]), None);
}

#[test]
fn nemu_capture_calls() {
    assert_eq!(capture_call(0, true), CaptureCall::Dimensions);
    assert_eq!(capture_call(-1, false), CaptureCall::Refused);
    assert_eq!(capture_call(100, false), CaptureCall::Refused);
    assert_eq!(capture_call(1280 * 720 * 4, true), CaptureCall::Refused);
    assert_eq!(capture_call(1280 * 720 * 4, false), CaptureCall::Fill);
    assert_eq!(capture_status(CaptureCall::Refused), 1);
    assert_eq!(capture_status(CaptureCall::Fill), 0);
    assert_eq!(capture_status(CaptureCall::Dimensions), 0);
}

#[test]
fn nemu_frame_goes_bottom_up() {
    let row = 1280 * 4;
    let frame: Vec<u8> = (0..720 * row).map(|i| (i / row) as u8).collect();
    let out = bottom_up_frame(Some(&frame));
    assert_eq!(out.len(), 720 * row);
    assert_eq!(out[0], (719 % 256) as u8);
    assert_eq!(out[719 * row], 0);
    let short = bottom_up_frame(Some(&frame[..10]));
    assert!(short.iter().all(|&b| b == 0));
    assert!(bottom_up_frame(None).iter().all(|&b| b == 0));
}

#[test]
fn text_parsing_follows_std() {
    assert_eq!(parse_u16("+65535"), Some(65535));
    assert_eq!(parse_u16("65536"), None);
    assert_eq!(parse_i32("-2147483648"), Some(i32::MIN));
    assert_eq!(parse_i32("2147483648"), None);
    assert_eq!(parse_i32("-"), None);
    assert_eq!(parse_u64("18446744073709551615"), Some(u64::MAX));
    assert_eq!(parse_u64(" 1"), None);
    assert_eq!(split_whitespace("  a\tbc \u{2003}d\n"), vec!["a", "bc", "d"]);
    assert!(split_whitespace(" \u{85} ").is_empty());
    assert!(starts_with("명일방주 x", "명일방주"));
    assert!(str_eq("abc", "abc") && !str_eq("abc", "abd"));
}

#[test]
fn window_size_and_folder_checks() {
    assert_eq!(check_window_size(1280, 720, true, (0, 0)), WindowSizeCheck::WrongRatio);
    assert_eq!(check_window_size(1023, 576, false, (0, 0)), WindowSizeCheck::TooSmall);
    assert_eq!(check_window_size(1280, 720, false, (0, 0)), WindowSizeCheck::First);
    assert_eq!(check_window_size(1280, 720, false, (1920, 1080)), WindowSizeCheck::Changed);
    assert_eq!(check_window_size(1280, 720, false, (1280, 720)), WindowSizeCheck::Same);
    assert_eq!(check_folder_size(false, 900, 0), FolderSizeStep::Nothing);
    assert_eq!(check_folder_size(true, 100, 300), FolderSizeStep::ClearMark);
    assert_eq!(check_folder_size(true, 100, 0), FolderSizeStep::Nothing);
    assert_eq!(check_folder_size(true, 260, 0), FolderSizeStep::Warn { size_mb: 260, mark: 260 });
    assert_eq!(check_folder_size(true, 499, 260), FolderSizeStep::Nothing);
    assert_eq!(check_folder_size(true, 500, 260), FolderSizeStep::Warn { size_mb: 500, mark: 500 });
}
