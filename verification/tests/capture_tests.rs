use playbridge::daemon::wgc::{
    bound_window_live, copy_texture_rows, crop_rect, crop_region, display_rgba, plan_crop, plan_request, rebind_needed,
    request_port, CaptureRate, FrameSource, ResolutionVerdict, ResolutionWatch,
};
use playbridge::game::capture::{
    bgra_to_rgba, black_frame_pixels, extras_frame, nc_packet, resize_to_display, send_black_frame_nc,
};

const DISPLAY_LEN: usize = 1280 * 720 * 4;

/// A `fw` x `fh` frame whose pixel (x, y) is [x, y, 7, alpha(x, y)].
fn frame(fw: u32, fh: u32, alpha: impl Fn(u32, u32) -> u8) -> Vec<u8> {
    let mut v = Vec::new();
    for y in 0..fh {
        for x in 0..fw {
            v.extend_from_slice(&[x as u8, y as u8, 7, alpha(x, y)]);
        }
    }
    v
}

fn pixel(buf: &[u8], w: u32, x: u32, y: u32) -> [u8; 4] {
    let i = ((y * w + x) * 4) as usize;
    [buf[i], buf[i + 1], buf[i + 2], buf[i + 3]]
}

#[test]
fn crop_pads_transparent_edge_with_last_opaque_pixel() {
    let f = frame(4, 3, |x, _| if x == 3 { 0 } else { 255 });
    let mut out = vec![9u8; 5];
    assert_eq!(crop_region(&f, 4, 3, (0, 0, 4, 3), &mut out), Some((4, 3)));
    assert_eq!(out.len(), 4 * 3 * 4);
    for y in 0..3 {
        for x in 0..4 {
            assert_eq!(pixel(&out, 4, x, y), [x.min(2) as u8, y as u8, 7, 255]);
        }
    }
}

#[test]
fn crop_past_frame_edge_keeps_full_size() {
    let f = frame(4, 3, |x, _| if x == 3 { 0 } else { 255 });
    let plan = plan_crop(&f, 4, 3, (1, 1, 4, 3)).expect("plan");
    assert_eq!((plan.aw, plan.ah, plan.ox, plan.oy), (3, 2, 2, 2));
    let mut out = Vec::new();
    assert_eq!(crop_region(&f, 4, 3, (1, 1, 4, 3), &mut out), Some((4, 3)));
    for y in 0..3 {
        for x in 0..4 {
            assert_eq!(pixel(&out, 4, x, y), [(1 + x.min(1)) as u8, (1 + y.min(1)) as u8, 7, 255]);
        }
    }
}

#[test]
fn crop_fully_transparent_zeroes_padding() {
    let f = frame(2, 2, |_, _| 0);
    let mut out = vec![0xEEu8; 64];
    assert_eq!(crop_region(&f, 2, 2, (0, 0, 3, 3), &mut out), Some((3, 3)));
    assert_eq!(out.len(), 36);
    assert_eq!(pixel(&out, 3, 1, 1), [1, 1, 7, 0]);
    assert_eq!(pixel(&out, 3, 2, 0), [0, 0, 0, 0]);
    assert_eq!(pixel(&out, 3, 0, 2), [0, 0, 0, 0]);
}

#[test]
fn crop_refusals_leave_buffer() {
    let f = frame(4, 3, |_, _| 255);
    let mut out = vec![1u8, 2, 3];
    assert_eq!(crop_region(&f, 4, 3, (0, 0, 0, 3), &mut out), None);
    assert_eq!(crop_region(&f, 4, 3, (-1, 0, 2, 2), &mut out), None);
    assert_eq!(crop_region(&f, 4, 3, (4, 0, 2, 2), &mut out), None);
    assert_eq!(crop_region(&f, 4, 3, (0, 3, 2, 2), &mut out), None);
    assert_eq!(out, vec![1u8, 2, 3]);
}

#[test]
fn display_frame_at_native_size_is_swapped_copy() {
    let f: Vec<u8> = (0..1280 * 720).flat_map(|_| [1u8, 2, 3, 255]).collect();
    let mut crop = Vec::new();
    let rgba = display_rgba(&f, 1280, 720, (0, 0, 1280, 720), &mut crop).expect("frame");
    assert_eq!(rgba.len(), DISPLAY_LEN);
    assert_eq!(&rgba[0..8], &[3, 2, 1, 255, 3, 2, 1, 255]);
    assert!(display_rgba(&f, 1280, 720, (0, 0, 0, 0), &mut crop).is_none());
}

#[test]
fn display_frame_scales_to_display_size() {
    let f = frame(8, 6, |_, _| 255);
    let mut crop = Vec::new();
    let rgba = display_rgba(&f, 8, 6, (0, 0, 8, 6), &mut crop).expect("frame");
    assert_eq!(rgba.len(), DISPLAY_LEN);
}

#[test]
fn resize_reads_only_the_picture() {
    let small: Vec<u8> = (0..16u8).map(|i| i * 9).collect();
    let mut longer = small.clone();
    longer.extend_from_slice(&[200u8; 12]);
    let a = resize_to_display(&small, 2, 2).expect("resized");
    let b = resize_to_display(&longer, 2, 2).expect("resized");
    assert_eq!(a, b);
}

#[test]
fn resize_wrapper_scales_and_refuses_short_buffers() {
    let small = vec![10u8; 2 * 2 * 4];
    let out = resize_to_display(&small, 2, 2).expect("resized");
    assert_eq!(out.len(), DISPLAY_LEN);
    assert!(resize_to_display(&small[..15], 2, 2).is_none());
    let native: Vec<u8> = (0..DISPLAY_LEN).map(|i| (i % 251) as u8).collect();
    assert_eq!(resize_to_display(&native, 1280, 720).expect("copy"), native);
}

#[test]
fn swap_red_blue_leaves_partial_pixel() {
    let mut v = vec![1u8, 2, 3, 4, 5, 6, 7, 8, 9];
    bgra_to_rgba(&mut v);
    assert_eq!(v, vec![3, 2, 1, 4, 7, 6, 5, 8, 9]);
}

#[test]
fn black_frame_and_packets() {
    let black = black_frame_pixels();
    assert_eq!(black.len(), DISPLAY_LEN);
    assert!(black.iter().all(|&b| b == 0));

    assert_eq!(nc_packet(&[1, 2, 3, 4]), vec![0, 5, 0, 0, 0xD0, 2, 0, 0, 1, 0, 0, 0, 1, 2, 3, 0xFF]);
    let f = send_black_frame_nc(9);
    assert_eq!(f.port, 9);
    assert_eq!(f.packet.len(), 12 + DISPLAY_LEN);
    assert_eq!(f.packet[..12], [0, 5, 0, 0, 0xD0, 2, 0, 0, 1, 0, 0, 0]);
    assert_eq!(f.packet[12 + DISPLAY_LEN - 2], 0);
    assert_eq!(*f.packet.last().unwrap(), 0xFF);
    assert_eq!(extras_frame(&[9, 8]), vec![0, 5, 0, 0, 0xD0, 2, 0, 0, 9, 8]);
}

#[test]
fn request_plans() {
    let fresh = plan_request(5000, Some(200), true);
    assert!(!fresh.extras && fresh.ack && fresh.source == FrameSource::Fresh && !fresh.start_game);
    let reused = plan_request(0, Some(5000), true);
    assert!(reused.extras && !reused.ack && reused.source == FrameSource::Reused);
    assert_eq!(plan_request(0, Some(5000), false).source, FrameSource::Black);
    assert_eq!(plan_request(0, Some(30_000), true).source, FrameSource::Black);
    let none = plan_request(7, None, true);
    assert!(none.source == FrameSource::Black && none.start_game);
    assert_eq!(request_port([0x39, 0x30]), 12345);
}

#[test]
fn rebind_and_liveness() {
    assert!(rebind_needed(None, 1, (10, 10)));
    assert!(!rebind_needed(Some((1, (10, 10))), 1, (10, 10)));
    assert!(rebind_needed(Some((1, (10, 10))), 2, (10, 10)));
    assert!(rebind_needed(Some((1, (10, 10))), 1, (10, 11)));
    assert!(bound_window_live(Some(999)));
    assert!(!bound_window_live(Some(1000)));
    assert!(!bound_window_live(None));
}

#[test]
fn crop_rect_from_window_geometry() {
    assert_eq!(crop_rect((100, 50), (0, 0, 1280, 720), (108, 81)), (8, 31, 1280, 720));
    assert_eq!(crop_rect((100, 50), (0, 0, 640, 360), (90, 40)), (0, 0, 640, 360));
}

#[test]
fn low_power_drops_frames_within_interval() {
    let mut r = CaptureRate::new(0);
    assert!(!r.skip_frame(1));
    assert!(!r.on_idle(15_000_000_000));
    assert!(r.on_idle(15_000_000_001));
    assert!(r.skip_frame(100_000_000));
    assert!(!r.skip_frame(500_000_000));
    assert_eq!(r.last_processed_ns, 500_000_000);
    assert!(r.skip_frame(999_999_999));
    assert!(r.on_request());
    assert!(!r.skip_frame(1_000_000_000));
}

#[test]
fn resolution_reported_once() {
    let mut w = ResolutionWatch::new();
    assert_eq!(w.check(1920, 1080, false), ResolutionVerdict::Mismatch { w: 1920, h: 1080 });
    assert_eq!(w.check(1920, 1080, false), ResolutionVerdict::Unchanged);
    assert_eq!(w.check(1280, 720, false), ResolutionVerdict::Expected);
    assert_eq!(w.check(1000, 720, true), ResolutionVerdict::Distorted);
    assert_eq!(w.check(1000, 720, true), ResolutionVerdict::Unchanged);
}

#[test]
fn texture_rows_drop_pitch_padding() {
    let src = vec![1u8, 2, 3, 4, 0, 0, 5, 6, 7, 8, 0, 0];
    let mut out = vec![42u8; 3];
    copy_texture_rows(&src, 6, 1, 2, &mut out);
    assert_eq!(out, vec![1, 2, 3, 4, 5, 6, 7, 8]);
}
