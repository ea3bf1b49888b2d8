use playbridge::store;
use playbridge::sys::store::{app_record, find_packages, is_pkg_byte, plausible, render_resolution};
use playbridge::wire::{nested_field, parse_wh, read_tag, read_varint, skip_wire};

const EN: &str = "com.YoStarEN.Arknights";

fn wh_msg(w: &[u8], h: &[u8]) -> Vec<u8> {
    let mut v = vec![0x08];
    v.extend_from_slice(w);
    v.push(0x10);
    v.extend_from_slice(h);
    v
}

fn len_field(tag: u8, body: &[u8]) -> Vec<u8> {
    let mut v = vec![tag, body.len() as u8];
    v.extend_from_slice(body);
    v
}

/// A store record: the package, then the version group (field 4) and the resolution group (field 5).
fn record(package: &str, version: &str) -> Vec<u8> {
    let mut v = package.as_bytes().to_vec();
    let inner = len_field(0x0A, version.as_bytes());
    let ver = len_field(0x2A, &inner);
    v.extend(len_field(0x22, &ver));
    let max = len_field(0x0A, &wh_msg(&[0x80, 0x14], &[0xA0, 0x0B]));
    let cur = len_field(0x12, &wh_msg(&[0x80, 0x0A], &[0xD0, 0x05]));
    let mut group = max;
    group.extend(cur);
    v.extend(len_field(0x2A, &group));
    v
}

#[test]
fn varint_reads_multibyte_value() {
    let buf = [0xAC, 0x02, 0x01];
    let mut pos = 0usize;
    assert_eq!(read_varint(&buf, &mut pos), Some(300));
    assert_eq!(pos, 2);
    assert_eq!(read_varint(&buf, &mut pos), Some(1));
    assert_eq!(pos, 3);
}

#[test]
fn varint_truncated_is_none() {
    let buf = [0x80, 0x80];
    let mut pos = 0usize;
    assert_eq!(read_varint(&buf, &mut pos), None);
}

#[test]
fn varint_past_ten_bytes_is_none() {
    let buf = [0xFF; 11];
    let mut pos = 0usize;
    assert_eq!(read_varint(&buf, &mut pos), None);
}

#[test]
fn tag_splits_field_and_wire() {
    let buf = [0x2A];
    let mut pos = 0usize;
    assert_eq!(read_tag(&buf, &mut pos), Some((5, 2)));
}

#[test]
fn skip_wire_kinds() {
    let buf = [0x96, 0x01, 0x03, b'a', b'b', b'c'];
    let mut pos = 0usize;
    assert_eq!(skip_wire(&buf, &mut pos, 0), Some(()));
    assert_eq!(pos, 2);
    assert_eq!(skip_wire(&buf, &mut pos, 2), Some(()));
    assert_eq!(pos, 6);
    let mut p2 = 0usize;
    assert_eq!(skip_wire(&buf, &mut p2, 5), Some(()));
    assert_eq!(p2, 4);
    let mut p3 = 0usize;
    assert_eq!(skip_wire(&buf, &mut p3, 3), None);
    let short = [0x05, b'a'];
    let mut p4 = 0usize;
    assert_eq!(skip_wire(&short, &mut p4, 2), None);
}

#[test]
fn parse_wh_reads_width_and_height() {
    assert_eq!(parse_wh(&wh_msg(&[0x80, 0x0A], &[0xD0, 0x05])), Some((1280, 720)));
    assert_eq!(parse_wh(&[0x08, 0x05]), None);
}

#[test]
fn nested_field_finds_length_delimited() {
    let sub = [0x08, 0x01, 0x12, 0x02, b'h', b'i'];
    assert_eq!(nested_field(&sub, 2), Some(&b"hi"[..]));
    assert_eq!(nested_field(&sub, 3), None);
}

#[test]
fn package_bytes_and_plausibility() {
    assert!(is_pkg_byte(b'a') && is_pkg_byte(b'Z') && is_pkg_byte(b'7') && is_pkg_byte(b'.') && is_pkg_byte(b'_'));
    assert!(!is_pkg_byte(b'/') && !is_pkg_byte(b' '));
    assert!(plausible(200, 10000));
    assert!(!plausible(199, 720));
    assert!(!plausible(1280, 10001));
}

#[test]
fn find_packages_needs_eight_bytes() {
    let buf = b"xx com.ab/com.YoStarKR.Arknights!";
    let found = find_packages(buf);
    assert_eq!(found.len(), 1);
    assert_eq!(found[0].0, 10);
    assert_eq!(found[0].1, "com.YoStarKR.Arknights");
}

#[test]
fn app_record_reads_full_record() {
    let mut store = b"junk\x00".to_vec();
    store.extend(record(EN, "1.2.3"));
    let rec = app_record(&store, EN).expect("record");
    assert_eq!(rec.version().map(|s| s.as_str()), Some("1.2.3"));
    assert_eq!(rec.cur(), Some((1280, 720)));
    assert_eq!(rec.max(), Some((2560, 1440)));
    assert_eq!(rec.describe(), "com.YoStarEN.Arknights v1.2.3 render 1280x720 (max 2560x1440)");
    assert_eq!(render_resolution(&store, EN), Some((1280, 720)));
}

#[test]
fn app_record_prefers_fullest_hit() {
    // A bare mention of the package (as in a store URL) before the real record.
    let mut store = b"https://play/com.YoStarEN.Arknights ".to_vec();
    store.extend(record(EN, "9.9"));
    let rec = app_record(&store, EN).expect("record");
    assert_eq!(rec.version().map(|s| s.as_str()), Some("9.9"));
}

#[test]
fn app_record_bare_mention_is_fallback() {
    let store = b"see com.YoStarEN.Arknights here".to_vec();
    let rec = app_record(&store, EN).expect("fallback");
    assert_eq!(rec.version(), None);
    assert_eq!(rec.cur(), None);
    assert_eq!(rec.describe(), "com.YoStarEN.Arknights v? render ? (max ?)");
    assert_eq!(render_resolution(&store, EN), None);
}

#[test]
fn app_record_absent_package() {
    let mut store = b"..".to_vec();
    store.extend(record("com.YoStarKR.Arknights", "1.0"));
    assert!(app_record(&store, EN).is_none());
    assert_eq!(render_resolution(&store, EN), None);
}

#[test]
fn legacy_scan_pairs_group_with_nearest_package() {
    let mut store = b"..".to_vec();
    store.extend(record("com.YoStarJP.Arknights", "2.0"));
    store.extend(record(EN, "1.0"));
    assert_eq!(store::render_resolution(&store, EN), Some((1280, 720)));
    assert_eq!(store::render_resolution(&store, "com.YoStarJP"), Some((1280, 720)));
    assert_eq!(store::render_resolution(&store, "com.YoStarKR"), None);
}

#[test]
fn varint_round_trip_leaves_what_follows() {
    // u64::MAX takes all ten bytes; what comes after the encoding is not read.
    let mut buf = vec![0xFFu8; 9];
    buf.push(0x01);
    buf.extend_from_slice(&[0x80, 0x80]);
    let mut pos = 0usize;
    assert_eq!(read_varint(&buf, &mut pos), Some(u64::MAX));
    assert_eq!(pos, 10);
    let mut at = 0usize;
    assert_eq!(read_varint(&[0x00, 0xFF], &mut at), Some(0));
    assert_eq!(at, 1);
}

#[test]
fn cursor_past_the_end_reads_nothing() {
    let buf = [0x08u8, 0x01];
    let mut pos = 5usize;
    assert_eq!(read_varint(&buf, &mut pos), None);
    assert_eq!(pos, 5);
    assert_eq!(read_tag(&buf, &mut pos), None);
    assert_eq!(pos, 5);
    assert_eq!(skip_wire(&buf, &mut pos, 0), None);
    assert_eq!(skip_wire(&buf, &mut pos, 2), None);
    assert_eq!(pos, 5);
}
