//! Google Play Games' own record of an installed app, read out of its store database.
//!
//! The database keeps one protobuf blob per app. Per app: field 1 is the package, `.4.5.1` the
//! app version, and `.5.1` / `.5.2` the `{ 1: width, 2: height }` of the largest render
//! resolution offered and the one in effect. The blob is stored contiguously, so the raw bytes
//! of the file are walked directly; reading the file is the caller's job.

use vstd::prelude::*;
use vstd::utf8::{decode_utf8, valid_utf8};

use crate::text::{ascii_chars, is_prefix, push_char, push_decimal, starts_with, string_from_ascii, decimal};
use crate::wire::{fields, fields_from, field_at, first_bytes, last_bytes, lemma_field_advances, lemma_last_bytes_push, lemma_fields_step, lemma_varint_at_bounds, nested_field, parse_wh, read_tag, read_varint, skip_wire, spec_parse_wh, spec_plausible, WireField, WireValue};

verus! {

/// What the store records about one app. Fields past the package are optional, so an app the
/// launcher has merely heard of still counts as present.
pub struct AppRecord {
    pub package: String,
    version: Option<String>,
    cur: Option<(u32, u32)>,
    max: Option<(u32, u32)>,
}

pub struct RecordView {
    pub package: Seq<char>,
    pub version: Option<Seq<char>>,
    pub cur: Option<(u32, u32)>,
    pub max: Option<(u32, u32)>,
}

pub open spec fn opt_string(o: Option<String>) -> Option<Seq<char>> {
    match o {
        Some(s) => Some(s@),
        None => None,
    }
}

impl View for AppRecord {
    type V = RecordView;

    closed spec fn view(&self) -> RecordView {
        RecordView { package: self.package@, version: opt_string(self.version), cur: self.cur, max: self.max }
    }
}

/// The resolution a length-delimited payload spells, if any.
pub open spec fn payload_wh(s: Seq<u8>, r: Option<(int, int)>) -> Option<(u32, u32)> {
    match r {
        Some((a, b)) => spec_parse_wh(s.subrange(a, b)),
        None => None,
    }
}

/// The resolution group (field 5 of a record): the last field 1 is the largest option offered,
/// the last field 2 the one in effect. The group as a whole must read through.
pub open spec fn spec_res_group(sub: Seq<u8>) -> Option<(Option<(u32, u32)>, Option<(u32, u32)>)> {
    let (fs, ok) = fields(sub);
    if !ok {
        None
    } else {
        Some((payload_wh(sub, last_bytes(fs, 1)), payload_wh(sub, last_bytes(fs, 2))))
    }
}

/// The app version: the UTF-8 text at `.5.1` of the version group (field 4 of a record).
pub open spec fn spec_find_version(sub: Seq<u8>) -> Option<Seq<char>> {
    match first_bytes(fields(sub).0, 5) {
        Some((a, b)) => {
            let t = sub.subrange(a, b);
            match first_bytes(fields(t).0, 1) {
                Some((c, d)) => {
                    let u = t.subrange(c, d);
                    if valid_utf8(u) {
                        Some(decode_utf8(u))
                    } else {
                        None
                    }
                },
                None => None,
            }
        },
        None => None,
    }
}

pub open spec fn keep_plausible(v: Option<(u32, u32)>) -> Option<(u32, u32)> {
    match v {
        Some((w, h)) => if spec_plausible(w, h) {
            Some((w, h))
        } else {
            None
        },
        None => None,
    }
}

/// What one field of a record changes: a version group replaces the version, a resolution group
/// that reads replaces both resolutions (keeping only plausible ones).
pub open spec fn entry_step(rec: RecordView, s: Seq<u8>, f: WireField) -> RecordView {
    match f.value {
        WireValue::Bytes(a, b) => if f.num == 4 {
            RecordView { version: spec_find_version(s.subrange(a, b)), ..rec }
        } else if f.num == 5 {
            match spec_res_group(s.subrange(a, b)) {
                Some((mx, cu)) => RecordView { max: keep_plausible(mx), cur: keep_plausible(cu), ..rec },
                None => rec,
            }
        } else {
            rec
        },
        _ => rec,
    }
}

pub open spec fn entry_complete(rec: RecordView) -> bool {
    rec.version is Some && rec.cur is Some
}

/// Applies the fields in order, stopping once both the version and the current resolution are known.
pub open spec fn entry_fold(s: Seq<u8>, fs: Seq<WireField>, rec: RecordView) -> RecordView
    decreases fs.len(),
{
    if fs.len() == 0 || entry_complete(rec) {
        rec
    } else {
        entry_fold(s, fs.drop_first(), entry_step(rec, s, fs[0]))
    }
}

/// A record opens with its own package string, so the fields that follow it are that app's.
pub open spec fn spec_parse_entry(buf: Seq<u8>, offset: int, package: Seq<char>) -> RecordView {
    entry_fold(
        buf,
        fields_from(buf, offset + package.len()).0,
        RecordView { package, version: None, cur: None, max: None },
    )
}

/// Bytes a package id is made of: ASCII letters and digits, `.` and `_`.
pub open spec fn spec_is_pkg_byte(b: u8) -> bool {
    (48 <= b <= 57) || (65 <= b <= 90) || (97 <= b <= 122) || b == 46 || b == 95
}

/// Where the run of package bytes starting at `i` ends.
pub open spec fn pkg_run_end(s: Seq<u8>, i: int) -> int
    decreases s.len() - i,
{
    if i < 0 || i >= s.len() || !spec_is_pkg_byte(s[i]) {
        i
    } else {
        pkg_run_end(s, i + 1)
    }
}

pub open spec fn com_at(s: Seq<u8>, i: int) -> bool {
    0 <= i && i + 4 <= s.len() && s[i] == 99 && s[i + 1] == 111 && s[i + 2] == 109 && s[i + 3] == 46
}

/// Every `com.`-style id of at least eight bytes, with its offset, scanning from `i`.
/// A scan resumes after the end of each id it reads, long enough or not.
pub open spec fn packages_from(s: Seq<u8>, i: int) -> Seq<(int, Seq<char>)>
    decreases s.len() - i,
{
    if i < 0 || i + 4 > s.len() {
        Seq::empty()
    } else if com_at(s, i) {
        let j = pkg_run_end(s, i + 4);
        if j <= i || j > s.len() {
            Seq::empty()
        } else if j - i >= 8 {
            seq![(i, ascii_chars(s.subrange(i, j)))] + packages_from(s, j)
        } else {
            packages_from(s, j)
        }
    } else {
        packages_from(s, i + 1)
    }
}

pub open spec fn spec_find_packages(s: Seq<u8>) -> Seq<(int, Seq<char>)> {
    packages_from(s, 0)
}

/// Where the record of the `k`-th package ends: at the next package, or the end of the buffer.
pub open spec fn record_end(s: Seq<u8>, pkgs: Seq<(int, Seq<char>)>, k: int) -> int {
    if k + 1 < pkgs.len() {
        pkgs[k + 1].0
    } else {
        s.len() as int
    }
}

pub open spec fn record_of(s: Seq<u8>, pkgs: Seq<(int, Seq<char>)>, k: int) -> RecordView {
    spec_parse_entry(s.subrange(0, record_end(s, pkgs, k)), pkgs[k].0, pkgs[k].1)
}

/// The first record from the `k`-th package on whose name starts with `package` and that has both
/// a version and a current resolution.
pub open spec fn first_complete(s: Seq<u8>, pkgs: Seq<(int, Seq<char>)>, package: Seq<char>, k: int) -> Option<
    RecordView,
>
    decreases pkgs.len() - k,
{
    if k < 0 || k >= pkgs.len() {
        None
    } else if is_prefix(package, pkgs[k].1) && entry_complete(record_of(s, pkgs, k)) {
        Some(record_of(s, pkgs, k))
    } else {
        first_complete(s, pkgs, package, k + 1)
    }
}

/// The first record from the `k`-th package on whose name starts with `package`.
pub open spec fn first_match(s: Seq<u8>, pkgs: Seq<(int, Seq<char>)>, package: Seq<char>, k: int) -> Option<RecordView>
    decreases pkgs.len() - k,
{
    if k < 0 || k >= pkgs.len() {
        None
    } else if is_prefix(package, pkgs[k].1) {
        Some(record_of(s, pkgs, k))
    } else {
        first_match(s, pkgs, package, k + 1)
    }
}

/// The package name also sits in store URLs and in pages the database has freed, so the fullest
/// record wins: the first complete one, else the first one at all.
pub open spec fn spec_app_record(s: Seq<u8>, package: Seq<char>) -> Option<RecordView> {
    let pkgs = spec_find_packages(s);
    match first_complete(s, pkgs, package, 0) {
        Some(r) => Some(r),
        None => first_match(s, pkgs, package, 0),
    }
}

pub open spec fn spec_render_resolution(s: Seq<u8>, package: Seq<char>) -> Option<(u32, u32)> {
    match spec_app_record(s, package) {
        Some(r) => r.cur,
        None => None,
    }
}

pub open spec fn wh_text(v: Option<(u32, u32)>) -> Seq<char> {
    match v {
        Some((w, h)) => decimal(w as nat).push('x') + decimal(h as nat),
        None => seq!['?'],
    }
}

/// `<package> v<version> render <WxH> (max <WxH>)`, with `?` for what is unknown.
pub open spec fn spec_describe(r: RecordView) -> Seq<char> {
    r.package + " v"@ + (match r.version {
        Some(v) => v,
        None => seq!['?'],
    }) + " render "@ + wh_text(r.cur) + " (max "@ + wh_text(r.max) + ")"@
}

/// `std::str::from_utf8` from std: the text of a byte slice, if it is valid UTF-8.
#[verifier::external_body]
fn utf8_str(bytes: &[u8]) -> (r: Option<&str>)
    ensures
        r is Some <==> valid_utf8(bytes@),
        r matches Some(t) ==> t@ == decode_utf8(bytes@),
{
    std::str::from_utf8(bytes).ok()
}

/// The resolution group: largest option offered and the one in effect.
fn parse_res_group(sub: &[u8]) -> (r: Option<(Option<(u32, u32)>, Option<(u32, u32)>)>)
    requires
        sub@.len() <= isize::MAX,
    ensures
        r == spec_res_group(sub@),
{
    let ghost s = sub@;
    let ghost mut done: Seq<WireField> = Seq::empty();
    let mut pos: usize = 0;
    let mut max: Option<(u32, u32)> = None;
    let mut cur: Option<(u32, u32)> = None;
    while pos < sub.len()
        invariant
            s == sub@,
            s.len() <= isize::MAX,
            pos <= s.len() + 8,
            fields(s).0 == done + fields_from(s, pos as int).0,
            fields(s).1 == fields_from(s, pos as int).1,
            max == payload_wh(s, last_bytes(done, 1)),
            cur == payload_wh(s, last_bytes(done, 2)),
        decreases s.len() + 8 - pos,
    {
        let ghost p0 = pos as int;
        proof {
            lemma_fields_step(s, p0);
            lemma_field_advances(s, p0);
            lemma_varint_at_bounds(s, p0);
        }
        let (field, wire) = read_tag(sub, &mut pos)?;
        proof {
            lemma_varint_at_bounds(s, pos as int);
        }
        if wire == 2 {
            let len = read_varint(sub, &mut pos)?;
            if len > (sub.len() - pos) as u64 {
                return None;
            }
            let l = len as usize;
            let inner = &sub[pos..pos + l];
            pos += l;
            match field {
                1 => max = parse_wh(inner),
                2 => cur = parse_wh(inner),
                _ => {},
            }
        } else {
            skip_wire(sub, &mut pos, wire)?;
        }
        proof {
            let (f, next) = field_at(s, p0).unwrap();
            assert(next == pos);
            lemma_last_bytes_push(done, f, 1);
            lemma_last_bytes_push(done, f, 2);
            assert(done + (seq![f] + fields_from(s, next).0) =~= done.push(f) + fields_from(s, next).0);
            done = done.push(f);
        }
    }
    proof {
        assert(done + fields_from(s, pos as int).0 =~= done);
    }
    Some((max, cur))
}

/// The app version, from the version group.
fn find_version(sub: &[u8]) -> (r: Option<String>)
    requires
        sub@.len() <= isize::MAX,
    ensures
        opt_string(r) == spec_find_version(sub@),
{
    let outer = nested_field(sub, 5)?;
    let bytes = nested_field(outer, 1)?;
    let text = utf8_str(bytes)?;
    Some(text.to_owned())
}

fn keep_plausible_exec(v: Option<(u32, u32)>) -> (r: Option<(u32, u32)>)
    ensures
        r == keep_plausible(v),
{
    match v {
        Some((w, h)) => if plausible(w, h) {
            Some((w, h))
        } else {
            None
        },
        None => None,
    }
}

proof fn lemma_fold_step(s: Seq<u8>, f: WireField, rest: Seq<WireField>, rec: RecordView)
    requires
        !entry_complete(rec),
    ensures
        entry_fold(s, seq![f] + rest, rec) == entry_fold(s, rest, entry_step(rec, s, f)),
{
    assert((seq![f] + rest)[0] == f);
    assert((seq![f] + rest).drop_first() =~= rest);
}

/// Reads the record of `package`, whose name starts at `package_offset`.
fn parse_entry(buf: &[u8], package_offset: usize, package: String) -> (r: AppRecord)
    requires
        buf@.len() <= isize::MAX,
        package_offset + package@.len() <= buf@.len(),
    ensures
        r@ == spec_parse_entry(buf@, package_offset as int, package@),
{
    let ghost s = buf@;
    let ghost pkg = package@;
    let start = package_offset + package.as_str().unicode_len();
    let mut record = AppRecord { package, version: None, cur: None, max: None };
    let mut pos = start;
    proof {
        reveal_view(&record);
    }
    let ghost mut rest: Seq<WireField> = fields_from(s, start as int).0;
    while pos < buf.len() && (record.version.is_none() || record.cur.is_none())
        invariant_except_break
            rest == fields_from(s, pos as int).0,
        invariant
            s == buf@,
            s.len() <= isize::MAX,
            pos <= s.len() + 8,
            start == package_offset + pkg.len(),
            spec_parse_entry(s, package_offset as int, pkg) == entry_fold(s, rest, record@),
            record@.package == pkg,
        ensures
            spec_parse_entry(s, package_offset as int, pkg) == entry_fold(s, rest, record@),
            rest.len() == 0 || entry_complete(record@),
        decreases s.len() + 8 - pos,
    {
        let ghost p0 = pos as int;
        let ghost rec0 = record@;
        proof {
            lemma_fields_step(s, p0);
            lemma_field_advances(s, p0);
            lemma_varint_at_bounds(s, p0);
            reveal_view(&record);
        }
        let Some((field, wire)) = read_tag(buf, &mut pos) else {
            proof {
                rest = Seq::empty();
            }
            break;
        };
        proof {
            lemma_varint_at_bounds(s, pos as int);
        }
        if wire != 2 {
            if skip_wire(buf, &mut pos, wire).is_none() {
                proof {
                    rest = Seq::empty();
                }
                break;
            }
            proof {
                let (f, next) = field_at(s, p0).unwrap();
                lemma_fold_step(s, f, fields_from(s, next).0, rec0);
                rest = fields_from(s, next).0;
            }
            continue;
        }
        let Some(len) = read_varint(buf, &mut pos) else {
            proof {
                rest = Seq::empty();
            }
            break;
        };
        if len > (buf.len() - pos) as u64 {
            proof {
                rest = Seq::empty();
            }
            break;
        }
        let l = len as usize;
        let sub = &buf[pos..pos + l];
        pos += l;
        match field {
            4 => record.version = find_version(sub),
            5 => {
                if let Some((max, cur)) = parse_res_group(sub) {
                    record.max = keep_plausible_exec(max);
                    record.cur = keep_plausible_exec(cur);
                }
            },
            _ => {},
        }
        proof {
            reveal_view(&record);
            let (f, next) = field_at(s, p0).unwrap();
            lemma_fold_step(s, f, fields_from(s, next).0, rec0);
            assert(record@ == entry_step(rec0, s, f));
            rest = fields_from(s, next).0;
        }
    }
    proof {
        reveal_view(&record);
    }
    record
}

/// Whether a byte may appear in a package id.
pub fn is_pkg_byte(b: u8) -> (r: bool)
    ensures
        r == spec_is_pkg_byte(b),
{
    (48 <= b && b <= 57) || (65 <= b && b <= 90) || (97 <= b && b <= 122) || b == 46 || b == 95
}

/// 200 to 10000 on both sides.
pub fn plausible(w: u32, h: u32) -> (r: bool)
    ensures
        r == spec_plausible(w, h),
{
    200 <= w && w <= 10000 && 200 <= h && h <= 10000
}

proof fn lemma_pkg_run_end(s: Seq<u8>, i: int)
    requires
        0 <= i <= s.len(),
    ensures
        i <= pkg_run_end(s, i) <= s.len(),
        forall|k: int| i <= k < pkg_run_end(s, i) ==> spec_is_pkg_byte(#[trigger] s[k]),
    decreases s.len() - i,
{
    if i < s.len() && spec_is_pkg_byte(s[i]) {
        lemma_pkg_run_end(s, i + 1);
    }
}

/// Every `com.`-style id embedded in the buffer, at least eight bytes long, with its offset.
pub fn find_packages(buf: &[u8]) -> (r: Vec<(usize, String)>)
    ensures
        r@.len() == spec_find_packages(buf@).len(),
        forall|k: int|
            0 <= k < r@.len() ==> (#[trigger] r@[k]).0 as int == spec_find_packages(buf@)[k].0 && r@[k].1@
                == spec_find_packages(buf@)[k].1,
{
    let ghost s = buf@;
    let ghost all = spec_find_packages(s);
    let mut out: Vec<(usize, String)> = Vec::new();
    let mut i: usize = 0;
    while buf.len() >= 4 && i <= buf.len() - 4
        invariant
            s == buf@,
            all == spec_find_packages(s),
            i <= s.len(),
            all == out@.map_values(|p: (usize, String)| (p.0 as int, p.1@)) + packages_from(s, i as int),
        decreases s.len() - i,
    {
        let ghost i0 = i as int;
        let ghost before = out@.map_values(|p: (usize, String)| (p.0 as int, p.1@));
        if buf[i] == 99 && buf[i + 1] == 111 && buf[i + 2] == 109 && buf[i + 3] == 46 {
            let start = i;
            let mut j = i;
            while j < buf.len() && is_pkg_byte(buf[j])
                invariant
                    s == buf@,
                    start <= j <= s.len(),
                    start == i0,
                    forall|k: int| start <= k < j ==> spec_is_pkg_byte(#[trigger] s[k]),
                decreases s.len() - j,
            {
                j += 1;
            }
            proof {
                assert(com_at(s, i0));
                assert(j >= start + 4) by {
                    if j < start + 4 {
                        assert(spec_is_pkg_byte(s[j as int]));
                    }
                }
                lemma_run_end_is(s, i0 + 4, j as int);
            }
            if j - start >= 8 {
                let name = string_from_ascii(&buf[start..j]);
                out.push((start, name));
                proof {
                    let here = seq![(i0, ascii_chars(s.subrange(i0, j as int)))];
                    assert(packages_from(s, i0) == here + packages_from(s, j as int));
                    assert(out@.map_values(|p: (usize, String)| (p.0 as int, p.1@)) =~= before + here);
                    assert(before + (here + packages_from(s, j as int)) =~= (before + here) + packages_from(s, j as int));
                }
            } else {
                assert(packages_from(s, i0) == packages_from(s, j as int));
            }
            i = j;
        } else {
            assert(!com_at(s, i0));
            assert(packages_from(s, i0) == packages_from(s, i0 + 1));
            i += 1;
        }
    }
    proof {
        assert(packages_from(s, i as int) =~= Seq::<(int, Seq<char>)>::empty());
        let m = out@.map_values(|p: (usize, String)| (p.0 as int, p.1@));
        assert(all =~= m);
        assert forall|k: int| 0 <= k < out@.len() implies (#[trigger] out@[k]).0 as int == all[k].0 && out@[k].1@
            == all[k].1 by {
            assert(m[k] == (out@[k].0 as int, out@[k].1@));
        }
    }
    out
}

proof fn lemma_run_end_is(s: Seq<u8>, i: int, j: int)
    requires
        0 <= i <= j <= s.len(),
        forall|k: int| i <= k < j ==> spec_is_pkg_byte(#[trigger] s[k]),
        j == s.len() || !spec_is_pkg_byte(s[j]),
    ensures
        pkg_run_end(s, i) == j,
    decreases j - i,
{
    if i < j {
        lemma_run_end_is(s, i + 1, j);
    }
}

/// Looks up `package` in the store database bytes `store`. `None` means the package was never
/// launched through Google Play Games, so the launch URI would only raise its own window.
pub fn app_record(store: &[u8], package: &str) -> (r: Option<AppRecord>)
    requires
        store@.len() <= isize::MAX,
    ensures
        match r {
            Some(rec) => spec_app_record(store@, package@) == Some(rec@),
            None => spec_app_record(store@, package@) is None,
        },
{
    let ghost s = store@;
    let packages = find_packages(store);
    let ghost pkgs = spec_find_packages(s);
    let mut fallback: Option<AppRecord> = None;
    let mut index: usize = 0;
    proof {
        lemma_packages_sorted(s, 0);
    }
    while index < packages.len()
        invariant
            s == store@,
            s.len() <= isize::MAX,
            pkgs == spec_find_packages(s),
            packages@.len() == pkgs.len(),
            forall|k: int|
                0 <= k < packages@.len() ==> (#[trigger] packages@[k]).0 as int == pkgs[k].0 && packages@[k].1@
                    == pkgs[k].1,
            packages_sorted(s, pkgs),
            index <= packages@.len(),
            first_complete(s, pkgs, package@, 0) == first_complete(s, pkgs, package@, index as int),
            match fallback {
                Some(rec) => first_match(s, pkgs, package@, 0) == Some(rec@),
                None => first_match(s, pkgs, package@, 0) == first_match(s, pkgs, package@, index as int),
            },
        decreases packages@.len() - index,
    {
        let offset = packages[index].0;
        let name = &packages[index].1;
        if !starts_with(name.as_str(), package) {
            index += 1;
            continue;
        }
        let end = if index + 1 < packages.len() {
            packages[index + 1].0
        } else {
            store.len()
        };
        proof {
            assert(record_end(s, pkgs, index as int) == end as int);
            assert(pkgs[index as int].0 + pkgs[index as int].1.len() <= end);
        }
        let record = parse_entry(&store[0..end], offset, name.clone());
        proof {
            assert(store@.subrange(0, end as int) == s.subrange(0, record_end(s, pkgs, index as int)));
            assert(record@ == record_of(s, pkgs, index as int));
        }
        if record.version.is_some() && record.cur.is_some() {
            return Some(record);
        }
        if fallback.is_none() {
            fallback = Some(record);
        }
        index += 1;
    }
    fallback
}

/// Whether the package list reads in buffer order, each name ending before the next begins.
pub open spec fn packages_sorted(s: Seq<u8>, pkgs: Seq<(int, Seq<char>)>) -> bool {
    &&& forall|k: int| 0 <= k < pkgs.len() ==> 0 <= (#[trigger] pkgs[k]).0 && pkgs[k].0 + pkgs[k].1.len() <= s.len()
    &&& forall|k: int| 0 <= k < pkgs.len() - 1 ==> (#[trigger] pkgs[k]).0 + pkgs[k].1.len() <= pkgs[k + 1].0
}

proof fn lemma_packages_sorted(s: Seq<u8>, i: int)
    requires
        0 <= i,
    ensures
        packages_sorted(s, packages_from(s, i)),
        forall|k: int| 0 <= k < packages_from(s, i).len() ==> (#[trigger] packages_from(s, i)[k]).0 >= i,
    decreases s.len() - i,
{
    if i + 4 > s.len() {
    } else if com_at(s, i) {
        let j = pkg_run_end(s, i + 4);
        lemma_pkg_run_end(s, i + 4);
        if j <= i || j > s.len() {
        } else {
            lemma_packages_sorted(s, j);
            let rest = packages_from(s, j);
            if j - i >= 8 {
                let here = seq![(i, ascii_chars(s.subrange(i, j)))];
                let all = here + rest;
                assert(packages_from(s, i) == all);
                assert forall|k: int| 0 <= k < all.len() implies 0 <= (#[trigger] all[k]).0 && all[k].0 + all[k].1.len()
                    <= s.len() && all[k].0 >= i by {
                    if k > 0 {
                        assert(all[k] == rest[k - 1]);
                    }
                }
                assert forall|k: int| 0 <= k < all.len() - 1 implies (#[trigger] all[k]).0 + all[k].1.len() <= all[k
                    + 1].0 by {
                    if k > 0 {
                        assert(all[k] == rest[k - 1]);
                        assert(all[k + 1] == rest[k]);
                    } else {
                        assert(all[1] == rest[0]);
                    }
                }
            }
        }
    } else {
        lemma_packages_sorted(s, i + 1);
    }
}

/// The render resolution currently selected for `package`, from the store database bytes.
/// `None` if the record is absent or holds no plausible current resolution.
pub fn render_resolution(store: &[u8], package: &str) -> (r: Option<(u32, u32)>)
    requires
        store@.len() <= isize::MAX,
    ensures
        r == spec_render_resolution(store@, package@),
{
    let rec = app_record(store, package)?;
    proof {
        reveal_view(&rec);
    }
    rec.cur
}

proof fn reveal_view(rec: &AppRecord)
    ensures
        rec@.cur == rec.cur,
        rec@.max == rec.max,
        rec@.version == opt_string(rec.version),
        rec@.package == rec.package@,
{
}

fn push_wh(s: &mut String, v: Option<(u32, u32)>)
    ensures
        final(s)@ == old(s)@ + wh_text(v),
{
    match v {
        Some((w, h)) => {
            push_decimal(s, w as u64);
            push_char(s, 'x');
            push_decimal(s, h as u64);
            assert(final(s)@ =~= old(s)@ + wh_text(v)) by {
                assert(wh_text(v) == decimal(w as nat).push('x') + decimal(h as nat));
            }
        },
        None => {
            push_char(s, '?');
            assert(final(s)@ =~= old(s)@ + wh_text(v));
        },
    }
}

impl AppRecord {
    /// `<package> v<version> render <WxH> (max <WxH>)`, for the log.
    pub fn describe(&self) -> (r: String)
        ensures
            r@ == spec_describe(self@),
    {
        let mut s = self.package.clone();
        s.append(" v");
        match &self.version {
            Some(v) => s.append(v.as_str()),
            None => push_char(&mut s, '?'),
        }
        s.append(" render ");
        push_wh(&mut s, self.cur);
        s.append(" (max ");
        push_wh(&mut s, self.max);
        s.append(")");
        proof {
            reveal_view(self);
        }
        assert(s@ =~= spec_describe(self@));
        s
    }

    pub fn version(&self) -> (r: Option<&String>)
        ensures
            match r {
                Some(v) => self@.version == Some(v@),
                None => self@.version is None,
            },
    {
        self.version.as_ref()
    }

    pub fn cur(&self) -> (r: Option<(u32, u32)>)
        ensures
            r == self@.cur,
    {
        self.cur
    }

    pub fn max(&self) -> (r: Option<(u32, u32)>)
        ensures
            r == self@.max,
    {
        self.max
    }
}

} // verus!
