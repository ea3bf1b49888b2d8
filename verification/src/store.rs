//! The render resolution the store database keeps per package, found by scanning the raw bytes
//! for resolution groups (protobuf field 5, tag byte `0x2A`) and pairing each with the nearest
//! package id before it.

use vstd::prelude::*;

use crate::sys::store::{find_packages, packages_from, payload_wh, plausible, spec_find_packages};
use crate::text::{chars_of, is_prefix, starts_with};
use crate::wire::{
    fields, fields_from, field_at, last_bytes, lemma_field_advances, lemma_fields_step, lemma_last_bytes_push, lemma_varint_at_bounds,
    parse_wh, read_tag, read_varint, skip_wire, spec_plausible, varint_at, WireField,
};

verus! {

/// A resolution group as this scan reads it: only the current resolution (field 2) matters.
pub open spec fn spec_current_group(sub: Seq<u8>) -> Option<Option<(u32, u32)>> {
    let (fs, ok) = fields(sub);
    if !ok {
        None
    } else {
        Some(payload_wh(sub, last_bytes(fs, 2)))
    }
}

/// Index of the package with the greatest offset below `offset` among the first `n`; of equal
/// offsets, the later one.
pub open spec fn nearest_fold(pkgs: Seq<(int, Seq<char>)>, offset: int, n: int) -> Option<int>
    decreases n,
{
    if n <= 0 {
        None
    } else {
        let b = nearest_fold(pkgs, offset, n - 1);
        if pkgs[n - 1].0 < offset && (b is None || pkgs[n - 1].0 >= pkgs[b->0].0) {
            Some(n - 1)
        } else {
            b
        }
    }
}

pub open spec fn spec_nearest_package(pkgs: Seq<(int, Seq<char>)>, offset: int) -> Seq<char> {
    match nearest_fold(pkgs, offset, pkgs.len() as int) {
        Some(k) => pkgs[k].1,
        None => "<unknown>"@,
    }
}

/// The plausible resolution group at `i`, if one is there: its current resolution and where it ends.
pub open spec fn group_at(s: Seq<u8>, i: int) -> Option<((u32, u32), int)> {
    if 0 <= i < s.len() && s[i] == 0x2A {
        match varint_at(s, i + 1) {
            Some((l, p)) => if p + l <= s.len() {
                match spec_current_group(s.subrange(p, p + l)) {
                    Some(Some((w, h))) => if spec_plausible(w, h) {
                        Some(((w, h), p + l))
                    } else {
                        None
                    },
                    _ => None,
                }
            } else {
                None
            },
            None => None,
        }
    } else {
        None
    }
}

/// Every plausible resolution group from `i` on, paired with the package before it. A group that
/// reads is skipped over whole; anything else moves the scan one byte.
pub open spec fn scan_from(s: Seq<u8>, pkgs: Seq<(int, Seq<char>)>, i: int) -> Seq<(Seq<char>, (u32, u32))>
    decreases s.len() - i,
{
    if i < 0 || i >= s.len() {
        Seq::empty()
    } else {
        match group_at(s, i) {
            Some((wh, e)) => if e > i {
                seq![(spec_nearest_package(pkgs, i), wh)] + scan_from(s, pkgs, e)
            } else {
                Seq::empty()
            },
            None => scan_from(s, pkgs, i + 1),
        }
    }
}

pub open spec fn spec_scan(s: Seq<u8>) -> Seq<(Seq<char>, (u32, u32))> {
    scan_from(s, spec_find_packages(s), 0)
}

/// The first scanned entry whose package starts with `package`.
pub open spec fn first_entry(es: Seq<(Seq<char>, (u32, u32))>, package: Seq<char>) -> Option<(u32, u32)>
    decreases es.len(),
{
    if es.len() == 0 {
        None
    } else if is_prefix(package, es[0].0) {
        Some(es[0].1)
    } else {
        first_entry(es.drop_first(), package)
    }
}

pub open spec fn spec_render_resolution(s: Seq<u8>, package: Seq<char>) -> Option<(u32, u32)> {
    first_entry(spec_scan(s), package)
}

struct Entry {
    package: String,
    cur: (u32, u32),
}

/// A resolution group: only field 2, the resolution in effect.
fn parse_res_group(sub: &[u8]) -> (r: Option<Option<(u32, u32)>>)
    requires
        sub@.len() <= isize::MAX,
    ensures
        r == spec_current_group(sub@),
{
    let ghost s = sub@;
    let ghost mut done: Seq<WireField> = Seq::empty();
    let mut pos: usize = 0;
    let mut curr: Option<(u32, u32)> = None;
    while pos < sub.len()
        invariant
            s == sub@,
            s.len() <= isize::MAX,
            pos <= s.len() + 8,
            fields(s).0 == done + fields_from(s, pos as int).0,
            fields(s).1 == fields_from(s, pos as int).1,
            curr == payload_wh(s, last_bytes(done, 2)),
        decreases s.len() + 8 - pos,
    {
        let ghost p0 = pos as int;
        proof {
            lemma_fields_step(s, p0);
            lemma_field_advances(s, p0);
            lemma_varint_at_bounds(s, p0);
        }
        let (field, wire) = read_tag(sub, &mut pos)?;
        proof {
            lemma_varint_at_bounds(s, pos as int);
        }
        if wire == 2 {
            let len = read_varint(sub, &mut pos)?;
            if len > (sub.len() - pos) as u64 {
                return None;
            }
            let l = len as usize;
            let inner = &sub[pos..pos + l];
            pos += l;
            if field == 2 {
                curr = parse_wh(inner);
            }
        } else {
            skip_wire(sub, &mut pos, wire)?;
        }
        proof {
            let (f, next) = field_at(s, p0).unwrap();
            lemma_last_bytes_push(done, f, 2);
            assert(done + (seq![f] + fields_from(s, next).0) =~= done.push(f) + fields_from(s, next).0);
            done = done.push(f);
        }
    }
    proof {
        assert(done + fields_from(s, pos as int).0 =~= done);
    }
    Some(curr)
}

proof fn lemma_nearest_fold_range(pkgs: Seq<(int, Seq<char>)>, offset: int, n: int)
    ensures
        nearest_fold(pkgs, offset, n) matches Some(b) ==> 0 <= b < n,
    decreases n,
{
    if n > 0 {
        lemma_nearest_fold_range(pkgs, offset, n - 1);
    }
}

/// The package with the greatest offset before `offset`, or `<unknown>`.
fn nearest_package(pkgs: &Vec<(usize, String)>, offset: usize) -> (r: String)
    ensures
        r@ == spec_nearest_package(pkgs@.map_values(|p: (usize, String)| (p.0 as int, p.1@)), offset as int),
{
    let ghost m = pkgs@.map_values(|p: (usize, String)| (p.0 as int, p.1@));
    let mut best: Option<usize> = None;
    let mut k: usize = 0;
    while k < pkgs.len()
        invariant
            m == pkgs@.map_values(|p: (usize, String)| (p.0 as int, p.1@)),
            k <= pkgs@.len(),
            match nearest_fold(m, offset as int, k as int) {
                Some(b) => best is Some && best->0 as int == b,
                None => best is None,
            },
            best matches Some(b) ==> b < k,
        decreases pkgs@.len() - k,
    {
        proof {
            lemma_nearest_fold_range(m, offset as int, k as int);
            assert(m[k as int] == (pkgs@[k as int].0 as int, pkgs@[k as int].1@));
            if let Some(b) = best {
                assert(m[b as int] == (pkgs@[b as int].0 as int, pkgs@[b as int].1@));
            }
        }
        let o = pkgs[k].0;
        let better = match best {
            None => true,
            Some(b) => o >= pkgs[b].0,
        };
        if o < offset && better {
            best = Some(k);
        }
        k += 1;
    }
    proof {
        lemma_nearest_fold_range(m, offset as int, k as int);
        if let Some(b) = best {
            assert(m[b as int] == (pkgs@[b as int].0 as int, pkgs@[b as int].1@));
        }
    }
    match best {
        Some(b) => pkgs[b].1.clone(),
        None => String::from_str("<unknown>"),
    }
}

/// Every plausible resolution group in the buffer, paired with the package before it.
fn scan(buf: &[u8]) -> (r: Vec<Entry>)
    requires
        buf@.len() <= isize::MAX,
    ensures
        r@.len() == spec_scan(buf@).len(),
        forall|k: int| 0 <= k < r@.len() ==> (#[trigger] r@[k]).package@ == spec_scan(buf@)[k].0 && r@[k].cur == spec_scan(buf@)[k].1,
{
    let ghost s = buf@;
    let pkgs = find_packages(buf);
    let ghost m = pkgs@.map_values(|p: (usize, String)| (p.0 as int, p.1@));
    proof {
        assert(m =~= spec_find_packages(s));
    }
    let ghost all = spec_scan(s);
    let mut out: Vec<Entry> = Vec::new();
    let mut i: usize = 0;
    while i < buf.len()
        invariant
            s == buf@,
            s.len() <= isize::MAX,
            m == spec_find_packages(s),
            m == pkgs@.map_values(|p: (usize, String)| (p.0 as int, p.1@)),
            all == spec_scan(s),
            i <= s.len(),
            all == out@.map_values(|e: Entry| (e.package@, e.cur)) + scan_from(s, m, i as int),
        decreases s.len() - i,
    {
        let ghost i0 = i as int;
        let ghost before = out@.map_values(|e: Entry| (e.package@, e.cur));
        if buf[i] == 0x2A {
            let mut pos = i + 1;
            proof {
                lemma_varint_at_bounds(s, i0 + 1);
            }
            if let Some(len) = read_varint(buf, &mut pos) {
                if len <= (buf.len() - pos) as u64 {
                    let l = len as usize;
                    if let Some(Some((w, h))) = parse_res_group(&buf[pos..pos + l]) {
                        if plausible(w, h) {
                            let package = nearest_package(&pkgs, i);
                            out.push(Entry { package, cur: (w, h) });
                            proof {
                                assert(group_at(s, i0) == Some(((w, h), (pos + l) as int)));
                                let here = seq![(spec_nearest_package(m, i0), (w, h))];
                                assert(out@.map_values(|e: Entry| (e.package@, e.cur)) =~= before + here);
                                assert(before + (here + scan_from(s, m, (pos + l) as int)) =~= (before + here)
                                    + scan_from(s, m, (pos + l) as int));
                            }
                            i = pos + l;
                            continue;
                        }
                    }
                }
            }
        }
        assert(group_at(s, i0) is None);
        i += 1;
    }
    proof {
        let mm = out@.map_values(|e: Entry| (e.package@, e.cur));
        assert(all =~= mm);
        assert forall|k: int| 0 <= k < out@.len() implies (#[trigger] out@[k]).package@ == all[k].0 && out@[k].cur
            == all[k].1 by {
            assert(mm[k] == (out@[k].package@, out@[k].cur));
        }
    }
    out
}

/// The currently selected render resolution for `package`, from the store database bytes:
/// the first resolution group whose nearest package starts with `package`.
pub fn render_resolution(store: &[u8], package: &str) -> (r: Option<(u32, u32)>)
    requires
        store@.len() <= isize::MAX,
    ensures
        r == spec_render_resolution(store@, package@),
{
    let entries = scan(store);
    let ghost es = spec_scan(store@);
    let mut k: usize = 0;
    assert(es.subrange(0, es.len() as int) =~= es);
    while k < entries.len()
        invariant
            es == spec_scan(store@),
            entries@.len() == es.len(),
            forall|j: int| 0 <= j < entries@.len() ==> (#[trigger] entries@[j]).package@ == es[j].0 && entries@[j].cur
                == es[j].1,
            k <= es.len(),
            first_entry(es, package@) == first_entry(es.subrange(k as int, es.len() as int), package@),
        decreases es.len() - k,
    {
        proof {
            let rest = es.subrange(k as int, es.len() as int);
            assert(rest[0] == es[k as int]);
            assert(rest.drop_first() =~= es.subrange(k + 1, es.len() as int));
        }
        if starts_with(entries[k].package.as_str(), package) {
            return Some(entries[k].cur);
        }
        k += 1;
    }
    None
}

} // verus!
