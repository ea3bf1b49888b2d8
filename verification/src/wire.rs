//! Protocol-buffer wire format, read straight out of a byte buffer.
//!
//! The store database keeps each app record as a protobuf blob. Nothing here knows the schema:
//! these are the primitives (varints, tags, skipping a field) and a grammar for "the fields of a
//! message" that the record readers are specified against.

use vstd::prelude::*;
use vstd::arithmetic::power2::{pow2, lemma2_to64, lemma2_to64_rest, lemma_pow2_adds, lemma_pow2_pos, lemma_pow2_strictly_increases};
use vstd::arithmetic::mul::lemma_mul_inequality;
use vstd::bits::lemma_u64_shl_is_mul;

verus! {

/// The low seven bits of a varint byte.
pub open spec fn digit(b: u8) -> nat {
    (b % 128) as nat
}

/// The number a run of varint bytes spells, least significant group first, without truncation.
pub open spec fn varint_value(s: Seq<u8>) -> nat
    decreases s.len(),
{
    if s.len() == 0 {
        0
    } else {
        varint_value(s.drop_last()) + digit(s.last()) * pow2((7 * (s.len() - 1)) as nat)
    }
}

/// Where a varint that starts at `start` ends (one past its last byte), scanning from `i`.
/// A varint is at most ten bytes long; an eleventh continuation byte, or running off the end,
/// is a failure.
pub open spec fn varint_end(s: Seq<u8>, start: int, i: int) -> Option<int>
    decreases s.len() - i,
{
    if i < 0 || i < start || i >= s.len() || i - start >= 10 {
        None
    } else if s[i] < 128 {
        Some(i + 1)
    } else {
        varint_end(s, start, i + 1)
    }
}

/// The varint at `pos`: its value truncated to 64 bits, and the position just past it.
pub open spec fn varint_at(s: Seq<u8>, pos: int) -> Option<(u64, int)> {
    match varint_end(s, pos, pos) {
        Some(e) => Some(((varint_value(s.subrange(pos, e)) % 0x1_0000_0000_0000_0000) as u64, e)),
        None => None,
    }
}

/// Where a failed varint read leaves the cursor.
pub open spec fn varint_fail_pos(len: int, pos: int) -> int {
    if pos + 10 < len { pos + 10 } else { len }
}

/// The field number a tag carries, cut to a byte as the readers store it.
pub open spec fn tag_field(tag: u64) -> u8 {
    (tag >> 3) as u8
}

/// The wire type a tag carries.
pub open spec fn tag_wire(tag: u64) -> u8 {
    (tag & 7) as u8
}

/// What one field holds.
pub enum WireValue {
    /// wire type 0
    Varint(u64),
    /// wire type 2: the payload occupies `[start, end)` of the buffer
    Bytes(int, int),
    /// wire types 1 and 5, whose payload is skipped unread
    Fixed,
}

pub struct WireField {
    pub num: u8,
    pub wire: u8,
    pub value: WireValue,
}

/// The payload of a field whose tag ends at `p`: the field and where the next one begins.
/// A length-delimited payload must fit in the buffer; a fixed-width one is skipped blindly.
pub open spec fn payload_at(s: Seq<u8>, p: int, num: u8, wire: u8) -> Option<(WireField, int)> {
    if wire == 0 {
        match varint_at(s, p) {
            Some((v, e)) => Some((WireField { num, wire, value: WireValue::Varint(v) }, e)),
            None => None,
        }
    } else if wire == 2 {
        match varint_at(s, p) {
            Some((l, e)) => if e + l <= s.len() {
                Some((WireField { num, wire, value: WireValue::Bytes(e, e + l) }, e + l))
            } else {
                None
            },
            None => None,
        }
    } else if wire == 5 {
        Some((WireField { num, wire, value: WireValue::Fixed }, p + 4))
    } else if wire == 1 {
        Some((WireField { num, wire, value: WireValue::Fixed }, p + 8))
    } else {
        None
    }
}

/// The field at `pos` and where the next one begins.
pub open spec fn field_at(s: Seq<u8>, pos: int) -> Option<(WireField, int)> {
    match varint_at(s, pos) {
        Some((tag, p)) => payload_at(s, p, tag_field(tag), tag_wire(tag)),
        None => None,
    }
}

/// The fields of the message that runs from `pos` to the end of `s`, in order, as far as they
/// can be read, and whether the whole of it could be read.
pub open spec fn fields_from(s: Seq<u8>, pos: int) -> (Seq<WireField>, bool)
    decreases s.len() - pos,
{
    if pos < 0 || pos >= s.len() {
        (Seq::empty(), true)
    } else {
        match field_at(s, pos) {
            Some((f, next)) => if next >= s.len() {
                (seq![f], true)
            } else if next > pos {
                let rest = fields_from(s, next);
                (seq![f] + rest.0, rest.1)
            } else {
                (Seq::empty(), false)
            },
            None => (Seq::empty(), false),
        }
    }
}

/// The fields of a whole message.
pub open spec fn fields(s: Seq<u8>) -> (Seq<WireField>, bool) {
    fields_from(s, 0)
}

/// The value of the last varint field numbered `num`.
pub open spec fn last_varint(fs: Seq<WireField>, num: u8) -> Option<u64>
    decreases fs.len(),
{
    if fs.len() == 0 {
        None
    } else if fs.last().num == num && fs.last().value is Varint {
        Some(fs.last().value->Varint_0)
    } else {
        last_varint(fs.drop_last(), num)
    }
}

/// The payload range of the last length-delimited field numbered `num`.
pub open spec fn last_bytes(fs: Seq<WireField>, num: u8) -> Option<(int, int)>
    decreases fs.len(),
{
    if fs.len() == 0 {
        None
    } else if fs.last().num == num && fs.last().value is Bytes {
        Some((fs.last().value->Bytes_0, fs.last().value->Bytes_1))
    } else {
        last_bytes(fs.drop_last(), num)
    }
}

/// Appending a field changes the last payload of its number only.
pub proof fn lemma_last_bytes_push(fs: Seq<WireField>, f: WireField, num: u8)
    ensures
        last_bytes(fs.push(f), num) == (if f.num == num && f.value is Bytes {
            Some((f.value->Bytes_0, f.value->Bytes_1))
        } else {
            last_bytes(fs, num)
        }),
{
    assert(fs.push(f).drop_last() =~= fs);
}

/// The payload range of the first length-delimited field numbered `num`.
pub open spec fn first_bytes(fs: Seq<WireField>, num: u8) -> Option<(int, int)>
    decreases fs.len(),
{
    if fs.len() == 0 {
        None
    } else if fs[0].num == num && fs[0].value is Bytes {
        Some((fs[0].value->Bytes_0, fs[0].value->Bytes_1))
    } else {
        first_bytes(fs.drop_first(), num)
    }
}

/// A resolution: both a width (field 1) and a height (field 2) present, each cut to 32 bits,
/// in a message that reads through.
pub open spec fn spec_parse_wh(sub: Seq<u8>) -> Option<(u32, u32)> {
    let (fs, ok) = fields(sub);
    if !ok {
        None
    } else {
        match (last_varint(fs, 1), last_varint(fs, 2)) {
            (Some(w), Some(h)) => Some((w as u32, h as u32)),
            _ => None,
        }
    }
}

/// 200 to 10000 on both sides: anything else is not a render resolution.
pub open spec fn spec_plausible(w: u32, h: u32) -> bool {
    200 <= w <= 10000 && 200 <= h <= 10000
}

proof fn lemma_varint_value_bound(s: Seq<u8>)
    ensures
        varint_value(s) < pow2((7 * s.len()) as nat),
    decreases s.len(),
{
    if s.len() == 0 {
        lemma_pow2_pos(0);
    } else {
        let n = (s.len() - 1) as nat;
        lemma_varint_value_bound(s.drop_last());
        lemma_pow2_adds(7 * n, 7);
        lemma2_to64();
        assert((7 * n + 7) as nat == (7 * s.len()) as nat);
        let p = pow2(7 * n);
        assert(digit(s.last()) <= 127);
        lemma_mul_inequality(digit(s.last()) as int, 127, p as int);
        assert(varint_value(s) < p + 127 * p) by (nonlinear_arith)
            requires
                varint_value(s) == varint_value(s.drop_last()) + digit(s.last()) * p,
                varint_value(s.drop_last()) < p,
                digit(s.last()) * p <= 127 * p;
    }
}

/// Adding a seven-bit group at a shift the accumulator does not reach is an OR of disjoint bits.
proof fn lemma_varint_step(acc: u64, b: u8, shift: u32)
    requires
        shift <= 63,
        shift % 7 == 0,
        acc < pow2(shift as nat),
    ensures
        (acc | (((b & 0x7f) as u64) << shift)) as nat == (acc + digit(b) * pow2(shift as nat))
            % 0x1_0000_0000_0000_0000,
        shift <= 56 ==> acc + digit(b) * pow2(shift as nat) < pow2((shift + 7) as nat),
{
    lemma2_to64();
    lemma2_to64_rest();
    let d: u64 = (b & 0x7f) as u64;
    assert(d == b % 128) by (bit_vector)
        requires
            d == (b & 0x7f) as u64,
    ;
    if shift <= 56 {
        let s64: u64 = shift as u64;
        lemma_pow2_strictly_increases(shift as nat, 57);
        lemma_mul_inequality(d as int, 127, pow2(shift as nat) as int);
        assert(127 * pow2(shift as nat) <= 127 * pow2(57)) by (nonlinear_arith)
            requires
                pow2(shift as nat) < pow2(57),
        ;
        lemma_u64_shl_is_mul(d, s64);
        lemma_u64_shl_is_mul(1, s64);
        assert(acc < (1u64 << s64));
        assert(acc | (d << s64) == acc + (d << s64)) by (bit_vector)
            requires
                s64 <= 56,
                d < 128,
                acc < (1u64 << s64),
        ;
        lemma_pow2_adds(shift as nat, 7);
        assert(acc + digit(b) * pow2(shift as nat) < pow2(shift as nat) + 127 * pow2(shift as nat)) by (nonlinear_arith)
            requires
                acc < pow2(shift as nat),
                digit(b) <= 127,
        ;
        assert(((b & 0x7f) as u64) << shift == d << s64);
    } else {
        assert(shift == 63);
        assert(acc < 0x8000_0000_0000_0000);
        assert(acc | (d << 63u32) == acc + (d % 2) * 0x8000_0000_0000_0000) by (bit_vector)
            requires
                d < 128,
                acc < 0x8000_0000_0000_0000,
        ;
        assert((acc + digit(b) * 0x8000_0000_0000_0000) % 0x1_0000_0000_0000_0000 == acc + (digit(b) % 2)
            * 0x8000_0000_0000_0000) by (nonlinear_arith)
            requires
                acc < 0x8000_0000_0000_0000,
                0 <= digit(b) < 128,
        ;
    }
}

proof fn lemma_varint_end_bounds(s: Seq<u8>, start: int, i: int)
    ensures
        varint_end(s, start, i) matches Some(e) ==> i < e <= s.len() && start < e <= start + 10,
    decreases s.len() - i,
{
    if !(i < 0 || i < start || i >= s.len() || i - start >= 10) && s[i] >= 128 {
        lemma_varint_end_bounds(s, start, i + 1);
    }
}

/// A varint that reads takes at least one byte and stays inside the buffer.
pub proof fn lemma_varint_at_bounds(s: Seq<u8>, pos: int)
    ensures
        varint_at(s, pos) matches Some((v, e)) ==> 0 <= pos < e <= s.len(),
{
    lemma_varint_end_bounds(s, pos, pos);
    if varint_at(s, pos) is Some {
        assert(pos >= 0 && pos < s.len());
    }
}

/// A field that reads moves the cursor forward.
pub proof fn lemma_field_advances(s: Seq<u8>, pos: int)
    ensures
        field_at(s, pos) matches Some((f, next)) ==> next > pos,
        field_at(s, pos) matches Some((f, next)) ==> (f.value matches WireValue::Bytes(a, b) ==> pos < a
            <= b <= s.len() && b == next),
{
    lemma_varint_at_bounds(s, pos);
    if let Some((t, p)) = varint_at(s, pos) {
        lemma_varint_at_bounds(s, p);
    }
}

/// One field peeled off the front of a message.
pub proof fn lemma_fields_step(s: Seq<u8>, pos: int)
    requires
        0 <= pos < s.len(),
    ensures
        field_at(s, pos) matches Some((f, next)) ==> fields_from(s, pos) == (seq![f] + fields_from(s, next).0,
            fields_from(s, next).1),
        field_at(s, pos) is None ==> fields_from(s, pos) == (Seq::<WireField>::empty(), false),
{
    lemma_field_advances(s, pos);
    if let Some((f, next)) = field_at(s, pos) {
        if next >= s.len() {
            assert(fields_from(s, next) == (Seq::<WireField>::empty(), true));
            assert(seq![f] + Seq::<WireField>::empty() =~= seq![f]);
        }
    }
}

/// Reads the varint at `*pos`, leaving `*pos` just past it. A cursor already past the end reads
/// nothing and stays where it is.
pub fn read_varint(buf: &[u8], pos: &mut usize) -> (r: Option<u64>)
    ensures
        *old(pos) > buf@.len() ==> r is None && *final(pos) == *old(pos),
        *old(pos) <= buf@.len() ==> match varint_at(buf@, *old(pos) as int) {
            Some((v, e)) => r == Some(v) && *final(pos) == e,
            None => r is None && *final(pos) == varint_fail_pos(buf@.len() as int, *old(pos) as int),
        },
        *old(pos) <= buf@.len() ==> *final(pos) <= buf@.len(),
{
    if *pos > buf.len() {
        return None;
    }
    let ghost start = *pos as int;
    let ghost s = buf@;
    let mut result: u64 = 0;
    let mut shift: u32 = 0;
    proof {
        lemma2_to64();
    }
    while *pos < buf.len()
        invariant
            s == buf@,
            0 <= start <= *pos <= buf@.len(),
            start == *old(pos),
            *pos - start <= 9,
            shift == 7 * (*pos - start),
            result as nat == varint_value(s.subrange(start, *pos as int)),
            result < pow2(shift as nat),
            varint_end(s, start, start) == varint_end(s, start, *pos as int),
        decreases buf@.len() - *pos,
    {
        let b = buf[*pos];
        let ghost i = *pos as int;
        proof {
            assert(i < s.len());
            assert(b == s[i]);
            lemma_varint_step(result, b, shift);
            let t = s.subrange(start, i + 1);
            assert(t.drop_last() =~= s.subrange(start, i));
            assert(t.last() == b);
            assert(varint_value(t) == varint_value(s.subrange(start, i)) + digit(b) * pow2(shift as nat));
        }
        *pos += 1;
        result |= ((b & 0x7f) as u64) << shift;
        assert((b & 0x80 == 0) == (b < 128)) by (bit_vector);
        if b & 0x80 == 0 {
            proof {
                assert(varint_end(s, start, i) == Some(i + 1));
                assert(varint_end(s, start, start) == Some(i + 1));
                assert(result as nat == varint_value(s.subrange(start, i + 1)) % 0x1_0000_0000_0000_0000);
                assert(varint_at(s, start) == Some((result, i + 1)));
                assert(start == *old(pos));
                lemma2_to64();
                lemma2_to64_rest();
                if shift <= 56 {
                    lemma_pow2_strictly_increases((shift + 7) as nat, 64);
                }
            }
            return Some(result);
        }
        shift += 7;
        if shift >= 64 {
            assert(varint_end(s, start, i) == varint_end(s, start, i + 1));
            assert(varint_end(s, start, i + 1) is None);
            return None;
        }
        proof {
            lemma2_to64();
            lemma_pow2_strictly_increases(shift as nat, 64);
        }
    }
    None
}

/// Reads a tag, giving its field number (cut to a byte) and wire type.
pub fn read_tag(buf: &[u8], pos: &mut usize) -> (r: Option<(u8, u8)>)
    ensures
        *old(pos) > buf@.len() ==> r is None && *final(pos) == *old(pos),
        *old(pos) <= buf@.len() ==> match varint_at(buf@, *old(pos) as int) {
            Some((t, e)) => r == Some((tag_field(t), tag_wire(t))) && *final(pos) == e,
            None => r is None,
        },
        *old(pos) <= buf@.len() ==> *final(pos) <= buf@.len(),
{
    let tag = read_varint(buf, pos)?;
    Some((#[verifier::truncate] ((tag >> 3) as u8), #[verifier::truncate] ((tag & 7) as u8)))
}

/// Moves `*pos` past the payload of a field of wire type `wire` whose tag ends at `*pos`.
/// Wire types 3, 4, 6 and 7 cannot be skipped; a length-delimited payload must fit in the buffer.
pub fn skip_wire(buf: &[u8], pos: &mut usize, wire: u8) -> (r: Option<()>)
    requires
        wire == 5 ==> *old(pos) + 4 <= usize::MAX,
        wire == 1 ==> *old(pos) + 8 <= usize::MAX,
        buf@.len() <= isize::MAX,
    ensures
        match payload_at(buf@, *old(pos) as int, 0, wire) {
            Some((_, next)) => r is Some && *final(pos) == next,
            None => r is None,
        },
        *old(pos) <= buf@.len() ==> *final(pos) <= buf@.len() + 8,
{
    proof {
        lemma_varint_at_bounds(buf@, *old(pos) as int);
    }
    match wire {
        0 => {
            read_varint(buf, pos)?;
        },
        2 => {
            let len = read_varint(buf, pos)?;
            if len > (buf.len() - *pos) as u64 {
                return None;
            }
            *pos += len as usize;
        },
        5 => *pos += 4,
        1 => *pos += 8,
        _ => return None,
    }
    Some(())
}

/// A resolution sub-message: field 1 is the width and field 2 the height.
pub fn parse_wh(sub: &[u8]) -> (r: Option<(u32, u32)>)
    requires
        sub@.len() <= isize::MAX,
    ensures
        r == spec_parse_wh(sub@),
{
    let ghost s = sub@;
    let ghost mut done: Seq<WireField> = Seq::empty();
    let mut pos: usize = 0;
    let mut w: Option<u32> = None;
    let mut h: Option<u32> = None;
    while pos < sub.len()
        invariant
            s == sub@,
            s.len() <= isize::MAX,
            pos <= s.len() + 8,
            fields(s).0 == done + fields_from(s, pos as int).0,
            fields(s).1 == fields_from(s, pos as int).1,
            w == (match last_varint(done, 1) { Some(v) => Some(v as u32), None => None::<u32> }),
            h == (match last_varint(done, 2) { Some(v) => Some(v as u32), None => None::<u32> }),
        decreases s.len() + 8 - pos,
    {
        let ghost p0 = pos as int;
        proof {
            lemma_fields_step(s, p0);
            lemma_field_advances(s, p0);
            lemma_varint_at_bounds(s, p0);
        }
        let (field, wire) = read_tag(sub, &mut pos)?;
        if wire == 0 {
            let v = read_varint(sub, &mut pos)?;
            match field {
                1 => w = Some(#[verifier::truncate] (v as u32)),
                2 => h = Some(#[verifier::truncate] (v as u32)),
                _ => {},
            }
        } else {
            skip_wire(sub, &mut pos, wire)?;
        }
        proof {
            let (f, next) = field_at(s, p0).unwrap();
            assert(next == pos);
            let nd = done.push(f);
            assert(nd.drop_last() =~= done);
            assert(seq![f] + fields_from(s, next).0 =~= seq![f].add(fields_from(s, next).0));
            assert(done + (seq![f] + fields_from(s, next).0) =~= nd + fields_from(s, next).0);
            done = nd;
        }
    }
    proof {
        assert(fields_from(s, pos as int).0 =~= Seq::<WireField>::empty());
        assert(done + Seq::<WireField>::empty() =~= done);
    }
    Some((w?, h?))
}

/// The payload of the first length-delimited field numbered `field`, if the message reads that far.
pub fn nested_field(sub: &[u8], field: u8) -> (r: Option<&[u8]>)
    requires
        sub@.len() <= isize::MAX,
    ensures
        match first_bytes(fields(sub@).0, field) {
            Some((a, b)) => r is Some && r->0@ == sub@.subrange(a, b),
            None => r is None,
        },
        r matches Some(t) ==> t@.len() <= sub@.len(),
{
    let ghost s = sub@;
    let mut pos: usize = 0;
    while pos < sub.len()
        invariant
            s == sub@,
            s.len() <= isize::MAX,
            pos <= s.len() + 8,
            first_bytes(fields(s).0, field) == first_bytes(fields_from(s, pos as int).0, field),
        decreases s.len() + 8 - pos,
    {
        let ghost p0 = pos as int;
        proof {
            lemma_fields_step(s, p0);
            lemma_field_advances(s, p0);
            lemma_varint_at_bounds(s, p0);
        }
        let (f, wire) = read_tag(sub, &mut pos)?;
        proof {
            lemma_varint_at_bounds(s, pos as int);
        }
        if wire == 2 {
            let len = read_varint(sub, &mut pos)?;
            if len > (sub.len() - pos) as u64 {
                return None;
            }
            let l = len as usize;
            proof {
                let (fl, next) = field_at(s, p0).unwrap();
                let rest = fields_from(s, next).0;
                assert((seq![fl] + rest)[0] == fl);
                assert((seq![fl] + rest).drop_first() =~= rest);
            }
            if f == field {
                return Some(&sub[pos..pos + l]);
            }
            pos += l;
        } else {
            skip_wire(sub, &mut pos, wire)?;
            proof {
                let (fl, next) = field_at(s, p0).unwrap();
                let rest = fields_from(s, next).0;
                assert((seq![fl] + rest)[0] == fl);
                assert((seq![fl] + rest).drop_first() =~= rest);
            }
        }
    }
    None
}

/// The base-128 varint of `v`: seven-bit groups, least significant first, the high bit set on
/// every byte but the last.
pub open spec fn varint_encoding(v: nat) -> Seq<u8>
    decreases v,
{
    if v < 128 {
        seq![v as u8]
    } else {
        seq![((v % 128) + 128) as u8] + varint_encoding(v / 128)
    }
}

proof fn lemma_varint_encoding_shape(v: nat, k: nat)
    requires
        v < pow2(7 * k),
        k >= 1,
    ensures
        1 <= varint_encoding(v).len() <= k,
        varint_encoding(v).last() < 128,
        forall|i: int| 0 <= i < varint_encoding(v).len() - 1 ==> #[trigger] varint_encoding(v)[i] >= 128,
    decreases v,
{
    if v >= 128 {
        let e = varint_encoding(v);
        let t = varint_encoding(v / 128);
        lemma2_to64();
        if k == 1 {
            assert(false);
        }
        let k1 = (k - 1) as nat;
        lemma_pow2_adds(7 * k1, 7);
        assert((7 * k1 + 7) as nat == 7 * k);
        assert(v / 128 < pow2(7 * k1)) by (nonlinear_arith)
            requires
                v < pow2(7 * k1) * 128,
        ;
        if k1 == 0 {
            assert(pow2(0) == 1);
            assert(false);
        }
        lemma_varint_encoding_shape(v / 128, k1);
        assert(e =~= seq![((v % 128) + 128) as u8] + t);
        assert forall|i: int| 0 <= i < e.len() - 1 implies #[trigger] e[i] >= 128 by {
            if i > 0 {
                assert(e[i] == t[i - 1]);
            }
        }
    }
}

proof fn lemma_varint_value_prepend(b: u8, t: Seq<u8>)
    ensures
        varint_value(seq![b] + t) == digit(b) + 128 * varint_value(t),
    decreases t.len(),
{
    let u = seq![b] + t;
    if t.len() == 0 {
        assert(u =~= seq![b]);
        assert(u.drop_last() =~= Seq::<u8>::empty());
        lemma2_to64();
        assert(varint_value(Seq::<u8>::empty()) == 0);
        assert(varint_value(t) == 0);
        assert(varint_value(u) == varint_value(u.drop_last()) + digit(u.last()) * pow2(0));
        assert(u.last() == b);
    } else {
        let n = (t.len() - 1) as nat;
        assert(u.drop_last() =~= seq![b] + t.drop_last());
        lemma_varint_value_prepend(b, t.drop_last());
        lemma_pow2_adds(7 * n, 7);
        lemma2_to64();
        assert((7 * n + 7) as nat == (7 * (u.len() - 1)) as nat);
        assert(u.last() == t.last());
        let p = pow2(7 * n);
        assert(varint_value(u) == varint_value(u.drop_last()) + digit(t.last()) * (p * 128));
        assert(varint_value(u.drop_last()) == digit(b) + 128 * varint_value(t.drop_last()));
        assert(128 * varint_value(t) == 128 * varint_value(t.drop_last()) + digit(t.last()) * (p * 128)) by (nonlinear_arith)
            requires
                varint_value(t) == varint_value(t.drop_last()) + digit(t.last()) * p,
        ;
    }
}

proof fn lemma_varint_encoding_value(v: nat)
    ensures
        varint_value(varint_encoding(v)) == v,
    decreases v,
{
    if v < 128 {
        let e = varint_encoding(v);
        assert(e.drop_last() =~= Seq::<u8>::empty());
        lemma2_to64();
        assert(varint_value(Seq::<u8>::empty()) == 0);
        assert(varint_value(e) == varint_value(e.drop_last()) + digit(e.last()) * pow2(0));
        assert(e.last() == v as u8);
        assert(digit(v as u8) == v);
    } else {
        lemma_varint_encoding_value(v / 128);
        let b = ((v % 128) + 128) as u8;
        lemma_varint_value_prepend(b, varint_encoding(v / 128));
        assert(digit(b) == v % 128);
    }
}

proof fn lemma_varint_end_of_encoding(s: Seq<u8>, n: int, i: int)
    requires
        1 <= n <= 10,
        n <= s.len(),
        0 <= i < n,
        s[n - 1] < 128,
        forall|j: int| 0 <= j < n - 1 ==> #[trigger] s[j] >= 128,
    ensures
        varint_end(s, 0, i) == Some(n),
    decreases n - i,
{
    if i < n - 1 {
        lemma_varint_end_of_encoding(s, n, i + 1);
    }
}

/// Reading a varint back gives the value that was written, and stops just past it: whatever
/// follows the encoding is left alone.
pub proof fn lemma_varint_round_trip(v: u64, rest: Seq<u8>)
    ensures
        varint_at(varint_encoding(v as nat) + rest, 0) == Some((v, varint_encoding(v as nat).len() as int)),
{
    let e = varint_encoding(v as nat);
    let s = e + rest;
    lemma2_to64_rest();
    lemma2_to64();
    assert(pow2(70) > 0x1_0000_0000_0000_0000) by {
        lemma_pow2_strictly_increases(64, 70);
    }
    lemma_varint_encoding_shape(v as nat, 10);
    assert forall|j: int| 0 <= j < e.len() - 1 implies #[trigger] s[j] >= 128 by {
        assert(s[j] == e[j]);
    }
    assert(s[e.len() - 1] == e[e.len() - 1]);
    lemma_varint_end_of_encoding(s, e.len() as int, 0);
    assert(s.subrange(0, e.len() as int) =~= e);
    lemma_varint_encoding_value(v as nat);
}

proof fn lemma_varint_end_continuations(s: Seq<u8>, start: int, i: int)
    requires
        0 <= start <= i <= start + 10,
        forall|j: int| start <= j < start + 10 && j < s.len() ==> #[trigger] s[j] >= 128,
    ensures
        varint_end(s, start, i) is None,
    decreases start + 10 - i,
{
    if i < start + 10 && i < s.len() {
        lemma_varint_end_continuations(s, start, i + 1);
    }
}

/// Ten continuation bytes in a row are no varint: a longer encoding cannot be read.
pub proof fn lemma_varint_overlong(s: Seq<u8>, pos: int)
    requires
        0 <= pos,
        forall|j: int| pos <= j < pos + 10 && j < s.len() ==> #[trigger] s[j] >= 128,
    ensures
        varint_at(s, pos) is None,
{
    lemma_varint_end_continuations(s, pos, pos);
}

} // verus!
