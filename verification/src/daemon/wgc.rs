//! The capture daemon's frame logic: cutting the game's client area out of a captured window
//! frame, choosing what a request is answered with, and when capture work is skipped.
//!
//! Frames are BGRA, four bytes a pixel, rows top-down with no padding.

use vstd::prelude::*;

use crate::game::capture::{bgra_to_rgba, display_len, lanczos_display, resize_to_display, swap_red_blue};
use crate::sys::config::{DISPLAY_HEIGHT, DISPLAY_WIDTH};

verus! {

/// How a crop rectangle meets a captured frame.
///
/// `aw` x `ah` is the part of the `cw` x `ch` crop the frame covers. DWM leaves the right and
/// bottom few pixels of a window transparent; `ox` x `oy` is the opaque extent inside the covered
/// part, read along its middle row and middle column.
#[derive(Clone, Copy)]
pub struct CropPlan {
    pub fw: u32,
    pub cx: u32,
    pub cy: u32,
    pub cw: u32,
    pub ch: u32,
    pub aw: u32,
    pub ah: u32,
    pub ox: u32,
    pub oy: u32,
}

/// How much of a crop of `size` starting at `start` a frame of `frame_size` covers.
pub open spec fn covered(frame_size: int, start: int, size: int) -> int {
    if frame_size - start < 0 {
        0
    } else if frame_size - start > size {
        size
    } else {
        frame_size - start
    }
}

/// Index of the first byte of the frame pixel under crop pixel (x, y).
pub open spec fn frame_index(fw: int, cx: int, cy: int, x: int, y: int) -> int {
    ((cy + y) * fw + cx + x) * 4
}

/// The alpha of the frame pixel under crop pixel (x, y).
pub open spec fn frame_alpha(frame: Seq<u8>, fw: int, cx: int, cy: int, x: int, y: int) -> u8 {
    frame[frame_index(fw, cx, cy, x, y) + 3]
}

/// The four bytes of the frame pixel under crop pixel (x, y).
pub open spec fn frame_pixel(frame: Seq<u8>, fw: int, cx: int, cy: int, x: int, y: int) -> Seq<u8> {
    frame.subrange(frame_index(fw, cx, cy, x, y), frame_index(fw, cx, cy, x, y) + 4)
}

/// `k` less the transparent pixels that end the first `k` pixels of crop row `y`.
pub open spec fn opaque_width(frame: Seq<u8>, fw: int, cx: int, cy: int, y: int, k: int) -> int
    decreases k,
{
    if k > 0 && frame_alpha(frame, fw, cx, cy, k - 1, y) < 255 {
        opaque_width(frame, fw, cx, cy, y, k - 1)
    } else {
        k
    }
}

/// `k` less the transparent pixels that end the first `k` pixels of crop column `x`.
pub open spec fn opaque_height(frame: Seq<u8>, fw: int, cx: int, cy: int, x: int, k: int) -> int
    decreases k,
{
    if k > 0 && frame_alpha(frame, fw, cx, cy, x, k - 1) < 255 {
        opaque_height(frame, fw, cx, cy, x, k - 1)
    } else {
        k
    }
}

/// The plan for cropping `rect` = (x, y, width, height) out of a `fw` x `fh` frame, or `None`
/// where the rectangle is empty, starts left of or above the frame, or misses it.
pub open spec fn spec_plan_crop(frame: Seq<u8>, fw: u32, fh: u32, rect: (i32, i32, i32, i32)) -> Option<CropPlan> {
    let (cx, cy, cw, ch) = rect;
    let aw = covered(fw as int, cx as int, cw as int);
    let ah = covered(fh as int, cy as int, ch as int);
    if cw <= 0 || ch <= 0 || cx < 0 || cy < 0 || aw == 0 || ah == 0 {
        None
    } else {
        Some(
            CropPlan {
                fw,
                cx: cx as u32,
                cy: cy as u32,
                cw: cw as u32,
                ch: ch as u32,
                aw: aw as u32,
                ah: ah as u32,
                ox: opaque_width(frame, fw as int, cx as int, cy as int, ah / 2, aw) as u32,
                oy: opaque_height(frame, fw as int, cx as int, cy as int, aw / 2, ah) as u32,
            },
        )
    }
}

/// Crop pixel (x, y). The opaque part is the frame's own; past it each row repeats its last
/// opaque pixel and each column its last opaque row. Where nothing is opaque, the covered part is
/// kept and the rest is zero.
pub open spec fn crop_pixel(frame: Seq<u8>, p: CropPlan, x: int, y: int) -> Seq<u8> {
    if p.ox == 0 || p.oy == 0 {
        if x < p.aw && y < p.ah {
            frame_pixel(frame, p.fw as int, p.cx as int, p.cy as int, x, y)
        } else {
            seq![0u8, 0u8, 0u8, 0u8]
        }
    } else {
        frame_pixel(
            frame,
            p.fw as int,
            p.cx as int,
            p.cy as int,
            if x < p.ox { x } else { p.ox - 1 },
            if y < p.oy { y } else { p.oy - 1 },
        )
    }
}

pub open spec fn row_pixels(frame: Seq<u8>, p: CropPlan, y: int) -> spec_fn(int) -> Seq<u8> {
    |x: int| crop_pixel(frame, p, x, y)
}

/// Row `y` of the crop, as bytes.
pub open spec fn crop_row(frame: Seq<u8>, p: CropPlan, y: int) -> Seq<u8> {
    Seq::new(p.cw as nat, row_pixels(frame, p, y)).flatten()
}

pub open spec fn crop_rows(frame: Seq<u8>, p: CropPlan) -> spec_fn(int) -> Seq<u8> {
    |y: int| crop_row(frame, p, y)
}

/// The first `n` rows of the crop, as bytes.
pub open spec fn crop_bytes(frame: Seq<u8>, p: CropPlan, n: int) -> Seq<u8> {
    Seq::new(n as nat, crop_rows(frame, p)).flatten()
}

/// What cropping `rect` out of the frame gives: its size and its bytes, `None` as for the plan.
pub open spec fn spec_crop_region(frame: Seq<u8>, fw: u32, fh: u32, rect: (i32, i32, i32, i32)) -> Option<(u32, u32, Seq<u8>)> {
    match spec_plan_crop(frame, fw, fh, rect) {
        None => None,
        Some(p) => Some((p.cw, p.ch, crop_bytes(frame, p, p.ch as int))),
    }
}

/// A crop whose bytes count fits the 32-bit arithmetic that sizes it.
pub open spec fn crop_size_fits(fw: u32, fh: u32, rect: (i32, i32, i32, i32)) -> bool {
    let (cx, cy, cw, ch) = rect;
    (cw > 0 && ch > 0 && cx >= 0 && cy >= 0 && covered(fw as int, cx as int, cw as int) > 0 && covered(
        fh as int,
        cy as int,
        ch as int,
    ) > 0) ==> cw * ch * 4 <= u32::MAX
}

/// Whether the crop's byte count fits where the crop is made at all: see `crop_size_fits`.
pub fn crop_fits(fw: u32, fh: u32, rect: (i32, i32, i32, i32)) -> (r: bool)
    ensures
        r == crop_size_fits(fw, fh, rect),
{
    let (cx, cy, cw, ch) = rect;
    if cw <= 0 || ch <= 0 || cx < 0 || cy < 0 {
        return true;
    }
    if covered_exec(fw, cx, cw) == 0 || covered_exec(fh, cy, ch) == 0 {
        return true;
    }
    proof {
        assert((cw as u64) * (ch as u64) <= 0x7fff_ffff * 0x7fff_ffff) by (nonlinear_arith)
            requires
                0 < cw <= 0x7fff_ffff,
                0 < ch <= 0x7fff_ffff,
        ;
    }
    (cw as u64) * (ch as u64) * 4 <= u32::MAX as u64
}

proof fn lemma_flatten_new_succ(n: nat, f: spec_fn(int) -> Seq<u8>)
    ensures
        Seq::new(n + 1, f).flatten() == Seq::new(n, f).flatten() + f(n as int),
{
    assert(Seq::new(n + 1, f) =~= Seq::new(n, f).push(f(n as int)));
    Seq::new(n, f).lemma_flatten_push(f(n as int));
}

proof fn lemma_pixel_in_frame(fw: int, fh: int, row: int, col: int)
    by (nonlinear_arith)
    requires
        0 <= row < fh,
        0 <= col < fw,
    ensures
        0 <= (row * fw + col) * 4,
        (row * fw + col) * 4 + 4 <= fw * fh * 4,
{
}

fn covered_exec(frame_size: u32, start: i32, size: i32) -> (r: u32)
    requires
        start >= 0,
        size > 0,
    ensures
        r == covered(frame_size as int, start as int, size as int),
{
    let d: i64 = frame_size as i64 - start as i64;
    if d < 0 {
        0
    } else if d > size as i64 {
        size as u32
    } else {
        d as u32
    }
}

fn alpha_at(frame: &[u8], fw: u32, cx: u32, cy: u32, x: u32, y: u32) -> (r: u8)
    requires
        frame_index(fw as int, cx as int, cy as int, x as int, y as int) + 4 <= frame@.len(),
        frame_index(fw as int, cx as int, cy as int, x as int, y as int) + 4 <= u32::MAX,
    ensures
        r == frame_alpha(frame@, fw as int, cx as int, cy as int, x as int, y as int),
{
    proof {
        assert(0 <= (cy + y) * fw) by (nonlinear_arith);
    }
    let row = cy as u64 + y as u64;
    let i = (row * fw as u64 + cx as u64 + x as u64) * 4 + 3;
    frame[i as usize]
}

/// Plans a crop: see `spec_plan_crop`.
pub fn plan_crop(frame: &[u8], fw: u32, fh: u32, rect: (i32, i32, i32, i32)) -> (r: Option<CropPlan>)
    requires
        frame@.len() >= fw * fh * 4,
        fw * fh * 4 <= u32::MAX,
    ensures
        r == spec_plan_crop(frame@, fw, fh, rect),
{
    let (cx, cy, cw, ch) = rect;
    if cw <= 0 || ch <= 0 || cx < 0 || cy < 0 {
        return None;
    }
    let aw = covered_exec(fw, cx, cw);
    let ah = covered_exec(fh, cy, ch);
    if aw == 0 || ah == 0 {
        return None;
    }
    let (ucx, ucy) = (cx as u32, cy as u32);
    let ghost g = frame@;

    let mid_row = ah / 2;
    let mut ox = aw;
    while ox > 0
        invariant_except_break
            ox <= aw,
            opaque_width(g, fw as int, cx as int, cy as int, mid_row as int, ox as int) == opaque_width(
                g,
                fw as int,
                cx as int,
                cy as int,
                mid_row as int,
                aw as int,
            ),
        invariant
            g == frame@,
            frame@.len() >= fw * fh * 4,
            fw * fh * 4 <= u32::MAX,
            aw == covered(fw as int, cx as int, cw as int),
            ah == covered(fh as int, cy as int, ch as int),
            0 < aw,
            0 < ah,
            cx >= 0,
            cy >= 0,
            ucx == cx,
            ucy == cy,
            mid_row == ah / 2,
        ensures
            ox <= aw,
            opaque_width(g, fw as int, cx as int, cy as int, mid_row as int, aw as int) == ox,
        decreases ox,
    {
        proof {
            lemma_pixel_in_frame(fw as int, fh as int, cy + mid_row, cx + ox - 1);
        }
        let a = alpha_at(frame, fw, ucx, ucy, ox - 1, mid_row);
        if a < 255 {
            ox -= 1;
        } else {
            break;
        }
    }

    let mid_col = aw / 2;
    let mut oy = ah;
    while oy > 0
        invariant_except_break
            oy <= ah,
            opaque_height(g, fw as int, cx as int, cy as int, mid_col as int, oy as int) == opaque_height(
                g,
                fw as int,
                cx as int,
                cy as int,
                mid_col as int,
                ah as int,
            ),
        invariant
            g == frame@,
            frame@.len() >= fw * fh * 4,
            fw * fh * 4 <= u32::MAX,
            aw == covered(fw as int, cx as int, cw as int),
            ah == covered(fh as int, cy as int, ch as int),
            0 < aw,
            0 < ah,
            cx >= 0,
            cy >= 0,
            ucx == cx,
            ucy == cy,
            mid_col == aw / 2,
        ensures
            oy <= ah,
            opaque_height(g, fw as int, cx as int, cy as int, mid_col as int, ah as int) == oy,
        decreases oy,
    {
        proof {
            lemma_pixel_in_frame(fw as int, fh as int, cy + oy - 1, cx + mid_col);
        }
        let a = alpha_at(frame, fw, ucx, ucy, mid_col, oy - 1);
        if a < 255 {
            oy -= 1;
        } else {
            break;
        }
    }

    Some(CropPlan { fw, cx: ucx, cy: ucy, cw: cw as u32, ch: ch as u32, aw, ah, ox, oy })
}

proof fn lemma_opaque_width_le(frame: Seq<u8>, fw: int, cx: int, cy: int, y: int, k: int)
    requires
        k >= 0,
    ensures
        0 <= opaque_width(frame, fw, cx, cy, y, k) <= k,
    decreases k,
{
    if k > 0 && frame_alpha(frame, fw, cx, cy, k - 1, y) < 255 {
        lemma_opaque_width_le(frame, fw, cx, cy, y, k - 1);
    }
}

proof fn lemma_opaque_height_le(frame: Seq<u8>, fw: int, cx: int, cy: int, x: int, k: int)
    requires
        k >= 0,
    ensures
        0 <= opaque_height(frame, fw, cx, cy, x, k) <= k,
    decreases k,
{
    if k > 0 && frame_alpha(frame, fw, cx, cy, x, k - 1) < 255 {
        lemma_opaque_height_le(frame, fw, cx, cy, x, k - 1);
    }
}

/// The plan's parts lie inside the crop and the frame.
proof fn lemma_plan_bounds(frame: Seq<u8>, fw: u32, fh: u32, rect: (i32, i32, i32, i32))
    requires
        spec_plan_crop(frame, fw, fh, rect) is Some,
    ensures
        ({
            let p = spec_plan_crop(frame, fw, fh, rect)->0;
            &&& p.fw == fw
            &&& 0 < p.aw <= p.cw
            &&& 0 < p.ah <= p.ch
            &&& p.cx + p.aw <= fw
            &&& p.cy + p.ah <= fh
            &&& p.ox <= p.aw
            &&& p.oy <= p.ah
            &&& p.cw == rect.2
            &&& p.ch == rect.3
        }),
{
    let (cx, cy, cw, ch) = rect;
    let aw = covered(fw as int, cx as int, cw as int);
    let ah = covered(fh as int, cy as int, ch as int);
    lemma_opaque_width_le(frame, fw as int, cx as int, cy as int, ah / 2, aw);
    lemma_opaque_height_le(frame, fw as int, cx as int, cy as int, aw / 2, ah);
}

fn push_frame_pixel(out: &mut Vec<u8>, frame: &[u8], i: u64)
    requires
        i + 4 <= frame@.len(),
    ensures
        final(out)@ == old(out)@ + frame@.subrange(i as int, i + 4),
{
    let k = i as usize;
    out.push(frame[k]);
    out.push(frame[k + 1]);
    out.push(frame[k + 2]);
    out.push(frame[k + 3]);
    assert(final(out)@ =~= old(out)@ + frame@.subrange(i as int, i + 4));
}

fn push_zero_pixel(out: &mut Vec<u8>)
    ensures
        final(out)@ == old(out)@ + seq![0u8, 0u8, 0u8, 0u8],
{
    out.push(0);
    out.push(0);
    out.push(0);
    out.push(0);
    assert(final(out)@ =~= old(out)@ + seq![0u8, 0u8, 0u8, 0u8]);
}

/// Cuts `rect` = (x, y, width, height) out of a `fw` x `fh` BGRA frame into `out`, which is
/// reused between requests and fully rewritten. Gives the crop's size, or `None` (and leaves
/// `out` alone) where the rectangle is empty or misses the frame.
///
/// The crop keeps its full size even where the frame's edge is transparent: a crop clamped to
/// the opaque part would resize at the wrong scale and shift the picture.
pub fn crop_region(frame: &[u8], fw: u32, fh: u32, rect: (i32, i32, i32, i32), out: &mut Vec<u8>) -> (r: Option<(u32, u32)>)
    requires
        frame@.len() >= fw * fh * 4,
        fw * fh * 4 <= u32::MAX,
        crop_size_fits(fw, fh, rect),
    ensures
        match spec_crop_region(frame@, fw, fh, rect) {
            None => r is None && final(out)@ == old(out)@,
            Some((w, h, bytes)) => r == Some((w, h)) && final(out)@ == bytes,
        },
{
    let p = match plan_crop(frame, fw, fh, rect) {
        None => return None,
        Some(p) => p,
    };
    proof {
        lemma_plan_bounds(frame@, fw, fh, rect);
    }
    let ghost g = frame@;
    out.clear();
    assert(out@ =~= crop_bytes(g, p, 0));
    let mut y: u32 = 0;
    while y < p.ch
        invariant
            g == frame@,
            frame@.len() >= fw * fh * 4,
            fw * fh * 4 <= u32::MAX,
            p.fw == fw,
            0 < p.aw <= p.cw,
            0 < p.ah <= p.ch,
            p.cx + p.aw <= fw,
            p.cy + p.ah <= fh,
            p.ox <= p.aw,
            p.oy <= p.ah,
            y <= p.ch,
            out@ == crop_bytes(g, p, y as int),
        decreases p.ch - y,
    {
        let mut x: u32 = 0;
        assert(Seq::new(0, row_pixels(g, p, y as int)).flatten() =~= Seq::<u8>::empty());
        assert(out@ =~= crop_bytes(g, p, y as int) + Seq::new(0, row_pixels(g, p, y as int)).flatten());
        while x < p.cw
            invariant
                g == frame@,
                frame@.len() >= fw * fh * 4,
                fw * fh * 4 <= u32::MAX,
                p.fw == fw,
                0 < p.aw <= p.cw,
                0 < p.ah <= p.ch,
                p.cx + p.aw <= fw,
                p.cy + p.ah <= fh,
                p.ox <= p.aw,
                p.oy <= p.ah,
                y < p.ch,
                x <= p.cw,
                out@ == crop_bytes(g, p, y as int) + Seq::new(x as nat, row_pixels(g, p, y as int)).flatten(),
            decreases p.cw - x,
        {
            let ghost before = out@;
            if p.ox == 0 || p.oy == 0 {
                if x < p.aw && y < p.ah {
                    proof {
                        lemma_pixel_in_frame(fw as int, fh as int, p.cy + y, p.cx + x);
                    }
                    let i: u64 = ((p.cy as u64 + y as u64) * fw as u64 + p.cx as u64 + x as u64) * 4;
                    push_frame_pixel(out, frame, i);
                } else {
                    push_zero_pixel(out);
                }
            } else {
                let sx = if x < p.ox { x } else { p.ox - 1 };
                let sy = if y < p.oy { y } else { p.oy - 1 };
                proof {
                    lemma_pixel_in_frame(fw as int, fh as int, p.cy + sy, p.cx + sx);
                }
                let i: u64 = ((p.cy as u64 + sy as u64) * fw as u64 + p.cx as u64 + sx as u64) * 4;
                push_frame_pixel(out, frame, i);
            }
            proof {
                assert(out@ == before + crop_pixel(g, p, x as int, y as int));
                lemma_flatten_new_succ(x as nat, row_pixels(g, p, y as int));
                assert(out@ =~= crop_bytes(g, p, y as int) + Seq::new((x + 1) as nat, row_pixels(g, p, y as int)).flatten());
            }
            x += 1;
        }
        proof {
            lemma_flatten_new_succ(y as nat, crop_rows(g, p));
            assert(out@ =~= crop_bytes(g, p, y + 1));
        }
        y += 1;
    }
    Some((p.cw, p.ch))
}


proof fn lemma_row_len(frame: Seq<u8>, fw: u32, fh: u32, p: CropPlan, y: int, n: nat)
    requires
        frame.len() >= fw * fh * 4,
        p.fw == fw,
        p.cx + p.aw <= fw,
        p.cy + p.ah <= fh,
        p.ox <= p.aw,
        p.oy <= p.ah,
        0 <= y,
    ensures
        Seq::new(n, row_pixels(frame, p, y)).flatten().len() == 4 * n,
    decreases n,
{
    if n > 0 {
        let x = n - 1;
        lemma_row_len(frame, fw, fh, p, y, (n - 1) as nat);
        lemma_flatten_new_succ((n - 1) as nat, row_pixels(frame, p, y));
        if p.ox == 0 || p.oy == 0 {
            if x < p.aw && y < p.ah {
                lemma_pixel_in_frame(fw as int, fh as int, p.cy + y, p.cx + x);
            }
        } else {
            let sx = if x < p.ox { x } else { p.ox - 1 };
            let sy = if y < p.oy { y } else { p.oy - 1 };
            lemma_pixel_in_frame(fw as int, fh as int, p.cy + sy, p.cx + sx);
        }
        assert(crop_pixel(frame, p, x, y).len() == 4);
    } else {
        assert(Seq::new(0, row_pixels(frame, p, y)).flatten() =~= Seq::<u8>::empty());
    }
}

proof fn lemma_rows_len(frame: Seq<u8>, fw: u32, fh: u32, p: CropPlan, n: nat)
    requires
        frame.len() >= fw * fh * 4,
        p.fw == fw,
        p.cx + p.aw <= fw,
        p.cy + p.ah <= fh,
        p.ox <= p.aw,
        p.oy <= p.ah,
    ensures
        crop_bytes(frame, p, n as int).len() == n * (p.cw * 4),
    decreases n,
{
    if n > 0 {
        lemma_rows_len(frame, fw, fh, p, (n - 1) as nat);
        lemma_flatten_new_succ((n - 1) as nat, crop_rows(frame, p));
        lemma_row_len(frame, fw, fh, p, n - 1, p.cw as nat);
        assert(n * (p.cw * 4) == (n - 1) * (p.cw * 4) + p.cw * 4) by (nonlinear_arith);
    } else {
        assert(Seq::new(0, crop_rows(frame, p)).flatten() =~= Seq::<u8>::empty());
    }
}

/// A crop always has the full requested size, four bytes for each of its `cw` x `ch` pixels,
/// however little of it the frame covers: a crop clamped to the captured part would be scaled
/// wrongly and shift the picture.
pub proof fn lemma_crop_len(frame: Seq<u8>, fw: u32, fh: u32, rect: (i32, i32, i32, i32))
    requires
        frame.len() >= fw * fh * 4,
        spec_plan_crop(frame, fw, fh, rect) is Some,
    ensures
        ({
            let p = spec_plan_crop(frame, fw, fh, rect)->0;
            crop_bytes(frame, p, p.ch as int).len() == p.cw * p.ch * 4
        }),
{
    let p = spec_plan_crop(frame, fw, fh, rect)->0;
    lemma_plan_bounds(frame, fw, fh, rect);
    lemma_rows_len(frame, fw, fh, p, p.ch as nat);
    assert(p.ch * (p.cw * 4) == p.cw * p.ch * 4) by (nonlinear_arith);
}

/// The latest frame as the client gets it: cropped to the game's client area, scaled to the
/// display size and turned from BGRA into RGBA. `None` where there is nothing to crop.
pub fn display_rgba(frame: &[u8], fw: u32, fh: u32, rect: (i32, i32, i32, i32), crop_buf: &mut Vec<u8>) -> (r: Option<Vec<u8>>)
    requires
        frame@.len() >= fw * fh * 4,
        fw * fh * 4 <= u32::MAX,
        crop_size_fits(fw, fh, rect),
    ensures
        r is Some <==> spec_crop_region(frame@, fw, fh, rect) is Some,
        r matches Some(v) ==> v@.len() == display_len(),
        spec_crop_region(frame@, fw, fh, rect) matches Some((w, h, bytes)) ==> (r matches Some(v)
            && v@ == swap_red_blue(lanczos_display(bytes, w, h))),
        spec_crop_region(frame@, fw, fh, rect) matches Some((w, h, bytes)) ==> ((w == DISPLAY_WIDTH && h
            == DISPLAY_HEIGHT) ==> (r matches Some(v) && v@ == swap_red_blue(bytes))),
{
    let (cw, ch) = match crop_region(frame, fw, fh, rect, crop_buf) {
        None => return None,
        Some(size) => size,
    };
    proof {
        lemma_plan_bounds(frame@, fw, fh, rect);
        lemma_crop_len(frame@, fw, fh, rect);
        assert(crop_buf@.subrange(0, cw * ch * 4) =~= crop_buf@);
    }
    let mut rgba = match resize_to_display(crop_buf.as_slice(), cw, ch) {
        None => return None,
        Some(v) => v,
    };
    proof {
        assert(display_len() % 4 == 0);
        assert(rgba@.subrange(0, rgba@.len() as int) =~= rgba@);
        assert(rgba@.subrange(rgba@.len() as int, rgba@.len() as int) =~= Seq::<u8>::empty());
    }
    bgra_to_rgba(&mut rgba);
    proof {
        let ghost v = rgba@;
        assert(v =~= v + Seq::<u8>::empty());
    }
    Some(rgba)
}


/// Milliseconds after which a frame no longer counts as fresh: the game animates without pause,
/// so an older frame means the window stopped composing.
pub const FRAME_STALE_MS: u64 = 1000;
/// Milliseconds up to which a stale frame is still served while the window lives: a static
/// overlay stops composing too, and the last frame is then still the current screen.
pub const FRAME_REUSE_LIMIT_MS: u64 = 30_000;
/// Nanoseconds between two frames processed while capture idles at low power.
pub const LOW_POWER_INTERVAL_NS: u64 = 500_000_000;
/// Nanoseconds without a request after which capture drops to low power.
pub const LOW_POWER_AFTER_NS: u64 = 15_000_000_000;

/// Where the answer to a frame request comes from.
#[derive(Clone, Copy, PartialEq, Eq, Structural, Debug)]
pub enum FrameSource {
    /// the latest frame, fresh
    Fresh,
    /// the latest frame, stale but the window still lives
    Reused,
    /// no usable frame: a black one
    Black,
}

/// How to answer one frame request.
#[derive(Clone, Copy, PartialEq, Eq, Structural, Debug)]
pub struct RequestPlan {
    /// port 0 asks for the bytes back on the request's own socket; any other port is the
    /// client's `nc` listener
    pub extras: bool,
    pub source: FrameSource,
    /// the client wants the screen and there is none: the one moment worth starting the game
    pub start_game: bool,
    /// an `nc` delivery is acknowledged with one byte once the frame is out
    pub ack: bool,
}

pub open spec fn spec_frame_source(frame_age_ms: Option<u64>, window_alive: bool) -> FrameSource {
    match frame_age_ms {
        None => FrameSource::Black,
        Some(age) => if age < FRAME_STALE_MS {
            FrameSource::Fresh
        } else if age < FRAME_REUSE_LIMIT_MS && window_alive {
            FrameSource::Reused
        } else {
            FrameSource::Black
        },
    }
}

/// The plan for a request naming `port`, given the age of the latest frame (`None`: there is
/// none) and whether the captured window still exists.
pub fn plan_request(port: u16, frame_age_ms: Option<u64>, window_alive: bool) -> (r: RequestPlan)
    ensures
        r.extras == (port == 0),
        r.source == spec_frame_source(frame_age_ms, window_alive),
        r.start_game == (r.source == FrameSource::Black),
        r.ack == (port != 0),
{
    let source = match frame_age_ms {
        None => FrameSource::Black,
        Some(age) => if age < FRAME_STALE_MS {
            FrameSource::Fresh
        } else if age < FRAME_REUSE_LIMIT_MS && window_alive {
            FrameSource::Reused
        } else {
            FrameSource::Black
        },
    };
    let start_game = match source {
        FrameSource::Black => true,
        _ => false,
    };
    RequestPlan { extras: port == 0, source, start_game, ack: port != 0 }
}

/// The port a request names: two little-endian bytes.
pub fn request_port(bytes: [u8; 2]) -> (r: u16)
    ensures
        r == bytes[0] + bytes[1] * 256,
{
    bytes[0] as u16 + bytes[1] as u16 * 256
}

/// Whether the window found must get a fresh capture session: there is none yet, it is bound to
/// another window, or the window's client size changed since (the frame pool is fixed to it).
pub fn rebind_needed(bound: Option<(isize, (i32, i32))>, hwnd: isize, client: (i32, i32)) -> (r: bool)
    ensures
        r == match bound {
            None => true,
            Some((h, size)) => h != hwnd || size != client,
        },
{
    match bound {
        None => true,
        Some((h, size)) => h != hwnd || size.0 != client.0 || size.1 != client.1,
    }
}

/// Whether the bound session still vouches for its window: its frames are fresh. Otherwise the
/// window is looked up again.
pub fn bound_window_live(frame_age_ms: Option<u64>) -> (r: bool)
    ensures
        r == (frame_age_ms matches Some(age) && age < FRAME_STALE_MS),
{
    match frame_age_ms {
        Some(age) => age < FRAME_STALE_MS,
        None => false,
    }
}

/// The crop rectangle of the game's client area inside the captured window frame: the client's
/// top-left corner relative to the frame's, never negative, and the client's size.
pub open spec fn spec_crop_rect(bounds: (i32, i32), client: (i32, i32, i32, i32), origin: (i32, i32)) -> (int, int, int, int) {
    let dx = origin.0 - bounds.0;
    let dy = origin.1 - bounds.1;
    (if dx > 0 { dx } else { 0 }, if dy > 0 { dy } else { 0 }, client.2 - client.0, client.3 - client.1)
}

/// `bounds` is the frame's top-left on screen, `client` the client rectangle
/// (left, top, right, bottom) and `origin` its top-left on screen.
pub fn crop_rect(bounds: (i32, i32), client: (i32, i32, i32, i32), origin: (i32, i32)) -> (r: (i32, i32, i32, i32))
    requires
        i32::MIN <= origin.0 - bounds.0 <= i32::MAX,
        i32::MIN <= origin.1 - bounds.1 <= i32::MAX,
        i32::MIN <= client.2 - client.0 <= i32::MAX,
        i32::MIN <= client.3 - client.1 <= i32::MAX,
    ensures
        (r.0 as int, r.1 as int, r.2 as int, r.3 as int) == spec_crop_rect(bounds, client, origin),
{
    let dx = origin.0 - bounds.0;
    let dy = origin.1 - bounds.1;
    (if dx > 0 { dx } else { 0 }, if dy > 0 { dy } else { 0 }, client.2 - client.0, client.3 - client.1)
}

/// Capture's pace. Frames keep arriving with nobody asking for them; at low power most are
/// dropped, which is what makes idling cheap.
pub struct CaptureRate {
    pub low_power: bool,
    /// when a frame was last processed, in nanoseconds of a monotonic clock
    pub last_processed_ns: u64,
}

impl CaptureRate {
    pub fn new(now_ns: u64) -> (r: CaptureRate)
        ensures
            r.low_power == false,
            r.last_processed_ns == now_ns,
    {
        CaptureRate { low_power: false, last_processed_ns: now_ns }
    }

    /// Whether the frame arriving at `now_ns` is dropped: see `spec_skip_frame`.
    pub fn skip_frame(&mut self, now_ns: u64) -> (r: bool)
        ensures
            (*final(self), r) == spec_skip_frame(*old(self), now_ns),
    {
        if !self.low_power {
            return false;
        }
        let elapsed = if now_ns >= self.last_processed_ns { now_ns - self.last_processed_ns } else { 0 };
        if elapsed < LOW_POWER_INTERVAL_NS {
            return true;
        }
        self.last_processed_ns = now_ns;
        false
    }

    /// A request came in: back to full rate. Gives whether it was at low power.
    pub fn on_request(&mut self) -> (was_low: bool)
        ensures
            was_low == old(self).low_power,
            final(self).low_power == false,
            final(self).last_processed_ns == old(self).last_processed_ns,
    {
        let was_low = self.low_power;
        self.low_power = false;
        was_low
    }

    /// No request for `idle_ns`: past the idle limit, drop to low power. Gives whether it just
    /// dropped.
    pub fn on_idle(&mut self, idle_ns: u64) -> (dropped: bool)
        ensures
            dropped == (idle_ns > LOW_POWER_AFTER_NS && !old(self).low_power),
            final(self).low_power == (old(self).low_power || idle_ns > LOW_POWER_AFTER_NS),
            final(self).last_processed_ns == old(self).last_processed_ns,
    {
        if idle_ns > LOW_POWER_AFTER_NS && !self.low_power {
            self.low_power = true;
            true
        } else {
            false
        }
    }
}

/// Whether the frame arriving at `now` is dropped: only at low power, and only within the
/// interval since the last processed one; a frame processed at low power restarts the interval.
pub open spec fn spec_skip_frame(s: CaptureRate, now: u64) -> (CaptureRate, bool) {
    let skip = s.low_power && sat_sub(now, s.last_processed_ns) < LOW_POWER_INTERVAL_NS;
    (if s.low_power && !skip { CaptureRate { last_processed_ns: now, ..s } } else { s }, skip)
}

/// At low power a frame is processed at most once per interval: after one is processed, every
/// frame arriving within the interval is dropped.
pub proof fn lemma_low_power_paces(s: CaptureRate, t1: u64, t2: u64)
    requires
        s.low_power,
        !spec_skip_frame(s, t1).1,
        t1 <= t2 < t1 + LOW_POWER_INTERVAL_NS,
    ensures
        spec_skip_frame(spec_skip_frame(s, t1).0, t2).1,
{
}

/// At full rate no frame is dropped.
pub proof fn lemma_full_rate_keeps_all(s: CaptureRate, now: u64)
    requires
        !s.low_power,
    ensures
        !spec_skip_frame(s, now).1,
        spec_skip_frame(s, now).0 == s,
{
}

/// `a - b`, or zero where `b` is later: how a monotonic clock reports time elapsed.
pub open spec fn sat_sub(a: u64, b: u64) -> int {
    if a >= b {
        a - b
    } else {
        0
    }
}

/// What to make of the game's render resolution, read when a session is bound.
#[derive(Clone, Copy, PartialEq, Eq, Structural, Debug)]
pub enum ResolutionVerdict {
    /// the same resolution as last time: already reported, nothing to say
    Unchanged,
    /// not 16:9, so the picture is distorted; that is said instead of the resolution
    Distorted,
    /// 16:9 but not the display size
    Mismatch { w: u32, h: u32 },
    /// exactly the display size
    Expected,
}

/// The resolution last looked at, kept for the daemon's life so a change mid-session is
/// reported again.
pub struct ResolutionWatch {
    pub last: Option<(u32, u32)>,
}

pub open spec fn spec_resolution_verdict(last: Option<(u32, u32)>, w: u32, h: u32, distorted: bool) -> ResolutionVerdict {
    if last == Some((w, h)) {
        ResolutionVerdict::Unchanged
    } else if distorted {
        ResolutionVerdict::Distorted
    } else if w != DISPLAY_WIDTH || h != DISPLAY_HEIGHT {
        ResolutionVerdict::Mismatch { w, h }
    } else {
        ResolutionVerdict::Expected
    }
}

impl ResolutionWatch {
    pub fn new() -> (r: ResolutionWatch)
        ensures
            r.last is None,
    {
        ResolutionWatch { last: None }
    }

    /// Looks at `w` x `h`; `distorted` says whether its aspect is off 16:9.
    pub fn check(&mut self, w: u32, h: u32, distorted: bool) -> (r: ResolutionVerdict)
        ensures
            r == spec_resolution_verdict(old(self).last, w, h, distorted),
            final(self).last == Some((w, h)),
    {
        if let Some((lw, lh)) = self.last {
            if lw == w && lh == h {
                return ResolutionVerdict::Unchanged;
            }
        }
        self.last = Some((w, h));
        if distorted {
            ResolutionVerdict::Distorted
        } else if w != DISPLAY_WIDTH || h != DISPLAY_HEIGHT {
            ResolutionVerdict::Mismatch { w, h }
        } else {
            ResolutionVerdict::Expected
        }
    }
}

/// A resolution is reported once: `check` leaves it as the last one looked at, and looking at
/// it again then says nothing, whatever the aspect test gives.
pub proof fn lemma_resolution_reported_once(w: u32, h: u32, again: bool)
    ensures
        spec_resolution_verdict(Some((w, h)), w, h, again) == ResolutionVerdict::Unchanged,
{
}

/// The display size itself, with a 16:9 aspect, is never reported as a problem.
pub proof fn lemma_display_size_never_warns(last: Option<(u32, u32)>)
    ensures
        spec_resolution_verdict(last, DISPLAY_WIDTH, DISPLAY_HEIGHT, false) == ResolutionVerdict::Unchanged
            || spec_resolution_verdict(last, DISPLAY_WIDTH, DISPLAY_HEIGHT, false) == ResolutionVerdict::Expected,
{
}


/// Row `y` of a mapped texture whose rows are `pitch` bytes apart: its first `w` pixels.
pub open spec fn texture_row(src: Seq<u8>, pitch: int, w: int) -> spec_fn(int) -> Seq<u8> {
    |y: int| src.subrange(y * pitch, y * pitch + w * 4)
}

/// Copies the first `h` rows of a mapped `w`-pixel-wide texture into `out`, which is reused and
/// fully rewritten: the padding each row carries up to `pitch` is left behind.
pub fn copy_texture_rows(src: &[u8], pitch: usize, w: usize, h: usize, out: &mut Vec<u8>)
    requires
        w * 4 <= pitch,
        h * pitch <= src@.len(),
    ensures
        final(out)@ == Seq::new(h as nat, texture_row(src@, pitch as int, w as int)).flatten(),
{
    let ghost g = src@;
    let row_len = w * 4;
    let n = src.len();
    out.clear();
    assert(out@ =~= Seq::new(0, texture_row(g, pitch as int, w as int)).flatten());
    let mut y: usize = 0;
    while y < h
        invariant
            g == src@,
            row_len == w * 4,
            n == src@.len(),
            w * 4 <= pitch,
            h * pitch <= src@.len(),
            y <= h,
            out@ == Seq::new(y as nat, texture_row(g, pitch as int, w as int)).flatten(),
        decreases h - y,
    {
        proof {
            assert((y + 1) * pitch <= h * pitch) by (nonlinear_arith)
                requires
                    y < h,
                    pitch >= 0,
            ;
            assert(y * pitch + pitch == (y + 1) * pitch) by (nonlinear_arith);
        }
        let start = y * pitch;
        let mut k: usize = 0;
        let ghost before = out@;
        while k < row_len
            invariant
                g == src@,
                row_len == w * 4,
                start == y * pitch,
                n == src@.len(),
                start + row_len <= src@.len(),
                k <= row_len,
                out@ == before + g.subrange(start as int, start + k),
            decreases row_len - k,
        {
            out.push(src[start + k]);
            k += 1;
            assert(out@ =~= before + g.subrange(start as int, start + k));
        }
        proof {
            lemma_flatten_new_succ(y as nat, texture_row(g, pitch as int, w as int));
        }
        y += 1;
    }
}

} // verus!
