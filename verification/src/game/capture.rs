//! Frames as the client receives them: 1280x720 RGBA, the size its `wm size` reports so tap
//! coordinates line up. A frame is sent raw over `nc` after a three-word header.

use vstd::prelude::*;

use fast_image_resize::images::{Image, ImageRef};
use fast_image_resize::{FilterType, PixelType, ResizeAlg, ResizeOptions, Resizer};
use image::codecs::png::PngEncoder;
use image::{ExtendedColorType, ImageEncoder};

use crate::sys::config::{DISPLAY_HEIGHT, DISPLAY_WIDTH};

verus! {

/// Bytes in one display frame.
pub open spec fn display_len() -> int {
    DISPLAY_WIDTH * DISPLAY_HEIGHT * 4
}

/// The frame sent when there is no picture: all zero.
pub fn black_frame_pixels() -> (r: Vec<u8>)
    ensures
        r@ == Seq::new(display_len() as nat, |i: int| 0u8),
{
    let n: usize = 1280 * 720 * 4;
    let mut v: Vec<u8> = Vec::with_capacity(n);
    let mut i: usize = 0;
    while i < n
        invariant
            n == display_len(),
            i <= n,
            v@ == Seq::new(i as nat, |k: int| 0u8),
        decreases n - i,
    {
        v.push(0);
        i += 1;
        assert(v@ =~= Seq::new(i as nat, |k: int| 0u8));
    }
    v
}

/// The picture `fast_image_resize` makes of a `w` x `h` RGBA8 picture `pixels` (exactly
/// `w * h * 4` bytes) when it scales it to the display size with a Lanczos3 convolution. Its
/// own tests expect the same bytes from every CPU extension, so it depends on these arguments
/// alone.
pub uninterp spec fn lanczos_display(pixels: Seq<u8>, w: u32, h: u32) -> Seq<u8>;

/// Scales a `w` x `h` RGBA8 picture to the display size with a Lanczos3 convolution
/// (`fast_image_resize`: `ImageRef::new`, then `Resizer::resize` into a display-sized image).
///
/// Trusted: the buffer is refused only when it holds fewer than `w * h * 4` bytes, and only
/// those first bytes are read; the result is `lanczos_display` of them, always a full display
/// frame; a picture already at display size comes back byte for byte.
#[verifier::external_body]
pub fn resize_to_display(pixels: &[u8], w: u32, h: u32) -> (r: Option<Vec<u8>>)
    requires
        w * h * 4 <= usize::MAX,
    ensures
        r is Some <==> pixels@.len() >= w * h * 4,
        r matches Some(v) ==> v@ == lanczos_display(pixels@.subrange(0, w * h * 4), w, h),
        r matches Some(v) ==> v@.len() == display_len(),
        (w == DISPLAY_WIDTH && h == DISPLAY_HEIGHT) ==> (r matches Some(v) ==> v@ == pixels@.subrange(
            0,
            display_len(),
        )),
{
    let src = ImageRef::new(w, h, pixels, PixelType::U8x4).ok()?;
    let mut dst = Image::new(DISPLAY_WIDTH, DISPLAY_HEIGHT, PixelType::U8x4);
    let options = ResizeOptions::new().resize_alg(ResizeAlg::Convolution(FilterType::Lanczos3));
    Resizer::new().resize(&src, &mut dst, &options).ok()?;
    Some(dst.into_vec())
}

/// `bytes` with the first and third byte of every four swapped: BGRA to RGBA and back.
pub open spec fn swap_red_blue(bytes: Seq<u8>) -> Seq<u8> {
    Seq::new(
        bytes.len(),
        |i: int|
            if i % 4 == 0 && i + 2 < bytes.len() {
                bytes[i + 2]
            } else if i % 4 == 2 {
                bytes[i - 2]
            } else {
                bytes[i]
            },
    )
}

/// Swaps red and blue in place, pixel by pixel; a trailing partial pixel is left alone.
pub fn bgra_to_rgba(bytes: &mut Vec<u8>)
    ensures
        final(bytes)@ == swap_red_blue(old(bytes)@.subrange(0, old(bytes)@.len() - old(bytes)@.len() % 4))
            + old(bytes)@.subrange(old(bytes)@.len() - old(bytes)@.len() % 4, old(bytes)@.len() as int),
{
    let ghost orig = bytes@;
    let n = bytes.len();
    let whole = n - n % 4;
    let mut i: usize = 0;
    while i < whole
        invariant
            orig == old(bytes)@,
            n == orig.len(),
            whole == n - n % 4,
            i % 4 == 0,
            i <= whole,
            bytes@.len() == n,
            forall|k: int|
                0 <= k < i ==> #[trigger] bytes@[k] == swap_red_blue(orig.subrange(0, whole as int))[k],
            forall|k: int| i <= k < n ==> #[trigger] bytes@[k] == orig[k],
        decreases whole - i,
    {
        let b = bytes[i];
        let r = bytes[i + 2];
        bytes.set(i, r);
        bytes.set(i + 2, b);
        i += 4;
    }
    assert(bytes@ =~= swap_red_blue(orig.subrange(0, whole as int)) + orig.subrange(whole as int, n as int));
}

/// The header an `nc` frame starts with: width, height and format 1 (RGBA8888), each a
/// little-endian 32-bit word.
pub open spec fn nc_header() -> Seq<u8> {
    seq![0x00u8, 0x05, 0, 0, 0xd0, 0x02, 0, 0, 1, 0, 0, 0]
}

/// A frame as sent over `nc`: the header, then the pixels with the very last byte forced to
/// 0xFF, which the client checks as an opaque alpha.
pub open spec fn spec_nc_packet(pixels: Seq<u8>) -> Seq<u8> {
    let b = nc_header() + pixels;
    b.update(b.len() - 1, 0xFFu8)
}

pub fn nc_packet(pixels: &[u8]) -> (r: Vec<u8>)
    requires
        pixels@.len() + 12 <= usize::MAX,
    ensures
        r@ == spec_nc_packet(pixels@),
{
    let mut buf: Vec<u8> = Vec::with_capacity(12 + pixels.len());
    buf.push(0x00);
    buf.push(0x05);
    buf.push(0);
    buf.push(0);
    buf.push(0xd0);
    buf.push(0x02);
    buf.push(0);
    buf.push(0);
    buf.push(1);
    buf.push(0);
    buf.push(0);
    buf.push(0);
    assert(buf@ =~= nc_header());
    let mut i: usize = 0;
    while i < pixels.len()
        invariant
            i <= pixels@.len(),
            buf@ == nc_header() + pixels@.subrange(0, i as int),
        decreases pixels@.len() - i,
    {
        buf.push(pixels[i]);
        i += 1;
        assert(buf@ =~= nc_header() + pixels@.subrange(0, i as int));
    }
    assert(pixels@.subrange(0, pixels@.len() as int) =~= pixels@);
    let last = buf.len() - 1;
    buf.set(last, 0xFF);
    buf
}

/// A frame to deliver to the client's `nc` listener on `port`.
pub struct NcFrame {
    pub port: u16,
    pub packet: Vec<u8>,
}

/// The black frame for `port`, for when there is no window to capture.
pub fn send_black_frame_nc(port: u16) -> (r: NcFrame)
    ensures
        r.port == port,
        r.packet@ == spec_nc_packet(Seq::new(display_len() as nat, |i: int| 0u8)),
{
    let pixels = black_frame_pixels();
    NcFrame { port, packet: nc_packet(&pixels) }
}

/// The header of the byte-return answer: width and height, little-endian 32-bit words.
pub open spec fn extras_header() -> Seq<u8> {
    seq![0x00u8, 0x05, 0, 0, 0xd0, 0x02, 0, 0]
}

/// The byte-return answer: the header, then the frame as it is.
pub fn extras_frame(rgba: &[u8]) -> (r: Vec<u8>)
    requires
        rgba@.len() + 8 <= usize::MAX,
    ensures
        r@ == extras_header() + rgba@,
{
    let mut buf: Vec<u8> = Vec::with_capacity(8 + rgba.len());
    buf.push(0x00);
    buf.push(0x05);
    buf.push(0);
    buf.push(0);
    buf.push(0xd0);
    buf.push(0x02);
    buf.push(0);
    buf.push(0);
    let mut i: usize = 0;
    while i < rgba.len()
        invariant
            i <= rgba@.len(),
            buf@ == extras_header() + rgba@.subrange(0, i as int),
        decreases rgba@.len() - i,
    {
        buf.push(rgba[i]);
        i += 1;
        assert(buf@ =~= extras_header() + rgba@.subrange(0, i as int));
    }
    assert(rgba@.subrange(0, rgba@.len() as int) =~= rgba@);
    buf
}


/// The PNG file `image` encodes for a `w` x `h` RGBA8 picture, `None` where it refuses it.
pub uninterp spec fn png_of(rgba: Seq<u8>, w: u32, h: u32) -> Option<Seq<u8>>;

/// `image`'s `PngEncoder::write_image` into a byte vector, as RGBA8.
///
/// Trusted: the result is `png_of` of the arguments. The encoder panics unless the buffer holds
/// exactly `w * h * 4` bytes, hence the precondition; writing into a vector cannot fail.
#[verifier::external_body]
fn encode_png(rgba: &[u8], w: u32, h: u32) -> (r: Option<Vec<u8>>)
    requires
        rgba@.len() == w * h * 4,
    ensures
        match r {
            Some(v) => png_of(rgba@, w, h) == Some(v@),
            None => png_of(rgba@, w, h) is None,
        },
{
    let mut out: Vec<u8> = Vec::new();
    PngEncoder::new(&mut out).write_image(rgba, w, h, ExtendedColorType::Rgba8).ok()?;
    Some(out)
}

/// The PNG of a display frame: the captured pixels, or a black frame where there are none;
/// `exec-out screencap -p` prints it.
pub fn send_capture(pixels: Option<Vec<u8>>) -> (r: Option<Vec<u8>>)
    requires
        pixels matches Some(p) ==> p@.len() == display_len(),
    ensures
        ({
            let shown = match pixels {
                Some(p) => p@,
                None => Seq::new(display_len() as nat, |i: int| 0u8),
            };
            match r {
                Some(v) => png_of(shown, DISPLAY_WIDTH, DISPLAY_HEIGHT) == Some(v@),
                None => png_of(shown, DISPLAY_WIDTH, DISPLAY_HEIGHT) is None,
            }
        }),
{
    let frame = match pixels {
        Some(p) => p,
        None => black_frame_pixels(),
    };
    encode_png(frame.as_slice(), DISPLAY_WIDTH, DISPLAY_HEIGHT)
}

/// The PNG of a black display frame, for when there is no window.
pub fn send_black_frame() -> (r: Option<Vec<u8>>)
    ensures
        match r {
            Some(v) => png_of(Seq::new(display_len() as nat, |i: int| 0u8), DISPLAY_WIDTH, DISPLAY_HEIGHT) == Some(v@),
            None => png_of(Seq::new(display_len() as nat, |i: int| 0u8), DISPLAY_WIDTH, DISPLAY_HEIGHT) is None,
        },
{
    send_capture(None)
}


/// Swapping red and blue twice gives the bytes back, so the same swap turns BGRA into RGBA and
/// RGBA into BGRA.
pub proof fn lemma_swap_red_blue_twice(bytes: Seq<u8>)
    requires
        bytes.len() % 4 == 0,
    ensures
        swap_red_blue(swap_red_blue(bytes)) == bytes,
{
    let once = swap_red_blue(bytes);
    assert forall|i: int| 0 <= i < bytes.len() implies #[trigger] swap_red_blue(once)[i] == bytes[i] by {
        if i % 4 == 0 {
            assert(i + 2 < bytes.len()) by {
                assert(i + 4 <= bytes.len()) by (nonlinear_arith)
                    requires
                        i % 4 == 0,
                        0 <= i < bytes.len(),
                        bytes.len() % 4 == 0,
                ;
            }
            assert((i + 2) % 4 == 2);
        } else if i % 4 == 2 {
            assert((i - 2) % 4 == 0);
            assert(i - 2 + 2 < bytes.len());
        }
    }
    assert(swap_red_blue(once) =~= bytes);
}


/// Index of byte `c` of pixel (x, y) in a picture `w` pixels wide.
pub open spec fn pixel_index(w: int, x: int, y: int, c: int) -> int {
    (y * w + x) * 4 + c
}

/// Whether offset (a, b) from a cross's centre is painted: its two diagonals reach four pixels
/// out, three pixels thick.
pub open spec fn on_cross(a: int, b: int) -> bool {
    exists|i: int| #[trigger] near_diagonals(i, a, b)
}

/// Whether (a, b) lies within one pixel of point `i` of either diagonal, for `i` out to four.
pub open spec fn near_diagonals(i: int, a: int, b: int) -> bool {
    -4 <= i <= 4 && -1 <= a - i <= 1 && (-1 <= b - i <= 1 || -1 <= b + i <= 1)
}

/// Whether offset (a, b) from a dot's centre is painted: the centre and its four neighbours,
/// the pixels within distance one.
pub open spec fn on_dot(a: int, b: int) -> bool {
    -1 <= a <= 1 && -1 <= b <= 1 && a * a + b * b <= 1
}

pub open spec fn on_mark(cross: bool, a: int, b: int) -> bool {
    if cross {
        on_cross(a, b)
    } else {
        on_dot(a, b)
    }
}

/// `new` is `old` with the mark centred at (cx, cy) painted in `color`, as far as `done` says;
/// pixels off the picture are skipped.
pub open spec fn painted(
    old: Seq<u8>,
    new: Seq<u8>,
    w: u32,
    h: u32,
    cx: i32,
    cy: i32,
    color: [u8; 4],
    cross: bool,
    done: spec_fn(int, int) -> bool,
) -> bool {
    &&& new.len() == old.len()
    &&& forall|x: int, y: int, c: int|
        0 <= x < w && 0 <= y < h && 0 <= c < 4 ==> #[trigger] new[pixel_index(w as int, x, y, c)] == if on_mark(
            cross,
            x - cx,
            y - cy,
        ) && done(x - cx, y - cy) {
            color[c]
        } else {
            old[pixel_index(w as int, x, y, c)]
        }
}

pub open spec fn all_done() -> spec_fn(int, int) -> bool {
    |a: int, b: int| true
}

/// The offsets a scan row by row over [-5, 5] x [-5, 5] has reached: rows above `row`, and in
/// `row` the columns up to and not including `col`.
pub open spec fn scanned(row: int, col: int) -> spec_fn(int, int) -> bool {
    |a: int, b: int| b < row || (b == row && a < col)
}

proof fn lemma_pixel_index_bounds(w: int, h: int, x: int, y: int)
    by (nonlinear_arith)
    requires
        0 <= x < w,
        0 <= y < h,
    ensures
        0 <= pixel_index(w, x, y, 0),
        pixel_index(w, x, y, 3) < w * h * 4,
{
}

proof fn lemma_pixel_index_unique(w: int, x1: int, y1: int, c1: int, x2: int, y2: int, c2: int)
    requires
        0 <= x1 < w,
        0 <= x2 < w,
        0 <= y1,
        0 <= y2,
        0 <= c1 < 4,
        0 <= c2 < 4,
        pixel_index(w, x1, y1, c1) == pixel_index(w, x2, y2, c2),
    ensures
        x1 == x2 && y1 == y2 && c1 == c2,
{
    let i = pixel_index(w, x1, y1, c1);
    vstd::arithmetic::div_mod::lemma_fundamental_div_mod_converse(i, 4, y1 * w + x1, c1);
    vstd::arithmetic::div_mod::lemma_fundamental_div_mod_converse(i, 4, y2 * w + x2, c2);
    vstd::arithmetic::div_mod::lemma_fundamental_div_mod_converse(y1 * w + x1, w, y1, x1);
    vstd::arithmetic::div_mod::lemma_fundamental_div_mod_converse(y2 * w + x2, w, y2, x2);
}

proof fn lemma_other_pixel(w: int, x: int, y: int, c: int, nx: int, ny: int)
    requires
        0 <= x < w,
        0 <= nx < w,
        0 <= y,
        0 <= ny,
        0 <= c < 4,
        x != nx || y != ny,
    ensures
        pixel_index(w, x, y, c) != pixel_index(w, nx, ny, 0),
        pixel_index(w, x, y, c) != pixel_index(w, nx, ny, 0) + 1,
        pixel_index(w, x, y, c) != pixel_index(w, nx, ny, 0) + 2,
        pixel_index(w, x, y, c) != pixel_index(w, nx, ny, 0) + 3,
{
    let i = pixel_index(w, x, y, c);
    if i == pixel_index(w, nx, ny, 0) {
        lemma_pixel_index_unique(w, x, y, c, nx, ny, 0);
    }
    if i == pixel_index(w, nx, ny, 0) + 1 {
        lemma_pixel_index_unique(w, x, y, c, nx, ny, 1);
    }
    if i == pixel_index(w, nx, ny, 0) + 2 {
        lemma_pixel_index_unique(w, x, y, c, nx, ny, 2);
    }
    if i == pixel_index(w, nx, ny, 0) + 3 {
        lemma_pixel_index_unique(w, x, y, c, nx, ny, 3);
    }
}

/// A marked offset lies within five pixels of the centre.
proof fn lemma_mark_near(cross: bool, a: int, b: int)
    requires
        on_mark(cross, a, b),
    ensures
        -5 <= a <= 5 && -5 <= b <= 5,
{
    if cross {
        let i = choose|i: int| #[trigger] near_diagonals(i, a, b);
    }
}

fn on_mark_exec(cross: bool, a: i64, b: i64) -> (r: bool)
    requires
        -5 <= a <= 5,
        -5 <= b <= 5,
    ensures
        r == on_mark(cross, a as int, b as int),
{
    if !cross {
        if -1 <= a && a <= 1 && -1 <= b && b <= 1 {
            return a * a + b * b <= 1;
        }
        return false;
    }
    let mut i: i64 = -4;
    while i <= 4
        invariant
            cross,
            -4 <= i <= 5,
            -5 <= a <= 5,
            -5 <= b <= 5,
            forall|j: int| j < i ==> !#[trigger] near_diagonals(j, a as int, b as int),
        decreases 5 - i,
    {
        if -1 <= a - i && a - i <= 1 && ((-1 <= b - i && b - i <= 1) || (-1 <= b + i && b + i <= 1)) {
            assert(near_diagonals(i as int, a as int, b as int));
            assert(on_cross(a as int, b as int));
            return true;
        }
        i += 1;
    }
    false
}

fn draw_mark(buf: &mut Vec<u8>, w: u32, h: u32, cx: i32, cy: i32, color: [u8; 4], cross: bool)
    requires
        old(buf)@.len() == w * h * 4,
    ensures
        painted(old(buf)@, final(buf)@, w, h, cx, cy, color, cross, all_done()),
{
    let ghost orig = buf@;
    let n = buf.len();
    assert(n == w * h * 4);
    let mut b: i64 = -5;
    proof {
        assert(painted(orig, buf@, w, h, cx, cy, color, cross, scanned(-5, -5)));
    }
    while b <= 5
        invariant
            -5 <= b <= 6,
            orig.len() == w * h * 4,
            w * h * 4 <= usize::MAX,
            painted(orig, buf@, w, h, cx, cy, color, cross, scanned(b as int, -5)),
        decreases 6 - b,
    {
        let mut a: i64 = -5;
        while a <= 5
            invariant
                -5 <= b <= 5,
                -5 <= a <= 6,
                orig.len() == w * h * 4,
                w * h * 4 <= usize::MAX,
                painted(orig, buf@, w, h, cx, cy, color, cross, scanned(b as int, a as int)),
            decreases 6 - a,
        {
            let ghost before = buf@;
            let nx: i64 = cx as i64 + a;
            let ny: i64 = cy as i64 + b;
            if on_mark_exec(cross, a, b) && 0 <= nx && nx < w as i64 && 0 <= ny && ny < h as i64 {
                proof {
                    lemma_pixel_index_bounds(w as int, h as int, nx as int, ny as int);
                }
                let k = ((ny as u64 * w as u64 + nx as u64) * 4) as usize;
                buf.set(k, color[0]);
                buf.set(k + 1, color[1]);
                buf.set(k + 2, color[2]);
                buf.set(k + 3, color[3]);
                proof {
                    assert forall|x: int, y: int, c: int| 0 <= x < w && 0 <= y < h && 0 <= c < 4 implies #[trigger] buf@[pixel_index(
                        w as int,
                        x,
                        y,
                        c,
                    )] == if on_mark(cross, x - cx, y - cy) && scanned(b as int, a + 1)(x - cx, y - cy) {
                        color[c]
                    } else {
                        orig[pixel_index(w as int, x, y, c)]
                    } by {
                        lemma_pixel_index_bounds(w as int, h as int, x, y);
                        if x == nx && y == ny {
                            assert(pixel_index(w as int, x, y, c) == k + c);
                        } else {
                            lemma_other_pixel(w as int, x, y, c, nx as int, ny as int);
                            assert(k == pixel_index(w as int, nx as int, ny as int, 0));
                            assert(buf@[pixel_index(w as int, x, y, c)] == before[pixel_index(w as int, x, y, c)]);
                        }
                    }
                }
            } else {
                proof {
                    assert forall|x: int, y: int, c: int| 0 <= x < w && 0 <= y < h && 0 <= c < 4 implies #[trigger] buf@[pixel_index(
                        w as int,
                        x,
                        y,
                        c,
                    )] == if on_mark(cross, x - cx, y - cy) && scanned(b as int, a + 1)(x - cx, y - cy) {
                        color[c]
                    } else {
                        orig[pixel_index(w as int, x, y, c)]
                    } by {
                        if x - cx == a && y - cy == b {
                            assert(!on_mark(cross, a as int, b as int) || !(0 <= nx < w && 0 <= ny < h));
                        }
                    }
                }
            }
            a += 1;
        }
        proof {
            assert forall|x: int, y: int, c: int| 0 <= x < w && 0 <= y < h && 0 <= c < 4 implies #[trigger] buf@[pixel_index(
                w as int,
                x,
                y,
                c,
            )] == if on_mark(cross, x - cx, y - cy) && scanned(b + 1, -5)(x - cx, y - cy) {
                color[c]
            } else {
                orig[pixel_index(w as int, x, y, c)]
            } by {
                if on_mark(cross, x - cx, y - cy) {
                    lemma_mark_near(cross, x - cx, y - cy);
                }
            }
        }
        b += 1;
    }
    proof {
        assert forall|x: int, y: int, c: int| 0 <= x < w && 0 <= y < h && 0 <= c < 4 implies #[trigger] buf@[pixel_index(
            w as int,
            x,
            y,
            c,
        )] == if on_mark(cross, x - cx, y - cy) && all_done()(x - cx, y - cy) {
            color[c]
        } else {
            orig[pixel_index(w as int, x, y, c)]
        } by {
            if on_mark(cross, x - cx, y - cy) {
                lemma_mark_near(cross, x - cx, y - cy);
            }
        }
    }
}

/// Paints an X centred at (cx, cy) into a `w` x `h` RGBA picture: the start and end of a
/// touch's path on the overlay.
pub fn draw_x(buf: &mut Vec<u8>, w: u32, h: u32, cx: i32, cy: i32, color: [u8; 4])
    requires
        old(buf)@.len() == w * h * 4,
    ensures
        painted(old(buf)@, final(buf)@, w, h, cx, cy, color, true, all_done()),
{
    draw_mark(buf, w, h, cx, cy, color, true);
}

/// Paints a dot centred at (cx, cy): a point along a touch's path on the overlay.
pub fn draw_filled_circle(buf: &mut Vec<u8>, w: u32, h: u32, cx: i32, cy: i32, color: [u8; 4])
    requires
        old(buf)@.len() == w * h * 4,
    ensures
        painted(old(buf)@, final(buf)@, w, h, cx, cy, color, false, all_done()),
{
    draw_mark(buf, w, h, cx, cy, color, false);
}

} // verus!
