//! The emulator capture interface the client loads as a DLL: it asks for the screen with a
//! caller-owned buffer, and frames come from the capture daemon. Failures are status codes, never
//! a panic, since a panic there takes the client down with it.

use vstd::prelude::*;

use crate::game::capture::display_len;

verus! {

/// The largest frame accepted from the daemon, in bytes.
pub const MAX_FRAME_BYTES: usize = 64 * 1024 * 1024;

/// A little-endian 32-bit word.
pub open spec fn le_u32(b0: u8, b1: u8, b2: u8, b3: u8) -> int {
    b0 + b1 * 0x100 + b2 * 0x1_0000 + b3 * 0x100_0000
}

/// The byte count of the frame the daemon announces with `[width][height]`, or `None` where it
/// is empty or larger than accepted.
pub open spec fn spec_frame_len(wh: [u8; 8]) -> Option<int> {
    let n = le_u32(wh[0], wh[1], wh[2], wh[3]) * le_u32(wh[4], wh[5], wh[6], wh[7]) * 4;
    if 0 < n <= MAX_FRAME_BYTES {
        Some(n)
    } else {
        None
    }
}

pub fn frame_len(wh: [u8; 8]) -> (r: Option<usize>)
    ensures
        match spec_frame_len(wh) {
            Some(n) => r == Some(n as usize),
            None => r is None,
        },
{
    let w: u64 = wh[0] as u64 + wh[1] as u64 * 0x100 + wh[2] as u64 * 0x1_0000 + wh[3] as u64 * 0x100_0000;
    let h: u64 = wh[4] as u64 + wh[5] as u64 * 0x100 + wh[6] as u64 * 0x1_0000 + wh[7] as u64 * 0x100_0000;
    if w == 0 || h == 0 {
        proof {
            assert(w * h * 4 == 0) by (nonlinear_arith)
                requires
                    w == 0 || h == 0,
            ;
        }
        return None;
    }
    // Both are at least 1, so either one past the limit makes the product too large.
    if w > MAX_FRAME_BYTES as u64 || h > MAX_FRAME_BYTES as u64 {
        proof {
            assert(w * h * 4 > MAX_FRAME_BYTES) by (nonlinear_arith)
                requires
                    w >= 1,
                    h >= 1,
                    w > MAX_FRAME_BYTES || h > MAX_FRAME_BYTES,
            ;
        }
        return None;
    }
    proof {
        assert(w * h <= 0x400_0000 * 0x400_0000) by (nonlinear_arith)
            requires
                w <= 0x400_0000,
                h <= 0x400_0000,
        ;
        assert(w * h * 4 > 0) by (nonlinear_arith)
            requires
                w >= 1,
                h >= 1,
        ;
        assert(w == le_u32(wh[0], wh[1], wh[2], wh[3]));
        assert(h == le_u32(wh[4], wh[5], wh[6], wh[7]));
    }
    let n: u64 = w * h * 4;
    if n > MAX_FRAME_BYTES as u64 {
        return None;
    }
    Some(n as usize)
}

/// What a capture call with `buffer_size` asks for.
#[derive(Clone, Copy, PartialEq, Eq, Structural, Debug)]
pub enum CaptureCall {
    /// size 0: only the dimensions are wanted; status 0
    Dimensions,
    /// no buffer, or one too small for a frame; status 1
    Refused,
    /// fill the buffer; status 0
    Fill,
}

pub open spec fn spec_capture_call(buffer_size: i32, pixels_null: bool) -> CaptureCall {
    if buffer_size == 0 {
        CaptureCall::Dimensions
    } else if pixels_null || buffer_size < 0 || buffer_size < display_len() {
        CaptureCall::Refused
    } else {
        CaptureCall::Fill
    }
}

pub fn capture_call(buffer_size: i32, pixels_null: bool) -> (r: CaptureCall)
    ensures
        r == spec_capture_call(buffer_size, pixels_null),
{
    if buffer_size == 0 {
        CaptureCall::Dimensions
    } else if pixels_null || buffer_size < 0 || buffer_size < 1280 * 720 * 4 {
        CaptureCall::Refused
    } else {
        CaptureCall::Fill
    }
}

/// The status a capture call returns: 0 for success, above 0 for failure.
pub fn capture_status(call: CaptureCall) -> (r: i32)
    ensures
        r == if call == CaptureCall::Refused { 1i32 } else { 0i32 },
{
    match call {
        CaptureCall::Refused => 1,
        _ => 0,
    }
}

/// Bytes in one display row.
pub open spec fn row_len() -> int {
    5120int
}

/// Byte `i` of the buffer handed back: the frame's rows bottom-up, since the client flips what it
/// gets; zero where no frame, or too short a one, came.
pub open spec fn bottom_up_byte(frame: Option<Seq<u8>>, i: int) -> u8 {
    match frame {
        Some(f) => if f.len() >= display_len() {
            f[(719 - i / row_len()) * row_len() + i % row_len()]
        } else {
            0
        },
        None => 0,
    }
}

pub open spec fn spec_bottom_up(frame: Option<Seq<u8>>) -> Seq<u8> {
    Seq::new(display_len() as nat, |i: int| bottom_up_byte(frame, i))
}

pub fn bottom_up_frame(frame: Option<&[u8]>) -> (r: Vec<u8>)
    ensures
        r@ == spec_bottom_up(
            match frame {
                Some(f) => Some(f@),
                None => None,
            },
        ),
{
    let ghost fv = match frame {
        Some(f) => Some(f@),
        None => None,
    };
    let row: usize = 1280 * 4;
    let h: usize = 720;
    let usable = match frame {
        Some(f) => f.len() >= row * h,
        None => false,
    };
    let mut out: Vec<u8> = Vec::with_capacity(row * h);
    let mut y: usize = 0;
    while y < h
        invariant
            row == row_len(),
            h == 720,
            y <= h,
            usable == (fv matches Some(f) && f.len() >= display_len()),
            fv == match frame {
                Some(f) => Some(f@),
                None => None,
            },
            out@.len() == y * row,
            forall|i: int| 0 <= i < y * row ==> #[trigger] out@[i] == bottom_up_byte(fv, i),
        decreases h - y,
    {
        let src = (h - 1 - y) * row;
        let mut k: usize = 0;
        while k < row
            invariant
                row == row_len(),
                h == 720,
                y < h,
                src == (719 - y) * row_len(),
                k <= row,
                usable == (fv matches Some(f) && f.len() >= display_len()),
                fv == match frame {
                    Some(f) => Some(f@),
                    None => None,
                },
                out@.len() == y * row + k,
                forall|i: int| 0 <= i < y * row + k ==> #[trigger] out@[i] == bottom_up_byte(fv, i),
            decreases row - k,
        {
            proof {
                let i = y * row + k;
                assert(i / row_len() == y && i % row_len() == k) by (nonlinear_arith)
                    requires
                        i == y * row_len() + k,
                        0 <= k < row_len(),
                ;
            }
            let b: u8 = if usable {
                match frame {
                    Some(f) => f[src + k],
                    None => 0,
                }
            } else {
                0
            };
            out.push(b);
            k += 1;
        }
        y += 1;
    }
    assert(out@ =~= spec_bottom_up(fv));
    out
}


/// Writing a frame bottom-up twice gives it back: the client's own vertical flip of what it gets
/// restores the frame exactly.
pub proof fn lemma_bottom_up_twice(frame: Seq<u8>)
    requires
        frame.len() == display_len(),
    ensures
        spec_bottom_up(Some(spec_bottom_up(Some(frame)))) == frame,
{
    let once = spec_bottom_up(Some(frame));
    assert forall|i: int| 0 <= i < frame.len() implies #[trigger] spec_bottom_up(Some(once))[i] == frame[i] by {
        let y = i / row_len();
        let x = i % row_len();
        let j = (719 - y) * row_len() + x;
        assert(0 <= y < 720 && 0 <= x < row_len() && i == y * row_len() + x) by (nonlinear_arith)
            requires
                0 <= i < 720 * 5120,
                y == i / 5120,
                x == i % 5120,
        ;
        assert(0 <= j < display_len()) by (nonlinear_arith)
            requires
                0 <= y < 720,
                0 <= x < 5120,
                j == (719 - y) * 5120 + x,
        ;
        assert(j / row_len() == 719 - y && j % row_len() == x) by (nonlinear_arith)
            requires
                0 <= y < 720,
                0 <= x < 5120,
                j == (719 - y) * 5120 + x,
        ;
        assert(once[j] == frame[(719 - (719 - y)) * row_len() + x]);
    }
    assert(spec_bottom_up(Some(once)) =~= frame);
}

} // verus!
