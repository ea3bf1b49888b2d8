//! Input for the game window, as window messages: key codes and the `lParam` words they carry.

use vstd::prelude::*;

verus! {

/// The Windows virtual key for an Android key code; only Escape is mapped.
pub open spec fn spec_adb_keycode_to_vk(adb_keycode: i32) -> Option<i32> {
    if adb_keycode == 111 {
        Some(0x1B)
    } else {
        None
    }
}

pub fn adb_keycode_to_vk(adb_keycode: i32) -> (r: Option<i32>)
    ensures
        r == spec_adb_keycode_to_vk(adb_keycode),
{
    match adb_keycode {
        111 => Some(0x1B),
        _ => None,
    }
}

/// The `lParam` of a key-down message: the key in bits 16 and up, a repeat count of zero.
pub fn key_down_lparam(vk_code: i32) -> (r: isize)
    ensures
        r == ((vk_code << 16u32) as isize),
        0 <= vk_code < 0x8000 ==> r == vk_code * 0x1_0000,
{
    proof {
        if 0 <= vk_code < 0x8000 {
            assert(vk_code << 16u32 == vk_code * 0x1_0000) by (bit_vector)
                requires
                    0 <= vk_code < 0x8000,
            ;
        }
    }
    (vk_code << 16u32) as isize
}

/// The `lParam` of a key-up message: the key in bits 16 and up, the previous-state bit (30) and
/// the transition bit (31) set, taken as a signed 32-bit word.
pub fn key_up_lparam(vk_code: i32) -> (r: isize)
    ensures
        r == (((vk_code << 16u32) | (1i32 << 30u32) | (1i32 << 31u32)) as isize),
        0 <= vk_code < 0x4000 ==> r == vk_code * 0x1_0000 - 0x4000_0000,
{
    proof {
        if 0 <= vk_code < 0x4000 {
            assert(((vk_code << 16u32) | (1i32 << 30u32) | (1i32 << 31u32)) == vk_code * 0x1_0000 - 0x4000_0000)
                by (bit_vector)
                requires
                    0 <= vk_code < 0x4000,
            ;
        }
    }
    ((vk_code << 16u32) | (1i32 << 30u32) | (1i32 << 31u32)) as isize
}

/// The `lParam` of a mouse message at client point (`x`, `y`): `y` in the high word, `x` in the
/// low one.
pub fn point_lparam(x: isize, y: isize) -> (r: isize)
    ensures
        r == ((y << 16u32) | x),
        (0 <= x < 0x1_0000 && 0 <= y < 0x8000) ==> r == y * 0x1_0000 + x,
{
    proof {
        if 0 <= x < 0x1_0000 && 0 <= y < 0x8000 {
            assert((y << 16u32) | x == y * 0x1_0000 + x) by (bit_vector)
                requires
                    0 <= x < 0x1_0000,
                    0 <= y < 0x8000,
            ;
        }
    }
    (y << 16u32) | x
}

} // verus!
