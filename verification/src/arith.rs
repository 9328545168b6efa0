//! Small facts of machine arithmetic.

use vstd::prelude::*;

verus! {

proof fn lemma_shr_bits(x: i32)
    by (bit_vector)
    ensures
        0 <= x - (x >> 1) * 2 < 2,
        0 <= x - (x >> 2) * 4 < 4,
        0 <= x - (x >> 3) * 8 < 8,
        0 <= x - (x >> 7) * 128 < 128,
        0 <= x - (x >> 16) * 65536 < 65536,
{
}

/// An arithmetic right shift divides and rounds down.
pub proof fn lemma_shr(x: i32)
    ensures
        (x >> 1) == (x as int) / 2,
        (x >> 2) == (x as int) / 4,
        (x >> 3) == (x as int) / 8,
        (x >> 7) == (x as int) / 128,
        (x >> 16) == (x as int) / 65536,
{
    lemma_shr_bits(x);
}

/// `x` limited to the values of a pixel.
pub open spec fn clip(x: int) -> u8 {
    if x < 0 {
        0
    } else if x > 255 {
        255
    } else {
        x as u8
    }
}

/// Limits `val` to the values of a pixel.
pub fn clip_pixel(val: i32) -> (p: u8)
    ensures
        p == clip(val as int),
{
    if val > 255 {
        255
    } else if val < 0 {
        0
    } else {
        val as u8
    }
}

/// `x` limited to between `lo` and `hi`.
pub open spec fn clamp_int(x: int, lo: int, hi: int) -> int {
    if x < lo {
        lo
    } else if x > hi {
        hi
    } else {
        x
    }
}

/// Limits `x` to between `lo` and `hi`.
pub fn clamp_i32(x: i32, lo: i32, hi: i32) -> (y: i32)
    ensures
        y == clamp_int(x as int, lo as int, hi as int),
{
    if x < lo {
        lo
    } else if x > hi {
        hi
    } else {
        x
    }
}

} // verus!
