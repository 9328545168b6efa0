//! Exchange of two frame buffers.

use crate::types::Yv12BufferConfig;
use vstd::prelude::*;

verus! {

/// `a` with the pixels of `b`.
pub open spec fn with_pixels_of(a: Yv12BufferConfig, b: Yv12BufferConfig) -> Yv12BufferConfig {
    Yv12BufferConfig { planes: b.planes, ..a }
}

/// Exchanges the pixels of two frame buffers and nothing else.
pub fn vp8_swap_yv12_buffer(new_frame: &mut Yv12BufferConfig, last_frame: &mut Yv12BufferConfig)
    ensures
        *final(new_frame) == with_pixels_of(*old(new_frame), *old(last_frame)),
        *final(last_frame) == with_pixels_of(*old(last_frame), *old(new_frame)),
{
    std::mem::swap(&mut last_frame.planes, &mut new_frame.planes);
}

/// Exchanging twice gives both buffers back.
pub proof fn law_swap_twice(a: Yv12BufferConfig, b: Yv12BufferConfig)
    ensures
        with_pixels_of(with_pixels_of(a, b), with_pixels_of(b, a)) == a,
        with_pixels_of(with_pixels_of(b, a), with_pixels_of(a, b)) == b,
{
}

} // verus!
