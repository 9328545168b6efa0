//! Where the subblocks of a macroblock lie.

use crate::types::{Blockd, Macroblockd, PlaneRef};
use vstd::prelude::*;

verus! {

/// Where the first pixel of block `k` lies, counted from that of the macroblock: sixteen luma
/// blocks, and four in each chroma plane.
pub open spec fn block_offset(k: int, y_stride: int, uv_stride: int) -> int {
    if k < 16 {
        (k / 4) * 4 * y_stride + (k % 4) * 4
    } else {
        (((k - 16) % 4) / 2) * 4 * uv_stride + (k % 2) * 4
    }
}

/// Computes where the blocks of a macroblock lie in the planes of `dst`.
pub fn vp8_build_block_doffsets(x: &mut Macroblockd, dst: &PlaneRef)
    requires
        i32::MIN <= 12 * dst.y_stride,
        12 * dst.y_stride + 12 <= i32::MAX,
        i32::MIN <= 4 * dst.uv_stride,
        4 * dst.uv_stride + 4 <= i32::MAX,
    ensures
        forall|k: int|
            0 <= k < 24 ==> (#[trigger] final(x).block[k]).offset == block_offset(
                k,
                dst.y_stride as int,
                dst.uv_stride as int,
            ),
        final(x).block[24] == old(x).block[24],
        *final(x) == (Macroblockd { block: final(x).block, ..*old(x) }),
{
    let y_stride: i32 = dst.y_stride;
    let uv_stride: i32 = dst.uv_stride;
    let mut k: usize = 0;
    while k < 24
        invariant
            k <= 24,
            i32::MIN <= 12 * y_stride,
            12 * y_stride + 12 <= i32::MAX,
            i32::MIN <= 4 * uv_stride,
            4 * uv_stride + 4 <= i32::MAX,
            y_stride == dst.y_stride,
            uv_stride == dst.uv_stride,
            forall|i: int|
                0 <= i < k ==> (#[trigger] x.block[i]).offset == block_offset(
                    i,
                    y_stride as int,
                    uv_stride as int,
                ),
            x.block[24] == old(x).block[24],
            *x == (Macroblockd { block: x.block, ..*old(x) }),
        decreases 24 - k,
    {
        let (down, across, stride): (i32, i32, i32) = if k < 16 {
            ((k / 4) as i32 * 4, (k % 4) as i32 * 4, y_stride)
        } else {
            ((((k - 16) % 4) / 2) as i32 * 4, (k % 2) as i32 * 4, uv_stride)
        };
        let ghost most: int = if k < 16 {
            12
        } else {
            4
        };
        assert(i32::MIN <= down * stride && down * stride + most <= i32::MAX) by (nonlinear_arith)
            requires
                0 <= down <= most,
                i32::MIN <= most * stride,
                most * stride + most <= i32::MAX,
                most == 12 || most == 4,
        ;
        x.block[k] = Blockd { offset: down * stride + across };
        k += 1;
    }
}

/// From block to block is four pixels to the right, and from one row of blocks to the next four
/// pixel rows down; the blocks of both chroma planes lie in the same way.
pub proof fn law_block_offsets(k: int, y_stride: int, uv_stride: int)
    requires
        0 <= k < 24,
    ensures
        ({
            let at = |n: int| block_offset(n, y_stride, uv_stride);
            &&& k == 0 || k == 16 || k == 20 ==> at(k) == 0
            &&& k < 16 && k % 4 != 3 ==> at(k + 1) == at(k) + 4
            &&& k < 12 ==> at(k + 4) == at(k) + 4 * y_stride
            &&& k >= 16 && k % 2 == 0 ==> at(k + 1) == at(k) + 4
            &&& k >= 16 && k % 4 < 2 ==> at(k + 2) == at(k) + 4 * uv_stride
            &&& 16 <= k < 20 ==> at(k + 4) == at(k)
        }),
{
    if k < 12 {
        let r = k / 4;
        assert((k + 4) / 4 == r + 1 && (k + 4) % 4 == k % 4);
        assert((r + 1) * 4 * y_stride == r * 4 * y_stride + 4 * y_stride) by (nonlinear_arith);
    }
    if k < 16 && k % 4 != 3 {
        assert((k + 1) / 4 == k / 4);
    }
    if k >= 16 && k % 4 < 2 {
        assert(((k - 16) % 4) / 2 == 0 && ((k + 2 - 16) % 4) / 2 == 1);
        assert(0 * 4 * uv_stride == 0 && 1 * 4 * uv_stride == 4 * uv_stride) by (nonlinear_arith);
    }
    if k >= 16 && k % 2 == 0 {
        assert(((k + 1 - 16) % 4) / 2 == ((k - 16) % 4) / 2);
    }
    if k == 0 || k == 16 || k == 20 {
        assert(0 * 4 * uv_stride == 0 && 0 * 4 * y_stride == 0) by (nonlinear_arith);
    }
}

} // verus!
