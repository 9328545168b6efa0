//! Allocating and copying frame buffers.

use crate::arith::clamp_int;
use crate::extend::{extend_down, extend_sides, extend_up, row_length};
use crate::grid::{blit, is_rect, Grid, Pic, Plane};
use crate::types::{FramePlanes, Yuv, Yv12BufferConfig};
use vstd::prelude::*;

verus! {

/// The length of the rows of a luma plane: the frame and its border, filled up to a multiple of
/// 32.
pub open spec fn aligned_stride(width: int, border: int) -> int {
    ((width + 2 * border + 31) / 32) * 32
}

/// Every pixel is zero.
pub open spec fn all_zero(p: Pic) -> bool {
    forall|r: int, c: int| 0 <= r < p.len() && 0 <= c < p[r].len() ==> #[trigger] p[r][c] == 0
}

/// Gives a frame buffer planes for a frame of `width x height` pixels, which are multiples of
/// sixteen, with a border of 32 pixels.
pub fn vp8_yv12_alloc_frame_buffer(
    ybf: &mut Yv12BufferConfig,
    width: i32,
    height: i32,
    border: i32,
) -> (rc: i32)
    requires
        16 <= width <= 16384,
        16 <= height <= 16384,
        width % 16 == 0,
        height % 16 == 0,
        border == 32,
    ensures
        rc == 0,
        final(ybf).holds(height as int / 16, width as int / 16),
        final(ybf).y_stride == aligned_stride(width as int, 32),
        final(ybf).uv_stride == aligned_stride(width as int, 32) / 2,
        all_zero(final(ybf).planes.y@),
        all_zero(final(ybf).planes.u@),
        all_zero(final(ybf).planes.v@),
        final(ybf).frame_size == final(ybf).y_stride * (height + 64) + 2 * (final(ybf).uv_stride
            * (height as int / 2 + 32)),
        final(ybf).corrupted == 0,
        final(ybf).flags == 0,
{
    let stride: usize = (((width as usize) + 64 + 31) / 32) * 32;
    let rows: usize = height as usize + 64;
    let uv_stride: usize = stride / 2;
    let uv_rows: usize = height as usize / 2 + 32;
    proof {
        assert(stride <= 16480 && rows <= 16448 && uv_stride <= 8240 && uv_rows <= 8224);
        assert(rows * stride <= 16448 * 16480) by (nonlinear_arith)
            requires
                rows <= 16448,
                stride <= 16480,
        ;
        assert(uv_rows * uv_stride <= 8224 * 8240) by (nonlinear_arith)
            requires
                uv_rows <= 8224,
                uv_stride <= 8240,
        ;
        assert(stride * rows == rows * stride) by (nonlinear_arith);
        assert(uv_stride * uv_rows == uv_rows * uv_stride) by (nonlinear_arith);
    }
    *ybf = Yv12BufferConfig {
        y_width: width,
        y_height: height,
        y_stride: stride as i32,
        uv_width: width / 2,
        uv_height: height / 2,
        uv_stride: uv_stride as i32,
        planes: FramePlanes {
            y: Grid::filled(rows, stride, 0u8),
            u: Grid::filled(uv_rows, uv_stride, 0u8),
            v: Grid::filled(uv_rows, uv_stride, 0u8),
        },
        border,
        frame_size: stride * rows + 2 * (uv_stride * uv_rows),
        corrupted: 0,
        flags: 0,
    };
    0
}

/// A frame buffer without pixels.
pub open spec fn no_buffer(b: Yv12BufferConfig) -> bool {
    &&& b.y_width == 0
    &&& b.y_height == 0
    &&& b.y_stride == 0
    &&& b.uv_width == 0
    &&& b.uv_height == 0
    &&& b.uv_stride == 0
    &&& b.border == 0
    &&& b.frame_size == 0
    &&& b.corrupted == 0
    &&& b.flags == 0
    &&& b.planes@ == (Yuv { y: Seq::empty(), u: Seq::empty(), v: Seq::empty() })
}

/// A frame buffer without pixels, whether it counts as wrong or not.
pub open spec fn no_pixels(b: Yv12BufferConfig) -> bool {
    no_buffer(Yv12BufferConfig { corrupted: 0, ..b })
}

/// `q` is the frame buffer `p` with all pixels set to zero.
pub open spec fn blanked(p: Yv12BufferConfig, q: Yv12BufferConfig) -> bool {
    &&& q == (Yv12BufferConfig { planes: q.planes, ..p })
    &&& q.planes.sized_as(&p.planes)
    &&& all_zero(q.planes.y@)
    &&& all_zero(q.planes.u@)
    &&& all_zero(q.planes.v@)
}

/// Sets all pixels of a frame buffer to zero.
pub fn blank_frame(ybf: &mut Yv12BufferConfig)
    ensures
        blanked(*old(ybf), *final(ybf)),
{
    ybf.planes.y.fill(0);
    ybf.planes.u.fill(0);
    ybf.planes.v.fill(0);
}

/// Takes the planes from a frame buffer.
pub fn vp8_yv12_de_alloc_frame_buffer(ybf: &mut Yv12BufferConfig)
    ensures
        no_buffer(*final(ybf)),
{
    *ybf = Yv12BufferConfig::empty();
}

/// The plane holds `h x w` pixels and a border of `b` pixels on every side.
pub open spec fn plane_holds(p: Plane, h: int, w: int, b: int) -> bool {
    &&& p.spec_rows() == h + 2 * b
    &&& p.spec_stride() >= w + 2 * b
}

/// The planes of the buffer fit what it says of their sizes.
pub open spec fn framed(ybf: Yv12BufferConfig) -> bool {
    &&& 1 <= ybf.y_width <= 0x3fff_ffff
    &&& 1 <= ybf.y_height <= 0x3fff_ffff
    &&& 1 <= ybf.uv_width <= 0x3fff_ffff
    &&& 1 <= ybf.uv_height <= 0x3fff_ffff
    &&& 0 <= ybf.border <= 0x3fff_ffff
    &&& plane_holds(
        ybf.planes.y,
        ybf.y_height as int,
        ybf.y_width as int,
        ybf.border as int,
    )
    &&& plane_holds(
        ybf.planes.u,
        ybf.uv_height as int,
        ybf.uv_width as int,
        ybf.border as int / 2,
    )
    &&& plane_holds(
        ybf.planes.v,
        ybf.uv_height as int,
        ybf.uv_width as int,
        ybf.border as int / 2,
    )
}

/// The two buffers hold frames of the same size.
pub open spec fn same_size(a: Yv12BufferConfig, b: Yv12BufferConfig) -> bool {
    &&& a.y_width == b.y_width
    &&& a.y_height == b.y_height
    &&& a.uv_width == b.uv_width
    &&& a.uv_height == b.uv_height
}

/// `d` with its border of `b` pixels filled from the `h x w` pixels inside.
pub open spec fn extend_plane(d: Pic, b: int, h: int, w: int) -> Pic {
    let s = if b > 0 {
        extend_sides(d, b, h, b, w)
    } else {
        d
    };
    let u = extend_up(s, b, row_length(d));
    extend_down(u, b, h, row_length(d))
}

/// `d` with the `h x w` pixels inside its border of `db` pixels taken from `s`, whose border has
/// `sb` pixels, and the border filled from them.
#[verifier::opaque]
pub open spec fn copied_plane(s: Pic, sb: int, d: Pic, db: int, h: int, w: int) -> Pic {
    extend_plane(blit(d, db, db, h, w, |i: int, j: int| s[sb + i][sb + j]), db, h, w)
}

fn copy_plane(src: &Plane, sb: usize, dst: &mut Plane, db: usize, h: usize, w: usize)
    requires
        1 <= h <= 0x3fff_ffff,
        1 <= w <= 0x3fff_ffff,
        sb <= 0x3fff_ffff,
        db <= 0x3fff_ffff,
        plane_holds(*src, h as int, w as int, sb as int),
        plane_holds(*old(dst), h as int, w as int, db as int),
    ensures
        final(dst)@ == copied_plane(
            src@,
            sb as int,
            old(dst)@,
            db as int,
            h as int,
            w as int,
        ),
        final(dst).spec_rows() == old(dst).spec_rows(),
        final(dst).spec_stride() == old(dst).spec_stride(),
{
    proof {
        reveal(copied_plane);
        dst.lemma_rect();
    }
    dst.copy_rect(db, db, h, w, src, sb, sb);
    if db > 0 {
        dst.spread_column(db, h, db, 0, db);
        dst.spread_column(db, h, db + w - 1, db + w, db);
    }
    dst.spread_row(db, 0, db);
    dst.spread_row(db + h - 1, db + h, db);
}

/// Copies the frame of `src` to `dst` and fills the border of `dst`.
pub fn vp8_yv12_copy_frame(src: &Yv12BufferConfig, dst: &mut Yv12BufferConfig)
    requires
        framed(*src),
        framed(*old(dst)),
        same_size(*src, *old(dst)),
    ensures
        *final(dst) == (Yv12BufferConfig { planes: final(dst).planes, ..*old(dst) }),
        final(dst).planes.sized_as(&old(dst).planes),
        final(dst).planes@ == copied_frame(*src, *old(dst)),
{
    let h: usize = src.y_height as usize;
    let w: usize = src.y_width as usize;
    let sb: usize = src.border as usize;
    let db: usize = dst.border as usize;
    copy_plane(&src.planes.y, sb, &mut dst.planes.y, db, h, w);
    let uh: usize = src.uv_height as usize;
    let uw: usize = src.uv_width as usize;
    copy_plane(&src.planes.u, sb / 2, &mut dst.planes.u, db / 2, uh, uw);
    copy_plane(&src.planes.v, sb / 2, &mut dst.planes.v, db / 2, uh, uw);
}

/// The planes of `dst` after the frame of `src` was copied to it.
pub open spec fn copied_frame(src: Yv12BufferConfig, dst: Yv12BufferConfig) -> Yuv {
    let sb = src.border as int;
    let db = dst.border as int;
    Yuv {
        y: copied_plane(
            src.planes.y@,
            sb,
            dst.planes.y@,
            db,
            src.y_height as int,
            src.y_width as int,
        ),
        u: copied_plane(
            src.planes.u@,
            sb / 2,
            dst.planes.u@,
            db / 2,
            src.uv_height as int,
            src.uv_width as int,
        ),
        v: copied_plane(
            src.planes.v@,
            sb / 2,
            dst.planes.v@,
            db / 2,
            src.uv_height as int,
            src.uv_width as int,
        ),
    }
}

/// The pixels inside the border are copied, and every pixel of the border is that of the
/// nearest pixel inside.
pub proof fn law_copied_plane(s: Pic, sb: int, d: Pic, db: int, h: int, w: int, r: int, c: int)
    requires
        0 <= sb,
        0 <= db,
        1 <= h,
        1 <= w,
        s.len() >= h + 2 * sb,
        d.len() == h + 2 * db,
        is_rect(d, h + 2 * db, row_length(d)),
        row_length(d) >= w + 2 * db,
        0 <= r < h + 2 * db,
        0 <= c < w + 2 * db,
    ensures
        ({
            let i = clamp_int(r - db, 0, h - 1);
            let j = clamp_int(c - db, 0, w - 1);
            copied_plane(s, sb, d, db, h, w)[r][c] == s[sb + i][sb + j]
        }),
{
    reveal(copied_plane);
}

/// A line has room for the pixels and for the border at both sides, starts at a multiple of 32, and
/// wastes less than that.
pub proof fn law_stride(width: int, border: int)
    ensures
        aligned_stride(width, border) % 32 == 0,
        width + 2 * border <= aligned_stride(width, border) < width + 2 * border + 32,
{
}

} // verus!
