//! The state that frames share: its buffers, and the modes of its macroblocks.

use crate::decodemv::modes_fit;
use crate::entropymode::{default_mode_probs, vp8_default_bmode_probs, vp8_init_mbmode_probs};
use crate::grid::Grid;
use crate::intramode::{b_number, cell_ok, intra_b};
use crate::mbrows::contexts_ok;
use crate::tables::VP8_BMODE_PROB;
use crate::types::{
    blank_mode_info, no_context, zero_mv, BModeInfo, ClampType, EntropyContextPlanes,
    FrameContext, LoopFilterType, ModeInfo, TokenPartition, Vp8Common, Yv12BufferConfig,
};
use crate::vp8_loopfilter::grid_holds;
use crate::yv12config::{
    all_zero, no_buffer, vp8_yv12_alloc_frame_buffer, vp8_yv12_de_alloc_frame_buffer,
};
use vstd::array::spec_array_fill_for_copy_type;
use vstd::prelude::*;

verus! {

/// All frame buffers hold `rows x cols` macroblocks.
pub open spec fn buffers_hold(fb: [Yv12BufferConfig; 4], rows: int, cols: int) -> bool {
    forall|i: int| 0 <= i < 4 ==> (#[trigger] fb[i]).holds(rows, cols)
}

/// No frame buffer holds pixels.
pub open spec fn buffers_empty(fb: [Yv12BufferConfig; 4]) -> bool {
    forall|i: int| 0 <= i < 4 ==> no_buffer(#[trigger] fb[i])
}

/// The state without its buffers.
pub open spec fn unallocated(cm: Vp8Common) -> bool {
    &&& buffers_empty(cm.yv12_fb)
    &&& no_buffer(cm.temp_scale_frame)
    &&& cm.fb_idx_ref_cnt == spec_array_fill_for_copy_type::<i32, 4>(0)
    &&& cm.mip@ == Seq::<Seq<ModeInfo>>::empty()
    &&& cm.above_context@ == Seq::<EntropyContextPlanes>::empty()
    &&& cm.frame_to_show_idx == -1
}

/// `q` is `p` without its buffers.
pub open spec fn removed(p: Vp8Common, q: Vp8Common) -> bool {
    &&& unallocated(q)
    &&& q == (Vp8Common {
        yv12_fb: q.yv12_fb,
        temp_scale_frame: q.temp_scale_frame,
        fb_idx_ref_cnt: q.fb_idx_ref_cnt,
        mip: q.mip,
        above_context: q.above_context,
        frame_to_show_idx: (-1) as i32,
        ..p
    })
}

/// Gives up all buffers.
pub fn vp8_de_alloc_frame_buffers(oci: &mut Vp8Common)
    ensures
        removed(*old(oci), *final(oci)),
{
    let mut i: usize = 0;
    while i < 4
        invariant
            i <= 4,
            forall|k: int| 0 <= k < i ==> no_buffer(#[trigger] oci.yv12_fb[k]),
            *oci == (Vp8Common { yv12_fb: oci.yv12_fb, ..*old(oci) }),
        decreases 4 - i,
    {
        vp8_yv12_de_alloc_frame_buffer(&mut oci.yv12_fb[i]);
        i += 1;
    }
    oci.fb_idx_ref_cnt = [0i32; 4];
    vp8_yv12_de_alloc_frame_buffer(&mut oci.temp_scale_frame);
    oci.above_context = Vec::new();
    oci.mip = Grid::empty();
    oci.frame_to_show_idx = -1;
}

/// The number of macroblocks that cover `n` pixels.
pub open spec fn mbs_for(n: int) -> int {
    (n + 15) / 16
}

/// Fresh buffers for frames of `rows x cols` macroblocks. None of them is free.
pub open spec fn allocated(cm: Vp8Common, rows: int, cols: int) -> bool {
    &&& buffers_hold(cm.yv12_fb, rows, cols)
    &&& forall|i: int|
        0 <= i < 4 ==> all_zero((#[trigger] cm.yv12_fb[i]).planes.y@) && all_zero(
            cm.yv12_fb[i].planes.u@,
        ) && all_zero(cm.yv12_fb[i].planes.v@) && cm.yv12_fb[i].corrupted == 0
    &&& cm.temp_scale_frame.holds(1, cols)
    &&& all_zero(cm.temp_scale_frame.planes.y@)
    &&& all_zero(cm.temp_scale_frame.planes.u@)
    &&& all_zero(cm.temp_scale_frame.planes.v@)
    &&& cm.temp_scale_frame.corrupted == 0
    &&& cm.new_fb_idx == 0
    &&& cm.lst_fb_idx == 1
    &&& cm.gld_fb_idx == 2
    &&& cm.alt_fb_idx == 3
    &&& cm.fb_idx_ref_cnt == spec_array_fill_for_copy_type::<i32, 4>(1)
    &&& cm.mb_rows == rows
    &&& cm.mb_cols == cols
    &&& cm.mbs == rows * cols
    &&& cm.mode_info_stride == cols + 1
    &&& grid_holds(cm.mip, rows, cols)
    &&& forall|r: int, c: int|
        0 <= r <= rows && 0 <= c <= cols ==> #[trigger] cm.mip@[r][c] == blank_mode_info()
    &&& cm.above_context@ == Seq::new(cols as nat, |i: int| no_context())
    &&& cm.frame_to_show_idx == -1
}

fn fresh_contexts(n: usize) -> (v: Vec<EntropyContextPlanes>)
    ensures
        v@ == Seq::new(n as nat, |i: int| no_context()),
{
    let mut v: Vec<EntropyContextPlanes> = Vec::new();
    let mut i: usize = 0;
    while i < n
        invariant
            i <= n,
            v@ == Seq::new(i as nat, |i: int| no_context()),
        decreases n - i,
    {
        v.push(EntropyContextPlanes::default());
        assert(v@ =~= Seq::new((i + 1) as nat, |i: int| no_context()));
        i += 1;
    }
    v
}

/// Gets new buffers for frames of `width x height` pixels.
pub fn vp8_alloc_frame_buffers(oci: &mut Vp8Common, width: i32, height: i32) -> (rc: i32)
    requires
        1 <= width <= 16384,
        1 <= height <= 16384,
    ensures
        rc == 0,
        allocated(*final(oci), mbs_for(height as int), mbs_for(width as int)),
        modes_fit(*final(oci)),
        contexts_ok(final(oci).above_context@),
        *final(oci) == (Vp8Common {
            yv12_fb: final(oci).yv12_fb,
            temp_scale_frame: final(oci).temp_scale_frame,
            fb_idx_ref_cnt: final(oci).fb_idx_ref_cnt,
            mip: final(oci).mip,
            above_context: final(oci).above_context,
            frame_to_show_idx: (-1) as i32,
            new_fb_idx: 0,
            lst_fb_idx: 1,
            gld_fb_idx: 2,
            alt_fb_idx: 3,
            mb_rows: final(oci).mb_rows,
            mb_cols: final(oci).mb_cols,
            mbs: final(oci).mbs,
            mode_info_stride: final(oci).mode_info_stride,
            ..*old(oci)
        }),
{
    vp8_de_alloc_frame_buffers(oci);
    let rows: i32 = (height + 15) / 16;
    let cols: i32 = (width + 15) / 16;
    let ghost oci1 = *oci;
    let mut i: usize = 0;
    while i < 4
        invariant
            i <= 4,
            1 <= rows <= 1024,
            1 <= cols <= 1024,
            forall|k: int|
                0 <= k < i ==> (#[trigger] oci.yv12_fb[k]).holds(rows as int, cols as int)
                    && all_zero(oci.yv12_fb[k].planes.y@) && all_zero(oci.yv12_fb[k].planes.u@)
                    && all_zero(oci.yv12_fb[k].planes.v@) && oci.yv12_fb[k].corrupted == 0,
            *oci == (Vp8Common { yv12_fb: oci.yv12_fb, ..oci1 }),
        decreases 4 - i,
    {
        let _ = vp8_yv12_alloc_frame_buffer(&mut oci.yv12_fb[i], cols * 16, rows * 16, 32);
        i += 1;
    }
    oci.new_fb_idx = 0;
    oci.lst_fb_idx = 1;
    oci.gld_fb_idx = 2;
    oci.alt_fb_idx = 3;
    oci.fb_idx_ref_cnt = [1i32; 4];
    let _ = vp8_yv12_alloc_frame_buffer(&mut oci.temp_scale_frame, cols * 16, 16, 32);
    oci.mb_rows = rows;
    oci.mb_cols = cols;
    proof {
        assert(1 <= rows * cols <= 1024 * 1024) by (nonlinear_arith)
            requires
                1 <= rows <= 1024,
                1 <= cols <= 1024,
        ;
        assert((rows + 1) * (cols + 1) <= 1025 * 1025) by (nonlinear_arith)
            requires
                1 <= rows <= 1024,
                1 <= cols <= 1024,
        ;
    }
    oci.mbs = rows * cols;
    oci.mode_info_stride = cols + 1;
    oci.mip = Grid::filled(rows as usize + 1, cols as usize + 1, ModeInfo::default());
    oci.above_context = fresh_contexts(cols as usize);
    proof {
        lemma_allocated(*oci, rows as int, cols as int);
    }
    0
}

/// Fresh modes and contexts are in order.
pub proof fn lemma_allocated(cm: Vp8Common, rows: int, cols: int)
    requires
        allocated(cm, rows, cols),
    ensures
        modes_fit(cm),
        contexts_ok(cm.above_context@),
{
    let g = cm.mip@;
    cm.mip.lemma_rect();
    assert(cm.yv12_fb[0].holds(rows, cols));
    assert forall|r: int, c: int| 0 <= r < g.len() && 0 <= c < g[r].len() implies cell_ok(
        #[trigger] g[r][c],
    ) by {
        assert(g[r].len() == cols + 1);
        assert(g[r][c] == blank_mode_info());
        lemma_blank();
    }
    assert(no_context().ok());
}

proof fn lemma_blank()
    ensures
        cell_ok(blank_mode_info()),
{
    assert forall|k: int| 0 <= k < 16 implies b_number(
        intra_b(#[trigger] blank_mode_info().bmi[k]),
    ) < 10 by {
        assert(blank_mode_info().bmi[k] == BModeInfo::Mv(zero_mv()));
    }
}

/// What a bitstream version says: the loop filter, the filter between pixels, and whether
/// chroma vectors are whole pixels. Versions above three are as zero.
pub open spec fn with_version(cm: Vp8Common) -> Vp8Common {
    let v = cm.version;
    Vp8Common {
        no_lpf: if v == 2 || v == 3 {
            1
        } else {
            0
        },
        filter_type: if v == 1 || v == 3 {
            LoopFilterType::Simple
        } else {
            LoopFilterType::Normal
        },
        use_bilinear_mc_filter: if v == 1 || v == 2 || v == 3 {
            1
        } else {
            0
        },
        full_pixel: if v == 3 {
            1
        } else {
            0
        },
        ..cm
    }
}

/// Sets what the bitstream version says.
pub fn vp8_setup_version(cm: &mut Vp8Common)
    ensures
        *final(cm) == with_version(*old(cm)),
{
    match cm.version {
        0 => {
            cm.no_lpf = 0;
            cm.filter_type = LoopFilterType::Normal;
            cm.use_bilinear_mc_filter = 0;
            cm.full_pixel = 0;
        },
        1 => {
            cm.no_lpf = 0;
            cm.filter_type = LoopFilterType::Simple;
            cm.use_bilinear_mc_filter = 1;
            cm.full_pixel = 0;
        },
        2 => {
            cm.no_lpf = 1;
            cm.filter_type = LoopFilterType::Normal;
            cm.use_bilinear_mc_filter = 1;
            cm.full_pixel = 0;
        },
        3 => {
            cm.no_lpf = 1;
            cm.filter_type = LoopFilterType::Simple;
            cm.use_bilinear_mc_filter = 1;
            cm.full_pixel = 1;
        },
        _ => {
            cm.no_lpf = 0;
            cm.filter_type = LoopFilterType::Normal;
            cm.use_bilinear_mc_filter = 0;
            cm.full_pixel = 0;
        },
    }
}

/// The defaults that a decoder starts with.
pub open spec fn common_defaults(cm: Vp8Common) -> Vp8Common {
    Vp8Common {
        fc: FrameContext { bmode_prob: VP8_BMODE_PROB, ..default_mode_probs(cm.fc) },
        mb_no_coeff_skip: 1,
        no_lpf: 0,
        filter_type: LoopFilterType::Normal,
        use_bilinear_mc_filter: 0,
        full_pixel: 0,
        multi_token_partition: TokenPartition::One,
        clamp_type: ClampType::Required,
        ref_frame_sign_bias: spec_array_fill_for_copy_type::<i32, 4>(0),
        copy_buffer_to_gf: 0,
        copy_buffer_to_arf: 0,
        frame_to_show_idx: (-1) as i32,
        ..cm
    }
}

/// Sets the defaults that a decoder starts with.
pub fn vp8_create_common(oci: &mut Vp8Common)
    ensures
        *final(oci) == common_defaults(*old(oci)),
{
    vp8_init_mbmode_probs(oci);
    vp8_default_bmode_probs(&mut oci.fc.bmode_prob);
    oci.mb_no_coeff_skip = 1;
    oci.no_lpf = 0;
    oci.filter_type = LoopFilterType::Normal;
    oci.use_bilinear_mc_filter = 0;
    oci.full_pixel = 0;
    oci.multi_token_partition = TokenPartition::One;
    oci.clamp_type = ClampType::Required;
    oci.ref_frame_sign_bias = [0i32; 4];
    oci.copy_buffer_to_gf = 0;
    oci.copy_buffer_to_arf = 0;
    oci.frame_to_show_idx = -1;
}

/// Gives up all that the state holds.
pub fn vp8_remove_common(oci: &mut Vp8Common)
    ensures
        removed(*old(oci), *final(oci)),
{
    vp8_de_alloc_frame_buffers(oci);
}

/// The two buffers say the same of themselves and hold the same pixels.
pub open spec fn same_buffer(a: Yv12BufferConfig, b: Yv12BufferConfig) -> bool {
    b.planes@ == a.planes@ && b == (Yv12BufferConfig { planes: b.planes, ..a })
}

/// Once [`vp8_remove_common`] has been called, no reference count is above zero, no frame buffer
/// holds pixels, no macroblock has a mode or a context, and there is no frame to show. To call
/// it again changes nothing.
pub proof fn law_removed_once(p: Vp8Common, q: Vp8Common, again: Vp8Common)
    requires
        removed(p, q),
        removed(q, again),
    ensures
        forall|i: int| 0 <= i < 4 ==> #[trigger] q.fb_idx_ref_cnt[i] == 0,
        forall|i: int| 0 <= i < 4 ==> no_buffer(#[trigger] q.yv12_fb[i]),
        no_buffer(q.temp_scale_frame),
        q.mip@.len() == 0,
        q.above_context@.len() == 0,
        q.frame_to_show_idx == -1,
        forall|i: int| 0 <= i < 4 ==> same_buffer(q.yv12_fb[i], #[trigger] again.yv12_fb[i]),
        same_buffer(q.temp_scale_frame, again.temp_scale_frame),
        again.fb_idx_ref_cnt == q.fb_idx_ref_cnt,
        again.mip@ == q.mip@,
        again.above_context@ == q.above_context@,
        again == (Vp8Common {
            yv12_fb: again.yv12_fb,
            temp_scale_frame: again.temp_scale_frame,
            mip: again.mip,
            above_context: again.above_context,
            ..q
        }),
{
    assert forall|i: int| 0 <= i < 4 implies same_buffer(
        q.yv12_fb[i],
        #[trigger] again.yv12_fb[i],
    ) by {
        assert(no_buffer(q.yv12_fb[i]));
        assert(no_buffer(again.yv12_fb[i]));
    }
}

/// The macroblocks of a frame cover it, and with one less each way they would not.
pub proof fn law_macroblocks_cover(n: int)
    requires
        1 <= n <= 16383,
    ensures
        1 <= mbs_for(n) <= 1024,
        16 * mbs_for(n) >= n,
        16 * (mbs_for(n) - 1) < n,
{
}

/// A version says nothing beyond four fields. Version 0, and all above 3, use the normal loop
/// filter and six taps; all others interpolate between two pixels, and the highest of them keeps
/// chroma on whole pixels. The simple loop filter goes with odd versions.
pub proof fn law_version(cm: Vp8Common)
    ensures
        ({
            let c = with_version(cm);
            let known = 0 < cm.version <= 3;
            &&& known <==> c.use_bilinear_mc_filter != 0
            &&& known && cm.version % 2 == 1 <==> c.filter_type == LoopFilterType::Simple
            &&& known && cm.version >= 2 <==> c.no_lpf != 0
            &&& cm.version == 3 <==> c.full_pixel != 0
            &&& c.version == cm.version
            &&& c == (Vp8Common {
                no_lpf: c.no_lpf,
                filter_type: c.filter_type,
                use_bilinear_mc_filter: c.use_bilinear_mc_filter,
                full_pixel: c.full_pixel,
                ..cm
            })
        }),
{
}

} // verus!
