//! Decoding of one frame.

use crate::alloccommon::buffers_hold;
use crate::coefheader::{
    coef_probs, keep_header, quant_header, read_coef_probs, read_keep_header, read_quant_header,
    read_ref_header, ref_flags_ok, ref_header, with_tables,
};
use crate::dboolhuff::{
    fresh, source_bytes, vp8dx_bool_error, vp8dx_start_decode, BoolDecoder, BoolState,
    Vp8Reader,
};
use crate::decodemv::{env_of, mode_header, modes_fit, modes_rows, reach_ok, vp8_decode_mode_mvs};
use crate::dequantizer::{deltas_ok, qindex_of, tables_ok, vp8_mb_init_dequantizer, with_steps};
use crate::frameheader::{
    clamp_header, first_header, lf_deltas, partition_count, partition_header, partition_number,
    read_first_header, read_partition_header, segment_data, segment_header, segment_tree,
};
use crate::framelines::borders_repeat;
use crate::framerows::{
    decode_mb_rows, filter_started, frame_env, law_pixels_whether_shown_or_not, reconstructed,
    rows_end, rows_ready, rows_start, with_bookkeeping,
};
use crate::frametag::{
    failed, first_mode_reset, frame_started, frame_tag, indices_ok, init_frame,
    law_tag_accepted, law_tag_bytes, read_frame_tag, size_follows, start_code, tag_number,
    uncorrupted, vpx_internal_error, with_modes,
};
use crate::intramode::cell_ok;
use crate::mbrows::{contexts_ok, error_flag, reader_states, readers_ok, RowState};
use crate::partitions::{
    fragments_ok, law_token_partition_bytes, partitions_of, slices, split_partitions,
    token_start,
};
use crate::reconinter::mask_ok;
use crate::types::{
    no_context, EntropyContextPlanes, FragmentData, FrameContext, FrameType, Macroblockd,
    ModeInfo, TokenPartition, Vp8Common, Vp8dComp, VpxCodecErr, VpxResult, Yuv,
    Yv12BufferConfig,
};
use crate::vp8_loopfilter::{levels_ok, lf_ready, ModeGrid};
use vstd::array::{spec_array_fill_for_copy_type, spec_array_update};
use vstd::prelude::*;

verus! {

/// The state after the number of token partitions was read.
pub open spec fn with_partitions(p: Vp8dComp, tp: TokenPartition) -> Vp8dComp {
    Vp8dComp { common: Vp8Common { multi_token_partition: tp, ..p.common }, ..p }
}

/// Readers at the start of `n` token partitions.
pub open spec fn token_readers(parts: Seq<Seq<u8>>, n: int) -> Seq<BoolState> {
    Seq::new(n as nat, |k: int| fresh(parts[k + 1]))
}

/// Starts a reader on `part`.
fn start_reader<'a>(part: &'a [u8]) -> (br: Vp8Reader<'a>)
    ensures
        br.wf(),
        br@ == fresh(part@),
{
    let mut br: Vp8Reader<'a> = BoolDecoder::new(&[]);
    let _ = vp8dx_start_decode(&mut br, Some(part), part.len());
    assert(source_bytes(Some(part), part@.len() as usize) =~= part@);
    br
}

/// Reads the number of token partitions, finds them and starts their readers. The sizes of the
/// partitions are listed from byte `o` of the first fragment on.
pub fn setup_token_decoder<'a>(
    pbi: &mut Vp8dComp,
    fragments: &'a FragmentData,
    bc: &mut Vp8Reader<'_>,
    o: u64,
) -> (r: VpxResult<Vec<Vp8Reader<'a>>>)
    requires
        old(bc).wf(),
        fragments_ok(*fragments),
        o <= 0x2_0000_0000,
    ensures
        final(bc).wf(),
        ({
            let (tp, t) = partition_header(old(bc)@, old(pbi).common.multi_token_partition);
            let p = with_partitions(*old(pbi), tp);
            let n = partition_number(tp);
            &&& final(bc)@ == t
            &&& match partitions_of(*fragments, o as int, n, old(pbi).ec_active != 0) {
                None => r == Err::<Vec<Vp8Reader<'a>>, VpxCodecErr>(
                    VpxCodecErr::VPX_CODEC_CORRUPT_FRAME,
                ) && *final(pbi) == failed(p, VpxCodecErr::VPX_CODEC_CORRUPT_FRAME),
                Some(parts) => r is Ok && *final(pbi) == p && reader_states(r->Ok_0@)
                    == token_readers(parts, n) && readers_ok(r->Ok_0@) && r->Ok_0@.len() == n,
            }
        }),
{
    read_partition_header(bc, &mut pbi.common.multi_token_partition);
    let n: usize = partition_count(pbi.common.multi_token_partition);
    let parts: Vec<&'a [u8]> = match split_partitions(fragments, o, n, pbi.ec_active != 0) {
        Some(parts) => parts,
        None => {
            return vpx_internal_error(
                &mut pbi.common.error,
                VpxCodecErr::VPX_CODEC_CORRUPT_FRAME,
            );
        },
    };
    let mut readers: Vec<Vp8Reader<'a>> = Vec::new();
    let mut k: usize = 0;
    while k < n
        invariant
            k <= n <= 8,
            parts@.len() == 9,
            readers@.len() == k,
            readers_ok(readers@),
            forall|i: int| 0 <= i < k ==> (#[trigger] readers@[i])@ == fresh(parts@[i + 1]@),
        decreases n - k,
    {
        readers.push(start_reader(parts[k + 1]));
        k += 1;
    }
    assert(reader_states(readers@) =~= token_readers(slices(parts@), n as int));
    Ok(readers)
}

/// Reads the header from the quantizers on. `tables` has the step tables of the frame, and
/// `seg` is the segment of the first macroblock.
#[verifier::opaque]
pub open spec fn rest_header(t: BoolState, p: Vp8dComp, tables: Vp8Common, seg: int) -> (
    Vp8dComp,
    BoolState,
) {
    let (c1, t1) = quant_header(t, p.common);
    let c2 = with_tables(c1, tables);
    let mb = with_steps(
        p.mb,
        c2.y1_dequant,
        c2.y2_dequant,
        c2.uv_dequant,
        qindex_of(p.mb, c2.base_qindex as int, seg),
    );
    let (c3, t2) = ref_header(t1, c2);
    let (c4, t3) = keep_header(t2, c3);
    let (probs, independent, t4) = coef_probs(t3, c4.fc.coef_probs, 1056);
    (
        Vp8dComp {
            mb: Macroblockd { qcoeff: spec_array_fill_for_copy_type::<i16, 400>(0), ..mb },
            common: Vp8Common { fc: FrameContext { coef_probs: probs, ..c4.fc }, ..c4 },
            independent_partitions: independent as i32,
            ..p
        },
        t4,
    )
}

/// The quantizer steps and the reference flags of a decoder are such.
pub open spec fn header_ok(cm: Vp8Common) -> bool {
    &&& deltas_ok(cm)
    &&& tables_ok(cm)
    &&& ref_flags_ok(cm)
    &&& 0 <= cm.refresh_last_frame <= 1
    &&& 0 <= cm.base_qindex <= 127
}

fn read_rest_header(bc: &mut Vp8Reader<'_>, pbi: &mut Vp8dComp)
    requires
        old(bc).wf(),
        decoder_ok(*old(pbi)),
    ensures
        final(bc).wf(),
        (*final(pbi), final(bc)@) == rest_header(
            old(bc)@,
            *old(pbi),
            final(pbi).common,
            old(pbi).common.mip@[1][1].mbmi.segment_id as int,
        ),
        decoder_ok(*final(pbi)),
        final(pbi).mb.fullpixel_mask == old(pbi).mb.fullpixel_mask,
        final(pbi).common.mip == old(pbi).common.mip,
        final(pbi).common.filter_level == old(pbi).common.filter_level,
        final(pbi).common.multi_token_partition == old(pbi).common.multi_token_partition,
        kept(*old(pbi), *final(pbi)),
{
    proof {
        reveal(decoder_ok);
    }
    proof {
        reveal(rest_header);
        reveal(quant_header);
        reveal(ref_header);
        reveal(keep_header);
        pbi.common.mip.lemma_rect();
    }
    read_quant_header(bc, &mut pbi.common);
    let first: ModeInfo = pbi.common.mip.get(1, 1);
    assert(cell_ok(pbi.common.mip@[1][1]));
    vp8_mb_init_dequantizer(
        &pbi.common.y1_dequant,
        &pbi.common.y2_dequant,
        &pbi.common.uv_dequant,
        pbi.common.base_qindex,
        &mut pbi.mb,
        &first,
    );
    read_ref_header(bc, &mut pbi.common);
    read_keep_header(bc, &mut pbi.common);
    pbi.independent_partitions = read_coef_probs(bc, &mut pbi.common.fc.coef_probs);
    pbi.mb.qcoeff = [0i16; 400];
}

/// What decoding a frame leaves as it is: the number of macroblocks, and the bookkeeping of the
/// frame buffers.
pub open spec fn kept_but_size(p: Vp8dComp, q: Vp8dComp) -> bool {
    &&& q.common.mb_rows == p.common.mb_rows
    &&& q.common.mb_cols == p.common.mb_cols
    &&& q.common.fb_idx_ref_cnt == p.common.fb_idx_ref_cnt
    &&& q.common.new_fb_idx == p.common.new_fb_idx
    &&& q.common.lst_fb_idx == p.common.lst_fb_idx
    &&& q.common.gld_fb_idx == p.common.gld_fb_idx
    &&& q.common.alt_fb_idx == p.common.alt_fb_idx
    &&& q.common.frame_to_show_idx == p.common.frame_to_show_idx
    &&& q.common.current_video_frame == p.common.current_video_frame
    &&& q.dec_fb_ref_idx == p.dec_fb_ref_idx
    &&& q.ready_for_new_data == p.ready_for_new_data
    &&& q.ec_active == p.ec_active
}

/// What decoding a frame leaves as it is once its size is known.
pub open spec fn kept(p: Vp8dComp, q: Vp8dComp) -> bool {
    &&& kept_but_size(p, q)
    &&& q.common.width == p.common.width
    &&& q.common.height == p.common.height
}

/// What holds of a decoder between two frames.
#[verifier::opaque]
pub open spec fn decoder_ok(p: Vp8dComp) -> bool {
    &&& modes_fit(p.common)
    &&& header_ok(p.common)
    &&& buffers_hold(p.common.yv12_fb, p.common.mb_rows as int, p.common.mb_cols as int)
    &&& p.common.above_context@.len() == p.common.mb_cols
    &&& contexts_ok(p.common.above_context@)
    &&& p.common.left_context.ok()
    &&& lf_ready(p.common.lf_info)
    &&& levels_ok(p.common.lf_info)
    &&& 0 <= p.common.width <= 16383
    &&& 0 <= p.common.height <= 16383
}

/// The state after the modes were read, but for the modes themselves.
pub open spec fn modes_known(p: Vp8dComp, t: BoolState) -> Vp8dComp {
    let (env, _) = mode_header(t, env_of(p));
    Vp8dComp {
        prob_skip_false: env.prob_skip_false,
        prob_intra: env.prob_intra,
        prob_last: env.prob_last,
        prob_gf: env.prob_gf,
        common: Vp8Common { mb_no_coeff_skip: env.mb_no_coeff_skip, fc: env.fc, ..p.common },
        frame_corrupt_residual: 0,
        ..p
    }
}

/// The modes of the frame, where `g` has those of the frame before, and the reader after them.
pub open spec fn frame_modes(p: Vp8dComp, g: ModeGrid, t: BoolState) -> (ModeGrid, BoolState) {
    let (env, u) = mode_header(t, env_of(p));
    let rows = p.common.mb_rows as int;
    let cols = p.common.mb_cols as int;
    modes_rows(u, g, env, rows, cols, rows)
}

/// Cleared contexts above the first row.
pub open spec fn cleared_above(p: Vp8dComp) -> Seq<EntropyContextPlanes> {
    Seq::new(p.common.mb_cols as nat, |i: int| no_context())
}

/// `q` is `p` with the contexts above the first row cleared and the modes read; `t` is the
/// reader before them.
pub open spec fn modes_read(p: Vp8dComp, t: BoolState, q: Vp8dComp) -> bool {
    &&& q.common.mip@ == frame_modes(p, p.common.mip@, t).0
    &&& q.common.above_context@ == cleared_above(p)
    &&& q == (Vp8dComp {
        common: Vp8Common {
            mip: q.common.mip,
            above_context: q.common.above_context,
            ..modes_known(p, t).common
        },
        ..modes_known(p, t)
    })
}

/// Sets all contexts above the first row to zero.
fn clear_above(above: &mut Vec<EntropyContextPlanes>)
    ensures
        final(above)@ == Seq::new(old(above)@.len(), |i: int| no_context()),
        contexts_ok(final(above)@),
{
    let n: usize = above.len();
    let mut i: usize = 0;
    while i < n
        invariant
            i <= n,
            n == above@.len(),
            n == old(above)@.len(),
            forall|k: int| 0 <= k < i ==> #[trigger] above@[k] == no_context(),
        decreases n - i,
    {
        above[i] = EntropyContextPlanes::default();
        i += 1;
    }
    assert(above@ =~= Seq::new(old(above)@.len(), |i: int| no_context()));
    assert(no_context().ok());
}

/// Reads the modes of the frame's macroblocks.
fn read_all_modes(bc: &mut Vp8Reader<'_>, pbi: &mut Vp8dComp)
    requires
        old(bc).wf(),
        modes_fit(old(pbi).common),
        old(pbi).common.above_context@.len() == old(pbi).common.mb_cols,
    ensures
        final(bc).wf(),
        modes_read(*old(pbi), old(bc)@, *final(pbi)),
        final(bc)@ == frame_modes(*old(pbi), old(pbi).common.mip@, old(bc)@).1,
        modes_fit(final(pbi).common),
        reach_ok(
            final(pbi).common.mip@,
            final(pbi).common.mb_rows as int,
            final(pbi).common.mb_cols as int,
            final(pbi).common.mb_rows as int,
            0,
        ),
        contexts_ok(final(pbi).common.above_context@),
{
    vp8_decode_mode_mvs(pbi, bc);
    clear_above(&mut pbi.common.above_context);
    pbi.frame_corrupt_residual = 0;
}

/// The state after a frame was reconstructed, where `corrupted` tells whether it may be wrong,
/// and whether that is an error. The first frame that counts is a key frame without errors.
#[verifier::opaque]
pub open spec fn frame_finished(p: Vp8dComp, corrupted: i32, before: i32) -> (
    Vp8dComp,
    Result<(), VpxCodecErr>,
) {
    let k = p.dec_fb_ref_idx[0] as int;
    let p1 = Vp8dComp {
        common: Vp8Common {
            yv12_fb: spec_array_update(
                p.common.yv12_fb,
                k,
                Yv12BufferConfig { corrupted, ..p.common.yv12_fb[k] },
            ),
            ..p.common
        },
        ..p
    };
    if p.decoded_key_frame == 0 && !(p.common.frame_type == FrameType::Key && corrupted == 0) {
        let e = VpxCodecErr::VPX_CODEC_CORRUPT_FRAME;
        (failed(p1, e), Err(e))
    } else {
        let p2 = if p.decoded_key_frame == 0 {
            Vp8dComp { decoded_key_frame: 1, ..p1 }
        } else {
            p1
        };
        if p.common.refresh_entropy_probs == 0 {
            (
                Vp8dComp {
                    common: Vp8Common { fc: p2.common.lfc, ..p2.common },
                    independent_partitions: before,
                    ..p2
                },
                Ok(()),
            )
        } else {
            (p2, Ok(()))
        }
    }
}

fn finish_frame(pbi: &mut Vp8dComp, corrupted: i32, before: i32) -> (r: VpxResult<()>)
    requires
        indices_ok(*old(pbi)),
        decoder_ok(*old(pbi)),
    ensures
        (*final(pbi), r) == frame_finished(*old(pbi), corrupted, before),
        decoder_ok(*final(pbi)),
{
    proof {
        reveal(decoder_ok);
    }
    proof {
        reveal(frame_finished);
        assert(0 <= pbi.dec_fb_ref_idx[0] < 4);
    }
    let new_idx: usize = pbi.dec_fb_ref_idx[0] as usize;
    let ghost rows = pbi.common.mb_rows as int;
    let ghost cols = pbi.common.mb_cols as int;
    pbi.common.yv12_fb[new_idx].corrupted = corrupted;
    proof {
        assert forall|i: int| 0 <= i < 4 implies (#[trigger] pbi.common.yv12_fb[i]).holds(
            rows,
            cols,
        ) by {
            assert(old(pbi).common.yv12_fb[i].holds(rows, cols));
        }
    }
    if pbi.decoded_key_frame == 0 {
        if pbi.common.frame_type == FrameType::Key && corrupted == 0 {
            pbi.decoded_key_frame = 1;
        } else {
            return vpx_internal_error(
                &mut pbi.common.error,
                VpxCodecErr::VPX_CODEC_CORRUPT_FRAME,
            );
        }
    }
    if pbi.common.refresh_entropy_probs == 0 {
        pbi.common.fc = pbi.common.lfc;
        pbi.independent_partitions = before;
    }
    Ok(())
}

/// Of the tables only the steps matter.
proof fn lemma_rest_header_tables(t: BoolState, p: Vp8dComp, a: Vp8Common, b: Vp8Common, seg: int)
    requires
        a.y1_dequant == b.y1_dequant,
        a.y2_dequant == b.y2_dequant,
        a.uv_dequant == b.uv_dequant,
    ensures
        rest_header(t, p, a, seg) == rest_header(t, p, b, seg),
{
    reveal(rest_header);
}

/// `p` with the modes, the contexts above and the frame buffers of `q`.
pub open spec fn with_storage(p: Vp8dComp, q: Vp8dComp) -> Vp8dComp {
    Vp8dComp {
        common: Vp8Common {
            mip: q.common.mip,
            above_context: q.common.above_context,
            yv12_fb: q.common.yv12_fb,
            ..p.common
        },
        ..p
    }
}

/// What the macroblocks of a frame leave behind.
pub open spec fn after_macroblocks(p: Vp8dComp, s: RowState) -> Vp8dComp {
    Vp8dComp {
        mb: s.mb,
        common: Vp8Common { left_context: s.left, ..filter_started(p).common },
        ..p
    }
}

/// The frame buffers of `q` are those of `p` but for number `k`, which has the picture `d` and
/// is marked as wrong or right.
pub open spec fn buffers_after(
    p: [Yv12BufferConfig; 4],
    q: [Yv12BufferConfig; 4],
    k: int,
    d: Yuv,
    corrupted: i32,
) -> bool {
    &&& q[k].planes@ == d
    &&& q[k] == (Yv12BufferConfig { planes: q[k].planes, corrupted, ..p[k] })
    &&& forall|i: int| 0 <= i < 4 && i != k ==> #[trigger] q[i] == p[i]
}

/// The decoder's states before and after the macroblocks of a frame, and the result. `p` is the
/// state after the header, `t` the reader after it, `g` has the modes of the frame before, and
/// `ts` the readers of the token partitions.
#[verifier::opaque]
pub open spec fn macroblocks_decoded(
    p: Vp8dComp,
    t: BoolState,
    g: ModeGrid,
    ts: Seq<BoolState>,
    before: i32,
    q: Vp8dComp,
    r: VpxResult<()>,
) -> bool {
    let (modes, u) = frame_modes(p, g, t);
    let p1 = modes_known(p, t);
    let s = rows_end(p1, modes, cleared_above(p), ts);
    let corrupted = error_flag(u) | s.mb.corrupted;
    let (p2, res) = frame_finished(after_macroblocks(p1, s), corrupted, before);
    &&& r == res
    &&& q == with_storage(p2, q)
    &&& q.common.mip@ == s.g
    &&& q.common.above_context@ == s.above
    &&& buffers_after(
        p.common.yv12_fb,
        q.common.yv12_fb,
        p.dec_fb_ref_idx[0] as int,
        s.d,
        corrupted,
    )
}

/// The decoder's states before and after what follows the tag of a frame, and the result. The
/// first partition has `len` bytes from byte `at` on.
#[verifier::opaque]
pub open spec fn body_decoded(
    p: Vp8dComp,
    f: FragmentData,
    len: int,
    at: int,
    before: i32,
    q: Vp8dComp,
    r: VpxResult<()>,
) -> bool {
    let d = f.data[0]@;
    let g = first_mode_reset(p.common.mip@);
    let (p1, t1) = first_header(fresh(d.subrange(at, d.len() as int)), frame_started(p));
    let (tp, t2) = partition_header(t1, p1.common.multi_token_partition);
    let p2 = with_partitions(p1, tp);
    let n = partition_number(tp);
    match partitions_of(f, at + len, n, p.ec_active != 0) {
        None => {
            let e = VpxCodecErr::VPX_CODEC_CORRUPT_FRAME;
            &&& r == Err::<(), VpxCodecErr>(e)
            &&& q == with_modes(failed(p2, e), q)
            &&& q.common.mip@ == g
        },
        Some(parts) => {
            let (p3, t3) = rest_header(t2, p2, q.common, g[1][1].mbmi.segment_id as int);
            &&& tables_ok(q.common)
            &&& macroblocks_decoded(p3, t3, g, token_readers(parts, n), before, q, r)
        },
    }
}

/// The decoder's states before and after a frame, and the result: where the tag is in order,
/// the frame has something to refer to and its first partition is there, its body is decoded.
#[verifier::opaque]
pub open spec fn frame_decoded(
    p: Vp8dComp,
    f: FragmentData,
    q: Vp8dComp,
    r: VpxResult<()>,
) -> bool {
    let d = f.data[0]@;
    let (p1, tag) = frame_tag(p, d);
    let corrupt = VpxCodecErr::VPX_CODEC_CORRUPT_FRAME;
    let no_key = VpxCodecErr::VPX_CODEC_ERROR;
    match tag {
        Err(e) => r == Err::<(), VpxCodecErr>(e) && q == p1,
        Ok((len, at)) => if p1.decoded_key_frame == 0 && p1.common.frame_type != FrameType::Key {
            r == Err::<(), VpxCodecErr>(no_key) && q == p1
        } else if p1.ec_active == 0 && d.len() - at < len {
            r == Err::<(), VpxCodecErr>(corrupt) && q == failed(p1, corrupt)
        } else {
            body_decoded(p1, f, len, at, p.independent_partitions, q, r)
        },
    }
}

/// The frame `d` gets as far as its body: the tag is in order, there is something to refer to, and
/// the first partition is there.
pub open spec fn body_reached(p: Vp8dComp, d: Seq<u8>) -> bool {
    let (p1, tag) = frame_tag(p, d);
    match tag {
        Err(_) => false,
        Ok((len, at)) => {
            &&& p1.decoded_key_frame != 0 || p1.common.frame_type == FrameType::Key
            &&& p1.ec_active != 0 || d.len() - at >= len
        },
    }
}

/// Tells whether a frame gets as far as its body.
pub fn reaches_body(pbi: &Vp8dComp, data: &[u8]) -> (reached: bool)
    ensures
        reached == body_reached(*pbi, data@),
{
    proof {
        reveal(frame_tag);
    }
    let n: usize = data.len();
    let ec: bool = pbi.ec_active != 0;
    if n < 3 {
        return ec && pbi.decoded_key_frame != 0;
    }
    let len: usize = ((data[0] as usize) + 0x100 * (data[1] as usize) + 0x1_0000 * (
    data[2] as usize)) / 32;
    let key: bool = data[0] % 2 == 0;
    if !ec && len == 0 {
        return false;
    }
    if !key {
        return pbi.decoded_key_frame != 0 && (ec || n - 3 >= len);
    }
    if n < 10 {
        return ec;
    }
    data[3] == 0x9d && data[4] == 0x01 && data[5] == 0x2a && (ec || n - 10 >= len)
}

/// A frame that does not get as far as its body is an error. Only what its tag says is known
/// from then on.
pub proof fn lemma_body_not_reached(p: Vp8dComp, f: FragmentData, q: Vp8dComp, r: VpxResult<()>)
    requires
        indices_ok(p),
        frame_decoded(p, f, q, r),
        !body_reached(p, f.data[0]@),
    ensures
        r is Err,
        q == (Vp8dComp {
            mb: q.mb,
            common: Vp8Common {
                error: q.common.error,
                yv12_fb: q.common.yv12_fb,
                frame_type: q.common.frame_type,
                version: q.common.version,
                show_frame: q.common.show_frame,
                width: q.common.width,
                height: q.common.height,
                horiz_scale: q.common.horiz_scale,
                vert_scale: q.common.vert_scale,
                no_lpf: q.common.no_lpf,
                filter_type: q.common.filter_type,
                use_bilinear_mc_filter: q.common.use_bilinear_mc_filter,
                full_pixel: q.common.full_pixel,
                ..p.common
            },
            ..p
        }),
        forall|i: int|
            0 <= i < 4 ==> (#[trigger] q.common.yv12_fb[i]) == (Yv12BufferConfig {
                corrupted: q.common.yv12_fb[i].corrupted,
                ..p.common.yv12_fb[i]
            }),
        q.common.width == p.common.width && q.common.height == p.common.height || {
            let d = f.data[0]@;
            &&& d.len() >= 10
            &&& d[0] % 2 == 0
            &&& start_code(d)
            &&& q.common.width == (d[6] + 0x100 * d[7]) % 0x4000
            &&& q.common.height == (d[8] + 0x100 * d[9]) % 0x4000
        },
{
    reveal(frame_decoded);
    reveal(frame_tag);
    let k = p.dec_fb_ref_idx[0] as int;
    assert(0 <= k < 4);
    assert forall|i: int| 0 <= i < 4 implies (#[trigger] q.common.yv12_fb[i]) == (Yv12BufferConfig {
        corrupted: q.common.yv12_fb[i].corrupted,
        ..p.common.yv12_fb[i]
    }) by {
        if i != k {
            assert(uncorrupted(p, k).common.yv12_fb[i] == p.common.yv12_fb[i]);
        }
    }
}

/// A decoder has the modes of its macroblocks, and an error does not change what holds of it.
proof fn lemma_decoder_ok(p: Vp8dComp, e: VpxCodecErr, tp: TokenPartition)
    requires
        decoder_ok(p),
    ensures
        modes_fit(p.common),
        tables_ok(p.common),
        decoder_ok(failed(p, e)),
        decoder_ok(with_partitions(p, tp)),
{
    reveal(decoder_ok);
}

/// Reading the tag keeps what holds of a decoder.
proof fn lemma_tag_ok(p: Vp8dComp, d: Seq<u8>)
    requires
        indices_ok(p),
    ensures
        decoder_ok(p) ==> decoder_ok(frame_tag(p, d).0),
        indices_ok(frame_tag(p, d).0),
        kept_but_size(p, frame_tag(p, d).0),
        size_follows(p.common, d, frame_tag(p, d).0.common),
{
    reveal(decoder_ok);
    reveal(frame_tag);
    assert(0 <= p.dec_fb_ref_idx[0] < 4);
    if decoder_ok(p) {
        let q = frame_tag(p, d).0;
        let rows = p.common.mb_rows as int;
        let cols = p.common.mb_cols as int;
        assert forall|i: int| 0 <= i < 4 implies (#[trigger] q.common.yv12_fb[i]).holds(
            rows,
            cols,
        ) by {
            assert(p.common.yv12_fb[i].holds(rows, cols));
        }
    }
}

/// Setting up a frame keeps what holds of a decoder.
proof fn lemma_started_ok(p: Vp8dComp, q: Vp8dComp)
    requires
        decoder_ok(p),
        indices_ok(p),
        q == with_modes(frame_started(p), q),
        modes_fit(q.common),
    ensures
        decoder_ok(q),
        indices_ok(q),
        kept(p, q),
        frame_started(p).common.multi_token_partition == p.common.multi_token_partition,
{
    reveal(decoder_ok);
    reveal(frame_started);
}

/// Reading the first part of the header keeps what holds of a decoder.
proof fn lemma_first_header_ok(t: BoolState, p: Vp8dComp)
    requires
        decoder_ok(p),
        indices_ok(p),
    ensures
        ({
            let q = first_header(t, p).0;
            &&& decoder_ok(q)
            &&& indices_ok(q)
            &&& kept(p, q)
            &&& q.mb.fullpixel_mask == p.mb.fullpixel_mask
            &&& q.common.mip == p.common.mip
        }),
{
    reveal(decoder_ok);
    reveal(first_header);
    reveal(segment_header);
    reveal(segment_data);
    reveal(segment_tree);
    reveal(lf_deltas);
}

/// Reading the header does not touch the modes.
proof fn lemma_first_header_modes(t: BoolState, p: Vp8dComp, q: Vp8dComp)
    ensures
        first_header(t, with_modes(p, q)).0 == with_modes(first_header(t, p).0, q),
        first_header(t, with_modes(p, q)).1 == first_header(t, p).1,
        first_header(t, p).0.common.multi_token_partition == p.common.multi_token_partition,
{
    reveal(first_header);
    reveal(clamp_header);
}

/// Reading the rest of the header does not touch the modes.
proof fn lemma_rest_header_modes(
    t: BoolState,
    p: Vp8dComp,
    q: Vp8dComp,
    tables: Vp8Common,
    seg: int,
)
    ensures
        rest_header(t, with_modes(p, q), tables, seg).0 == with_modes(
            rest_header(t, p, tables, seg).0,
            q,
        ),
        rest_header(t, with_modes(p, q), tables, seg).1 == rest_header(t, p, tables, seg).1,
{
    reveal(rest_header);
    reveal(quant_header);
    reveal(ref_header);
    reveal(keep_header);
}

/// What follows the header does not depend on the stored modes of the state, but on `g`.
proof fn lemma_macroblocks_modes(
    p: Vp8dComp,
    m: Vp8dComp,
    t: BoolState,
    g: ModeGrid,
    ts: Seq<BoolState>,
    before: i32,
    q: Vp8dComp,
    r: VpxResult<()>,
)
    requires
        macroblocks_decoded(with_modes(p, m), t, g, ts, before, q, r),
    ensures
        macroblocks_decoded(p, t, g, ts, before, q, r),
{
    reveal(macroblocks_decoded);
    reveal(rows_end);
    reveal(frame_finished);
    let w = with_modes(p, m);
    assert(env_of(w) == env_of(p));
    assert(modes_known(w, t) == with_modes(modes_known(p, t), m));
    let a = modes_known(w, t);
    let b = modes_known(p, t);
    let modes = frame_modes(p, g, t).0;
    assert(filter_started(a) == with_modes(filter_started(b), m));
    assert(rows_start(a, modes, cleared_above(p), ts) == rows_start(
        b,
        modes,
        cleared_above(p),
        ts,
    ));
    assert(frame_env(filter_started(a)) == frame_env(filter_started(b)));
}

/// The border of the frame that has been decoded repeats its edges.
pub open spec fn new_frame_bordered(p: Vp8dComp) -> bool {
    borders_repeat(
        p.common.yv12_fb[p.dec_fb_ref_idx[0] as int].planes@,
        p.common.mb_rows as int,
        p.common.mb_cols as int,
    )
}

/// Reads the modes and reconstructs the macroblocks.
fn decode_macroblocks(
    pbi: &mut Vp8dComp,
    bc: &mut Vp8Reader<'_>,
    readers: &mut Vec<Vp8Reader<'_>>,
    before: i32,
) -> (r: VpxResult<()>)
    requires
        old(bc).wf(),
        decoder_ok(*old(pbi)),
        indices_ok(*old(pbi)),
        0 <= old(pbi).common.filter_level <= 63,
        mask_ok(old(pbi).mb.fullpixel_mask),
        readers_ok(old(readers)@),
        old(readers)@.len() >= partition_number(old(pbi).common.multi_token_partition),
    ensures
        macroblocks_decoded(
            *old(pbi),
            old(bc)@,
            old(pbi).common.mip@,
            reader_states(old(readers)@),
            before,
            *final(pbi),
            r,
        ),
        decoder_ok(*final(pbi)),
        final(pbi).common.y1_dequant == old(pbi).common.y1_dequant,
        final(pbi).common.y2_dequant == old(pbi).common.y2_dequant,
        final(pbi).common.uv_dequant == old(pbi).common.uv_dequant,
        kept(*old(pbi), *final(pbi)),
        new_frame_bordered(*final(pbi)),
{
    proof {
        reveal(decoder_ok);
    }
    let ghost p0 = *pbi;
    let ghost t0 = bc@;
    read_all_modes(bc, pbi);
    let ghost pm = *pbi;
    let ghost k = p0.dec_fb_ref_idx[0] as int;
    proof {
        assert(rows_ready(*pbi));
        assert(0 <= p0.dec_fb_ref_idx[0] < 4);
    }
    decode_mb_rows(pbi, readers);
    let corrupted: i32 = vp8dx_bool_error(bc) | pbi.mb.corrupted;
    let ghost pr = *pbi;
    proof {
        assert(tables_ok(pbi.common));
        assert(decoder_ok(*pbi));
    }
    let r: VpxResult<()> = finish_frame(pbi, corrupted, before);
    proof {
        reveal(macroblocks_decoded);
        reveal(rows_end);
        reveal(frame_finished);
        let (modes, u) = frame_modes(p0, p0.common.mip@, t0);
        let p1 = modes_known(p0, t0);
        let ts = reader_states(old(readers)@);
        let s = rows_end(p1, modes, cleared_above(p0), ts);
        assert(filter_started(pm).common == (Vp8Common {
            mip: pm.common.mip,
            above_context: pm.common.above_context,
            ..filter_started(p1).common
        }));
        assert(frame_env(filter_started(pm)) == frame_env(filter_started(p1)));
        assert(rows_start(pm, pm.common.mip@, pm.common.above_context@, ts) == rows_start(
            p1,
            modes,
            cleared_above(p0),
            ts,
        ));
        assert(pr == with_storage(after_macroblocks(p1, s), pr));
        let (p2, res) = frame_finished(after_macroblocks(p1, s), corrupted, before);
        assert(*pbi == with_storage(p2, *pbi));
        assert(buffers_after(
            p0.common.yv12_fb,
            pbi.common.yv12_fb,
            k,
            s.d,
            corrupted,
        ));
    }
    r
}

/// Decodes what follows the tag of a frame.
fn decode_body(pbi: &mut Vp8dComp, fragments: &FragmentData, len: usize, at: usize, before: i32) -> (r:
    VpxResult<()>)
    requires
        decoder_ok(*old(pbi)),
        indices_ok(*old(pbi)),
        fragments_ok(*fragments),
        len <= 0x7_ffff,
        at <= fragments.data[0]@.len(),
    ensures
        body_decoded(
            *old(pbi),
            *fragments,
            len as int,
            at as int,
            before,
            *final(pbi),
            r,
        ),
        decoder_ok(*final(pbi)),
        kept(*old(pbi), *final(pbi)),
        r is Ok ==> new_frame_bordered(*final(pbi)),
{
    let ghost p0 = *pbi;
    let data: &[u8] = fragments.data[0].as_slice();
    assert(fragments.data[0]@.len() <= u32::MAX);
    proof {
        lemma_decoder_ok(p0, VpxCodecErr::VPX_CODEC_OK, TokenPartition::One);
    }
    init_frame(pbi);
    let ghost m = *pbi;
    let ghost ps = frame_started(p0);
    proof {
        lemma_started_ok(p0, m);
    }
    let mut bc: Vp8Reader<'_> = start_reader(
        vstd::slice::slice_subrange(data, at, data.len()),
    );
    let ghost t0 = bc@;
    read_first_header(&mut bc, pbi);
    proof {
        lemma_first_header_modes(t0, ps, m);
        lemma_first_header_ok(t0, m);
        let e = VpxCodecErr::VPX_CODEC_CORRUPT_FRAME;
        let tp = partition_header(bc@, pbi.common.multi_token_partition).0;
        lemma_decoder_ok(*pbi, e, tp);
        lemma_decoder_ok(with_partitions(*pbi, tp), e, tp);
        reveal(body_decoded);
    }
    let mut readers: Vec<Vp8Reader<'_>> = match setup_token_decoder(
        pbi,
        fragments,
        &mut bc,
        at as u64 + len as u64,
    ) {
        Ok(readers) => readers,
        Err(e) => {
            return Err(e);
        },
    };
    let ghost ph = *pbi;
    read_rest_header(&mut bc, pbi);
    let ghost pr = *pbi;
    let ghost ts = reader_states(readers@);
    let r: VpxResult<()> = decode_macroblocks(pbi, &mut bc, &mut readers, before);
    proof {
        let (p1, t1) = first_header(t0, ps);
        let (tp, t2) = partition_header(t1, p1.common.multi_token_partition);
        let p2 = with_partitions(p1, tp);
        assert(ph == with_modes(p2, m));
        let g = first_mode_reset(p0.common.mip@);
        let seg = g[1][1].mbmi.segment_id as int;
        lemma_rest_header_modes(t2, p2, m, pr.common, seg);
        let (p3, t3) = rest_header(t2, p2, pbi.common, seg);
        lemma_rest_header_tables(t2, p2, pr.common, pbi.common, seg);
        assert(pr == with_modes(p3, m));
        lemma_macroblocks_modes(p3, m, t3, g, ts, before, *pbi, r);
        lemma_decoder_ok(*pbi, VpxCodecErr::VPX_CODEC_OK, TokenPartition::One);
    }
    r
}

/// Decodes a frame. The decoder needs its buffers only for a frame that gets as far as its body.
pub fn vp8_decode_frame(pbi: &mut Vp8dComp, fragments: &FragmentData) -> (r: VpxResult<()>)
    requires
        body_reached(*old(pbi), fragments.data[0]@) ==> decoder_ok(*old(pbi)),
        indices_ok(*old(pbi)),
        fragments_ok(*fragments),
    ensures
        frame_decoded(*old(pbi), *fragments, *final(pbi), r),
        decoder_ok(*old(pbi)) ==> decoder_ok(*final(pbi)),
        kept_but_size(*old(pbi), *final(pbi)),
        size_follows(old(pbi).common, fragments.data[0]@, final(pbi).common),
        r is Ok ==> new_frame_bordered(*final(pbi)),
{
    let data: &[u8] = fragments.data[0].as_slice();
    let before: i32 = pbi.independent_partitions;
    let tag: VpxResult<(usize, usize)> = read_frame_tag(pbi, data);
    let ghost p1 = *pbi;
    proof {
        lemma_tag_ok(*old(pbi), data@);
        if decoder_ok(p1) {
            lemma_decoder_ok(p1, VpxCodecErr::VPX_CODEC_CORRUPT_FRAME, TokenPartition::One);
        }
    }
    let r: VpxResult<()> = match tag {
        Err(e) => Err(e),
        Ok((len, at)) => {
            if pbi.decoded_key_frame == 0 && pbi.common.frame_type != FrameType::Key {
                Err(VpxCodecErr::VPX_CODEC_ERROR)
            } else if pbi.ec_active == 0 && data.len() - at < len {
                vpx_internal_error(
                    &mut pbi.common.error,
                    VpxCodecErr::VPX_CODEC_CORRUPT_FRAME,
                )
            } else {
                decode_body(pbi, fragments, len, at, before)
            }
        },
    };
    proof {
        reveal(frame_decoded);
    }
    r
}

/// A key frame whose first partition is cut off is refused as corrupt, whether the decoder has
/// buffers or not; what its tag says is known from then on, and whether a key frame was decoded
/// stays as it was.
pub proof fn law_cut_key_frame(p: Vp8dComp, f: FragmentData, q: Vp8dComp, r: VpxResult<()>)
    requires
        frame_decoded(p, f, q, r),
        p.ec_active == 0,
        f.data[0]@.len() >= 10,
        f.data[0]@[0] % 2 == 0,
        start_code(f.data[0]@),
        0 < tag_number(f.data[0]@) / 32,
        f.data[0]@.len() - 10 < tag_number(f.data[0]@) / 32,
    ensures
        ({
            let d = f.data[0]@;
            let c = q.common;
            &&& r == Err::<(), VpxCodecErr>(VpxCodecErr::VPX_CODEC_CORRUPT_FRAME)
            &&& !body_reached(p, d)
            &&& c.frame_type == FrameType::Key
            &&& c.version == (tag_number(d) / 2) % 8
            &&& c.show_frame == (tag_number(d) / 16) % 2
            &&& c.width == (d[6] + 0x100 * d[7]) % 0x4000
            &&& c.horiz_scale == d[7] / 64
            &&& c.height == (d[8] + 0x100 * d[9]) % 0x4000
            &&& c.vert_scale == d[9] / 64
            &&& c.full_pixel == (if c.version == 3 {
                1int
            } else {
                0
            })
            &&& q.decoded_key_frame == p.decoded_key_frame
        }),
{
    reveal(frame_decoded);
    reveal(frame_tag);
}

/// The token partitions of the frame are there.
pub open spec fn parts_there(p: Vp8dComp, f: FragmentData) -> bool {
    let d = f.data[0]@;
    let (p1, tag) = frame_tag(p, d);
    match tag {
        Err(_) => false,
        Ok((len, at)) => {
            let (p2, t) = first_header(fresh(d.subrange(at, d.len() as int)), frame_started(p1));
            let tp = partition_header(t, p2.common.multi_token_partition).0;
            partitions_of(f, at + len, partition_number(tp), p1.ec_active != 0) is Some
        },
    }
}

/// Decoding a frame leaves the numbers of its buffer and of the last frame's as they are.
pub proof fn lemma_new_kept(p: Vp8dComp, f: FragmentData, q: Vp8dComp, r: VpxResult<()>)
    requires
        frame_decoded(p, f, q, r),
    ensures
        q.common.new_fb_idx == p.common.new_fb_idx,
        q.common.lst_fb_idx == p.common.lst_fb_idx,
{
    reveal(frame_decoded);
    reveal(body_decoded);
    reveal(macroblocks_decoded);
    reveal(frame_finished);
    reveal(rest_header);
    reveal(quant_header);
    reveal(ref_header);
    reveal(keep_header);
    reveal(first_header);
    reveal(frame_started);
    reveal(frame_tag);
}

/// A key frame that is there as a whole, and whose readers did not go past the end of their data,
/// is decoded without an error. It replaces all reference frames.
pub proof fn law_whole_key_frame(p: Vp8dComp, f: FragmentData, q: Vp8dComp, r: VpxResult<()>)
    requires
        indices_ok(p),
        frame_decoded(p, f, q, r),
        body_reached(p, f.data[0]@),
        frame_tag(p, f.data[0]@).0.common.frame_type == FrameType::Key,
        parts_there(p, f),
        q.common.yv12_fb[p.dec_fb_ref_idx[0] as int].corrupted == 0,
    ensures
        r == Ok::<(), VpxCodecErr>(()),
        q.common.copy_buffer_to_gf == 0,
        q.common.copy_buffer_to_arf == 0,
        q.common.refresh_golden_frame == 1,
        q.common.refresh_alt_ref_frame == 1,
        q.common.show_frame == frame_tag(p, f.data[0]@).0.common.show_frame,
        q.common.new_fb_idx == p.common.new_fb_idx,
{
    reveal(frame_decoded);
    reveal(body_decoded);
    reveal(macroblocks_decoded);
    reveal(frame_finished);
    reveal(rest_header);
    reveal(quant_header);
    reveal(ref_header);
    reveal(keep_header);
    reveal(first_header);
    reveal(clamp_header);
    reveal(frame_started);
    reveal(frame_tag);
    assert(0 <= p.dec_fb_ref_idx[0] < 4);
}

proof fn lemma_headers_bookkeeping(
    t: BoolState,
    p: Vp8dComp,
    m: Vp8dComp,
    tables: Vp8Common,
    seg: int,
)
    ensures
        frame_started(with_bookkeeping(p, m)) == with_bookkeeping(frame_started(p), m),
        first_header(t, with_bookkeeping(p, m)).0 == with_bookkeeping(first_header(t, p).0, m),
        first_header(t, with_bookkeeping(p, m)).1 == first_header(t, p).1,
        rest_header(t, with_bookkeeping(p, m), tables, seg).0 == with_bookkeeping(
            rest_header(t, p, tables, seg).0,
            m,
        ),
        rest_header(t, with_bookkeeping(p, m), tables, seg).1 == rest_header(
            t,
            p,
            tables,
            seg,
        ).1,
{
    reveal(frame_started);
    reveal(first_header);
    reveal(clamp_header);
    reveal(rest_header);
    reveal(quant_header);
    reveal(ref_header);
    reveal(keep_header);
}

proof fn lemma_macroblocks_bookkeeping(
    p: Vp8dComp,
    m: Vp8dComp,
    t: BoolState,
    g: ModeGrid,
    ts: Seq<BoolState>,
    before: i32,
    q: Vp8dComp,
    r: VpxResult<()>,
)
    requires
        macroblocks_decoded(p, t, g, ts, before, q, r),
    ensures
        macroblocks_decoded(
            with_bookkeeping(p, m),
            t,
            g,
            ts,
            before,
            with_bookkeeping(q, m),
            r,
        ),
{
    reveal(macroblocks_decoded);
    reveal(frame_finished);
    let w = with_bookkeeping(p, m);
    assert(env_of(w) == env_of(p));
    let p1 = modes_known(p, t);
    assert(modes_known(w, t) == with_bookkeeping(p1, m));
    assert(cleared_above(w) =~= cleared_above(p));
    let modes = frame_modes(p, g, t).0;
    law_pixels_whether_shown_or_not(p1, m, modes, cleared_above(p), ts);
}

/// What becomes of a frame does not depend on whether it is shown, on how many frames were decoded
/// before, on its size in pixels, or on the bookkeeping of the frame buffers: where decoders
/// differ in these only, the frame's body leads to the same result, and the states afterwards
/// differ in these only.
pub proof fn law_body_whether_shown_or_not(
    p: Vp8dComp,
    m: Vp8dComp,
    f: FragmentData,
    len: int,
    at: int,
    before: i32,
    q: Vp8dComp,
    r: VpxResult<()>,
)
    requires
        body_decoded(p, f, len, at, before, q, r),
    ensures
        body_decoded(
            with_bookkeeping(p, m),
            f,
            len,
            at,
            before,
            with_bookkeeping(q, m),
            r,
        ),
{
    reveal(body_decoded);
    let w = with_bookkeeping(p, m);
    let v = with_bookkeeping(q, m);
    let d = f.data[0]@;
    let t0 = fresh(d.subrange(at, d.len() as int));
    let g = first_mode_reset(p.common.mip@);
    let seg = g[1][1].mbmi.segment_id as int;
    lemma_headers_bookkeeping(t0, p, m, q.common, seg);
    lemma_headers_bookkeeping(t0, frame_started(p), m, q.common, seg);
    let (p1, t1) = first_header(t0, frame_started(p));
    let (tp, t2) = partition_header(t1, p1.common.multi_token_partition);
    let p2 = with_partitions(p1, tp);
    let n = partition_number(tp);
    assert(with_partitions(with_bookkeeping(p1, m), tp) == with_bookkeeping(p2, m));
    match partitions_of(f, at + len, n, p.ec_active != 0) {
        None => {
            let e = VpxCodecErr::VPX_CODEC_CORRUPT_FRAME;
            assert(failed(with_bookkeeping(p2, m), e) == with_bookkeeping(failed(p2, e), m));
        },
        Some(parts) => {
            let (p3, t3) = rest_header(t2, p2, q.common, seg);
            lemma_headers_bookkeeping(t2, p2, m, q.common, seg);
            lemma_rest_header_tables(t2, with_bookkeeping(p2, m), q.common, v.common, seg);
            lemma_macroblocks_bookkeeping(p3, m, t3, g, token_readers(parts, n), before, q, r);
        },
    }
}

/// The token partitions follow the first partition, whose length is in the three bytes of the tag:
/// the reader of the first of `n` starts `3 * (n - 1)` bytes behind it, and each later one where
/// the one before it ends.
pub proof fn law_token_readers_place(p: Vp8dComp, f: FragmentData, n: int, k: int)
    requires
        p.ec_active == 0,
        f.count == 1,
        f.data[0]@.len() >= 3,
        frame_tag(p, f.data[0]@).1 is Ok,
        1 <= n <= 8,
        0 <= k < n,
        ({
            let d = f.data[0]@;
            let at = if d[0] % 2 == 0 {
                10int
            } else {
                3
            };
            let o = at + d[0] / 32 + 8 * d[1] + 2048 * d[2];
            &&& token_start(d, o, n, k) < d.len()
            &&& partitions_of(f, o, n, false) is Some
        }),
    ensures
        ({
            let d = f.data[0]@;
            let (len, at) = frame_tag(p, d).1->Ok_0;
            let o = at + d[0] / 32 + 8 * d[1] + 2048 * d[2];
            let a = token_start(d, o, n, k);
            let end = if k < n - 1 {
                token_start(d, o, n, k + 1)
            } else {
                d.len() as int
            };
            &&& token_start(d, o, n, 0) == at + d[0] / 32 + 8 * d[1] + 2048 * d[2] + 3 * (n - 1)
            &&& token_readers(partitions_of(f, at + len, n, false)->0, n)[k] == fresh(
                d.subrange(a, end),
            )
        }),
{
    let d = f.data[0]@;
    law_tag_bytes(p, d);
    assert(d[0] % 2 == 0 ==> d.len() >= 10) by {
        law_tag_accepted(p, d);
    }
    let (len, at) = frame_tag(p, d).1->Ok_0;
    law_token_partition_bytes(f, at + len, n, k);
}

} // verus!
