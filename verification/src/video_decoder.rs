//! The decoder behind the interface for applications: it queues pictures and announces changes of
//! their format.

use crate::alloccommon::mbs_for;
use crate::api::color::{unspecified_colors, ColorSpace, PixelFormat, VideoPlane};
use crate::api::config::{Codec, DecoderConfig};
use crate::api::decoder::{DecoderError, FlushMode};
use crate::api::format::StreamFormat;
use crate::api::frame::{AllocError, BufferAllocation, PlaneAllocation};
use crate::api::packet::{DecodedPicture, EncodedPacket};
use crate::codec::{request_ok, ControlCmd, Decoder};
use crate::decodeframe::decoder_ok;
use crate::framebufs::free_fb;
use crate::fragments::{collected, law_packet_is_frame, with_fragment};
use crate::frametag::tag_number;
use crate::newdecoder::{is_new, lemma_new};
use crate::onyxd_if::{at_rest, bare, picture_asked, playing};
use crate::published::{published, PublishedFrame};
use crate::types::{FragmentData, Vp8Common, Vp8dComp, VpxCodecErr, VpxResult, Yv12BufferConfig};
use crate::vp8_decoder::{
    cleared, holds_nothing, image_border, image_ok, law_set_then_copy_picture, lemma_blank_copy,
    lemma_cleared_blank, lemma_nothing_taken, next_picture, picture_copied, picture_set,
    picture_taken, ref_updates, refs_used, vp8_get_frame, Vp8Decoder,
};
use crate::vp8_dx_iface::{
    frame_taken, law_intact_key_frame_taken, lemma_setup, lemma_unsupplied, packet_taken,
    peeked, size_changed, sized, stream_ok, told_size, verdict, vp8_peek_si, intact_key_frame,
    Memory, Vp8AlgPriv, VpxRefFrame,
};
use crate::vpx_api::{VpxCodecStreamInfo, VpxImage, VPX_CODEC_USE_INPUT_FRAGMENTS};
use crate::yv12config::aligned_stride;
use std::collections::VecDeque;
use vstd::prelude::*;

verus! {

/// A picture in the queue.
pub type Picture<O> = DecodedPicture<PublishedFrame, O>;

/// What a packet brought about.
#[derive(Debug, Clone, Copy, PartialEq, Eq)]
pub struct Notice {
    /// The format, where it is another one than before.
    pub format_changed: Option<StreamFormat>,
    /// Whether there is a picture more in the queue.
    pub picture_available: bool,
}

/// A decoder with a queue of pictures.
pub struct Vp8VideoDecoder<O> {
    pub decoder: Vp8Decoder,
    pub out_queue: VecDeque<Picture<O>>,
    pub pending_opaque: Option<O>,
    pub last_format: Option<StreamFormat>,
}

/// The format of the pictures of a decoder, of which `b` is a frame buffer.
pub open spec fn format_of(cm: Vp8Common, b: Yv12BufferConfig) -> StreamFormat {
    StreamFormat {
        codec: Codec::VP8,
        coded_width: b.y_width as usize,
        coded_height: b.y_height as usize,
        crop_left: 0,
        crop_top: 0,
        display_width: cm.width as usize,
        display_height: cm.height as usize,
        color_space: Some(unspecified_colors()),
        pixel_format: PixelFormat::I420,
        bit_depth: 8,
    }
}

fn stream_format(cm: &Vp8Common, b: &Yv12BufferConfig) -> (f: StreamFormat)
    ensures
        f == format_of(*cm, *b),
{
    StreamFormat {
        codec: Codec::VP8,
        coded_width: b.y_width as usize,
        coded_height: b.y_height as usize,
        crop_left: 0,
        crop_top: 0,
        display_width: cm.width as usize,
        display_height: cm.height as usize,
        color_space: Some(ColorSpace::default()),
        pixel_format: PixelFormat::I420,
        bit_depth: 8,
    }
}

/// The error that stands for the code of a packet.
pub open spec fn error_of(code: VpxCodecErr, memory: Memory) -> DecoderError {
    if code == VpxCodecErr::VPX_CODEC_MEM_ERROR {
        match memory {
            Memory::Granted => DecoderError::Alloc(AllocError::OutOfMemory),
            Memory::NoFrame(why) => DecoderError::Alloc(why),
            Memory::NoStrip(why) => DecoderError::Alloc(why),
        }
    } else {
        DecoderError::MisformedData(code)
    }
}

fn decoder_error(code: VpxCodecErr, memory: &Memory) -> (e: DecoderError)
    ensures
        e == error_of(code, *memory),
{
    if code == VpxCodecErr::VPX_CODEC_MEM_ERROR {
        match memory {
            Memory::Granted => DecoderError::Alloc(AllocError::OutOfMemory),
            Memory::NoFrame(why) => DecoderError::Alloc(*why),
            Memory::NoStrip(why) => DecoderError::Alloc(*why),
        }
    } else {
        DecoderError::MisformedData(code)
    }
}

/// What is answered to a request that the decoder refuses with a code.
pub open spec fn refused(code: VpxCodecErr) -> Result<(), DecoderError> {
    Err(DecoderError::Fatal(code))
}

/// What is answered to a request that has the given result.
pub open spec fn answered(t: VpxResult<()>) -> Result<(), DecoderError> {
    match t {
        Ok(_) => Ok(()),
        Err(code) => refused(code),
    }
}

/// The decoders before and after a reference frame was to be replaced by `f`, and the answer.
#[verifier::opaque]
pub open spec fn set_answered(
    p: Option<Box<Vp8dComp>>,
    f: VpxRefFrame,
    q: Option<Box<Vp8dComp>>,
    r: Result<(), DecoderError>,
) -> bool {
    if p is None {
        q is None && r == refused(VpxCodecErr::VPX_CODEC_CORRUPT_FRAME)
    } else {
        &&& q is Some
        &&& exists|t: VpxResult<()>| #[trigger]
            picture_set(*(p->0), f, *(q->0), t) && r == answered(t)
    }
}

/// The decoders before and after a reference frame was to be copied to `f`, which became `g`, and
/// the answer.
#[verifier::opaque]
pub open spec fn copy_answered(
    p: Option<Box<Vp8dComp>>,
    f: VpxRefFrame,
    q: Option<Box<Vp8dComp>>,
    g: VpxRefFrame,
    r: Result<(), DecoderError>,
) -> bool {
    if p is None {
        q is None && g == f && r == refused(VpxCodecErr::VPX_CODEC_CORRUPT_FRAME)
    } else {
        &&& q is Some
        &&& exists|t: VpxResult<()>| #[trigger]
            picture_copied(*(p->0), f, *(q->0), g, t) && r == answered(t)
    }
}

/// The picture that a decoder gives next.
pub open spec fn fetched<O>(d: Vp8VideoDecoder<O>, pic: Option<Picture<O>>) -> bool {
    pic == if d.out_queue@.len() == 0 {
        None
    } else {
        Some(d.out_queue@[0])
    }
}

/// The decoder before and after a flush that discards: the queues are empty, no value waits for its
/// picture, and all that was decoded is cleared.
pub open spec fn discarded<O>(d: Vp8VideoDecoder<O>, e: Vp8VideoDecoder<O>) -> bool {
    &&& e.out_queue@.len() == 0
    &&& e.pending_opaque is None
    &&& e.last_format == d.last_format
    &&& cleared(*d.decoder.priv_, *e.decoder.priv_)
    &&& e.decoder.iter == d.decoder.iter
}

/// The stream has a decoder without frame buffers, since there was no memory for them.
pub open spec fn lacks_buffers(ctx: Vp8AlgPriv) -> bool {
    ctx.yv12_frame_buffers.pbi is Some && bare(*(ctx.yv12_frame_buffers.pbi->0))
}

/// No frame buffer is free, since some are counted less often than they are used.
pub open spec fn lacks_room(ctx: Vp8AlgPriv) -> bool {
    ctx.yv12_frame_buffers.pbi is Some && free_fb(
        ctx.yv12_frame_buffers.pbi->0.common.fb_idx_ref_cnt,
    ) >= 4
}

/// What a packet with these bytes says of the stream.
pub open spec fn looked_at(ctx: Vp8AlgPriv, d: Seq<u8>) -> (VpxCodecStreamInfo, VpxCodecErr) {
    let (si, code) = peeked(d, ctx.si);
    (si, verdict(code, si.is_kf, ctx.decoder_init))
}

/// A packet with these bytes has frames of another size than those before, which new frame
/// buffers are needed for.
pub open spec fn needs_buffers(ctx: Vp8AlgPriv, d: Seq<u8>) -> bool {
    let (si, code) = looked_at(ctx, d);
    code == VpxCodecErr::VPX_CODEC_OK && size_changed(ctx.si, si)
}

/// The memory that the planes of a frame buffer for frames of `w x h` pixels take.
pub open spec fn memory_for(w: int, h: int) -> Seq<Option<PlaneAllocation>> {
    let stride = aligned_stride(16 * mbs_for(w), 32);
    let rows = 16 * mbs_for(h) + 64;
    let uv = (rows / 2) * (stride / 2);
    seq![
        Some(
            PlaneAllocation {
                plane: VideoPlane::Y,
                size_bytes: (rows * stride) as usize,
                alignment: 32,
            },
        ),
        Some(PlaneAllocation { plane: VideoPlane::U, size_bytes: uv as usize, alignment: 32 }),
        Some(PlaneAllocation { plane: VideoPlane::V, size_bytes: uv as usize, alignment: 32 }),
        None,
    ]
}

/// Computes the memory for a frame buffer.
pub fn frame_allocation(w: u32, h: u32) -> (a: BufferAllocation)
    requires
        1 <= w <= 16384,
        1 <= h <= 16384,
    ensures
        a.planes@ == memory_for(w as int, h as int),
{
    let cols: usize = (w as usize + 15) / 16;
    let rows: usize = (h as usize + 15) / 16;
    let stride: usize = ((16 * cols + 95) / 32) * 32;
    let lines: usize = 16 * rows + 64;
    assert(lines * stride <= 16448 * 16480) by (nonlinear_arith)
        requires
            0 <= lines <= 16448,
            0 <= stride <= 16480,
    ;
    assert((lines / 2) * (stride / 2) <= 8224 * 8240) by (nonlinear_arith)
        requires
            0 <= lines <= 16448,
            0 <= stride <= 16480,
    ;
    let y: usize = lines * stride;
    let uv: usize = (lines / 2) * (stride / 2);
    let a = BufferAllocation {
        planes: [
            Some(PlaneAllocation { plane: VideoPlane::Y, size_bytes: y, alignment: 32 }),
            Some(PlaneAllocation { plane: VideoPlane::U, size_bytes: uv, alignment: 32 }),
            Some(PlaneAllocation { plane: VideoPlane::V, size_bytes: uv, alignment: 32 }),
            None,
        ],
    };
    assert(a.planes@ =~= memory_for(w as int, h as int));
    a
}

/// The bytes that a packet hands over; an empty packet hands over nothing.
pub open spec fn handed_over(d: Seq<u8>) -> Option<Seq<u8>> {
    if d.len() == 0 {
        None
    } else {
        Some(d)
    }
}

/// The decoder before a packet and after it, and the result, where `q` and `code` are the state of
/// the stream and the code after its bytes were taken.
pub open spec fn picture_queued<O>(
    d: Vp8VideoDecoder<O>,
    packet: EncodedPacket<O>,
    memory: Memory,
    q: Vp8AlgPriv,
    code: VpxCodecErr,
    e: Vp8VideoDecoder<O>,
    r: Result<Notice, DecoderError>,
) -> bool {
    let cm = q.yv12_frame_buffers.pbi->0.common;
    let b = cm.yv12_fb[cm.new_fb_idx as int];
    let format = format_of(cm, b);
    let pic = e.out_queue@.last();
    &&& !e.decoder.iter
    &&& if code != VpxCodecErr::VPX_CODEC_OK {
        &&& *e.decoder.priv_ == q
        &&& e.out_queue == d.out_queue
        &&& e.pending_opaque == packet.opaque
        &&& e.last_format == d.last_format
        &&& r == Err::<Notice, DecoderError>(error_of(code, memory))
    } else if next_picture(q, false) is None {
        &&& picture_taken(q, false, *e.decoder.priv_)
        &&& e.out_queue == d.out_queue
        &&& e.pending_opaque == packet.opaque
        &&& e.last_format == d.last_format
        &&& r == Ok::<Notice, DecoderError>(
            Notice { format_changed: None, picture_available: false },
        )
    } else {
        &&& picture_taken(q, false, *e.decoder.priv_)
        &&& e.out_queue@ == d.out_queue@.push(pic)
        &&& published(b, cm.width as int, cm.height as int, pic.frame)
        &&& pic.format == format
        &&& pic.opaque == packet.opaque
        &&& e.pending_opaque is None
        &&& e.last_format == Some(format)
        &&& r == Ok::<Notice, DecoderError>(
            Notice {
                format_changed: if d.last_format == Some(format) {
                    None
                } else {
                    Some(format)
                },
                picture_available: true,
            },
        )
    }
}

/// The decoder before and after a packet, and the result. `memory` tells what became of the request
/// for the frame buffers that the packet needs.
pub open spec fn packet_decoded<O>(
    d: Vp8VideoDecoder<O>,
    packet: EncodedPacket<O>,
    memory: Memory,
    e: Vp8VideoDecoder<O>,
    r: Result<Notice, DecoderError>,
) -> bool {
    exists|q: Vp8AlgPriv, code: VpxCodecErr| #[trigger]
        packet_taken(*d.decoder.priv_, handed_over(packet.data@), memory, q, code)
            && picture_queued(d, packet, memory, q, code, e, r)
}

impl<O> Vp8VideoDecoder<O> {
    /// What holds of a decoder at all times.
    pub open spec fn wf(&self) -> bool {
        &&& self.decoder.wf()
        &&& forall|k: int| 0 <= k < self.out_queue@.len() ==> (#[trigger] self.out_queue@[k]).frame.wf()
    }

    /// A decoder for a new stream, without pictures.
    pub fn new<P>(_config: &DecoderConfig<P>) -> (r: Result<Vp8VideoDecoder<O>, DecoderError>)
        ensures
            r is Ok,
            r->Ok_0.wf(),
            r->Ok_0.out_queue@.len() == 0,
            r->Ok_0.pending_opaque is None,
            r->Ok_0.last_format is None,
            r->Ok_0.decoder.engine() is None,
            r->Ok_0.decoder.priv_.fragments.enabled == 0,
    {
        assert(0u32 & VPX_CODEC_USE_INPUT_FRAGMENTS == 0) by (bit_vector);
        match Vp8Decoder::new(0) {
            Ok(decoder) => Ok(
                Vp8VideoDecoder {
                    decoder,
                    out_queue: VecDeque::new(),
                    pending_opaque: None,
                    last_format: None,
                },
            ),
            Err(e) => Err(DecoderError::InitializationFailed(e)),
        }
    }

    /// The memory that a packet with these bytes needs frame buffers of, where it does: four for
    /// frames, and one for sixteen lines of them.
    pub fn buffers_needed(&self, data: &[u8]) -> (a: Option<(BufferAllocation, BufferAllocation)>)
        requires
            self.wf(),
        ensures
            a is Some <==> needs_buffers(*self.decoder.priv_, data@),
            a is Some ==> ({
                let si = looked_at(*self.decoder.priv_, data@).0;
                &&& (a->0).0.planes@ == memory_for(si.w as int, si.h as int)
                &&& (a->0).1.planes@ == memory_for(si.w as int, 16)
            }),
    {
        let before: VpxCodecStreamInfo = self.decoder.priv_.si;
        let init: i32 = self.decoder.priv_.decoder_init;
        let mut si: VpxCodecStreamInfo = before;
        let mut code: VpxCodecErr = vp8_peek_si(data, &mut si);
        if code == VpxCodecErr::VPX_CODEC_UNSUP_BITSTREAM && si.is_kf == 0 {
            code = VpxCodecErr::VPX_CODEC_OK;
        }
        if init == 0 && si.is_kf == 0 {
            code = VpxCodecErr::VPX_CODEC_UNSUP_BITSTREAM;
        }
        if code == VpxCodecErr::VPX_CODEC_OK && (si.h != before.h || si.w != before.w) {
            Some((frame_allocation(si.w, si.h), frame_allocation(si.w, 16)))
        } else {
            None
        }
    }

    /// Takes a packet. `memory` tells what became of the request for the frame buffers that it
    /// needs. Tells what the packet brought about.
    pub fn decode_granted(&mut self, packet: EncodedPacket<O>, memory: Memory) -> (r: Result<
        Notice,
        DecoderError,
    >)
        requires
            old(self).wf(),
            packet.data@.len() <= u32::MAX,
        ensures
            final(self).wf(),
            packet_decoded(*old(self), packet, memory, *final(self), r),
    {
        let EncodedPacket { data, opaque } = packet;
        self.pending_opaque = opaque;
        let ghost d0 = *old(self);
        let taken: Result<(), VpxCodecErr> = self.decoder.decode_with(data.as_slice(), &memory);
        let ghost q = *self.decoder.priv_;
        let ghost code = match taken {
            Ok(_) => VpxCodecErr::VPX_CODEC_OK,
            Err(e) => e,
        };
        assert(packet_taken(*d0.decoder.priv_, handed_over(packet.data@), memory, q, code));
        if let Err(e) = taken {
            assert(picture_queued(
                d0,
                packet,
                memory,
                q,
                code,
                *self,
                Err::<Notice, DecoderError>(error_of(code, memory)),
            ));
            return Err(decoder_error(e, &memory));
        }
        let r: Result<Notice, DecoderError> = self.queue_picture();
        assert(picture_queued(d0, packet, memory, q, code, *self, r));
        r
    }

    /// Takes a packet. Memory for the frame buffers that it needs is there.
    pub fn decode(&mut self, packet: EncodedPacket<O>) -> (r: Result<Notice, DecoderError>)
        requires
            old(self).wf(),
            packet.data@.len() <= u32::MAX,
        ensures
            final(self).wf(),
            packet_decoded(*old(self), packet, Memory::Granted, *final(self), r),
    {
        self.decode_granted(packet, Memory::Granted)
    }

    /// Gives the picture that has been in the queue for longest.
    pub fn get_picture(&mut self) -> (r: Result<Option<Picture<O>>, DecoderError>)
        requires
            old(self).wf(),
        ensures
            final(self).wf(),
            r is Ok,
            fetched(*old(self), r->Ok_0),
            final(self).out_queue@ == if old(self).out_queue@.len() == 0 {
                old(self).out_queue@
            } else {
                old(self).out_queue@.drop_first()
            },
            *final(self) == (Vp8VideoDecoder { out_queue: final(self).out_queue, ..*old(self) }),
    {
        let pic: Option<Picture<O>> = self.out_queue.pop_front();
        Ok(pic)
    }

    /// Clears the queues and all that was decoded, or leaves everything as it is: a picture is in
    /// the queue as soon as it is decoded. What is known of the stream stays either way.
    pub fn flush(&mut self, mode: FlushMode) -> (r: Result<(), DecoderError>)
        requires
            old(self).wf(),
        ensures
            final(self).wf(),
            r is Ok,
            mode == FlushMode::Drain ==> *final(self) == *old(self),
            mode == FlushMode::Discard ==> discarded(*old(self), *final(self)),
    {
        match mode {
            FlushMode::Discard => {
                self.out_queue.clear();
                self.pending_opaque = None;
                self.decoder.clear();
            },
            FlushMode::Drain => {},
        }
        Ok(())
    }

    /// Answers a request. Postprocessing and decryption are not supported; where the decoder
    /// refuses another request, the error carries its code.
    pub fn control(&mut self, cmd: ControlCmd<'_>) -> (r: Result<(), DecoderError>)
        requires
            old(self).wf(),
            request_ok(cmd),
        ensures
            final(self).wf(),
            *final(self) == (Vp8VideoDecoder { decoder: final(self).decoder, ..*old(self) }),
            *(final(self).decoder.priv_) == (Vp8AlgPriv {
                yv12_frame_buffers: final(self).decoder.priv_.yv12_frame_buffers,
                ..*(old(self).decoder.priv_)
            }),
            final(self).decoder.iter == old(self).decoder.iter,
            final(self).decoder.engine() is Some <==> old(self).decoder.engine() is Some,
            ({
                let no_decoder = old(self).decoder.engine() is None;
                let p = *(old(self).decoder.engine()->0);
                let q = *(final(self).decoder.engine()->0);
                let corrupt = refused(VpxCodecErr::VPX_CODEC_CORRUPT_FRAME);
                let unsupported = Err::<(), DecoderError>(
                    DecoderError::FeatureNotSupported(Codec::VP8),
                );
                match cmd {
                    ControlCmd::SetReference(f) => set_answered(
                        old(self).decoder.engine(),
                        *f,
                        final(self).decoder.engine(),
                        r,
                    ),
                    ControlCmd::CopyReference(f) => copy_answered(
                        old(self).decoder.engine(),
                        *f,
                        final(self).decoder.engine(),
                        *final(f),
                        r,
                    ),
                    ControlCmd::SetPostproc(_) => r == unsupported && *final(self) == *old(self),
                    ControlCmd::GetLastRefUpdates(out) => if no_decoder {
                        r == corrupt && *final(out) == *out
                    } else {
                        r == answered(Ok(())) && *final(out) == ref_updates(p) && p == q
                    },
                    ControlCmd::GetFrameCorrupted(out) => if no_decoder {
                        &&& r == refused(VpxCodecErr::VPX_CODEC_INVALID_PARAM)
                        &&& *final(out) == *out
                    } else if p.common.frame_to_show_idx < 0 {
                        &&& r == refused(VpxCodecErr::VPX_CODEC_ERROR)
                        &&& *final(out) == *out
                        &&& p == q
                    } else {
                        &&& r == answered(Ok(()))
                        &&& *final(out)
                            == p.common.yv12_fb[p.common.frame_to_show_idx as int].corrupted
                        &&& p == q
                    },
                    ControlCmd::GetLastRefUsed(out) => if no_decoder {
                        r == corrupt && *final(out) == *out
                    } else {
                        r == answered(Ok(())) && *final(out) == refs_used(p) && p == q
                    },
                    ControlCmd::GetLastQuantizer(out) => if no_decoder {
                        r == corrupt && *final(out) == *out
                    } else {
                        r == answered(Ok(())) && *final(out) == p.common.base_qindex && p == q
                    },
                    ControlCmd::SetDecryptor => r == unsupported && *final(self) == *old(self),
                }
            }),
    {
        proof {
            reveal(set_answered);
            reveal(copy_answered);
        }
        match cmd {
            ControlCmd::SetPostproc(_) => Err(DecoderError::FeatureNotSupported(Codec::VP8)),
            ControlCmd::SetDecryptor => Err(DecoderError::FeatureNotSupported(Codec::VP8)),
            known => match self.decoder.control(known) {
                Ok(_) => Ok(()),
                Err(e) => Err(DecoderError::Fatal(e)),
            },
        }
    }

    /// Queues the picture that the last packet completed, where it did.
    fn queue_picture(&mut self) -> (r: Result<Notice, DecoderError>)
        requires
            old(self).wf(),
            !old(self).decoder.iter,
        ensures
            final(self).wf(),
            forall|d: Vp8VideoDecoder<O>, packet: EncodedPacket<O>, memory: Memory|
                d.out_queue == old(self).out_queue && d.last_format == old(self).last_format
                    && packet.opaque == old(self).pending_opaque ==> #[trigger] picture_queued(
                    d,
                    packet,
                    memory,
                    *(old(self).decoder.priv_),
                    VpxCodecErr::VPX_CODEC_OK,
                    *final(self),
                    r,
                ),
    {
        let mut iter: bool = false;
        if vp8_get_frame(&mut self.decoder.priv_, &mut iter).is_none() {
            return Ok(Notice { format_changed: None, picture_available: false });
        }
        let (format, frame): (StreamFormat, PublishedFrame) = match &self.decoder.priv_.yv12_frame_buffers.pbi {
            Some(pbi) => {
                proof {
                    lemma_picture_playing(*(old(self).decoder.priv_), **pbi);
                    lemma_buffer_shows(**pbi);
                }
                let ybf: &Yv12BufferConfig = &pbi.common.yv12_fb[pbi.common.new_fb_idx as usize];
                (
                    stream_format(&pbi.common, ybf),
                    PublishedFrame::new(ybf, pbi.common.width, pbi.common.height),
                )
            },
            None => {
                return Ok(Notice { format_changed: None, picture_available: false });
            },
        };
        let same: bool = match self.last_format {
            Some(last) => last == format,
            None => false,
        };
        self.last_format = Some(format);
        let opaque: Option<O> = self.pending_opaque.take();
        self.out_queue.push_back(DecodedPicture { frame, format, opaque });
        Ok(
            Notice {
                format_changed: if same {
                    None
                } else {
                    Some(format)
                },
                picture_available: true,
            },
        )
    }
}

/// A decoder that had a picture to show has frame buffers.
proof fn lemma_picture_playing(ctx: Vp8AlgPriv, q: Vp8dComp)
    requires
        stream_ok(ctx),
        next_picture(ctx, false) is Some,
        at_rest(q),
        q == picture_asked(*(ctx.yv12_frame_buffers.pbi->0)),
    ensures
        playing(q),
{
}

/// The pixels to show lie in each frame buffer.
proof fn lemma_buffer_shows(p: Vp8dComp)
    requires
        playing(p),
        sized(p.common),
    ensures
        0 <= p.common.new_fb_idx < 4,
        forall|f: PublishedFrame| #[trigger]
            published(
                p.common.yv12_fb[p.common.new_fb_idx as int],
                p.common.width as int,
                p.common.height as int,
                f,
            ) ==> f.wf(),
{
    reveal(decoder_ok);
    assert(p.common.yv12_fb[p.common.new_fb_idx as int].holds(
        p.common.mb_rows as int,
        p.common.mb_cols as int,
    ));
}

/// A packet that is refused, for whatever reason, leaves the queue and the announced format as they
/// are.
pub proof fn law_refused_packet_queues_nothing<O>(
    d: Vp8VideoDecoder<O>,
    packet: EncodedPacket<O>,
    memory: Memory,
    e: Vp8VideoDecoder<O>,
    r: Result<Notice, DecoderError>,
)
    requires
        packet_decoded(d, packet, memory, e, r),
        r is Err,
    ensures
        e.out_queue == d.out_queue,
        e.last_format == d.last_format,
{
}

/// At most one picture comes of a packet, at the end of the queue and with the packet's own value;
/// it is announced exactly where it is there.
pub proof fn law_picture_carries_value<O>(
    d: Vp8VideoDecoder<O>,
    packet: EncodedPacket<O>,
    memory: Memory,
    e: Vp8VideoDecoder<O>,
    r: Result<Notice, DecoderError>,
)
    requires
        packet_decoded(d, packet, memory, e, r),
        r is Ok,
    ensures
        r->Ok_0.picture_available ==> {
            &&& e.out_queue@.len() == d.out_queue@.len() + 1
            &&& e.out_queue@.drop_last() == d.out_queue@
            &&& e.out_queue@.last().opaque == packet.opaque
            &&& e.last_format == Some(e.out_queue@.last().format)
        },
        !r->Ok_0.picture_available ==> e.out_queue == d.out_queue && r->Ok_0.format_changed is None,
        r->Ok_0.format_changed is Some <==> e.last_format != d.last_format,
        r->Ok_0.format_changed is Some ==> e.last_format == r->Ok_0.format_changed,
{
    assert(d.out_queue@.push(e.out_queue@.last()).drop_last() =~= d.out_queue@);
}

/// Memory is asked for exactly where the stream's frame buffers are replaced: a packet that is not
/// split is looked at in the same way before and while it is taken.
pub proof fn law_buffers_needed<O>(d: Vp8VideoDecoder<O>, data: Seq<u8>)
    requires
        d.wf(),
        d.decoder.priv_.fragments.enabled == 0,
        data.len() > 0,
    ensures
        ({
            let ctx = *d.decoder.priv_;
            let (fs, status, _) = with_fragment(
                collected(ctx.fragments),
                Some(data),
            );
            let (si, code) = peeked(fs.data[0], ctx.si);
            &&& status > 0
            &&& needs_buffers(ctx, data) <==> verdict(code, si.is_kf, ctx.decoder_init)
                == VpxCodecErr::VPX_CODEC_OK && size_changed(ctx.si, si)
        }),
{
    let f = collected(d.decoder.priv_.fragments);
    law_packet_is_frame(f, data);
}

/// The frame that a packet completes is a key frame with a start code and a size.
pub open spec fn completes_key_frame(ctx: Vp8AlgPriv, data: Seq<u8>) -> bool {
    let (fs, status, _) = with_fragment(collected(ctx.fragments), handed_over(data));
    status > 0 && peeked(fs.data[0], ctx.si).1 == VpxCodecErr::VPX_CODEC_OK
}

/// Where a packet needs frame buffers and there is no memory for them, it is refused for that
/// reason. The stream has then a decoder that knows the new size and has no frame buffers; what the
/// decoder can say of the frames before stays as it was.
pub proof fn law_no_memory<O>(
    d: Vp8VideoDecoder<O>,
    packet: EncodedPacket<O>,
    memory: Memory,
    e: Vp8VideoDecoder<O>,
    r: Result<Notice, DecoderError>,
)
    requires
        d.wf(),
        d.decoder.priv_.fragments.enabled == 0,
        packet.data@.len() > 0,
        needs_buffers(*d.decoder.priv_, packet.data@),
        memory != Memory::Granted,
        packet_decoded(d, packet, memory, e, r),
    ensures
        r == Err::<Notice, DecoderError>(
            error_of(VpxCodecErr::VPX_CODEC_MEM_ERROR, memory),
        ),
        e.out_queue == d.out_queue,
        e.last_format == d.last_format,
        e.decoder.priv_.si == looked_at(*d.decoder.priv_, packet.data@).0,
        e.decoder.priv_.decoder_init != 0,
        lacks_buffers(*e.decoder.priv_),
        ({
            let p = d.decoder.engine()->0;
            let q = e.decoder.engine()->0;
            &&& q.common.width == e.decoder.priv_.si.w
            &&& q.common.height == e.decoder.priv_.si.h
            &&& d.decoder.engine() is Some ==> {
                &&& q.common.base_qindex == p.common.base_qindex
                &&& ref_updates(*q) == ref_updates(*p)
                &&& q.decoded_key_frame == p.decoded_key_frame
            }
        }),
{
    reveal(packet_taken);
    let ctx = *d.decoder.priv_;
    let data = handed_over(packet.data@);
    law_packet_is_frame(collected(ctx.fragments), packet.data@);
    let (q, code) = choose|q: Vp8AlgPriv, code: VpxCodecErr| #[trigger]
        packet_taken(ctx, data, memory, q, code) && picture_queued(
            d,
            packet,
            memory,
            q,
            code,
            e,
            r,
        );
    let (si, _) = peeked(packet.data@, ctx.si);
    let f = FragmentData {
        count: with_fragment(collected(ctx.fragments), data).0.count as u32,
        ..q.fragments
    };
    let q0 = *(q.yv12_frame_buffers.pbi->0);
    let p = choose|p: Vp8dComp|
        (if ctx.decoder_init == 0 {
            is_new(p)
        } else {
            p == *(ctx.yv12_frame_buffers.pbi->0)
        }) && #[trigger] frame_taken(p, si, true, f, memory, q0, code);
    if ctx.decoder_init == 0 {
        lemma_new(p);
    } else {
        lemma_setup(p);
    }
    lemma_unsupplied(told_size(p, si), memory is NoStrip, q0);
}

/// After everything was discarded, no frame that was decoded before can be copied out: the pixels
/// that a granted request copies are all zero, until there are others.
pub proof fn law_discarded_not_copied<O>(
    d: Vp8VideoDecoder<O>,
    e: Vp8VideoDecoder<O>,
    f: VpxRefFrame,
    q: Option<Box<Vp8dComp>>,
    g: VpxRefFrame,
    r: Result<(), DecoderError>,
    i: int,
    j: int,
)
    requires
        e.wf(),
        discarded(d, e),
        image_ok(f.img),
        copy_answered(e.decoder.engine(), f, q, g, r),
        r is Ok,
        0 <= i,
        0 <= j,
    ensures
        ({
            let b = image_border(f.img);
            &&& i < f.img.d_h && j < f.img.d_w ==> g.img.planes.y@[b + i][b + j] == 0
            &&& i < (f.img.d_h + 1) / 2 && j < (f.img.d_w + 1) / 2 ==> {
                &&& g.img.planes.u@[b / 2 + i][b / 2 + j] == 0
                &&& g.img.planes.v@[b / 2 + i][b / 2 + j] == 0
            }
        }),
{
    reveal(copy_answered);
    let p = *(e.decoder.engine()->0);
    let t = choose|t: VpxResult<()>| #[trigger]
        picture_copied(p, f, *(q->0), g, t) && r == answered(t);
    assert(t == Ok::<(), VpxCodecErr>(()));
    lemma_cleared_blank(*(d.decoder.engine()->0), p);
    lemma_blank_copy(p, f, *(q->0), g, i, j);
}

/// Once everything was discarded, nothing that was decoded before is left: the stream holds
/// nothing.
pub proof fn law_discarded_holds_nothing<O>(d: Vp8VideoDecoder<O>, e: Vp8VideoDecoder<O>)
    requires
        discarded(d, e),
    ensures
        e.out_queue@.len() == 0,
        holds_nothing(*e.decoder.priv_),
        e.decoder.priv_.si == d.decoder.priv_.si,
        e.decoder.priv_.decoder_init == d.decoder.priv_.decoder_init,
        d.decoder.engine() is Some ==> {
            let (p, q) = (d.decoder.engine()->0, e.decoder.engine()->0);
            &&& e.decoder.engine() is Some
            &&& q.common.base_qindex == p.common.base_qindex
            &&& ref_updates(*q) == ref_updates(*p)
        },
{
    if d.decoder.engine() is Some {
        lemma_cleared_blank(*(d.decoder.engine()->0), *(e.decoder.engine()->0));
    }
}

/// After everything was discarded, no frame is predicted from one that was decoded before: a
/// stream that holds nothing goes on holding nothing, and gives no picture, with every packet that
/// completes no key frame. A packet that is neither empty nor a fragment is then refused.
pub proof fn law_discarded_until_key_frame<O>(
    d: Vp8VideoDecoder<O>,
    packet: EncodedPacket<O>,
    memory: Memory,
    e: Vp8VideoDecoder<O>,
    r: Result<Notice, DecoderError>,
)
    requires
        d.wf(),
        holds_nothing(*d.decoder.priv_),
        packet_decoded(d, packet, memory, e, r),
        !completes_key_frame(*d.decoder.priv_, packet.data@),
    ensures
        holds_nothing(*e.decoder.priv_),
        e.out_queue == d.out_queue,
        r is Ok ==> !r->Ok_0.picture_available,
        d.decoder.priv_.fragments.enabled == 0 && packet.data@.len() > 0 ==> r is Err,
{
    let ctx = *d.decoder.priv_;
    let data = handed_over(packet.data@);
    let (q, code) = choose|q: Vp8AlgPriv, code: VpxCodecErr| #[trigger]
        packet_taken(ctx, data, memory, q, code) && picture_queued(
            d,
            packet,
            memory,
            q,
            code,
            e,
            r,
        );
    lemma_nothing_taken(ctx, data, memory, q, code);
    if packet.data@.len() > 0 && ctx.fragments.enabled == 0 {
        law_packet_is_frame(collected(ctx.fragments), packet.data@);
    }
}

/// A picture that was made a reference frame is what is copied back: the copy is granted, only the
/// pixels of the picture to be filled change, and the one in row `i` and column `j` of each plane
/// is the one that was set.
pub proof fn law_set_then_copy<O>(
    d: Vp8VideoDecoder<O>,
    f: VpxRefFrame,
    e: Vp8VideoDecoder<O>,
    granted: Result<(), DecoderError>,
    before: VpxRefFrame,
    last: Option<Box<Vp8dComp>>,
    after: VpxRefFrame,
    r: Result<(), DecoderError>,
    i: int,
    j: int,
)
    requires
        d.wf(),
        image_ok(f.img),
        image_ok(before.img),
        before.frame_type == f.frame_type,
        before.img.d_w == f.img.d_w,
        before.img.d_h == f.img.d_h,
        set_answered(d.decoder.engine(), f, e.decoder.engine(), granted),
        granted is Ok,
        copy_answered(e.decoder.engine(), before, last, after, r),
        0 <= i,
        0 <= j,
    ensures
        r == Ok::<(), DecoderError>(()),
        after == (VpxRefFrame {
            img: VpxImage { planes: after.img.planes, ..before.img },
            ..before
        }),
        ({
            let (fb, ab) = (image_border(f.img), image_border(before.img));
            let (s, t) = (f.img.planes, after.img.planes);
            &&& i < f.img.d_h && j < f.img.d_w ==> t.y@[ab + i][ab + j] == s.y@[fb + i][fb + j]
            &&& i < (f.img.d_h + 1) / 2 && j < (f.img.d_w + 1) / 2 ==> {
                &&& t.u@[ab / 2 + i][ab / 2 + j] == s.u@[fb / 2 + i][fb / 2 + j]
                &&& t.v@[ab / 2 + i][ab / 2 + j] == s.v@[fb / 2 + i][fb / 2 + j]
            }
        }),
{
    reveal(set_answered);
    reveal(copy_answered);
    let p = *(d.decoder.engine()->0);
    let q = *(e.decoder.engine()->0);
    let q2 = *(last->0);
    let t1 = choose|t: VpxResult<()>| #[trigger]
        picture_set(p, f, q, t) && granted == answered(t);
    assert(t1 == Ok::<(), VpxCodecErr>(()));
    let t2 = choose|t: VpxResult<()>| #[trigger]
        picture_copied(q, before, q2, after, t) && r == answered(t);
    law_set_then_copy_picture(p, f, q, before, q2, after, t2, i, j);
}

/// A packet with an intact key frame that is meant to be shown is taken, where there is memory. Its
/// picture is the one that is fetched next from a queue that was empty, with the packet's own
/// value.
pub proof fn law_value_comes_out<O>(
    d: Vp8VideoDecoder<O>,
    packet: EncodedPacket<O>,
    e: Vp8VideoDecoder<O>,
    r: Result<Notice, DecoderError>,
    pic: Option<Picture<O>>,
)
    requires
        d.wf(),
        d.decoder.priv_.fragments.enabled == 0,
        d.out_queue@.len() == 0,
        packet.data@.len() > 0,
        lacks_buffers(*d.decoder.priv_) || lacks_room(*d.decoder.priv_) ==> needs_buffers(
            *d.decoder.priv_,
            packet.data@,
        ),
        intact_key_frame(
            with_fragment(collected(d.decoder.priv_.fragments), Some(packet.data@)).0,
        ),
        (tag_number(packet.data@) / 16) % 2 == 1,
        packet_decoded(d, packet, Memory::Granted, e, r),
        fetched(e, pic),
    ensures
        r is Ok,
        r->Ok_0.picture_available,
        e.out_queue@.len() == 1,
        pic is Some,
        pic->0.opaque == packet.opaque,
{
    let ctx = *d.decoder.priv_;
    let data = handed_over(packet.data@);
    let (q, code) = choose|q: Vp8AlgPriv, code: VpxCodecErr| #[trigger]
        packet_taken(ctx, data, Memory::Granted, q, code) && picture_queued(
            d,
            packet,
            Memory::Granted,
            q,
            code,
            e,
            r,
        );
    law_intact_key_frame_taken(ctx, packet.data@, q, code);
    law_picture_carries_value(d, packet, Memory::Granted, e, r);
}

/// The memory for a frame buffer has room for the frame and its border in each plane, and each
/// chroma plane takes a quarter of what luma takes.
pub proof fn law_memory(w: int, h: int)
    requires
        1 <= w <= 16384,
        1 <= h <= 16384,
    ensures
        ({
            let m = memory_for(w, h);
            &&& m.len() == 4
            &&& m[0] is Some && m[1] is Some && m[2] is Some && m[3] is None
            &&& m[0]->0.plane == VideoPlane::Y
            &&& m[1]->0.plane == VideoPlane::U
            &&& m[2]->0.plane == VideoPlane::V
            &&& m[0]->0.size_bytes >= (w + 64) * (h + 64)
            &&& m[0]->0.size_bytes == 4 * m[1]->0.size_bytes
            &&& m[2]->0.size_bytes == m[1]->0.size_bytes
        }),
{
    let stride = aligned_stride(16 * mbs_for(w), 32);
    let rows = 16 * mbs_for(h) + 64;
    let (a, b) = (rows / 2, stride / 2);
    assert(rows == 2 * a && stride == 2 * b);
    assert(rows * stride == 4 * (a * b)) by (nonlinear_arith)
        requires
            rows == 2 * a,
            stride == 2 * b,
    ;
    assert((w + 64) * (h + 64) <= rows * stride) by (nonlinear_arith)
        requires
            0 <= w + 64 <= stride,
            0 <= h + 64 <= rows,
    ;
    assert(0 <= a * b && rows * stride <= 16448 * 16480) by (nonlinear_arith)
        requires
            0 <= rows <= 16448,
            0 <= stride <= 16480,
            0 <= a,
            0 <= b,
    ;
}

/// The pictures of a decoder are called by the size to be shown, and coded in whole macroblocks
/// that cover it. Nothing is cropped at the left or at the top.
pub proof fn law_format(cm: Vp8Common, b: Yv12BufferConfig)
    requires
        1 <= cm.width <= 16384,
        1 <= cm.height <= 16384,
        b.holds(mbs_for(cm.height as int), mbs_for(cm.width as int)),
    ensures
        ({
            let f = format_of(cm, b);
            &&& f.display_width == cm.width
            &&& f.display_height == cm.height
            &&& f.coded_width % 16 == 0
            &&& f.coded_height % 16 == 0
            &&& f.display_width <= f.coded_width < f.display_width + 16
            &&& f.display_height <= f.coded_height < f.display_height + 16
            &&& f.crop_left == 0 && f.crop_top == 0
            &&& f.bit_depth == 8
            &&& f.codec == Codec::VP8
            &&& f.pixel_format == PixelFormat::I420
        }),
{
}

/// Pictures come out in the order in which they were decoded: a packet does not change what is
/// fetched next while pictures wait, and its own picture is the last to come.
pub proof fn law_oldest_first<O>(
    d: Vp8VideoDecoder<O>,
    packet: EncodedPacket<O>,
    memory: Memory,
    e: Vp8VideoDecoder<O>,
    r: Result<Notice, DecoderError>,
    before: Option<Picture<O>>,
    after: Option<Picture<O>>,
)
    requires
        packet_decoded(d, packet, memory, e, r),
        fetched(d, before),
        fetched(e, after),
    ensures
        before is Some ==> after == before,
        before is None && after is Some ==> e.out_queue@.len() == 1 && after->0.opaque
            == packet.opaque,
        forall|k: int| 0 <= k < d.out_queue@.len() ==> #[trigger] e.out_queue@[k] == d.out_queue@[k],
{
    if r is Ok && r->Ok_0.picture_available {
        law_picture_carries_value(d, packet, memory, e, r);
        assert forall|k: int| 0 <= k < d.out_queue@.len() implies #[trigger] e.out_queue@[k]
            == d.out_queue@[k] by {
            assert(e.out_queue@.drop_last()[k] == d.out_queue@[k]);
        }
    }
}

} // verus!
