//! Whole packets, written bit by bit and decoded.

use vp8_decoder_rs::api::color::{ColorSpace, VideoPlane};
use vp8_decoder_rs::api::config::{Codec, DecoderConfig};
use vp8_decoder_rs::api::decoder::{create_decoder, DecoderError, FlushMode};
use vp8_decoder_rs::api::frame::{AllocError, VideoFrame};
use vp8_decoder_rs::api::packet::EncodedPacket;
use vp8_decoder_rs::codec::{ControlCmd, Decoder};
use vp8_decoder_rs::grid::Grid;
use vp8_decoder_rs::tables::{
    DEFAULT_COEF_PROBS, VP8_COEF_UPDATE_PROBS, VP8_KF_UV_MODE_PROB, VP8_KF_YMODE_PROB,
    VP8_MODE_CONTEXTS, VP8_MV_UPDATE_PROBS,
};
use vp8_decoder_rs::types::{FramePlanes, VpxCodecErr};
use vp8_decoder_rs::video_decoder::{Picture, Vp8VideoDecoder};
use vp8_decoder_rs::vp8_decoder::{image_fits, Vp8Decoder};
use vp8_decoder_rs::vp8_dx_iface::{Memory, VpxRefFrame};
use vp8_decoder_rs::vpx_api::{VpxImage, VPX_CODEC_USE_INPUT_FRAGMENTS, VPX_IMG_FMT_I420};

/// Writes booleans with their probabilities.
struct BoolEncoder {
    out: Vec<u8>,
    range: u32,
    bottom: u32,
    count: i32,
}

impl BoolEncoder {
    fn new() -> BoolEncoder {
        BoolEncoder { out: Vec::new(), range: 255, bottom: 0, count: 24 }
    }

    fn carry(&mut self) {
        let mut k: usize = self.out.len();
        while k > 0 {
            k -= 1;
            if self.out[k] == 255 {
                self.out[k] = 0;
            } else {
                self.out[k] += 1;
                return;
            }
        }
    }

    fn write(&mut self, bit: bool, prob: u8) {
        let split: u32 = 1 + (((self.range - 1) * prob as u32) >> 8);
        if bit {
            self.bottom = self.bottom.wrapping_add(split);
            self.range -= split;
        } else {
            self.range = split;
        }
        while self.range < 128 {
            self.range <<= 1;
            if self.bottom & 0x8000_0000 != 0 {
                self.carry();
            }
            self.bottom <<= 1;
            self.count -= 1;
            if self.count == 0 {
                self.out.push((self.bottom >> 24) as u8);
                self.bottom &= 0xff_ffff;
                self.count = 8;
            }
        }
    }

    fn literal(&mut self, value: u32, bits: u32) {
        for k in (0..bits).rev() {
            self.write((value >> k) & 1 == 1, 128);
        }
    }

    fn finish(mut self) -> Vec<u8> {
        for _ in 0..32 {
            self.write(false, 128);
        }
        self.out
    }
}

/// A picture to write: all macroblocks alike.
#[derive(Clone, Copy)]
struct Plan {
    w: usize,
    h: usize,
    q: u32,
    level: u32,
    /// Luma and chroma modes: 0 for the mean, 1 for columns, 2 for rows.
    ymode: u32,
    uvmode: u32,
    log2_parts: u32,
    show: bool,
    /// The first second order coefficient of the first macroblock, from 35 to 66.
    y2: Option<u32>,
}

const PLAIN: Plan =
    Plan { w: 176, h: 144, q: 20, level: 0, ymode: 0, uvmode: 0, log2_parts: 0, show: true, y2: None };

fn tag(key: bool, show: bool, first_len: usize) -> [u8; 3] {
    let n: u32 = (if key { 0 } else { 1 }) | ((show as u32) << 4) | ((first_len as u32) << 5);
    [n as u8, (n >> 8) as u8, (n >> 16) as u8]
}

fn no_coef_updates(e: &mut BoolEncoder) {
    for block in VP8_COEF_UPDATE_PROBS.iter() {
        for band in block.iter() {
            for ctx in band.iter() {
                for p in ctx.iter() {
                    e.write(false, *p);
                }
            }
        }
    }
}

/// The start of a header that key frames and others share.
fn common_header(e: &mut BoolEncoder, p: &Plan) {
    e.literal(0, 1); // segments
    e.literal(0, 1); // filter type
    e.literal(p.level, 6);
    e.literal(0, 3); // sharpness
    e.literal(0, 1); // filter deltas
    e.literal(p.log2_parts, 2);
    e.literal(p.q, 7);
    e.literal(0, 5); // quantizer deltas
}

fn frame(key: bool, p: &Plan, first: Vec<u8>, tokens: Vec<u8>) -> Vec<u8> {
    let mut d: Vec<u8> = tag(key, p.show, first.len()).to_vec();
    if key {
        d.extend_from_slice(&[0x9d, 0x01, 0x2a]);
        d.extend_from_slice(&[p.w as u8, (p.w >> 8) as u8, p.h as u8, (p.h >> 8) as u8]);
    }
    d.extend_from_slice(&first);
    let parts: usize = 1 << p.log2_parts;
    for _ in 1..parts {
        let n: usize = tokens.len();
        d.extend_from_slice(&[n as u8, (n >> 8) as u8, (n >> 16) as u8]);
    }
    for _ in 0..parts {
        d.extend_from_slice(&tokens);
    }
    d
}

fn token(e: &mut BoolEncoder, p: &[u8; 11], bits: &[(bool, usize)]) {
    for (bit, node) in bits {
        e.write(*bit, p[*node]);
    }
}

/// The coefficients of a macroblock of which only the first of second order is not zero.
fn one_coefficient(e: &mut BoolEncoder, value: u32) {
    let probs = &DEFAULT_COEF_PROBS;
    // From 35 to 66: five more bits.
    token(
        e,
        &probs[1][0][0],
        &[(true, 0), (true, 1), (true, 2), (true, 3), (true, 6), (true, 8), (false, 10)],
    );
    let extra: u32 = value - 35;
    for (k, p) in [180u8, 157, 141, 134, 130].iter().enumerate() {
        e.write((extra >> (4 - k)) & 1 == 1, *p);
    }
    e.write(false, 128);
    token(e, &probs[1][1][2], &[(false, 0)]);
    for _ in 0..16 {
        token(e, &probs[0][1][0], &[(false, 0)]);
    }
    for _ in 0..8 {
        token(e, &probs[2][0][0], &[(false, 0)]);
    }
}

fn key_frame(p: &Plan) -> Vec<u8> {
    let mut e: BoolEncoder = BoolEncoder::new();
    e.literal(0, 2); // color space, clamping
    common_header(&mut e, p);
    e.literal(1, 1); // keep the probabilities
    no_coef_updates(&mut e);
    e.literal(1, 1); // macroblocks can be empty
    e.literal(200, 8);
    let mut t: BoolEncoder = BoolEncoder::new();
    let mbs: usize = ((p.w + 15) / 16) * ((p.h + 15) / 16);
    for k in 0..mbs {
        let full: bool = k == 0 && p.y2.is_some();
        e.write(!full, 200);
        if full {
            one_coefficient(&mut t, p.y2.unwrap());
        }
        let py = &VP8_KF_YMODE_PROB;
        e.write(true, py[0]);
        e.write(p.ymode == 2, py[1]);
        if p.ymode == 2 {
            e.write(false, py[3]);
        } else {
            e.write(p.ymode == 1, py[2]);
        }
        let pu = &VP8_KF_UV_MODE_PROB;
        e.write(p.uvmode != 0, pu[0]);
        if p.uvmode != 0 {
            e.write(p.uvmode != 1, pu[1]);
            if p.uvmode != 1 {
                e.write(false, pu[2]);
            }
        }
    }
    frame(true, p, e.finish(), t.finish())
}

/// A frame of one macroblock that repeats the last frame.
fn repeat_frame(p: &Plan, refresh_last: bool) -> Vec<u8> {
    let mut e: BoolEncoder = BoolEncoder::new();
    common_header(&mut e, p);
    e.literal(0, 2); // golden and alternate stay
    e.literal(0, 4); // and are not copied to
    e.literal(0, 2); // sign biases
    e.literal(1, 1); // keep the probabilities
    e.literal(refresh_last as u32, 1);
    no_coef_updates(&mut e);
    e.literal(1, 1);
    e.literal(200, 8);
    e.literal(10, 8); // intra
    e.literal(250, 8); // last
    e.literal(128, 8); // golden
    e.literal(0, 2); // mode probabilities stay
    for ctx in VP8_MV_UPDATE_PROBS.iter() {
        for p in ctx.iter() {
            e.write(false, *p);
        }
    }
    e.write(true, 200); // empty
    e.write(true, 10); // not intra
    e.write(false, 250); // from the last frame
    e.write(false, VP8_MODE_CONTEXTS[0][0] as u8); // not moved
    frame(false, p, e.finish(), BoolEncoder::new().finish())
}

type Video = Vp8VideoDecoder<usize>;

fn video() -> Video {
    match create_decoder(DecoderConfig::new(Codec::VP8)) {
        Ok(d) => d,
        Err(e) => panic!("create: {e:?}"),
    }
}

fn packet(data: Vec<u8>) -> EncodedPacket<usize> {
    EncodedPacket::from_vec(data)
}

fn next(d: &mut Video) -> Picture<usize> {
    match d.get_picture() {
        Ok(Some(p)) => p,
        _ => panic!("no picture"),
    }
}

/// Row `i` of a plane.
fn row(p: &Picture<usize>, plane: VideoPlane, i: usize) -> Vec<u8> {
    let v = p.frame.plane(plane).unwrap();
    v.data[i * v.stride..i * v.stride + v.width].to_vec()
}

fn plane_bytes(p: &Picture<usize>, plane: VideoPlane) -> Vec<u8> {
    let h: usize = p.frame.plane(plane).unwrap().height;
    (0..h).flat_map(|i| row(p, plane, i)).collect()
}

#[test]
fn callbacks_fire_on_keyframe() {
    let mut decoder: Video = video();
    let notice = decoder.decode(packet(key_frame(&PLAIN))).unwrap();
    assert!(notice.format_changed.is_some(), "format must change on first keyframe");
    assert!(notice.picture_available, "keyframe must emit exactly one frame available");
    let format = notice.format_changed.unwrap();
    assert_eq!(format.display_width, 176);
    assert_eq!(format.display_height, 144);
    let again = decoder.decode(packet(key_frame(&PLAIN))).unwrap();
    assert!(again.format_changed.is_none());
    assert!(again.picture_available);
}

#[test]
fn flush_discard_clears_queues() {
    let mut decoder: Video = video();
    decoder.decode(packet(key_frame(&PLAIN))).unwrap();
    decoder.flush(FlushMode::Discard).unwrap();
    let pic = decoder.get_picture().unwrap();
    assert!(pic.is_none(), "output queue must be empty after Discard flush");
}

#[test]
fn nothing_decoded_outlives_a_discard() {
    let mut d: Video = video();
    let p = Plan { w: 16, h: 16, ..PLAIN };
    let data: Vec<u8> = key_frame(&p);
    d.decode(packet(data.clone())).unwrap();
    d.decode(packet(repeat_frame(&p, true))).unwrap();
    d.flush(FlushMode::Discard).unwrap();
    assert!(d.get_picture().unwrap().is_none());
    // What is known of the stream stays.
    let mut out: i32 = 5;
    d.control(ControlCmd::GetLastQuantizer(&mut out)).unwrap();
    assert_eq!(out, 20);
    d.control(ControlCmd::GetFrameCorrupted(&mut out)).unwrap();
    assert_eq!(out, 0);
    let si = d.decoder.stream_info().unwrap();
    assert_eq!((si.w, si.h), (16, 16));
    assert!(d.buffers_needed(&data).is_none());
    // The frames before are gone.
    for frame_type in [1, 2, 4] {
        let mut frame = VpxRefFrame { frame_type, img: make_image(16, 16, blank(16, 16)) };
        frame.img.planes.y.set(3, 3, 77);
        d.control(ControlCmd::CopyReference(&mut frame)).unwrap();
        for i in 0..16usize {
            assert_eq!(frame.img.planes.y.part_of_row(i, 0, 16), &[0u8; 16]);
            assert_eq!(frame.img.planes.v.part_of_row(i / 2, 0, 8), &[0u8; 8]);
        }
    }
    // A frame that is predicted from others has none to be predicted from.
    for _ in 0..2 {
        assert_eq!(
            d.decode(packet(repeat_frame(&p, true))).unwrap_err(),
            DecoderError::MisformedData(VpxCodecErr::VPX_CODEC_ERROR)
        );
        assert!(d.get_picture().unwrap().is_none());
    }
    // The next key frame starts the stream again.
    d.decode(EncodedPacket::from_vec_with_opaque(data, 9)).unwrap();
    let pic = next(&mut d);
    assert_eq!(pic.opaque, Some(9));
    assert_eq!(plane_bytes(&pic, VideoPlane::Y), vec![128u8; 256]);
    d.decode(packet(repeat_frame(&p, true))).unwrap();
    assert_eq!(plane_bytes(&next(&mut d), VideoPlane::Y), vec![128u8; 256]);
}

#[test]
fn a_discard_before_anything_was_decoded() {
    let mut d: Video = video();
    d.flush(FlushMode::Discard).unwrap();
    let mut out: i32 = 5;
    assert_eq!(
        d.control(ControlCmd::GetLastQuantizer(&mut out)),
        Err(DecoderError::Fatal(VpxCodecErr::VPX_CODEC_CORRUPT_FRAME))
    );
    d.decode(packet(key_frame(&PLAIN))).unwrap();
    assert_eq!(next(&mut d).format.display_width, 176);
}

#[test]
fn a_stream_without_memory() {
    let oom = AllocError::OutOfMemory;
    let small = Plan { w: 16, h: 16, ..PLAIN };
    for memory in [Memory::NoFrame(oom), Memory::NoStrip(oom)] {
        let mut d: Video = video();
        let err = d.decode_granted(packet(key_frame(&PLAIN)), memory).unwrap_err();
        assert_eq!(err, DecoderError::Alloc(oom));
        // There is a decoder now, which knows the size.
        let si = d.decoder.stream_info().unwrap();
        assert_eq!((si.w, si.h, si.is_kf), (176, 144, 1));
        let mut out: i32 = 5;
        d.control(ControlCmd::GetLastQuantizer(&mut out)).unwrap();
        assert_eq!(out, 0);
        d.control(ControlCmd::GetLastRefUsed(&mut out)).unwrap();
        assert_eq!(out, 0);
        let error = Err(DecoderError::Fatal(VpxCodecErr::VPX_CODEC_ERROR));
        assert_eq!(d.control(ControlCmd::GetFrameCorrupted(&mut out)), error);
        let mut frame = VpxRefFrame { frame_type: 1, img: make_image(176, 144, blank(176, 144)) };
        assert_eq!(d.control(ControlCmd::SetReference(&frame)), error);
        assert_eq!(d.control(ControlCmd::CopyReference(&mut frame)), error);
        // Memory is not asked for again as long as the size is the same.
        assert!(d.buffers_needed(&key_frame(&PLAIN)).is_none());
        assert_eq!(
            d.decode(packet(repeat_frame(&PLAIN, true))).unwrap_err(),
            DecoderError::MisformedData(VpxCodecErr::VPX_CODEC_ERROR)
        );
        assert_eq!(
            d.decode(packet(key_frame(&PLAIN)[..20].to_vec())).unwrap_err(),
            DecoderError::MisformedData(VpxCodecErr::VPX_CODEC_CORRUPT_FRAME)
        );
        assert_eq!(
            d.decode(packet(key_frame(&PLAIN))).unwrap_err(),
            DecoderError::Alloc(AllocError::OutOfMemory)
        );
        assert!(d.get_picture().unwrap().is_none());
        // Frames of another size have frame buffers of their own.
        assert!(d.buffers_needed(&key_frame(&small)).is_some());
        d.decode(packet(key_frame(&small))).unwrap();
        assert_eq!(plane_bytes(&next(&mut d), VideoPlane::Y), vec![128u8; 256]);
    }
}

#[test]
fn a_stream_that_runs_out_of_memory() {
    let mut d: Video = video();
    d.decode(packet(key_frame(&Plan { w: 16, h: 16, ..PLAIN }))).unwrap();
    let err = d
        .decode_granted(
            packet(key_frame(&PLAIN)),
            Memory::NoFrame(AllocError::UnsupportedAlignment),
        )
        .unwrap_err();
    assert_eq!(err, DecoderError::Alloc(AllocError::UnsupportedAlignment));
    // The old frame buffers are gone; what the decoder says of the last frame stays.
    let mut frame = VpxRefFrame { frame_type: 1, img: make_image(16, 16, blank(16, 16)) };
    assert_eq!(
        d.control(ControlCmd::CopyReference(&mut frame)),
        Err(DecoderError::Fatal(VpxCodecErr::VPX_CODEC_ERROR))
    );
    let mut out: i32 = 5;
    d.control(ControlCmd::GetLastQuantizer(&mut out)).unwrap();
    assert_eq!(out, 20);
    d.control(ControlCmd::GetLastRefUpdates(&mut out)).unwrap();
    assert_eq!(out, 7);
    let si = d.decoder.stream_info().unwrap();
    assert_eq!((si.w, si.h), (176, 144));
    // The picture in the queue is still there.
    assert_eq!(next(&mut d).format.display_width, 16);
    d.flush(FlushMode::Discard).unwrap();
    d.decode(packet(key_frame(&Plan { w: 16, h: 16, ..PLAIN }))).unwrap();
    assert_eq!(next(&mut d).format.display_width, 16);
}

#[test]
fn flush_drain_keeps_queues() {
    let mut decoder: Video = video();
    decoder.decode(packet(key_frame(&PLAIN))).unwrap();
    decoder.flush(FlushMode::Drain).unwrap();
    assert!(decoder.get_picture().unwrap().is_some());
    assert!(decoder.get_picture().unwrap().is_none());
}

#[test]
fn format_signaled_accurately() {
    let mut decoder: Video = video();
    decoder.decode(packet(key_frame(&PLAIN))).unwrap();
    let pic = next(&mut decoder);
    assert_eq!(pic.format.display_width, 176);
    assert_eq!(pic.format.display_height, 144);
    assert!(pic.format.color_space.is_some());
    assert_eq!(pic.format.color_space, Some(ColorSpace::default()));
    assert_eq!(pic.format.codec, Codec::VP8);
    assert_eq!(pic.format.bit_depth, 8);
}

#[test]
fn odd_sizes_are_rounded_up_inside_only() {
    let mut decoder: Video = video();
    decoder.decode(packet(key_frame(&Plan { w: 17, h: 33, ..PLAIN }))).unwrap();
    let pic = next(&mut decoder);
    assert_eq!((pic.format.display_width, pic.format.display_height), (17, 33));
    assert_eq!((pic.format.coded_width, pic.format.coded_height), (32, 48));
    let u = pic.frame.plane(VideoPlane::U).unwrap();
    assert_eq!((u.width, u.height), (9, 17));
    assert_eq!(u.data.len(), 16 * u.stride + 9);
}

#[test]
fn plane_geometries_match_stream() {
    let mut decoder: Video = video();
    decoder.decode(packet(key_frame(&PLAIN))).unwrap();
    let pic = next(&mut decoder);
    let y_plane = pic.frame.plane(VideoPlane::Y).unwrap();
    assert_eq!(y_plane.width, 176);
    assert_eq!(y_plane.height, 144);
    let u_plane = pic.frame.plane(VideoPlane::U).unwrap();
    assert_eq!(u_plane.width, 88);
    assert_eq!(u_plane.height, 72);
    let v_plane = pic.frame.plane(VideoPlane::V).unwrap();
    assert_eq!(v_plane.width, 88);
    assert_eq!(v_plane.height, 72);
    assert!(pic.frame.plane(VideoPlane::UV).is_none());
    assert!(pic.frame.plane(VideoPlane::Alpha).is_none());
    let all = pic.frame.planes();
    assert_eq!(all[0].as_ref().unwrap().plane, VideoPlane::Y);
    assert_eq!(all[1].as_ref().unwrap().plane, VideoPlane::U);
    assert_eq!(all[2].as_ref().unwrap().plane, VideoPlane::V);
    assert!(all[3].is_none());
}

#[test]
fn opaque_tag_propagates_correctly() {
    let mut decoder: Video = video();
    let opaque_tag: usize = 0x55AA_EEFF;
    decoder.decode(EncodedPacket::from_vec_with_opaque(key_frame(&PLAIN), opaque_tag)).unwrap();
    let pic = next(&mut decoder);
    assert_eq!(pic.opaque, Some(opaque_tag), "opaque tag corrupted during decode");
}

#[test]
fn propagates_allocator_oom_failure() {
    let mut decoder: Video = video();
    let err = decoder
        .decode_granted(packet(key_frame(&PLAIN)), Memory::NoFrame(AllocError::OutOfMemory))
        .unwrap_err();
    assert!(
        matches!(err, DecoderError::Alloc(AllocError::OutOfMemory) | DecoderError::Fatal(_)),
        "Expected OOM error, got {err:?}"
    );
    assert!(decoder.get_picture().unwrap().is_none());
}

#[test]
fn propagates_allocator_unsupported_alignment_failure() {
    let mut decoder: Video = video();
    let err = decoder
        .decode_granted(
            packet(key_frame(&PLAIN)),
            Memory::NoFrame(AllocError::UnsupportedAlignment),
        )
        .unwrap_err();
    assert!(
        matches!(err, DecoderError::Alloc(AllocError::UnsupportedAlignment) | DecoderError::Fatal(_)),
        "Expected alignment error, got {err:?}"
    );
}

#[test]
fn memory_is_asked_for_when_the_size_changes() {
    let mut decoder: Video = video();
    let data: Vec<u8> = key_frame(&PLAIN);
    let (frame, scratch) = decoder.buffers_needed(&data).unwrap();
    let y = frame.planes[0].unwrap();
    assert_eq!(y.size_bytes, (144 + 64) * 256);
    assert_eq!(frame.planes[1].unwrap().size_bytes, (72 + 32) * 128);
    assert_eq!(scratch.planes[0].unwrap().size_bytes, (16 + 64) * 256);
    assert!(frame.planes[3].is_none());
    decoder.decode_granted(packet(data.clone()), Memory::Granted).unwrap();
    // The same size again: a refusal does not matter.
    assert!(decoder.buffers_needed(&data).is_none());
    assert!(decoder
        .decode_granted(packet(data), Memory::NoFrame(AllocError::OutOfMemory))
        .unwrap()
        .picture_available);
    let other: Vec<u8> = key_frame(&Plan { w: 32, ..PLAIN });
    assert!(decoder.buffers_needed(&other).is_some());
    assert!(decoder.buffers_needed(&[1, 2, 3]).is_none());
}

#[test]
fn pictures_of_one_colour() {
    let mut decoder: Video = video();
    decoder.decode(packet(key_frame(&PLAIN))).unwrap();
    let pic = next(&mut decoder);
    assert_eq!(plane_bytes(&pic, VideoPlane::Y), vec![128u8; 176 * 144]);
    assert_eq!(plane_bytes(&pic, VideoPlane::U), vec![128u8; 88 * 72]);
    assert_eq!(plane_bytes(&pic, VideoPlane::V), vec![128u8; 88 * 72]);
}

#[test]
fn columns_and_rows_come_from_the_border() {
    let mut decoder: Video = video();
    decoder.decode(packet(key_frame(&Plan { ymode: 1, uvmode: 2, level: 40, ..PLAIN }))).unwrap();
    let pic = next(&mut decoder);
    assert_eq!(plane_bytes(&pic, VideoPlane::Y), vec![127u8; 176 * 144]);
    assert_eq!(plane_bytes(&pic, VideoPlane::U), vec![129u8; 88 * 72]);
    assert_eq!(plane_bytes(&pic, VideoPlane::V), vec![129u8; 88 * 72]);
}

#[test]
fn a_coefficient_lifts_its_macroblock() {
    // 64 steps of eight give eight pixels' worth in each of the sixteen blocks.
    let mut decoder: Video = video();
    let p = Plan { w: 16, h: 16, q: 0, y2: Some(64), ..PLAIN };
    decoder.decode(packet(key_frame(&p))).unwrap();
    let pic = next(&mut decoder);
    assert_eq!(plane_bytes(&pic, VideoPlane::Y), vec![136u8; 256]);
    assert_eq!(plane_bytes(&pic, VideoPlane::U), vec![128u8; 64]);
}

#[test]
fn tokens_come_in_several_partitions() {
    let mut decoder: Video = video();
    let p = Plan { w: 32, h: 48, log2_parts: 2, ..PLAIN };
    decoder.decode(packet(key_frame(&p))).unwrap();
    assert_eq!(plane_bytes(&next(&mut decoder), VideoPlane::Y), vec![128u8; 32 * 48]);
}

#[test]
fn frames_are_predicted_from_the_last() {
    let mut decoder: Video = video();
    let p = Plan { w: 16, h: 16, q: 0, y2: Some(64), ..PLAIN };
    decoder.decode(packet(key_frame(&p))).unwrap();
    let first = next(&mut decoder);
    let notice = decoder.decode(packet(repeat_frame(&p, true))).unwrap();
    assert!(notice.picture_available);
    assert!(notice.format_changed.is_none());
    let second = next(&mut decoder);
    assert_eq!(plane_bytes(&second, VideoPlane::Y), plane_bytes(&first, VideoPlane::Y));
    assert_eq!(plane_bytes(&second, VideoPlane::Y), vec![136u8; 256]);
}

#[test]
fn recycles_dropped_buffers() {
    let mut decoder: Video = video();
    let p = Plan { w: 16, h: 16, q: 0, y2: Some(64), ..PLAIN };
    decoder.decode(packet(key_frame(&p))).unwrap();
    assert!(decoder.get_picture().unwrap().is_some());
    for k in 0..8 {
        let data: Vec<u8> = repeat_frame(&p, k % 2 == 0);
        assert!(decoder.buffers_needed(&data).is_none(), "fresh buffers instead of recycling");
        decoder.decode(packet(data)).unwrap();
        assert!(decoder.get_picture().unwrap().is_some());
    }
}

#[test]
fn hidden_frames_give_no_picture() {
    let mut decoder: Video = video();
    let notice = decoder.decode(packet(key_frame(&Plan { show: false, ..PLAIN }))).unwrap();
    assert!(!notice.picture_available);
    assert!(notice.format_changed.is_none());
    assert!(decoder.get_picture().unwrap().is_none());
}

#[test]
fn pictures_come_in_order() {
    let mut decoder: Video = video();
    for k in 0..3usize {
        decoder.decode(EncodedPacket::from_vec_with_opaque(key_frame(&PLAIN), k)).unwrap();
    }
    for k in 0..3usize {
        assert_eq!(next(&mut decoder).opaque, Some(k));
    }
    assert!(decoder.get_picture().unwrap().is_none());
}

fn decoder() -> Vp8Decoder {
    match Vp8Decoder::new(0) {
        Ok(d) => d,
        Err(e) => panic!("{e:?}"),
    }
}

fn make_image(d_w: usize, d_h: usize, planes: FramePlanes) -> VpxImage {
    let uv_w: usize = (d_w + 1) / 2;
    let mut img: VpxImage = VpxImage::empty();
    img.fmt = VPX_IMG_FMT_I420;
    img.d_w = d_w as u32;
    img.d_h = d_h as u32;
    img.w = d_w as u32;
    img.h = d_h as u32;
    img.x_chroma_shift = 1;
    img.y_chroma_shift = 1;
    img.planes = planes;
    img.stride = [d_w as i32, uv_w as i32, uv_w as i32, 0];
    img
}

fn blank(d_w: usize, d_h: usize) -> FramePlanes {
    let (uv_w, uv_h): (usize, usize) = ((d_w + 1) / 2, (d_h + 1) / 2);
    FramePlanes {
        y: Grid::filled(d_h, d_w, 0u8),
        u: Grid::filled(uv_h, uv_w, 0u8),
        v: Grid::filled(uv_h, uv_w, 0u8),
    }
}

#[test]
fn set_and_copy_reference_round_trip() {
    let mut d: Video = video();
    d.decode(packet(key_frame(&PLAIN))).unwrap();
    let pic = next(&mut d);
    let (d_w, d_h): (usize, usize) = (pic.format.display_width, pic.format.display_height);
    let (uv_w, uv_h): (usize, usize) = ((d_w + 1) / 2, (d_h + 1) / 2);
    let mut src: FramePlanes = blank(d_w, d_h);
    for r in 0..d_h {
        for c in 0..d_w {
            src.y.set(r, c, ((r * d_w + c) & 0xff) as u8);
        }
    }
    for r in 0..uv_h {
        for c in 0..uv_w {
            src.u.set(r, c, (((r * uv_w + c) * 3) & 0xff) as u8);
            src.v.set(r, c, (((r * uv_w + c) * 7) & 0xff) as u8);
        }
    }
    let set_ref = VpxRefFrame { frame_type: 1, img: make_image(d_w, d_h, src) };
    d.control(ControlCmd::SetReference(&set_ref)).unwrap();
    let mut copy_ref = VpxRefFrame { frame_type: 1, img: make_image(d_w, d_h, blank(d_w, d_h)) };
    d.control(ControlCmd::CopyReference(&mut copy_ref)).unwrap();
    for r in 0..d_h {
        assert_eq!(
            copy_ref.img.planes.y.part_of_row(r, 0, d_w),
            set_ref.img.planes.y.part_of_row(r, 0, d_w),
            "Y plane mismatch after Vp8SetReference -> Vp8CopyReference roundtrip"
        );
    }
    for r in 0..uv_h {
        assert_eq!(
            copy_ref.img.planes.u.part_of_row(r, 0, uv_w),
            set_ref.img.planes.u.part_of_row(r, 0, uv_w),
            "U plane mismatch"
        );
        assert_eq!(
            copy_ref.img.planes.v.part_of_row(r, 0, uv_w),
            set_ref.img.planes.v.part_of_row(r, 0, uv_w),
            "V plane mismatch"
        );
    }
    let mut qp: i32 = 0;
    d.control(ControlCmd::GetLastQuantizer(&mut qp)).unwrap();
    assert!(qp > 0, "QP should be positive, got {qp}");
    assert_eq!(qp, 20);
    let mut corrupted: i32 = 7;
    d.control(ControlCmd::GetFrameCorrupted(&mut corrupted)).unwrap();
    assert_eq!(corrupted, 0, "keyframe must not be corrupted");
}

#[test]
fn requests_need_a_decoder() {
    let mut d: Vp8Decoder = decoder();
    let mut out: i32 = 5;
    let corrupt = Err(VpxCodecErr::VPX_CODEC_CORRUPT_FRAME);
    assert_eq!(d.control(ControlCmd::GetLastQuantizer(&mut out)), corrupt);
    assert_eq!(d.control(ControlCmd::GetLastRefUpdates(&mut out)), corrupt);
    assert_eq!(d.control(ControlCmd::GetLastRefUsed(&mut out)), corrupt);
    assert_eq!(
        d.control(ControlCmd::GetFrameCorrupted(&mut out)),
        Err(VpxCodecErr::VPX_CODEC_INVALID_PARAM)
    );
    assert_eq!(d.control(ControlCmd::SetDecryptor), Err(VpxCodecErr::VPX_CODEC_INCAPABLE));
    assert_eq!(out, 5);
}

#[test]
fn requests_to_the_queueing_decoder() {
    let mut d: Video = video();
    let mut out: i32 = 5;
    assert_eq!(
        d.control(ControlCmd::GetLastQuantizer(&mut out)),
        Err(DecoderError::Fatal(VpxCodecErr::VPX_CODEC_CORRUPT_FRAME))
    );
    assert_eq!(
        d.control(ControlCmd::GetFrameCorrupted(&mut out)),
        Err(DecoderError::Fatal(VpxCodecErr::VPX_CODEC_INVALID_PARAM))
    );
    assert_eq!(
        d.control(ControlCmd::SetDecryptor),
        Err(DecoderError::FeatureNotSupported(Codec::VP8))
    );
    assert_eq!(out, 5);
    d.decode(packet(key_frame(&PLAIN))).unwrap();
    d.control(ControlCmd::GetLastQuantizer(&mut out)).unwrap();
    assert_eq!(out, 20);
    d.control(ControlCmd::GetLastRefUpdates(&mut out)).unwrap();
    assert_eq!(out, 7);
    d.control(ControlCmd::GetFrameCorrupted(&mut out)).unwrap();
    assert_eq!(out, 0);
    let small = VpxRefFrame { frame_type: 1, img: make_image(16, 16, blank(16, 16)) };
    assert_eq!(
        d.control(ControlCmd::SetReference(&small)),
        Err(DecoderError::Fatal(VpxCodecErr::VPX_CODEC_ERROR))
    );
    let mut planes: FramePlanes = blank(176, 144);
    planes.y.set(100, 50, 200);
    let set = VpxRefFrame { frame_type: 2, img: make_image(176, 144, planes) };
    d.control(ControlCmd::SetReference(&set)).unwrap();
    let mut copy = VpxRefFrame { frame_type: 2, img: make_image(176, 144, blank(176, 144)) };
    d.control(ControlCmd::CopyReference(&mut copy)).unwrap();
    assert_eq!(copy.img.planes.y.get(100, 50), 200);
    assert_eq!(copy.img.planes.y.get(100, 51), 0);
    assert!(next(&mut d).frame.plane(VideoPlane::Y).is_some());
}

#[test]
fn planes_fit_their_picture() {
    assert!(image_fits(&make_image(17, 9, blank(17, 9))));
    assert!(!image_fits(&make_image(17, 9, blank(18, 9))));
    assert!(!image_fits(&make_image(17, 9, blank(17, 10))));
    let mut narrow: VpxImage = make_image(17, 9, blank(17, 9));
    narrow.stride[0] = 16;
    assert!(!image_fits(&narrow));
    // Planes that no frame can take are not looked at.
    assert!(image_fits(&VpxImage::empty()));
    let mut huge: VpxImage = VpxImage::empty();
    huge.d_w = 20000;
    huge.d_h = 9;
    assert!(image_fits(&huge));
    huge.d_w = 0x7fff_ffff;
    assert!(!image_fits(&huge));
}

#[test]
fn references_of_sizes_that_no_frame_has_are_refused() {
    let mut d: Video = video();
    d.decode(packet(key_frame(&PLAIN))).unwrap();
    let error = Err(DecoderError::Fatal(VpxCodecErr::VPX_CODEC_ERROR));
    let mut img: VpxImage = VpxImage::empty();
    let none = VpxRefFrame { frame_type: 1, img };
    assert_eq!(d.control(ControlCmd::SetReference(&none)), error);
    img = VpxImage::empty();
    img.d_w = 100_000;
    img.d_h = 144;
    let mut wide = VpxRefFrame { frame_type: 1, img };
    assert_eq!(d.control(ControlCmd::SetReference(&wide)), error);
    assert_eq!(d.control(ControlCmd::CopyReference(&mut wide)), error);
}

#[test]
fn an_empty_picture_says_nothing() {
    let img: VpxImage = VpxImage::empty();
    assert_eq!((img.fmt, img.w, img.h, img.d_w, img.d_h, img.r_w, img.r_h), (0, 0, 0, 0, 0, 0, 0));
    assert_eq!((img.x_chroma_shift, img.y_chroma_shift, img.bit_depth, img.bps), (0, 0, 0, 0));
    assert_eq!((img.origin, img.stride), ([0; 4], [0; 4]));
    assert_eq!((img.planes.y.rows(), img.planes.u.rows(), img.planes.v.rows()), (0, 0, 0));
}

#[test]
fn references_of_another_size_or_name_are_refused() {
    let mut d: Vp8Decoder = decoder();
    d.decode(&key_frame(&PLAIN)).unwrap();
    let small = VpxRefFrame { frame_type: 1, img: make_image(16, 16, blank(16, 16)) };
    assert_eq!(
        d.control(ControlCmd::SetReference(&small)),
        Err(VpxCodecErr::VPX_CODEC_ERROR)
    );
    let unnamed = VpxRefFrame { frame_type: 3, img: make_image(176, 144, blank(176, 144)) };
    assert_eq!(
        d.control(ControlCmd::SetReference(&unnamed)),
        Err(VpxCodecErr::VPX_CODEC_ERROR)
    );
}

#[test]
fn references_that_were_replaced_and_used() {
    let mut d: Vp8Decoder = decoder();
    let p = Plan { w: 16, h: 16, ..PLAIN };
    let mut out: i32 = -1;
    d.decode(&key_frame(&p)).unwrap();
    d.control(ControlCmd::GetLastRefUpdates(&mut out)).unwrap();
    assert_eq!(out, 7);
    d.control(ControlCmd::GetLastRefUsed(&mut out)).unwrap();
    assert_eq!(out, 0);
    d.decode(&repeat_frame(&p, false)).unwrap();
    d.control(ControlCmd::GetLastRefUpdates(&mut out)).unwrap();
    assert_eq!(out, 0);
    d.control(ControlCmd::GetLastRefUsed(&mut out)).unwrap();
    assert_eq!(out, 1);
}

#[test]
fn key_frames_stand_alone() {
    let lifted: Plan = Plan { level: 30, y2: Some(60), ..PLAIN };
    let rows: Plan = Plan { level: 12, ymode: 2, uvmode: 1, y2: Some(40), ..PLAIN };
    let mut used: Vp8Decoder = decoder();
    used.decode(&key_frame(&lifted)).unwrap();
    used.decode(&key_frame(&PLAIN)).unwrap();
    used.decode(&key_frame(&rows)).unwrap();
    let mut fresh: Vp8Decoder = decoder();
    fresh.decode(&key_frame(&rows)).unwrap();
    let a = used.get_frame().unwrap();
    let b = fresh.get_frame().unwrap();
    for (p, q, h, w) in [
        (&a.planes.y, &b.planes.y, 208usize, 240usize),
        (&a.planes.u, &b.planes.u, 104, 120),
        (&a.planes.v, &b.planes.v, 104, 120),
    ] {
        for r in 0..h {
            for c in 0..w {
                assert_eq!(p.get(r, c), q.get(r, c), "row {r}, column {c}");
            }
        }
    }
}

#[test]
fn a_picture_is_given_once() {
    let mut d: Vp8Decoder = decoder();
    d.decode(&key_frame(&PLAIN)).unwrap();
    let img = d.get_frame().unwrap();
    assert_eq!((img.d_w, img.d_h), (176, 144));
    assert_eq!(img.planes.y.get(32, 32), 128);
    assert_eq!(img.origin[0], 32 * img.stride[0] as usize + 32);
    assert!(d.get_frame().is_none());
    let si = d.stream_info().unwrap();
    assert_eq!((si.sz, si.w, si.h, si.is_kf), (16, 176, 144, 1));
}

#[test]
fn sizes_are_found_out_from_key_frames() {
    let data: Vec<u8> = key_frame(&PLAIN);
    let si = Vp8Decoder::peek_stream_info(&data).unwrap();
    assert_eq!((si.w, si.h, si.is_kf), (176, 144, 1));
    let p = Plan { w: 16, h: 16, ..PLAIN };
    let unsupported = VpxCodecErr::VPX_CODEC_UNSUP_BITSTREAM;
    let peek = |d: &[u8]| Vp8Decoder::peek_stream_info(d).unwrap_err();
    assert_eq!(peek(&repeat_frame(&p, true)), unsupported);
    assert_eq!(peek(&data[..9]), unsupported);
    assert_eq!(peek(&[]), VpxCodecErr::VPX_CODEC_INVALID_PARAM);
    let mut wrong: Vec<u8> = data.clone();
    wrong[4] = 0;
    assert_eq!(peek(&wrong), unsupported);
    let mut empty: Vec<u8> = data.clone();
    empty[6] = 0;
    assert_eq!(peek(&empty), VpxCodecErr::VPX_CODEC_CORRUPT_FRAME);
}

#[test]
fn frames_that_are_cut_are_errors() {
    let data: Vec<u8> = key_frame(&PLAIN);
    let mut d: Vp8Decoder = decoder();
    assert_eq!(d.decode(&data[..20]), Err(VpxCodecErr::VPX_CODEC_CORRUPT_FRAME));
    assert_eq!(d.decode(&data), Ok(()));
    assert_eq!(d.decode(&data[..2]), Err(VpxCodecErr::VPX_CODEC_CORRUPT_FRAME));
}

#[test]
fn streams_start_with_a_key_frame() {
    let p = Plan { w: 16, h: 16, ..PLAIN };
    let mut d: Vp8Decoder = decoder();
    assert_eq!(d.decode(&repeat_frame(&p, true)), Err(VpxCodecErr::VPX_CODEC_UNSUP_BITSTREAM));
    assert_eq!(d.decode(&[]), Ok(()));
}

#[test]
fn frames_can_come_in_fragments() {
    let mut d: Vp8Decoder = match Vp8Decoder::new(VPX_CODEC_USE_INPUT_FRAGMENTS) {
        Ok(d) => d,
        Err(e) => panic!("{e:?}"),
    };
    let p = Plan { w: 16, h: 16, q: 0, y2: Some(64), ..PLAIN };
    let data: Vec<u8> = key_frame(&p);
    let first_len: usize = 10 + ((data[0] as usize | (data[1] as usize) << 8 | (data[2] as usize) << 16) >> 5);
    d.decode(&data[..first_len]).unwrap();
    assert!(d.get_frame().is_none());
    d.decode(&data[first_len..]).unwrap();
    assert!(d.get_frame().is_none());
    d.flush().unwrap();
    let img = d.get_frame().unwrap();
    assert_eq!(img.planes.y.get(32, 32), 136);
    assert_eq!(img.planes.y.get(47, 47), 136);
}

#[test]
fn sizes_can_change() {
    let mut decoder: Video = video();
    decoder.decode(packet(key_frame(&PLAIN))).unwrap();
    let notice = decoder.decode(packet(key_frame(&Plan { w: 64, h: 32, ..PLAIN }))).unwrap();
    let format = notice.format_changed.unwrap();
    assert_eq!((format.display_width, format.display_height), (64, 32));
    let _ = next(&mut decoder);
    let pic = next(&mut decoder);
    assert_eq!(plane_bytes(&pic, VideoPlane::Y), vec![128u8; 64 * 32]);
}
