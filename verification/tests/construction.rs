//! Making decoders.

use vp8_decoder_rs::api::config::{Codec, DecoderConfig, LatencyMode};
use vp8_decoder_rs::api::decoder::{create_decoder, DecoderError, FlushMode};
use vp8_decoder_rs::api::packet::EncodedPacket;
use vp8_decoder_rs::codec::{ControlCmd, Decoder, Encoder};
use vp8_decoder_rs::types::VpxCodecErr;
use vp8_decoder_rs::video_decoder::Vp8VideoDecoder;
use vp8_decoder_rs::vp8_cx_stub::Vp8Encoder;
use vp8_decoder_rs::vp8_decoder::Vp8Decoder;
use vp8_decoder_rs::vp8_dx_iface::vpx_codec_vp8_dx;
use vp8_decoder_rs::vp9_dx_stub::Vp9Decoder;
use vp8_decoder_rs::vpx_api::{VpxCodecDecCfg, VpxImage};

type Video = Vp8VideoDecoder<usize>;

#[test]
fn create_decoder_with_default_config_succeeds() {
    let result: Result<Video, DecoderError> = create_decoder(DecoderConfig::new(Codec::VP8));
    assert!(result.is_ok());
}

#[test]
fn create_decoder_low_latency_accepted() {
    let config = DecoderConfig::new(Codec::VP8).with_latency_mode(LatencyMode::LowLatency);
    let result: Result<Video, DecoderError> = create_decoder(config);
    assert!(result.is_ok(), "LowLatency must be accepted even if not honored specially");
}

#[test]
fn decoder_config_builder_chain_works() {
    let config = DecoderConfig::new(Codec::VP8).with_latency_mode(LatencyMode::Throughput);
    assert_eq!(config.codec, Codec::VP8);
    assert_eq!(config.latency_mode, LatencyMode::Throughput);
}

#[test]
fn config_carries_custom_params() {
    let config = DecoderConfig::new(Codec::AV1)
        .with_latency_mode(LatencyMode::LowLatency)
        .with_custom_params(17u8);
    assert_eq!(config.codec, Codec::AV1);
    assert_eq!(config.latency_mode, LatencyMode::LowLatency);
    assert_eq!(config.custom_params, Some(17u8));
}

#[test]
fn create_decoder_returns_box_dyn_video_decoder() {
    let mut decoder: Video = match create_decoder(DecoderConfig::new(Codec::VP8)) {
        Ok(d) => d,
        Err(e) => panic!("create: {e:?}"),
    };
    assert!(decoder.get_picture().unwrap().is_none());
}

#[test]
fn create_decoder_unsupported_codecs_table() {
    for codec in [Codec::H264, Codec::VP9, Codec::AV1, Codec::AV2] {
        let result: Result<Video, DecoderError> = create_decoder(DecoderConfig::new(codec));
        let err = result.map(|_| ()).unwrap_err();
        assert!(
            matches!(err, DecoderError::FeatureNotSupported(_)),
            "{codec:?} should return FeatureNotSupported, got {err:?}",
        );
        assert_eq!(err, DecoderError::FeatureNotSupported(codec));
    }
}

#[test]
fn output_queue_starts_empty() {
    let mut decoder: Video = match create_decoder(DecoderConfig::new(Codec::VP8)) {
        Ok(d) => d,
        Err(e) => panic!("create: {e:?}"),
    };
    let pic = decoder.get_picture().unwrap();
    assert!(pic.is_none(), "output queue must be empty on fresh initialization");
    assert!(decoder.flush(FlushMode::Drain).is_ok());
    assert!(decoder.get_picture().unwrap().is_none());
}

#[test]
fn reports_corrupted_bitstream_error() {
    let bogus_data: Vec<u8> = vec![0x01, 0x02, 0x03, 0x04, 0x05, 0x06, 0x07, 0x08, 0x09, 0x0a];
    let mut decoder: Video = match create_decoder(DecoderConfig::new(Codec::VP8)) {
        Ok(d) => d,
        Err(e) => panic!("create: {e:?}"),
    };
    let err = decoder.decode(EncodedPacket::from_vec(bogus_data)).unwrap_err();
    assert!(
        matches!(err, DecoderError::MisformedData(_) | DecoderError::OutOfRange(_)),
        "Expected corrupt bitstream error, got {err:?}"
    );
    assert_eq!(err, DecoderError::MisformedData(VpxCodecErr::VPX_CODEC_UNSUP_BITSTREAM));
}

#[test]
fn vp8_encoder_stub_is_object_safe() {
    let _: Box<dyn Encoder> = Box::new(Vp8Encoder::new());
}

#[test]
fn vp9_stub_is_object_safe() {
    let _: Box<dyn Decoder> = Box::new(Vp9Decoder::new());
}

#[test]
fn encoder_stub_refuses_everything() {
    let mut e: Vp8Encoder = Vp8Encoder::default();
    let incapable = Err(VpxCodecErr::VPX_CODEC_INCAPABLE);
    assert_eq!(e.encode(&VpxImage::empty(), 0, 1, 0), incapable);
    assert!(e.get_cx_data().is_none());
    assert_eq!(e.control(ControlCmd::SetDecryptor), incapable);
}

#[test]
fn second_decoder_stub_refuses_everything() {
    let mut d: Vp9Decoder = Vp9Decoder::default();
    let incapable = Err(VpxCodecErr::VPX_CODEC_INCAPABLE);
    assert_eq!(d.decode(&[1, 2, 3]), incapable);
    assert_eq!(d.flush(), incapable);
    assert!(d.get_frame().is_none());
    assert_eq!(d.control(ControlCmd::SetDecryptor), incapable);
    assert_eq!(
        Vp9Decoder::peek_stream_info(&[0; 16]).unwrap_err(),
        VpxCodecErr::VPX_CODEC_INCAPABLE
    );
    let si = d.stream_info().unwrap();
    assert_eq!((si.sz, si.w, si.h, si.is_kf), (0, 0, 0, 0));
}

#[test]
fn decoder_trait_object_peeks_at_nothing() {
    let mut d: Box<dyn Decoder> = match Vp8Decoder::new(0) {
        Ok(d) => Box::new(d),
        Err(e) => panic!("{e:?}"),
    };
    let si = d.stream_info().unwrap();
    assert_eq!((si.sz, si.w, si.h, si.is_kf), (16, 0, 0, 0));
    assert_eq!(d.flush(), Ok(()));
    assert!(d.get_frame().is_none());
}

#[test]
fn configuration_is_kept() {
    let mut d: Vp8Decoder = match Vp8Decoder::new(0) {
        Ok(d) => d,
        Err(e) => panic!("{e:?}"),
    };
    d.set_cfg(VpxCodecDecCfg { threads: 3, w: 8, h: 9 });
    assert_eq!(d.priv_.cfg.threads, 3);
    assert_eq!(d.priv_.cfg.w, 8);
    assert_eq!(d.priv_.cfg.h, 9);
}

#[test]
fn decoder_has_a_name() {
    let i = vpx_codec_vp8_dx();
    assert_eq!(i.name, "WebM Project VP8 Decoder");
    assert_eq!(i.caps, 0x10_0001);
}
