//! The place of a second decoder, which there is none of.

use crate::codec::{ControlCmd, Decoder, Error, Image, StreamInfo};
use crate::types::VpxCodecErr;
use vstd::prelude::*;

verus! {

/// A decoder that cannot do anything.
#[derive(Clone, Copy, PartialEq, Eq, Structural, Debug)]
pub struct Vp9Decoder;

impl Vp9Decoder {
    /// A decoder.
    pub fn new() -> (d: Vp9Decoder)
        ensures
            d == Vp9Decoder,
    {
        Vp9Decoder
    }
}

impl Default for Vp9Decoder {
    fn default() -> (d: Vp9Decoder)
        ensures
            d == Vp9Decoder,
    {
        Vp9Decoder
    }
}

impl Decoder for Vp9Decoder {
    open spec fn ready(&self) -> bool {
        true
    }

    fn decode(&mut self, _data: &[u8]) -> (r: Result<(), Error>)
        ensures
            r == Err::<(), Error>(VpxCodecErr::VPX_CODEC_INCAPABLE),
    {
        Err(VpxCodecErr::VPX_CODEC_INCAPABLE)
    }

    fn get_frame(&mut self) -> (img: Option<&Image>)
        ensures
            img is None,
    {
        None
    }

    fn control(&mut self, _cmd: ControlCmd<'_>) -> (r: Result<(), Error>)
        ensures
            r == Err::<(), Error>(VpxCodecErr::VPX_CODEC_INCAPABLE),
    {
        Err(VpxCodecErr::VPX_CODEC_INCAPABLE)
    }

    fn peek_stream_info(_data: &[u8]) -> (r: Result<StreamInfo, Error>)
        ensures
            r == Err::<StreamInfo, Error>(VpxCodecErr::VPX_CODEC_INCAPABLE),
    {
        Err(VpxCodecErr::VPX_CODEC_INCAPABLE)
    }

    fn stream_info(&self) -> (r: Result<StreamInfo, Error>)
        ensures
            r == Ok::<StreamInfo, Error>(StreamInfo { sz: 0, w: 0, h: 0, is_kf: 0 }),
    {
        Ok(StreamInfo { sz: 0, w: 0, h: 0, is_kf: 0 })
    }
}

} // verus!
