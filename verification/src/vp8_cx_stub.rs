//! The place of an encoder, which there is none of.

use crate::codec::{ControlCmd, Encoder, Error, Image};
use crate::types::VpxCodecErr;
use vstd::prelude::*;

verus! {

/// An encoder that cannot do anything.
#[derive(Clone, Copy, PartialEq, Eq, Structural, Debug)]
pub struct Vp8Encoder;

impl Vp8Encoder {
    /// An encoder.
    pub fn new() -> (e: Vp8Encoder)
        ensures
            e == Vp8Encoder,
    {
        Vp8Encoder
    }
}

impl Default for Vp8Encoder {
    fn default() -> (e: Vp8Encoder)
        ensures
            e == Vp8Encoder,
    {
        Vp8Encoder
    }
}

impl Encoder for Vp8Encoder {
    fn encode(&mut self, _img: &Image, _pts: i64, _duration: u64, _flags: u32) -> (r: Result<
        (),
        Error,
    >)
        ensures
            r == Err::<(), Error>(VpxCodecErr::VPX_CODEC_INCAPABLE),
    {
        Err(VpxCodecErr::VPX_CODEC_INCAPABLE)
    }

    fn get_cx_data(&mut self) -> (data: Option<&[u8]>)
        ensures
            data is None,
    {
        None
    }

    fn control(&mut self, _cmd: ControlCmd<'_>) -> (r: Result<(), Error>)
        ensures
            r == Err::<(), Error>(VpxCodecErr::VPX_CODEC_INCAPABLE),
    {
        Err(VpxCodecErr::VPX_CODEC_INCAPABLE)
    }
}

} // verus!
