//! What decoders and encoders have in common.

use crate::types::VpxCodecErr;
use crate::vp8_decoder::image_ok;
use crate::vp8_dx_iface::{Vp8PostprocCfg, VpxRefFrame};
use crate::vpx_api::{VpxCodecStreamInfo, VpxImage};
use vstd::prelude::*;

verus! {

pub type Error = VpxCodecErr;

pub type StreamInfo = VpxCodecStreamInfo;

pub type Image = VpxImage;

/// A request to the decoder.
pub enum ControlCmd<'a> {
    /// Replace a reference frame.
    SetReference(&'a VpxRefFrame),
    /// Copy a reference frame.
    CopyReference(&'a mut VpxRefFrame),
    /// Say how pictures are postprocessed.
    SetPostproc(Vp8PostprocCfg),
    /// Which reference frames the last frame replaced.
    GetLastRefUpdates(&'a mut i32),
    /// Whether the picture to show may be wrong.
    GetFrameCorrupted(&'a mut i32),
    /// Which reference frames the last frame was predicted from.
    GetLastRefUsed(&'a mut i32),
    /// The quantizer index of the last frame.
    GetLastQuantizer(&'a mut i32),
    /// Say how packets are decrypted.
    SetDecryptor,
}

/// The pictures that a request carries fit what they say of their size.
pub open spec fn request_ok(cmd: ControlCmd<'_>) -> bool {
    &&& cmd matches ControlCmd::SetReference(f) ==> image_ok(f.img)
    &&& cmd matches ControlCmd::CopyReference(f) ==> image_ok(f.img)
}

/// A decoder: packets go in, pictures come out.
pub trait Decoder {
    /// What holds of the decoder between calls.
    spec fn ready(&self) -> bool;

    /// Takes a packet.
    fn decode(&mut self, data: &[u8]) -> (r: Result<(), Error>)
        requires
            old(self).ready(),
            data@.len() <= u32::MAX,
        ensures
            final(self).ready(),
    ;

    /// Gives the picture that the last packet completed, once.
    fn get_frame(&mut self) -> (img: Option<&Image>)
        requires
            old(self).ready(),
        ensures
            final(self).ready(),
    ;

    /// Answers a request.
    fn control(&mut self, cmd: ControlCmd<'_>) -> (r: Result<(), Error>)
        requires
            old(self).ready(),
            request_ok(cmd),
        ensures
            final(self).ready(),
    ;

    /// Finds out the size of a stream's frames from its first packet.
    fn peek_stream_info(data: &[u8]) -> (r: Result<StreamInfo, Error>) where Self: Sized;

    /// What is known of the stream.
    fn stream_info(&self) -> (r: Result<StreamInfo, Error>)
        requires
            self.ready(),
    ;

    /// Ends what was handed over so far.
    fn flush(&mut self) -> (r: Result<(), Error>)
        requires
            old(self).ready(),
        ensures
            final(self).ready(),
    {
        self.decode(&[])
    }
}

/// An encoder: pictures go in, packets come out.
pub trait Encoder {
    /// Takes a picture.
    fn encode(&mut self, img: &Image, pts: i64, duration: u64, flags: u32) -> (r: Result<
        (),
        Error,
    >);

    /// Gives the next piece of the stream.
    fn get_cx_data(&mut self) -> (data: Option<&[u8]>);

    /// Answers a request.
    fn control(&mut self, cmd: ControlCmd<'_>) -> (r: Result<(), Error>);
}

} // verus!
