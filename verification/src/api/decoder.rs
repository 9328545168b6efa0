//! What decoders are asked for and what they answer.

use crate::api::config::{Codec, DecoderConfig};
use crate::api::frame::AllocError;
use crate::types::VpxCodecErr;
use crate::video_decoder::Vp8VideoDecoder;
use vstd::prelude::*;

verus! {

/// How a decoder is flushed.
#[derive(Debug, Clone, Copy, PartialEq, Eq, Structural)]
pub enum FlushMode {
    /// Clears at once the queues of what went in and what was to come out, and the decoded
    /// pictures that others could refer to. For seeking: decoding goes on with a key frame.
    Discard,
    /// Makes sure that all pictures that were decoded are in the queue. Packets are taken
    /// afterwards as before. For the end of a stream or of a part of it.
    Drain,
}

/// Why a decoder cannot do what it was asked for.
#[derive(Debug, Clone, Copy, PartialEq, Eq, Structural)]
pub enum DecoderError {
    /// The decoder could not be set up.
    InitializationFailed(VpxCodecErr),
    /// There was no memory.
    Alloc(AllocError),
    /// The packet is not what it should be.
    MisformedData(VpxCodecErr),
    /// There is no decoder for the codec.
    FeatureNotSupported(Codec),
    /// A request failed.
    Fatal(VpxCodecErr),
    /// A number is out of range.
    OutOfRange(VpxCodecErr),
}

/// Makes a decoder. There is one for VP8 only.
pub fn create_decoder<P, O>(
    config: DecoderConfig<P>,
) -> (r: Result<Vp8VideoDecoder<O>, DecoderError>)
    ensures
        config.codec == Codec::VP8 ==> {
            &&& r is Ok
            &&& r->Ok_0.wf()
            &&& r->Ok_0.out_queue@.len() == 0
            &&& r->Ok_0.pending_opaque is None
            &&& r->Ok_0.last_format is None
            &&& r->Ok_0.decoder.engine() is None
            &&& r->Ok_0.decoder.priv_.fragments.enabled == 0
        },
        config.codec != Codec::VP8 ==> r == Err::<Vp8VideoDecoder<O>, DecoderError>(
            DecoderError::FeatureNotSupported(config.codec),
        ),
{
    match config.codec {
        Codec::VP8 => Vp8VideoDecoder::new(&config),
        other => Err(DecoderError::FeatureNotSupported(other)),
    }
}

} // verus!
