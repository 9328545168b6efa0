//! What goes in and what comes out.

use crate::api::format::StreamFormat;
use vstd::prelude::*;

verus! {

/// A packet of a stream, with a value of the application's that comes out with its picture.
pub struct EncodedPacket<O> {
    pub data: Vec<u8>,
    pub opaque: Option<O>,
}

impl<O> EncodedPacket<O> {
    /// A packet with nothing to come out with its picture.
    pub fn from_vec(data: Vec<u8>) -> (p: EncodedPacket<O>)
        ensures
            p.data == data,
            p.opaque is None,
    {
        EncodedPacket { data, opaque: None }
    }

    /// A packet with a value that comes out with its picture.
    pub fn from_vec_with_opaque(data: Vec<u8>, opaque: O) -> (p: EncodedPacket<O>)
        ensures
            p.data == data,
            p.opaque == Some(opaque),
    {
        EncodedPacket { data, opaque: Some(opaque) }
    }

    /// The bytes of the packet.
    pub fn bytes(&self) -> (b: &[u8])
        ensures
            b@ == self.data@,
    {
        self.data.as_slice()
    }
}

/// A decoded picture `frame`, with the value that its packet came with.
pub struct DecodedPicture<F, O> {
    pub frame: F,
    pub format: StreamFormat,
    pub opaque: Option<O>,
}

} // verus!
