//! What can go wrong while a video is decoded.

use vstd::prelude::*;

verus! {

/// `IO` is the error of the byte source, `D` the error of the decoder.
#[derive(Debug)]
pub enum Error<IO, D> {
    /// The source failed a read or a seek.
    ReadError(IO),
    /// The frame data could not be decoded.
    DecodeErrors(D),
    /// The source ended; it has been moved back to the first frame.
    /// This is no failure: decoding again starts the video over.
    LoopEof,
}

} // verus!
