//! What every decoder offers, whatever the pixel format.

use crate::color::Rgb565;
use crate::error::Error;
use crate::format::FormatHeader;
use crate::source::{rest, ByteSource, ReadExactError};
use crate::video::mjpeg::RgbFrame;
use crate::video::rgb::RawFrame;
use crate::video::yuv::Pixels;
use vstd::prelude::*;

verus! {

/// One decoded frame, borrowed from the scratch buffer it was decoded
/// into. It lives until the buffer is used for the next frame.
pub enum Frame<'a> {
    /// Planar YUV420, converted while it is drawn.
    Yuv(Pixels<'a>),
    /// Pixels in the display's own format.
    Raw(RawFrame<'a>),
    /// Three bytes per pixel, converted while it is drawn.
    Rgb(RgbFrame<'a>),
}

impl<'a> Frame<'a> {
    pub open spec fn spec_width(&self) -> u16 {
        match self {
            Frame::Yuv(p) => p.spec_width(),
            Frame::Raw(f) => f.spec_width(),
            Frame::Rgb(f) => f.spec_width(),
        }
    }

    pub open spec fn spec_height(&self) -> u16 {
        match self {
            Frame::Yuv(p) => p.spec_height(),
            Frame::Raw(f) => f.spec_height(),
            Frame::Rgb(f) => f.spec_height(),
        }
    }

    /// The bytes of the frame as they lie in the scratch buffer.
    pub open spec fn data(&self) -> Seq<u8> {
        match self {
            Frame::Yuv(p) => p.data(),
            Frame::Raw(f) => f.data(),
            Frame::Rgb(f) => f.data(),
        }
    }

    /// The display colour of the pixel in column `x` and row `y`.
    pub open spec fn spec_pixel(&self, x: int, y: int) -> Rgb565 {
        match self {
            Frame::Yuv(p) => p.spec_pixel(x, y),
            Frame::Raw(f) => f.spec_pixel(x, y),
            Frame::Rgb(f) => f.spec_pixel(x, y),
        }
    }

    /// Width and height in pixels.
    pub fn size(&self) -> (s: (u32, u32))
        ensures
            s.0 == self.spec_width(),
            s.1 == self.spec_height(),
    {
        match self {
            Frame::Yuv(p) => p.size(),
            Frame::Raw(f) => f.size(),
            Frame::Rgb(f) => f.size(),
        }
    }

    /// The display colour of the pixel in column `x` and row `y`.
    pub fn pixel(&self, x: u16, y: u16) -> (c: Rgb565)
        ensures
            c == self.spec_pixel(x as int, y as int),
            c.wf(),
    {
        match self {
            Frame::Yuv(p) => p.pixel(x, y),
            Frame::Raw(f) => f.pixel(x, y),
            Frame::Rgb(f) => f.pixel(x, y),
        }
    }
}

/// A decoder for one pixel format. It owns the source, reads the header
/// when it is made, and then decodes one frame per call into a scratch
/// buffer of `DECODE_SIZE` bytes that the caller keeps for the whole
/// session.
pub trait Decoder<
    S: ByteSource,
    const HEADER_SIZE: usize,
    F: FormatHeader<HEADER_SIZE>,
    const DECODE_SIZE: usize,
>: Sized {
    /// Why a frame that was found could not be decoded.
    type DecoderError;

    /// Whether the decoder is in a state in which it can decode.
    spec fn wf(&self) -> bool;

    /// The header that was read when the decoder was made.
    spec fn spec_header(&self) -> F;

    /// Every byte of the file, header included.
    spec fn content(&self) -> Seq<u8>;

    /// Whether the source is known never to fail.
    spec fn infallible(&self) -> bool;

    /// The bytes of the file that the decoder has not turned into frames
    /// yet, in order. Some of them may already lie in the scratch buffer.
    spec fn upcoming(&self, scratch: Seq<u8>) -> Seq<u8>;

    /// Reads the header from `source`, which must stand at the start of
    /// the file's header. Fails only when the source does.
    fn new(source: S) -> (r: Result<Self, ReadExactError<S::Error>>)
        requires
            source.wf(),
        ensures
            ({
                let ahead = rest(source.content(), source.position());
                match r {
                    Ok(d) => {
                        &&& d.wf()
                        &&& d.content() == source.content()
                        &&& d.infallible() == source.infallible()
                        &&& ahead.len() >= HEADER_SIZE
                        &&& d.spec_header() == F::of_bytes(ahead.take(HEADER_SIZE as int))
                        &&& forall|scratch: Seq<u8>| #[trigger]
                            d.upcoming(scratch) == ahead.skip(HEADER_SIZE as int)
                    },
                    Err(ReadExactError::UnexpectedEof) => ahead.len() < HEADER_SIZE,
                    Err(ReadExactError::Other(_)) => !source.infallible(),
                }
            }),
    ;

    /// The header that was read when the decoder was made.
    fn header(&self) -> (h: &F)
        ensures
            *h == self.spec_header(),
    ;

    /// Decodes the next frame into `buffer`.
    ///
    /// When the file has no further frame, the decoder moves back to the
    /// first one and says so with [`Error::LoopEof`]; the next call then
    /// decodes the first frame again.
    fn decode_into<'a>(&mut self, buffer: &'a mut [u8; DECODE_SIZE]) -> (r: Result<
        Frame<'a>,
        Error<S::Error, Self::DecoderError>,
    >)
        requires
            old(self).wf(),
        ensures
            final(self).wf(),
            final(self).content() == old(self).content(),
            final(self).infallible() == old(self).infallible(),
            final(self).spec_header() == old(self).spec_header(),
            r matches Err(Error::LoopEof) ==> final(self).upcoming(final(buffer)@) == rest(
                old(self).content(),
                HEADER_SIZE as int,
            ),
            r matches Err(Error::ReadError(_)) ==> !old(self).infallible(),
    ;
}

/// The `i`-th frame of a file of equally long frames behind a header.
pub open spec fn nth_frame(content: Seq<u8>, header_size: int, frame_len: int, i: int) -> Seq<u8> {
    content.subrange(header_size + i * frame_len, header_size + (i + 1) * frame_len)
}

/// In a file of exactly `k` frames of `frame_len` bytes each, what lies
/// ahead of frame `i` starts with that frame and goes on with what lies
/// ahead of frame `i + 1`; behind the last frame nothing is left, so that
/// the decoder starts over at the first frame.
pub proof fn lemma_frames_in_order(
    content: Seq<u8>,
    header_size: int,
    frame_len: int,
    k: int,
    i: int,
)
    requires
        0 <= header_size,
        0 < frame_len,
        0 <= i < k,
        content.len() == header_size + k * frame_len,
    ensures
        ({
            let ahead = rest(content, header_size + i * frame_len);
            &&& ahead.len() >= frame_len
            &&& ahead.take(frame_len) == nth_frame(content, header_size, frame_len, i)
            &&& ahead.skip(frame_len) == rest(content, header_size + (i + 1) * frame_len)
        }),
        rest(content, header_size + k * frame_len).len() == 0,
{
    assert(i * frame_len + frame_len <= k * frame_len) by (nonlinear_arith)
        requires
            i + 1 <= k,
            0 < frame_len,
    ;
    assert((i + 1) * frame_len == i * frame_len + frame_len) by (nonlinear_arith);
    assert(0 <= i * frame_len) by (nonlinear_arith)
        requires
            0 <= i,
            0 < frame_len,
    ;
    let ahead = rest(content, header_size + i * frame_len);
    assert(ahead.take(frame_len) =~= nth_frame(content, header_size, frame_len, i));
    assert(ahead.skip(frame_len) =~= rest(content, header_size + (i + 1) * frame_len));
}

} // verus!
