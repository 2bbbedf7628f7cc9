//! Raw frames in the display's own colour format.

use crate::bytes::{byte_or_zero, sample};
use crate::color::{raw_color, Rgb565};
use crate::error::Error;
use crate::format::rgb::RgbHeader;
use crate::format::FormatHeader;
use crate::source::{read_exact, rest, splice, ByteSource, ReadExactError, SeekFrom};
use crate::video::decoder::{Decoder, Frame};
use vstd::prelude::*;

verus! {

/// The colour of the pixel in column `x` and row `y` of a frame that
/// stores each pixel in two bytes, high byte first, row by row.
pub open spec fn raw_pixel(data: Seq<u8>, width: int, x: int, y: int) -> Rgb565 {
    let at = 2 * (y * width + x);
    raw_color(sample(data, at), sample(data, at + 1))
}

/// One frame of big-endian RGB565 pixels.
pub struct RawFrame<'a> {
    data: &'a [u8],
    width: u16,
    height: u16,
}

impl<'a> RawFrame<'a> {
    pub closed spec fn data(&self) -> Seq<u8> {
        self.data@
    }

    pub closed spec fn spec_width(&self) -> u16 {
        self.width
    }

    pub closed spec fn spec_height(&self) -> u16 {
        self.height
    }

    /// The colour of the pixel in column `x` and row `y`.
    pub open spec fn spec_pixel(&self, x: int, y: int) -> Rgb565 {
        raw_pixel(self.data(), self.spec_width() as int, x, y)
    }

    pub fn new(data: &'a [u8], width: u16, height: u16) -> (f: Self)
        ensures
            f.data() == data@,
            f.spec_width() == width,
            f.spec_height() == height,
    {
        Self { data, width, height }
    }

    /// Width and height in pixels.
    pub fn size(&self) -> (s: (u32, u32))
        ensures
            s.0 == self.spec_width(),
            s.1 == self.spec_height(),
    {
        (self.width as u32, self.height as u32)
    }

    /// The colour of the pixel in column `x` and row `y`. A frame that
    /// is shorter than its size calls for reads as zero where it has no
    /// bytes.
    pub fn pixel(&self, x: u16, y: u16) -> (c: Rgb565)
        ensures
            c == self.spec_pixel(x as int, y as int),
            c.wf(),
    {
        let width: u64 = self.width as u64;
        assert((y as u64) * width <= 0xffff * 0xffff) by (nonlinear_arith)
            requires
                y <= 0xffff,
                width <= 0xffff,
        ;
        let at: u64 = 2 * (y as u64 * width + x as u64);
        Rgb565::from_be_bytes(byte_or_zero(self.data, at), byte_or_zero(self.data, at + 1))
    }
}

/// Size of the scratch buffer: one frame of the largest supported size.
pub const DECODE_SIZE: usize = 153600;

/// The scratch buffer holds two bytes for every pixel of the largest
/// frame.
pub proof fn lemma_decode_size()
    ensures
        DECODE_SIZE == RgbHeader::MAX_WIDTH * RgbHeader::MAX_HEIGHT * 2,
        RgbHeader::MAX_WIDTH * RgbHeader::MAX_HEIGHT == 76800,
{
    RgbHeader::lemma_limits();
}

/// The number of bytes that are read per frame: two per pixel, but never
/// more than the largest supported frame has.
pub open spec fn frame_len(width: u16, height: u16) -> int {
    if width * height <= 76800 {
        2 * (width * height)
    } else {
        153600
    }
}

/// Decoder for raw RGB565 files.
pub struct RgbDecoder<S> {
    header: RgbHeader,
    reader: S,
}

impl<S: ByteSource> RgbDecoder<S> {
    /// The source the frames are read from.
    pub closed spec fn source(&self) -> S {
        self.reader
    }

    /// The number of bytes that are read per frame.
    pub open spec fn spec_frame_len(&self) -> int {
        frame_len(
            <Self as Decoder<S, 5, RgbHeader, 153600>>::spec_header(self).spec_width(),
            <Self as Decoder<S, 5, RgbHeader, 153600>>::spec_header(self).spec_height(),
        )
    }

    /// The source the frames are read from.
    pub fn get_ref(&self) -> (s: &S)
        ensures
            *s == self.source(),
    {
        &self.reader
    }

    /// The number of bytes that are read per frame.
    pub fn frame_size(&self) -> (n: usize)
        ensures
            n == self.spec_frame_len(),
            n <= DECODE_SIZE,
    {
        let width: u64 = self.header.width() as u64;
        let height: u64 = self.header.height() as u64;
        assert(width * height <= 0xffff * 0xffff) by (nonlinear_arith)
            requires
                width <= 0xffff,
                height <= 0xffff,
        ;
        let area: u64 = width * height;
        let pixels: u64 = if area <= 76800 { area } else { 76800 };
        (2 * pixels) as usize
    }
}

impl<S: ByteSource> Decoder<S, 5, RgbHeader, 153600> for RgbDecoder<S> {
    type DecoderError = S::Error;

    closed spec fn wf(&self) -> bool {
        self.reader.wf()
    }

    closed spec fn spec_header(&self) -> RgbHeader {
        self.header
    }

    open spec fn content(&self) -> Seq<u8> {
        self.source().content()
    }

    open spec fn infallible(&self) -> bool {
        self.source().infallible()
    }

    open spec fn upcoming(&self, scratch: Seq<u8>) -> Seq<u8> {
        rest(self.source().content(), self.source().position())
    }

    fn new(source: S) -> (r: Result<Self, ReadExactError<S::Error>>) {
        let mut reader = source;
        let mut buffer = [0u8;5];
        match read_exact(&mut reader, &mut buffer, 0, 5) {
            Ok(()) => {},
            Err(e) => {
                return Err(e);
            },
        }
        let header = RgbHeader::parse(&buffer);
        proof {
            let ahead = rest(source.content(), source.position());
            assert(buffer@ =~= ahead.take(5));
            crate::source::lemma_rest_skip(source.content(), source.position(), 5);
        }
        Ok(Self { header, reader })
    }

    fn header(&self) -> (h: &RgbHeader) {
        &self.header
    }

    fn decode_into<'a>(&mut self, buffer: &'a mut [u8; 153600]) -> (r: Result<
        Frame<'a>,
        Error<S::Error, S::Error>,
    >)
        ensures
            final(self).source().wf(),
            ({
                let ahead = old(self).upcoming(old(buffer)@);
                let n = old(self).spec_frame_len();
                match r {
                    Ok(frame) => {
                        &&& ahead.len() >= n
                        &&& frame matches Frame::Raw(pixels)
                        &&& pixels.data() == ahead.take(n)
                        &&& pixels.spec_width() == old(self).spec_header().spec_width()
                        &&& pixels.spec_height() == old(self).spec_header().spec_height()
                        &&& final(buffer)@ == splice(old(buffer)@, 0, ahead.take(n))
                        &&& final(self).upcoming(final(buffer)@) == ahead.skip(n)
                    },
                    Err(Error::LoopEof) => {
                        &&& ahead.len() < n
                        &&& final(self).source().position() == 5
                    },
                    Err(Error::ReadError(_)) => true,
                    Err(Error::DecodeErrors(_)) => false,
                }
            }),
    {
        let len = self.frame_size();
        let ghost ahead = rest(self.reader.content(), self.reader.position());
        proof {
        }
        match read_exact(&mut self.reader, buffer, 0, len) {
            Ok(()) => {
                proof {
                    crate::source::lemma_rest_skip(
                        old(self).reader.content(),
                        old(self).reader.position(),
                        len as int,
                    );
                    assert(buffer@.subrange(0, len as int) =~= ahead.take(len as int));
                }
                let data = vstd::slice::slice_subrange(buffer.as_slice(), 0, len);
                Ok(Frame::Raw(RawFrame::new(data, self.header.width(), self.header.height())))
            },
            Err(ReadExactError::UnexpectedEof) => {
                match self.reader.seek(SeekFrom::Start(5)) {
                    Ok(_) => Err(Error::LoopEof),
                    Err(e) => Err(Error::ReadError(e)),
                }
            },
            Err(ReadExactError::Other(e)) => Err(Error::ReadError(e)),
        }
    }
}

} // verus!
