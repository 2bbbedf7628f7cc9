//! Planar YUV420 frames, converted to display colours pixel by pixel.

use crate::bytes::{byte_or_zero, sample};
use crate::color::{yuv_color, Rgb565};
use crate::error::Error;
use crate::format::yuv::YuvHeader;
use crate::format::FormatHeader;
use crate::source::{read_exact, rest, splice, ByteSource, ReadExactError, SeekFrom};
use crate::video::decoder::{Decoder, Frame};
use vstd::prelude::*;

verus! {

/// The colour of the pixel in column `x` and row `y` of a planar YUV420
/// frame of the given size: its own brightness, and the colour samples
/// that it shares with the other pixels of its two-by-two block.
pub open spec fn yuv_pixel(data: Seq<u8>, width: int, height: int, x: int, y: int) -> Rgb565 {
    let luma = width * height;
    let chroma = (width / 2) * (height / 2);
    let shared = (y / 2) * (width / 2) + x / 2;
    yuv_color(
        sample(data, y * width + x),
        sample(data, luma + shared),
        sample(data, luma + chroma + shared),
    )
}

/// One planar YUV420 frame: the brightness plane, then the two colour
/// planes at half the resolution in both directions.
pub struct Pixels<'a> {
    yuv: &'a [u8],
    width: u16,
    height: u16,
}

impl<'a> Pixels<'a> {
    pub closed spec fn data(&self) -> Seq<u8> {
        self.yuv@
    }

    pub closed spec fn spec_width(&self) -> u16 {
        self.width
    }

    pub closed spec fn spec_height(&self) -> u16 {
        self.height
    }

    /// The colour of the pixel in column `x` and row `y`.
    pub open spec fn spec_pixel(&self, x: int, y: int) -> Rgb565 {
        yuv_pixel(self.data(), self.spec_width() as int, self.spec_height() as int, x, y)
    }

    pub fn new(yuv: &'a [u8], width: u16, height: u16) -> (p: Self)
        ensures
            p.data() == yuv@,
            p.spec_width() == width,
            p.spec_height() == height,
    {
        Self { yuv, width, height }
    }

    /// Width and height in pixels.
    pub fn size(&self) -> (s: (u32, u32))
        ensures
            s.0 == self.spec_width(),
            s.1 == self.spec_height(),
    {
        (self.width as u32, self.height as u32)
    }

    /// The colour of the pixel in column `x` and row `y`, computed from
    /// the frame's bytes when it is asked for. A frame that is shorter
    /// than its size calls for reads as zero where it has no bytes.
    pub fn pixel(&self, x: u16, y: u16) -> (c: Rgb565)
        ensures
            c == self.spec_pixel(x as int, y as int),
            c.wf(),
    {
        let width: u64 = self.width as u64;
        let height: u64 = self.height as u64;
        let half: u64 = width / 2;
        assert(width * height <= 0xffff * 0xffff) by (nonlinear_arith)
            requires
                width <= 0xffff,
                height <= 0xffff,
        ;
        assert(half * (height / 2) <= 0xffff * 0xffff) by (nonlinear_arith)
            requires
                half <= 0xffff,
                height / 2 <= 0xffff,
        ;
        assert((y as u64) * width <= 0xffff * 0xffff) by (nonlinear_arith)
            requires
                y <= 0xffff,
                width <= 0xffff,
        ;
        assert((y as u64 / 2) * half <= 0xffff * 0xffff) by (nonlinear_arith)
            requires
                y as u64 / 2 <= 0xffff,
                half <= 0xffff,
        ;
        let luma: u64 = width * height;
        let chroma: u64 = half * (height / 2);
        let shared: u64 = (y as u64 / 2) * half + x as u64 / 2;
        let brightness = byte_or_zero(self.yuv, y as u64 * width + x as u64);
        let u = byte_or_zero(self.yuv, luma + shared);
        let v = byte_or_zero(self.yuv, luma + chroma + shared);
        Rgb565::from_yuv(brightness, u, v)
    }

    /// Every pixel of the frame, row by row from the top, each row from
    /// the left. This allocates; [`Self::pixel`] does not.
    pub fn pixels(&self) -> (all: Vec<Rgb565>)
        ensures
            all@.len() == self.spec_width() * self.spec_height(),
            forall|x: int, y: int|
                0 <= x < self.spec_width() && 0 <= y < self.spec_height() ==> #[trigger] all@[y
                    * self.spec_width() + x] == self.spec_pixel(x, y),
    {
        let mut all: Vec<Rgb565> = Vec::new();
        let mut y: u16 = 0;
        while y < self.height
            invariant
                y <= self.height,
                all@.len() == y * self.width,
                forall|i: int, j: int|
                    0 <= i < self.width && 0 <= j < y ==> #[trigger] all@[j * self.width + i]
                        == self.spec_pixel(i, j),
            decreases self.height - y,
        {
            let mut x: u16 = 0;
            while x < self.width
                invariant
                    x <= self.width,
                    y < self.height,
                    all@.len() == y * self.width + x,
                    forall|i: int, j: int|
                        0 <= i < self.width && 0 <= j < y ==> #[trigger] all@[j * self.width + i]
                            == self.spec_pixel(i, j),
                    forall|i: int|
                        0 <= i < x ==> #[trigger] all@[y * self.width + i] == self.spec_pixel(
                            i,
                            y as int,
                        ),
                decreases self.width - x,
            {
                let ghost before = all@;
                let c = self.pixel(x, y);
                all.push(c);
                proof {
                    assert forall|i: int, j: int| 0 <= i < self.width && 0 <= j < y implies #[trigger] all@[j
                        * self.width + i] == self.spec_pixel(i, j) by {
                        lemma_row_major(self.width as int, i, j, y as int);
                        assert(before[j * self.width + i] == self.spec_pixel(i, j));
                    }
                }
                x += 1;
            }
            proof {
                assert forall|i: int, j: int| 0 <= i < self.width && 0 <= j < y + 1 implies #[trigger] all@[j
                    * self.width + i] == self.spec_pixel(i, j) by {
                    if j == y {
                        assert(all@[y * self.width + i] == self.spec_pixel(i, y as int));
                    }
                }
                assert((y + 1) * self.width == y * self.width + self.width) by (nonlinear_arith);
            }
            y += 1;
        }
        proof {
            assert(self.height * self.width == self.width * self.height) by (nonlinear_arith);
        }
        all
    }
}

/// In a row-major grid, a cell of an earlier row comes before every cell
/// of a later row.
pub proof fn lemma_row_major(width: int, i: int, j: int, y: int)
    requires
        0 <= i < width,
        0 <= j < y,
    ensures
        0 <= j * width + i < y * width,
{
    assert(j * width + i < (j + 1) * width) by (nonlinear_arith)
        requires
            0 <= i < width,
    ;
    assert((j + 1) * width <= y * width) by (nonlinear_arith)
        requires
            j + 1 <= y,
            0 <= width,
    ;
    assert(0 <= j * width) by (nonlinear_arith)
        requires
            0 <= j,
            0 <= width,
    ;
}

/// Size of the scratch buffer: one frame of the largest supported size.
pub const DECODE_SIZE: usize = 115200;

/// The scratch buffer holds the brightness plane of the largest frame
/// and half as much again.
pub proof fn lemma_decode_size()
    ensures
        DECODE_SIZE == YuvHeader::MAX_WIDTH * YuvHeader::MAX_HEIGHT + (YuvHeader::MAX_WIDTH
            * YuvHeader::MAX_HEIGHT) / 2,
        YuvHeader::MAX_WIDTH * YuvHeader::MAX_HEIGHT == 76800,
{
    YuvHeader::lemma_limits();
}

/// The number of brightness samples that are read per frame: one per
/// pixel, but never more than the largest supported frame has.
pub open spec fn luma_len(width: u16, height: u16) -> int {
    if width * height <= 76800 {
        width * height
    } else {
        76800
    }
}

/// The number of bytes that are read per frame: the brightness plane and
/// half as much again for the two colour planes.
pub open spec fn frame_len(width: u16, height: u16) -> int {
    luma_len(width, height) + luma_len(width, height) / 2
}

/// Decoder for planar YUV420 files.
pub struct YuvDecoder<S> {
    header: YuvHeader,
    reader: S,
}

impl<S: ByteSource> YuvDecoder<S> {
    /// The source the frames are read from.
    pub closed spec fn source(&self) -> S {
        self.reader
    }

    /// The number of bytes that are read per frame.
    pub open spec fn spec_frame_len(&self) -> int {
        frame_len(
            <Self as Decoder<S, 5, YuvHeader, 115200>>::spec_header(self).spec_width(),
            <Self as Decoder<S, 5, YuvHeader, 115200>>::spec_header(self).spec_height(),
        )
    }

    /// The source the frames are read from.
    pub fn get_ref(&self) -> (s: &S)
        ensures
            *s == self.source(),
    {
        &self.reader
    }

    /// The number of bytes that are read per frame.
    pub fn frame_size(&self) -> (n: usize)
        ensures
            n == self.spec_frame_len(),
            n <= DECODE_SIZE,
    {
        let width: u64 = self.header.width() as u64;
        let height: u64 = self.header.height() as u64;
        assert(width * height <= 0xffff * 0xffff) by (nonlinear_arith)
            requires
                width <= 0xffff,
                height <= 0xffff,
        ;
        let area: u64 = width * height;
        let luma: u64 = if area <= 76800 { area } else { 76800 };
        (luma + luma / 2) as usize
    }
}

impl<S: ByteSource> Decoder<S, 5, YuvHeader, 115200> for YuvDecoder<S> {
    type DecoderError = S::Error;

    closed spec fn wf(&self) -> bool {
        self.reader.wf()
    }

    closed spec fn spec_header(&self) -> YuvHeader {
        self.header
    }

    open spec fn content(&self) -> Seq<u8> {
        self.source().content()
    }

    open spec fn infallible(&self) -> bool {
        self.source().infallible()
    }

    open spec fn upcoming(&self, scratch: Seq<u8>) -> Seq<u8> {
        rest(self.source().content(), self.source().position())
    }

    fn new(source: S) -> (r: Result<Self, ReadExactError<S::Error>>) {
        let mut reader = source;
        let mut buffer = [0u8;5];
        match read_exact(&mut reader, &mut buffer, 0, 5) {
            Ok(()) => {},
            Err(e) => {
                return Err(e);
            },
        }
        let header = YuvHeader::parse(&buffer);
        proof {
            let ahead = rest(source.content(), source.position());
            assert(buffer@ =~= ahead.take(5));
            crate::source::lemma_rest_skip(source.content(), source.position(), 5);
        }
        Ok(Self { header, reader })
    }

    fn header(&self) -> (h: &YuvHeader) {
        &self.header
    }

    fn decode_into<'a>(&mut self, buffer: &'a mut [u8; 115200]) -> (r: Result<
        Frame<'a>,
        Error<S::Error, S::Error>,
    >)
        ensures
            final(self).source().wf(),
            ({
                let ahead = old(self).upcoming(old(buffer)@);
                let n = old(self).spec_frame_len();
                match r {
                    Ok(frame) => {
                        &&& ahead.len() >= n
                        &&& frame matches Frame::Yuv(pixels)
                        &&& pixels.data() == ahead.take(n)
                        &&& pixels.spec_width() == old(self).spec_header().spec_width()
                        &&& pixels.spec_height() == old(self).spec_header().spec_height()
                        &&& final(buffer)@ == splice(old(buffer)@, 0, ahead.take(n))
                        &&& final(self).upcoming(final(buffer)@) == ahead.skip(n)
                    },
                    Err(Error::LoopEof) => {
                        &&& ahead.len() < n
                        &&& final(self).source().position() == 5
                    },
                    Err(Error::ReadError(_)) => true,
                    Err(Error::DecodeErrors(_)) => false,
                }
            }),
    {
        let len = self.frame_size();
        let ghost ahead = rest(self.reader.content(), self.reader.position());
        proof {
        }
        match read_exact(&mut self.reader, buffer, 0, len) {
            Ok(()) => {
                proof {
                    crate::source::lemma_rest_skip(
                        old(self).reader.content(),
                        old(self).reader.position(),
                        len as int,
                    );
                    assert(buffer@.subrange(0, len as int) =~= ahead.take(len as int));
                }
                let data = vstd::slice::slice_subrange(buffer.as_slice(), 0, len);
                Ok(Frame::Yuv(Pixels::new(data, self.header.width(), self.header.height())))
            },
            Err(ReadExactError::UnexpectedEof) => {
                match self.reader.seek(SeekFrom::Start(5)) {
                    Ok(_) => Err(Error::LoopEof),
                    Err(e) => Err(Error::ReadError(e)),
                }
            },
            Err(ReadExactError::Other(e)) => Err(Error::ReadError(e)),
        }
    }
}

} // verus!
