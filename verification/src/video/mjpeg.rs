//! Motion-JPEG: frames are found in the byte stream by their markers and
//! decompressed one at a time.

use crate::bytes::{byte_or_zero, move_bytes, sample};
use crate::color::{rgb565_of, Rgb565};
use crate::error::Error;
use crate::format::mjpeg::MjpegHeader;
use crate::format::FormatHeader;
use crate::reader::{ReadError, ZBufferedReader};
use crate::source::{read_exact, rest, ByteSource, ReadExactError};
use crate::video::decoder::{Decoder, Frame};
use crate::video::marker::{
    find_marker, frame_span, has_frame, has_start, lemma_frame_span, lemma_lift_first,
    lemma_lift_none, lemma_no_frame, lemma_span_is_first, lemma_staged_frame,
    lemma_staged_nothing, lemma_staged_open, lemma_start_of, no_marker, start_of, EOI, SOI,
};
use vstd::prelude::*;

verus! {

/// The colour of the pixel in column `x` and row `y` of a frame that
/// stores each pixel as a red, a green and a blue byte, row by row.
pub open spec fn rgb_pixel(data: Seq<u8>, width: int, x: int, y: int) -> Rgb565 {
    let at = 3 * (y * width + x);
    rgb565_of(
        sample(data, at) as int,
        sample(data, at + 1) as int,
        sample(data, at + 2) as int,
    )
}

/// One decompressed frame: three bytes per pixel.
pub struct RgbFrame<'a> {
    data: &'a [u8],
    width: u16,
    height: u16,
}

impl<'a> RgbFrame<'a> {
    pub closed spec fn data(&self) -> Seq<u8> {
        self.data@
    }

    pub closed spec fn spec_width(&self) -> u16 {
        self.width
    }

    pub closed spec fn spec_height(&self) -> u16 {
        self.height
    }

    /// The display colour of the pixel in column `x` and row `y`.
    pub open spec fn spec_pixel(&self, x: int, y: int) -> Rgb565 {
        rgb_pixel(self.data(), self.spec_width() as int, x, y)
    }

    pub fn new(data: &'a [u8], width: u16, height: u16) -> (f: Self)
        ensures
            f.data() == data@,
            f.spec_width() == width,
            f.spec_height() == height,
    {
        Self { data, width, height }
    }

    /// Width and height in pixels.
    pub fn size(&self) -> (s: (u32, u32))
        ensures
            s.0 == self.spec_width(),
            s.1 == self.spec_height(),
    {
        (self.width as u32, self.height as u32)
    }

    /// The display colour of the pixel in column `x` and row `y`,
    /// converted when it is asked for. A frame that is shorter than its
    /// size calls for reads as zero where it has no bytes.
    pub fn pixel(&self, x: u16, y: u16) -> (c: Rgb565)
        ensures
            c == self.spec_pixel(x as int, y as int),
            c.wf(),
    {
        let width: u64 = self.width as u64;
        assert((y as u64) * width <= 0xffff * 0xffff) by (nonlinear_arith)
            requires
                y <= 0xffff,
                width <= 0xffff,
        ;
        let at: u64 = 3 * (y as u64 * width + x as u64);
        Rgb565::from_rgb888(
            byte_or_zero(self.data, at),
            byte_or_zero(self.data, at + 1),
            byte_or_zero(self.data, at + 2),
        )
    }
}

/// Bytes of the scratch buffer that hold the decompressed frame: three
/// per pixel of the largest supported frame.
pub const POOL_SIZE: usize = 82944;

/// Bytes of the scratch buffer in which compressed frames are collected.
/// No compressed frame can be longer.
pub const STAGING_SIZE: usize = 16384;

/// Size of the scratch buffer: the decompressed frame, then the staging
/// area.
pub const DECODE_SIZE: usize = 99328;

/// The pool holds three bytes for every pixel of the largest frame, and
/// the scratch buffer holds the pool and the staging area.
pub proof fn lemma_decode_size()
    ensures
        POOL_SIZE == MjpegHeader::MAX_WIDTH * MjpegHeader::MAX_HEIGHT * 3,
        DECODE_SIZE == POOL_SIZE + STAGING_SIZE,
{
    MjpegHeader::lemma_limits();
}

/// `zune_jpeg::errors::DecodeErrors`, why the decompressor refused a
/// picture. Nothing is known of what is inside.
#[verifier::external_type_specification]
#[verifier::external_body]
pub struct ExDecodeErrors(zune_jpeg::errors::DecodeErrors);

/// Why a frame that was found could not be shown.
#[derive(Debug)]
pub enum JpegError {
    /// A start marker was followed by a whole staging area of bytes
    /// without an end marker.
    FrameTooLarge,
    /// The decompressor refused the frame.
    Codec(zune_jpeg::errors::DecodeErrors),
}

/// Width and height of the picture that `zune_jpeg` decodes `data` to
/// under the given limits, with `room` bytes to decode into; `None` where
/// it refuses to decode it.
pub uninterp spec fn jpeg_size(
    data: Seq<u8>,
    max_width: usize,
    max_height: usize,
    strict: bool,
    room: usize,
) -> Option<(u16, u16)>;

/// Decompresses the JPEG picture in `scratch[room + from..room + to]`
/// into `scratch[..room]`, three bytes per pixel, and returns its width
/// and height.
///
/// Calls `zune_jpeg::JpegDecoder::decode_into` on a decoder made by
/// `JpegDecoder::new_with_options` over a `ZCursor`, and reads the size
/// from `JpegDecoder::info`. Taken on trust: that the picture's size, or
/// its refusal, depends on the compressed bytes, the limits and the room
/// alone; that a picture which is decoded is not empty, keeps within the
/// limits and fits the room; and that no byte from `room` on is written.
/// Nothing is claimed of the pixels: the decompressor computes them with
/// routines that it picks by the processor it runs on.
#[verifier::external_body]
fn decompress(
    scratch: &mut [u8],
    room: usize,
    from: usize,
    to: usize,
    max_width: usize,
    max_height: usize,
    strict: bool,
) -> (r: Result<(u16, u16), zune_jpeg::errors::DecodeErrors>)
    requires
        room <= old(scratch)@.len(),
        from <= to <= old(scratch)@.len() - room,
    ensures
        final(scratch)@.len() == old(scratch)@.len(),
        final(scratch)@.skip(room as int) == old(scratch)@.skip(room as int),
        (match r {
            Ok(size) => Some(size),
            Err(_) => None,
        }) == jpeg_size(
            old(scratch)@.subrange(room + from, room + to),
            max_width,
            max_height,
            strict,
            room,
        ),
        r matches Ok((w, h)) ==> 0 < w <= max_width && 0 < h <= max_height && 3 * w * h <= room,
{
    let (pool, staging) = scratch.split_at_mut(room);
    let options = zune_core::options::DecoderOptions::new_cmd()
        .set_max_width(max_width)
        .set_max_height(max_height)
        .set_strict_mode(strict)
        .jpeg_set_out_colorspace(zune_core::colorspace::ColorSpace::RGB);
    let cursor = zune_core::bytestream::ZCursor::new(&staging[from..to]);
    let mut decoder = zune_jpeg::JpegDecoder::new_with_options(cursor, options);
    decoder.decode_into(pool)?;
    let info = decoder.info().ok_or(zune_jpeg::errors::DecodeErrors::FormatStatic("no decoder info"))?;
    Ok((info.width, info.height))
}

/// Decoder for motion-JPEG files.
///
/// Bytes `start..end` of the staging area have been read from the source
/// and not been given out as a frame yet.
pub struct MjpegDecoder<S> {
    header: MjpegHeader,
    reader: ZBufferedReader<S, 8192>,
    start: usize,
    end: usize,
}

impl<S: ByteSource> MjpegDecoder<S> {
    /// The buffered reader the compressed bytes come through.
    pub closed spec fn reader(&self) -> ZBufferedReader<S, 8192> {
        self.reader
    }

    /// The header that was read when the decoder was made.
    pub closed spec fn head(&self) -> MjpegHeader {
        self.header
    }

    /// The buffered reader the compressed bytes come through.
    pub fn get_ref(&self) -> (r: &ZBufferedReader<S, 8192>)
        ensures
            *r == self.reader(),
    {
        &self.reader
    }

    /// The bytes that wait in the staging area of `scratch`.
    pub closed spec fn staged(&self, scratch: Seq<u8>) -> Seq<u8> {
        if self.start < self.end {
            scratch.subrange(POOL_SIZE + self.start, POOL_SIZE + self.end)
        } else {
            Seq::empty()
        }
    }

    /// The compressed bytes that have not been given out as a frame yet:
    /// what waits in the staging area, then what the reader has ahead.
    pub open spec fn stream(&self, scratch: Seq<u8>) -> Seq<u8> {
        self.staged(scratch) + self.reader().upcoming()
    }

    pub closed spec fn extractor_wf(&self) -> bool {
        &&& self.start <= self.end <= STAGING_SIZE
        &&& self.reader.wf()
    }

    /// Looks through the staged bytes for a frame and drops what can
    /// belong to none: everything in front of the first start marker, or,
    /// where there is no start marker, everything but a last byte that
    /// may be the first half of one.
    fn scan(&mut self, buffer: &[u8; 99328]) -> (r: Scan)
        requires
            old(self).extractor_wf(),
        ensures
            final(self).extractor_wf(),
            final(self).reader == old(self).reader,
            final(self).header == old(self).header,
            final(self).end == old(self).end,
            ({
                let c = old(self).stream(buffer@);
                let after = final(self).stream(buffer@);
                let kept = final(self).staged(buffer@);
                match r {
                    Scan::Frame(a, b) => {
                        &&& has_frame(c)
                        &&& POOL_SIZE <= a <= b <= DECODE_SIZE
                        &&& buffer@.subrange(a as int, b as int) == c.subrange(
                            frame_span(c).0,
                            frame_span(c).1,
                        )
                        &&& after == c.skip(frame_span(c).1)
                    },
                    Scan::Open => {
                        &&& has_start(c)
                        &&& after == c.skip(start_of(c))
                        &&& no_marker(c, start_of(c), start_of(c) + kept.len() - 1, EOI)
                        &&& start_of(c) + kept.len() <= c.len()
                    },
                    Scan::Nothing => {
                        let k = c.len() - after.len();
                        &&& 0 <= k <= c.len()
                        &&& after == c.skip(k)
                        &&& no_marker(c, 0, k, SOI)
                        &&& kept.len() <= 1
                    },
                }
            }),
    {
        let lo: usize = POOL_SIZE + self.start;
        let hi: usize = POOL_SIZE + self.end;
        let ghost staged = self.staged(buffer@);
        let ghost ahead = self.reader.upcoming();
        let ghost c = self.stream(buffer@);
        proof {
            assert(staged =~= buffer@.subrange(lo as int, hi as int));
        }
        match find_marker(buffer.as_slice(), lo, hi, SOI) {
            Some(soi) => {
                let ghost k = soi - lo;
                proof {
                    assert(buffer@.subrange(soi as int, hi as int) =~= staged.skip(k));
                }
                match find_marker(buffer.as_slice(), soi, hi, EOI) {
                    Some(eoi) => {
                        let ghost e = eoi + 2 - lo;
                        proof {
                            lemma_staged_frame(c, staged, ahead, k, e);
                            assert(buffer@.subrange(soi as int, eoi + 2) =~= staged.subrange(k, e));
                        }
                        self.start = eoi + 2 - POOL_SIZE;
                        proof {
                            assert(self.staged(buffer@) =~= staged.skip(e));
                        }
                        Scan::Frame(soi, eoi + 2)
                    },
                    None => {
                        proof {
                            lemma_staged_open(c, staged, ahead, k);
                        }
                        self.start = soi - POOL_SIZE;
                        proof {
                            assert(self.staged(buffer@) =~= staged.skip(k));
                        }
                        Scan::Open
                    },
                }
            },
            None => {
                let keep: usize = if hi > lo && buffer[hi - 1] == 0xFF {
                    1
                } else {
                    0
                };
                proof {
                    lemma_staged_nothing(c, staged, ahead, keep as int);
                }
                self.start = self.end - keep;
                proof {
                    assert(self.staged(buffer@) =~= staged.skip(staged.len() - keep));
                }
                Scan::Nothing
            },
        }
    }

    /// Moves the staged bytes to the front of the staging area and reads
    /// more bytes behind them. Returns how many bytes were read; none
    /// means that the source has ended.
    fn top_up(&mut self, buffer: &mut [u8; 99328]) -> (r: Result<usize, ReadError<S::Error>>)
        requires
            old(self).extractor_wf(),
            old(self).staged(old(buffer)@).len() < STAGING_SIZE,
        ensures
            final(self).extractor_wf(),
            final(self).reader.same_file(&old(self).reader),
            final(self).header == old(self).header,
            final(buffer)@.take(POOL_SIZE as int) == old(buffer)@.take(POOL_SIZE as int),
            old(self).reader.source().infallible() ==> r is Ok,
            r is Err ==> r->Err_0 is Io,
            r matches Ok(n) ==> {
                &&& final(self).stream(final(buffer)@) == old(self).stream(old(buffer)@)
                &&& final(self).staged(final(buffer)@) == old(self).staged(old(buffer)@)
                    + old(self).reader.upcoming().take(n as int)
                &&& final(self).reader.upcoming() == old(self).reader.upcoming().skip(n as int)
                &&& n <= old(self).reader.upcoming().len()
                &&& (n == 0 <==> old(self).reader.upcoming().len() == 0)
            },
    {
        let ghost kept = self.staged(buffer@);
        let ghost ahead = self.reader.upcoming();
        move_bytes(buffer, POOL_SIZE, POOL_SIZE + self.start, POOL_SIZE + self.end);
        self.end = self.end - self.start;
        self.start = 0;
        proof {
            assert(self.staged(buffer@) =~= kept);
            assert(buffer@.take(POOL_SIZE as int) =~= old(buffer)@.take(POOL_SIZE as int));
        }
        let ghost moved = buffer@;
        match self.reader.read(buffer, POOL_SIZE + self.end, DECODE_SIZE) {
            Ok(n) => {
                self.end = self.end + n;
                proof {
                    assert(buffer@.take(POOL_SIZE as int) =~= moved.take(POOL_SIZE as int));
                    assert(self.staged(buffer@) =~= kept + ahead.take(n as int));
                    assert(self.stream(buffer@) =~= old(self).stream(old(buffer)@));
                }
                Ok(n)
            },
            Err(e) => {
                proof {
                    assert(buffer@.take(POOL_SIZE as int) =~= moved.take(POOL_SIZE as int));
                }
                Err(e)
            },
        }
    }

    /// What is staged depends on the staging area alone.
    pub proof fn lemma_staged_kept(&self, before: Seq<u8>, after: Seq<u8>)
        requires
            self.extractor_wf(),
            before.len() == DECODE_SIZE,
            after.len() == DECODE_SIZE,
            after.skip(POOL_SIZE as int) == before.skip(POOL_SIZE as int),
        ensures
            self.staged(after) == self.staged(before),
            self.stream(after) == self.stream(before),
    {
        assert forall|i: int| POOL_SIZE <= i < DECODE_SIZE implies after[i] == before[i] by {
            assert(after.skip(POOL_SIZE as int)[i - POOL_SIZE] == after[i]);
            assert(before.skip(POOL_SIZE as int)[i - POOL_SIZE] == before[i]);
        }
        assert(self.staged(after) =~= self.staged(before));
    }

    /// Drops everything that is staged.
    fn drop_staged(&mut self)
        requires
            old(self).extractor_wf(),
        ensures
            final(self).extractor_wf(),
            final(self).reader == old(self).reader,
            final(self).header == old(self).header,
            forall|scratch: Seq<u8>| #[trigger]
                final(self).staged(scratch) == Seq::<u8>::empty(),
    {
        self.start = 0;
        self.end = 0;
    }

    /// Finds the next compressed frame and returns where it lies in
    /// `buffer`: from its start marker up to and including its end marker.
    ///
    /// Bytes in front of the frame are dropped. A frame may lie across
    /// any number of reads; what follows it stays staged for the next
    /// call. When the source ends before a frame is complete, the source
    /// is moved back behind the header and [`Error::LoopEof`] is returned.
    /// A frame that does not fit the staging area is given up: the staged
    /// bytes are dropped with [`JpegError::FrameTooLarge`].
    pub fn next_frame(&mut self, buffer: &mut [u8; 99328]) -> (r: Result<
        (usize, usize),
        Error<S::Error, JpegError>,
    >)
        requires
            old(self).extractor_wf(),
        ensures
            final(self).extractor_wf(),
            final(self).reader().same_file(&old(self).reader()),
            final(self).head() == old(self).head(),
            final(buffer)@.take(POOL_SIZE as int) == old(buffer)@.take(POOL_SIZE as int),
            ({
                let s = old(self).stream(old(buffer)@);
                old(self).reader().source().infallible() && has_frame(s) && frame_span(s).1
                    - frame_span(s).0 <= STAGING_SIZE ==> r is Ok
            }),
            ({
                let s = old(self).stream(old(buffer)@);
                let after = final(self).stream(final(buffer)@);
                match r {
                    Ok((a, b)) => {
                        &&& has_frame(s)
                        &&& POOL_SIZE <= a <= b <= DECODE_SIZE
                        &&& final(buffer)@.subrange(a as int, b as int) == s.subrange(
                            frame_span(s).0,
                            frame_span(s).1,
                        )
                        &&& after == s.skip(frame_span(s).1)
                    },
                    Err(Error::LoopEof) => {
                        &&& !has_frame(s)
                        &&& after == rest(old(self).reader().source().content(), 1)
                        &&& final(self).reader().source().position() == 1
                        &&& final(self).reader().buffered().len() == 0
                    },
                    Err(Error::DecodeErrors(JpegError::FrameTooLarge)) => {
                        &&& has_start(s)
                        &&& start_of(s) + STAGING_SIZE <= s.len()
                        &&& no_marker(s, start_of(s), start_of(s) + STAGING_SIZE - 1, EOI)
                        &&& after == s.skip(start_of(s) + STAGING_SIZE)
                    },
                    Err(Error::ReadError(_)) => !old(self).reader().source().infallible(),
                    Err(Error::DecodeErrors(JpegError::Codec(_))) => false,
                }
            }),
    {
        let ghost s = self.stream(buffer@);
        let ghost mut d: int = 0;
        proof {
            assert(s.skip(0) =~= s);
            if has_frame(s) {
                lemma_span_is_first(s);
                lemma_frame_span(s, frame_span(s).0, frame_span(s).1);
            }
        }
        loop
            invariant
                self.extractor_wf(),
                self.reader.same_file(&old(self).reader),
                self.header == old(self).header,
                buffer@.take(POOL_SIZE as int) == old(buffer)@.take(POOL_SIZE as int),
                s == old(self).stream(old(buffer)@),
                0 <= d <= s.len(),
                self.stream(buffer@) == s.skip(d),
                no_marker(s, 0, d, SOI),
            decreases self.reader.upcoming().len(),
        {
            let ghost c = s.skip(d);
            let scanned = self.scan(buffer);
            let ghost kept = self.staged(buffer@);
            let ghost opened = scanned is Open;
            match scanned {
                Scan::Frame(a, b) => {
                    proof {
                        lemma_span_is_first(c);
                        let k = frame_span(c).0;
                        let e = frame_span(c).1;
                        lemma_frame_span(c, k, e);
                        lemma_lift_first(s, d, SOI, 0, k);
                        lemma_lift_first(s, d, EOI, k, e - 2);
                        lemma_frame_span(s, d + k, d + e);
                        assert(c.subrange(k, e) =~= s.subrange(d + k, d + e));
                        assert(c.skip(e) =~= s.skip(d + e));
                    }
                    return Ok((a, b));
                },
                Scan::Open => {
                    proof {
                        let k = start_of(c);
                        lemma_lift_first(s, d, SOI, 0, k);
                        lemma_lift_none(s, d, EOI, k, k + kept.len() - 1);
                        assert(c.skip(k) =~= s.skip(d + k));
                        d = d + k;
                        lemma_start_of(s, d);
                    }
                },
                Scan::Nothing => {
                    proof {
                        let k = c.len() - self.stream(buffer@).len();
                        lemma_lift_none(s, d, SOI, 0, k);
                        assert(c.skip(k) =~= s.skip(d + k));
                        d = d + k;
                    }
                },
            }
            proof {
                assert(s.skip(d).len() == kept.len() + self.reader.upcoming().len());
            }
            if self.end - self.start == STAGING_SIZE {
                self.drop_staged();
                proof {
                    assert(self.stream(buffer@) =~= s.skip(d).skip(STAGING_SIZE as int));
                    assert(s.skip(d).skip(STAGING_SIZE as int) =~= s.skip(d + STAGING_SIZE));
                }
                return Err(Error::DecodeErrors(JpegError::FrameTooLarge));
            }
            match self.top_up(buffer) {
                Ok(n) => {
                    if n == 0 {
                        proof {
                            assert(s.skip(d) =~= kept);
                            assert(s.len() == d + kept.len());
                            if opened {
                                assert(no_marker(s, start_of(s), s.len() as int, EOI));
                            } else {
                                assert(no_marker(s, 0, s.len() as int, SOI));
                            }
                            lemma_no_frame(s);
                        }
                        match self.reader.seek(1) {
                            Ok(_) => {
                                self.drop_staged();
                                proof {
                                    assert(self.stream(buffer@) =~= self.reader.upcoming());
                                }
                                return Err(Error::LoopEof);
                            },
                            Err(e) => {
                                return Err(Error::ReadError(source_error(e)));
                            },
                        }
                    }
                },
                Err(e) => {
                    return Err(Error::ReadError(source_error(e)));
                },
            }
        }
    }
}

impl<S: ByteSource> Decoder<S, 1, MjpegHeader, 99328> for MjpegDecoder<S> {
    type DecoderError = JpegError;

    open spec fn wf(&self) -> bool {
        self.extractor_wf()
    }

    open spec fn spec_header(&self) -> MjpegHeader {
        self.head()
    }

    open spec fn content(&self) -> Seq<u8> {
        self.reader().source().content()
    }

    open spec fn infallible(&self) -> bool {
        self.reader().source().infallible()
    }

    open spec fn upcoming(&self, scratch: Seq<u8>) -> Seq<u8> {
        self.stream(scratch)
    }

    fn new(source: S) -> (r: Result<Self, ReadExactError<S::Error>>)
        ensures
            r matches Ok(d) ==> forall|scratch: Seq<u8>| #[trigger]
                d.stream(scratch) == rest(source.content(), source.position()).skip(1),
    {
        let mut reader = source;
        let mut buffer = [0u8;1];
        match read_exact(&mut reader, &mut buffer, 0, 1) {
            Ok(()) => {},
            Err(e) => {
                return Err(e);
            },
        }
        let header = MjpegHeader::parse(&buffer);
        proof {
            let ahead = rest(source.content(), source.position());
            assert(buffer@ =~= ahead.take(1));
            crate::source::lemma_rest_skip(source.content(), source.position(), 1);
        }
        let decoder = Self { header, reader: ZBufferedReader::new(reader), start: 0, end: 0 };
        proof {
            assert forall|scratch: Seq<u8>| #[trigger]
                decoder.stream(scratch) == rest(source.content(), source.position()).skip(
                    1,
                ) by {
                assert(decoder.stream(scratch) =~= decoder.reader.upcoming());
            }
        }
        Ok(decoder)
    }

    fn header(&self) -> (h: &MjpegHeader) {
        &self.header
    }

    /// Finds the next frame as [`MjpegDecoder::next_frame`] does and
    /// decompresses it. A frame that the decompressor refuses is skipped:
    /// the next call goes on behind it.
    fn decode_into<'a>(&mut self, buffer: &'a mut [u8; 99328]) -> (r: Result<
        Frame<'a>,
        Error<S::Error, JpegError>,
    >)
        ensures
            ({
                let s = old(self).stream(old(buffer)@);
                old(self).reader().source().infallible() && has_frame(s) && frame_span(s).1
                    - frame_span(s).0 <= STAGING_SIZE ==> r is Ok || r matches Err(
                    Error::DecodeErrors(JpegError::Codec(_)),
                )
            }),
            ({
                let s = old(self).stream(old(buffer)@);
                let after = final(self).stream(final(buffer)@);
                let size = jpeg_size(
                    s.subrange(frame_span(s).0, frame_span(s).1),
                    MjpegHeader::MAX_WIDTH,
                    MjpegHeader::MAX_HEIGHT,
                    false,
                    POOL_SIZE,
                );
                match r {
                    Ok(frame) => {
                        &&& has_frame(s)
                        &&& frame matches Frame::Rgb(picture)
                        &&& size == Some((picture.spec_width(), picture.spec_height()))
                        &&& picture.data() == final(buffer)@.take(
                            3 * picture.spec_width() * picture.spec_height(),
                        )
                        &&& after == s.skip(frame_span(s).1)
                    },
                    Err(Error::LoopEof) => {
                        &&& !has_frame(s)
                        &&& final(self).reader().source().position() == 1
                    },
                    Err(Error::DecodeErrors(JpegError::Codec(_))) => {
                        &&& has_frame(s)
                        &&& size is None
                        &&& after == s.skip(frame_span(s).1)
                    },
                    Err(Error::DecodeErrors(JpegError::FrameTooLarge)) => {
                        &&& has_start(s)
                        &&& start_of(s) + STAGING_SIZE <= s.len()
                        &&& no_marker(s, start_of(s), start_of(s) + STAGING_SIZE - 1, EOI)
                        &&& after == s.skip(start_of(s) + STAGING_SIZE)
                    },
                    Err(Error::ReadError(_)) => true,
                }
            }),
    {
        let ghost s = self.stream(buffer@);
        let (a, b) = match self.next_frame(buffer) {
            Ok(span) => span,
            Err(e) => {
                return Err(e);
            },
        };
        let ghost found = buffer@;
        match decompress(
            buffer,
            POOL_SIZE,
            a - POOL_SIZE,
            b - POOL_SIZE,
            MjpegHeader::MAX_WIDTH,
            MjpegHeader::MAX_HEIGHT,
            false,
        ) {
            Ok((w, h)) => {
                proof {
                    self.lemma_staged_kept(found, buffer@);
                    assert(3 * w * h == 3 * (w as int * h as int)) by (nonlinear_arith);
                }
                let area: usize = w as usize * h as usize;
                let n: usize = 3 * area;
                proof {
                    assert(buffer@.subrange(0, n as int) =~= buffer@.take(3 * w * h));
                }
                let data = vstd::slice::slice_subrange(buffer.as_slice(), 0, n);
                Ok(Frame::Rgb(RgbFrame::new(data, w, h)))
            },
            Err(e) => {
                proof {
                    self.lemma_staged_kept(found, buffer@);
                }
                Err(Error::DecodeErrors(JpegError::Codec(e)))
            },
        }
    }
}

/// What a look through the staged bytes found.
enum Scan {
    /// A complete frame, at these bounds in the scratch buffer.
    Frame(usize, usize),
    /// A start marker with no end marker behind it yet. The staged bytes
    /// now begin with it.
    Open,
    /// No start marker.
    Nothing,
}

/// The source's own error inside a reader's failure to read or to seek.
fn source_error<E>(e: ReadError<E>) -> (inner: E)
    requires
        e is Io || e is Seek,
    ensures
        e matches ReadError::Io(failure) ==> inner == failure,
        e matches ReadError::Seek(failure) ==> inner == failure,
{
    match e {
        ReadError::Io(inner) => inner,
        ReadError::Seek(inner) => inner,
        _ => vstd::pervasive::unreached(),
    }
}

} // verus!
