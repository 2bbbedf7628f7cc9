//! Fixed-size binary headers that open every video file.

use vstd::prelude::*;

pub mod mjpeg;
pub mod rgb;
pub mod yuv;

verus! {

/// Size in bytes of the width/height/fps header shared by the raw formats.
pub const HEADER_SIZE: usize = 5;

/// The little-endian value of two bytes.
pub open spec fn le16(lo: u8, hi: u8) -> int {
    lo as int + 256 * (hi as int)
}

/// The two little-endian bytes followed by nothing else: low byte first.
pub open spec fn le16_bytes(v: u16) -> Seq<u8> {
    seq![(v as int % 256) as u8, (v as int / 256) as u8]
}

/// The five header bytes of a raw format: width, height (both little-endian), fps.
pub open spec fn header_bytes(width: u16, height: u16, fps: u8) -> Seq<u8> {
    le16_bytes(width) + le16_bytes(height) + seq![fps]
}

/// The fields that five header bytes stand for.
pub open spec fn header_fields(bytes: Seq<u8>) -> (u16, u16, u8)
    recommends
        bytes.len() == 5,
{
    (le16(bytes[0], bytes[1]) as u16, le16(bytes[2], bytes[3]) as u16, bytes[4])
}

/// A header that is read once when a stream is opened.
///
/// `HEADER_SIZE` is the exact number of bytes the header occupies at the
/// start of the file.
pub trait FormatHeader<const HEADER_SIZE: usize>: Sized {
    /// Number of bytes that the header occupies: `HEADER_SIZE`.
    const SIZE: usize;

    /// Largest frame width the format supports.
    const MAX_WIDTH: usize;

    /// Largest frame height the format supports.
    const MAX_HEIGHT: usize;

    /// The bytes this header is stored as.
    spec fn bytes(&self) -> Seq<u8>;

    /// The header that `HEADER_SIZE` bytes decode to.
    spec fn of_bytes(bytes: Seq<u8>) -> Self;

    /// The frame rate stored in the header.
    spec fn spec_fps(&self) -> u8;

    /// Encoding and decoding are inverse to each other, on every header
    /// and on every byte pattern of the right length.
    proof fn codec_laws(h: Self, b: Seq<u8>)
        ensures
            h.bytes().len() == HEADER_SIZE,
            Self::of_bytes(h.bytes()) == h,
            b.len() == HEADER_SIZE ==> Self::of_bytes(b).bytes() == b,
    ;

    /// Decodes a header. Every byte pattern is accepted.
    fn parse(header: &[u8; HEADER_SIZE]) -> (h: Self)
        ensures
            h == Self::of_bytes(header@),
    ;

    /// Writes the header into `header`, overwriting all of it.
    fn encode(&self, header: &mut [u8; HEADER_SIZE])
        ensures
            final(header)@ == self.bytes(),
    ;

    /// Number of bytes that the header occupies.
    fn header_size() -> (n: usize)
        ensures
            n == HEADER_SIZE,
    ;

    /// Frames per second.
    fn fps(&self) -> (f: u8)
        ensures
            f == self.spec_fps(),
    ;
}

/// Decodes the width, height and frame rate of a raw-format header.
pub fn parse_header(header: &[u8; 5]) -> (r: (u16, u16, u8))
    ensures
        r == header_fields(header@),
        header_bytes(r.0, r.1, r.2) == header@,
{
    let width: u16 = header[0] as u16 + 256 * (header[1] as u16);
    let height: u16 = header[2] as u16 + 256 * (header[3] as u16);
    let fps: u8 = header[4];
    proof {
        assert(header_bytes(width, height, fps) =~= header@);
    }
    (width, height, fps)
}

/// Writes width, height and frame rate as a raw-format header.
pub fn encode_header(header: &mut [u8; 5], width: u16, height: u16, fps: u8)
    ensures
        final(header)@ == header_bytes(width, height, fps),
        header_fields(final(header)@) == (width, height, fps),
{
    header[0] = (width % 256) as u8;
    header[1] = (width / 256) as u8;
    header[2] = (height % 256) as u8;
    header[3] = (height / 256) as u8;
    header[4] = fps;
    proof {
        assert(header@ =~= header_bytes(width, height, fps));
    }
}

/// Decoding an encoded raw header gives back the fields, for every width,
/// height and frame rate.
pub proof fn lemma_header_round_trip(width: u16, height: u16, fps: u8)
    ensures
        header_bytes(width, height, fps).len() == 5,
        header_fields(header_bytes(width, height, fps)) == (width, height, fps),
{
}

/// Encoding the fields of five bytes gives back the same five bytes.
pub proof fn lemma_bytes_round_trip(bytes: Seq<u8>)
    requires
        bytes.len() == 5,
    ensures
        ({
            let f = header_fields(bytes);
            header_bytes(f.0, f.1, f.2) == bytes
        }),
{
    let f = header_fields(bytes);
    assert(header_bytes(f.0, f.1, f.2) =~= bytes);
}

} // verus!
