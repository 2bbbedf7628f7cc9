//! Header of the planar YUV420 format: width, height and frame rate.

use super::{header_bytes, header_fields, FormatHeader};
use vstd::prelude::*;

verus! {

#[derive(Clone, Copy, Debug, PartialEq, Eq, Structural)]
pub struct YuvHeader {
    width: u16,
    height: u16,
    fps: u8,
}

impl YuvHeader {
    /// The size of the header and the largest frame that the format
    /// supports.
    pub proof fn lemma_limits()
        ensures
            Self::SIZE == 5,
            Self::MAX_WIDTH == 320,
            Self::MAX_HEIGHT == 240,
    {
    }

    pub closed spec fn spec_width(&self) -> u16 {
        self.width
    }

    pub closed spec fn spec_height(&self) -> u16 {
        self.height
    }

    pub fn new(width: u16, height: u16, fps: u8) -> (h: Self)
        ensures
            h.spec_width() == width,
            h.spec_height() == height,
            h.spec_fps() == fps,
    {
        Self { width, height, fps }
    }

    pub fn width(&self) -> (w: u16)
        ensures
            w == self.spec_width(),
    {
        self.width
    }

    pub fn height(&self) -> (h: u16)
        ensures
            h == self.spec_height(),
    {
        self.height
    }

    /// Width, height and frame rate.
    pub open spec fn fields(&self) -> (u16, u16, u8) {
        (self.spec_width(), self.spec_height(), self.spec_fps())
    }

    /// The header that bytes decode to holds the fields that the bytes
    /// stand for.
    pub proof fn lemma_of_bytes(bytes: Seq<u8>)
        ensures
            Self::of_bytes(bytes).fields() == header_fields(bytes),
    {
    }

    /// A header is fixed by its three fields.
    pub proof fn lemma_fields(a: Self, b: Self)
        requires
            a.spec_width() == b.spec_width(),
            a.spec_height() == b.spec_height(),
            a.spec_fps() == b.spec_fps(),
        ensures
            a == b,
    {
    }
}

impl FormatHeader<5> for YuvHeader {
    const SIZE: usize = 5;

    const MAX_WIDTH: usize = 320;

    const MAX_HEIGHT: usize = 240;

    open spec fn bytes(&self) -> Seq<u8> {
        header_bytes(self.spec_width(), self.spec_height(), self.spec_fps())
    }

    closed spec fn of_bytes(bytes: Seq<u8>) -> Self {
        let f = header_fields(bytes);
        YuvHeader { width: f.0, height: f.1, fps: f.2 }
    }

    closed spec fn spec_fps(&self) -> u8 {
        self.fps
    }

    proof fn codec_laws(h: Self, b: Seq<u8>) {
        if b.len() == 5 {
            assert(Self::of_bytes(b).bytes() =~= b);
        }
    }

    fn parse(header: &[u8; 5]) -> (h: Self)
        ensures
            h.fields() == header_fields(header@),
    {
        let f = super::parse_header(header);
        Self::new(f.0, f.1, f.2)
    }

    fn encode(&self, header: &mut [u8; 5]) {
        super::encode_header(header, self.width, self.height, self.fps);
    }

    fn header_size() -> (n: usize) {
        Self::SIZE
    }

    fn fps(&self) -> (f: u8) {
        self.fps
    }
}

} // verus!
