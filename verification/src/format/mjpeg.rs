//! Header of the motion-JPEG format: a single frame-rate byte.

use super::FormatHeader;
use vstd::prelude::*;

verus! {

#[derive(Clone, Copy, Debug, PartialEq, Eq, Structural)]
pub struct MjpegHeader {
    fps: u8,
}

impl MjpegHeader {
    /// The size of the header and the largest frame that the format
    /// supports.
    pub proof fn lemma_limits()
        ensures
            Self::SIZE == 1,
            Self::MAX_WIDTH == 192,
            Self::MAX_HEIGHT == 144,
    {
    }

    /// The header that a byte decodes to holds that byte as its frame
    /// rate.
    pub proof fn lemma_of_bytes(bytes: Seq<u8>)
        ensures
            Self::of_bytes(bytes).spec_fps() == bytes[0],
    {
    }

    pub fn new(fps: u8) -> (h: Self)
        ensures
            h.spec_fps() == fps,
            h.bytes() == seq![fps],
    {
        Self { fps }
    }
}

impl FormatHeader<1> for MjpegHeader {
    const SIZE: usize = 1;

    const MAX_WIDTH: usize = 192;

    const MAX_HEIGHT: usize = 144;

    open spec fn bytes(&self) -> Seq<u8> {
        seq![self.spec_fps()]
    }

    closed spec fn of_bytes(bytes: Seq<u8>) -> Self {
        MjpegHeader { fps: bytes[0] }
    }

    closed spec fn spec_fps(&self) -> u8 {
        self.fps
    }

    proof fn codec_laws(h: Self, b: Seq<u8>) {
        if b.len() == 1 {
            assert(Self::of_bytes(b).bytes() =~= b);
        }
    }

    fn parse(header: &[u8; 1]) -> (h: Self)
        ensures
            h.spec_fps() == header@[0],
    {
        Self::new(header[0])
    }

    fn encode(&self, header: &mut [u8; 1]) {
        header[0] = self.fps;
        proof {
            assert(header@ =~= self.bytes());
        }
    }

    fn header_size() -> (n: usize) {
        Self::SIZE
    }

    fn fps(&self) -> (f: u8) {
        self.fps
    }
}

} // verus!
