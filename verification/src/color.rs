//! Display colours and the conversions that produce them.

use vstd::prelude::*;

verus! {

/// A colour in the display's native format: five bits of red, six of
/// green, five of blue.
#[derive(Clone, Copy, Debug, PartialEq, Eq, Structural)]
pub struct Rgb565 {
    pub r: u8,
    pub g: u8,
    pub b: u8,
}

/// `x` held to the range of a byte.
pub open spec fn clamp8(x: int) -> int {
    if x < 0 {
        0
    } else if x > 255 {
        255
    } else {
        x
    }
}

/// Red of a full-range BT.709 sample: `Y + 1.5748 (V - 128)`, held to a
/// byte and cut to a whole number.
pub open spec fn bt709_red(y: u8, u: u8, v: u8) -> int {
    clamp8((10000 * y + 15748 * (v - 128)) / 10000)
}

/// Green of a full-range BT.709 sample:
/// `Y - 0.1873 (U - 128) - 0.4681 (V - 128)`, held to a byte and cut to a
/// whole number.
pub open spec fn bt709_green(y: u8, u: u8, v: u8) -> int {
    clamp8((10000 * y - 1873 * (u - 128) - 4681 * (v - 128)) / 10000)
}

/// Blue of a full-range BT.709 sample: `Y + 1.8556 (U - 128)`, held to a
/// byte and cut to a whole number.
pub open spec fn bt709_blue(y: u8, u: u8, v: u8) -> int {
    clamp8((10000 * y + 18556 * (u - 128)) / 10000)
}

/// The display colour of eight-bit red, green and blue: the low three,
/// two and three bits are dropped.
pub open spec fn rgb565_of(r: int, g: int, b: int) -> Rgb565 {
    Rgb565 { r: (r / 8) as u8, g: (g / 4) as u8, b: (b / 8) as u8 }
}

/// The display colour of a full-range BT.709 sample.
pub open spec fn yuv_color(y: u8, u: u8, v: u8) -> Rgb565 {
    rgb565_of(bt709_red(y, u, v), bt709_green(y, u, v), bt709_blue(y, u, v))
}

/// The colour stored in the sixteen bits `hi`, `lo`: red in the top five
/// bits, green in the middle six, blue in the low five.
pub open spec fn raw_color(hi: u8, lo: u8) -> Rgb565 {
    let raw = 256 * (hi as int) + (lo as int);
    Rgb565 { r: (raw / 2048) as u8, g: ((raw / 32) % 64) as u8, b: (raw % 32) as u8 }
}

/// A ten-thousandth-scaled colour value cut to a whole byte.
fn scale_down(scaled: i32) -> (c: u8)
    ensures
        c == clamp8(scaled as int / 10000),
{
    if scaled < 0 {
        0
    } else if scaled >= 2560000 {
        255
    } else {
        (scaled / 10000) as u8
    }
}

impl Rgb565 {
    /// Whether each channel fits the bits it has.
    pub open spec fn wf(&self) -> bool {
        self.r < 32 && self.g < 64 && self.b < 32
    }

    /// The sixteen-bit value the display takes.
    pub open spec fn spec_raw(&self) -> int {
        2048 * self.r + 32 * self.g + self.b
    }

    /// A colour of eight-bit red, green and blue.
    pub fn from_rgb888(r: u8, g: u8, b: u8) -> (c: Self)
        ensures
            c == rgb565_of(r as int, g as int, b as int),
            c.wf(),
    {
        assert(r >> 3u8 == r / 8) by (bit_vector);
        assert(g >> 2u8 == g / 4) by (bit_vector);
        assert(b >> 3u8 == b / 8) by (bit_vector);
        Rgb565 { r: r >> 3u8, g: g >> 2u8, b: b >> 3u8 }
    }

    /// The colour of one full-range BT.709 sample.
    pub fn from_yuv(y: u8, u: u8, v: u8) -> (c: Self)
        ensures
            c == yuv_color(y, u, v),
            c.wf(),
    {
        let luma: i32 = 10000 * (y as i32);
        let cb: i32 = u as i32 - 128;
        let cr: i32 = v as i32 - 128;
        let r = scale_down(luma + 15748 * cr);
        let g = scale_down(luma - 1873 * cb - 4681 * cr);
        let b = scale_down(luma + 18556 * cb);
        Self::from_rgb888(r, g, b)
    }

    /// The colour stored big-endian in two bytes.
    pub fn from_be_bytes(hi: u8, lo: u8) -> (c: Self)
        ensures
            c == raw_color(hi, lo),
            c.wf(),
            c.spec_raw() == 256 * (hi as int) + (lo as int),
    {
        let raw: u16 = 256 * (hi as u16) + lo as u16;
        Rgb565 { r: (raw / 2048) as u8, g: ((raw / 32) % 64) as u8, b: (raw % 32) as u8 }
    }

    /// The sixteen-bit value the display takes.
    pub fn to_raw(&self) -> (raw: u16)
        requires
            self.wf(),
        ensures
            raw == self.spec_raw(),
    {
        2048 * (self.r as u16) + 32 * (self.g as u16) + self.b as u16
    }
}

/// A sample without colour keeps its brightness in all three channels.
pub proof fn lemma_gray(y: u8)
    ensures
        bt709_red(y, 128, 128) == y,
        bt709_green(y, 128, 128) == y,
        bt709_blue(y, 128, 128) == y,
        yuv_color(y, 128, 128) == rgb565_of(y as int, y as int, y as int),
{
}

} // verus!
