//! The order of the colour channels in a pixel of four bytes.

use vstd::prelude::*;

verus! {

/// Names the channels in memory order; `X` is a byte without meaning.
#[derive(Debug, Clone, Copy, PartialEq, Eq, Structural)]
pub enum PixelFormat {
    ARgb32,
    XRgb32,
    ABgr32,
    XBgr32,
    BgrA32,
    BgrX32,
    RgbA32,
    RgbX32,
}

/// A colour with its opacity.
#[derive(Debug, Clone, Copy, PartialEq, Eq, Structural)]
pub struct Rgba {
    pub r: u8,
    pub g: u8,
    pub b: u8,
    pub a: u8,
}

/// Byte positions of the channels inside a pixel.
#[derive(Debug, Clone, Copy, PartialEq, Eq, Structural)]
pub struct ChannelOffsets {
    pub r: usize,
    pub g: usize,
    pub b: usize,
    pub a: usize,
}

impl ChannelOffsets {
    /// The channel that stands at byte `at` of a pixel.
    pub open spec fn byte(self, color: Rgba, at: int) -> u8 {
        if at == self.r {
            color.r
        } else if at == self.g {
            color.g
        } else if at == self.b {
            color.b
        } else {
            color.a
        }
    }

    /// Each of the four bytes of a pixel holds one channel.
    pub open spec fn wf(self) -> bool {
        &&& self.r < 4 && self.g < 4 && self.b < 4 && self.a < 4
        &&& self.r != self.g && self.r != self.b && self.r != self.a
        &&& self.g != self.b && self.g != self.a && self.b != self.a
    }
}

impl PixelFormat {
    /// The byte positions of red, green, blue and opacity.
    pub open spec fn offsets(self) -> ChannelOffsets {
        match self {
            PixelFormat::ARgb32 | PixelFormat::XRgb32 => ChannelOffsets { a: 0, r: 1, g: 2, b: 3 },
            PixelFormat::ABgr32 | PixelFormat::XBgr32 => ChannelOffsets { a: 0, b: 1, g: 2, r: 3 },
            PixelFormat::BgrA32 | PixelFormat::BgrX32 => ChannelOffsets { b: 0, g: 1, r: 2, a: 3 },
            PixelFormat::RgbA32 | PixelFormat::RgbX32 => ChannelOffsets { r: 0, g: 1, b: 2, a: 3 },
        }
    }

    /// Whether the fourth byte says how opaque the pixel is.
    pub open spec fn has_alpha(self) -> bool {
        match self {
            PixelFormat::ARgb32 | PixelFormat::ABgr32 | PixelFormat::BgrA32 | PixelFormat::RgbA32 => true,
            _ => false,
        }
    }

    /// The colour of the pixel at `at`; opaque where the format knows no opacity.
    pub open spec fn color_at(self, bytes: Seq<u8>, at: int) -> Rgba {
        let o = self.offsets();
        Rgba {
            r: bytes[at + o.r],
            g: bytes[at + o.g],
            b: bytes[at + o.b],
            a: if self.has_alpha() {
                bytes[at + o.a]
            } else {
                0xFF
            },
        }
    }

    pub fn bytes_per_pixel(self) -> (r: u8)
        ensures
            r == 4,
    {
        4
    }

    pub fn channel_offsets(self) -> (r: ChannelOffsets)
        ensures
            r == self.offsets(),
            r.wf(),
    {
        match self {
            PixelFormat::ARgb32 | PixelFormat::XRgb32 => ChannelOffsets { a: 0, r: 1, g: 2, b: 3 },
            PixelFormat::ABgr32 | PixelFormat::XBgr32 => ChannelOffsets { a: 0, b: 1, g: 2, r: 3 },
            PixelFormat::BgrA32 | PixelFormat::BgrX32 => ChannelOffsets { b: 0, g: 1, r: 2, a: 3 },
            PixelFormat::RgbA32 | PixelFormat::RgbX32 => ChannelOffsets { r: 0, g: 1, b: 2, a: 3 },
        }
    }

    /// Whether the two formats order red, green and blue alike.
    pub fn eq_no_alpha(self, other: PixelFormat) -> (r: bool)
        ensures
            r == (self.offsets() == other.offsets()),
    {
        let a: ChannelOffsets = self.channel_offsets();
        let b: ChannelOffsets = other.channel_offsets();
        a.r == b.r && a.g == b.g && a.b == b.b && a.a == b.a
    }

    /// Reads the pixel at `at`.
    pub fn read_color(self, bytes: &[u8], at: usize) -> (r: Rgba)
        requires
            at + 4 <= bytes@.len(),
        ensures
            r == self.color_at(bytes@, at as int),
    {
        assert(at + 4 <= bytes.len());
        let o: ChannelOffsets = self.channel_offsets();
        let a: u8 = match self {
            PixelFormat::ARgb32 | PixelFormat::ABgr32 | PixelFormat::BgrA32 | PixelFormat::RgbA32 => {
                bytes[at + o.a]
            },
            _ => 0xFF,
        };
        Rgba { r: bytes[at + o.r], g: bytes[at + o.g], b: bytes[at + o.b], a }
    }
}

} // verus!
