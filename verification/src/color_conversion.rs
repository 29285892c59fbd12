//! Conversions between colour representations.
//!
//! RemoteFX stores brightness and colour differences with a precision of 1/32. Both directions of that
//! conversion are done by the `yuv` crate.

use vstd::prelude::*;
use vstd::slice::slice_subrange;
use yuv::{
    rdp_abgr_to_yuv444, rdp_argb_to_yuv444, rdp_bgra_to_yuv444, rdp_rgba_to_yuv444, rdp_yuv444_to_argb,
    rdp_yuv444_to_rgba, BufferStoreMut, YuvError, YuvPlanarImage, YuvPlanarImageMut,
};

use crate::pixel_format::{PixelFormat, Rgba};

verus! {

/// A 5-bit intensity as an 8-bit one.
pub open spec fn scale_5(value: int) -> int {
    (value * 527 + 23) / 64
}

/// A 6-bit intensity as an 8-bit one.
pub open spec fn scale_6(value: int) -> int {
    (value * 259 + 33) / 64
}

/// Red, green and blue of a colour with 5, 6 and 5 bits.
pub open spec fn rgb565(color: u16) -> Seq<u8> {
    seq![
        scale_5(color as int / 0x800 % 0x20) as u8,
        scale_6(color as int / 0x20 % 0x40) as u8,
        scale_5(color as int % 0x20) as u8,
    ]
}

/// Red, green and blue of a colour with 5 bits each; the highest bit does not count.
pub open spec fn rgb555(color: u16) -> Seq<u8> {
    seq![
        scale_5(color as int / 0x400 % 0x20) as u8,
        scale_5(color as int / 0x20 % 0x20) as u8,
        scale_5(color as int % 0x20) as u8,
    ]
}

/// Convert a 16-bit RDP color (RGB565) to RGB representation.
///
/// RGB565 format: RRRRR GGGGGG BBBBB (5 bits red, 6 bits green, 5 bits blue)
pub fn rdp_16bit_to_rgb(color: u16) -> (out: [u8; 3])
    ensures
        out@ == rgb565(color),
{
    let r: u8 = ((color / 0x800 % 0x20 * 527 + 23) / 64) as u8;
    let g: u8 = ((color / 0x20 % 0x40 * 259 + 33) / 64) as u8;
    let b: u8 = ((color % 0x20 * 527 + 23) / 64) as u8;
    [r, g, b]
}

/// Converts a 15-bit RDP color (RGB555) to 8-bit RGB representation.
///
/// ```text
/// Bit:  15 | 14-10 | 9-5   | 4-0
///       X  | RRRRR | GGGGG | BBBBB
/// ```
pub fn rdp_15bit_to_rgb(color: u16) -> (out: [u8; 3])
    ensures
        out@ == rgb555(color),
{
    let r: u8 = ((color / 0x400 % 0x20 * 527 + 23) / 64) as u8;
    let g: u8 = ((color / 0x20 % 0x20 * 527 + 23) / 64) as u8;
    let b: u8 = ((color % 0x20 * 527 + 23) / 64) as u8;
    [r, g, b]
}

/// The highest bit of a 15-bit colour has no effect.
pub proof fn law_rgb555_ignores_high_bit(color: u16)
    requires
        color < 0x8000,
    ensures
        rgb555((color + 0x8000) as u16) == rgb555(color),
{
    let c = color as int;
    assert((c + 0x8000) / 0x400 == c / 0x400 + 0x20);
    assert((c + 0x8000) / 0x20 == c / 0x20 + 0x400);
    assert((c + 0x8000) / 0x400 % 0x20 == c / 0x400 % 0x20);
    assert((c + 0x8000) / 0x20 % 0x20 == c / 0x20 % 0x20);
    assert((c + 0x8000) % 0x20 == c % 0x20);
}

/// Scaling keeps the order of intensities and maps none to none and full to full.
pub proof fn law_scaling_is_monotone(a: int, b: int)
    requires
        0 <= a <= b,
    ensures
        scale_5(0) == 0 && scale_5(31) == 255,
        scale_6(0) == 0 && scale_6(63) == 255,
        scale_5(a) <= scale_5(b),
        scale_6(a) <= scale_6(b),
{
}

/// A point of an image as brightness and two colour differences.
#[derive(Debug, Copy, Clone, PartialEq, Eq, Structural)]
pub struct YCbCr {
    pub y: i16,
    pub cb: i16,
    pub cr: i16,
}

#[derive(Debug, Copy, Clone, PartialEq, Eq, Structural)]
pub struct Rgb {
    pub r: u8,
    pub g: u8,
    pub b: u8,
}

/// Points of an image, each component on its own.
#[derive(Debug)]
pub struct YCbCrBuffer<'a> {
    pub y: &'a [i16],
    pub cb: &'a [i16],
    pub cr: &'a [i16],
}

impl<'a> View for YCbCrBuffer<'a> {
    type V = Seq<YCbCr>;

    /// The points of which all three components are there.
    open spec fn view(&self) -> Seq<YCbCr> {
        Seq::new(
            smallest(self.y@.len(), self.cb@.len(), self.cr@.len()),
            |i: int| YCbCr { y: self.y@[i], cb: self.cb@[i], cr: self.cr@[i] },
        )
    }
}

pub open spec fn smallest(a: nat, b: nat, c: nat) -> nat {
    if a <= b && a <= c {
        a
    } else if b <= c {
        b
    } else {
        c
    }
}

impl<'a> YCbCrBuffer<'a> {
    /// Takes the first point.
    pub fn next(&mut self) -> (r: Option<YCbCr>)
        ensures
            old(self)@.len() == 0 ==> r is None && *final(self) == *old(self),
            old(self)@.len() > 0 ==> r == Some(old(self)@[0]) && final(self)@ == old(self)@.skip(1),
    {
        let ghost before = self@;
        if self.y.len() > 0 && self.cb.len() > 0 && self.cr.len() > 0 {
            let point: YCbCr = YCbCr { y: self.y[0], cb: self.cb[0], cr: self.cr[0] };
            self.y = slice_subrange(self.y, 1, self.y.len());
            self.cb = slice_subrange(self.cb, 1, self.cb.len());
            self.cr = slice_subrange(self.cr, 1, self.cr.len());
            assert(self@ =~= before.skip(1));
            Some(point)
        } else {
            None
        }
    }
}

/// Why a conversion was not done.
#[derive(Debug)]
pub enum ConversionError {
    /// The size of the output does not fit into 32 bits.
    TooLarge,
    /// There are no points, or there is not enough room for them.
    Size(YuvError),
}

/// `value / 2^21`, rounded down and limited to eight bits.
pub open spec fn intensity(value: int) -> u8 {
    let shifted = value / 0x20_0000;
    if shifted < 0 {
        0
    } else if shifted > 0xFF {
        0xFF
    } else {
        shifted as u8
    }
}

/// 2^21 times red, green and blue of a point.
pub open spec fn scaled_rgb(point: YCbCr) -> (int, int, int) {
    let y = (point.y + 4096) * 0x1_0000;
    (y + 91915 * point.cr, y - 46818 * point.cr - 22526 * point.cb, y + 115992 * point.cb)
}

/// The colour of a point.
pub open spec fn point_color(point: YCbCr) -> Rgba {
    let (r, g, b) = scaled_rgb(point);
    Rgba { r: intensity(r), g: intensity(g), b: intensity(b), a: 0xFF }
}

/// Whether 32 bits are enough for every step of the conversion of a point.
pub open spec fn point_in_range(point: YCbCr) -> bool {
    let (r, g, b) = scaled_rgb(point);
    &&& point.y + 4096 <= i16::MAX
    &&& i32::MIN <= 91915 * point.cr <= i32::MAX
    &&& i32::MIN <= r <= i32::MAX
    &&& i32::MIN <= (point.y + 4096) * 0x1_0000 - 46818 * point.cr <= i32::MAX
    &&& i32::MIN <= g <= i32::MAX
    &&& i32::MIN <= 115992 * point.cb <= i32::MAX
    &&& i32::MIN <= b <= i32::MAX
}

/// `before` with the colours of the first `width` points at its beginning.
pub open spec fn colored(
    before: Seq<u8>,
    points: Seq<YCbCr>,
    width: nat,
    format: PixelFormat,
) -> Seq<u8> {
    Seq::new(
        before.len(),
        |k: int|
            if k < 4 * width {
                format.offsets().byte(point_color(points[k / 4]), k % 4)
            } else {
                before[k]
            },
    )
}

#[verifier::external_type_specification]
#[verifier::external_body]
pub struct ExYuvError(YuvError);

/// Calls `yuv::rdp_yuv444_to_argb` on an image of one row.
///
/// It fails, leaving the output as it is, if there are no points or one of the components has fewer
/// than `width`. Else each point becomes four bytes, of which the first is 255 and the others are red,
/// green and blue.
#[verifier::external_body]
fn row_to_argb(input: &YCbCrBuffer<'_>, width: u32, output: &mut [u8], stride: u32) -> (r: Result<
    (),
    YuvError,
>)
    requires
        stride == old(output)@.len(),
        4 * width <= stride,
        width <= input@.len() ==> forall|i: int| 0 <= i < width ==> point_in_range(#[trigger] input@[i]),
    ensures
        r is Ok <==> 0 < width <= input@.len(),
        r is Ok ==> final(output)@ == colored(
            old(output)@,
            input@,
            width as nat,
            PixelFormat::ARgb32,
        ),
        r is Err ==> final(output)@ == old(output)@,
{
    let planar = YuvPlanarImage {
        y_plane: input.y,
        y_stride: width,
        u_plane: input.cb,
        u_stride: width,
        v_plane: input.cr,
        v_stride: width,
        width,
        height: 1,
    };
    rdp_yuv444_to_argb(&planar, output, stride)
}

/// Calls `yuv::rdp_yuv444_to_rgba` on an image of one row.
///
/// It fails, leaving the output as it is, if there are no points or one of the components has fewer
/// than `width`. Else each point becomes four bytes: red, green, blue and 255.
#[verifier::external_body]
fn row_to_rgba(input: &YCbCrBuffer<'_>, width: u32, output: &mut [u8], stride: u32) -> (r: Result<
    (),
    YuvError,
>)
    requires
        stride == old(output)@.len(),
        4 * width <= stride,
        width <= input@.len() ==> forall|i: int| 0 <= i < width ==> point_in_range(#[trigger] input@[i]),
    ensures
        r is Ok <==> 0 < width <= input@.len(),
        r is Ok ==> final(output)@ == colored(
            old(output)@,
            input@,
            width as nat,
            PixelFormat::RgbA32,
        ),
        r is Err ==> final(output)@ == old(output)@,
{
    let planar = YuvPlanarImage {
        y_plane: input.y,
        y_stride: width,
        u_plane: input.cb,
        u_stride: width,
        v_plane: input.cr,
        v_stride: width,
        width,
        height: 1,
    };
    rdp_yuv444_to_rgba(&planar, output, stride)
}

/// How many points an output of `len` bytes has room for.
pub open spec fn room_for_points(len: nat) -> nat {
    len / 4
}

/// Whether each of the points for which the output has room can be converted with 32 bits.
pub open spec fn in_range(points: Seq<YCbCr>, len: nat) -> bool {
    room_for_points(len) <= points.len() ==> forall|i: int|
        0 <= i < room_for_points(len) ==> point_in_range(#[trigger] points[i])
}

/// What a conversion comes to: as many points as there is room for are converted, or nothing is.
pub open spec fn converted(
    points: Seq<YCbCr>,
    before: Seq<u8>,
    after: Seq<u8>,
    format: PixelFormat,
    r: Result<(), ConversionError>,
) -> bool {
    let width = room_for_points(before.len());
    if before.len() > u32::MAX {
        r == Err::<(), ConversionError>(ConversionError::TooLarge) && after == before
    } else if 0 < width <= points.len() {
        r is Ok && after == colored(before, points, width, format)
    } else {
        r is Err && r->Err_0 is Size && after == before
    }
}

/// Converts points to pixels of opacity, red, green and blue.
pub fn ycbcr_to_argb(input: YCbCrBuffer<'_>, output: &mut [u8]) -> (r: Result<(), ConversionError>)
    requires
        in_range(input@, old(output)@.len()),
    ensures
        converted(input@, old(output)@, final(output)@, PixelFormat::ARgb32, r),
{
    if output.len() as u64 > 0xFFFF_FFFF {
        return Err(ConversionError::TooLarge);
    }
    let len: u32 = output.len() as u32;
    match row_to_argb(&input, len / 4, output, len) {
        Ok(_) => Ok(()),
        Err(e) => Err(ConversionError::Size(e)),
    }
}

/// Converts points to pixels of red, green, blue and opacity.
pub fn ycbcr_to_rgba(input: YCbCrBuffer<'_>, output: &mut [u8]) -> (r: Result<(), ConversionError>)
    requires
        in_range(input@, old(output)@.len()),
    ensures
        converted(input@, old(output)@, final(output)@, PixelFormat::RgbA32, r),
{
    if output.len() as u64 > 0xFFFF_FFFF {
        return Err(ConversionError::TooLarge);
    }
    let len: u32 = output.len() as u32;
    match row_to_rgba(&input, len / 4, output, len) {
        Ok(_) => Ok(()),
        Err(e) => Err(ConversionError::Size(e)),
    }
}

/// The point of a colour.
pub open spec fn color_point(color: Rgba) -> YCbCr {
    YCbCr {
        y: ((9797 * color.r + 19234 * color.g + 3735 * color.b) / 1024 - 4096) as i16,
        cb: ((-5535 * color.r - 10867 * color.g + 16403 * color.b) / 1024) as i16,
        cr: ((16377 * color.r - 13714 * color.g - 2663 * color.b) / 1024) as i16,
    }
}

/// The points of an area of `width` times `height` pixels, whose rows are `stride` bytes apart.
pub struct PixelArea {
    pub bytes: Seq<u8>,
    pub width: u32,
    pub height: u32,
    pub stride: u32,
    pub format: PixelFormat,
}

impl PixelArea {
    /// How many bytes the area takes.
    pub open spec fn size(self) -> int {
        self.stride * (self.height - 1) + 4 * self.width
    }

    /// Whether there are pixels, and all of them are in the bytes.
    pub open spec fn wf(self) -> bool {
        &&& self.width > 0 && self.height > 0
        &&& 4 * self.width <= self.stride
        &&& self.size() <= self.bytes.len()
    }

    /// Point `k` of a tile of 64 by 64 points with the area in its corner, or `before` outside the area.
    pub open spec fn tile_point(self, before: YCbCr, k: int) -> YCbCr {
        if k % 64 < self.width && k / 64 < self.height {
            color_point(self.format.color_at(self.bytes, self.stride * (k / 64) + 4 * (k % 64)))
        } else {
            before
        }
    }

    /// Whether the planes `y`, `cb` and `cr` are those before, with the area in their corner.
    pub open spec fn is_in_tile(
        self,
        before: (Seq<i16>, Seq<i16>, Seq<i16>),
        y: Seq<i16>,
        cb: Seq<i16>,
        cr: Seq<i16>,
    ) -> bool {
        forall|k: int|
            0 <= k < 4096 ==> (YCbCr { y: #[trigger] y[k], cb: cb[k], cr: cr[k] }) == self.tile_point(
                YCbCr { y: before.0[k], cb: before.1[k], cr: before.2[k] },
                k,
            )
    }

    /// What putting the area into a tile comes to: it fails and changes nothing, or it is there.
    pub open spec fn is_put(
        self,
        before: (Seq<i16>, Seq<i16>, Seq<i16>),
        y: Seq<i16>,
        cb: Seq<i16>,
        cr: Seq<i16>,
        r: Result<(), YuvError>,
    ) -> bool {
        &&& r is Ok <==> self.wf()
        &&& r is Ok ==> self.is_in_tile(before, y, cb, cr)
        &&& r is Err ==> y == before.0 && cb == before.1 && cr == before.2
    }
}

/// Calls `yuv::rdp_rgba_to_yuv444` with planes of `row` points per row, which makes 64 rows of 64.
///
/// It fails, leaving the planes as they are, if the area is empty, its rows overlap or the input is too
/// short. Else it puts the point of each pixel of the area into the planes.
#[verifier::external_body]
fn rgba_to_tile(
    input: &[u8],
    width: u32,
    height: u32,
    stride: u32,
    y: &mut [i16; 4096],
    cb: &mut [i16; 4096],
    cr: &mut [i16; 4096],
    row: u32,
) -> (r: Result<(), YuvError>)
    requires
        row == 64,
        width <= 64 && height <= 64,
        stride * 63 + 256 <= usize::MAX,
    ensures
        (PixelArea { bytes: input@, width, height, stride, format: PixelFormat::RgbA32 }).is_put(
            (old(y)@, old(cb)@, old(cr)@),
            final(y)@,
            final(cb)@,
            final(cr)@,
            r,
        ),
{
    let mut plane = YuvPlanarImageMut {
        y_plane: BufferStoreMut::Borrowed(y),
        y_stride: row,
        u_plane: BufferStoreMut::Borrowed(cb),
        u_stride: row,
        v_plane: BufferStoreMut::Borrowed(cr),
        v_stride: row,
        width,
        height,
    };
    rdp_rgba_to_yuv444(&mut plane, input, stride)
}

/// Calls `yuv::rdp_argb_to_yuv444` with planes of `row` points per row, which makes 64 rows of 64.
///
/// It fails, leaving the planes as they are, if the area is empty, its rows overlap or the input is too
/// short. Else it puts the point of each pixel of the area into the planes.
#[verifier::external_body]
fn argb_to_tile(
    input: &[u8],
    width: u32,
    height: u32,
    stride: u32,
    y: &mut [i16; 4096],
    cb: &mut [i16; 4096],
    cr: &mut [i16; 4096],
    row: u32,
) -> (r: Result<(), YuvError>)
    requires
        row == 64,
        width <= 64 && height <= 64,
        stride * 63 + 256 <= usize::MAX,
    ensures
        (PixelArea { bytes: input@, width, height, stride, format: PixelFormat::ARgb32 }).is_put(
            (old(y)@, old(cb)@, old(cr)@),
            final(y)@,
            final(cb)@,
            final(cr)@,
            r,
        ),
{
    let mut plane = YuvPlanarImageMut {
        y_plane: BufferStoreMut::Borrowed(y),
        y_stride: row,
        u_plane: BufferStoreMut::Borrowed(cb),
        u_stride: row,
        v_plane: BufferStoreMut::Borrowed(cr),
        v_stride: row,
        width,
        height,
    };
    rdp_argb_to_yuv444(&mut plane, input, stride)
}

/// Calls `yuv::rdp_bgra_to_yuv444` with planes of `row` points per row, which makes 64 rows of 64.
///
/// It fails, leaving the planes as they are, if the area is empty, its rows overlap or the input is too
/// short. Else it puts the point of each pixel of the area into the planes.
#[verifier::external_body]
fn bgra_to_tile(
    input: &[u8],
    width: u32,
    height: u32,
    stride: u32,
    y: &mut [i16; 4096],
    cb: &mut [i16; 4096],
    cr: &mut [i16; 4096],
    row: u32,
) -> (r: Result<(), YuvError>)
    requires
        row == 64,
        width <= 64 && height <= 64,
        stride * 63 + 256 <= usize::MAX,
    ensures
        (PixelArea { bytes: input@, width, height, stride, format: PixelFormat::BgrA32 }).is_put(
            (old(y)@, old(cb)@, old(cr)@),
            final(y)@,
            final(cb)@,
            final(cr)@,
            r,
        ),
{
    let mut plane = YuvPlanarImageMut {
        y_plane: BufferStoreMut::Borrowed(y),
        y_stride: row,
        u_plane: BufferStoreMut::Borrowed(cb),
        u_stride: row,
        v_plane: BufferStoreMut::Borrowed(cr),
        v_stride: row,
        width,
        height,
    };
    rdp_bgra_to_yuv444(&mut plane, input, stride)
}

/// Calls `yuv::rdp_abgr_to_yuv444` with planes of `row` points per row, which makes 64 rows of 64.
///
/// It fails, leaving the planes as they are, if the area is empty, its rows overlap or the input is too
/// short. Else it puts the point of each pixel of the area into the planes.
#[verifier::external_body]
fn abgr_to_tile(
    input: &[u8],
    width: u32,
    height: u32,
    stride: u32,
    y: &mut [i16; 4096],
    cb: &mut [i16; 4096],
    cr: &mut [i16; 4096],
    row: u32,
) -> (r: Result<(), YuvError>)
    requires
        row == 64,
        width <= 64 && height <= 64,
        stride * 63 + 256 <= usize::MAX,
    ensures
        (PixelArea { bytes: input@, width, height, stride, format: PixelFormat::ABgr32 }).is_put(
            (old(y)@, old(cb)@, old(cr)@),
            final(y)@,
            final(cb)@,
            final(cr)@,
            r,
        ),
{
    let mut plane = YuvPlanarImageMut {
        y_plane: BufferStoreMut::Borrowed(y),
        y_stride: row,
        u_plane: BufferStoreMut::Borrowed(cb),
        u_stride: row,
        v_plane: BufferStoreMut::Borrowed(cr),
        v_stride: row,
        width,
        height,
    };
    rdp_abgr_to_yuv444(&mut plane, input, stride)
}

/// Converts an area of at most 64 by 64 pixels to points, and puts them into the corner of a tile.
pub fn to_64x64_ycbcr_tile(
    input: &[u8],
    width: u32,
    height: u32,
    stride: u32,
    format: PixelFormat,
    y: &mut [i16; 4096],
    cb: &mut [i16; 4096],
    cr: &mut [i16; 4096],
) -> (r: Result<(), YuvError>)
    requires
        width <= 64,
        height <= 64,
        stride * 63 + 256 <= usize::MAX,
    ensures
        (PixelArea { bytes: input@, width, height, stride, format }).is_put(
            (old(y)@, old(cb)@, old(cr)@),
            final(y)@,
            final(cb)@,
            final(cr)@,
            r,
        ),
{
    match format {
        PixelFormat::RgbA32 | PixelFormat::RgbX32 => rgba_to_tile(input, width, height, stride, y, cb, cr, 64),
        PixelFormat::ARgb32 | PixelFormat::XRgb32 => argb_to_tile(input, width, height, stride, y, cb, cr, 64),
        PixelFormat::BgrA32 | PixelFormat::BgrX32 => bgra_to_tile(input, width, height, stride, y, cb, cr, 64),
        PixelFormat::ABgr32 | PixelFormat::XBgr32 => abgr_to_tile(input, width, height, stride, y, cb, cr, 64),
    }
}

/// A grey pixel comes back from its point as grey, and no more than one step darker.
pub proof fn law_grey_stays_grey(v: u8)
    ensures
        ({
            let point = color_point(Rgba { r: v, g: v, b: v, a: 0xFF });
            let back = point_color(point);
            &&& point_in_range(point)
            &&& point.cb == 0 && point.cr == 0
            &&& back.r == back.g == back.b
            &&& v - 1 <= back.r <= v
        }),
{
}

/// The point of every colour can be converted back.
pub proof fn law_points_of_colors_are_in_range(color: Rgba)
    ensures
        point_in_range(color_point(color)),
{
}

} // verus!
