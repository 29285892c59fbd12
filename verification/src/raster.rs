//! Painting in a buffer of pixels, four bytes each, row after row.
//!
//! An area is painted as runs of pixels, one run per row of the area, each `stride` pixels behind
//! the previous one. What a byte becomes is a function of its row and column in the area, its
//! position in the pixel and its old value.

use vstd::arithmetic::mul::lemma_mul_is_distributive_add_other_way;
use vstd::prelude::*;

use crate::color_conversion::{rdp_15bit_to_rgb, rdp_16bit_to_rgb, rgb555, rgb565};
use crate::cursor::u16_at;
use crate::palette::{rgb_of, ColorPalette};
use crate::pixel_format::{ChannelOffsets, PixelFormat, Rgba};
use crate::pointer::blends;

verus! {

/// What becomes of a byte: row, column, channel, old value.
pub type Brush = spec_fn(int, int, int, u8) -> u8;

/// `data` after `count` pixels from pixel `start` on became row `row` of an area. Pixels behind the
/// end of the buffer are left out.
pub open spec fn paint_run(data: Seq<u8>, start: int, count: int, row: int, brush: Brush) -> Seq<u8> {
    Seq::new(
        data.len(),
        |i: int|
            if start <= i / 4 < start + count {
                brush(row, i / 4 - start, i % 4, data[i])
            } else {
                data[i]
            },
    )
}

/// `data` after the first `rows` rows of an area, whose first pixel is pixel `first`.
pub open spec fn paint_rows(
    data: Seq<u8>,
    first: int,
    stride: int,
    count: int,
    rows: nat,
    brush: Brush,
) -> Seq<u8>
    decreases rows,
{
    if rows == 0 {
        data
    } else {
        let row = rows - 1;
        paint_run(
            paint_rows(data, first, stride, count, row as nat, brush),
            first + row * stride,
            count,
            row,
            brush,
        )
    }
}

/// Every pixel takes the four bytes of `color`.
pub open spec fn solid(color: Seq<u8>) -> Brush {
    |row: int, column: int, channel: int, old: u8| color[channel]
}

/// Red, green and blue turn into their complement; opacity stays.
pub open spec fn inverted() -> Brush {
    |row: int, column: int, channel: int, old: u8|
        if channel < 3 {
            (255 - old) as u8
        } else {
            old
        }
}

/// The pixels of another buffer with `stride` pixels per row, from pixel `first` on.
pub open spec fn copied(from: Seq<u8>, first: int, stride: int) -> Brush {
    |row: int, column: int, channel: int, old: u8| from[(first + row * stride + column) * 4 + channel]
}

/// What becomes of an intensity of the background under a pointer pixel. Transparent white inverts
/// the background; any other transparent pixel leaves it. The background stays opaque.
pub open spec fn blended(r: u8, g: u8, b: u8, a: u8, channel: int, old: u8) -> u8 {
    if a == 0 && r == 255 && g == 255 && b == 255 {
        if channel < 3 {
            (255 - old) as u8
        } else {
            255
        }
    } else if a == 0 || channel == 3 {
        old
    } else {
        let value = if channel == 0 {
            r
        } else if channel == 1 {
            g
        } else {
            b
        };
        (value + old * (255 - a) / 256) as u8
    }
}

/// The pixels of a pointer bitmap laid over the background.
pub open spec fn composited(from: Seq<u8>, first: int, stride: int) -> Brush {
    |row: int, column: int, channel: int, old: u8|
        {
            let at = (first + row * stride + column) * 4;
            blended(from[at], from[at + 1], from[at + 2], from[at + 3], channel, old)
        }
}

/// How the pixels of a bitmap are written.
#[derive(Debug, Clone, Copy)]
pub enum Encoding<'a> {
    /// 5, 6 and 5 bits in two bytes
    Rgb16,
    /// 5 bits each in two bytes
    Rgb15,
    /// Blue, green, red
    Bgr24,
    /// Red, green, blue
    Rgb24,
    /// Red, green, blue, opacity
    Rgba32,
    /// Index into a palette
    Indexed8(&'a ColorPalette),
    /// Four bytes that are taken over as they are
    Raw32,
    /// Four bytes in some order
    Color32(PixelFormat),
}

impl<'a> Encoding<'a> {
    /// Bytes per pixel.
    pub open spec fn size(self) -> int {
        match self {
            Encoding::Rgb16 | Encoding::Rgb15 => 2,
            Encoding::Bgr24 | Encoding::Rgb24 => 3,
            Encoding::Rgba32 | Encoding::Raw32 | Encoding::Color32(_) => 4,
            Encoding::Indexed8(_) => 1,
        }
    }

    /// The colour of the pixel at `at`.
    pub open spec fn color(self, bytes: Seq<u8>, at: int) -> Rgba {
        match self {
            Encoding::Rgb16 => opaque(rgb565(u16_at(bytes, at))),
            Encoding::Rgb15 => opaque(rgb555(u16_at(bytes, at))),
            Encoding::Bgr24 => Rgba { r: bytes[at + 2], g: bytes[at + 1], b: bytes[at], a: 0xFF },
            Encoding::Rgb24 => Rgba { r: bytes[at], g: bytes[at + 1], b: bytes[at + 2], a: 0xFF },
            Encoding::Rgba32 | Encoding::Raw32 => Rgba {
                r: bytes[at],
                g: bytes[at + 1],
                b: bytes[at + 2],
                a: bytes[at + 3],
            },
            Encoding::Indexed8(palette) => opaque(rgb_of(palette@[bytes[at] as int])),
            Encoding::Color32(format) => format.color_at(bytes, at),
        }
    }

    /// Byte `channel` that the pixel at `at` gets in an image of the given format.
    pub open spec fn byte(self, bytes: Seq<u8>, at: int, target: PixelFormat, channel: int) -> u8 {
        if self is Raw32 {
            bytes[at + channel]
        } else {
            target.offsets().byte(self.color(bytes, at), channel)
        }
    }
}

/// Red, green and blue without transparency.
pub open spec fn opaque(rgb: Seq<u8>) -> Rgba {
    Rgba { r: rgb[0], g: rgb[1], b: rgb[2], a: 0xFF }
}

/// The rows of a bitmap, the last row first when `bottom_up`.
pub open spec fn decoded(
    bytes: Seq<u8>,
    encoding: Encoding<'_>,
    width: int,
    rows: int,
    bottom_up: bool,
    target: PixelFormat,
) -> Brush {
    |row: int, column: int, channel: int, old: u8|
        {
            let source_row = if bottom_up {
                rows - 1 - row
            } else {
                row
            };
            encoding.byte(bytes, (source_row * width + column) * encoding.size(), target, channel)
        }
}

/// The pixels of another buffer with `stride` pixels per row, from pixel `first` on, in the given
/// encoding.
pub open spec fn converted(
    bytes: Seq<u8>,
    encoding: Encoding<'_>,
    first: int,
    stride: int,
    target: PixelFormat,
) -> Brush {
    |row: int, column: int, channel: int, old: u8|
        encoding.byte(bytes, (first + row * stride + column) * 4, target, channel)
}

/// Painting keeps the size of the buffer.
pub proof fn lemma_paint_rows_len(data: Seq<u8>, first: int, stride: int, count: int, rows: nat, brush: Brush)
    ensures
        paint_rows(data, first, stride, count, rows, brush).len() == data.len(),
    decreases rows,
{
    if rows > 0 {
        lemma_paint_rows_len(data, first, stride, count, (rows - 1) as nat, brush);
    }
}

/// An area that is empty in one direction is painted by leaving everything alone.
pub proof fn lemma_paint_rows_empty(data: Seq<u8>, first: int, stride: int, rows: nat, brush: Brush)
    ensures
        paint_rows(data, first, stride, 0, rows, brush) == data,
    decreases rows,
{
    if rows > 0 {
        lemma_paint_rows_empty(data, first, stride, (rows - 1) as nat, brush);
        assert(paint_rows(data, first, stride, 0, rows, brush) =~= data);
    }
}

/// Position of a byte, told by column and row of its pixel.
pub open spec fn byte_index(stride: int, x: int, y: int, channel: int) -> int {
    (y * stride + x) * 4 + channel
}

proof fn lemma_byte_index(stride: int, x: int, y: int, channel: int)
    requires
        0 <= channel < 4,
    ensures
        byte_index(stride, x, y, channel) / 4 == y * stride + x,
        byte_index(stride, x, y, channel) % 4 == channel,
{
}

/// Where the rows of an area do not reach beyond the right edge, painting changes the pixels of
/// the area, each as the brush says of its old value, and no other.
pub proof fn law_paint_rows_by_pixel(
    data: Seq<u8>,
    left: int,
    top: int,
    stride: int,
    count: int,
    rows: nat,
    brush: Brush,
    x: int,
    y: int,
    channel: int,
)
    requires
        0 <= left,
        0 <= top,
        0 <= count,
        left + count <= stride,
        0 <= x < stride,
        0 <= y,
        0 <= channel < 4,
        0 <= byte_index(stride, x, y, channel) < data.len(),
    ensures
        ({
            let at = byte_index(stride, x, y, channel);
            paint_rows(data, top * stride + left, stride, count, rows, brush)[at] == (if left <= x < left + count
                && top <= y < top + rows {
                brush(y - top, x - left, channel, data[at])
            } else {
                data[at]
            })
        }),
    decreases rows,
{
    let at = byte_index(stride, x, y, channel);
    lemma_byte_index(stride, x, y, channel);
    lemma_paint_rows_len(data, top * stride + left, stride, count, rows, brush);
    if rows > 0 {
        let row = rows - 1;
        law_paint_rows_by_pixel(data, left, top, stride, count, row as nat, brush, x, y, channel);
        lemma_paint_rows_len(data, top * stride + left, stride, count, row as nat, brush);
        let start = top * stride + left + row * stride;
        assert(start == (top + row) * stride + left) by (nonlinear_arith)
            requires
                start == top * stride + left + row * stride,
        ;
        if y < top + row {
            assert(y * stride + stride <= (top + row) * stride) by (nonlinear_arith)
                requires
                    y + 1 <= top + row,
                    0 <= stride,
            ;
        } else if y > top + row {
            assert((top + row) * stride + stride <= y * stride) by (nonlinear_arith)
                requires
                    top + row + 1 <= y,
                    0 <= stride,
            ;
        }
    }
}

/// Two brushes that agree on an area paint it alike.
pub proof fn lemma_paint_rows_agree(
    data: Seq<u8>,
    first: int,
    stride: int,
    count: int,
    rows: nat,
    a: Brush,
    b: Brush,
)
    requires
        forall|row: int, column: int, channel: int, old: u8|
            0 <= row < rows && 0 <= column < count && 0 <= channel < 4 ==> #[trigger] a(row, column, channel, old)
                == b(row, column, channel, old),
    ensures
        paint_rows(data, first, stride, count, rows, a) == paint_rows(data, first, stride, count, rows, b),
    decreases rows,
{
    if rows > 0 {
        let row = rows - 1;
        lemma_paint_rows_agree(data, first, stride, count, row as nat, a, b);
        let before = paint_rows(data, first, stride, count, row as nat, a);
        assert(paint_run(before, first + row * stride, count, row, a) =~= paint_run(
            before,
            first + row * stride,
            count,
            row,
            b,
        ));
    }
}

/// Setting the next pixel of a run to what the brush makes of it makes the run one pixel longer.
pub proof fn lemma_extend_run(data: Seq<u8>, start: int, count: int, row: int, brush: Brush, color: Seq<u8>)
    requires
        data.len() % 4 == 0,
        0 <= start,
        0 <= count,
        forall|c: int|
            0 <= c < 4 && (start + count) * 4 + c < data.len() ==> brush(
                row,
                count,
                c,
                data[(start + count) * 4 + c],
            ) == #[trigger] color[c],
    ensures
        paint_run(paint_run(data, start, count, row, brush), start + count, 1, 0, solid(color)) == paint_run(
            data,
            start,
            count + 1,
            row,
            brush,
        ),
{
    let once = paint_run(data, start, count, row, brush);
    let left = paint_run(once, start + count, 1, 0, solid(color));
    let right = paint_run(data, start, count + 1, row, brush);
    assert forall|i: int| 0 <= i < data.len() implies left[i] == right[i] by {
        if i / 4 == start + count {
            let c = i % 4;
            assert(i == (start + count) * 4 + c);
            assert(color[c] == brush(row, count, c, data[i]));
        }
    }
    assert(left =~= right);
}

/// Sets the four bytes of pixel `at`, if the buffer has it.
pub fn put_pixel(data: &mut Vec<u8>, at: u64, color: [u8; 4])
    requires
        old(data)@.len() % 4 == 0,
        at < 0x1000_0000_0000,
    ensures
        final(data)@ == paint_run(old(data)@, at as int, 1, 0, solid(color@)),
{
    let len: u64 = data.len() as u64;
    if at * 4 + 4 <= len {
        let i: usize = (at * 4) as usize;
        data[i] = color[0];
        data[i + 1] = color[1];
        data[i + 2] = color[2];
        data[i + 3] = color[3];
    }
    assert(data@ =~= paint_run(old(data)@, at as int, 1, 0, solid(color@)));
}

/// What an area is painted with.
#[derive(Debug, Clone, Copy)]
pub enum Paint<'a> {
    /// One colour
    Solid([u8; 4]),
    /// The complement of what is there
    Inverted,
    /// Pixels of another buffer
    Copied { from: &'a [u8], first: u64, stride: u64 },
    /// Pixels of a pointer bitmap over what is there
    Composited { from: &'a [u8], first: u64, stride: u64 },
    /// Pixels of a bitmap in some encoding
    Decoded {
        bytes: &'a [u8],
        encoding: Encoding<'a>,
        width: u64,
        rows: u64,
        bottom_up: bool,
        target: PixelFormat,
    },
    /// Pixels of another buffer in an encoding with four bytes per pixel
    Converted { bytes: &'a [u8], encoding: Encoding<'a>, first: u64, stride: u64, target: PixelFormat },
}

impl<'a> Paint<'a> {
    pub open spec fn brush(self) -> Brush {
        match self {
            Paint::Solid(color) => solid(color@),
            Paint::Inverted => inverted(),
            Paint::Copied { from, first, stride } => copied(from@, first as int, stride as int),
            Paint::Composited { from, first, stride } => composited(from@, first as int, stride as int),
            Paint::Decoded { bytes, encoding, width, rows, bottom_up, target } => decoded(
                bytes@,
                encoding,
                width as int,
                rows as int,
                bottom_up,
                target,
            ),
            Paint::Converted { bytes, encoding, first, stride, target } => converted(
                bytes@,
                encoding,
                first as int,
                stride as int,
                target,
            ),
        }
    }

    /// Whether the paint has the pixel at `row` and `column`.
    pub open spec fn has(self, row: int, column: int) -> bool {
        match self {
            Paint::Solid(_) | Paint::Inverted => true,
            Paint::Copied { from, first, stride } => {
                let at = first + row * stride + column;
                0 <= at && at * 4 + 4 <= from@.len()
            },
            Paint::Composited { from, first, stride } => {
                let at = (first + row * stride + column) * 4;
                &&& 0 <= at && at + 4 <= from@.len()
                &&& from@[at + 3] != 0 ==> {
                    &&& blends(from@[at], from@[at + 3])
                    &&& blends(from@[at + 1], from@[at + 3])
                    &&& blends(from@[at + 2], from@[at + 3])
                }
            },
            Paint::Decoded { bytes, encoding, width, rows, bottom_up, target } => {
                &&& 0 <= row < rows
                &&& 0 <= column < width
                &&& rows * width * encoding.size() <= bytes@.len()
            },
            Paint::Converted { bytes, encoding, first, stride, target } => {
                let at = first + row * stride + column;
                &&& encoding.size() == 4
                &&& 0 <= at && at * 4 + 4 <= bytes@.len()
            },
        }
    }

    /// Whether the paint has all the pixels of an area.
    pub open spec fn covers(self, count: int, rows: int) -> bool {
        forall|row: int, column: int|
            0 <= row < rows && 0 <= column < count ==> #[trigger] self.has(row, column)
    }
}

/// Lays a pointer pixel over an intensity of the background.
fn blend(value: u8, alpha: u8, old: u8) -> (r: u8)
    requires
        blends(value, alpha),
    ensures
        r == value + old * (255 - alpha) / 256,
{
    let keep: u16 = 255 - alpha as u16;
    assert(0 <= old * keep <= 255 * keep) by (nonlinear_arith)
        requires
            0 <= old <= 255,
            0 <= keep <= 255,
    ;
    (value as u16 + old as u16 * keep / 256) as u8
}

/// The pixel that a pointer pixel makes of a pixel of the background.
fn blend_pixel(r: u8, g: u8, b: u8, a: u8, old: [u8; 4]) -> (out: [u8; 4])
    requires
        a != 0 ==> blends(r, a) && blends(g, a) && blends(b, a),
    ensures
        forall|c: int| 0 <= c < 4 ==> #[trigger] out@[c] == blended(r, g, b, a, c, old@[c]),
{
    if a == 0 && r == 255 && g == 255 && b == 255 {
        [255 - old[0], 255 - old[1], 255 - old[2], 255]
    } else if a == 0 {
        old
    } else {
        [blend(r, a, old[0]), blend(g, a, old[1]), blend(b, a, old[2]), old[3]]
    }
}

/// The bytes of a colour in the given order.
fn arrange(color: Rgba, target: PixelFormat) -> (out: [u8; 4])
    ensures
        forall|c: int| 0 <= c < 4 ==> #[trigger] out@[c] == target.offsets().byte(color, c),
{
    let o: ChannelOffsets = target.channel_offsets();
    let mut out: [u8; 4] = [0; 4];
    out[o.r] = color.r;
    out[o.g] = color.g;
    out[o.b] = color.b;
    out[o.a] = color.a;
    out
}

fn opaque_color(rgb: [u8; 3]) -> (r: Rgba)
    ensures
        r == opaque(rgb@),
{
    Rgba { r: rgb[0], g: rgb[1], b: rgb[2], a: 0xFF }
}

impl<'a> Encoding<'a> {
    pub fn bytes_per_pixel(&self) -> (r: u64)
        ensures
            r == self.size(),
            1 <= r <= 4,
    {
        match self {
            Encoding::Rgb16 | Encoding::Rgb15 => 2,
            Encoding::Bgr24 | Encoding::Rgb24 => 3,
            Encoding::Rgba32 | Encoding::Raw32 | Encoding::Color32(_) => 4,
            Encoding::Indexed8(_) => 1,
        }
    }

    /// The pixel at `at` in an image of the given format.
    fn pixel(&self, bytes: &[u8], at: usize, target: PixelFormat) -> (r: [u8; 4])
        requires
            at + self.size() <= bytes@.len(),
        ensures
            forall|c: int| 0 <= c < 4 ==> #[trigger] r@[c] == self.byte(bytes@, at as int, target, c),
    {
        assert(at + self.size() <= bytes.len());
        match self {
            Encoding::Rgb16 => {
                let value: u16 = bytes[at] as u16 + 0x100 * (bytes[at + 1] as u16);
                arrange(opaque_color(rdp_16bit_to_rgb(value)), target)
            },
            Encoding::Rgb15 => {
                let value: u16 = bytes[at] as u16 + 0x100 * (bytes[at + 1] as u16);
                arrange(opaque_color(rdp_15bit_to_rgb(value)), target)
            },
            Encoding::Bgr24 => arrange(
                Rgba { r: bytes[at + 2], g: bytes[at + 1], b: bytes[at], a: 0xFF },
                target,
            ),
            Encoding::Rgb24 => arrange(
                Rgba { r: bytes[at], g: bytes[at + 1], b: bytes[at + 2], a: 0xFF },
                target,
            ),
            Encoding::Rgba32 => arrange(
                Rgba { r: bytes[at], g: bytes[at + 1], b: bytes[at + 2], a: bytes[at + 3] },
                target,
            ),
            Encoding::Indexed8(palette) => arrange(opaque_color(palette.get(bytes[at])), target),
            Encoding::Raw32 => [bytes[at], bytes[at + 1], bytes[at + 2], bytes[at + 3]],
            Encoding::Color32(format) => arrange(format.read_color(bytes, at), target),
        }
    }
}

proof fn lemma_decoded_range(source_row: int, column: int, width: int, rows: int, size: int)
    requires
        0 <= source_row < rows,
        0 <= column < width,
        1 <= size,
    ensures
        0 <= source_row * width,
        0 <= source_row * width + column < rows * width,
        0 <= (source_row * width + column) * size,
        (source_row * width + column) * size + size <= rows * width * size,
{
    assert(0 <= source_row * width) by (nonlinear_arith)
        requires
            0 <= source_row,
            0 <= width,
    ;
    assert(source_row * width + width <= rows * width) by (nonlinear_arith)
        requires
            source_row + 1 <= rows,
            0 <= width,
    ;
    let p = source_row * width + column;
    assert(0 <= p * size && p * size + size <= rows * width * size) by (nonlinear_arith)
        requires
            0 <= p,
            p + 1 <= rows * width,
            1 <= size,
    ;
}

impl<'a> Paint<'a> {
    /// The pixel that the paint makes of a pixel of the area.
    fn pixel(&self, row: u64, column: u64, old: [u8; 4]) -> (r: [u8; 4])
        requires
            self.has(row as int, column as int),
        ensures
            forall|c: int| 0 <= c < 4 ==> #[trigger] r@[c] == (self.brush())(row as int, column as int, c, old@[c]),
    {
        match self {
            Paint::Solid(color) => *color,
            Paint::Inverted => [255 - old[0], 255 - old[1], 255 - old[2], old[3]],
            Paint::Copied { from, first, stride } => {
                let len: usize = from.len();
                assert(0 <= row * *stride) by (nonlinear_arith)
                    requires
                        0 <= row,
                        0 <= *stride,
                ;
                let i: usize = ((*first + row * *stride + column) * 4) as usize;
                [from[i], from[i + 1], from[i + 2], from[i + 3]]
            },
            Paint::Composited { from, first, stride } => {
                let len: usize = from.len();
                assert(0 <= row * *stride) by (nonlinear_arith)
                    requires
                        0 <= row,
                        0 <= *stride,
                ;
                let i: usize = ((*first + row * *stride + column) * 4) as usize;
                blend_pixel(from[i], from[i + 1], from[i + 2], from[i + 3], old)
            },
            Paint::Decoded { bytes, encoding, width, rows, bottom_up, target } => {
                let len: usize = bytes.len();
                let source_row: u64 = if *bottom_up {
                    *rows - 1 - row
                } else {
                    row
                };
                let size: u64 = encoding.bytes_per_pixel();
                proof {
                    lemma_decoded_range(
                        source_row as int,
                        column as int,
                        *width as int,
                        *rows as int,
                        size as int,
                    );
                    assert(source_row * *width + column <= (source_row * *width + column) * size)
                        by (nonlinear_arith)
                        requires
                            1 <= size,
                            0 <= source_row * *width + column,
                    ;
                }
                let i: usize = ((source_row * *width + column) * size) as usize;
                encoding.pixel(bytes, i, *target)
            },
            Paint::Converted { bytes, encoding, first, stride, target } => {
                let len: usize = bytes.len();
                assert(0 <= row * *stride) by (nonlinear_arith)
                    requires
                        0 <= row,
                        0 <= *stride,
                ;
                let i: usize = ((*first + row * *stride + column) * 4) as usize;
                encoding.pixel(bytes, i, *target)
            },
        }
    }
}

/// Paints `rows` runs of `count` pixels, the first from pixel `first` on, each `stride` pixels
/// behind the previous one. What lies behind the end of the buffer is left out.
pub fn paint_area(data: &mut Vec<u8>, first: u64, stride: u64, count: u64, rows: u64, paint: Paint<'_>)
    requires
        old(data)@.len() % 4 == 0,
        first <= 0x2_0000_0000,
        stride <= 0xFFFF,
        count <= 0xFFFF,
        rows <= 0xFFFF,
        paint.covers(count as int, rows as int),
    ensures
        final(data)@ == paint_rows(
            old(data)@,
            first as int,
            stride as int,
            count as int,
            rows as nat,
            paint.brush(),
        ),
{
    let ghost brush = paint.brush();
    let ghost before = data@;
    let mut row: u64 = 0;
    let mut start: u64 = first;
    while row < rows
        invariant
            row <= rows <= 0xFFFF,
            count <= 0xFFFF,
            stride <= 0xFFFF,
            first <= 0x2_0000_0000,
            start == first + row * stride,
            start <= first + row * 0xFFFF,
            brush == paint.brush(),
            paint.covers(count as int, rows as int),
            before == old(data)@,
            data@.len() == before.len(),
            before.len() % 4 == 0,
            data@ == paint_rows(before, first as int, stride as int, count as int, row as nat, brush),
        decreases rows - row,
    {
        let ghost row_before = data@;
        let mut column: u64 = 0;
        assert(data@ =~= paint_run(row_before, start as int, 0, row as int, brush));
        while column < count
            invariant
                column <= count <= 0xFFFF,
                row < rows,
                start <= 0x1000_0000_0000 - 0x1_0000,
                brush == paint.brush(),
                paint.covers(count as int, rows as int),
                row_before.len() % 4 == 0,
                data@ == paint_run(row_before, start as int, column as int, row as int, brush),
            decreases count - column,
        {
            let at: u64 = (start + column) * 4;
            if at + 4 <= data.len() as u64 {
                let i: usize = at as usize;
                assert(paint.has(row as int, column as int));
                let old_pixel: [u8; 4] = [data[i], data[i + 1], data[i + 2], data[i + 3]];
                let color: [u8; 4] = paint.pixel(row, column, old_pixel);
                proof {
                    assert forall|c: int| 0 <= c < 4 implies brush(
                        row as int,
                        column as int,
                        c,
                        row_before[(start + column) * 4 + c],
                    ) == #[trigger] color@[c] by {
                        assert(row_before[(start + column) * 4 + c] == old_pixel@[c]);
                    }
                    lemma_extend_run(row_before, start as int, column as int, row as int, brush, color@);
                }
                put_pixel(data, start + column, color);
            } else {
                assert(data@ =~= paint_run(row_before, start as int, column + 1, row as int, brush));
            }
            column = column + 1;
        }
        proof {
            lemma_mul_is_distributive_add_other_way(stride as int, row as int, 1);
        }
        start = start + stride;
        row = row + 1;
    }
}

} // verus!
