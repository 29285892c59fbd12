//! What the bitmaps of the server do to each pixel of the image.

use vstd::arithmetic::div_mod::lemma_fundamental_div_mod_converse;
use vstd::prelude::*;

use crate::bitmap::BitmapView;
use crate::bitmap_updates::{
    bgrx_encoding, bitmap_applied, raw_applied, raw_pixels, unpadded, InflatedView, RlePixelFormat,
};
use crate::color_conversion::{rgb555, rgb565};
use crate::geometry::InclusiveRectangle;
use crate::image::ImageView;
use crate::palette::ColorPalette;
use crate::pixel_format::PixelFormat;
use crate::pixel_laws::{
    byte_of, bytes_of, color_bytes, lemma_on_screen, lemma_painted_bytes, on_screen,
};
use crate::raster::{decoded, Encoding};

verus! {

/// The 8-bit intensity that is nearest to `value` parts of `most`.
pub open spec fn nearest(value: int, most: int) -> u8 {
    ((510 * value + most) / (2 * most)) as u8
}

/// Red, green and blue of a colour of 16 bits are five, six and five of them, each the nearest of the 256
/// intensities.
pub proof fn law_rgb565(color: u16)
    ensures
        rgb565(color) =~= seq![
            nearest(color as int / 2048, 31),
            nearest(color as int / 32 % 64, 63),
            nearest(color as int % 32, 31),
        ],
{
    lemma_nearest((color / 2048) as u32, 0);
    lemma_nearest((color % 32) as u32, (color / 32 % 64) as u32);
}

/// Red, green and blue of a colour of 15 bits are five of them each, each the nearest of the 256
/// intensities.
pub proof fn law_rgb555(color: u16)
    ensures
        rgb555(color) =~= seq![
            nearest(color as int / 1024 % 32, 31),
            nearest(color as int / 32 % 32, 31),
            nearest(color as int % 32, 31),
        ],
{
    lemma_nearest((color / 1024 % 32) as u32, 0);
    lemma_nearest((color / 32 % 32) as u32, 0);
    lemma_nearest((color % 32) as u32, 0);
}

proof fn lemma_nearest(five: u32, six: u32)
    requires
        five < 32,
        six < 64,
    ensures
        (five * 527 + 23) / 64 == (510 * five + 31) / 62,
        (six * 259 + 33) / 64 == (510 * six + 63) / 126,
{
    assert(five < 32 ==> (five * 527 + 23) / 64 == (510 * five + 31) / 62) by (bit_vector);
    assert(six < 64 ==> (six * 259 + 33) / 64 == (510 * six + 63) / 126) by (bit_vector);
}

/// How the pixels of a bitmap are written: one byte that picks a colour of the palette, 15 or 16 bits in
/// two bytes, three bytes from blue to red or from red to blue, four bytes from red to blue and opacity, or
/// blue, green, red and a byte without meaning.
pub enum Written {
    Index,
    Bits15,
    Bits16,
    BlueGreenRed,
    RedGreenBlue,
    RedGreenBlueOpacity,
    BlueGreenRedNone,
}

impl Written {
    /// Bytes per pixel.
    pub open spec fn len(self) -> int {
        match self {
            Written::Index => 1,
            Written::Bits15 => 2,
            Written::Bits16 => 2,
            Written::BlueGreenRed => 3,
            Written::RedGreenBlue => 3,
            Written::RedGreenBlueOpacity => 4,
            Written::BlueGreenRedNone => 4,
        }
    }

    /// The four bytes that the pixel written from byte `at` on becomes in an image.
    #[verifier::opaque]
    pub open spec fn shown(self, format: PixelFormat, palette: ColorPalette, data: Seq<u8>, at: int) -> Seq<u8> {
        match self {
            Written::Index => {
                let entry = palette@[data[at] as int];
                color_bytes(format, entry.red, entry.green, entry.blue, 255)
            },
            Written::Bits15 => {
                let word = data[at] + 256 * data[at + 1];
                color_bytes(
                    format,
                    nearest(word / 1024 % 32, 31),
                    nearest(word / 32 % 32, 31),
                    nearest(word % 32, 31),
                    255,
                )
            },
            Written::Bits16 => {
                let word = data[at] + 256 * data[at + 1];
                color_bytes(
                    format,
                    nearest(word / 2048, 31),
                    nearest(word / 32 % 64, 63),
                    nearest(word % 32, 31),
                    255,
                )
            },
            Written::BlueGreenRed => color_bytes(format, data[at + 2], data[at + 1], data[at], 255),
            Written::RedGreenBlue => color_bytes(format, data[at], data[at + 1], data[at + 2], 255),
            Written::RedGreenBlueOpacity => color_bytes(
                format,
                data[at],
                data[at + 1],
                data[at + 2],
                data[at + 3],
            ),
            Written::BlueGreenRedNone => if format is BgrX32 {
                seq![data[at], data[at + 1], data[at + 2], data[at + 3]]
            } else {
                color_bytes(format, data[at + 2], data[at + 1], data[at], 255)
            },
        }
    }
}

/// The encoding that goes with a way of writing pixels.
pub open spec fn encoding_of<'a>(written: Written, v: ImageView, palette: &'a ColorPalette) -> Encoding<'a> {
    match written {
        Written::Index => Encoding::Indexed8(palette),
        Written::Bits15 => Encoding::Rgb15,
        Written::Bits16 => Encoding::Rgb16,
        Written::BlueGreenRed => Encoding::Bgr24,
        Written::RedGreenBlue => Encoding::Rgb24,
        Written::RedGreenBlueOpacity => Encoding::Rgba32,
        Written::BlueGreenRedNone => bgrx_encoding(v),
    }
}

#[verifier::spinoff_prover]
#[verifier::rlimit(60)]
proof fn lemma_shown(written: Written, v: ImageView, palette: &ColorPalette, data: Seq<u8>, at: int, c: int)
    requires
        0 <= c < 4,
    ensures
        encoding_of(written, v, palette).size() == written.len(),
        written.shown(v.format, *palette, data, at).len() == 4,
        encoding_of(written, v, palette).byte(data, at, v.format, c) == written.shown(v.format, *palette, data, at)[c],
{
    reveal(Written::shown);
    let word = (data[at] + 256 * data[at + 1]) as u16;
    law_rgb565(word);
    law_rgb555(word);
}

/// Number of bytes of a bitmap row without padding.
pub open spec fn row_len(rect: InclusiveRectangle, written: Written) -> int {
    (rect.right - rect.left + 1) * written.len()
}

/// The next multiple of four.
pub open spec fn up_to_four(len: int) -> int {
    if len % 4 == 0 {
        len
    } else {
        len + 4 - len % 4
    }
}

/// Whether a rectangle lies in the image, with room for `rows` rows below its top, and the pointer is
/// elsewhere.
pub open spec fn is_free(v: ImageView, rect: InclusiveRectangle, rows: int) -> bool {
    &&& rect.left <= rect.right < v.width
    &&& rect.bottom < v.height
    &&& 0 <= rows
    &&& rect.top + rows <= v.height
    &&& !v.covers(rect)
}

/// What the pixel becomes when the `rows` whole rows of a bitmap go into a rectangle. The first row of the
/// bitmap comes last, or comes first when `down`.
pub open spec fn bitmap_pixel(
    v: ImageView,
    written: Written,
    palette: ColorPalette,
    data: Seq<u8>,
    row_len: int,
    rect: InclusiveRectangle,
    rows: int,
    down: bool,
    x: int,
    y: int,
) -> Seq<u8> {
    if rect.left <= x <= rect.right && rect.top <= y < rect.top + rows {
        let row = if down {
            y - rect.top
        } else {
            rect.top + rows - 1 - y
        };
        written.shown(v.format, palette, data, row * row_len + (x - rect.left) * written.len())
    } else {
        bytes_of(v, x, y)
    }
}

/// The rows of a bitmap in any encoding, byte by byte.
#[verifier::spinoff_prover]
#[verifier::rlimit(60)]
pub proof fn lemma_bitmap_bytes(
    v: ImageView,
    encoding: Encoding<'_>,
    data: Seq<u8>,
    rect: InclusiveRectangle,
    rows: int,
    down: bool,
    x: int,
    y: int,
    c: int,
)
    requires
        v.wf(),
        is_free(v, rect, rows),
        encoding.size() > 0,
        rows * ((rect.right - rect.left + 1) * encoding.size()) <= data.len(),
        data.len() < (rows + 1) * ((rect.right - rect.left + 1) * encoding.size()),
        on_screen(v, x, y),
        0 <= c < 4,
    ensures
        ({
            let (after, area) = v.bitmapped(data, encoding, rect, !down);
            let row = if down {
                y - rect.top
            } else {
                rect.top + rows - 1 - y
            };
            let at = row * ((rect.right - rect.left + 1) * encoding.size()) + (x - rect.left) * encoding.size();
            &&& byte_of(after, x, y, c) == (if rect.left <= x <= rect.right && rect.top <= y < rect.top + rows {
                encoding.byte(data, at, v.format, c)
            } else {
                byte_of(v, x, y, c)
            })
            &&& area == rect
            &&& v.bitmapped_inside(data, encoding, rect, !down) == (after, area)
        }),
{
    let cols = rect.right - rect.left + 1;
    let size = encoding.size();
    let len = cols * size;
    assert(len > 0) by (nonlinear_arith)
        requires
            len == cols * size,
            cols > 0,
            size > 0,
    ;
    let left_over = data.len() - rows * len;
    assert(rows * len + len == (rows + 1) * len) by (nonlinear_arith);
    lemma_fundamental_div_mod_converse(data.len() as int, len, rows, left_over);
    assert(ImageView::row_count(rect, data.len(), size) == rows);
    let brush = decoded(data, encoding, cols, rows, !down, v.format);
    lemma_on_screen(v, x, y);
    lemma_painted_bytes(v, v.data, rect.left as int, rect.top as int, cols, rows as nat, brush, x, y);
    let row = if down {
        y - rect.top
    } else {
        rect.top + rows - 1 - y
    };
    let at = row * len + (x - rect.left) * size;
    assert((row * cols + (x - rect.left)) * size == at) by (nonlinear_arith)
        requires
            at == row * len + (x - rect.left) * size,
            len == cols * size,
    ;
}

#[verifier::spinoff_prover]
#[verifier::rlimit(60)]
pub proof fn lemma_bitmapped(
    v: ImageView,
    written: Written,
    palette: &ColorPalette,
    data: Seq<u8>,
    rect: InclusiveRectangle,
    rows: int,
    down: bool,
    x: int,
    y: int,
)
    requires
        v.wf(),
        is_free(v, rect, rows),
        rows * row_len(rect, written) <= data.len() < (rows + 1) * row_len(rect, written),
        on_screen(v, x, y),
    ensures
        ({
            let encoding = encoding_of(written, v, palette);
            let (after, area) = v.bitmapped(data, encoding, rect, !down);
            &&& bytes_of(after, x, y) == bitmap_pixel(
                v,
                written,
                *palette,
                data,
                row_len(rect, written),
                rect,
                rows,
                down,
                x,
                y,
            )
            &&& area == rect
            &&& v.bitmapped_inside(data, encoding, rect, !down) == (after, area)
        }),
{
    let encoding = encoding_of(written, v, palette);
    let len = row_len(rect, written);
    let row = if down {
        y - rect.top
    } else {
        rect.top + rows - 1 - y
    };
    let at = row * len + (x - rect.left) * written.len();
    let after = v.bitmapped(data, encoding, rect, !down).0;
    let expected = bitmap_pixel(v, written, *palette, data, len, rect, rows, down, x, y);
    assert forall|c: int| 0 <= c < 4 implies #[trigger] byte_of(after, x, y, c) == expected[c] && expected.len() == 4 by {
        lemma_shown(written, v, palette, data, at, c);
        lemma_bitmap_bytes(v, encoding, data, rect, rows, down, x, y, c);
    }
    lemma_shown(written, v, palette, data, at, 0);
    lemma_bitmap_bytes(v, encoding, data, rect, rows, down, x, y, 0);
    assert(byte_of(after, x, y, 0) == expected[0]);
    assert(bytes_of(after, x, y) =~= expected);
}

proof fn lemma_unpadded(data: Seq<u8>, row: int, padded: int, n: nat)
    requires
        0 <= row <= padded,
        0 < padded,
        data.len() == n * padded,
    ensures
        unpadded(data, row, padded).len() == n * row,
        forall|k: int, j: int|
            #![trigger unpadded(data, row, padded)[k * row + j]]
            0 <= k < n && 0 <= j < row ==> unpadded(data, row, padded)[k * row + j] == data[k * padded + j],
    decreases n,
{
    if n > 0 {
        let m = (n - 1) as nat;
        assert(n * padded == m * padded + padded && n * row == m * row + row && m * padded >= 0) by (nonlinear_arith)
            requires
                m + 1 == n,
                padded > 0,
                m >= 0,
        ;
        let rest = data.skip(padded);
        lemma_unpadded(rest, row, padded, m);
        let all = unpadded(data, row, padded);
        assert(all == data.take(row) + unpadded(rest, row, padded));
        assert forall|k: int, j: int|
            #![trigger all[k * row + j]]
            0 <= k < n && 0 <= j < row implies all[k * row + j] == data[k * padded + j] by {
            if k > 0 {
                let i = k - 1;
                assert(k * row + j == row + (i * row + j) && i * row + j >= 0 && i * row + j < m * row) by (
                nonlinear_arith)
                    requires
                        i + 1 == k,
                        0 <= j < row,
                        0 <= i,
                        i + 1 <= m,
                ;
                assert(k * padded + j == padded + (i * padded + j) && i * padded + j >= 0 && i * padded + j < m
                    * padded) by (nonlinear_arith)
                    requires
                        i + 1 == k,
                        0 <= j < row <= padded,
                        0 <= i,
                        i + 1 <= m,
                ;
                assert(all[k * row + j] == unpadded(rest, row, padded)[i * row + j]);
                assert(rest[i * padded + j] == data[k * padded + j]);
            } else {
                assert(0 * row + j == j && 0 * padded + j == j) by (nonlinear_arith);
            }
        }
    } else {
        assert(0 * padded == 0 && 0 * row == 0);
    }
}

/// How the pixels of a decompressed bitmap are written.
pub open spec fn inflated_writing(bits_per_pixel: u16, format: RlePixelFormat) -> Written {
    if bits_per_pixel == 32 {
        Written::RedGreenBlue
    } else if format is Rgb24 {
        Written::BlueGreenRed
    } else if format is Rgb16 {
        Written::Bits16
    } else if format is Rgb15 {
        Written::Bits15
    } else {
        Written::Index
    }
}

/// How the pixels of an uncompressed bitmap are written.
pub open spec fn plain_writing(bits_per_pixel: u16) -> Option<Written> {
    if bits_per_pixel == 8 {
        Some(Written::Index)
    } else if bits_per_pixel == 15 {
        Some(Written::Bits15)
    } else if bits_per_pixel == 16 {
        Some(Written::Bits16)
    } else if bits_per_pixel == 24 {
        Some(Written::BlueGreenRed)
    } else if bits_per_pixel == 32 {
        Some(Written::BlueGreenRedNone)
    } else {
        None
    }
}

/// A compressed bitmap of any depth stands on its head: with as many rows as were decompressed, the pixel
/// in column `x` and row `y` of the image takes the colour of the pixel as far up from the last row of the
/// bitmap as `y` lies below the top of the rectangle. No other pixel changes.
pub proof fn law_compressed_bitmap_by_pixel(
    v: ImageView,
    b: BitmapView,
    i: InflatedView,
    palette: ColorPalette,
    rows: int,
    x: int,
    y: int,
)
    requires
        v.wf(),
        b.compression_flags.0 & 0x0001 == 0x0001,
        is_free(v, b.rectangle, rows),
        rows * row_len(b.rectangle, inflated_writing(b.bits_per_pixel, i.format)) <= i.data.len(),
        i.data.len() < (rows + 1) * row_len(b.rectangle, inflated_writing(b.bits_per_pixel, i.format)),
        on_screen(v, x, y),
    ensures
        ({
            let written = inflated_writing(b.bits_per_pixel, i.format);
            let (after, area) = bitmap_applied(v, b, Some(i), palette);
            &&& bytes_of(after, x, y) == bitmap_pixel(
                v,
                written,
                palette,
                i.data,
                row_len(b.rectangle, written),
                b.rectangle,
                rows,
                false,
                x,
                y,
            )
            &&& area == b.rectangle
        }),
{
    let written = inflated_writing(b.bits_per_pixel, i.format);
    lemma_bitmapped(v, written, &palette, i.data, b.rectangle, rows, false, x, y);
}

/// An uncompressed bitmap of any depth stands on its head too, and its rows begin at multiples of four
/// bytes.
#[verifier::spinoff_prover]
#[verifier::rlimit(60)]
pub proof fn law_plain_bitmap_by_pixel(
    v: ImageView,
    b: BitmapView,
    inflated: Option<InflatedView>,
    palette: ColorPalette,
    rows: int,
    x: int,
    y: int,
)
    requires
        v.wf(),
        b.compression_flags.0 & 0x0001 == 0,
        plain_writing(b.bits_per_pixel) is Some,
        is_free(v, b.rectangle, rows),
        b.width == b.rectangle.right - b.rectangle.left + 1,
        b.data.len() == rows * up_to_four(row_len(b.rectangle, plain_writing(b.bits_per_pixel)->Some_0)),
        on_screen(v, x, y),
    ensures
        ({
            let written = plain_writing(b.bits_per_pixel)->Some_0;
            let (after, area) = bitmap_applied(v, b, inflated, palette);
            &&& bytes_of(after, x, y) == bitmap_pixel(
                v,
                written,
                palette,
                b.data,
                up_to_four(row_len(b.rectangle, written)),
                b.rectangle,
                rows,
                false,
                x,
                y,
            )
            &&& area == b.rectangle
        }),
{
    let written = plain_writing(b.bits_per_pixel)->Some_0;
    let rect = b.rectangle;
    let cols = rect.right - rect.left + 1;
    let size = written.len();
    let len = row_len(rect, written);
    let padded = up_to_four(len);
    let pixels = raw_pixels(b);
    assert(len > 0) by (nonlinear_arith)
        requires
            len == cols * size,
            cols > 0,
            size > 0,
    ;
    assert(crate::bitmap_updates::row_bytes(b) == len);
    assert(crate::bitmap_updates::padded_to_four(len) == padded);
    lemma_unpadded(b.data, len, padded, rows as nat);
    assert(pixels.len() == rows * len);
    assert(rows * len < (rows + 1) * len) by (nonlinear_arith)
        requires
            len > 0,
    ;
    lemma_bitmapped(v, written, &palette, pixels, rect, rows, false, x, y);
    let (after, area) = bitmap_applied(v, b, inflated, palette);
    assert(b.compression_flags.0 & 0x0001 == 0 ==> b.compression_flags.0 & 0x0001 != 0x0001);
    assert((after, area) == raw_applied(v, b.bits_per_pixel as int, pixels, palette, rect));
    if rect.left <= x <= rect.right && rect.top <= y < rect.top + rows {
        let k = rect.top + rows - 1 - y;
        let j = (x - rect.left) * size;
        assert(0 <= j && j + size <= len) by (nonlinear_arith)
            requires
                len == cols * size,
                j == (x - rect.left) * size,
                0 <= x - rect.left,
                x - rect.left + 1 <= cols,
                size > 0,
        ;
        if padded == len {
            assert(pixels == b.data);
        } else {
            assert(pixels[k * len + j] == b.data[k * padded + j]);
            if size >= 2 {
                assert(pixels[k * len + (j + 1)] == b.data[k * padded + (j + 1)]);
            }
            if size >= 3 {
                assert(pixels[k * len + (j + 2)] == b.data[k * padded + (j + 2)]);
            }
            if size >= 4 {
                assert(pixels[k * len + (j + 3)] == b.data[k * padded + (j + 3)]);
            }
        }
        reveal(Written::shown);
        assert(written.shown(v.format, palette, pixels, k * len + j) =~= written.shown(
            v.format,
            palette,
            b.data,
            k * padded + j,
        ));
    }
}

/// A bitmap that could not be decompressed, and one of any other depth, changes nothing.
pub proof fn law_unknown_bitmap_changes_nothing(
    v: ImageView,
    b: BitmapView,
    inflated: Option<InflatedView>,
    palette: ColorPalette,
)
    requires
        b.compression_flags.0 & 0x0001 == 0x0001 ==> inflated is None,
        b.compression_flags.0 & 0x0001 != 0x0001 ==> plain_writing(b.bits_per_pixel) is None,
    ensures
        bitmap_applied(v, b, inflated, palette) == (v, b.rectangle),
{
}

/// The bytes of a row of an uncompressed bitmap: each pixel takes whole bytes.
pub open spec fn plain_row(b: BitmapView) -> int {
    b.width * ((b.bits_per_pixel + 7) / 8)
}

/// The rows of an uncompressed bitmap begin at multiples of four bytes, by the width of the bitmap; what
/// stands between them is left out. A last row that is cut off in its padding is whole.
pub proof fn law_padding_is_left_out(b: BitmapView, n: nat, rest: int, k: int, j: int)
    requires
        b.data.len() == n * up_to_four(plain_row(b)) + rest,
        0 <= rest < up_to_four(plain_row(b)),
        plain_row(b) % 4 != 0,
        0 <= j < plain_row(b),
        0 <= k < n || (k == n && j < rest),
    ensures
        raw_pixels(b).len() == n * plain_row(b) + (if rest < plain_row(b) {
            rest
        } else {
            plain_row(b)
        }),
        raw_pixels(b)[k * plain_row(b) + j] == b.data[k * up_to_four(plain_row(b)) + j],
{
    let row = plain_row(b);
    let padded = up_to_four(row);
    assert(row >= 0) by (nonlinear_arith)
        requires
            row == b.width * ((b.bits_per_pixel + 7) / 8),
    ;
    assert(crate::bitmap_updates::row_bytes(b) == row);
    assert(crate::bitmap_updates::padded_to_four(row) == padded);
    lemma_unpadded_rest(b.data, row, padded, n, rest, k, j);
}

proof fn lemma_unpadded_rest(data: Seq<u8>, row: int, padded: int, n: nat, rest: int, k: int, j: int)
    requires
        0 < row <= padded,
        data.len() == n * padded + rest,
        0 <= rest < padded,
        0 <= j < row,
        0 <= k < n || (k == n && j < rest),
    ensures
        unpadded(data, row, padded).len() == n * row + (if rest < row {
            rest
        } else {
            row
        }),
        unpadded(data, row, padded)[k * row + j] == data[k * padded + j],
    decreases n,
{
    let all = unpadded(data, row, padded);
    if n > 0 {
        let m = (n - 1) as nat;
        assert(n * padded == m * padded + padded && n * row == m * row + row && m * padded >= 0 && m * row >= 0) by (
        nonlinear_arith)
            requires
                m + 1 == n,
                padded > 0,
                row > 0,
                m >= 0,
        ;
        let tail = data.skip(padded);
        assert(all == data.take(row) + unpadded(tail, row, padded));
        if k > 0 {
            let i = k - 1;
            lemma_unpadded_rest(tail, row, padded, m, rest, i, j);
            assert(k * row + j == row + (i * row + j) && i * row >= 0 && k * padded + j == padded + (i * padded + j)
                && i * padded >= 0) by (nonlinear_arith)
                requires
                    i + 1 == k,
                    0 <= i,
                    row > 0,
                    padded > 0,
            ;
            assert(i * padded + j < tail.len()) by (nonlinear_arith)
                requires
                    tail.len() == m * padded + rest,
                    0 <= i < m || (i == m && j < rest),
                    j < padded,
                    0 <= rest,
                    padded > 0,
            ;
            assert(i * row + j < unpadded(tail, row, padded).len()) by (nonlinear_arith)
                requires
                    unpadded(tail, row, padded).len() == m * row + (if rest < row {
                        rest
                    } else {
                        row
                    }),
                    0 <= i < m || (i == m && j < rest),
                    j < row,
                    0 <= rest,
                    row > 0,
            ;
        } else {
            assert(0 * row + j == j && 0 * padded + j == j) by (nonlinear_arith);
            if m > 0 || rest > 0 {
                lemma_unpadded_rest(tail, row, padded, m, rest, 0, 0);
            } else {
                assert(0 * padded == 0 && 0 * row == 0);
                assert(tail.len() == 0);
            }
        }
    } else {
        assert(0 * padded == 0 && 0 * row == 0);
        assert(0 * row + j == j && 0 * padded + j == j);
        let kept = if row <= rest {
            row
        } else {
            rest
        };
        assert(data.skip(rest).len() == 0);
        assert(all == data.take(kept) + unpadded(data.skip(rest), row, padded));
    }
}

} // verus!
