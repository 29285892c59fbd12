//! The image of the remote desktop, with the mouse pointer drawn on top of it.

use std::sync::Arc;

use vstd::arithmetic::div_mod::{lemma_div_pos_is_pos, lemma_fundamental_div_mod, lemma_mod_bound};
use vstd::prelude::*;
use vstd::slice::slice_subrange;

use crate::cursor::{signed_16, to_signed_16};
use crate::error::SessionResult;
use crate::geometry::{lemma_area_bound, InclusiveRectangle};
use crate::line::{line_painted, plot_line, Line};
use crate::palette::ColorPalette;
use crate::pixel_format::PixelFormat;
use crate::pointer::{blends, DecodedPointer, PointerView};
use crate::raster::{
    byte_index, composited, converted, copied, decoded, inverted, law_paint_rows_by_pixel,
    lemma_paint_rows_agree, lemma_paint_rows_len, paint_area, paint_rows, solid, Brush, Encoding, Paint,
};

verus! {

/// The desktop in memory.
///
/// The pointer is part of the pixels while it is drawn. What it covers is kept aside and put back
/// before the pointer moves or the pixels below it change.
#[derive(Debug)]
pub struct DecodedImage {
    pixel_format: PixelFormat,
    data: Vec<u8>,
    /// Part of the pointer image which should be drawn
    pointer_src_rect: InclusiveRectangle,
    /// X position of the pointer sprite on the screen
    pointer_draw_x: u16,
    /// Y position of the pointer sprite on the screen
    pointer_draw_y: u16,
    pointer_x: u16,
    pointer_y: u16,
    pointer: Option<Arc<DecodedPointer>>,
    /// What the pointer covers
    pointer_backbuffer: Vec<u8>,
    /// Whether to show pointer or not
    show_pointer: bool,
    /// Whether the pointer reaches into the screen
    pointer_visible_on_screen: bool,
    width: u16,
    height: u16,
}

#[verifier::ext_equal]
pub struct ImageView {
    pub format: PixelFormat,
    pub width: u16,
    pub height: u16,
    /// The pixels, row after row, four bytes each.
    pub data: Seq<u8>,
    pub pointer: Option<PointerView>,
    /// Where the hotspot of the pointer is.
    pub x: u16,
    pub y: u16,
    pub shown: bool,
    pub visible: bool,
    /// The part of the pointer bitmap that is on the screen.
    pub src: InclusiveRectangle,
    /// Where the corner of that part is.
    pub draw_x: u16,
    pub draw_y: u16,
    /// What the pointer covers; nothing before a pointer was drawn.
    pub saved: Seq<u8>,
}

pub open spec fn pointer_view(pointer: Option<Arc<DecodedPointer>>) -> Option<PointerView> {
    match pointer {
        Some(p) => Some(p@),
        None => None,
    }
}

impl View for DecodedImage {
    type V = ImageView;

    closed spec fn view(&self) -> ImageView {
        ImageView {
            format: self.pixel_format,
            width: self.width,
            height: self.height,
            data: self.data@,
            pointer: pointer_view(self.pointer),
            x: self.pointer_x,
            y: self.pointer_y,
            shown: self.show_pointer,
            visible: self.pointer_visible_on_screen,
            src: self.pointer_src_rect,
            draw_x: self.pointer_draw_x,
            draw_y: self.pointer_draw_y,
            saved: self.pointer_backbuffer@,
        }
    }
}

/// The part of a pointer that is on the screen, in one direction: its first and last pixel, and
/// where the first pixel goes. Nothing when the pointer starts in the last pixel of the screen or
/// behind it.
pub open spec fn clipped(pos: int, hotspot: int, size: int, extent: int) -> Option<(int, int, int)> {
    let first = if pos < hotspot {
        hotspot - pos
    } else {
        0
    };
    let at = if pos < hotspot {
        0
    } else {
        pos - hotspot
    };
    if pos - hotspot + size >= extent {
        if at + 1 >= extent {
            None
        } else {
            Some((first, extent - (at + 1), at))
        }
    } else {
        Some((first, size - 1, at))
    }
}

/// Whether something of the pointer is left where it is cut off, in one direction.
pub open spec fn clips(pos: int, hotspot: int, size: int, extent: int) -> bool {
    &&& extent >= 1
    &&& clipped(pos, hotspot, size, extent) matches Some((first, last, at)) ==> first <= last
}

/// Whether a pointer can be placed at a position of a screen: it does not end left of the screen
/// or above it.
pub open spec fn placeable(p: PointerView, x: u16, y: u16, width: u16, height: u16) -> bool {
    &&& clips(x as int, p.hotspot_x as int, p.width as int, width as int)
    &&& clipped(x as int, p.hotspot_x as int, p.width as int, width as int) is Some ==> clips(
        y as int,
        p.hotspot_y as int,
        p.height as int,
        height as int,
    )
}

/// Two optional areas as one.
pub open spec fn joined(
    a: Option<InclusiveRectangle>,
    b: Option<InclusiveRectangle>,
) -> Option<InclusiveRectangle> {
    match (a, b) {
        (Some(r), Some(s)) => Some(r.spanning(s)),
        (Some(r), None) => Some(r),
        (None, s) => s,
    }
}

/// `saved` with room for `size` bytes.
pub open spec fn with_room(saved: Seq<u8>, size: int) -> Seq<u8> {
    Seq::new(
        if saved.len() >= size {
            saved.len()
        } else {
            size as nat
        },
        |i: int|
            if i < saved.len() {
                saved[i]
            } else {
                0
            },
    )
}

impl ImageView {
    pub open spec fn cols(self) -> int {
        self.src.right - self.src.left + 1
    }

    pub open spec fn rows(self) -> int {
        self.src.bottom - self.src.top + 1
    }

    /// The pixel where the corner of the pointer is.
    pub open spec fn corner(self) -> int {
        self.draw_y * self.width + self.draw_x
    }

    /// The place of the pointer on the screen.
    pub open spec fn dest(self) -> InclusiveRectangle {
        InclusiveRectangle {
            left: self.draw_x,
            top: self.draw_y,
            right: (self.draw_x + self.cols() - 1) as u16,
            bottom: (self.draw_y + self.rows() - 1) as u16,
        }
    }

    /// The buffer has all the pixels, and the place of the pointer is on the screen.
    pub open spec fn sized(self) -> bool {
        &&& self.data.len() == self.width * self.height * 4
        &&& self.data.len() <= usize::MAX
        &&& self.saved.len() % 4 == 0
        &&& self.src.left <= self.src.right < 0xFFFF
        &&& self.src.top <= self.src.bottom < 0xFFFF
        &&& self.draw_x + self.cols() <= (if self.width == 0 {
            1int
        } else {
            self.width as int
        })
        &&& self.draw_y + self.rows() <= (if self.height == 0 {
            1int
        } else {
            self.height as int
        })
        &&& self.pointer matches Some(p) ==> {
            &&& p.wf()
            &&& self.visible ==> self.src.right < p.width && self.src.bottom < p.height
        }
    }

    /// What was kept aside covers the place of the pointer.
    pub open spec fn backed(self) -> bool {
        self.saved.len() == 0 || (self.data.len() > 0 && self.saved.len() >= self.cols() * self.rows() * 4)
    }

    pub open spec fn wf(self) -> bool {
        self.sized() && self.backed()
    }

    /// Whether size, format and number of bytes are those of another image.
    pub open spec fn same_shape(self, other: ImageView) -> bool {
        &&& self.width == other.width
        &&& self.height == other.height
        &&& self.format == other.format
        &&& self.data.len() == other.data.len()
    }

    /// With the pixels below the pointer put back, and the place where that happened.
    pub open spec fn erased(self) -> (ImageView, Option<InclusiveRectangle>) {
        if self.data.len() == 0 || self.pointer is None || self.saved.len() == 0 {
            (self, None)
        } else {
            (
                ImageView {
                    data: paint_rows(
                        self.data,
                        self.corner(),
                        self.width as int,
                        self.cols(),
                        self.rows() as nat,
                        copied(self.saved, 0, self.cols()),
                    ),
                    ..self
                },
                Some(self.dest()),
            )
        }
    }

    /// With the pointer drawn and the pixels below it kept aside, and the place where that happened.
    pub open spec fn drawn(self) -> (ImageView, Option<InclusiveRectangle>) {
        match self.pointer {
            Some(p) if self.visible && self.data.len() > 0 => (
                ImageView {
                    saved: paint_rows(
                        with_room(self.saved, self.cols() * self.rows() * 4),
                        0,
                        self.cols(),
                        self.cols(),
                        self.rows() as nat,
                        copied(self.data, self.corner(), self.width as int),
                    ),
                    data: paint_rows(
                        self.data,
                        self.corner(),
                        self.width as int,
                        self.cols(),
                        self.rows() as nat,
                        composited(p.bitmap, self.src.top * p.width + self.src.left, p.width as int),
                    ),
                    ..self
                },
                Some(self.dest()),
            ),
            _ => (self, None),
        }
    }

    /// With the place of the pointer found anew. A pointer that is off the screen keeps its last
    /// place.
    pub open spec fn placed(self) -> ImageView {
        match self.pointer {
            Some(p) if self.shown => {
                let horizontal = clipped(
                    self.x as int,
                    p.hotspot_x as int,
                    p.width as int,
                    self.width as int,
                );
                let vertical = clipped(
                    self.y as int,
                    p.hotspot_y as int,
                    p.height as int,
                    self.height as int,
                );
                match (horizontal, vertical) {
                    (Some((left, right, draw_x)), Some((top, bottom, draw_y))) => ImageView {
                        visible: true,
                        src: InclusiveRectangle {
                            left: left as u16,
                            top: top as u16,
                            right: right as u16,
                            bottom: bottom as u16,
                        },
                        draw_x: draw_x as u16,
                        draw_y: draw_y as u16,
                        ..self
                    },
                    _ => ImageView { visible: false, ..self },
                }
            },
            _ => self,
        }
    }

    /// With the pointer shown where it is.
    pub open spec fn pointer_shown(self) -> (ImageView, Option<InclusiveRectangle>) {
        if self.shown {
            (self, None)
        } else {
            (ImageView { shown: true, ..self }).drawn()
        }
    }

    /// With the pointer hidden.
    pub open spec fn pointer_hidden(self) -> (ImageView, Option<InclusiveRectangle>) {
        if self.shown {
            (ImageView { shown: false, ..self }).erased()
        } else {
            (self, None)
        }
    }

    /// With the pointer moved. A hidden pointer only takes note of the position.
    pub open spec fn pointer_moved(self, x: u16, y: u16) -> (ImageView, Option<InclusiveRectangle>) {
        let there = ImageView { x, y, ..self };
        if self.pointer is Some && self.shown {
            let (bare, old_place) = there.erased();
            let (v, new_place) = bare.placed().drawn();
            (v, joined(old_place, new_place))
        } else {
            (there, None)
        }
    }

    /// With another pointer, which is shown.
    pub open spec fn pointer_replaced(self, p: PointerView) -> (ImageView, Option<InclusiveRectangle>) {
        let (bare, old_place) = (ImageView { shown: true, ..self }).erased();
        let (v, new_place) = (ImageView { pointer: Some(p), ..bare }).placed().drawn();
        (v, joined(old_place, new_place))
    }

    /// Whether the pointer has to be taken away while an area changes.
    pub open spec fn covers(self, area: InclusiveRectangle) -> bool {
        area.common(self.dest()) is Some && self.shown && self.pointer is Some
    }

    /// With pixels of an area changed below the pointer, and the area that changed in all.
    pub open spec fn changed(
        self,
        area: InclusiveRectangle,
        change: spec_fn(Seq<u8>) -> Seq<u8>,
    ) -> (ImageView, InclusiveRectangle) {
        let (bare, place) = if self.covers(area) {
            self.erased()
        } else {
            (self, None)
        };
        let v = ImageView { data: change(bare.data), ..bare };
        match place {
            Some(r) => {
                let (covered, again) = v.drawn();
                (
                    covered,
                    match again {
                        Some(s) => s.spanning(r.spanning(area)),
                        None => r.spanning(area),
                    },
                )
            },
            None => (v, area),
        }
    }

    /// With an area painted, the first pixel of which is `(left, top)`.
    pub open spec fn painted(
        self,
        area: InclusiveRectangle,
        left: int,
        top: int,
        count: int,
        rows: nat,
        brush: Brush,
    ) -> (ImageView, InclusiveRectangle) {
        self.changed(
            area,
            |d: Seq<u8>| paint_rows(d, top * self.width + left, self.width as int, count, rows, brush),
        )
    }

    /// With a rectangle in one colour.
    pub open spec fn filled(self, rect: InclusiveRectangle, color: Seq<u8>) -> (ImageView, InclusiveRectangle) {
        self.painted(
            rect,
            rect.left as int,
            rect.top as int,
            rect.columns(),
            rect.rows() as nat,
            solid(color),
        )
    }

    /// With a rectangle inverted.
    pub open spec fn flipped(self, rect: InclusiveRectangle) -> (ImageView, InclusiveRectangle) {
        self.painted(
            rect,
            rect.left as int,
            rect.top as int,
            rect.columns(),
            rect.rows() as nat,
            inverted(),
        )
    }

    /// Whether a rectangle lies in the image.
    pub open spec fn fits(self, rect: InclusiveRectangle) -> bool {
        rect.right < self.width && rect.bottom < self.height
    }

    /// Number of whole rows of a rectangle in a bitmap of `len` bytes.
    pub open spec fn row_count(rect: InclusiveRectangle, len: nat, size: int) -> int {
        len as int / (rect.columns() * size)
    }

    /// Whether the edges of a rectangle are in order and the image has a pixel for each pixel in the
    /// whole rows of a bitmap.
    pub open spec fn has_room(self, rect: InclusiveRectangle, len: nat, size: int) -> bool {
        let rows = Self::row_count(rect, len, size);
        &&& rect.left <= rect.right
        &&& rect.columns() > 0
        &&& rows == 0 || (rect.top + rows - 1) * self.width + rect.left + rect.columns() <= self.width
            * self.height
    }

    /// With the whole rows of a bitmap painted from the top of a rectangle on.
    pub open spec fn bitmapped(
        self,
        bytes: Seq<u8>,
        encoding: Encoding<'_>,
        rect: InclusiveRectangle,
        bottom_up: bool,
    ) -> (ImageView, InclusiveRectangle) {
        let rows = Self::row_count(rect, bytes.len(), encoding.size());
        self.painted(
            rect,
            rect.left as int,
            rect.top as int,
            rect.columns(),
            rows as nat,
            decoded(bytes, encoding, rect.columns(), rows, bottom_up, self.format),
        )
    }

    /// The same where the rectangle lies in the image; nothing happens otherwise.
    pub open spec fn bitmapped_inside(
        self,
        bytes: Seq<u8>,
        encoding: Encoding<'_>,
        rect: InclusiveRectangle,
        bottom_up: bool,
    ) -> (ImageView, InclusiveRectangle) {
        if self.fits(rect) {
            self.bitmapped(bytes, encoding, rect, bottom_up)
        } else {
            (self, InclusiveRectangle::origin())
        }
    }

    /// What has to hold of a bitmap for a rectangle that lies in the image.
    pub open spec fn has_room_inside(self, rect: InclusiveRectangle, len: nat, size: int) -> bool {
        self.fits(rect) ==> self.has_room(rect, len, size)
    }

    /// How much can be copied in one direction: `wanted`, cut off at the edge of the image.
    pub open spec fn copy_size(wanted: int, from: int, to: int, extent: int) -> int {
        let a = if from < extent {
            extent - from
        } else {
            0
        };
        let b = if to < extent {
            extent - to
        } else {
            0
        };
        if wanted <= a && wanted <= b {
            wanted
        } else if a <= b {
            a
        } else {
            b
        }
    }

    /// With a rectangle copied from elsewhere in the image.
    pub open spec fn copied_from(
        self,
        src_x: i16,
        src_y: i16,
        rect: InclusiveRectangle,
    ) -> (ImageView, InclusiveRectangle) {
        let x = if src_x < 0 {
            0
        } else {
            src_x as int
        };
        let y = if src_y < 0 {
            0
        } else {
            src_y as int
        };
        let count = Self::copy_size(rect.columns(), x, rect.left as int, self.width as int);
        let rows = Self::copy_size(rect.rows(), y, rect.top as int, self.height as int);
        if count == 0 || rows == 0 {
            (self, rect)
        } else {
            self.changed(
                rect,
                |d: Seq<u8>|
                    paint_rows(
                        d,
                        rect.top * self.width + rect.left,
                        self.width as int,
                        count,
                        rows as nat,
                        copied(d, y * self.width + x, self.width as int),
                    ),
            )
        }
    }

    /// The rectangle around a line, cut off at the edges of the image. The size of the image is read
    /// as a signed number.
    pub open spec fn line_area(self, x0: i16, y0: i16, x1: i16, y1: i16) -> InclusiveRectangle {
        InclusiveRectangle {
            left: at_least_zero(smaller_i16(x0, x1)),
            top: at_least_zero(smaller_i16(y0, y1)),
            right: at_least_zero(smaller_i16(larger_i16(x0, x1), signed_16(self.width).wrapping_sub(1))),
            bottom: at_least_zero(smaller_i16(larger_i16(y0, y1), signed_16(self.height).wrapping_sub(1))),
        }
    }

    /// With a line.
    pub open spec fn lined(
        self,
        x0: i16,
        y0: i16,
        x1: i16,
        y1: i16,
        color: Seq<u8>,
    ) -> (ImageView, InclusiveRectangle) {
        let line = Line { x0: x0 as int, y0: y0 as int, x1: x1 as int, y1: y1 as int };
        self.changed(
            self.line_area(x0, y0, x1, y1),
            |d: Seq<u8>| line_painted(d, self.width as int, line, color),
        )
    }

    /// `data` after the first `n` of some rectangles took the pixels of a tile, whose corner is at the
    /// corner of `place`. A tile has 64 pixels per row.
    pub open spec fn tile_parts(
        self,
        data: Seq<u8>,
        tile: Seq<u8>,
        format: PixelFormat,
        parts: Seq<InclusiveRectangle>,
        place: InclusiveRectangle,
        n: nat,
    ) -> Seq<u8>
        decreases n,
    {
        if n == 0 {
            data
        } else {
            let part = parts[n - 1];
            paint_rows(
                self.tile_parts(data, tile, format, parts, place, (n - 1) as nat),
                part.top * self.width + part.left,
                self.width as int,
                part.columns(),
                part.rows() as nat,
                converted(
                    tile,
                    if format.offsets() == self.format.offsets() {
                        Encoding::Raw32
                    } else {
                        Encoding::Color32(format)
                    },
                    (part.top - place.top) * 64 + (part.left - place.left),
                    64,
                    self.format,
                ),
            )
        }
    }

    /// Whether a rectangle lies in the image and in a tile of `len` bytes at `place`.
    pub open spec fn has_part(self, part: InclusiveRectangle, place: InclusiveRectangle, len: nat) -> bool {
        &&& self.fits(part)
        &&& place.left <= part.left <= part.right
        &&& place.top <= part.top <= part.bottom
        &&& ((part.bottom - place.top) * 64 + (part.right - place.left) + 1) * 4 <= len
    }

    /// With some rectangles of a tile; nothing happens where `extents` reaches out of the image.
    pub open spec fn tiled(
        self,
        tile: Seq<u8>,
        format: PixelFormat,
        extents: InclusiveRectangle,
        parts: Seq<InclusiveRectangle>,
        place: InclusiveRectangle,
    ) -> (ImageView, InclusiveRectangle) {
        if self.fits(extents) {
            self.changed(
                extents,
                |d: Seq<u8>| self.tile_parts(d, tile, format, parts, place, parts.len()),
            )
        } else {
            (self, InclusiveRectangle::origin())
        }
    }
}

/// Putting back what the pointer covers keeps the shape of the image.
pub proof fn lemma_erased_shape(v: ImageView)
    ensures
        v.erased().0.same_shape(v),
{
    lemma_paint_rows_len(
        v.data,
        v.corner(),
        v.width as int,
        v.cols(),
        v.rows() as nat,
        copied(v.saved, 0, v.cols()),
    );
}

/// Drawing the pointer keeps the shape of the image.
pub proof fn lemma_drawn_shape(v: ImageView)
    ensures
        v.drawn().0.same_shape(v),
{
    match v.pointer {
        Some(p) => lemma_paint_rows_len(
            v.data,
            v.corner(),
            v.width as int,
            v.cols(),
            v.rows() as nat,
            composited(p.bitmap, v.src.top * p.width + v.src.left, p.width as int),
        ),
        None => {},
    }
}

/// Showing and hiding the pointer keep the shape of the image.
pub proof fn lemma_pointer_shape(v: ImageView)
    ensures
        v.pointer_shown().0.same_shape(v),
        v.pointer_hidden().0.same_shape(v),
{
    lemma_drawn_shape(ImageView { shown: true, ..v });
    lemma_erased_shape(ImageView { shown: false, ..v });
}

/// Moving the pointer keeps the shape of the image.
pub proof fn lemma_moved_shape(v: ImageView, x: u16, y: u16)
    ensures
        v.pointer_moved(x, y).0.same_shape(v),
{
    let there = ImageView { x, y, ..v };
    lemma_erased_shape(there);
    lemma_drawn_shape(there.erased().0.placed());
}

/// Replacing the pointer keeps the shape of the image.
pub proof fn lemma_replaced_shape(v: ImageView, p: PointerView)
    ensures
        v.pointer_replaced(p).0.same_shape(v),
{
    let shown = ImageView { shown: true, ..v };
    lemma_erased_shape(shown);
    lemma_drawn_shape((ImageView { pointer: Some(p), ..shown.erased().0 }).placed());
}

/// A change that keeps the number of bytes keeps the shape of the image.
pub proof fn lemma_changed_shape(v: ImageView, area: InclusiveRectangle, change: spec_fn(Seq<u8>) -> Seq<u8>)
    requires
        forall|d: Seq<u8>| (#[trigger] change(d)).len() == d.len(),
    ensures
        v.changed(area, change).0.same_shape(v),
{
    lemma_erased_shape(v);
    let bare = if v.covers(area) {
        v.erased().0
    } else {
        v
    };
    assert(change(bare.data).len() == bare.data.len());
    lemma_drawn_shape(ImageView { data: change(bare.data), ..bare });
}

/// Painting an area keeps the shape of the image.
pub proof fn lemma_painted_shape(
    v: ImageView,
    area: InclusiveRectangle,
    left: int,
    top: int,
    count: int,
    rows: nat,
    brush: Brush,
)
    ensures
        v.painted(area, left, top, count, rows, brush).0.same_shape(v),
{
    let change = |d: Seq<u8>| paint_rows(d, top * v.width + left, v.width as int, count, rows, brush);
    assert forall|d: Seq<u8>| (#[trigger] change(d)).len() == d.len() by {
        lemma_paint_rows_len(d, top * v.width + left, v.width as int, count, rows, brush);
    }
    lemma_changed_shape(v, area, change);
}

/// Filling and inverting keep the shape of the image.
pub proof fn lemma_filled_shape(v: ImageView, rect: InclusiveRectangle, color: Seq<u8>)
    ensures
        v.filled(rect, color).0.same_shape(v),
        v.flipped(rect).0.same_shape(v),
{
    let (left, top) = (rect.left as int, rect.top as int);
    lemma_painted_shape(v, rect, left, top, rect.columns(), rect.rows() as nat, solid(color));
    lemma_painted_shape(v, rect, left, top, rect.columns(), rect.rows() as nat, inverted());
}

/// A bitmap keeps the shape of the image.
pub proof fn lemma_bitmapped_shape(
    v: ImageView,
    bytes: Seq<u8>,
    encoding: Encoding<'_>,
    rect: InclusiveRectangle,
    bottom_up: bool,
)
    ensures
        v.bitmapped(bytes, encoding, rect, bottom_up).0.same_shape(v),
        v.bitmapped_inside(bytes, encoding, rect, bottom_up).0.same_shape(v),
{
    let rows = ImageView::row_count(rect, bytes.len(), encoding.size());
    lemma_painted_shape(
        v,
        rect,
        rect.left as int,
        rect.top as int,
        rect.columns(),
        rows as nat,
        decoded(bytes, encoding, rect.columns(), rows, bottom_up, v.format),
    );
}

/// Copying keeps the shape of the image.
pub proof fn lemma_copied_shape(v: ImageView, src_x: i16, src_y: i16, rect: InclusiveRectangle)
    ensures
        v.copied_from(src_x, src_y, rect).0.same_shape(v),
{
    let x = if src_x < 0 {
        0
    } else {
        src_x as int
    };
    let y = if src_y < 0 {
        0
    } else {
        src_y as int
    };
    let w = v.width as int;
    let count = ImageView::copy_size(rect.columns(), x, rect.left as int, w);
    let rows = ImageView::copy_size(rect.rows(), y, rect.top as int, v.height as int);
    let first = rect.top * v.width + rect.left;
    let change = |d: Seq<u8>| paint_rows(d, first, w, count, rows as nat, copied(d, y * v.width + x, w));
    assert forall|d: Seq<u8>| (#[trigger] change(d)).len() == d.len() by {
        lemma_paint_rows_len(d, first, w, count, rows as nat, copied(d, y * v.width + x, w));
    }
    lemma_changed_shape(v, rect, change);
    assert(v.changed(rect, change).0.same_shape(v));
}

/// A line keeps the shape of the image.
pub proof fn lemma_lined_shape(v: ImageView, x0: i16, y0: i16, x1: i16, y1: i16, color: Seq<u8>)
    ensures
        v.lined(x0, y0, x1, y1, color).0.same_shape(v),
{
    let line = Line { x0: x0 as int, y0: y0 as int, x1: x1 as int, y1: y1 as int };
    lemma_changed_shape(
        v,
        v.line_area(x0, y0, x1, y1),
        |d: Seq<u8>| line_painted(d, v.width as int, line, color),
    );
}

proof fn lemma_tile_parts_len(
    v: ImageView,
    data: Seq<u8>,
    tile: Seq<u8>,
    format: PixelFormat,
    parts: Seq<InclusiveRectangle>,
    place: InclusiveRectangle,
    n: nat,
)
    ensures
        v.tile_parts(data, tile, format, parts, place, n).len() == data.len(),
    decreases n,
{
    if n > 0 {
        let part = parts[n - 1];
        lemma_tile_parts_len(v, data, tile, format, parts, place, (n - 1) as nat);
        lemma_paint_rows_len(
            v.tile_parts(data, tile, format, parts, place, (n - 1) as nat),
            part.top * v.width + part.left,
            v.width as int,
            part.columns(),
            part.rows() as nat,
            converted(
                tile,
                if format.offsets() == v.format.offsets() {
                    Encoding::Raw32
                } else {
                    Encoding::Color32(format)
                },
                (part.top - place.top) * 64 + (part.left - place.left),
                64,
                v.format,
            ),
        );
    }
}

/// A tile keeps the shape of the image.
pub proof fn lemma_tiled_shape(
    v: ImageView,
    tile: Seq<u8>,
    format: PixelFormat,
    extents: InclusiveRectangle,
    parts: Seq<InclusiveRectangle>,
    place: InclusiveRectangle,
)
    ensures
        v.tiled(tile, format, extents, parts, place).0.same_shape(v),
{
    let change = |d: Seq<u8>| v.tile_parts(d, tile, format, parts, place, parts.len());
    assert forall|d: Seq<u8>| (#[trigger] change(d)).len() == d.len() by {
        lemma_tile_parts_len(v, d, tile, format, parts, place, parts.len());
    }
    lemma_changed_shape(v, extents, change);
}

pub open spec fn smaller_i16(a: i16, b: i16) -> i16 {
    if a <= b {
        a
    } else {
        b
    }
}

pub open spec fn larger_i16(a: i16, b: i16) -> i16 {
    if a <= b {
        b
    } else {
        a
    }
}

pub open spec fn at_least_zero(a: i16) -> u16 {
    if a < 0 {
        0
    } else {
        a as u16
    }
}

#[derive(Debug, Clone, Copy, PartialEq, Eq, Structural)]
enum PointerLayer {
    Background,
    Pointer,
}

#[derive(Debug, Clone, Copy)]
struct PointerRenderingState {
    redraw: bool,
    update_rectangle: InclusiveRectangle,
}

/// The last row and column of an area that fits into a larger one.
proof fn lemma_inside(x: int, y: int, cols: int, rows: int, width: int, height: int)
    requires
        0 <= x,
        0 <= y,
        0 <= cols,
        0 <= rows,
        x + cols <= width,
        y + rows <= height,
    ensures
        forall|r: int, c: int|
            0 <= r < rows && 0 <= c < cols ==> {
                &&& 0 <= #[trigger] (y * width + x + r * width + c)
                &&& (y * width + x + r * width + c) * 4 + 4 <= width * height * 4
            },
{
    assert forall|r: int, c: int| 0 <= r < rows && 0 <= c < cols implies {
        &&& 0 <= #[trigger] (y * width + x + r * width + c)
        &&& (y * width + x + r * width + c) * 4 + 4 <= width * height * 4
    } by {
        assert(y * width + r * width == (y + r) * width) by (nonlinear_arith);
        assert(0 <= (y + r) * width && (y + r) * width + width <= width * height) by (nonlinear_arith)
            requires
                0 <= y + r,
                y + r + 1 <= height,
                0 <= width,
        ;
    }
}

/// The place of the pointer lies on the screen, in numbers.
proof fn lemma_pointer_place(v: ImageView)
    requires
        v.sized(),
        v.data.len() > 0,
    ensures
        v.width > 0,
        v.height > 0,
        0 <= v.cols() * v.rows() <= 0xFFFF * 0xFFFF,
        v.cols() * v.rows() * 4 <= v.data.len(),
        0 <= v.draw_y * v.width <= 0xFFFF * 0xFFFF,
{
    assert(v.width > 0 && v.height > 0) by (nonlinear_arith)
        requires
            v.width * v.height > 0,
            v.width >= 0,
            v.height >= 0,
    ;
    let cols = v.cols();
    let rows = v.rows();
    assert(0 <= cols * rows <= 0xFFFF * 0xFFFF && cols * rows <= v.width * v.height) by (nonlinear_arith)
        requires
            0 <= cols <= v.width,
            0 <= rows <= v.height,
            v.width <= 0xFFFF,
            v.height <= 0xFFFF,
    ;
    lemma_area_bound(v.draw_y, v.width);
}

/// What was kept aside has a pixel for every pixel below the pointer.
proof fn lemma_saved_covers(v: ImageView)
    requires
        v.wf(),
        v.saved.len() > 0,
    ensures
        forall|r: int, c: int|
            0 <= r < v.rows() && 0 <= c < v.cols() ==> {
                &&& 0 <= #[trigger] (0 + r * v.cols() + c)
                &&& (0 + r * v.cols() + c) * 4 + 4 <= v.saved.len()
            },
{
    lemma_inside(0, 0, v.cols(), v.rows(), v.cols(), v.rows());
    assert forall|r: int, c: int| 0 <= r < v.rows() && 0 <= c < v.cols() implies {
        &&& 0 <= #[trigger] (0 + r * v.cols() + c)
        &&& (0 + r * v.cols() + c) * 4 + 4 <= v.saved.len()
    } by {
        assert(0 <= 0 * v.cols() + 0 + r * v.cols() + c);
    }
}

/// The screen has a pixel below every pixel of the pointer.
proof fn lemma_screen_covers(v: ImageView)
    requires
        v.sized(),
        v.data.len() > 0,
    ensures
        forall|r: int, c: int|
            0 <= r < v.rows() && 0 <= c < v.cols() ==> {
                &&& 0 <= #[trigger] (v.corner() + r * v.width + c)
                &&& (v.corner() + r * v.width + c) * 4 + 4 <= v.data.len()
            },
{
    lemma_pointer_place(v);
    lemma_inside(
        v.draw_x as int,
        v.draw_y as int,
        v.cols(),
        v.rows(),
        v.width as int,
        v.height as int,
    );
}

/// The part of the pointer bitmap on the screen lies in the bitmap, and its pixels blend.
proof fn lemma_bitmap_covers(v: ImageView)
    requires
        v.sized(),
        v.visible,
        v.pointer is Some,
    ensures
        ({
            let p = v.pointer->Some_0;
            let first = v.src.top * p.width + v.src.left;
            &&& 0 <= first <= 0x1_0000_0000
            &&& forall|r: int, c: int|
                #![trigger first + r * p.width + c]
                0 <= r < v.rows() && 0 <= c < v.cols() ==> {
                    let at = (first + r * p.width + c) * 4;
                    &&& 0 <= at && at + 4 <= p.bitmap.len()
                    &&& p.bitmap[at + 3] != 0 ==> {
                        &&& blends(p.bitmap[at], p.bitmap[at + 3])
                        &&& blends(p.bitmap[at + 1], p.bitmap[at + 3])
                        &&& blends(p.bitmap[at + 2], p.bitmap[at + 3])
                    }
                }
        }),
{
    let p = v.pointer->Some_0;
    let first = v.src.top * p.width + v.src.left;
    lemma_area_bound(v.src.top, p.width);
    lemma_inside(
        v.src.left as int,
        v.src.top as int,
        v.cols(),
        v.rows(),
        p.width as int,
        p.height as int,
    );
    assert forall|r: int, c: int|
        #![trigger first + r * p.width + c]
        0 <= r < v.rows() && 0 <= c < v.cols() implies {
        let at = (first + r * p.width + c) * 4;
        &&& 0 <= at && at + 4 <= p.bitmap.len()
        &&& p.bitmap[at + 3] != 0 ==> {
            &&& blends(p.bitmap[at], p.bitmap[at + 3])
            &&& blends(p.bitmap[at + 1], p.bitmap[at + 3])
            &&& blends(p.bitmap[at + 2], p.bitmap[at + 3])
        }
    } by {
        let q = first + r * p.width + c;
        assert(q == v.src.top * p.width + v.src.left + r * p.width + c);
        assert(p.bitmap[4 * q + 3] == p.bitmap[q * 4 + 3]);
    }
}

/// Cuts a pointer off at the edges of the screen, in one direction.
fn clip(pos: u16, hotspot: u16, size: u16, extent: u16) -> (r: Option<(u16, u16, u16)>)
    requires
        clips(pos as int, hotspot as int, size as int, extent as int),
    ensures
        match clipped(pos as int, hotspot as int, size as int, extent as int) {
            None => r is None,
            Some((first, last, at)) => {
                &&& r == Some((first as u16, last as u16, at as u16))
                &&& 0 <= first <= last < size
                &&& 0 <= at
                &&& at + (last - first + 1) <= extent
            },
        },
{
    let first: u16 = if pos < hotspot {
        hotspot - pos
    } else {
        0
    };
    let at: u16 = if pos < hotspot {
        0
    } else {
        pos - hotspot
    };
    if pos as i32 - hotspot as i32 + size as i32 >= extent as i32 {
        if at >= extent - 1 {
            None
        } else {
            Some((first, extent - (at + 1), at))
        }
    } else {
        Some((first, size - 1, at))
    }
}

/// Whether something of a pointer is left where it is cut off, in one direction, and whether it is on
/// the screen.
fn check_clip(pos: u16, hotspot: u16, size: u16, extent: u16) -> (r: (bool, bool))
    ensures
        r.0 == clips(pos as int, hotspot as int, size as int, extent as int),
        r.1 == (clipped(pos as int, hotspot as int, size as int, extent as int) is Some),
{
    let first: i32 = if pos < hotspot {
        hotspot as i32 - pos as i32
    } else {
        0
    };
    let at: i32 = if pos < hotspot {
        0
    } else {
        pos as i32 - hotspot as i32
    };
    if pos as i32 - hotspot as i32 + size as i32 >= extent as i32 {
        if at + 1 >= extent as i32 {
            (extent >= 1, false)
        } else {
            (extent >= 1 && first <= extent as i32 - (at + 1), true)
        }
    } else {
        (extent >= 1 && first <= size as i32 - 1, true)
    }
}

fn can_place(pointer: &DecodedPointer, x: u16, y: u16, width: u16, height: u16) -> (r: bool)
    ensures
        r == placeable(pointer@, x, y, width, height),
{
    let (ok, on_screen): (bool, bool) = check_clip(x, pointer.hotspot_x, pointer.width, width);
    if !ok {
        return false;
    }
    if !on_screen {
        return true;
    }
    check_clip(y, pointer.hotspot_y, pointer.height, height).0
}

/// Two optional areas as one.
fn join(a: Option<InclusiveRectangle>, b: Option<InclusiveRectangle>) -> (r: Option<InclusiveRectangle>)
    ensures
        r == joined(a, b),
{
    match (a, b) {
        (None, None) => None,
        (None, Some(rect)) => Some(rect),
        (Some(rect), None) => Some(rect),
        (Some(x), Some(y)) => Some(x.union(&y)),
    }
}

/// The whole rows of a bitmap are in the bitmap.
proof fn lemma_whole_rows(len: int, width: int, size: int)
    requires
        0 <= len,
        1 <= width,
        1 <= size,
    ensures
        0 <= len / (width * size),
        len / (width * size) * width * size <= len,
{
    assert(width * size >= 1) by (nonlinear_arith)
        requires
            1 <= width,
            1 <= size,
    ;
    lemma_fundamental_div_mod(len, width * size);
    lemma_mod_bound(len, width * size);
    lemma_div_pos_is_pos(len, width * size);
    let n = len / (width * size);
    assert(n * width * size == width * size * n) by (nonlinear_arith);
}

/// A bitmap whose pixels are in the image has no more rows than the image.
proof fn lemma_rows_bound(rect: InclusiveRectangle, rows: int, width: int, height: int)
    requires
        0 <= rows,
        0 <= width <= 0xFFFF,
        0 <= height <= 0xFFFF,
        1 <= rect.columns(),
        rows == 0 || (rect.top + rows - 1) * width + rect.left + rect.columns() <= width * height,
    ensures
        rows <= 0xFFFF,
{
    if rows > 0 {
        let last = rect.top + rows - 1;
        assert(last < height) by (nonlinear_arith)
            requires
                last * width + 1 <= width * height,
                0 <= width,
        ;
    }
}

/// A copy of an area in a buffer of its own holds the pixels of the area.
proof fn lemma_buffered_copy(data: Seq<u8>, blank: Seq<u8>, from: int, stride: int, count: int, rows: nat)
    requires
        0 < count,
        blank.len() == count * rows * 4,
    ensures
        ({
            let buffer = paint_rows(blank, 0, count, count, rows, copied(data, from, stride));
            forall|row: int, column: int, channel: int, old: u8|
                0 <= row < rows && 0 <= column < count && 0 <= channel < 4 ==> #[trigger] copied(buffer, 0, count)(
                    row,
                    column,
                    channel,
                    old,
                ) == copied(data, from, stride)(row, column, channel, old)
        }),
{
    let brush = copied(data, from, stride);
    let buffer = paint_rows(blank, 0, count, count, rows, brush);
    assert forall|row: int, column: int, channel: int, old: u8|
        0 <= row < rows && 0 <= column < count && 0 <= channel < 4 implies #[trigger] copied(buffer, 0, count)(
        row,
        column,
        channel,
        old,
    ) == brush(row, column, channel, old) by {
        let at = byte_index(count, column, row, channel);
        assert(0 <= row * count && row * count + count <= count * rows) by (nonlinear_arith)
            requires
                0 <= row,
                row + 1 <= rows,
                0 < count,
        ;
        assert(0 * count == 0);
        law_paint_rows_by_pixel(blank, 0, 0, count, count, rows, brush, column, row, channel);
        assert(at == (0 + row * count + column) * 4 + channel);
        assert(buffer[at] == brush(row, column, channel, blank[at]));
    }
}

/// How much can be copied in one direction.
fn limit_copy(wanted: u16, from: u16, to: u16, extent: u16) -> (r: u16)
    ensures
        r == ImageView::copy_size(wanted as int, from as int, to as int, extent as int),
        r > 0 ==> from + r <= extent && to + r <= extent,
        r <= extent,
{
    let a: u16 = if from < extent {
        extent - from
    } else {
        0
    };
    let b: u16 = if to < extent {
        extent - to
    } else {
        0
    };
    if wanted <= a && wanted <= b {
        wanted
    } else if a <= b {
        a
    } else {
        b
    }
}

fn min_i16(a: i16, b: i16) -> (r: i16)
    ensures
        r == smaller_i16(a, b),
{
    if a <= b {
        a
    } else {
        b
    }
}

fn max_i16(a: i16, b: i16) -> (r: i16)
    ensures
        r == larger_i16(a, b),
{
    if a <= b {
        b
    } else {
        a
    }
}

fn clamp_low(a: i16) -> (r: u16)
    ensures
        r == at_least_zero(a),
{
    if a < 0 {
        0
    } else {
        a as u16
    }
}

/// Makes the buffer at least `size` bytes long.
fn make_room(buffer: &mut Vec<u8>, size: usize)
    ensures
        final(buffer)@ == with_room(old(buffer)@, size as int),
{
    if buffer.len() < size {
        buffer.resize(size, 0);
    }
    assert(buffer@ =~= with_room(old(buffer)@, size as int));
}

impl DecodedImage {
    /// A black and fully transparent image.
    pub fn new(pixel_format: PixelFormat, width: u16, height: u16) -> (r: Self)
        requires
            width * height * 4 <= usize::MAX,
        ensures
            r@.wf(),
            r@ == (ImageView {
                format: pixel_format,
                width,
                height,
                data: Seq::new((width * height * 4) as nat, |i: int| 0u8),
                pointer: None,
                x: 0,
                y: 0,
                shown: false,
                visible: true,
                src: InclusiveRectangle::origin(),
                draw_x: 0,
                draw_y: 0,
                saved: Seq::empty(),
            }),
    {
        proof {
            lemma_area_bound(width, height);
        }
        let len: usize = (width as u64 * height as u64 * 4) as usize;
        let data: Vec<u8> = vec![0; len];
        let r: DecodedImage = DecodedImage {
            pixel_format,
            data,
            width,
            height,
            pointer_src_rect: InclusiveRectangle { left: 0, top: 0, right: 0, bottom: 0 },
            pointer_x: 0,
            pointer_y: 0,
            pointer_draw_x: 0,
            pointer_draw_y: 0,
            pointer_backbuffer: Vec::new(),
            pointer: None,
            show_pointer: false,
            pointer_visible_on_screen: true,
        };
        assert(r@.data =~= Seq::new((width * height * 4) as nat, |i: int| 0u8));
        r
    }

    pub fn pixel_format(&self) -> (r: PixelFormat)
        ensures
            r == self@.format,
    {
        self.pixel_format
    }

    pub fn data(&self) -> (r: &[u8])
        ensures
            r@ == self@.data,
    {
        self.data.as_slice()
    }

    pub fn width(&self) -> (r: u16)
        ensures
            r == self@.width,
    {
        self.width
    }

    pub fn height(&self) -> (r: u16)
        ensures
            r == self@.height,
    {
        self.height
    }

    pub fn bytes_per_pixel(&self) -> (r: usize)
        ensures
            r == 4,
    {
        self.pixel_format.bytes_per_pixel() as usize
    }

    /// Bytes per row.
    pub fn stride(&self) -> (r: usize)
        ensures
            r == self@.width * 4,
            self@.wf() ==> self@.data.len() == r * self@.height,
    {
        proof {
            let (w, h) = (self@.width as int, self@.height as int);
            assert(w * h * 4 == w * 4 * h) by (nonlinear_arith);
        }
        self.width as usize * self.bytes_per_pixel()
    }

    /// Returns `true` if the rectangle fits entirely within the image bounds.
    pub fn rect_fits(&self, rect: &InclusiveRectangle) -> (r: bool)
        ensures
            r == (rect.right < self@.width && rect.bottom < self@.height),
    {
        rect.right < self.width && rect.bottom < self.height
    }

    /// Restores what the pointer covers, or draws the pointer. Gives back the place that changed.
    fn apply_pointer_layer(&mut self, layer: PointerLayer) -> (r: SessionResult<Option<InclusiveRectangle>>)
        requires
            old(self)@.sized(),
            layer is Background ==> old(self)@.backed(),
        ensures
            final(self)@.sized(),
            layer is Background ==> final(self)@.backed() && r is Ok && (final(self)@, r->Ok_0)
                == old(self)@.erased(),
            layer is Pointer ==> r is Ok && (final(self)@, r->Ok_0) == old(self)@.drawn(),
            layer is Pointer && (old(self)@.backed() || r->Ok_0 is Some) ==> final(self)@.backed(),
    {
        match layer {
            PointerLayer::Pointer => if !self.pointer_visible_on_screen {
                return Ok(None);
            },
            PointerLayer::Background => {},
        }
        if self.data.len() == 0 {
            return Ok(None);
        }
        let cols: u16 = self.pointer_src_rect.right - self.pointer_src_rect.left + 1;
        let rows: u16 = self.pointer_src_rect.bottom - self.pointer_src_rect.top + 1;
        proof {
            lemma_pointer_place(self@);
        }
        let dest_rect: InclusiveRectangle = InclusiveRectangle {
            left: self.pointer_draw_x,
            top: self.pointer_draw_y,
            right: self.pointer_draw_x + (cols - 1),
            bottom: self.pointer_draw_y + (rows - 1),
        };
        let corner: u64 = self.pointer_draw_y as u64 * self.width as u64 + self.pointer_draw_x as u64;
        let stride: u64 = self.width as u64;
        match &self.pointer {
            None => Ok(None),
            Some(pointer) => {
                match layer {
                    PointerLayer::Background => {
                        if self.pointer_backbuffer.len() == 0 {
                            return Ok(None);
                        }
                        let paint: Paint<'_> = Paint::Copied {
                            from: self.pointer_backbuffer.as_slice(),
                            first: 0,
                            stride: cols as u64,
                        };
                        proof {
                            lemma_saved_covers(self@);
                            lemma_paint_rows_len(
                                self.data@,
                                corner as int,
                                stride as int,
                                cols as int,
                                rows as nat,
                                paint.brush(),
                            );
                        }
                        paint_area(&mut self.data, corner, stride, cols as u64, rows as u64, paint);
                    },
                    PointerLayer::Pointer => {
                        let size: usize = cols as usize * rows as usize * 4;
                        proof {
                            lemma_screen_covers(self@);
                            lemma_bitmap_covers(self@);
                        }
                        make_room(&mut self.pointer_backbuffer, size);
                        let background: Paint<'_> = Paint::Copied {
                            from: self.data.as_slice(),
                            first: corner,
                            stride,
                        };
                        let from_stride: u64 = pointer.width as u64;
                        let from_first: u64 = self.pointer_src_rect.top as u64 * from_stride
                            + self.pointer_src_rect.left as u64;
                        let paint: Paint<'_> = Paint::Composited {
                            from: pointer.bitmap_data.as_slice(),
                            first: from_first,
                            stride: from_stride,
                        };
                        proof {
                            lemma_paint_rows_len(
                                with_room(old(self)@.saved, size as int),
                                0,
                                cols as int,
                                cols as int,
                                rows as nat,
                                background.brush(),
                            );
                            lemma_paint_rows_len(
                                self.data@,
                                corner as int,
                                stride as int,
                                cols as int,
                                rows as nat,
                                paint.brush(),
                            );
                        }
                        paint_area(&mut self.pointer_backbuffer, 0, cols as u64, cols as u64, rows as u64, background);
                        paint_area(&mut self.data, corner, stride, cols as u64, rows as u64, paint);
                    },
                }
                Ok(Some(dest_rect))
            },
        }
    }

    /// Shows the pointer where it is.
    pub fn show_pointer(&mut self) -> (r: SessionResult<Option<InclusiveRectangle>>)
        requires
            old(self)@.wf(),
        ensures
            final(self)@.wf(),
            final(self)@.same_shape(old(self)@),
            r is Ok,
            (final(self)@, r->Ok_0) == old(self)@.pointer_shown(),
    {
        proof {
            lemma_pointer_shape(self@);
        }
        if !self.show_pointer {
            self.show_pointer = true;
            self.apply_pointer_layer(PointerLayer::Pointer)
        } else {
            Ok(None)
        }
    }

    /// Hides the pointer.
    pub fn hide_pointer(&mut self) -> (r: SessionResult<Option<InclusiveRectangle>>)
        requires
            old(self)@.wf(),
        ensures
            final(self)@.wf(),
            final(self)@.same_shape(old(self)@),
            r is Ok,
            (final(self)@, r->Ok_0) == old(self)@.pointer_hidden(),
    {
        proof {
            lemma_pointer_shape(self@);
        }
        if self.show_pointer {
            self.show_pointer = false;
            self.apply_pointer_layer(PointerLayer::Background)
        } else {
            Ok(None)
        }
    }

    /// Finds the part of the pointer that is on the screen.
    fn recalculate_pointer_geometry(&mut self)
        requires
            old(self)@.sized(),
            old(self)@.pointer is Some && old(self)@.shown ==> placeable(
                old(self)@.pointer->Some_0,
                old(self)@.x,
                old(self)@.y,
                old(self)@.width,
                old(self)@.height,
            ),
        ensures
            final(self)@ == old(self)@.placed(),
            final(self)@.sized(),
            final(self)@.visible || final(self)@.src == old(self)@.src,
            old(self)@.backed() && old(self)@.data.len() == 0 ==> final(self)@.backed(),
    {
        if !self.show_pointer {
            return ;
        }
        let (size_x, size_y, hotspot_x, hotspot_y): (u16, u16, u16, u16) = match &self.pointer {
            Some(p) => (p.width, p.height, p.hotspot_x, p.hotspot_y),
            None => {
                return ;
            },
        };
        match clip(self.pointer_x, hotspot_x, size_x, self.width) {
            None => {
                self.pointer_visible_on_screen = false;
            },
            Some((left, right, draw_x)) => match clip(self.pointer_y, hotspot_y, size_y, self.height) {
                None => {
                    self.pointer_visible_on_screen = false;
                },
                Some((top, bottom, draw_y)) => {
                    self.pointer_visible_on_screen = true;
                    self.pointer_src_rect = InclusiveRectangle { left, top, right, bottom };
                    self.pointer_draw_x = draw_x;
                    self.pointer_draw_y = draw_y;
                },
            },
        }
    }

    /// Moves the pointer.
    pub fn move_pointer(&mut self, x: u16, y: u16) -> (r: SessionResult<Option<InclusiveRectangle>>)
        requires
            old(self)@.wf(),
            old(self)@.pointer is Some && old(self)@.shown ==> placeable(
                old(self)@.pointer->Some_0,
                x,
                y,
                old(self)@.width,
                old(self)@.height,
            ),
        ensures
            final(self)@.wf(),
            final(self)@.same_shape(old(self)@),
            r is Ok,
            (final(self)@, r->Ok_0) == old(self)@.pointer_moved(x, y),
    {
        proof {
            lemma_moved_shape(self@, x, y);
        }
        self.pointer_x = x;
        self.pointer_y = y;
        if self.pointer.is_some() && self.show_pointer {
            let old_rect: Option<InclusiveRectangle> = self.apply_pointer_layer(PointerLayer::Background)?;
            self.recalculate_pointer_geometry();
            let new_rect: Option<InclusiveRectangle> = self.apply_pointer_layer(PointerLayer::Pointer)?;
            Ok(join(old_rect, new_rect))
        } else {
            Ok(None)
        }
    }

    /// Takes another pointer and shows it.
    pub fn update_pointer(&mut self, pointer: Arc<DecodedPointer>) -> (r: SessionResult<Option<InclusiveRectangle>>)
        requires
            old(self)@.wf(),
            pointer@.wf(),
            placeable(pointer@, old(self)@.x, old(self)@.y, old(self)@.width, old(self)@.height),
        ensures
            final(self)@.wf(),
            final(self)@.same_shape(old(self)@),
            r is Ok,
            (final(self)@, r->Ok_0) == old(self)@.pointer_replaced(pointer@),
    {
        proof {
            lemma_replaced_shape(self@, pointer@);
        }
        self.show_pointer = true;
        let old_rect: Option<InclusiveRectangle> = if self.pointer.is_some() {
            self.apply_pointer_layer(PointerLayer::Background)?
        } else {
            None
        };
        self.pointer_visible_on_screen = false;
        self.pointer = Some(pointer);
        self.recalculate_pointer_geometry();
        let new_rect: Option<InclusiveRectangle> = self.apply_pointer_layer(PointerLayer::Pointer)?;
        Ok(join(old_rect, new_rect))
    }

    /// Whether the shown pointer overlaps an area.
    fn is_pointer_redraw_required(&self, update_rectangle: &InclusiveRectangle) -> (r: bool)
        requires
            self@.sized(),
        ensures
            r == (update_rectangle.common(self@.dest()) is Some && self@.shown),
    {
        let cols: u16 = self.pointer_src_rect.right - self.pointer_src_rect.left + 1;
        let rows: u16 = self.pointer_src_rect.bottom - self.pointer_src_rect.top + 1;
        let pointer_dest_rect: InclusiveRectangle = InclusiveRectangle {
            left: self.pointer_draw_x,
            top: self.pointer_draw_y,
            right: self.pointer_draw_x + (cols - 1),
            bottom: self.pointer_draw_y + (rows - 1),
        };
        update_rectangle.intersect(&pointer_dest_rect).is_some() && self.show_pointer
    }

    /// Takes the pointer away where it overlaps the area that is about to change.
    fn pointer_rendering_begin(&mut self, update_rectangle: &InclusiveRectangle) -> (r: SessionResult<
        PointerRenderingState,
    >)
        requires
            old(self)@.wf(),
        ensures
            final(self)@.wf(),
            r is Ok,
            ({
                let (bare, place) = if old(self)@.covers(*update_rectangle) {
                    old(self)@.erased()
                } else {
                    (old(self)@, None)
                };
                &&& final(self)@ == bare
                &&& r->Ok_0.redraw == (place is Some)
                &&& r->Ok_0.update_rectangle == (match place {
                    Some(p) => p.spanning(*update_rectangle),
                    None => *update_rectangle,
                })
            }),
    {
        if !self.is_pointer_redraw_required(update_rectangle) || self.pointer.is_none() {
            return Ok(PointerRenderingState { redraw: false, update_rectangle: *update_rectangle });
        }
        match self.apply_pointer_layer(PointerLayer::Background)? {
            Some(erased) => Ok(
                PointerRenderingState { redraw: true, update_rectangle: erased.union(update_rectangle) },
            ),
            None => Ok(PointerRenderingState { redraw: false, update_rectangle: *update_rectangle }),
        }
    }

    /// Draws the pointer again where it was taken away.
    fn pointer_rendering_end(&mut self, state: PointerRenderingState) -> (r: SessionResult<InclusiveRectangle>)
        requires
            old(self)@.wf(),
        ensures
            final(self)@.wf(),
            r is Ok,
            !state.redraw ==> final(self)@ == old(self)@ && r->Ok_0 == state.update_rectangle,
            state.redraw ==> ({
                let (covered, again) = old(self)@.drawn();
                &&& final(self)@ == covered
                &&& r->Ok_0 == (match again {
                    Some(p) => p.spanning(state.update_rectangle),
                    None => state.update_rectangle,
                })
            }),
    {
        if !state.redraw {
            return Ok(state.update_rectangle);
        }
        match self.apply_pointer_layer(PointerLayer::Pointer)? {
            Some(drawn) => Ok(drawn.union(&state.update_rectangle)),
            None => Ok(state.update_rectangle),
        }
    }

    /// Paints an area below the pointer.
    fn paint(
        &mut self,
        area: &InclusiveRectangle,
        left: u16,
        top: u16,
        count: u64,
        rows: u64,
        paint: Paint<'_>,
    ) -> (r: SessionResult<InclusiveRectangle>)
        requires
            old(self)@.wf(),
            count <= 0xFFFF,
            rows <= 0xFFFF,
            paint.covers(count as int, rows as int),
        ensures
            final(self)@.wf(),
            r is Ok,
            (final(self)@, r->Ok_0) == old(self)@.painted(
                *area,
                left as int,
                top as int,
                count as int,
                rows as nat,
                paint.brush(),
            ),
    {
        let state: PointerRenderingState = self.pointer_rendering_begin(area)?;
        proof {
            lemma_area_bound(top, self.width);
            lemma_paint_rows_len(
                self.data@,
                top * self.width + left,
                self.width as int,
                count as int,
                rows as nat,
                paint.brush(),
            );
        }
        let first: u64 = top as u64 * self.width as u64 + left as u64;
        paint_area(&mut self.data, first, self.width as u64, count, rows, paint);
        self.pointer_rendering_end(state)
    }

    /// Fill a rectangle with a solid RGBA color.
    ///
    /// A row that reaches beyond the right edge goes on in the next row of the image.
    pub fn fill_rectangle(&mut self, rect: &InclusiveRectangle, color: [u8; 4]) -> (r: SessionResult<
        InclusiveRectangle,
    >)
        requires
            old(self)@.wf(),
        ensures
            final(self)@.wf(),
            final(self)@.same_shape(old(self)@),
            r is Ok,
            (final(self)@, r->Ok_0) == old(self)@.filled(*rect, color@),
    {
        proof {
            lemma_filled_shape(self@, *rect, color@);
        }
        self.paint(
            rect,
            rect.left,
            rect.top,
            rect.width() as u64,
            rect.height() as u64,
            Paint::Solid(color),
        )
    }

    /// Invert all pixels in a rectangle; opacity stays.
    ///
    /// A row that reaches beyond the right edge goes on in the next row of the image.
    pub fn invert_rectangle(&mut self, rect: &InclusiveRectangle) -> (r: SessionResult<InclusiveRectangle>)
        requires
            old(self)@.wf(),
        ensures
            final(self)@.wf(),
            final(self)@.same_shape(old(self)@),
            r is Ok,
            (final(self)@, r->Ok_0) == old(self)@.flipped(*rect),
    {
        proof {
            lemma_filled_shape(self@, *rect, Seq::empty());
        }
        self.paint(
            rect,
            rect.left,
            rect.top,
            rect.width() as u64,
            rect.height() as u64,
            Paint::Inverted,
        )
    }

    /// Paints the whole rows of a bitmap from the top of a rectangle on.
    fn apply_bitmap(
        &mut self,
        bytes: &[u8],
        encoding: Encoding<'_>,
        rect: &InclusiveRectangle,
        bottom_up: bool,
    ) -> (r: SessionResult<InclusiveRectangle>)
        requires
            old(self)@.wf(),
            old(self)@.has_room(*rect, bytes@.len(), encoding.size()),
        ensures
            final(self)@.wf(),
            r is Ok,
            (final(self)@, r->Ok_0) == old(self)@.bitmapped(bytes@, encoding, *rect, bottom_up),
    {
        let width: u64 = rect.width() as u64;
        let size: u64 = encoding.bytes_per_pixel();
        assert(1 <= width * size <= 0x4_0000) by (nonlinear_arith)
            requires
                1 <= width <= 0xFFFF,
                1 <= size <= 4,
        ;
        let len: u64 = bytes.len() as u64;
        let rows: u64 = len / (width * size);
        let paint: Paint<'_> = Paint::Decoded {
            bytes,
            encoding,
            width,
            rows,
            bottom_up,
            target: self.pixel_format,
        };
        proof {
            lemma_whole_rows(len as int, width as int, size as int);
            lemma_rows_bound(*rect, rows as int, self.width as int, self.height as int);
            assert(rows == ImageView::row_count(*rect, bytes@.len(), encoding.size()));
        }
        self.paint(rect, rect.left, rect.top, width, rows, paint)
    }

    /// Apply a 16-bit (RGB565) bitmap. Bottom-up row order, 2 bytes per pixel.
    pub fn apply_rgb16_bitmap(
        &mut self,
        rgb16: &[u8],
        update_rectangle: &InclusiveRectangle,
    ) -> (r: SessionResult<InclusiveRectangle>)
        requires
            old(self)@.wf(),
            old(self)@.has_room_inside(*update_rectangle, rgb16@.len(), 2),
        ensures
            final(self)@.wf(),
            final(self)@.same_shape(old(self)@),
            r is Ok,
            (final(self)@, r->Ok_0) == old(self)@.bitmapped_inside(
                rgb16@,
                Encoding::Rgb16,
                *update_rectangle,
                true,
            ),
    {
        proof {
            lemma_bitmapped_shape(self@, rgb16@, Encoding::Rgb16, *update_rectangle, true);
        }
        if !self.rect_fits(update_rectangle) {
            return Ok(InclusiveRectangle::empty());
        }
        self.apply_bitmap(rgb16, Encoding::Rgb16, update_rectangle, true)
    }

    /// Apply a 15-bit (RGB555) bitmap. Bottom-up row order, 2 bytes per pixel.
    pub fn apply_rgb15_bitmap(
        &mut self,
        rgb15: &[u8],
        update_rectangle: &InclusiveRectangle,
    ) -> (r: SessionResult<InclusiveRectangle>)
        requires
            old(self)@.wf(),
            old(self)@.has_room_inside(*update_rectangle, rgb15@.len(), 2),
        ensures
            final(self)@.wf(),
            final(self)@.same_shape(old(self)@),
            r is Ok,
            (final(self)@, r->Ok_0) == old(self)@.bitmapped_inside(
                rgb15@,
                Encoding::Rgb15,
                *update_rectangle,
                true,
            ),
    {
        proof {
            lemma_bitmapped_shape(self@, rgb15@, Encoding::Rgb15, *update_rectangle, true);
        }
        if !self.rect_fits(update_rectangle) {
            return Ok(InclusiveRectangle::empty());
        }
        self.apply_bitmap(rgb15, Encoding::Rgb15, update_rectangle, true)
    }

    /// Apply a 24-bit BGR bitmap. Bottom-up row order, 3 bytes per pixel.
    pub fn apply_bgr24_bitmap(
        &mut self,
        bgr24: &[u8],
        update_rectangle: &InclusiveRectangle,
    ) -> (r: SessionResult<InclusiveRectangle>)
        requires
            old(self)@.wf(),
            old(self)@.has_room_inside(*update_rectangle, bgr24@.len(), 3),
        ensures
            final(self)@.wf(),
            final(self)@.same_shape(old(self)@),
            r is Ok,
            (final(self)@, r->Ok_0) == old(self)@.bitmapped_inside(
                bgr24@,
                Encoding::Bgr24,
                *update_rectangle,
                true,
            ),
    {
        proof {
            lemma_bitmapped_shape(self@, bgr24@, Encoding::Bgr24, *update_rectangle, true);
        }
        if !self.rect_fits(update_rectangle) {
            return Ok(InclusiveRectangle::empty());
        }
        self.apply_bitmap(bgr24, Encoding::Bgr24, update_rectangle, true)
    }

    /// Apply a 24-bit RGB bitmap, with the last row on top if `flip`.
    pub fn apply_rgb24(
        &mut self,
        rgb24: &[u8],
        update_rectangle: &InclusiveRectangle,
        flip: bool,
    ) -> (r: SessionResult<InclusiveRectangle>)
        requires
            old(self)@.wf(),
            old(self)@.has_room_inside(*update_rectangle, rgb24@.len(), 3),
        ensures
            final(self)@.wf(),
            final(self)@.same_shape(old(self)@),
            r is Ok,
            (final(self)@, r->Ok_0) == old(self)@.bitmapped_inside(
                rgb24@,
                Encoding::Rgb24,
                *update_rectangle,
                flip,
            ),
    {
        proof {
            lemma_bitmapped_shape(self@, rgb24@, Encoding::Rgb24, *update_rectangle, flip);
        }
        if !self.rect_fits(update_rectangle) {
            return Ok(InclusiveRectangle::empty());
        }
        self.apply_bitmap(rgb24, Encoding::Rgb24, update_rectangle, flip)
    }

    /// Apply a 32-bit RGBA bitmap, with the last row on top if `flip`.
    pub fn apply_rgba32(
        &mut self,
        rgba32: &[u8],
        update_rectangle: &InclusiveRectangle,
        flip: bool,
    ) -> (r: SessionResult<InclusiveRectangle>)
        requires
            old(self)@.wf(),
            old(self)@.has_room_inside(*update_rectangle, rgba32@.len(), 4),
        ensures
            final(self)@.wf(),
            final(self)@.same_shape(old(self)@),
            r is Ok,
            (final(self)@, r->Ok_0) == old(self)@.bitmapped_inside(
                rgba32@,
                Encoding::Rgba32,
                *update_rectangle,
                flip,
            ),
    {
        proof {
            lemma_bitmapped_shape(self@, rgba32@, Encoding::Rgba32, *update_rectangle, flip);
        }
        if !self.rect_fits(update_rectangle) {
            return Ok(InclusiveRectangle::empty());
        }
        self.apply_bitmap(rgba32, Encoding::Rgba32, update_rectangle, flip)
    }

    /// Apply an 8bpp indexed color bitmap using the provided palette. Bottom-up row order.
    ///
    /// A row that reaches beyond the right edge goes on in the next row of the image.
    pub fn apply_indexed8_bitmap(
        &mut self,
        indexed8: &[u8],
        palette: &ColorPalette,
        update_rectangle: &InclusiveRectangle,
    ) -> (r: SessionResult<InclusiveRectangle>)
        requires
            old(self)@.wf(),
            old(self)@.has_room(*update_rectangle, indexed8@.len(), 1),
        ensures
            final(self)@.wf(),
            final(self)@.same_shape(old(self)@),
            r is Ok,
            (final(self)@, r->Ok_0) == old(self)@.bitmapped(
                indexed8@,
                Encoding::Indexed8(palette),
                *update_rectangle,
                true,
            ),
    {
        proof {
            lemma_bitmapped_shape(self@, indexed8@, Encoding::Indexed8(palette), *update_rectangle, true);
        }
        self.apply_bitmap(indexed8, Encoding::Indexed8(palette), update_rectangle, true)
    }

    /// Apply a bitmap with four bytes per pixel in the given order. Bottom-up row order.
    ///
    /// Where the order is that of the image, the bytes are taken over as they are.
    pub fn apply_rgb32_bitmap(
        &mut self,
        rgb32: &[u8],
        format: PixelFormat,
        update_rectangle: &InclusiveRectangle,
    ) -> (r: SessionResult<InclusiveRectangle>)
        requires
            old(self)@.wf(),
            old(self)@.has_room_inside(*update_rectangle, rgb32@.len(), 4),
        ensures
            final(self)@.wf(),
            final(self)@.same_shape(old(self)@),
            r is Ok,
            (final(self)@, r->Ok_0) == old(self)@.bitmapped_inside(
                rgb32@,
                if format == old(self)@.format {
                    Encoding::Raw32
                } else {
                    Encoding::Color32(format)
                },
                *update_rectangle,
                true,
            ),
    {
        proof {
            let encoding = if format == self@.format {
                Encoding::Raw32
            } else {
                Encoding::Color32(format)
            };
            lemma_bitmapped_shape(self@, rgb32@, encoding, *update_rectangle, true);
        }
        if !self.rect_fits(update_rectangle) {
            return Ok(InclusiveRectangle::empty());
        }
        if format == self.pixel_format {
            self.apply_bitmap(rgb32, Encoding::Raw32, update_rectangle, true)
        } else {
            self.apply_bitmap(rgb32, Encoding::Color32(format), update_rectangle, true)
        }
    }

    /// Copy a rectangle from one location to another within the image.
    ///
    /// What is copied is the image before the copy, also where the two places overlap. Only the part
    /// with both places in the image is copied.
    pub fn copy_rectangle(&mut self, src_x: i16, src_y: i16, dst_rect: &InclusiveRectangle) -> (r: SessionResult<
        InclusiveRectangle,
    >)
        requires
            old(self)@.wf(),
        ensures
            final(self)@.wf(),
            final(self)@.same_shape(old(self)@),
            r is Ok,
            (final(self)@, r->Ok_0) == old(self)@.copied_from(src_x, src_y, *dst_rect),
    {
        proof {
            lemma_copied_shape(self@, src_x, src_y, *dst_rect);
        }
        let x: u16 = if src_x < 0 {
            0
        } else {
            src_x as u16
        };
        let y: u16 = if src_y < 0 {
            0
        } else {
            src_y as u16
        };
        let count: u16 = limit_copy(dst_rect.width(), x, dst_rect.left, self.width);
        let rows: u16 = limit_copy(dst_rect.height(), y, dst_rect.top, self.height);
        if count == 0 || rows == 0 {
            return Ok(*dst_rect);
        }
        let state: PointerRenderingState = self.pointer_rendering_begin(dst_rect)?;
        proof {
            lemma_area_bound(count, rows);
            lemma_area_bound(y, self.width);
            lemma_area_bound(dst_rect.top, self.width);
            assert(count * rows <= self.width * self.height) by (nonlinear_arith)
                requires
                    0 <= count <= self.width,
                    0 <= rows <= self.height,
            ;
        }
        let stride: u64 = self.width as u64;
        let from: u64 = y as u64 * stride + x as u64;
        let to: u64 = dst_rect.top as u64 * stride + dst_rect.left as u64;
        let mut buffer: Vec<u8> = vec![0; count as usize * rows as usize * 4];
        let ghost before = self.data@;
        let ghost blank = buffer@;
        let reading: Paint<'_> = Paint::Copied { from: self.data.as_slice(), first: from, stride };
        proof {
            lemma_inside(
                x as int,
                y as int,
                count as int,
                rows as int,
                self.width as int,
                self.height as int,
            );
        }
        paint_area(&mut buffer, 0, count as u64, count as u64, rows as u64, reading);
        let writing: Paint<'_> = Paint::Copied { from: buffer.as_slice(), first: 0, stride: count as u64 };
        proof {
            lemma_paint_rows_len(
                blank,
                0,
                count as int,
                count as int,
                rows as nat,
                reading.brush(),
            );
            lemma_inside(0, 0, count as int, rows as int, count as int, rows as int);
            assert forall|r: int, c: int| 0 <= r < rows && 0 <= c < count implies #[trigger] writing.has(
                r,
                c,
            ) by {
                let (width, at) = (count as int, 0 * count as int + 0 + r * count as int + c);
                assert(0 <= at && at * 4 + 4 <= width * rows * 4);
                assert(at == 0 + r * width + c);
            }
            lemma_buffered_copy(before, blank, from as int, stride as int, count as int, rows as nat);
            lemma_paint_rows_agree(
                before,
                to as int,
                stride as int,
                count as int,
                rows as nat,
                writing.brush(),
                copied(before, from as int, stride as int),
            );
            lemma_paint_rows_len(
                before,
                to as int,
                stride as int,
                count as int,
                rows as nat,
                writing.brush(),
            );
        }
        paint_area(&mut self.data, to, stride, count as u64, rows as u64, writing);
        self.pointer_rendering_end(state)
    }

    /// The bytes from the first pixel of a rectangle to its last one, whole rows in between.
    pub fn data_for_rect(&self, rect: &InclusiveRectangle) -> (r: &[u8])
        requires
            self@.wf(),
            rect.left <= rect.right && rect.right - rect.left < 0xFFFF,
            rect.top <= rect.bottom && rect.bottom - rect.top < 0xFFFF,
            rect.bottom * self@.width + rect.right < self@.width * self@.height,
        ensures
            r@ == self@.data.subrange(
                (rect.top * self@.width + rect.left) * 4,
                (rect.bottom * self@.width + rect.right + 1) * 4,
            ),
    {
        proof {
            assert(0 <= rect.top * self.width && rect.top * self.width <= rect.bottom * self.width)
                by (nonlinear_arith)
                requires
                    0 <= rect.top <= rect.bottom,
                    0 <= self.width,
            ;
            lemma_area_bound(rect.bottom, self.width);
            assert(rect.top * self.width + (rect.bottom - rect.top) * self.width == rect.bottom * self.width)
                by (nonlinear_arith);
            assert((rect.bottom - rect.top) * (self.width * 4) == (rect.bottom - rect.top) * self.width * 4)
                by (nonlinear_arith);
            assert(rect.top * (self.width * 4) == rect.top * self.width * 4) by (nonlinear_arith);
            assert(0 <= (rect.bottom - rect.top) * self.width) by (nonlinear_arith)
                requires
                    rect.top <= rect.bottom,
                    0 <= self.width,
            ;
        }
        let start: usize = rect.left as usize * 4 + rect.top as usize * self.stride();
        let end: usize = start + (rect.bottom - rect.top) as usize * self.stride() + rect.width() as usize
            * 4;
        slice_subrange(self.data.as_slice(), start, end)
    }

    /// Draw a line.
    pub fn draw_line(&mut self, x0: i16, y0: i16, x1: i16, y1: i16, color: [u8; 4]) -> (r: SessionResult<
        InclusiveRectangle,
    >)
        requires
            old(self)@.wf(),
        ensures
            final(self)@.wf(),
            final(self)@.same_shape(old(self)@),
            r is Ok,
            (final(self)@, r->Ok_0) == old(self)@.lined(x0, y0, x1, y1, color@),
    {
        proof {
            lemma_lined_shape(self@, x0, y0, x1, y1, color@);
        }
        let rect: InclusiveRectangle = InclusiveRectangle {
            left: clamp_low(min_i16(x0, x1)),
            top: clamp_low(min_i16(y0, y1)),
            right: clamp_low(min_i16(max_i16(x0, x1), to_signed_16(self.width).wrapping_sub(1))),
            bottom: clamp_low(min_i16(max_i16(y0, y1), to_signed_16(self.height).wrapping_sub(1))),
        };
        let state: PointerRenderingState = self.pointer_rendering_begin(&rect)?;
        plot_line(&mut self.data, self.width, self.height, x0, y0, x1, y1, color);
        self.pointer_rendering_end(state)
    }

    /// Apply a tile of 64 by 64 pixels at the corner of `update_rectangle`.
    ///
    /// `region` holds the parts of the tile that are to be seen; `extents` is the rectangle around
    /// everything that is to be seen of all tiles.
    pub fn apply_tile(
        &mut self,
        tile_output: &[u8],
        pixel_format: PixelFormat,
        extents: &InclusiveRectangle,
        region: &[InclusiveRectangle],
        update_rectangle: &InclusiveRectangle,
    ) -> (r: SessionResult<InclusiveRectangle>)
        requires
            old(self)@.wf(),
            old(self)@.fits(*extents) && region@.len() > 0 ==> old(self)@.width < 0x4000,
            old(self)@.fits(*extents) ==> forall|k: int|
                0 <= k < region@.len() ==> #[trigger] old(self)@.has_part(
                    region@[k],
                    *update_rectangle,
                    tile_output@.len(),
                ),
        ensures
            final(self)@.wf(),
            final(self)@.same_shape(old(self)@),
            r is Ok,
            (final(self)@, r->Ok_0) == old(self)@.tiled(
                tile_output@,
                pixel_format,
                *extents,
                region@,
                *update_rectangle,
            ),
    {
        proof {
            lemma_tiled_shape(self@, tile_output@, pixel_format, *extents, region@, *update_rectangle);
        }
        if !self.rect_fits(extents) {
            return Ok(InclusiveRectangle::empty());
        }
        let state: PointerRenderingState = self.pointer_rendering_begin(extents)?;
        let ghost bare = self@;
        let encoding: Encoding<'_> = if pixel_format.eq_no_alpha(self.pixel_format) {
            Encoding::Raw32
        } else {
            Encoding::Color32(pixel_format)
        };
        let mut k: usize = 0;
        while k < region.len()
            invariant
                k <= region@.len(),
                bare.wf(),
                old(self)@.wf(),
                bare.width == old(self)@.width,
                bare.height == old(self)@.height,
                bare.format == old(self)@.format,
                self@.data.len() == bare.data.len(),
                self@ == (ImageView {
                    data: old(self)@.tile_parts(
                        bare.data,
                        tile_output@,
                        pixel_format,
                        region@,
                        *update_rectangle,
                        k as nat,
                    ),
                    ..bare
                }),
                encoding == (if pixel_format.offsets() == bare.format.offsets() {
                    Encoding::Raw32
                } else {
                    Encoding::Color32(pixel_format)
                }),
                forall|n: int|
                    0 <= n < region@.len() ==> #[trigger] old(self)@.has_part(
                        region@[n],
                        *update_rectangle,
                        tile_output@.len(),
                    ),
            decreases region@.len() - k,
        {
            let part: InclusiveRectangle = region[k];
            assert(old(self)@.has_part(region@[k as int], *update_rectangle, tile_output@.len()));
            let first: u64 = (part.top - update_rectangle.top) as u64 * 64 + (part.left
                - update_rectangle.left) as u64;
            let paint: Paint<'_> = Paint::Converted {
                bytes: tile_output,
                encoding,
                first,
                stride: 64,
                target: self.pixel_format,
            };
            proof {
                lemma_area_bound(part.top, self.width);
                lemma_paint_rows_len(
                    self.data@,
                    part.top * self.width + part.left,
                    self.width as int,
                    part.columns(),
                    part.rows() as nat,
                    paint.brush(),
                );
            }
            let at: u64 = part.top as u64 * self.width as u64 + part.left as u64;
            paint_area(
                &mut self.data,
                at,
                self.width as u64,
                part.width() as u64,
                part.height() as u64,
                paint,
            );
            k = k + 1;
        }
        self.pointer_rendering_end(state)
    }

    /// Whether a pointer can be placed where the pointer is.
    pub fn can_place_pointer(&self, pointer: &DecodedPointer) -> (r: bool)
        ensures
            r == placeable(pointer@, self@.x, self@.y, self@.width, self@.height),
    {
        can_place(pointer, self.pointer_x, self.pointer_y, self.width, self.height)
    }

    /// Whether the pointer can be moved to a position.
    pub fn can_move_pointer(&self, x: u16, y: u16) -> (r: bool)
        ensures
            r == (self@.pointer is Some && self@.shown ==> placeable(
                self@.pointer->Some_0,
                x,
                y,
                self@.width,
                self@.height,
            )),
    {
        match &self.pointer {
            Some(p) => !self.show_pointer || can_place(p, x, y, self.width, self.height),
            None => true,
        }
    }

    /// Whether the image has a pixel for each pixel in the whole rows of a bitmap of `len` bytes with
    /// `size` bytes per pixel.
    pub fn has_room_for(&self, rect: &InclusiveRectangle, len: usize, size: u64) -> (r: bool)
        requires
            1 <= size <= 4,
        ensures
            r == self@.has_room(*rect, len as nat, size as int),
    {
        let width: u64 = rect.width() as u64;
        if rect.left > rect.right || width == 0 {
            return false;
        }
        assert(1 <= width * size <= 0x4_0000) by (nonlinear_arith)
            requires
                1 <= width <= 0xFFFF,
                1 <= size <= 4,
        ;
        let rows: u64 = len as u64 / (width * size);
        if rows == 0 {
            return true;
        }
        proof {
            lemma_area_bound(self.width, self.height);
        }
        if rows > 0xFFFF {
            proof {
                if self@.has_room(*rect, len as nat, size as int) {
                    lemma_rows_bound(*rect, rows as int, self.width as int, self.height as int);
                }
            }
            return false;
        }
        let last: u64 = rect.top as u64 + rows - 1;
        assert(0 <= last * self.width <= 0x2_0000 * 0xFFFF) by (nonlinear_arith)
            requires
                0 <= last <= 0x2_0000,
                0 <= self.width <= 0xFFFF,
        ;
        last * self.width as u64 + rect.left as u64 + width <= self.width as u64 * self.height as u64
    }

    /// Whether a rectangle lies in the image and in a tile of `len` bytes at `place`.
    pub fn has_room_for_part(&self, part: &InclusiveRectangle, place: &InclusiveRectangle, len: usize) -> (r: bool)
        ensures
            r == self@.has_part(*part, *place, len as nat),
    {
        self.rect_fits(part) && place.left <= part.left && part.left <= part.right && place.top <= part.top
            && part.top <= part.bottom && ((part.bottom - place.top) as u64 * 64 + (part.right - place.left) as u64
            + 1) * 4 <= len as u64
    }
}

} // verus!
