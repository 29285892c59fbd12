//! Drawing primary orders on the image.

use vstd::prelude::*;

use crate::bitmap_cache::{entry_check, BitmapCache, CacheView};
use crate::cursor::{i16_at, u16_at, ReadCursor};
use crate::drawing_orders::{
    DeltaPoint, DeltaRect, MultiScrBltOrder, MultiScrBltView, OrderDataView, PolylineOrder, PolylineView,
    PrimaryOrder, PrimaryOrderData,
};
use crate::error::SessionResult;
use crate::geometry::InclusiveRectangle;
use crate::image::{DecodedImage, ImageView};

verus! {

/// `value` cut off at the range of a `u16`.
pub open spec fn clamp_u16(value: int) -> u16 {
    if value < 0 {
        0
    } else if value > 0xFFFF {
        0xFFFF
    } else {
        value as u16
    }
}

/// The rectangle of a position and a size, each coordinate cut off at the range of a `u16`.
pub open spec fn rect_at(x: i16, y: i16, width: i16, height: i16) -> InclusiveRectangle {
    InclusiveRectangle {
        left: clamp_u16(x as int),
        top: clamp_u16(y as int),
        right: clamp_u16(x + width - 1),
        bottom: clamp_u16(y + height - 1),
    }
}

/// Creates an `InclusiveRectangle` from signed coordinates, clamping negative values to 0.
pub fn make_inclusive_rect(x: i16, y: i16, width: i16, height: i16) -> (r: InclusiveRectangle)
    ensures
        r == rect_at(x, y, width, height),
{
    InclusiveRectangle {
        left: to_u16(x as i32),
        top: to_u16(y as i32),
        right: to_u16(x as i32 + width as i32 - 1),
        bottom: to_u16(y as i32 + height as i32 - 1),
    }
}

fn to_u16(value: i32) -> (r: u16)
    ensures
        r == clamp_u16(value as int),
{
    if value < 0 {
        0
    } else if value > 0xFFFF {
        0xFFFF
    } else {
        value as u16
    }
}

/// The smallest rectangle around all of `rects`; nothing for no rectangles.
pub open spec fn combined(rects: Seq<InclusiveRectangle>) -> Option<InclusiveRectangle>
    decreases rects.len(),
{
    if rects.len() == 0 {
        None
    } else {
        match combined(rects.drop_last()) {
            None => Some(rects.last()),
            Some(previous) => Some(previous.spanning(rects.last())),
        }
    }
}

/// Combines multiple rectangles into a single bounding rectangle.
///
/// Returns `None` if there are none.
pub fn combine_rectangles(rects: &[InclusiveRectangle]) -> (r: Option<InclusiveRectangle>)
    ensures
        r == combined(rects@),
{
    let mut acc: Option<InclusiveRectangle> = None;
    let mut i: usize = 0;
    assert(rects@.take(0) =~= Seq::empty());
    while i < rects.len()
        invariant
            i <= rects@.len(),
            acc == combined(rects@.take(i as int)),
        decreases rects@.len() - i,
    {
        let rect: InclusiveRectangle = rects[i];
        assert(rects@.take(i + 1).drop_last() =~= rects@.take(i as int));
        acc = match acc {
            None => Some(rect),
            Some(previous) => Some(previous.union(&rect)),
        };
        i = i + 1;
    }
    assert(rects@.take(i as int) =~= rects@);
    acc
}

/// The combined rectangle contains every point of every rectangle, and there is one whenever there
/// are rectangles.
pub proof fn law_combined_covers(rects: Seq<InclusiveRectangle>, k: int, x: int, y: int)
    requires
        0 <= k < rects.len(),
        rects[k].contains(x, y),
    ensures
        combined(rects) matches Some(r) && r.contains(x, y),
    decreases rects.len(),
{
    if k < rects.len() - 1 {
        law_combined_covers(rects.drop_last(), k, x, y);
    }
}

/// The combined rectangle is no larger than needed: each of its edges is the edge of one of the
/// rectangles.
pub proof fn law_combined_is_tight(rects: Seq<InclusiveRectangle>)
    requires
        rects.len() > 0,
    ensures
        combined(rects) matches Some(r) && {
            &&& exists|k: int| 0 <= k < rects.len() && (#[trigger] rects[k]).left == r.left
            &&& exists|k: int| 0 <= k < rects.len() && (#[trigger] rects[k]).top == r.top
            &&& exists|k: int| 0 <= k < rects.len() && (#[trigger] rects[k]).right == r.right
            &&& exists|k: int| 0 <= k < rects.len() && (#[trigger] rects[k]).bottom == r.bottom
        },
    decreases rects.len(),
{
    let last = rects.len() - 1;
    let own = rects[last];
    let rest = rects.drop_last();
    let r = combined(rects)->Some_0;
    if rest.len() > 0 {
        law_combined_is_tight(rest);
        let previous = combined(rest)->Some_0;
        let left = choose|k: int| 0 <= k < rest.len() && (#[trigger] rest[k]).left == previous.left;
        let top = choose|k: int| 0 <= k < rest.len() && (#[trigger] rest[k]).top == previous.top;
        let right = choose|k: int| 0 <= k < rest.len() && (#[trigger] rest[k]).right == previous.right;
        let bottom = choose|k: int| 0 <= k < rest.len() && (#[trigger] rest[k]).bottom == previous.bottom;
        assert(rects[left] == rest[left] && rects[top] == rest[top]);
        assert(rects[right] == rest[right] && rects[bottom] == rest[bottom]);
    }
    assert(own == rects[last]);
}

/// A colour written as `0x00RRGGBB`, as opaque RGBA.
pub open spec fn rgba(color: u32) -> Seq<u8> {
    seq![
        (color as int / 0x1_0000 % 0x100) as u8,
        (color as int / 0x100 % 0x100) as u8,
        (color as int % 0x100) as u8,
        255u8,
    ]
}

/// Extracts RGB components from a 24-bit color stored as `0x00RRGGBB` in a `u32`.
///
/// Returns `[R, G, B, 255]` as an RGBA color with full opacity.
pub fn rgb_from_u32(color: u32) -> (r: [u8; 4])
    ensures
        r@ == rgba(color),
{
    [
        (color / 0x1_0000 % 0x100) as u8,
        (color / 0x100 % 0x100) as u8,
        (color % 0x100) as u8,
        255,
    ]
}

/// What an order does to a rectangle.
#[derive(Debug, Clone, Copy)]
pub enum RectOp {
    Fill([u8; 4]),
    Invert,
    Nothing,
}

#[verifier::ext_equal]
pub enum RectOpView {
    Fill(Seq<u8>),
    Invert,
    Nothing,
}

impl View for RectOp {
    type V = RectOpView;

    open spec fn view(&self) -> RectOpView {
        match self {
            RectOp::Fill(color) => RectOpView::Fill(color@),
            RectOp::Invert => RectOpView::Invert,
            RectOp::Nothing => RectOpView::Nothing,
        }
    }
}

pub open spec fn black() -> Seq<u8> {
    seq![0u8, 0u8, 0u8, 255u8]
}

pub open spec fn white() -> Seq<u8> {
    seq![255u8, 255u8, 255u8, 255u8]
}

/// Raster operations without a pattern: black, invert, white.
pub open spec fn dst_op(rop: u8) -> RectOpView {
    if rop == 0x00 {
        RectOpView::Fill(black())
    } else if rop == 0x55 {
        RectOpView::Invert
    } else if rop == 0xFF {
        RectOpView::Fill(white())
    } else {
        RectOpView::Nothing
    }
}

/// Raster operations with a brush. All those that need the brush fill with its colour if it is
/// solid.
pub open spec fn pat_op(rop: u8, style: u8, color: u32) -> RectOpView {
    if rop == 0x00 || rop == 0x55 || rop == 0xFF {
        dst_op(rop)
    } else if style == 0 {
        RectOpView::Fill(rgba(color))
    } else {
        RectOpView::Nothing
    }
}

fn dst_operation(rop: u8) -> (r: RectOp)
    ensures
        r@ == dst_op(rop),
{
    match rop {
        0x00 => RectOp::Fill([0, 0, 0, 255]),
        0x55 => RectOp::Invert,
        0xFF => RectOp::Fill([255, 255, 255, 255]),
        _ => RectOp::Nothing,
    }
}

fn pat_operation(rop: u8, style: u8, color: u32) -> (r: RectOp)
    ensures
        r@ == pat_op(rop, style, color),
{
    match rop {
        0x00 => RectOp::Fill([0, 0, 0, 255]),
        0x55 => RectOp::Invert,
        0xFF => RectOp::Fill([255, 255, 255, 255]),
        _ => if style == 0 {
            RectOp::Fill(rgb_from_u32(color))
        } else {
            RectOp::Nothing
        },
    }
}

/// The image after an operation on a rectangle.
pub open spec fn operated(v: ImageView, rect: InclusiveRectangle, op: RectOpView) -> ImageView {
    match op {
        RectOpView::Fill(color) => v.filled(rect, color).0,
        RectOpView::Invert => v.flipped(rect).0,
        RectOpView::Nothing => v,
    }
}

fn operate(image: &mut DecodedImage, rect: &InclusiveRectangle, op: RectOp) -> (r: SessionResult<()>)
    requires
        old(image)@.wf(),
    ensures
        final(image)@.wf(),
        r is Ok,
        final(image)@ == operated(old(image)@, *rect, op@),
{
    match op {
        RectOp::Fill(color) => {
            image.fill_rectangle(rect, color)?;
        },
        RectOp::Invert => {
            image.invert_rectangle(rect)?;
        },
        RectOp::Nothing => {},
    }
    Ok(())
}

/// The rectangle of an entry of a list.
pub open spec fn delta_rect(d: DeltaRect) -> InclusiveRectangle {
    rect_at(d.left, d.top, d.width, d.height)
}

/// The rectangles of a list.
pub open spec fn delta_areas(list: Seq<DeltaRect>) -> Seq<InclusiveRectangle> {
    Seq::new(list.len(), |i: int| delta_rect(list[i]))
}

/// The image after the same operation on the first `n` rectangles of a list.
pub open spec fn operated_all(v: ImageView, list: Seq<DeltaRect>, op: RectOpView, n: nat) -> ImageView
    decreases n,
{
    if n == 0 {
        v
    } else {
        operated(operated_all(v, list, op, (n - 1) as nat), delta_rect(list[n - 1]), op)
    }
}

/// Performs one operation on each rectangle of a list.
fn operate_all(image: &mut DecodedImage, list: &Vec<DeltaRect>, op: RectOp) -> (r: SessionResult<
    Option<InclusiveRectangle>,
>)
    requires
        old(image)@.wf(),
    ensures
        final(image)@.wf(),
        r is Ok,
        final(image)@ == operated_all(old(image)@, list@, op@, list@.len()),
        r->Ok_0 == combined(delta_areas(list@)),
{
    let mut rects: Vec<InclusiveRectangle> = Vec::with_capacity(list.len());
    let mut i: usize = 0;
    while i < list.len()
        invariant
            i <= list@.len(),
            image@.wf(),
            image@ == operated_all(old(image)@, list@, op@, i as nat),
            rects@ == delta_areas(list@).take(i as int),
        decreases list@.len() - i,
    {
        let delta: DeltaRect = list[i];
        let rect: InclusiveRectangle = make_inclusive_rect(delta.left, delta.top, delta.width, delta.height);
        operate(image, &rect, op)?;
        rects.push(rect);
        i = i + 1;
        assert(rects@ =~= delta_areas(list@).take(i as int));
    }
    assert(rects@ =~= delta_areas(list@));
    Ok(combine_rectangles(rects.as_slice()))
}

/// Where rectangle `i` of a list is copied from: the source moves with the rectangles.
pub open spec fn source_of(multi: MultiScrBltView, i: int) -> (i16, i16) {
    (
        multi.src_x.wrapping_add(multi.rectangles[i].left.wrapping_sub(multi.rectangles[0].left)),
        multi.src_y.wrapping_add(multi.rectangles[i].top.wrapping_sub(multi.rectangles[0].top)),
    )
}

/// The image after the first `n` copies of a MultiScrBlt order.
pub open spec fn copied_all(v: ImageView, multi: MultiScrBltView, n: nat) -> ImageView
    decreases n,
{
    if n == 0 {
        v
    } else {
        let (src_x, src_y) = source_of(multi, n - 1);
        copied_all(v, multi, (n - 1) as nat).copied_from(src_x, src_y, delta_rect(multi.rectangles[n - 1])).0
    }
}

/// Moving by one step after another is moving by the whole distance.
proof fn lemma_moves_add_up(start: i16, first: i16, previous: i16, next: i16)
    ensures
        start.wrapping_add(first.wrapping_sub(first)) == start,
        start.wrapping_add(previous.wrapping_sub(first)).wrapping_add(next.wrapping_sub(previous))
            == start.wrapping_add(next.wrapping_sub(first)),
{
}

fn copy_all(image: &mut DecodedImage, multi: &MultiScrBltOrder) -> (r: SessionResult<Option<InclusiveRectangle>>)
    requires
        old(image)@.wf(),
    ensures
        final(image)@.wf(),
        r is Ok,
        final(image)@ == copied_all(old(image)@, multi@, multi@.rectangles.len()),
        r->Ok_0 == combined(delta_areas(multi@.rectangles)),
{
    let mut rects: Vec<InclusiveRectangle> = Vec::with_capacity(multi.rectangles.len());
    let mut src_x: i16 = multi.src_x;
    let mut src_y: i16 = multi.src_y;
    let mut i: usize = 0;
    while i < multi.rectangles.len()
        invariant
            i <= multi.rectangles@.len(),
            image@.wf(),
            image@ == copied_all(old(image)@, multi@, i as nat),
            rects@ == delta_areas(multi@.rectangles).take(i as int),
            i == 0 ==> src_x == multi.src_x && src_y == multi.src_y,
            i > 0 ==> (src_x, src_y) == source_of(multi@, i - 1),
        decreases multi.rectangles@.len() - i,
    {
        let delta: DeltaRect = multi.rectangles[i];
        let rect: InclusiveRectangle = make_inclusive_rect(delta.left, delta.top, delta.width, delta.height);
        if i > 0 {
            let previous: DeltaRect = multi.rectangles[i - 1];
            src_x = src_x.wrapping_add(delta.left.wrapping_sub(previous.left));
            src_y = src_y.wrapping_add(delta.top.wrapping_sub(previous.top));
        }
        proof {
            let list = multi@.rectangles;
            let previous = if i > 0 {
                list[i - 1]
            } else {
                list[0]
            };
            lemma_moves_add_up(multi.src_x, list[0].left, previous.left, delta.left);
            lemma_moves_add_up(multi.src_y, list[0].top, previous.top, delta.top);
        }
        image.copy_rectangle(src_x, src_y, &rect)?;
        rects.push(rect);
        i = i + 1;
        assert(rects@ =~= delta_areas(multi@.rectangles).take(i as int));
    }
    assert(rects@ =~= delta_areas(multi@.rectangles));
    Ok(combine_rectangles(rects.as_slice()))
}

/// Corner `n` of a polyline: the points add up.
pub open spec fn vertex(poly: PolylineView, n: nat) -> (i16, i16)
    decreases n,
{
    if n == 0 {
        (poly.x, poly.y)
    } else {
        let (x, y) = vertex(poly, (n - 1) as nat);
        let point = poly.points[n - 1];
        (x.wrapping_add(point.x), y.wrapping_add(point.y))
    }
}

/// The image and the areas that changed after the first `n` lines of a polyline.
pub open spec fn lined_all(v: ImageView, poly: PolylineView, n: nat) -> (ImageView, Seq<InclusiveRectangle>)
    decreases n,
{
    if n == 0 {
        (v, Seq::empty())
    } else {
        let (before, areas) = lined_all(v, poly, (n - 1) as nat);
        let (x0, y0) = vertex(poly, (n - 1) as nat);
        let (x1, y1) = vertex(poly, n);
        let (after, area) = before.lined(x0, y0, x1, y1, rgba(poly.pen_color));
        (after, areas.push(area))
    }
}

fn line_all(image: &mut DecodedImage, poly: &PolylineOrder) -> (r: SessionResult<Option<InclusiveRectangle>>)
    requires
        old(image)@.wf(),
    ensures
        final(image)@.wf(),
        r is Ok,
        final(image)@ == lined_all(old(image)@, poly@, poly@.points.len()).0,
        r->Ok_0 == combined(lined_all(old(image)@, poly@, poly@.points.len()).1),
{
    let color: [u8; 4] = rgb_from_u32(poly.pen_color);
    let mut rects: Vec<InclusiveRectangle> = Vec::with_capacity(poly.points.len());
    let mut x: i16 = poly.x;
    let mut y: i16 = poly.y;
    let mut i: usize = 0;
    while i < poly.points.len()
        invariant
            i <= poly.points@.len(),
            color@ == rgba(poly.pen_color),
            image@.wf(),
            (image@, rects@) == lined_all(old(image)@, poly@, i as nat),
            (x, y) == vertex(poly@, i as nat),
        decreases poly.points@.len() - i,
    {
        let point: DeltaPoint = poly.points[i];
        let next_x: i16 = x.wrapping_add(point.x);
        let next_y: i16 = y.wrapping_add(point.y);
        let rect: InclusiveRectangle = image.draw_line(x, y, next_x, next_y, color)?;
        rects.push(rect);
        x = next_x;
        y = next_y;
        i = i + 1;
    }
    Ok(combine_rectangles(rects.as_slice()))
}

/// A bitmap of the cache on the screen, if `data` holds such an order: cache, position, size, raster
/// operation, source, entry. Only a plain copy is drawn, as a rectangle in a colour of its own.
pub open spec fn cached_bitmap_drawn(v: ImageView, caches: CacheView, data: Seq<u8>) -> (
    ImageView,
    Option<InclusiveRectangle>,
) {
    let cache_id = data[0];
    let rect = rect_at(i16_at(data, 2), i16_at(data, 4), i16_at(data, 6), i16_at(data, 8));
    let rop = data[10];
    let cache_index = u16_at(data, 15);
    if data.len() >= 18 && entry_check(caches, cache_id, cache_index) is Ok
        && caches[cache_id as int][cache_index as int] is Some && rop == 0xCC {
        (v.filled(rect, seq![128u8, 128u8, 255u8, 255u8]).0, Some(rect))
    } else {
        (v, None)
    }
}

/// Try to process a MemBlt order (draws cached bitmap).
pub fn try_process_memblt(cache: &BitmapCache, image: &mut DecodedImage, data: &[u8]) -> (r: SessionResult<
    Option<InclusiveRectangle>,
>)
    requires
        old(image)@.wf(),
    ensures
        final(image)@.wf(),
        r is Ok,
        (final(image)@, r->Ok_0) == cached_bitmap_drawn(old(image)@, cache@, data@),
{
    if data.len() < 18 {
        return Ok(None);
    }
    let mut cursor: ReadCursor<'_> = ReadCursor::new(data);
    let cache_id: u8 = cursor.read_u8();
    cursor.advance(1);
    let x: i16 = cursor.read_i16();
    let y: i16 = cursor.read_i16();
    let width: i16 = cursor.read_i16();
    let height: i16 = cursor.read_i16();
    let rop: u8 = cursor.read_u8();
    cursor.advance(4);
    let cache_index: u16 = cursor.read_u16();
    match cache.get(cache_id, cache_index) {
        Ok(_) => {},
        Err(_) => {
            return Ok(None);
        },
    }
    let dst_rect: InclusiveRectangle = make_inclusive_rect(x, y, width, height);
    if rop != 0xCC {
        return Ok(None);
    }
    let color: [u8; 4] = [128, 128, 255, 255];
    assert(color@ =~= seq![128u8, 128u8, 255u8, 255u8]);
    image.fill_rectangle(&dst_rect, color)?;
    Ok(Some(dst_rect))
}

/// The image after a primary order, and the area that it drew in.
pub open spec fn rendered(v: ImageView, caches: CacheView, data: OrderDataView) -> (
    ImageView,
    Option<InclusiveRectangle>,
) {
    match data {
        OrderDataView::DstBlt(o) => {
            let rect = rect_at(o.x, o.y, o.width, o.height);
            (operated(v, rect, dst_op(o.rop)), Some(rect))
        },
        OrderDataView::OpaqueRect(o) => {
            let rect = rect_at(o.x, o.y, o.width, o.height);
            (v.filled(rect, rgba(o.color)).0, Some(rect))
        },
        OrderDataView::ScrBlt(o) => {
            let rect = rect_at(o.x, o.y, o.width, o.height);
            (v.copied_from(o.src_x, o.src_y, rect).0, Some(rect))
        },
        OrderDataView::PatBlt(o) => {
            let rect = rect_at(o.x, o.y, o.width, o.height);
            (operated(v, rect, pat_op(o.rop, o.brush.style, o.fore_color)), Some(rect))
        },
        OrderDataView::LineTo(o) => {
            let (after, area) = v.lined(o.start_x, o.start_y, o.end_x, o.end_y, rgba(o.pen_color));
            (after, Some(area))
        },
        OrderDataView::MultiOpaqueRect(o) => (
            operated_all(v, o.rectangles, RectOpView::Fill(rgba(o.color)), o.rectangles.len()),
            combined(delta_areas(o.rectangles)),
        ),
        OrderDataView::MultiDstBlt(o) => (
            operated_all(v, o.rectangles, dst_op(o.rop), o.rectangles.len()),
            combined(delta_areas(o.rectangles)),
        ),
        OrderDataView::MultiPatBlt(o) => (
            operated_all(
                v,
                o.rectangles,
                pat_op(o.rop, o.brush.style, o.fore_color),
                o.rectangles.len(),
            ),
            combined(delta_areas(o.rectangles)),
        ),
        OrderDataView::MultiScrBlt(o) => (
            copied_all(v, o, o.rectangles.len()),
            combined(delta_areas(o.rectangles)),
        ),
        OrderDataView::Polyline(o) => {
            let (after, areas) = lined_all(v, o, o.points.len());
            (after, combined(areas))
        },
        OrderDataView::Other(data) => cached_bitmap_drawn(v, caches, data),
    }
}

/// Process a primary drawing order. Gives back the area that it drew in.
pub fn process_primary_order(cache: &BitmapCache, image: &mut DecodedImage, order: &PrimaryOrder) -> (r: SessionResult<
    Option<InclusiveRectangle>,
>)
    requires
        old(image)@.wf(),
    ensures
        final(image)@.wf(),
        r is Ok,
        (final(image)@, r->Ok_0) == rendered(old(image)@, cache@, order@.data),
{
    match &order.data {
        PrimaryOrderData::DstBlt(dstblt) => {
            let rect: InclusiveRectangle = make_inclusive_rect(
                dstblt.x,
                dstblt.y,
                dstblt.width,
                dstblt.height,
            );
            operate(image, &rect, dst_operation(dstblt.rop))?;
            Ok(Some(rect))
        },
        PrimaryOrderData::OpaqueRect(opaque) => {
            let rect: InclusiveRectangle = make_inclusive_rect(
                opaque.x,
                opaque.y,
                opaque.width,
                opaque.height,
            );
            image.fill_rectangle(&rect, rgb_from_u32(opaque.color))?;
            Ok(Some(rect))
        },
        PrimaryOrderData::ScrBlt(scrblt) => {
            let rect: InclusiveRectangle = make_inclusive_rect(
                scrblt.x,
                scrblt.y,
                scrblt.width,
                scrblt.height,
            );
            // Every raster operation is taken for a copy.
            image.copy_rectangle(scrblt.src_x, scrblt.src_y, &rect)?;
            Ok(Some(rect))
        },
        PrimaryOrderData::PatBlt(patblt) => {
            let rect: InclusiveRectangle = make_inclusive_rect(
                patblt.x,
                patblt.y,
                patblt.width,
                patblt.height,
            );
            operate(image, &rect, pat_operation(patblt.rop, patblt.brush.style, patblt.fore_color))?;
            Ok(Some(rect))
        },
        PrimaryOrderData::LineTo(line) => {
            let rect: InclusiveRectangle = image.draw_line(
                line.start_x,
                line.start_y,
                line.end_x,
                line.end_y,
                rgb_from_u32(line.pen_color),
            )?;
            Ok(Some(rect))
        },
        PrimaryOrderData::MultiOpaqueRect(multi) => operate_all(
            image,
            &multi.rectangles,
            RectOp::Fill(rgb_from_u32(multi.color)),
        ),
        PrimaryOrderData::MultiDstBlt(multi) => operate_all(
            image,
            &multi.rectangles,
            dst_operation(multi.rop),
        ),
        PrimaryOrderData::MultiPatBlt(multi) => operate_all(
            image,
            &multi.rectangles,
            pat_operation(multi.rop, multi.brush.style, multi.fore_color),
        ),
        PrimaryOrderData::MultiScrBlt(multi) => copy_all(image, multi),
        PrimaryOrderData::Polyline(poly) => line_all(image, poly),
        PrimaryOrderData::Other(data) => try_process_memblt(cache, image, data.as_slice()),
    }
}

} // verus!
