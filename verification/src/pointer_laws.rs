//! Where the pointer is drawn, and what is reported of it.

use vstd::prelude::*;

use crate::drawing_laws::{around, from_edge};
use crate::geometry::InclusiveRectangle;
use crate::image::{joined, placeable, ImageView};
use crate::image_laws::law_erase_undoes_draw;
use crate::pixel_laws::{
    bytes_of, lemma_on_screen, lemma_painted_bytes, on_screen, pointer_column, pointer_row, under_pointer,
};
use crate::pointer::{blends, DecodedPointer, PointerView};
use crate::raster::{composited, copied};

verus! {

/// A rectangle around two has every point of both, and no edge but theirs.
pub proof fn law_spanning(a: InclusiveRectangle, b: InclusiveRectangle, x: int, y: int)
    ensures
        ({
            let r = a.spanning(b);
            &&& a.contains(x, y) || b.contains(x, y) ==> r.left <= x <= r.right && r.top <= y <= r.bottom
            &&& (r.left == a.left || r.left == b.left) && r.left <= a.left && r.left <= b.left
            &&& (r.top == a.top || r.top == b.top) && r.top <= a.top && r.top <= b.top
            &&& (r.right == a.right || r.right == b.right) && r.right >= a.right && r.right >= b.right
            &&& (r.bottom == a.bottom || r.bottom == b.bottom) && r.bottom >= a.bottom && r.bottom >= b.bottom
        }),
{
}

/// A point is common to two rectangles exactly if both have it.
pub proof fn law_common(a: InclusiveRectangle, b: InclusiveRectangle, x: int, y: int)
    ensures
        (a.left <= x <= a.right && a.top <= y <= a.bottom && b.left <= x <= b.right && b.top <= y <= b.bottom)
            <==> (a.common(b) is Some && {
            let r = a.common(b)->Some_0;
            r.left <= x <= r.right && r.top <= y <= r.bottom
        }),
        a.common(b) is Some ==> {
            let r = a.common(b)->Some_0;
            r.left <= r.right && r.top <= r.bottom
        },
{
}

/// The size of a rectangle, and what it contains.
pub proof fn law_rectangle(r: InclusiveRectangle, x: int, y: int)
    ensures
        r.contains(x, y) <==> r.left <= x <= r.right && r.top <= y <= r.bottom,
        r.left <= r.right && r.right - r.left < 0xFFFF ==> r.columns() == r.right - r.left + 1,
        r.top <= r.bottom && r.bottom - r.top < 0xFFFF ==> r.rows() == r.bottom - r.top + 1,
{
}

/// Whether the pixel lies where the pointer was drawn last.
pub open spec fn in_place(v: ImageView, x: int, y: int) -> bool {
    &&& v.draw_x <= x <= v.draw_x + (v.src.right - v.src.left)
    &&& v.draw_y <= y <= v.draw_y + (v.src.bottom - v.src.top)
}

/// The pointer is taken away for a change of an area exactly if it is shown and some pixel of the area lies
/// where it was drawn.
pub proof fn law_covers(v: ImageView, area: InclusiveRectangle, x: int, y: int)
    requires
        v.wf(),
        v.width > 0,
        v.height > 0,
    ensures
        v.covers(area) ==> v.shown && v.pointer is Some,
        v.covers(area) ==> exists|px: int, py: int| #[trigger] area.contains(px, py) && in_place(v, px, py),
        v.shown && v.pointer is Some && area.left <= x <= area.right && area.top <= y <= area.bottom && in_place(
            v,
            x,
            y,
        ) ==> v.covers(area),
{
    if v.covers(area) {
        let r = area.common(v.dest())->Some_0;
        assert(area.contains(r.left as int, r.top as int) && in_place(v, r.left as int, r.top as int));
    }
}

/// Where the first column of the pointer bitmap would be on an endless screen, and its first row.
pub open spec fn ideal_x(v: ImageView, p: PointerView) -> int {
    v.x - p.hotspot_x
}

pub open spec fn ideal_y(v: ImageView, p: PointerView) -> int {
    v.y - p.hotspot_y
}

/// Whether a pointer is drawn, in one direction: it is not if it reaches the end of the screen and begins in
/// the last pixel or behind it.
pub open spec fn begins_in_time(ideal: int, size: int, extent: int) -> bool {
    ideal + size < extent || ideal + 1 < extent && 1 < extent
}

/// Whether a pointer is cut off at one end of the screen at most.
pub open spec fn cut_once(ideal: int, size: int, extent: int) -> bool {
    &&& 0 <= ideal || ideal + size < extent
    &&& ideal + size >= 1
}

/// A shown pointer is put where its hotspot is: the pixel of the image in column `x` and row `y` lies under
/// the pixel of the bitmap that is as far from the hotspot as the pixel is from the position of the pointer,
/// and under none where the bitmap has no such pixel.
#[verifier::spinoff_prover]
#[verifier::rlimit(60)]
pub proof fn law_pointer_is_at_its_position(v: ImageView, x: int, y: int)
    requires
        v.shown,
        v.pointer is Some,
        v.pointer->Some_0.width >= 1,
        v.pointer->Some_0.height >= 1,
        on_screen(v, x, y),
        cut_once(ideal_x(v, v.pointer->Some_0), v.pointer->Some_0.width as int, v.width as int),
        cut_once(ideal_y(v, v.pointer->Some_0), v.pointer->Some_0.height as int, v.height as int),
    ensures
        ({
            let p = v.pointer->Some_0;
            let after = v.placed();
            let px = x - v.x + p.hotspot_x;
            let py = y - v.y + p.hotspot_y;
            &&& after.visible <==> begins_in_time(ideal_x(v, p), p.width as int, v.width as int) && begins_in_time(
                ideal_y(v, p),
                p.height as int,
                v.height as int,
            )
            &&& after.visible ==> (under_pointer(after, x, y) <==> 0 <= px < p.width && 0 <= py < p.height)
            &&& after.visible ==> pointer_column(after, x) == px && pointer_row(after, y) == py
        }),
{
}

/// Finding the place of the pointer changes nothing but the place.
pub proof fn law_placing_changes_the_place_alone(v: ImageView)
    ensures
        ({
            let after = v.placed();
            &&& after.data == v.data
            &&& after.saved == v.saved
            &&& after.pointer == v.pointer
            &&& after.x == v.x && after.y == v.y
            &&& after.shown == v.shown
            &&& after.width == v.width && after.height == v.height && after.format == v.format
            &&& !v.shown || v.pointer is None ==> after == v
        }),
{
}

/// A pointer that is drawn and then moved shows at its new position over the image that it covered, as if
/// it had never been at the old one.
pub proof fn law_moved_pointer_leaves_nothing_behind(s: ImageView, x: u16, y: u16)
    requires
        s.sized(),
        s.shown,
        s.visible,
        s.pointer is Some,
    ensures
        ({
            let moved = s.drawn().0.pointer_moved(x, y).0;
            let there = ImageView { x, y, ..s };
            &&& moved.data == there.placed().drawn().0.data
            &&& moved.x == x && moved.y == y
            &&& moved.visible == there.placed().visible
            &&& moved.src == there.placed().src
            &&& moved.draw_x == there.placed().draw_x && moved.draw_y == there.placed().draw_y
            &&& moved.pointer == s.pointer && moved.shown
        }),
{
    law_erase_undoes_draw(s);
    let d = s.drawn().0;
    let there = ImageView { x, y, ..d };
    assert(there.erased().0.data == d.erased().0.data);
    let bare = there.erased().0;
    let fresh = ImageView { x, y, ..s };
    assert(bare.data == fresh.data);
    assert(bare.placed().drawn().0.data == fresh.placed().drawn().0.data);
}

/// Another pointer shows at the same position over the image that the last one covered.
pub proof fn law_replaced_pointer_leaves_nothing_behind(s: ImageView, p: PointerView)
    requires
        s.sized(),
        s.shown,
        s.visible,
        s.pointer is Some,
    ensures
        ({
            let replaced = s.drawn().0.pointer_replaced(p).0;
            let fresh = ImageView { pointer: Some(p), ..s };
            &&& replaced.data == fresh.placed().drawn().0.data
            &&& replaced.pointer == Some(p)
            &&& replaced.shown
            &&& replaced.x == s.x && replaced.y == s.y
        }),
{
    law_erase_undoes_draw(s);
    let d = s.drawn().0;
    let shown = ImageView { shown: true, ..d };
    assert(shown =~= d);
    let bare = ImageView { pointer: Some(p), ..d.erased().0 };
    let fresh = ImageView { pointer: Some(p), ..s };
    assert(bare.data == fresh.data);
    assert(bare.placed().drawn().0.data == fresh.placed().drawn().0.data);
}

/// The first pointer is drawn over the image as it is.
pub proof fn law_first_pointer_is_drawn(v: ImageView, p: PointerView)
    requires
        v.pointer is None,
    ensures
        ({
            let first = v.pointer_replaced(p).0;
            let fresh = ImageView { pointer: Some(p), shown: true, ..v };
            &&& first == fresh.placed().drawn().0
            &&& v.pointer_replaced(p).1 == fresh.placed().drawn().1
        }),
{
}

/// A hidden pointer takes note of where it is moved, and nothing else happens; showing a shown pointer and
/// hiding a hidden one do nothing.
pub proof fn law_hidden_pointer_moves_unseen(v: ImageView, x: u16, y: u16)
    ensures
        !v.shown || v.pointer is None ==> v.pointer_moved(x, y) == (
            ImageView { x, y, ..v },
            None::<InclusiveRectangle>,
        ),
        v.shown ==> v.pointer_shown() == (v, None::<InclusiveRectangle>),
        !v.shown ==> v.pointer_hidden() == (v, None::<InclusiveRectangle>),
        v.pointer_shown().0.shown,
        !v.pointer_hidden().0.shown,
{
}

/// The area that is reported for a moved pointer has both of its places.
pub proof fn law_joined(a: Option<InclusiveRectangle>, b: Option<InclusiveRectangle>, x: int, y: int)
    ensures
        joined(a, b) is None <==> a is None && b is None,
        a is Some && b is None ==> joined(a, b) == a,
        b is Some && a is None ==> joined(a, b) == b,
        a is Some && a->Some_0.contains(x, y) ==> joined(a, b) is Some && joined(a, b)->Some_0.contains(x, y),
        b is Some && b->Some_0.contains(x, y) ==> joined(a, b) is Some && joined(a, b)->Some_0.contains(x, y),
{
}

proof fn lemma_pointer_stays_in_place(v: ImageView, x: int, y: int)
    requires
        v.sized(),
        on_screen(v, x, y),
        !in_place(v, x, y),
    ensures
        bytes_of(v.drawn().0, x, y) == bytes_of(v, x, y),
        bytes_of(v.erased().0, x, y) == bytes_of(v, x, y),
{
    lemma_on_screen(v, x, y);
    let w = v.width as int;
    lemma_painted_bytes(
        v,
        v.data,
        v.draw_x as int,
        v.draw_y as int,
        v.cols(),
        v.rows() as nat,
        copied(v.saved, 0, v.cols()),
        x,
        y,
    );
    assert(bytes_of(v.erased().0, x, y) =~= bytes_of(v, x, y));
    match v.pointer {
        Some(p) => {
            lemma_painted_bytes(
                v,
                v.data,
                v.draw_x as int,
                v.draw_y as int,
                v.cols(),
                v.rows() as nat,
                composited(p.bitmap, v.src.top * p.width + v.src.left, p.width as int),
                x,
                y,
            );
        },
        None => {},
    }
    assert(bytes_of(v.drawn().0, x, y) =~= bytes_of(v, x, y));
}

/// Whether a change of the pixels leaves the pixel in column `x` and row `y` alone.
pub open spec fn leaves(v: ImageView, change: spec_fn(Seq<u8>) -> Seq<u8>, x: int, y: int) -> bool {
    forall|d: Seq<u8>, c: int|
        d.len() == v.data.len() && 0 <= c < 4 ==> #[trigger] change(d)[(y * v.width + x) * 4 + c] == d[(y * v.width
            + x) * 4 + c]
}

/// Every pixel that is another one after a change lies in the area that is reported, also where the
/// pointer was taken away for the change and drawn again. So does the whole area that was changed.
#[verifier::spinoff_prover]
#[verifier::rlimit(60)]
pub proof fn law_changes_are_reported(
    v: ImageView,
    area: InclusiveRectangle,
    change: spec_fn(Seq<u8>) -> Seq<u8>,
    x: int,
    y: int,
)
    requires
        v.wf(),
        on_screen(v, x, y),
        forall|d: Seq<u8>| (#[trigger] change(d)).len() == d.len(),
        !area.contains(x, y) ==> leaves(v, change, x, y),
    ensures
        ({
            let (after, reported) = v.changed(area, change);
            &&& bytes_of(after, x, y) != bytes_of(v, x, y) ==> reported.contains(x, y)
            &&& area.contains(x, y) ==> reported.contains(x, y)
            &&& !v.covers(area) ==> reported == area
        }),
{
    let (after, reported) = v.changed(area, change);
    if !area.contains(x, y) {
        if v.covers(area) && !in_place(v, x, y) {
            lemma_pointer_stays_in_place(v, x, y);
            let bare = v.erased().0;
            crate::image::lemma_erased_shape(v);
            let w = ImageView { data: change(bare.data), ..bare };
            assert(bytes_of(w, x, y) =~= bytes_of(bare, x, y));
            lemma_pointer_stays_in_place(w, x, y);
        } else if !v.covers(area) {
            assert(bytes_of(after, x, y) =~= bytes_of(v, x, y));
        } else {
            if v.data.len() == 0 || v.saved.len() == 0 {
                lemma_on_screen(v, x, y);
                assert(bytes_of(after, x, y) =~= bytes_of(v, x, y));
            } else {
                assert(v.dest().contains(x, y));
                assert(v.erased().1 == Some(v.dest()));
            }
        }
    }
}

/// Where the pointer is, as a rectangle.
pub open spec fn place_of(v: ImageView) -> InclusiveRectangle {
    InclusiveRectangle {
        left: v.draw_x,
        top: v.draw_y,
        right: (v.draw_x + (v.src.right - v.src.left)) as u16,
        bottom: (v.draw_y + (v.src.bottom - v.src.top)) as u16,
    }
}

/// Drawing the pointer and taking it away report its place: drawing if there is a pointer on the screen,
/// taking away if something was kept aside for it. Nothing is reported otherwise, and nothing changes.
pub proof fn law_pointer_place_is_reported(v: ImageView)
    requires
        v.sized(),
    ensures
        v.pointer is Some && v.visible && v.data.len() > 0 ==> v.drawn().1 == Some(place_of(v)),
        !(v.pointer is Some && v.visible && v.data.len() > 0) ==> v.drawn() == (v, None::<InclusiveRectangle>),
        v.pointer is Some && v.saved.len() > 0 && v.data.len() > 0 ==> v.erased().1 == Some(place_of(v)),
        !(v.pointer is Some && v.saved.len() > 0 && v.data.len() > 0) ==> v.erased() == (
            v,
            None::<InclusiveRectangle>,
        ),
{
}

/// A hidden pointer that is shown is drawn, and a shown one that is hidden is taken away; both report where.
pub proof fn law_show_draws_and_hide_erases(v: ImageView)
    ensures
        !v.shown ==> v.pointer_shown() == (ImageView { shown: true, ..v }).drawn(),
        v.shown ==> v.pointer_hidden() == (ImageView { shown: false, ..v }).erased(),
{
}

/// A change below a pointer that is drawn looks as if the pointer had been drawn after the change, and the
/// area that is reported is the one around the change and the place of the pointer.
pub proof fn law_pointer_stays_on_top(s: ImageView, area: InclusiveRectangle, change: spec_fn(Seq<u8>) -> Seq<u8>)
    requires
        s.sized(),
        s.shown,
        s.visible,
        s.pointer is Some,
        s.data.len() > 0,
        s.covers(area),
        forall|d: Seq<u8>| (#[trigger] change(d)).len() == d.len(),
    ensures
        ({
            let (after, reported) = s.drawn().0.changed(area, change);
            &&& after.data == (ImageView { data: change(s.data), ..s }).drawn().0.data
            &&& reported == around(Some(area), place_of(s))
        }),
{
    law_erase_undoes_draw(s);
    let d = s.drawn().0;
    crate::image::lemma_drawn_shape(s);
    let cols = s.cols();
    let rows = s.rows();
    assert(cols * rows * 4 > 0) by (nonlinear_arith)
        requires
            cols > 0,
            rows > 0,
    ;
    crate::raster::lemma_paint_rows_len(
        crate::image::with_room(s.saved, cols * rows * 4),
        0,
        cols,
        cols,
        rows as nat,
        copied(s.data, s.corner(), s.width as int),
    );
    assert(d.saved.len() > 0);
    let bare = d.erased().0;
    let w = ImageView { data: change(bare.data), ..bare };
    let fresh = ImageView { data: change(s.data), ..s };
    assert(w.data == fresh.data);
    assert(w.drawn().0.data == fresh.drawn().0.data);
    assert(d.covers(area));
}

/// A pointer is cut off at the edges of the screen, in each direction on its own: what lies before the first
/// pixel of the screen is left out, and so is what lies behind the last.
pub proof fn law_pointer_is_cut(v: ImageView)
    requires
        v.shown,
        v.pointer is Some,
        v.placed().visible,
        placeable(v.pointer->Some_0, v.x, v.y, v.width, v.height),
    ensures
        ({
            let p = v.pointer->Some_0;
            let after = v.placed();
            let (x, y) = (ideal_x(v, p), ideal_y(v, p));
            &&& after.draw_x == from_edge(x) && after.draw_y == from_edge(y)
            &&& after.src.left == from_edge(-x) && after.src.top == from_edge(-y)
            &&& x + p.width < v.width ==> after.src.right == p.width - 1
            &&& x + p.width >= v.width ==> after.src.right + from_edge(x) == v.width - 1
            &&& y + p.height < v.height ==> after.src.bottom == p.height - 1
            &&& y + p.height >= v.height ==> after.src.bottom + from_edge(y) == v.height - 1
        }),
{
}

/// A pointer whose colours are multiplied by their opacity can be drawn if its bitmap is complete.
pub proof fn law_multiplied_pointer_is_drawable(p: &DecodedPointer, r: bool)
    requires
        call_ensures(DecodedPointer::is_drawable, (p,), r),
        p.bitmap_data@.len() >= p.width * p.height * 4,
        forall|k: int|
            #![trigger p.bitmap_data@[4 * k + 3]]
            0 <= k < p.width * p.height && p.bitmap_data@[4 * k + 3] != 0 ==> p.bitmap_data@[4 * k]
                <= p.bitmap_data@[4 * k + 3] && p.bitmap_data@[4 * k + 1] <= p.bitmap_data@[4 * k + 3]
                && p.bitmap_data@[4 * k + 2] <= p.bitmap_data@[4 * k + 3],
    ensures
        r,
{
    assert forall|k: int|
        #![trigger p@.bitmap[4 * k + 3]]
        0 <= k < p.width * p.height && p@.bitmap[4 * k + 3] != 0 implies {
        &&& blends(p@.bitmap[4 * k], p@.bitmap[4 * k + 3])
        &&& blends(p@.bitmap[4 * k + 1], p@.bitmap[4 * k + 3])
        &&& blends(p@.bitmap[4 * k + 2], p@.bitmap[4 * k + 3])
    } by {
        assert(p.bitmap_data@[4 * k + 3] != 0);
    }
}

/// A pointer whose bitmap is cut off cannot be drawn.
pub proof fn law_short_pointer_is_not_drawable(p: &DecodedPointer, r: bool)
    requires
        call_ensures(DecodedPointer::is_drawable, (p,), r),
        p.bitmap_data@.len() < p.width * p.height * 4,
    ensures
        !r,
{
}

} // verus!
