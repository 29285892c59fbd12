//! Processing of drawing orders.

use vstd::prelude::*;

use crate::bitmap_cache::{caches_wf, same_entries, BitmapCache, CacheView};
use crate::bitmap_caching::{
    cache_bitmap_at, cache_order_ends_well, cache_order_fails, cache_order_is_whole, cached, ends_well,
    inflate_request, is_compressed, is_whole_order, lemma_cached, optional_bytes, process_cache_bitmap_v2,
    will_fail, InflateRequest,
};
use crate::cursor::ReadCursor;
use crate::drawing_orders::{
    DrawingOrder, DrawingOrderState, OrderStateView, OrderView, SecondaryOrder, SecondaryOrderType,
};
use crate::error::{SessionError, SessionResult};
use crate::fast_path_update::order_views;
use crate::geometry::InclusiveRectangle;
use crate::image::{DecodedImage, ImageView};
use crate::order_decoding::{decode_order, order_at};
use crate::order_rendering::{process_primary_order, rendered};
use crate::palette::{ColorPalette, PaletteEntry};
use crate::pointer_updates::UpdateKind;

verus! {

/// What drawing orders draw on and cache.
#[verifier::ext_equal]
pub struct Canvas {
    pub image: ImageView,
    pub caches: CacheView,
}

/// What became of the run-length encoded bitmaps that orders cache: entry `k` for order `k`, nothing
/// where the bitmap could not be decompressed.
pub open spec fn inflated_bytes(list: Seq<Option<Vec<u8>>>, k: int) -> Option<Seq<u8>> {
    if 0 <= k < list.len() {
        match list[k] {
            Some(data) => Some(data@),
            None => None,
        }
    } else {
        None
    }
}

/// The canvas after an order, and the area that the order drew in.
pub open spec fn order_applied(
    c: Canvas,
    palette: Seq<PaletteEntry>,
    order: OrderView,
    inflated: Option<Seq<u8>>,
) -> (Canvas, SessionResult<Option<InclusiveRectangle>>) {
    match order {
        OrderView::Primary(primary) => {
            let (image, area) = rendered(c.image, c.caches, primary.data);
            (Canvas { image, ..c }, Ok(area))
        },
        OrderView::Secondary(SecondaryOrderType::CacheBitmapV2, data) => {
            let (caches, result) = cached(c.caches, palette, data, inflated);
            (
                Canvas { caches, ..c },
                match result {
                    Ok(_) => Ok(None),
                    Err(e) => Err(e),
                },
            )
        },
        _ => (c, Ok(None)),
    }
}

/// Whether an order that caches a bitmap is complete.
pub open spec fn order_is_whole(order: OrderView, inflated: Option<Seq<u8>>) -> bool {
    order matches OrderView::Secondary(SecondaryOrderType::CacheBitmapV2, data) ==> cache_order_is_whole(
        data,
        inflated,
    )
}

/// Whether an order fails. Only those that cache bitmaps can, and whether they do does not depend on what
/// the caches hold.
pub open spec fn order_fails(caches: CacheView, order: OrderView, inflated: Option<Seq<u8>>) -> bool {
    order matches OrderView::Secondary(SecondaryOrderType::CacheBitmapV2, data) && cache_order_fails(
        caches,
        data,
        inflated,
    )
}

/// An order leaves the caches with the same entries.
proof fn lemma_order_applied(
    c: Canvas,
    palette: Seq<PaletteEntry>,
    order: OrderView,
    inflated: Option<Seq<u8>>,
)
    ensures
        order_applied(c, palette, order, inflated).1 is Err <==> order_fails(c.caches, order, inflated),
        same_entries(order_applied(c, palette, order, inflated).0.caches, c.caches),
{
    match order {
        OrderView::Secondary(SecondaryOrderType::CacheBitmapV2, data) => {
            lemma_cached(c.caches, palette, data, inflated);
        },
        _ => {},
    }
}

/// Processes a secondary order. Only orders that cache bitmaps (revision 2) do something.
pub fn process_secondary_order(
    cache: &mut BitmapCache,
    palette: &ColorPalette,
    secondary: &SecondaryOrder<'_>,
    inflated: Option<&[u8]>,
) -> (r: SessionResult<()>)
    requires
        secondary.order_type is CacheBitmapV2 ==> cache_order_is_whole(
            secondary.data@,
            optional_bytes(inflated),
        ),
    ensures
        secondary.order_type is CacheBitmapV2 ==> (final(cache)@, r) == cached(
            old(cache)@,
            palette@,
            secondary.data@,
            optional_bytes(inflated),
        ),
        !(secondary.order_type is CacheBitmapV2) ==> final(cache)@ == old(cache)@ && r is Ok,
        caches_wf(old(cache)@) ==> caches_wf(final(cache)@),
{
    match secondary.order_type {
        SecondaryOrderType::CacheBitmapV2 => process_cache_bitmap_v2(cache, palette, secondary.data, inflated),
        _ => Ok(()),
    }
}

/// Process a single drawing order and apply it to the image.
///
/// Returns the affected rectangle if the order modified the image.
pub fn process_drawing_order(
    cache: &mut BitmapCache,
    palette: &ColorPalette,
    image: &mut DecodedImage,
    order: &DrawingOrder<'_>,
    inflated: Option<&[u8]>,
) -> (r: SessionResult<Option<InclusiveRectangle>>)
    requires
        old(image)@.wf(),
        order_is_whole(order@, optional_bytes(inflated)),
    ensures
        final(image)@.wf(),
        caches_wf(old(cache)@) ==> caches_wf(final(cache)@),
        ((Canvas { image: final(image)@, caches: final(cache)@ }), r) == order_applied(
            (Canvas { image: old(image)@, caches: old(cache)@ }),
            palette@,
            order@,
            optional_bytes(inflated),
        ),
{
    match order {
        DrawingOrder::Primary(primary) => process_primary_order(cache, image, primary),
        DrawingOrder::Secondary(secondary) => {
            match process_secondary_order(cache, palette, secondary, inflated) {
                Ok(()) => Ok(None),
                Err(e) => Err(e),
            }
        },
        DrawingOrder::AlternateSecondary(_) => Ok(None),
    }
}

/// How far the processing of some orders has come.
#[verifier::ext_equal]
pub struct OrdersRun {
    pub canvas: Canvas,
    /// What the next order starts from.
    pub state: OrderStateView,
    /// The orders that have not been read yet.
    pub rest: Seq<u8>,
    /// What orders drew in so far.
    pub areas: Seq<InclusiveRectangle>,
    /// No more orders, or one that cannot be read.
    pub ended: bool,
    /// An order that could not be processed.
    pub error: Option<SessionError>,
}

/// `areas` with another one behind it, if there is one.
pub open spec fn with_area(areas: Seq<InclusiveRectangle>, area: Option<InclusiveRectangle>) -> Seq<
    InclusiveRectangle,
> {
    match area {
        Some(rect) => areas.push(rect),
        None => areas,
    }
}

impl OrdersRun {
    /// Whether there may be another order.
    pub open spec fn goes_on(self) -> bool {
        !self.ended && self.error is None && self.rest.len() > 0
    }

    /// One order on.
    pub open spec fn next(self, palette: Seq<PaletteEntry>, inflated: Option<Seq<u8>>) -> OrdersRun {
        if self.goes_on() {
            let decoded = order_at(self.rest, self.state);
            let read = OrdersRun { state: decoded.state, rest: decoded.rest, ..self };
            match decoded.result {
                Err(_) => OrdersRun { ended: true, ..read },
                Ok(order) => {
                    let (canvas, result) = order_applied(self.canvas, palette, order, inflated);
                    match result {
                        Ok(area) => OrdersRun { canvas, areas: with_area(self.areas, area), ..read },
                        Err(e) => OrdersRun { canvas, error: Some(e), ..read },
                    }
                },
            }
        } else {
            self
        }
    }

    /// `n` orders on.
    pub open spec fn after(self, palette: Seq<PaletteEntry>, inflated: Seq<Option<Vec<u8>>>, n: nat) -> OrdersRun
        decreases n,
    {
        if n == 0 {
            self
        } else {
            self.after(palette, inflated, (n - 1) as nat).next(palette, inflated_bytes(inflated, n - 1))
        }
    }

    /// Whether the first `n` orders are complete as far as they are processed.
    pub open spec fn whole(self, palette: Seq<PaletteEntry>, inflated: Seq<Option<Vec<u8>>>, n: nat) -> bool {
        forall|k: int|
            0 <= k < n ==> #[trigger] self.after(palette, inflated, k as nat).next_is_whole(
                inflated_bytes(inflated, k),
            )
    }

    /// Whether the next order is complete.
    pub open spec fn next_is_whole(self, inflated: Option<Seq<u8>>) -> bool {
        self.goes_on() ==> (order_at(self.rest, self.state).result matches Ok(order) ==> order_is_whole(
            order,
            inflated,
        ))
    }

    /// The updates of the orders, or why an order failed.
    pub open spec fn result(self) -> SessionResult<Seq<UpdateKind>> {
        match self.error {
            Some(e) => Err(e),
            None => Ok(regions(self.areas)),
        }
    }
}

/// Areas as updates.
pub open spec fn regions(areas: Seq<InclusiveRectangle>) -> Seq<UpdateKind> {
    Seq::new(areas.len(), |i: int| UpdateKind::Region(areas[i]))
}

/// A run that has come to its end stays there.
proof fn lemma_run_ends(start: OrdersRun, palette: Seq<PaletteEntry>, inflated: Seq<Option<Vec<u8>>>, k: nat, n: nat)
    requires
        k <= n,
        !start.after(palette, inflated, k).goes_on(),
    ensures
        start.after(palette, inflated, n) == start.after(palette, inflated, k),
    decreases n - k,
{
    if k < n {
        lemma_run_ends(start, palette, inflated, k, (n - 1) as nat);
    }
}

/// Before any order.
pub open spec fn orders_start(canvas: Canvas, state: OrderStateView, data: Seq<u8>) -> OrdersRun {
    OrdersRun { canvas, state, rest: data, areas: Seq::empty(), ended: false, error: None }
}

fn inflated_entry(inflated: &[Option<Vec<u8>>], k: usize) -> (r: Option<&[u8]>)
    ensures
        optional_bytes(r) == inflated_bytes(inflated@, k as int),
{
    if k < inflated.len() {
        match &inflated[k] {
            Some(data) => Some(data.as_slice()),
            None => None,
        }
    } else {
        None
    }
}

/// Reads and processes up to `number_orders` orders. The first one that cannot be read ends the
/// update; one that cannot be processed makes it fail.
#[verifier::rlimit(60)]
pub fn process_orders(
    cache: &mut BitmapCache,
    palette: &ColorPalette,
    state: &mut DrawingOrderState,
    image: &mut DecodedImage,
    number_orders: u16,
    order_data: &[u8],
    inflated: &[Option<Vec<u8>>],
) -> (r: SessionResult<Vec<UpdateKind>>)
    requires
        old(image)@.wf(),
        orders_start(
            (Canvas { image: old(image)@, caches: old(cache)@ }),
            old(state)@,
            order_data@,
        ).whole(palette@, inflated@, number_orders as nat),
    ensures
        final(image)@.wf(),
        caches_wf(old(cache)@) ==> caches_wf(final(cache)@),
        ({
            let run = orders_start(
                (Canvas { image: old(image)@, caches: old(cache)@ }),
                old(state)@,
                order_data@,
            ).after(palette@, inflated@, number_orders as nat);
            &&& final(image)@ == run.canvas.image
            &&& final(cache)@ == run.canvas.caches
            &&& final(state)@ == run.state
            &&& match r {
                Ok(updates) => run.result() == Ok::<Seq<UpdateKind>, SessionError>(updates@),
                Err(e) => run.result() == Err::<Seq<UpdateKind>, SessionError>(e),
            }
        }),
{
    let mut cursor: ReadCursor<'_> = ReadCursor::new(order_data);
    let mut updates: Vec<UpdateKind> = Vec::new();
    let ghost start = orders_start((Canvas { image: image@, caches: cache@ }), state@, order_data@);
    let ghost mut areas: Seq<InclusiveRectangle> = Seq::empty();
    let ghost wanted = number_orders as nat;
    let mut k: u16 = 0;
    assert(updates@ =~= regions(areas));
    while k < number_orders && !cursor.is_empty()
        invariant
            k <= number_orders,
            wanted == number_orders,
            start == orders_start(
                (Canvas { image: old(image)@, caches: old(cache)@ }),
                old(state)@,
                order_data@,
            ),
            start.whole(palette@, inflated@, wanted),
            image@.wf(),
            caches_wf(old(cache)@) ==> caches_wf(cache@),
            start.after(palette@, inflated@, k as nat) == (OrdersRun {
                canvas: Canvas { image: image@, caches: cache@ },
                state: state@,
                rest: cursor@,
                areas,
                ended: false,
                error: None,
            }),
            updates@ == regions(areas),
        decreases number_orders - k,
    {
        let ghost before = start.after(palette@, inflated@, k as nat);
        assert(before.goes_on());
        assert(before.next_is_whole(inflated_bytes(inflated@, k as int)));
        let ghost after = start.after(palette@, inflated@, (k + 1) as nat);
        match decode_order(&mut cursor, state) {
            Ok(order) => {
                let entry: Option<&[u8]> = inflated_entry(inflated, k as usize);
                match process_drawing_order(cache, palette, image, &order, entry) {
                    Ok(Some(rect)) => {
                        updates.push(UpdateKind::Region(rect));
                        proof {
                            let longer = areas.push(rect);
                            assert(updates@ =~= regions(longer));
                            areas = longer;
                        }
                    },
                    Ok(None) => {},
                    Err(e) => {
                        proof {
                            assert(after.error == Some(e));
                            lemma_run_ends(start, palette@, inflated@, (k + 1) as nat, wanted);
                        }
                        return Err(e);
                    },
                }
            },
            Err(_) => {
                proof {
                    assert(after.ended);
                    lemma_run_ends(start, palette@, inflated@, (k + 1) as nat, wanted);
                }
                return Ok(updates);
            },
        }
        k = k + 1;
    }
    proof {
        if k < number_orders {
            lemma_run_ends(start, palette@, inflated@, k as nat, wanted);
        }
    }
    Ok(updates)
}

/// The canvas and the areas after the first `n` of some orders, and why one failed, if one did.
pub open spec fn orders_applied(
    canvas: Canvas,
    palette: Seq<PaletteEntry>,
    orders: Seq<OrderView>,
    inflated: Seq<Option<Vec<u8>>>,
    n: nat,
) -> (Canvas, Seq<InclusiveRectangle>, Option<SessionError>)
    decreases n,
{
    if n == 0 {
        (canvas, Seq::empty(), None)
    } else {
        let before = orders_applied(canvas, palette, orders, inflated, (n - 1) as nat);
        if before.2 is Some {
            before
        } else {
            let (after, result) = order_applied(
                before.0,
                palette,
                orders[n - 1],
                inflated_bytes(inflated, n - 1),
            );
            match result {
                Ok(area) => (after, with_area(before.1, area), None),
                Err(e) => (after, before.1, Some(e)),
            }
        }
    }
}

/// Whether order `k` is processed: none of those before it fails.
#[verifier::opaque]
pub open spec fn is_reached(
    canvas: Canvas,
    palette: Seq<PaletteEntry>,
    orders: Seq<OrderView>,
    inflated: Seq<Option<Vec<u8>>>,
    k: int,
) -> bool {
    orders_applied(canvas, palette, orders, inflated, k as nat).2 is None
}

/// Whether orders that cache bitmaps are complete as far as they are processed.
pub open spec fn orders_are_whole(
    canvas: Canvas,
    palette: Seq<PaletteEntry>,
    orders: Seq<OrderView>,
    inflated: Seq<Option<Vec<u8>>>,
) -> bool {
    forall|k: int|
        0 <= k < orders.len() && is_reached(canvas, palette, orders, inflated, k) ==> #[trigger] order_is_whole(
            orders[k],
            inflated_bytes(inflated, k),
        )
}

/// As long as no order fails, the caches have the same entries.
proof fn lemma_none_failed(
    canvas: Canvas,
    palette: Seq<PaletteEntry>,
    orders: Seq<OrderView>,
    inflated: Seq<Option<Vec<u8>>>,
    n: nat,
)
    requires
        forall|k: int|
            0 <= k < n ==> !#[trigger] order_fails(canvas.caches, orders[k], inflated_bytes(inflated, k)),
    ensures
        orders_applied(canvas, palette, orders, inflated, n).2 is None,
        same_entries(orders_applied(canvas, palette, orders, inflated, n).0.caches, canvas.caches),
    decreases n,
{
    if n > 0 {
        let m = (n - 1) as nat;
        lemma_none_failed(canvas, palette, orders, inflated, m);
        let before = orders_applied(canvas, palette, orders, inflated, m).0;
        lemma_order_applied(before, palette, orders[n - 1], inflated_bytes(inflated, n - 1));
        assert(!order_fails(canvas.caches, orders[n - 1], inflated_bytes(inflated, n - 1)));
    }
}

proof fn lemma_applied_ends(
    canvas: Canvas,
    palette: Seq<PaletteEntry>,
    orders: Seq<OrderView>,
    inflated: Seq<Option<Vec<u8>>>,
    k: nat,
    n: nat,
)
    requires
        k <= n,
        orders_applied(canvas, palette, orders, inflated, k).2 is Some,
    ensures
        orders_applied(canvas, palette, orders, inflated, n) == orders_applied(
            canvas,
            palette,
            orders,
            inflated,
            k,
        ),
    decreases n - k,
{
    if k < n {
        lemma_applied_ends(canvas, palette, orders, inflated, k, (n - 1) as nat);
    }
}

/// An order is reached if none before it fails.
proof fn lemma_reached(
    canvas: Canvas,
    palette: Seq<PaletteEntry>,
    orders: Seq<OrderView>,
    inflated: Seq<Option<Vec<u8>>>,
    n: int,
)
    requires
        0 <= n,
        forall|k: int|
            0 <= k < n ==> !#[trigger] order_fails(canvas.caches, orders[k], inflated_bytes(inflated, k)),
    ensures
        is_reached(canvas, palette, orders, inflated, n),
{
    reveal(is_reached);
    lemma_none_failed(canvas, palette, orders, inflated, n as nat);
}

/// No order behind one that fails is reached.
proof fn lemma_not_reached(
    canvas: Canvas,
    palette: Seq<PaletteEntry>,
    orders: Seq<OrderView>,
    inflated: Seq<Option<Vec<u8>>>,
    n: int,
    m: int,
)
    requires
        0 <= n < m,
        forall|k: int|
            0 <= k < n ==> !#[trigger] order_fails(canvas.caches, orders[k], inflated_bytes(inflated, k)),
        order_fails(canvas.caches, orders[n], inflated_bytes(inflated, n)),
    ensures
        !is_reached(canvas, palette, orders, inflated, m),
{
    reveal(is_reached);
    lemma_none_failed(canvas, palette, orders, inflated, n as nat);
    let before = orders_applied(canvas, palette, orders, inflated, n as nat).0;
    lemma_order_applied(before, palette, orders[n], inflated_bytes(inflated, n));
    lemma_applied_ends(canvas, palette, orders, inflated, (n + 1) as nat, m as nat);
}

/// Processes orders that have been read. The first one that cannot be processed makes the update fail.
#[verifier::rlimit(60)]
pub fn apply_orders(
    cache: &mut BitmapCache,
    palette: &ColorPalette,
    image: &mut DecodedImage,
    orders: &Vec<DrawingOrder<'_>>,
    inflated: &[Option<Vec<u8>>],
) -> (r: SessionResult<Vec<UpdateKind>>)
    requires
        old(image)@.wf(),
        orders_are_whole(
            (Canvas { image: old(image)@, caches: old(cache)@ }),
            palette@,
            order_views(orders@),
            inflated@,
        ),
    ensures
        final(image)@.wf(),
        caches_wf(old(cache)@) ==> caches_wf(final(cache)@),
        ({
            let (canvas, areas, error) = orders_applied(
                (Canvas { image: old(image)@, caches: old(cache)@ }),
                palette@,
                order_views(orders@),
                inflated@,
                orders@.len(),
            );
            &&& final(image)@ == canvas.image
            &&& final(cache)@ == canvas.caches
            &&& match r {
                Ok(updates) => error is None && updates@ == regions(areas),
                Err(e) => error == Some(e),
            }
        }),
{
    let mut updates: Vec<UpdateKind> = Vec::new();
    let ghost start = Canvas { image: image@, caches: cache@ };
    let ghost list = order_views(orders@);
    let ghost mut areas: Seq<InclusiveRectangle> = Seq::empty();
    let mut k: usize = 0;
    assert(updates@ =~= regions(areas));
    while k < orders.len()
        invariant
            k <= orders@.len(),
            list == order_views(orders@),
            start == (Canvas { image: old(image)@, caches: old(cache)@ }),
            orders_are_whole(start, palette@, list, inflated@),
            image@.wf(),
            caches_wf(old(cache)@) ==> caches_wf(cache@),
            orders_applied(start, palette@, list, inflated@, k as nat) == (
                (Canvas { image: image@, caches: cache@ }),
                areas,
                None::<SessionError>,
            ),
            updates@ == regions(areas),
        decreases orders@.len() - k,
    {
        let entry: Option<&[u8]> = inflated_entry(inflated, k);
        let order: &DrawingOrder<'_> = &orders[k];
        assert(list[k as int] == order@);
        assert(is_reached(start, palette@, list, inflated@, k as int)) by {
            reveal(is_reached);
        }
        assert(order_is_whole(list[k as int], inflated_bytes(inflated@, k as int)));
        match process_drawing_order(cache, palette, image, order, entry) {
            Ok(Some(rect)) => {
                updates.push(UpdateKind::Region(rect));
                proof {
                    let longer = areas.push(rect);
                    assert(updates@ =~= regions(longer));
                    areas = longer;
                }
            },
            Ok(None) => {},
            Err(e) => {
                proof {
                    lemma_applied_ends(
                        start,
                        palette@,
                        list,
                        inflated@,
                        (k + 1) as nat,
                        orders@.len(),
                    );
                }
                return Err(e);
            },
        }
        k = k + 1;
    }
    Ok(updates)
}

/// Whether an order that caches a bitmap is complete.
pub fn is_order_whole(order: &DrawingOrder<'_>, inflated: Option<&[u8]>) -> (r: bool)
    ensures
        r == order_is_whole(order@, optional_bytes(inflated)),
{
    match order {
        DrawingOrder::Secondary(secondary) => match secondary.order_type {
            SecondaryOrderType::CacheBitmapV2 => is_whole_order(secondary.data, inflated),
            _ => true,
        },
        _ => true,
    }
}

/// Whether a complete order will fail.
fn order_will_fail(cache: &BitmapCache, order: &DrawingOrder<'_>, inflated: Option<&[u8]>) -> (r: bool)
    requires
        order_is_whole(order@, optional_bytes(inflated)),
    ensures
        r == order_fails(cache@, order@, optional_bytes(inflated)),
{
    match order {
        DrawingOrder::Secondary(secondary) => match secondary.order_type {
            SecondaryOrderType::CacheBitmapV2 => will_fail(cache, secondary.data, inflated),
            _ => false,
        },
        _ => false,
    }
}

/// Whether each order that caches a bitmap is complete, up to the first one that fails.
#[verifier::rlimit(60)]
pub fn are_orders_whole(cache: &BitmapCache, orders: &Vec<DrawingOrder<'_>>, inflated: &[Option<Vec<u8>>]) -> (r: bool)
    ensures
        forall|canvas: Canvas, palette: Seq<PaletteEntry>|
            canvas.caches == cache@ ==> r == #[trigger] orders_are_whole(
                canvas,
                palette,
                order_views(orders@),
                inflated@,
            ),
{
    let ghost list = order_views(orders@);
    let mut k: usize = 0;
    while k < orders.len()
        invariant
            k <= orders@.len(),
            list == order_views(orders@),
            forall|n: int|
                0 <= n < k ==> #[trigger] order_is_whole(list[n], inflated_bytes(inflated@, n)),
            forall|n: int|
                0 <= n < k ==> !#[trigger] order_fails(cache@, list[n], inflated_bytes(inflated@, n)),
        decreases orders@.len() - k,
    {
        let entry: Option<&[u8]> = inflated_entry(inflated, k);
        let ghost n = k as int;
        assert(list[n] == orders@[n]@);
        if !is_order_whole(&orders[k], entry) {
            proof {
                assert forall|canvas: Canvas, palette: Seq<PaletteEntry>|
                    canvas.caches == cache@ implies !#[trigger] orders_are_whole(
                    canvas,
                    palette,
                    list,
                    inflated@,
                ) by {
                    lemma_reached(canvas, palette, list, inflated@, n);
                    assert(!order_is_whole(list[n], inflated_bytes(inflated@, n)));
                }
            }
            return false;
        }
        if order_will_fail(cache, &orders[k], entry) {
            proof {
                assert forall|canvas: Canvas, palette: Seq<PaletteEntry>|
                    canvas.caches == cache@ implies #[trigger] orders_are_whole(
                    canvas,
                    palette,
                    list,
                    inflated@,
                ) by {
                    assert forall|m: int|
                        0 <= m < list.len() && is_reached(canvas, palette, list, inflated@, m)
                            implies #[trigger] order_is_whole(list[m], inflated_bytes(inflated@, m)) by {
                        if m > n {
                            lemma_not_reached(canvas, palette, list, inflated@, n, m);
                        }
                    }
                }
            }
            return true;
        }
        k = k + 1;
    }
    true
}

/// State and rest before order `k`, and whether all the orders before it could be read.
pub open spec fn read_ahead(bytes: Seq<u8>, state: OrderStateView, k: nat) -> (OrderStateView, Seq<u8>, bool)
    decreases k,
{
    if k == 0 {
        (state, bytes, true)
    } else {
        let (before, rest, live) = read_ahead(bytes, state, (k - 1) as nat);
        if live && rest.len() > 0 {
            let next = order_at(rest, before);
            (next.state, next.rest, next.result is Ok)
        } else {
            (before, rest, false)
        }
    }
}

/// As long as no order fails, the orders that are processed are those that reading ahead finds.
proof fn lemma_run_follows(
    start: OrdersRun,
    palette: Seq<PaletteEntry>,
    inflated: Seq<Option<Vec<u8>>>,
    k: nat,
)
    requires
        !start.ended,
        start.error is None,
        forall|n: int|
            0 <= n < k ==> !#[trigger] found_fails(
                start.canvas.caches,
                read_ahead(start.rest, start.state, n as nat),
                inflated_bytes(inflated, n),
            ),
    ensures
        ({
            let run = start.after(palette, inflated, k);
            let found = read_ahead(start.rest, start.state, k);
            &&& same_entries(run.canvas.caches, start.canvas.caches)
            &&& found.2 ==> !run.ended && run.error is None && run.state == found.0 && run.rest == found.1
            &&& !found.2 ==> !run.goes_on()
        }),
    decreases k,
{
    if k > 0 {
        let m: int = k - 1;
        lemma_run_follows(start, palette, inflated, m as nat);
        let before = start.after(palette, inflated, m as nat);
        let found = read_ahead(start.rest, start.state, m as nat);
        assert(!found_fails(start.canvas.caches, found, inflated_bytes(inflated, m)));
        if before.goes_on() {
            match order_at(before.rest, before.state).result {
                Ok(order) => {
                    lemma_order_applied(before.canvas, palette, order, inflated_bytes(inflated, m));
                },
                Err(_) => {},
            }
        }
    }
}

/// Whether each of up to `number_orders` orders is complete as far as they are processed.
pub fn check_orders(
    cache: &BitmapCache,
    state: &DrawingOrderState,
    number_orders: u16,
    order_data: &[u8],
    inflated: &[Option<Vec<u8>>],
) -> (r: bool)
    ensures
        forall|canvas: Canvas, palette: Seq<PaletteEntry>|
            canvas.caches == cache@ ==> r == #[trigger] orders_start(canvas, state@, order_data@).whole(
                palette,
                inflated@,
                number_orders as nat,
            ),
{
    let ghost wanted = number_orders as nat;
    let mut ahead: DrawingOrderState = state.clone();
    let mut cursor: ReadCursor<'_> = ReadCursor::new(order_data);
    let mut k: u16 = 0;
    let mut live: bool = true;
    while k < number_orders
        invariant
            k <= number_orders,
            wanted == number_orders,
            live ==> (ahead@, cursor@, true) == read_ahead(order_data@, state@, k as nat),
            !live ==> !read_ahead(order_data@, state@, k as nat).2,
            forall|n: int|
                0 <= n < k ==> #[trigger] found_whole(
                    read_ahead(order_data@, state@, n as nat),
                    inflated_bytes(inflated@, n),
                ),
            forall|n: int|
                0 <= n < k ==> !#[trigger] found_fails(
                    cache@,
                    read_ahead(order_data@, state@, n as nat),
                    inflated_bytes(inflated@, n),
                ),
        decreases number_orders - k,
    {
        let ghost n = k as int;
        let ghost found = read_ahead(order_data@, state@, n as nat);
        if live && !cursor.is_empty() {
            match decode_order(&mut cursor, &mut ahead) {
                Ok(order) => {
                    let entry: Option<&[u8]> = inflated_entry(inflated, k as usize);
                    if !is_order_whole(&order, entry) {
                        proof {
                            assert forall|canvas: Canvas, palette: Seq<PaletteEntry>|
                                canvas.caches == cache@ implies !#[trigger] orders_start(
                                canvas,
                                state@,
                                order_data@,
                            ).whole(palette, inflated@, wanted) by {
                                let start = orders_start(canvas, state@, order_data@);
                                lemma_run_follows(start, palette, inflated@, n as nat);
                                assert(!start.after(palette, inflated@, n as nat).next_is_whole(
                                    inflated_bytes(inflated@, n),
                                ));
                            }
                        }
                        return false;
                    }
                    if order_will_fail(cache, &order, entry) {
                        proof {
                            assert forall|canvas: Canvas, palette: Seq<PaletteEntry>|
                                canvas.caches == cache@ implies #[trigger] orders_start(
                                canvas,
                                state@,
                                order_data@,
                            ).whole(palette, inflated@, wanted) by {
                                let start = orders_start(canvas, state@, order_data@);
                                lemma_fails_whole(
                                    start,
                                    palette,
                                    inflated@,
                                    n as nat,
                                    wanted,
                                );
                            }
                        }
                        return true;
                    }
                },
                Err(_) => {
                    live = false;
                },
            }
        } else {
            live = false;
        }
        k = k + 1;
    }
    proof {
        assert forall|canvas: Canvas, palette: Seq<PaletteEntry>| canvas.caches == cache@ implies #[trigger] orders_start(
            canvas,
            state@,
            order_data@,
        ).whole(palette, inflated@, wanted) by {
            let start = orders_start(canvas, state@, order_data@);
            assert forall|n: int| 0 <= n < wanted implies #[trigger] start.after(
                palette,
                inflated@,
                n as nat,
            ).next_is_whole(inflated_bytes(inflated@, n)) by {
                lemma_run_follows(start, palette, inflated@, n as nat);
                assert(found_whole(
                    read_ahead(order_data@, state@, n as nat),
                    inflated_bytes(inflated@, n),
                ));
            }
        }
    }
    true
}

/// Orders up to one that fails are complete as far as they are processed.
proof fn lemma_fails_whole(
    start: OrdersRun,
    palette: Seq<PaletteEntry>,
    inflated: Seq<Option<Vec<u8>>>,
    k: nat,
    wanted: nat,
)
    requires
        !start.ended,
        start.error is None,
        forall|n: int|
            0 <= n < k ==> #[trigger] found_whole(
                read_ahead(start.rest, start.state, n as nat),
                inflated_bytes(inflated, n),
            ),
        forall|n: int|
            0 <= n < k ==> !#[trigger] found_fails(
                start.canvas.caches,
                read_ahead(start.rest, start.state, n as nat),
                inflated_bytes(inflated, n),
            ),
        found_whole(read_ahead(start.rest, start.state, k), inflated_bytes(inflated, k as int)),
        found_fails(
            start.canvas.caches,
            read_ahead(start.rest, start.state, k),
            inflated_bytes(inflated, k as int),
        ),
    ensures
        start.whole(palette, inflated, wanted),
{
    lemma_run_follows(start, palette, inflated, k);
    let at = start.after(palette, inflated, k);
    let order = order_at(at.rest, at.state).result->Ok_0;
    lemma_order_applied(at.canvas, palette, order, inflated_bytes(inflated, k as int));
    assert(start.after(palette, inflated, k + 1).error is Some);
    assert forall|n: int| 0 <= n < wanted implies #[trigger] start.after(
        palette,
        inflated,
        n as nat,
    ).next_is_whole(inflated_bytes(inflated, n)) by {
        if n > k {
            lemma_run_ends(start, palette, inflated, k + 1, n as nat);
        } else {
            lemma_run_follows(start, palette, inflated, n as nat);
            assert(n < k ==> found_whole(
                read_ahead(start.rest, start.state, n as nat),
                inflated_bytes(inflated, n),
            ));
        }
    }
}

/// Whether the order that reading ahead finds fails.
pub open spec fn found_fails(
    caches: CacheView,
    found: (OrderStateView, Seq<u8>, bool),
    inflated: Option<Seq<u8>>,
) -> bool {
    &&& found.2
    &&& found.1.len() > 0
    &&& order_at(found.1, found.0).result matches Ok(order)
    &&& order_fails(caches, order, inflated)
}

/// Whether the order that reading ahead finds is complete.
pub open spec fn found_whole(found: (OrderStateView, Seq<u8>, bool), inflated: Option<Seq<u8>>) -> bool {
    found.2 && found.1.len() > 0 ==> (order_at(found.1, found.0).result matches Ok(order)
        ==> order_is_whole(order, inflated))
}

/// The run-length encoded bitmap of an order, with width, height and bits per pixel, if it has one.
pub open spec fn encoded_bitmap(order: OrderView) -> Option<(Seq<u8>, u16, u16, u16)> {
    match order {
        OrderView::Secondary(SecondaryOrderType::CacheBitmapV2, data) => if cache_order_ends_well(data) {
            match cache_bitmap_at(data) {
                Ok(o) if is_compressed(o.flags) => Some((o.data, o.width, o.height, o.bpp)),
                _ => None,
            }
        } else {
            None
        },
        _ => None,
    }
}

/// A request as a mathematical value.
pub open spec fn request_view(request: Option<InflateRequest<'_>>) -> Option<(Seq<u8>, u16, u16, u16)> {
    match request {
        Some(q) => Some((q.data@, q.width, q.height, q.bpp)),
        None => None,
    }
}

fn order_request<'a>(order: &DrawingOrder<'a>) -> (r: Option<InflateRequest<'a>>)
    ensures
        request_view(r) == encoded_bitmap(order@),
{
    match order {
        DrawingOrder::Secondary(secondary) => match secondary.order_type {
            SecondaryOrderType::CacheBitmapV2 => if ends_well(secondary.data) {
                inflate_request(secondary.data)
            } else {
                None
            },
            _ => None,
        },
        _ => None,
    }
}

/// Whether there is an order to be read.
pub open spec fn can_read(found: (OrderStateView, Seq<u8>, bool)) -> bool {
    found.2 && found.1.len() > 0 && order_at(found.1, found.0).result is Ok
}

/// Reads up to `number_orders` orders ahead, and lists for each what a run-length decoder has to be asked
/// for.
pub fn inflate_requests<'a>(state: &DrawingOrderState, number_orders: u16, order_data: &'a [u8]) -> (r: Vec<
    Option<InflateRequest<'a>>,
>)
    ensures
        r@.len() <= number_orders,
        forall|k: int|
            #![trigger r@[k]]
            0 <= k < r@.len() ==> {
                let found = read_ahead(order_data@, state@, k as nat);
                can_read(found) && request_view(r@[k]) == encoded_bitmap(
                    order_at(found.1, found.0).result->Ok_0,
                )
            },
        r@.len() < number_orders ==> !can_read(read_ahead(order_data@, state@, r@.len())),
{
    let mut ahead: DrawingOrderState = state.clone();
    let mut cursor: ReadCursor<'a> = ReadCursor::new(order_data);
    let mut requests: Vec<Option<InflateRequest<'a>>> = Vec::new();
    let mut k: u16 = 0;
    while k < number_orders
        invariant
            k <= number_orders,
            requests@.len() == k,
            (ahead@, cursor@, true) == read_ahead(order_data@, state@, k as nat),
            forall|n: int|
                #![trigger requests@[n]]
                0 <= n < k ==> {
                    let found = read_ahead(order_data@, state@, n as nat);
                    can_read(found) && request_view(requests@[n]) == encoded_bitmap(
                        order_at(found.1, found.0).result->Ok_0,
                    )
                },
        decreases number_orders - k,
    {
        if cursor.is_empty() {
            return requests;
        }
        match decode_order(&mut cursor, &mut ahead) {
            Ok(order) => {
                requests.push(order_request(&order));
            },
            Err(_) => {
                return requests;
            },
        }
        k = k + 1;
    }
    requests
}

} // verus!
