//! Complete updates of the fast path.

use vstd::prelude::*;
use vstd::std_specs::convert::FromSpecImpl;

use crate::bitmap::{bitmaps_at, decode_bitmaps, invalid, missing, BitmapUpdateData, BitmapView, Decoded};
use crate::cursor::{u16_at, ReadCursor};
use crate::drawing_orders::{DrawingOrder, DrawingOrderState, OrderStateView, OrderView};
use crate::error::{DecodeError, DecodeResult};
use crate::fast_path_pdu::UpdateCode;
use crate::order_decoding::{decode_order, order_at};
use crate::palette::{PaletteEntry, PaletteUpdate};
use crate::server_graphics_update::{decode_palette, entries_at, palette_at};

verus! {

/// New colours for the palette.
#[derive(Debug)]
pub struct FastPathPaletteUpdate {
    pub entries: Vec<PaletteEntry>,
}

impl View for FastPathPaletteUpdate {
    type V = Seq<PaletteEntry>;

    open spec fn view(&self) -> Seq<PaletteEntry> {
        self.entries@
    }
}

/// A number in four bytes, the lowest first.
pub open spec fn u32_bytes(value: int) -> Seq<u8> {
    seq![
        (value % 0x100) as u8,
        (value / 0x100 % 0x100) as u8,
        (value / 0x1_0000 % 0x100) as u8,
        (value / 0x100_0000 % 0x100) as u8,
    ]
}

/// Colours in bytes, three each.
pub open spec fn entry_bytes(entries: Seq<PaletteEntry>) -> Seq<u8> {
    Seq::new(
        3 * entries.len(),
        |i: int|
            if i % 3 == 0 {
                entries[i / 3].red
            } else if i % 3 == 1 {
                entries[i / 3].green
            } else {
                entries[i / 3].blue
            },
    )
}

/// A palette update in bytes: its type, padding, number of colours, colours.
pub open spec fn palette_bytes(entries: Seq<PaletteEntry>) -> Seq<u8> {
    seq![0x02u8, 0u8, 0u8, 0u8] + u32_bytes(entries.len() as int) + entry_bytes(entries)
}

/// The palette update that some bytes start with.
pub open spec fn palette_update_at(bytes: Seq<u8>) -> Decoded<Seq<PaletteEntry>> {
    if bytes.len() < 2 {
        missing(bytes, 2)
    } else if u16_at(bytes, 0) != 0x0002 {
        invalid("updateType", "invalid palette update type", bytes.skip(2))
    } else {
        palette_at(bytes.skip(2))
    }
}

impl FastPathPaletteUpdate {
    pub fn size(&self) -> (r: usize)
        requires
            8 + 3 * self@.len() <= usize::MAX,
        ensures
            r == palette_bytes(self@).len(),
    {
        8 + 3 * self.entries.len()
    }

    /// Appends the update.
    pub fn encode(&self, dst: &mut Vec<u8>)
        requires
            self@.len() <= 0xFFFF_FFFF,
        ensures
            final(dst)@ == old(dst)@ + palette_bytes(self@),
    {
        let count: usize = self.entries.len();
        let ghost before = dst@;
        dst.push(0x02);
        dst.push(0);
        dst.push(0);
        dst.push(0);
        dst.push((count % 0x100) as u8);
        dst.push((count / 0x100 % 0x100) as u8);
        dst.push((count / 0x1_0000 % 0x100) as u8);
        dst.push((count / 0x100_0000 % 0x100) as u8);
        let ghost head = seq![0x02u8, 0u8, 0u8, 0u8] + u32_bytes(count as int);
        assert(dst@ =~= before + head + entry_bytes(self@.take(0)));
        let mut i: usize = 0;
        while i < count
            invariant
                i <= count,
                count == self@.len(),
                dst@ == before + head + entry_bytes(self@.take(i as int)),
            decreases count - i,
        {
            let entry: PaletteEntry = self.entries[i];
            let ghost earlier = entry_bytes(self@.take(i as int));
            dst.push(entry.red);
            dst.push(entry.green);
            dst.push(entry.blue);
            proof {
                let longer = entry_bytes(self@.take(i + 1));
                assert(longer =~= earlier + seq![entry.red, entry.green, entry.blue]);
                assert(dst@ =~= before + head + longer);
            }
            i = i + 1;
        }
        assert(self@.take(count as int) =~= self@);
        assert(dst@ =~= before + palette_bytes(self@));
    }

    pub fn decode(src: &mut ReadCursor<'_>) -> (r: DecodeResult<Self>)
        ensures
            match r {
                Ok(p) => palette_update_at(old(src)@).result == Ok::<Seq<PaletteEntry>, DecodeError>(p@),
                Err(e) => palette_update_at(old(src)@).result == Err::<Seq<PaletteEntry>, DecodeError>(e),
            },
            final(src)@ == palette_update_at(old(src)@).rest,
    {
        src.ensure_size(2)?;
        if src.read_u16() != 0x0002 {
            return Err(
                DecodeError::InvalidField { field: "updateType", reason: "invalid palette update type" },
            );
        }
        let palette: PaletteUpdate = decode_palette(src)?;
        Ok(FastPathPaletteUpdate { entries: palette.entries })
    }
}

/// A palette update is read back as it was written.
pub proof fn law_palette_round_trip(entries: Seq<PaletteEntry>, rest: Seq<u8>)
    requires
        entries.len() <= 0xFFFF_FFFF,
    ensures
        palette_update_at(palette_bytes(entries) + rest) == (Decoded { result: Ok(entries), rest }),
{
    let bytes = palette_bytes(entries) + rest;
    let n = entries.len() as int;
    let tail = bytes.skip(2);
    assert(u16_at(bytes, 0) == 0x0002);
    assert(tail[2] == (n % 0x100) as u8);
    assert(tail[3] == (n / 0x100 % 0x100) as u8);
    assert(tail[4] == (n / 0x1_0000 % 0x100) as u8);
    assert(tail[5] == (n / 0x100_0000 % 0x100) as u8);
    assert(n % 0x100 + 0x100 * (n / 0x100 % 0x100) + 0x1_0000 * (n / 0x1_0000 % 0x100) + 0x100_0000 * (n
        / 0x100_0000 % 0x100) == n);
    let body = tail.skip(6);
    assert(body =~= entry_bytes(entries) + rest);
    assert(body.skip(3 * n) =~= rest);
    assert(entries_at(body, entries.len()) =~= entries);
}

/// Drawing orders that have not been read yet.
#[derive(Debug, Clone, Copy)]
pub struct FastPathOrdersUpdate<'a> {
    pub number_orders: u16,
    pub order_data: &'a [u8],
}

/// The first `n` orders in some bytes, the state behind them and the bytes behind them. Nothing is
/// kept of the orders if one cannot be read.
pub open spec fn orders_read(bytes: Seq<u8>, state: OrderStateView, n: nat) -> (
    DecodeResult<Seq<OrderView>>,
    OrderStateView,
    Seq<u8>,
)
    decreases n,
{
    if n == 0 {
        (Ok(Seq::empty()), state, bytes)
    } else {
        let (list, before, rest) = orders_read(bytes, state, (n - 1) as nat);
        match list {
            Err(e) => (Err(e), before, rest),
            Ok(orders) => {
                let next = order_at(rest, before);
                (
                    match next.result {
                        Err(e) => Err(e),
                        Ok(order) => Ok(orders.push(order)),
                    },
                    next.state,
                    next.rest,
                )
            },
        }
    }
}

/// The orders of a list.
pub open spec fn order_views(list: Seq<DrawingOrder<'_>>) -> Seq<OrderView> {
    Seq::new(list.len(), |i: int| list[i]@)
}

proof fn lemma_orders_stop(bytes: Seq<u8>, state: OrderStateView, k: nat, n: nat)
    requires
        k <= n,
        orders_read(bytes, state, k).0 is Err,
    ensures
        orders_read(bytes, state, n) == orders_read(bytes, state, k),
    decreases n - k,
{
    if k < n {
        lemma_orders_stop(bytes, state, k, (n - 1) as nat);
    }
}

impl<'a> FastPathOrdersUpdate<'a> {
    /// Reads all the orders.
    pub fn decode_orders(&self, state: &mut DrawingOrderState) -> (r: DecodeResult<Vec<DrawingOrder<'a>>>)
        ensures
            ({
                let (list, after, rest) = orders_read(self.order_data@, old(state)@, self.number_orders as nat);
                &&& final(state)@ == after
                &&& match r {
                    Ok(orders) => list == Ok::<Seq<OrderView>, DecodeError>(order_views(orders@)),
                    Err(e) => list == Err::<Seq<OrderView>, DecodeError>(e),
                }
            }),
    {
        let mut cursor: ReadCursor<'a> = ReadCursor::new(self.order_data);
        let mut orders: Vec<DrawingOrder<'a>> = Vec::new();
        let ghost bytes = self.order_data@;
        let ghost start = state@;
        let mut i: u16 = 0;
        assert(order_views(orders@) =~= Seq::empty());
        while i < self.number_orders
            invariant
                i <= self.number_orders,
                bytes == self.order_data@,
                start == old(state)@,
                orders_read(bytes, start, i as nat) == (
                    Ok::<Seq<OrderView>, DecodeError>(order_views(orders@)),
                    state@,
                    cursor@,
                ),
            decreases self.number_orders - i,
        {
            let ghost earlier = orders@;
            match decode_order(&mut cursor, state) {
                Ok(order) => {
                    let ghost view = order@;
                    orders.push(order);
                    assert(order_views(orders@) =~= order_views(earlier).push(view));
                },
                Err(e) => {
                    proof {
                        lemma_orders_stop(bytes, start, (i + 1) as nat, self.number_orders as nat);
                    }
                    return Err(e);
                },
            }
            i = i + 1;
        }
        Ok(orders)
    }
}

/// A complete update. Surface commands and pointers are still in bytes.
#[derive(Debug)]
pub enum FastPathUpdate<'a> {
    SurfaceCommands(&'a [u8]),
    Bitmap(BitmapUpdateData<'a>),
    Pointer(PointerCode, &'a [u8]),
    Palette(FastPathPaletteUpdate),
    Synchronize,
    Orders(FastPathOrdersUpdate<'a>),
}

/// The kind of a pointer update.
#[derive(Debug, Clone, Copy, PartialEq, Eq, Structural)]
pub enum PointerCode {
    Hidden,
    Default,
    Position,
    Color,
    Cached,
    New,
    Large,
}

#[verifier::ext_equal]
pub enum FastPathUpdateView {
    SurfaceCommands(Seq<u8>),
    Bitmap(Seq<BitmapView>),
    Pointer(PointerCode, Seq<u8>),
    Palette(Seq<PaletteEntry>),
    Synchronize,
    Orders { number_orders: u16, order_data: Seq<u8> },
}

impl<'a> View for FastPathUpdate<'a> {
    type V = FastPathUpdateView;

    open spec fn view(&self) -> FastPathUpdateView {
        match self {
            FastPathUpdate::SurfaceCommands(data) => FastPathUpdateView::SurfaceCommands(data@),
            FastPathUpdate::Bitmap(b) => FastPathUpdateView::Bitmap(b@),
            FastPathUpdate::Pointer(code, data) => FastPathUpdateView::Pointer(*code, data@),
            FastPathUpdate::Palette(p) => FastPathUpdateView::Palette(p@),
            FastPathUpdate::Synchronize => FastPathUpdateView::Synchronize,
            FastPathUpdate::Orders(o) => FastPathUpdateView::Orders {
                number_orders: o.number_orders,
                order_data: o.order_data@,
            },
        }
    }
}

impl FastPathUpdateView {
    /// The kind of the update.
    pub open spec fn code(self) -> UpdateCode {
        match self {
            FastPathUpdateView::SurfaceCommands(_) => UpdateCode::SurfaceCommands,
            FastPathUpdateView::Bitmap(_) => UpdateCode::Bitmap,
            FastPathUpdateView::Pointer(code, _) => code.code(),
            FastPathUpdateView::Palette(_) => UpdateCode::Palette,
            FastPathUpdateView::Synchronize => UpdateCode::Synchronize,
            FastPathUpdateView::Orders { .. } => UpdateCode::Orders,
        }
    }
}

impl PointerCode {
    pub open spec fn code(self) -> UpdateCode {
        match self {
            PointerCode::Hidden => UpdateCode::HiddenPointer,
            PointerCode::Default => UpdateCode::DefaultPointer,
            PointerCode::Position => UpdateCode::PositionPointer,
            PointerCode::Color => UpdateCode::ColorPointer,
            PointerCode::Cached => UpdateCode::CachedPointer,
            PointerCode::New => UpdateCode::NewPointer,
            PointerCode::Large => UpdateCode::LargePointer,
        }
    }
}

impl<'a, 'b> FromSpecImpl<&'b FastPathUpdate<'a>> for UpdateCode {
    open spec fn obeys_from_spec() -> bool {
        true
    }

    open spec fn from_spec(update: &'b FastPathUpdate<'a>) -> UpdateCode {
        update@.code()
    }
}

impl<'a, 'b> From<&'b FastPathUpdate<'a>> for UpdateCode {
    fn from(update: &'b FastPathUpdate<'a>) -> (r: UpdateCode) {
        match update {
            FastPathUpdate::SurfaceCommands(_) => UpdateCode::SurfaceCommands,
            FastPathUpdate::Bitmap(_) => UpdateCode::Bitmap,
            FastPathUpdate::Pointer(code, _) => match code {
                PointerCode::Hidden => UpdateCode::HiddenPointer,
                PointerCode::Default => UpdateCode::DefaultPointer,
                PointerCode::Position => UpdateCode::PositionPointer,
                PointerCode::Color => UpdateCode::ColorPointer,
                PointerCode::Cached => UpdateCode::CachedPointer,
                PointerCode::New => UpdateCode::NewPointer,
                PointerCode::Large => UpdateCode::LargePointer,
            },
            FastPathUpdate::Palette(_) => UpdateCode::Palette,
            FastPathUpdate::Synchronize => UpdateCode::Synchronize,
            FastPathUpdate::Orders(_) => UpdateCode::Orders,
        }
    }
}

/// Bitmaps: a number whose lowest bit is set, number of bitmaps, bitmaps.
pub open spec fn bitmap_update_of(bytes: Seq<u8>) -> DecodeResult<FastPathUpdateView> {
    if bytes.len() < 4 {
        Err(DecodeError::NotEnoughBytes { received: bytes.len() as usize, expected: 4 })
    } else if u16_at(bytes, 0) % 2 == 0 {
        Err(DecodeError::InvalidField { field: "updateType", reason: "invalid update type" })
    } else {
        match bitmaps_at(bytes.skip(4), u16_at(bytes, 2) as nat).result {
            Ok(list) => Ok(FastPathUpdateView::Bitmap(list)),
            Err(e) => Err(e),
        }
    }
}

/// The update of the given kind that some bytes hold.
pub open spec fn update_of(bytes: Seq<u8>, code: UpdateCode) -> DecodeResult<FastPathUpdateView> {
    match code {
        UpdateCode::SurfaceCommands => Ok(FastPathUpdateView::SurfaceCommands(bytes)),
        UpdateCode::Bitmap => bitmap_update_of(bytes),
        UpdateCode::Palette => match palette_update_at(bytes).result {
            Ok(entries) => Ok(FastPathUpdateView::Palette(entries)),
            Err(e) => Err(e),
        },
        UpdateCode::Synchronize => Ok(FastPathUpdateView::Synchronize),
        UpdateCode::Orders => if bytes.len() < 2 {
            Err(DecodeError::NotEnoughBytes { received: bytes.len() as usize, expected: 2 })
        } else {
            Ok(FastPathUpdateView::Orders { number_orders: u16_at(bytes, 0), order_data: bytes.skip(2) })
        },
        UpdateCode::HiddenPointer => Ok(FastPathUpdateView::Pointer(PointerCode::Hidden, bytes)),
        UpdateCode::DefaultPointer => Ok(FastPathUpdateView::Pointer(PointerCode::Default, bytes)),
        UpdateCode::PositionPointer => Ok(FastPathUpdateView::Pointer(PointerCode::Position, bytes)),
        UpdateCode::ColorPointer => Ok(FastPathUpdateView::Pointer(PointerCode::Color, bytes)),
        UpdateCode::CachedPointer => Ok(FastPathUpdateView::Pointer(PointerCode::Cached, bytes)),
        UpdateCode::NewPointer => Ok(FastPathUpdateView::Pointer(PointerCode::New, bytes)),
        UpdateCode::LargePointer => Ok(FastPathUpdateView::Pointer(PointerCode::Large, bytes)),
    }
}

/// What is read as an update of a kind is an update of that kind.
pub proof fn law_decoded_update_has_its_code(bytes: Seq<u8>, code: UpdateCode)
    ensures
        update_of(bytes, code) matches Ok(update) ==> update.code() == code,
{
}

impl<'a> FastPathUpdate<'a> {
    /// Reads an update of the given kind.
    pub fn decode_with_code(data: &'a [u8], code: UpdateCode) -> (r: DecodeResult<Self>)
        ensures
            match r {
                Ok(u) => update_of(data@, code) == Ok::<FastPathUpdateView, DecodeError>(u@),
                Err(e) => update_of(data@, code) == Err::<FastPathUpdateView, DecodeError>(e),
            },
    {
        let mut src: ReadCursor<'a> = ReadCursor::new(data);
        match code {
            UpdateCode::SurfaceCommands => Ok(FastPathUpdate::SurfaceCommands(data)),
            UpdateCode::Bitmap => {
                src.ensure_size(4)?;
                if src.read_u16() % 2 == 0 {
                    return Err(
                        DecodeError::InvalidField { field: "updateType", reason: "invalid update type" },
                    );
                }
                let count: u16 = src.read_u16();
                assert(src@ =~= data@.skip(4));
                Ok(FastPathUpdate::Bitmap(decode_bitmaps(&mut src, count)?))
            },
            UpdateCode::Palette => Ok(FastPathUpdate::Palette(FastPathPaletteUpdate::decode(&mut src)?)),
            UpdateCode::Synchronize => Ok(FastPathUpdate::Synchronize),
            UpdateCode::Orders => {
                src.ensure_size(2)?;
                let number_orders: u16 = src.read_u16();
                Ok(
                    FastPathUpdate::Orders(
                        FastPathOrdersUpdate { number_orders, order_data: src.remaining() },
                    ),
                )
            },
            UpdateCode::HiddenPointer => Ok(FastPathUpdate::Pointer(PointerCode::Hidden, data)),
            UpdateCode::DefaultPointer => Ok(FastPathUpdate::Pointer(PointerCode::Default, data)),
            UpdateCode::PositionPointer => Ok(FastPathUpdate::Pointer(PointerCode::Position, data)),
            UpdateCode::ColorPointer => Ok(FastPathUpdate::Pointer(PointerCode::Color, data)),
            UpdateCode::CachedPointer => Ok(FastPathUpdate::Pointer(PointerCode::Cached, data)),
            UpdateCode::NewPointer => Ok(FastPathUpdate::Pointer(PointerCode::New, data)),
            UpdateCode::LargePointer => Ok(FastPathUpdate::Pointer(PointerCode::Large, data)),
        }
    }
}

} // verus!
