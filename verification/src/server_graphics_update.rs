//! Graphics updates on the slow path.

use vstd::prelude::*;

use crate::bitmap::{
    bitmaps_at, decode_bitmaps, invalid, missing, BitmapUpdateData, BitmapView, Decoded,
};
use crate::cursor::{u16_at, u32_at, ReadCursor};
use crate::error::{DecodeError, DecodeResult};
use crate::palette::{PaletteEntry, PaletteUpdate};

verus! {

/// What kind of data an update carries.
#[derive(Debug, Clone, Copy, PartialEq, Eq, Structural)]
pub enum UpdateType {
    /// Drawing orders (primary, secondary, and alternate secondary)
    Orders,
    /// Bitmap graphics data (compressed or uncompressed)
    Bitmap,
    /// Color palette for 8bpp indexed color mode
    Palette,
    /// Synchronization marker
    Synchronize,
}

impl UpdateType {
    /// The number that stands for the type on the wire.
    pub open spec fn code(self) -> u16 {
        match self {
            UpdateType::Orders => 0x0000,
            UpdateType::Bitmap => 0x0001,
            UpdateType::Palette => 0x0002,
            UpdateType::Synchronize => 0x0003,
        }
    }

    pub fn as_u16(self) -> (r: u16)
        ensures
            r == self.code(),
    {
        match self {
            UpdateType::Orders => 0x0000,
            UpdateType::Bitmap => 0x0001,
            UpdateType::Palette => 0x0002,
            UpdateType::Synchronize => 0x0003,
        }
    }

    pub fn from_u16(value: u16) -> (r: Option<Self>)
        ensures
            r matches Some(t) ==> t.code() == value,
            r is None ==> forall|t: UpdateType| #[trigger] t.code() != value,
    {
        match value {
            0x0000 => Some(UpdateType::Orders),
            0x0001 => Some(UpdateType::Bitmap),
            0x0002 => Some(UpdateType::Palette),
            0x0003 => Some(UpdateType::Synchronize),
            _ => None,
        }
    }
}

/// Drawing orders that have not been read yet.
#[derive(Debug, Clone, Copy)]
pub struct OrdersUpdate<'a> {
    /// Number of drawing orders in this update
    pub number_orders: u16,
    pub order_data: &'a [u8],
}

/// A graphics update.
#[derive(Debug)]
pub enum ServerGraphicsUpdate<'a> {
    Orders(OrdersUpdate<'a>),
    /// Bitmap update containing one or more screen region updates
    Bitmap(BitmapUpdateData<'a>),
    /// Palette update for 8bpp indexed color mode
    Palette(PaletteUpdate),
    /// Synchronization marker
    Synchronize,
}

#[verifier::ext_equal]
pub enum UpdateView {
    Orders { number_orders: u16, order_data: Seq<u8> },
    Bitmap(Seq<BitmapView>),
    Palette(Seq<PaletteEntry>),
    Synchronize,
}

impl<'a> View for ServerGraphicsUpdate<'a> {
    type V = UpdateView;

    open spec fn view(&self) -> UpdateView {
        match self {
            ServerGraphicsUpdate::Orders(o) => UpdateView::Orders {
                number_orders: o.number_orders,
                order_data: o.order_data@,
            },
            ServerGraphicsUpdate::Bitmap(b) => UpdateView::Bitmap(b@),
            ServerGraphicsUpdate::Palette(p) => UpdateView::Palette(p@),
            ServerGraphicsUpdate::Synchronize => UpdateView::Synchronize,
        }
    }
}

/// `count` colours, three bytes each.
pub open spec fn entries_at(bytes: Seq<u8>, count: nat) -> Seq<PaletteEntry> {
    Seq::new(
        count,
        |i: int| PaletteEntry { red: bytes[3 * i], green: bytes[3 * i + 1], blue: bytes[3 * i + 2] },
    )
}

/// Orders behind the type: padding, number of orders, padding, orders.
pub open spec fn orders_at(bytes: Seq<u8>) -> Decoded<UpdateView> {
    if bytes.len() < 6 {
        missing(bytes, 6)
    } else {
        Decoded {
            result: Ok(
                UpdateView::Orders { number_orders: u16_at(bytes, 2), order_data: bytes.skip(6) },
            ),
            rest: bytes.skip(6),
        }
    }
}

/// Bitmaps behind the type: number of bitmaps, bitmaps.
pub open spec fn bitmap_update_at(bytes: Seq<u8>) -> Decoded<UpdateView> {
    if bytes.len() < 2 {
        missing(bytes, 2)
    } else {
        let list = bitmaps_at(bytes.skip(2), u16_at(bytes, 0) as nat);
        Decoded {
            result: match list.result {
                Ok(l) => Ok(UpdateView::Bitmap(l)),
                Err(e) => Err(e),
            },
            rest: list.rest,
        }
    }
}

/// A palette behind the type: padding, number of colours, colours.
pub open spec fn palette_at(bytes: Seq<u8>) -> Decoded<Seq<PaletteEntry>> {
    if bytes.len() < 6 {
        missing(bytes, 6)
    } else {
        let count = u32_at(bytes, 2) as nat;
        let rest = bytes.skip(6);
        if rest.len() < 3 * count {
            missing(rest, 3 * count)
        } else {
            Decoded { result: Ok(entries_at(rest, count)), rest: rest.skip(3 * count as int) }
        }
    }
}

/// An update: its type, then what the type asks for.
pub open spec fn update_at(bytes: Seq<u8>) -> Decoded<UpdateView> {
    let code = u16_at(bytes, 0);
    let rest = bytes.skip(2);
    if bytes.len() < 2 {
        missing(bytes, 2)
    } else if code == UpdateType::Orders.code() {
        orders_at(rest)
    } else if code == UpdateType::Bitmap.code() {
        bitmap_update_at(rest)
    } else if code == UpdateType::Palette.code() {
        let palette = palette_at(rest);
        Decoded {
            result: match palette.result {
                Ok(entries) => Ok(UpdateView::Palette(entries)),
                Err(e) => Err(e),
            },
            rest: palette.rest,
        }
    } else if code == UpdateType::Synchronize.code() {
        Decoded {
            result: Ok(UpdateView::Synchronize),
            rest: if rest.len() >= 2 {
                rest.skip(2)
            } else {
                rest
            },
        }
    } else {
        invalid("updateType", "unknown update type", rest)
    }
}

/// Reads a palette behind the type.
pub fn decode_palette(src: &mut ReadCursor<'_>) -> (r: DecodeResult<PaletteUpdate>)
    ensures
        match r {
            Ok(p) => palette_at(old(src)@).result == Ok::<Seq<PaletteEntry>, DecodeError>(p@),
            Err(e) => palette_at(old(src)@).result == Err::<Seq<PaletteEntry>, DecodeError>(e),
        },
        final(src)@ == palette_at(old(src)@).rest,
{
    src.ensure_size(6)?;
    let ghost bytes = src@;
    let _pad: u16 = src.read_u16();
    let count: u32 = src.read_u32();
    assert(src@ =~= bytes.skip(6));
    let ghost rest = src@;
    let expected: u64 = 3 * count as u64;
    if (src.len() as u64) < expected {
        return Err(DecodeError::NotEnoughBytes { received: src.len(), expected: expected as usize });
    }
    let count: usize = count as usize;
    let mut entries: Vec<PaletteEntry> = Vec::with_capacity(count);
    let mut i: usize = 0;
    while i < count
        invariant
            i <= count,
            3 * count <= rest.len(),
            src@ == rest.skip(3 * i),
            entries@ == entries_at(rest, i as nat),
        decreases count - i,
    {
        let red: u8 = src.read_u8();
        let green: u8 = src.read_u8();
        let blue: u8 = src.read_u8();
        entries.push(PaletteEntry { red, green, blue });
        i = i + 1;
        assert(src@ =~= rest.skip(3 * i));
        assert(entries@ =~= entries_at(rest, i as nat));
    }
    Ok(PaletteUpdate { entries })
}

impl<'a> ServerGraphicsUpdate<'a> {
    /// Reads an update.
    pub fn decode(src: &mut ReadCursor<'a>) -> (r: DecodeResult<Self>)
        ensures
            match r {
                Ok(u) => update_at(old(src)@).result == Ok::<UpdateView, DecodeError>(u@),
                Err(e) => update_at(old(src)@).result == Err::<UpdateView, DecodeError>(e),
            },
            final(src)@ == update_at(old(src)@).rest,
    {
        src.ensure_size(2)?;
        let ghost bytes = src@;
        let update_type: UpdateType = match UpdateType::from_u16(src.read_u16()) {
            Some(t) => t,
            None => {
                assert(UpdateType::Orders.code() != u16_at(bytes, 0));
                assert(UpdateType::Bitmap.code() != u16_at(bytes, 0));
                assert(UpdateType::Palette.code() != u16_at(bytes, 0));
                assert(UpdateType::Synchronize.code() != u16_at(bytes, 0));
                return Err(DecodeError::InvalidField { field: "updateType", reason: "unknown update type" });
            },
        };
        let ghost rest = src@;
        match update_type {
            UpdateType::Orders => {
                src.ensure_size(6)?;
                let _pad: u16 = src.read_u16();
                let number_orders: u16 = src.read_u16();
                let _pad: u16 = src.read_u16();
                assert(src@ =~= rest.skip(6));
                let order_data: &'a [u8] = src.remaining();
                Ok(ServerGraphicsUpdate::Orders(OrdersUpdate { number_orders, order_data }))
            },
            UpdateType::Bitmap => {
                src.ensure_size(2)?;
                let count: u16 = src.read_u16();
                Ok(ServerGraphicsUpdate::Bitmap(decode_bitmaps(src, count)?))
            },
            UpdateType::Palette => Ok(ServerGraphicsUpdate::Palette(decode_palette(src)?)),
            UpdateType::Synchronize => {
                if src.len() >= 2 {
                    let _pad: u16 = src.read_u16();
                }
                Ok(ServerGraphicsUpdate::Synchronize)
            },
        }
    }
}

} // verus!
