//! Drawing orders.
//!
//! RDP defines three classes of orders:
//!
//! - primary orders draw (DstBlt, PatBlt, ScrBlt, LineTo, ...);
//! - secondary orders fill caches with bitmaps, brushes, glyphs, ...;
//! - alternate secondary orders carry extended caching and frame markers.
//!
//! Primary orders are delta encoded: an order carries only the fields that differ from the previous
//! order of the same type. [`DrawingOrderState`] holds the values that the next order starts from.

use vstd::prelude::*;

verus! {

/// Control flags of an order
#[derive(Debug, Clone, Copy, PartialEq, Eq, Structural)]
pub struct ControlFlags(pub u8);

impl ControlFlags {
    /// Order is a standard (primary) order
    pub const STANDARD: u8 = 0x01;

    /// Order is a secondary order
    pub const SECONDARY: u8 = 0x02;

    /// Order type is present in the order data
    pub const TYPE_CHANGE: u8 = 0x08;

    /// Bounding rectangle is present
    pub const BOUNDS: u8 = 0x20;

    /// Bounding rectangle uses delta encoding
    pub const ZERO_BOUNDS_DELTAS: u8 = 0x40;

    /// Coordinates use delta encoding from previous order
    pub const ZERO_FIELD_BYTE_BIT0: u8 = 0x80;

    /// Whether all the flags of `mask` are set.
    pub open spec fn has(self, mask: u8) -> bool {
        self.0 & mask == mask
    }

    /// Keeps the bits that have a meaning.
    pub open spec fn truncated(bits: u8) -> ControlFlags {
        ControlFlags(bits & 0xEB)
    }

    pub fn bits(self) -> (r: u8)
        ensures
            r == self.0,
    {
        self.0
    }

    pub fn from_bits_truncate(bits: u8) -> (r: Self)
        ensures
            r == ControlFlags::truncated(bits),
    {
        ControlFlags(bits & 0xEB)
    }

    pub fn contains(self, mask: u8) -> (r: bool)
        ensures
            r == self.has(mask),
    {
        self.0 & mask == mask
    }
}

/// Primary drawing order types
#[derive(Debug, Clone, Copy, PartialEq, Eq, Structural)]
pub enum PrimaryOrderType {
    /// Destination block transfer
    DstBlt,
    /// Pattern block transfer
    PatBlt,
    /// Screen block transfer
    ScrBlt,
    /// Draw nine grid
    DrawNineGrid,
    /// Multi draw nine grid
    MultiDrawNineGrid,
    /// Line to
    LineTo,
    /// Opaque rectangle
    OpaqueRect,
    /// Save bitmap
    SaveBitmap,
    /// Memory block transfer
    MemBlt,
    /// Memory 3-way block transfer
    Mem3Blt,
    /// Multi destination block transfer
    MultiDstBlt,
    /// Multi pattern block transfer
    MultiPatBlt,
    /// Multi screen block transfer
    MultiScrBlt,
    /// Multi opaque rectangle
    MultiOpaqueRect,
    /// Fast index
    FastIndex,
    /// Polygon solid color
    PolygonSC,
    /// Polygon color brush
    PolygonCB,
    /// Polyline
    Polyline,
    /// Fast glyph
    FastGlyph,
    /// Ellipse solid color
    EllipseSC,
    /// Ellipse color brush
    EllipseCB,
    /// Glyph index
    GlyphIndex,
}

impl PrimaryOrderType {
    /// The number that stands for the type on the wire.
    pub open spec fn code(self) -> u8 {
        match self {
            PrimaryOrderType::DstBlt => 0x00,
            PrimaryOrderType::PatBlt => 0x01,
            PrimaryOrderType::ScrBlt => 0x02,
            PrimaryOrderType::DrawNineGrid => 0x07,
            PrimaryOrderType::MultiDrawNineGrid => 0x08,
            PrimaryOrderType::LineTo => 0x09,
            PrimaryOrderType::OpaqueRect => 0x0A,
            PrimaryOrderType::SaveBitmap => 0x0B,
            PrimaryOrderType::MemBlt => 0x0D,
            PrimaryOrderType::Mem3Blt => 0x0E,
            PrimaryOrderType::MultiDstBlt => 0x0F,
            PrimaryOrderType::MultiPatBlt => 0x10,
            PrimaryOrderType::MultiScrBlt => 0x11,
            PrimaryOrderType::MultiOpaqueRect => 0x12,
            PrimaryOrderType::FastIndex => 0x13,
            PrimaryOrderType::PolygonSC => 0x14,
            PrimaryOrderType::PolygonCB => 0x15,
            PrimaryOrderType::Polyline => 0x16,
            PrimaryOrderType::FastGlyph => 0x18,
            PrimaryOrderType::EllipseSC => 0x19,
            PrimaryOrderType::EllipseCB => 0x1A,
            PrimaryOrderType::GlyphIndex => 0x1B,
        }
    }

    pub fn as_u8(self) -> (r: u8)
        ensures
            r == self.code(),
    {
        match self {
            PrimaryOrderType::DstBlt => 0x00,
            PrimaryOrderType::PatBlt => 0x01,
            PrimaryOrderType::ScrBlt => 0x02,
            PrimaryOrderType::DrawNineGrid => 0x07,
            PrimaryOrderType::MultiDrawNineGrid => 0x08,
            PrimaryOrderType::LineTo => 0x09,
            PrimaryOrderType::OpaqueRect => 0x0A,
            PrimaryOrderType::SaveBitmap => 0x0B,
            PrimaryOrderType::MemBlt => 0x0D,
            PrimaryOrderType::Mem3Blt => 0x0E,
            PrimaryOrderType::MultiDstBlt => 0x0F,
            PrimaryOrderType::MultiPatBlt => 0x10,
            PrimaryOrderType::MultiScrBlt => 0x11,
            PrimaryOrderType::MultiOpaqueRect => 0x12,
            PrimaryOrderType::FastIndex => 0x13,
            PrimaryOrderType::PolygonSC => 0x14,
            PrimaryOrderType::PolygonCB => 0x15,
            PrimaryOrderType::Polyline => 0x16,
            PrimaryOrderType::FastGlyph => 0x18,
            PrimaryOrderType::EllipseSC => 0x19,
            PrimaryOrderType::EllipseCB => 0x1A,
            PrimaryOrderType::GlyphIndex => 0x1B,
        }
    }

    pub fn from_u8(value: u8) -> (r: Option<Self>)
        ensures
            r matches Some(t) ==> t.code() == value,
            r is None ==> forall|t: PrimaryOrderType| #[trigger] t.code() != value,
    {
        match value {
            0x00 => Some(PrimaryOrderType::DstBlt),
            0x01 => Some(PrimaryOrderType::PatBlt),
            0x02 => Some(PrimaryOrderType::ScrBlt),
            0x07 => Some(PrimaryOrderType::DrawNineGrid),
            0x08 => Some(PrimaryOrderType::MultiDrawNineGrid),
            0x09 => Some(PrimaryOrderType::LineTo),
            0x0A => Some(PrimaryOrderType::OpaqueRect),
            0x0B => Some(PrimaryOrderType::SaveBitmap),
            0x0D => Some(PrimaryOrderType::MemBlt),
            0x0E => Some(PrimaryOrderType::Mem3Blt),
            0x0F => Some(PrimaryOrderType::MultiDstBlt),
            0x10 => Some(PrimaryOrderType::MultiPatBlt),
            0x11 => Some(PrimaryOrderType::MultiScrBlt),
            0x12 => Some(PrimaryOrderType::MultiOpaqueRect),
            0x13 => Some(PrimaryOrderType::FastIndex),
            0x14 => Some(PrimaryOrderType::PolygonSC),
            0x15 => Some(PrimaryOrderType::PolygonCB),
            0x16 => Some(PrimaryOrderType::Polyline),
            0x18 => Some(PrimaryOrderType::FastGlyph),
            0x19 => Some(PrimaryOrderType::EllipseSC),
            0x1A => Some(PrimaryOrderType::EllipseCB),
            0x1B => Some(PrimaryOrderType::GlyphIndex),
            _ => None,
        }
    }
}

/// Secondary drawing order types
#[derive(Debug, Clone, Copy, PartialEq, Eq, Structural)]
pub enum SecondaryOrderType {
    /// Cache bitmap (revision 1)
    CacheBitmap,
    /// Cache color table
    CacheColorTable,
    /// Cache bitmap (revision 2)
    CacheBitmapV2,
    /// Cache glyph
    CacheGlyph,
    /// Cache bitmap (revision 3)
    CacheBitmapV3,
    /// Cache brush
    CacheBrush,
}

impl SecondaryOrderType {
    /// The number that stands for the type on the wire.
    pub open spec fn code(self) -> u8 {
        match self {
            SecondaryOrderType::CacheBitmap => 0x00,
            SecondaryOrderType::CacheColorTable => 0x01,
            SecondaryOrderType::CacheBitmapV2 => 0x02,
            SecondaryOrderType::CacheGlyph => 0x03,
            SecondaryOrderType::CacheBitmapV3 => 0x04,
            SecondaryOrderType::CacheBrush => 0x07,
        }
    }

    pub fn as_u8(self) -> (r: u8)
        ensures
            r == self.code(),
    {
        match self {
            SecondaryOrderType::CacheBitmap => 0x00,
            SecondaryOrderType::CacheColorTable => 0x01,
            SecondaryOrderType::CacheBitmapV2 => 0x02,
            SecondaryOrderType::CacheGlyph => 0x03,
            SecondaryOrderType::CacheBitmapV3 => 0x04,
            SecondaryOrderType::CacheBrush => 0x07,
        }
    }

    pub fn from_u8(value: u8) -> (r: Option<Self>)
        ensures
            r matches Some(t) ==> t.code() == value,
            r is None ==> forall|t: SecondaryOrderType| #[trigger] t.code() != value,
    {
        match value {
            0x00 => Some(SecondaryOrderType::CacheBitmap),
            0x01 => Some(SecondaryOrderType::CacheColorTable),
            0x02 => Some(SecondaryOrderType::CacheBitmapV2),
            0x03 => Some(SecondaryOrderType::CacheGlyph),
            0x04 => Some(SecondaryOrderType::CacheBitmapV3),
            0x07 => Some(SecondaryOrderType::CacheBrush),
            _ => None,
        }
    }
}

/// Alternate secondary order types
#[derive(Debug, Clone, Copy, PartialEq, Eq, Structural)]
pub enum AlternateSecondaryOrderType {
    /// Switch surface
    SwitchSurface,
    /// Create offscreen bitmap
    CreateOffscreenBitmap,
    /// Stream bitmap first
    StreamBitmapFirst,
    /// Stream bitmap next
    StreamBitmapNext,
    /// Create nine grid bitmap
    CreateNineGridBitmap,
    /// GDIP first
    GdipFirst,
    /// GDIP next
    GdipNext,
    /// GDIP end
    GdipEnd,
    /// GDIP cache first
    GdipCacheFirst,
    /// GDIP cache next
    GdipCacheNext,
    /// GDIP cache end
    GdipCacheEnd,
    /// Window
    Window,
    /// Desktop composition
    CompDesk,
    /// Frame marker
    FrameMarker,
}

impl AlternateSecondaryOrderType {
    /// The number that stands for the type on the wire.
    pub open spec fn code(self) -> u8 {
        match self {
            AlternateSecondaryOrderType::SwitchSurface => 0x00,
            AlternateSecondaryOrderType::CreateOffscreenBitmap => 0x01,
            AlternateSecondaryOrderType::StreamBitmapFirst => 0x02,
            AlternateSecondaryOrderType::StreamBitmapNext => 0x03,
            AlternateSecondaryOrderType::CreateNineGridBitmap => 0x04,
            AlternateSecondaryOrderType::GdipFirst => 0x05,
            AlternateSecondaryOrderType::GdipNext => 0x06,
            AlternateSecondaryOrderType::GdipEnd => 0x07,
            AlternateSecondaryOrderType::GdipCacheFirst => 0x08,
            AlternateSecondaryOrderType::GdipCacheNext => 0x09,
            AlternateSecondaryOrderType::GdipCacheEnd => 0x0A,
            AlternateSecondaryOrderType::Window => 0x0B,
            AlternateSecondaryOrderType::CompDesk => 0x0C,
            AlternateSecondaryOrderType::FrameMarker => 0x0D,
        }
    }

    pub fn as_u8(self) -> (r: u8)
        ensures
            r == self.code(),
    {
        match self {
            AlternateSecondaryOrderType::SwitchSurface => 0x00,
            AlternateSecondaryOrderType::CreateOffscreenBitmap => 0x01,
            AlternateSecondaryOrderType::StreamBitmapFirst => 0x02,
            AlternateSecondaryOrderType::StreamBitmapNext => 0x03,
            AlternateSecondaryOrderType::CreateNineGridBitmap => 0x04,
            AlternateSecondaryOrderType::GdipFirst => 0x05,
            AlternateSecondaryOrderType::GdipNext => 0x06,
            AlternateSecondaryOrderType::GdipEnd => 0x07,
            AlternateSecondaryOrderType::GdipCacheFirst => 0x08,
            AlternateSecondaryOrderType::GdipCacheNext => 0x09,
            AlternateSecondaryOrderType::GdipCacheEnd => 0x0A,
            AlternateSecondaryOrderType::Window => 0x0B,
            AlternateSecondaryOrderType::CompDesk => 0x0C,
            AlternateSecondaryOrderType::FrameMarker => 0x0D,
        }
    }

    pub fn from_u8(value: u8) -> (r: Option<Self>)
        ensures
            r matches Some(t) ==> t.code() == value,
            r is None ==> forall|t: AlternateSecondaryOrderType| #[trigger] t.code() != value,
    {
        match value {
            0x00 => Some(AlternateSecondaryOrderType::SwitchSurface),
            0x01 => Some(AlternateSecondaryOrderType::CreateOffscreenBitmap),
            0x02 => Some(AlternateSecondaryOrderType::StreamBitmapFirst),
            0x03 => Some(AlternateSecondaryOrderType::StreamBitmapNext),
            0x04 => Some(AlternateSecondaryOrderType::CreateNineGridBitmap),
            0x05 => Some(AlternateSecondaryOrderType::GdipFirst),
            0x06 => Some(AlternateSecondaryOrderType::GdipNext),
            0x07 => Some(AlternateSecondaryOrderType::GdipEnd),
            0x08 => Some(AlternateSecondaryOrderType::GdipCacheFirst),
            0x09 => Some(AlternateSecondaryOrderType::GdipCacheNext),
            0x0A => Some(AlternateSecondaryOrderType::GdipCacheEnd),
            0x0B => Some(AlternateSecondaryOrderType::Window),
            0x0C => Some(AlternateSecondaryOrderType::CompDesk),
            0x0D => Some(AlternateSecondaryOrderType::FrameMarker),
            _ => None,
        }
    }
}

/// Bounding rectangle for drawing orders
#[derive(Debug, Clone, Copy, PartialEq, Eq, Structural)]
pub struct BoundingRectangle {
    pub left: i16,
    pub top: i16,
    pub right: i16,
    pub bottom: i16,
}

/// Delta-encoded rectangle for Multi* orders
#[derive(Debug, Clone, Copy, PartialEq, Eq, Structural)]
pub struct DeltaRect {
    pub left: i16,
    pub top: i16,
    pub width: i16,
    pub height: i16,
}

/// Delta-encoded point for Polyline
#[derive(Debug, Clone, Copy, PartialEq, Eq, Structural)]
pub struct DeltaPoint {
    pub x: i16,
    pub y: i16,
}

/// Brush data for pattern orders
#[derive(Debug, Clone, Copy)]
pub struct BrushData {
    pub org_x: i8,
    pub org_y: i8,
    pub style: u8,
    pub hatch: u8,
    pub extra: [u8; 7],
}

#[verifier::ext_equal]
pub struct BrushView {
    pub org_x: i8,
    pub org_y: i8,
    pub style: u8,
    pub hatch: u8,
    pub extra: Seq<u8>,
}

impl View for BrushData {
    type V = BrushView;

    open spec fn view(&self) -> BrushView {
        BrushView {
            org_x: self.org_x,
            org_y: self.org_y,
            style: self.style,
            hatch: self.hatch,
            extra: self.extra@,
        }
    }
}

/// DstBlt (destination block transfer) order
#[derive(Debug, Clone, Copy)]
pub struct DstBltOrder {
    pub x: i16,
    pub y: i16,
    pub width: i16,
    pub height: i16,
    pub rop: u8,
}

/// PatBlt (pattern block transfer) order
#[derive(Debug, Clone, Copy)]
pub struct PatBltOrder {
    pub x: i16,
    pub y: i16,
    pub width: i16,
    pub height: i16,
    pub rop: u8,
    pub back_color: u32,
    pub fore_color: u32,
    pub brush: BrushData,
}

#[verifier::ext_equal]
pub struct PatBltView {
    pub x: i16,
    pub y: i16,
    pub width: i16,
    pub height: i16,
    pub rop: u8,
    pub back_color: u32,
    pub fore_color: u32,
    pub brush: BrushView,
}

impl View for PatBltOrder {
    type V = PatBltView;

    open spec fn view(&self) -> PatBltView {
        PatBltView {
            x: self.x,
            y: self.y,
            width: self.width,
            height: self.height,
            rop: self.rop,
            back_color: self.back_color,
            fore_color: self.fore_color,
            brush: self.brush@,
        }
    }
}

/// ScrBlt (screen block transfer) order
#[derive(Debug, Clone, Copy)]
pub struct ScrBltOrder {
    pub x: i16,
    pub y: i16,
    pub width: i16,
    pub height: i16,
    pub rop: u8,
    pub src_x: i16,
    pub src_y: i16,
}

/// OpaqueRect order
#[derive(Debug, Clone, Copy)]
pub struct OpaqueRectOrder {
    pub x: i16,
    pub y: i16,
    pub width: i16,
    pub height: i16,
    pub color: u32,
}

/// LineTo order
#[derive(Debug, Clone, Copy)]
pub struct LineToOrder {
    pub back_mode: u16,
    pub start_x: i16,
    pub start_y: i16,
    pub end_x: i16,
    pub end_y: i16,
    pub back_color: u32,
    pub rop2: u8,
    pub pen_style: u8,
    pub pen_width: u8,
    pub pen_color: u32,
}

/// MultiOpaqueRect order
#[derive(Debug)]
pub struct MultiOpaqueRectOrder {
    pub x: i16,
    pub y: i16,
    pub width: i16,
    pub height: i16,
    pub color: u32,
    pub rectangles: Vec<DeltaRect>,
}

#[verifier::ext_equal]
pub struct MultiOpaqueRectView {
    pub x: i16,
    pub y: i16,
    pub width: i16,
    pub height: i16,
    pub color: u32,
    pub rectangles: Seq<DeltaRect>,
}

impl View for MultiOpaqueRectOrder {
    type V = MultiOpaqueRectView;

    open spec fn view(&self) -> MultiOpaqueRectView {
        MultiOpaqueRectView {
            x: self.x,
            y: self.y,
            width: self.width,
            height: self.height,
            color: self.color,
            rectangles: self.rectangles@,
        }
    }
}

impl Clone for MultiOpaqueRectOrder {
    fn clone(&self) -> (r: Self)
        ensures
            r@ == self@,
    {
        MultiOpaqueRectOrder {
            x: self.x,
            y: self.y,
            width: self.width,
            height: self.height,
            color: self.color,
            rectangles: self.rectangles.clone(),
        }
    }
}

/// MultiDstBlt order
#[derive(Debug)]
pub struct MultiDstBltOrder {
    pub x: i16,
    pub y: i16,
    pub width: i16,
    pub height: i16,
    pub rop: u8,
    pub rectangles: Vec<DeltaRect>,
}

#[verifier::ext_equal]
pub struct MultiDstBltView {
    pub x: i16,
    pub y: i16,
    pub width: i16,
    pub height: i16,
    pub rop: u8,
    pub rectangles: Seq<DeltaRect>,
}

impl View for MultiDstBltOrder {
    type V = MultiDstBltView;

    open spec fn view(&self) -> MultiDstBltView {
        MultiDstBltView {
            x: self.x,
            y: self.y,
            width: self.width,
            height: self.height,
            rop: self.rop,
            rectangles: self.rectangles@,
        }
    }
}

impl Clone for MultiDstBltOrder {
    fn clone(&self) -> (r: Self)
        ensures
            r@ == self@,
    {
        MultiDstBltOrder {
            x: self.x,
            y: self.y,
            width: self.width,
            height: self.height,
            rop: self.rop,
            rectangles: self.rectangles.clone(),
        }
    }
}

/// MultiPatBlt order
#[derive(Debug)]
pub struct MultiPatBltOrder {
    pub x: i16,
    pub y: i16,
    pub width: i16,
    pub height: i16,
    pub rop: u8,
    pub back_color: u32,
    pub fore_color: u32,
    pub brush: BrushData,
    pub rectangles: Vec<DeltaRect>,
}

#[verifier::ext_equal]
pub struct MultiPatBltView {
    pub x: i16,
    pub y: i16,
    pub width: i16,
    pub height: i16,
    pub rop: u8,
    pub back_color: u32,
    pub fore_color: u32,
    pub brush: BrushView,
    pub rectangles: Seq<DeltaRect>,
}

impl View for MultiPatBltOrder {
    type V = MultiPatBltView;

    open spec fn view(&self) -> MultiPatBltView {
        MultiPatBltView {
            x: self.x,
            y: self.y,
            width: self.width,
            height: self.height,
            rop: self.rop,
            back_color: self.back_color,
            fore_color: self.fore_color,
            brush: self.brush@,
            rectangles: self.rectangles@,
        }
    }
}

impl Clone for MultiPatBltOrder {
    fn clone(&self) -> (r: Self)
        ensures
            r@ == self@,
    {
        MultiPatBltOrder {
            x: self.x,
            y: self.y,
            width: self.width,
            height: self.height,
            rop: self.rop,
            back_color: self.back_color,
            fore_color: self.fore_color,
            brush: self.brush,
            rectangles: self.rectangles.clone(),
        }
    }
}

/// MultiScrBlt order
#[derive(Debug)]
pub struct MultiScrBltOrder {
    pub x: i16,
    pub y: i16,
    pub width: i16,
    pub height: i16,
    pub rop: u8,
    pub src_x: i16,
    pub src_y: i16,
    pub rectangles: Vec<DeltaRect>,
}

#[verifier::ext_equal]
pub struct MultiScrBltView {
    pub x: i16,
    pub y: i16,
    pub width: i16,
    pub height: i16,
    pub rop: u8,
    pub src_x: i16,
    pub src_y: i16,
    pub rectangles: Seq<DeltaRect>,
}

impl View for MultiScrBltOrder {
    type V = MultiScrBltView;

    open spec fn view(&self) -> MultiScrBltView {
        MultiScrBltView {
            x: self.x,
            y: self.y,
            width: self.width,
            height: self.height,
            rop: self.rop,
            src_x: self.src_x,
            src_y: self.src_y,
            rectangles: self.rectangles@,
        }
    }
}

impl Clone for MultiScrBltOrder {
    fn clone(&self) -> (r: Self)
        ensures
            r@ == self@,
    {
        MultiScrBltOrder {
            x: self.x,
            y: self.y,
            width: self.width,
            height: self.height,
            rop: self.rop,
            src_x: self.src_x,
            src_y: self.src_y,
            rectangles: self.rectangles.clone(),
        }
    }
}

/// Polyline order
#[derive(Debug)]
pub struct PolylineOrder {
    pub x: i16,
    pub y: i16,
    pub rop2: u8,
    pub brush_cache_entry: u16,
    pub pen_color: u32,
    pub points: Vec<DeltaPoint>,
}

#[verifier::ext_equal]
pub struct PolylineView {
    pub x: i16,
    pub y: i16,
    pub rop2: u8,
    pub brush_cache_entry: u16,
    pub pen_color: u32,
    pub points: Seq<DeltaPoint>,
}

impl View for PolylineOrder {
    type V = PolylineView;

    open spec fn view(&self) -> PolylineView {
        PolylineView {
            x: self.x,
            y: self.y,
            rop2: self.rop2,
            brush_cache_entry: self.brush_cache_entry,
            pen_color: self.pen_color,
            points: self.points@,
        }
    }
}

impl Clone for PolylineOrder {
    fn clone(&self) -> (r: Self)
        ensures
            r@ == self@,
    {
        PolylineOrder {
            x: self.x,
            y: self.y,
            rop2: self.rop2,
            brush_cache_entry: self.brush_cache_entry,
            pen_color: self.pen_color,
            points: self.points.clone(),
        }
    }
}

impl BrushView {
    pub open spec fn zero() -> BrushView {
        BrushView { org_x: 0, org_y: 0, style: 0, hatch: 0, extra: seq![0, 0, 0, 0, 0, 0, 0] }
    }
}

impl Default for BrushData {
    fn default() -> (r: Self)
        ensures
            r@ == BrushView::zero(),
    {
        BrushData { org_x: 0, org_y: 0, style: 0, hatch: 0, extra: [0, 0, 0, 0, 0, 0, 0] }
    }
}

impl BoundingRectangle {
    pub open spec fn zero() -> BoundingRectangle {
        BoundingRectangle {
            left: 0,
            top: 0,
            right: 0,
            bottom: 0,
        }
    }
}

impl Default for BoundingRectangle {
    fn default() -> (r: Self)
        ensures
            r == BoundingRectangle::zero(),
    {
        BoundingRectangle {
            left: 0,
            top: 0,
            right: 0,
            bottom: 0,
        }
    }
}

impl DstBltOrder {
    pub open spec fn zero() -> DstBltOrder {
        DstBltOrder {
            x: 0,
            y: 0,
            width: 0,
            height: 0,
            rop: 0,
        }
    }
}

impl Default for DstBltOrder {
    fn default() -> (r: Self)
        ensures
            r == DstBltOrder::zero(),
    {
        DstBltOrder {
            x: 0,
            y: 0,
            width: 0,
            height: 0,
            rop: 0,
        }
    }
}

impl PatBltView {
    pub open spec fn zero() -> PatBltView {
        PatBltView {
            x: 0,
            y: 0,
            width: 0,
            height: 0,
            rop: 0,
            back_color: 0,
            fore_color: 0,
            brush: BrushView::zero(),
        }
    }
}

impl Default for PatBltOrder {
    fn default() -> (r: Self)
        ensures
            r@ == PatBltView::zero(),
    {
        PatBltOrder {
            x: 0,
            y: 0,
            width: 0,
            height: 0,
            rop: 0,
            back_color: 0,
            fore_color: 0,
            brush: BrushData::default(),
        }
    }
}

impl ScrBltOrder {
    pub open spec fn zero() -> ScrBltOrder {
        ScrBltOrder {
            x: 0,
            y: 0,
            width: 0,
            height: 0,
            rop: 0,
            src_x: 0,
            src_y: 0,
        }
    }
}

impl Default for ScrBltOrder {
    fn default() -> (r: Self)
        ensures
            r == ScrBltOrder::zero(),
    {
        ScrBltOrder {
            x: 0,
            y: 0,
            width: 0,
            height: 0,
            rop: 0,
            src_x: 0,
            src_y: 0,
        }
    }
}

impl OpaqueRectOrder {
    pub open spec fn zero() -> OpaqueRectOrder {
        OpaqueRectOrder {
            x: 0,
            y: 0,
            width: 0,
            height: 0,
            color: 0,
        }
    }
}

impl Default for OpaqueRectOrder {
    fn default() -> (r: Self)
        ensures
            r == OpaqueRectOrder::zero(),
    {
        OpaqueRectOrder {
            x: 0,
            y: 0,
            width: 0,
            height: 0,
            color: 0,
        }
    }
}

impl LineToOrder {
    pub open spec fn zero() -> LineToOrder {
        LineToOrder {
            back_mode: 0,
            start_x: 0,
            start_y: 0,
            end_x: 0,
            end_y: 0,
            back_color: 0,
            rop2: 0,
            pen_style: 0,
            pen_width: 0,
            pen_color: 0,
        }
    }
}

impl Default for LineToOrder {
    fn default() -> (r: Self)
        ensures
            r == LineToOrder::zero(),
    {
        LineToOrder {
            back_mode: 0,
            start_x: 0,
            start_y: 0,
            end_x: 0,
            end_y: 0,
            back_color: 0,
            rop2: 0,
            pen_style: 0,
            pen_width: 0,
            pen_color: 0,
        }
    }
}

impl MultiOpaqueRectView {
    pub open spec fn zero() -> MultiOpaqueRectView {
        MultiOpaqueRectView {
            x: 0,
            y: 0,
            width: 0,
            height: 0,
            color: 0,
            rectangles: Seq::empty(),
        }
    }
}

impl Default for MultiOpaqueRectOrder {
    fn default() -> (r: Self)
        ensures
            r@ == MultiOpaqueRectView::zero(),
    {
        MultiOpaqueRectOrder {
            x: 0,
            y: 0,
            width: 0,
            height: 0,
            color: 0,
            rectangles: Vec::new(),
        }
    }
}

impl MultiDstBltView {
    pub open spec fn zero() -> MultiDstBltView {
        MultiDstBltView {
            x: 0,
            y: 0,
            width: 0,
            height: 0,
            rop: 0,
            rectangles: Seq::empty(),
        }
    }
}

impl Default for MultiDstBltOrder {
    fn default() -> (r: Self)
        ensures
            r@ == MultiDstBltView::zero(),
    {
        MultiDstBltOrder {
            x: 0,
            y: 0,
            width: 0,
            height: 0,
            rop: 0,
            rectangles: Vec::new(),
        }
    }
}

impl MultiPatBltView {
    pub open spec fn zero() -> MultiPatBltView {
        MultiPatBltView {
            x: 0,
            y: 0,
            width: 0,
            height: 0,
            rop: 0,
            back_color: 0,
            fore_color: 0,
            brush: BrushView::zero(),
            rectangles: Seq::empty(),
        }
    }
}

impl Default for MultiPatBltOrder {
    fn default() -> (r: Self)
        ensures
            r@ == MultiPatBltView::zero(),
    {
        MultiPatBltOrder {
            x: 0,
            y: 0,
            width: 0,
            height: 0,
            rop: 0,
            back_color: 0,
            fore_color: 0,
            brush: BrushData::default(),
            rectangles: Vec::new(),
        }
    }
}

impl MultiScrBltView {
    pub open spec fn zero() -> MultiScrBltView {
        MultiScrBltView {
            x: 0,
            y: 0,
            width: 0,
            height: 0,
            rop: 0,
            src_x: 0,
            src_y: 0,
            rectangles: Seq::empty(),
        }
    }
}

impl Default for MultiScrBltOrder {
    fn default() -> (r: Self)
        ensures
            r@ == MultiScrBltView::zero(),
    {
        MultiScrBltOrder {
            x: 0,
            y: 0,
            width: 0,
            height: 0,
            rop: 0,
            src_x: 0,
            src_y: 0,
            rectangles: Vec::new(),
        }
    }
}

impl PolylineView {
    pub open spec fn zero() -> PolylineView {
        PolylineView {
            x: 0,
            y: 0,
            rop2: 0,
            brush_cache_entry: 0,
            pen_color: 0,
            points: Seq::empty(),
        }
    }
}

impl Default for PolylineOrder {
    fn default() -> (r: Self)
        ensures
            r@ == PolylineView::zero(),
    {
        PolylineOrder {
            x: 0,
            y: 0,
            rop2: 0,
            brush_cache_entry: 0,
            pen_color: 0,
            points: Vec::new(),
        }
    }
}

/// What the next delta encoded order starts from
#[derive(Debug)]
#[must_use]
pub struct DrawingOrderState {
    /// Current primary order type
    pub primary_order_type: Option<PrimaryOrderType>,
    /// Current bounds
    pub bounds: BoundingRectangle,
    /// Current DstBlt state
    pub dstblt: DstBltOrder,
    /// Current PatBlt state
    pub patblt: PatBltOrder,
    /// Current ScrBlt state
    pub scrblt: ScrBltOrder,
    /// Current OpaqueRect state
    pub opaque_rect: OpaqueRectOrder,
    /// Current LineTo state
    pub line_to: LineToOrder,
    /// Current MultiOpaqueRect state
    pub multi_opaque_rect: MultiOpaqueRectOrder,
    /// Current MultiDstBlt state
    pub multi_dstblt: MultiDstBltOrder,
    /// Current MultiPatBlt state
    pub multi_patblt: MultiPatBltOrder,
    /// Current MultiScrBlt state
    pub multi_scrblt: MultiScrBltOrder,
    /// Current Polyline state
    pub polyline: PolylineOrder,
}

#[verifier::ext_equal]
pub struct OrderStateView {
    pub primary_order_type: Option<PrimaryOrderType>,
    pub bounds: BoundingRectangle,
    pub dstblt: DstBltOrder,
    pub patblt: PatBltView,
    pub scrblt: ScrBltOrder,
    pub opaque_rect: OpaqueRectOrder,
    pub line_to: LineToOrder,
    pub multi_opaque_rect: MultiOpaqueRectView,
    pub multi_dstblt: MultiDstBltView,
    pub multi_patblt: MultiPatBltView,
    pub multi_scrblt: MultiScrBltView,
    pub polyline: PolylineView,
}

impl View for DrawingOrderState {
    type V = OrderStateView;

    open spec fn view(&self) -> OrderStateView {
        OrderStateView {
            primary_order_type: self.primary_order_type,
            bounds: self.bounds,
            dstblt: self.dstblt,
            patblt: self.patblt@,
            scrblt: self.scrblt,
            opaque_rect: self.opaque_rect,
            line_to: self.line_to,
            multi_opaque_rect: self.multi_opaque_rect@,
            multi_dstblt: self.multi_dstblt@,
            multi_patblt: self.multi_patblt@,
            multi_scrblt: self.multi_scrblt@,
            polyline: self.polyline@,
        }
    }
}

impl Clone for DrawingOrderState {
    fn clone(&self) -> (r: Self)
        ensures
            r@ == self@,
    {
        DrawingOrderState {
            primary_order_type: self.primary_order_type,
            bounds: self.bounds,
            dstblt: self.dstblt,
            patblt: self.patblt,
            scrblt: self.scrblt,
            opaque_rect: self.opaque_rect,
            line_to: self.line_to,
            multi_opaque_rect: self.multi_opaque_rect.clone(),
            multi_dstblt: self.multi_dstblt.clone(),
            multi_patblt: self.multi_patblt.clone(),
            multi_scrblt: self.multi_scrblt.clone(),
            polyline: self.polyline.clone(),
        }
    }
}

impl OrderStateView {
    /// No order seen yet.
    pub open spec fn initial() -> OrderStateView {
        OrderStateView {
            primary_order_type: None,
            bounds: BoundingRectangle::zero(),
            dstblt: DstBltOrder::zero(),
            patblt: PatBltView::zero(),
            scrblt: ScrBltOrder::zero(),
            opaque_rect: OpaqueRectOrder::zero(),
            line_to: LineToOrder::zero(),
            multi_opaque_rect: MultiOpaqueRectView::zero(),
            multi_dstblt: MultiDstBltView::zero(),
            multi_patblt: MultiPatBltView::zero(),
            multi_scrblt: MultiScrBltView::zero(),
            polyline: PolylineView::zero(),
        }
    }
}

impl Default for DrawingOrderState {
    fn default() -> (r: Self)
        ensures
            r@ == OrderStateView::initial(),
    {
        DrawingOrderState {
            primary_order_type: None,
            bounds: BoundingRectangle::default(),
            dstblt: DstBltOrder::default(),
            patblt: PatBltOrder::default(),
            scrblt: ScrBltOrder::default(),
            opaque_rect: OpaqueRectOrder::default(),
            line_to: LineToOrder::default(),
            multi_opaque_rect: MultiOpaqueRectOrder::default(),
            multi_dstblt: MultiDstBltOrder::default(),
            multi_patblt: MultiPatBltOrder::default(),
            multi_scrblt: MultiScrBltOrder::default(),
            polyline: PolylineOrder::default(),
        }
    }
}

impl DrawingOrderState {
    /// No order seen yet.
    pub fn new() -> (r: Self)
        ensures
            r@ == OrderStateView::initial(),
    {
        Self::default()
    }
}

/// Primary order data
#[derive(Debug, Clone)]
pub enum PrimaryOrderData {
    /// DstBlt order data
    DstBlt(DstBltOrder),
    /// PatBlt order data
    PatBlt(PatBltOrder),
    /// ScrBlt order data
    ScrBlt(ScrBltOrder),
    /// OpaqueRect order data
    OpaqueRect(OpaqueRectOrder),
    /// LineTo order data
    LineTo(LineToOrder),
    /// MultiOpaqueRect order data
    MultiOpaqueRect(MultiOpaqueRectOrder),
    /// MultiDstBlt order data
    MultiDstBlt(MultiDstBltOrder),
    /// MultiPatBlt order data
    MultiPatBlt(MultiPatBltOrder),
    /// MultiScrBlt order data
    MultiScrBlt(MultiScrBltOrder),
    /// Polyline order data
    Polyline(PolylineOrder),
    /// Other order types
    Other(Vec<u8>),
}

#[verifier::ext_equal]
pub enum OrderDataView {
    DstBlt(DstBltOrder),
    PatBlt(PatBltView),
    ScrBlt(ScrBltOrder),
    OpaqueRect(OpaqueRectOrder),
    LineTo(LineToOrder),
    MultiOpaqueRect(MultiOpaqueRectView),
    MultiDstBlt(MultiDstBltView),
    MultiPatBlt(MultiPatBltView),
    MultiScrBlt(MultiScrBltView),
    Polyline(PolylineView),
    Other(Seq<u8>),
}

impl View for PrimaryOrderData {
    type V = OrderDataView;

    open spec fn view(&self) -> OrderDataView {
        match self {
            PrimaryOrderData::DstBlt(o) => OrderDataView::DstBlt(*o),
            PrimaryOrderData::PatBlt(o) => OrderDataView::PatBlt(o@),
            PrimaryOrderData::ScrBlt(o) => OrderDataView::ScrBlt(*o),
            PrimaryOrderData::OpaqueRect(o) => OrderDataView::OpaqueRect(*o),
            PrimaryOrderData::LineTo(o) => OrderDataView::LineTo(*o),
            PrimaryOrderData::MultiOpaqueRect(o) => OrderDataView::MultiOpaqueRect(o@),
            PrimaryOrderData::MultiDstBlt(o) => OrderDataView::MultiDstBlt(o@),
            PrimaryOrderData::MultiPatBlt(o) => OrderDataView::MultiPatBlt(o@),
            PrimaryOrderData::MultiScrBlt(o) => OrderDataView::MultiScrBlt(o@),
            PrimaryOrderData::Polyline(o) => OrderDataView::Polyline(o@),
            PrimaryOrderData::Other(o) => OrderDataView::Other(o@),
        }
    }
}

/// Primary drawing order
#[derive(Debug, Clone)]
pub struct PrimaryOrder {
    /// The order type
    pub order_type: PrimaryOrderType,
    /// Bounding rectangle (if present)
    pub bounds: Option<BoundingRectangle>,
    /// Order-specific data
    pub data: PrimaryOrderData,
}

#[verifier::ext_equal]
pub struct PrimaryOrderView {
    pub order_type: PrimaryOrderType,
    pub bounds: Option<BoundingRectangle>,
    pub data: OrderDataView,
}

impl View for PrimaryOrder {
    type V = PrimaryOrderView;

    open spec fn view(&self) -> PrimaryOrderView {
        PrimaryOrderView { order_type: self.order_type, bounds: self.bounds, data: self.data@ }
    }
}

/// Secondary order (caching)
#[derive(Debug, Clone, Copy)]
pub struct SecondaryOrder<'a> {
    pub order_type: SecondaryOrderType,
    pub data: &'a [u8],
}

/// Alternate secondary order
#[derive(Debug, Clone, Copy)]
pub struct AlternateSecondaryOrder<'a> {
    pub order_type: AlternateSecondaryOrderType,
    /// Raw order data
    pub data: &'a [u8],
}

/// A parsed drawing order
#[derive(Debug, Clone)]
pub enum DrawingOrder<'a> {
    /// Primary drawing order
    Primary(PrimaryOrder),
    /// Secondary (caching) order
    Secondary(SecondaryOrder<'a>),
    /// Alternate secondary order
    AlternateSecondary(AlternateSecondaryOrder<'a>),
}

#[verifier::ext_equal]
pub enum OrderView {
    Primary(PrimaryOrderView),
    Secondary(SecondaryOrderType, Seq<u8>),
    AlternateSecondary(AlternateSecondaryOrderType, Seq<u8>),
}

impl<'a> View for DrawingOrder<'a> {
    type V = OrderView;

    open spec fn view(&self) -> OrderView {
        match self {
            DrawingOrder::Primary(o) => OrderView::Primary(o@),
            DrawingOrder::Secondary(o) => OrderView::Secondary(o.order_type, o.data@),
            DrawingOrder::AlternateSecondary(o) => OrderView::AlternateSecondary(o.order_type, o.data@),
        }
    }
}

} // verus!
