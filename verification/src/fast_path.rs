//! The graphics session: what the server sends, drawn on the image.
//!
//! Updates come on the fast path, in packets of their own, or on the slow path. Both end in the same
//! bitmaps, drawing orders, pointers and palettes.
//!
//! Some of the data are compressed in ways that are not decoded here: bulk compression of whole
//! updates, bitmap compression, RemoteFX and pointer bitmaps. The functions take what the decoders made
//! of them.

use vstd::prelude::*;

use crate::bitmap::BitmapUpdateData;
use crate::bitmap_cache::{caches_wf, no_bitmaps, BitmapCache, CacheView};
use crate::bitmap_caching::InflateRequest;
use crate::bitmap_updates::{
    bitmap_regions, bitmaps_applied, bitmaps_fit, has_room_for_bitmaps, process_bitmap_update, Inflated,
};
use crate::complete_data::{assembled, vec_bytes, CompleteData};
use crate::cursor::ReadCursor;
use crate::drawing_orders::{DrawingOrderState, OrderStateView};
use crate::error::{DecodeError, SessionError, SessionResult};
use crate::fast_path_pdu::{
    header_at, pdu_at, CompressionFlags, FastPathHeader, FastPathUpdatePdu, Fragmentation, UpdatePduView,
};
use crate::fast_path_update::{orders_read, FastPathOrdersUpdate, FastPathPaletteUpdate};
use crate::frame_marker::{FrameAcknowledge, FrameMarkerProcessor};
use crate::geometry::InclusiveRectangle;
use crate::image::{placeable, DecodedImage, ImageView};
use crate::order_decoding::order_at;
use crate::order_processing::{
    apply_orders, are_orders_whole, can_read, check_orders, encoded_bitmap, inflate_requests, orders_applied,
    orders_are_whole, orders_start, process_orders, read_ahead, regions, request_view, Canvas, OrdersRun,
};
use crate::order_sequence::{
    law_bad_order_ends_the_update, law_bad_order_needs_nothing, law_no_more_updates_than_orders,
};
use crate::palette::{grayscale, updated, ColorPalette, PaletteUpdate};
use crate::pointer_updates::{
    law_disabled_pointers_are_ignored, law_settings_stay, law_software_rendering_hands_out_no_bitmap,
    lemma_without_bitmaps, region, updates_of, without_bitmaps, PointerHandling, PointerHandlingView, PointerUpdateData, UpdateKind,
};
use crate::server_graphics_update::{update_at, ServerGraphicsUpdate, UpdateView};
use crate::surface_commands::{
    answers, commands_fit, commands_outcome, has_room_for_commands, process_surface_commands, SurfaceCommand,
};
use crate::zstd_stream::{new_stream, seen, StreamCall};

verus! {

/// Processes graphics updates.
pub struct Processor {
    complete_data: CompleteData,
    marker_processor: FrameMarkerProcessor,
    pointers: PointerHandling,
    mouse_pos_update: Option<(u16, u16)>,
    /// Whether bulk compression was negotiated
    bulk_compression: bool,
    /// Color palette for 8bpp indexed color mode
    color_palette: ColorPalette,
    /// Drawing order state for delta encoding
    drawing_order_state: DrawingOrderState,
    /// Bitmap cache for secondary drawing orders
    bitmap_cache: BitmapCache,
    zdctx: zstd_safe::DCtx<'static>,
}

#[verifier::ext_equal]
pub struct ProcessorView {
    /// The parts of an update that have come so far.
    pub fragments: Option<Seq<u8>>,
    pub markers: FrameMarkerProcessor,
    pub pointers: PointerHandlingView,
    /// Where the user moved the mouse.
    pub mouse: Option<(u16, u16)>,
    pub bulk: bool,
    pub palette: ColorPalette,
    pub orders: OrderStateView,
    pub caches: CacheView,
    /// What the Zstandard stream has seen.
    pub stream: Seq<StreamCall>,
}

impl View for Processor {
    type V = ProcessorView;

    closed spec fn view(&self) -> ProcessorView {
        ProcessorView {
            fragments: self.complete_data@,
            markers: self.marker_processor,
            pointers: self.pointers@,
            mouse: self.mouse_pos_update,
            bulk: self.bulk_compression,
            palette: self.color_palette,
            orders: self.drawing_order_state@,
            caches: self.bitmap_cache@,
            stream: seen(self.zdctx),
        }
    }
}

/// The settings of a processor.
#[derive(Debug, Clone, Copy)]
pub struct ProcessorBuilder {
    pub io_channel_id: u16,
    pub user_channel_id: u16,
    pub share_id: u32,
    /// Whether pointer updates of the server count.
    pub enable_server_pointer: bool,
    /// Use software rendering mode for pointer bitmap generation. When this option is active,
    /// `UpdateKind::PointerBitmap` will not be generated. Remote pointer will be drawn
    /// via software rendering on top of the output image.
    pub pointer_software_rendering: bool,
    /// Whether bulk compression was negotiated.
    pub bulk_compression: bool,
}

impl ProcessorBuilder {
    pub fn build(self) -> (r: Processor)
        ensures
            caches_wf(r@.caches),
            r@.palette@ == grayscale(),
            r@ == (ProcessorView {
                fragments: None,
                markers: FrameMarkerProcessor {
                    user_channel_id: self.user_channel_id,
                    io_channel_id: self.io_channel_id,
                    share_id: self.share_id,
                },
                pointers: PointerHandlingView {
                    cached: Map::empty(),
                    system: true,
                    enabled: self.enable_server_pointer,
                    software: self.pointer_software_rendering,
                },
                mouse: None,
                bulk: self.bulk_compression,
                palette: r@.palette,
                orders: OrderStateView::initial(),
                caches: no_bitmaps(),
                stream: Seq::empty(),
            }),
    {
        Processor {
            complete_data: CompleteData::new(),
            marker_processor: FrameMarkerProcessor::new(
                self.user_channel_id,
                self.io_channel_id,
                self.share_id,
            ),
            pointers: PointerHandling::new(self.enable_server_pointer, self.pointer_software_rendering),
            mouse_pos_update: None,
            bulk_compression: self.bulk_compression,
            color_palette: ColorPalette::new(),
            drawing_order_state: DrawingOrderState::new(),
            bitmap_cache: BitmapCache::new(),
            zdctx: new_stream(),
        }
    }
}

/// Whether the data of an update have to be decompressed, and the flags that the decompressor needs:
/// flags and type of compression in one number.
pub open spec fn bulk_flags(bulk: bool, pdu: UpdatePduView) -> Option<u32> {
    match pdu.compression_flags {
        Some(flags) => if bulk && (flags.has(CompressionFlags::COMPRESSED) || flags.has(
            CompressionFlags::FLUSHED,
        )) {
            Some(
                flags.0 as u32 | (match pdu.compression_type {
                    Some(t) => t.code() as u32,
                    None => 0,
                }),
            )
        } else {
            None
        },
        None => None,
    }
}

/// A complete update, with everything in it decoded.
#[derive(Debug)]
pub enum CompleteUpdate<'a> {
    SurfaceCommands(Vec<SurfaceCommand<'a>>),
    Bitmap(BitmapUpdateData<'a>, Vec<Option<Inflated>>),
    Pointer(PointerUpdateData),
    Palette(FastPathPaletteUpdate),
    Synchronize,
    Orders(FastPathOrdersUpdate<'a>, Vec<Option<Vec<u8>>>),
    /// An update that could not be decoded
    Invalid(DecodeError),
}

impl ProcessorView {
    /// The mouse position that the user chose, and the image with the pointer there.
    pub open spec fn mouse_moved(self, image: ImageView) -> (ProcessorView, ImageView, Seq<UpdateKind>) {
        match self.mouse {
            Some((x, y)) => {
                let (v, area) = image.pointer_moved(x, y);
                (ProcessorView { mouse: None, ..self }, v, region(area))
            },
            None => (self, image, Seq::empty()),
        }
    }

    /// Whether the pointer can be moved to where the user moved the mouse.
    pub open spec fn mouse_fits(self, image: ImageView) -> bool {
        self.mouse matches Some((x, y)) ==> (image.pointer is Some && image.shown ==> placeable(
            image.pointer->Some_0,
            x,
            y,
            image.width,
            image.height,
        ))
    }

    /// Before drawing orders of the slow path.
    pub open spec fn orders_begun(self, image: ImageView, data: Seq<u8>) -> OrdersRun {
        orders_start((Canvas { image, caches: self.caches }), self.orders, data)
    }

    /// Whether up to `n` drawing orders of the slow path are complete, as far as they are processed.
    pub open spec fn orders_ready(
        self,
        image: ImageView,
        data: Seq<u8>,
        inflated: Seq<Option<Vec<u8>>>,
        n: nat,
    ) -> bool {
        self.orders_begun(image, data).whole(self.palette@, inflated, n)
    }

    /// What up to `n` drawing orders of the slow path come to: the processor, the image and the updates.
    pub open spec fn orders_processed(
        self,
        image: ImageView,
        data: Seq<u8>,
        inflated: Seq<Option<Vec<u8>>>,
        n: nat,
    ) -> (ProcessorView, ImageView, SessionResult<Seq<UpdateKind>>) {
        let run = self.orders_begun(image, data).after(self.palette@, inflated, n);
        (
            ProcessorView { caches: run.canvas.caches, orders: run.state, ..self },
            run.canvas.image,
            run.result(),
        )
    }

    /// Whether `data` hold exactly `k` drawing orders that can be read.
    pub open spec fn holds_orders(self, data: Seq<u8>, k: nat) -> bool {
        let (_, rest, readable) = read_ahead(data, self.orders, k);
        readable && rest.len() == 0
    }

    /// Whether no drawing order can be read at the front of `bad`, behind the `k` orders of `good`.
    pub open spec fn is_bad_behind(self, bad: Seq<u8>, good: Seq<u8>, k: nat) -> bool {
        bad.len() > 0 && order_at(bad, read_ahead(good, self.orders, k).0).result is Err
    }

    /// Whether the image has room for an update, and the update is complete.
    pub open spec fn accepts(self, image: ImageView, update: CompleteUpdate<'_>) -> bool {
        match update {
            CompleteUpdate::SurfaceCommands(commands) => commands_fit(image, commands@),
            CompleteUpdate::Bitmap(bitmaps, inflated) => bitmaps_fit(image, bitmaps@, inflated@),
            CompleteUpdate::Pointer(pointer) => self.pointers.drawable(image, pointer),
            CompleteUpdate::Orders(orders, inflated) => {
                orders_read(orders.order_data@, self.orders, orders.number_orders as nat).0 matches Ok(list)
                    ==> orders_are_whole(
                    (Canvas { image, caches: self.caches }),
                    self.palette@,
                    list,
                    inflated@,
                )
            },
            _ => true,
        }
    }

    /// What an update comes to: the processor, the image, the updates, and the frames that are to be
    /// acknowledged.
    pub open spec fn processes(
        self,
        image: ImageView,
        update: CompleteUpdate<'_>,
        after: ProcessorView,
        image_after: ImageView,
        result: SessionResult<Seq<UpdateKind>>,
        acknowledged: Seq<FrameAcknowledge>,
    ) -> bool {
        match update {
            CompleteUpdate::SurfaceCommands(commands) => {
                &&& after == (ProcessorView { stream: after.stream, ..self })
                &&& exists|done: nat, area: SessionResult<InclusiveRectangle>|
                    {
                        &&& #[trigger] commands_outcome(
                            image,
                            self.stream,
                            commands@,
                            self.palette,
                            image_after,
                            after.stream,
                            done,
                            area,
                        )
                        &&& acknowledged == answers(self.markers, commands@, done)
                        &&& result == (match area {
                            Ok(rect) => Ok(seq![UpdateKind::Region(rect)]),
                            Err(e) => Err(e),
                        })
                    }
            },
            CompleteUpdate::Bitmap(bitmaps, inflated) => {
                let (v, areas) = bitmaps_applied(
                    image,
                    bitmaps@,
                    inflated@,
                    self.palette,
                    bitmaps@.len(),
                );
                &&& after == self
                &&& image_after == v
                &&& result == Ok::<Seq<UpdateKind>, SessionError>(bitmap_regions(areas))
                &&& acknowledged.len() == 0
            },
            CompleteUpdate::Pointer(pointer) => {
                let out = self.pointers.updated(image, pointer);
                &&& after == (ProcessorView { pointers: out.handling, ..self })
                &&& image_after == out.image
                &&& result == out.result
                &&& acknowledged.len() == 0
            },
            CompleteUpdate::Palette(palette) => {
                &&& after == (ProcessorView { palette: after.palette, ..self })
                &&& after.palette@ == updated(self.palette@, palette@)
                &&& image_after == image
                &&& result == Ok::<Seq<UpdateKind>, SessionError>(Seq::empty())
                &&& acknowledged.len() == 0
            },
            CompleteUpdate::Synchronize => {
                &&& after == self
                &&& image_after == image
                &&& result == Ok::<Seq<UpdateKind>, SessionError>(Seq::empty())
                &&& acknowledged.len() == 0
            },
            CompleteUpdate::Orders(orders, inflated) => {
                let (list, state, rest) = orders_read(
                    orders.order_data@,
                    self.orders,
                    orders.number_orders as nat,
                );
                &&& acknowledged.len() == 0
                &&& match list {
                    Err(e) => {
                        &&& after == (ProcessorView { orders: state, ..self })
                        &&& image_after == image
                        &&& result == Err::<Seq<UpdateKind>, SessionError>(SessionError::Decode(e))
                    },
                    Ok(read) => {
                        let (canvas, areas, error) = orders_applied(
                            (Canvas { image, caches: self.caches }),
                            self.palette@,
                            read,
                            inflated@,
                            read.len(),
                        );
                        &&& after == (ProcessorView { orders: state, caches: canvas.caches, ..self })
                        &&& image_after == canvas.image
                        &&& result == (match error {
                            Some(e) => Err(e),
                            None => Ok(regions(areas)),
                        })
                    },
                }
            },
            CompleteUpdate::Invalid(e) => {
                &&& after == self
                &&& image_after == image
                &&& acknowledged.len() == 0
                &&& result == (match e {
                    DecodeError::InvalidField { .. } => Ok(seq![UpdateKind::Nothing]),
                    DecodeError::NotEnoughBytes { .. } => Err(SessionError::Decode(e)),
                })
            },
        }
    }
}

impl Processor {
    /// Takes note of where the user moved the mouse.
    pub fn update_mouse_pos(&mut self, x: u16, y: u16)
        ensures
            final(self)@ == (ProcessorView { mouse: Some((x, y)), ..old(self)@ }),
    {
        self.mouse_pos_update = Some((x, y));
    }

    /// Update the color palette from a palette update.
    pub fn update_palette(&mut self, palette: &PaletteUpdate)
        ensures
            final(self)@.palette@ == updated(old(self)@.palette@, palette@),
            final(self)@ == (ProcessorView { palette: final(self)@.palette, ..old(self)@ }),
    {
        self.color_palette.update(palette);
    }

    /// Get a reference to the current color palette.
    pub fn palette(&self) -> (r: &ColorPalette)
        ensures
            *r == self@.palette,
    {
        &self.color_palette
    }

    /// Whether pointer bitmaps are to be decoded for drawing on the image.
    pub fn pointer_software_rendering(&self) -> (r: bool)
        ensures
            r == self@.pointers.software,
    {
        self.pointers.software_rendering()
    }

    /// Begins with a packet: moves the pointer to where the user moved the mouse, and reads the header
    /// of the packet. The updates of the packet follow in the cursor.
    pub fn begin_packet(&mut self, image: &mut DecodedImage, input: &mut ReadCursor<'_>) -> (r: SessionResult<
        Vec<UpdateKind>,
    >)
        requires
            old(image)@.wf(),
            old(self)@.mouse_fits(old(image)@),
        ensures
            final(image)@.wf(),
            ({
                let (after, v, updates) = old(self)@.mouse_moved(old(image)@);
                &&& final(self)@ == after
                &&& final(image)@ == v
                &&& final(input)@ == header_at(old(input)@).rest
                &&& updates_of(r) == (match header_at(old(input)@).result {
                    Ok(_) => Ok(updates),
                    Err(e) => Err(SessionError::Decode(e)),
                })
            }),
    {
        let mut updates: Vec<UpdateKind> = Vec::new();
        match self.mouse_pos_update {
            Some((x, y)) => {
                self.mouse_pos_update = None;
                match image.move_pointer(x, y)? {
                    Some(rect) => {
                        updates.push(UpdateKind::Region(rect));
                    },
                    None => {},
                }
            },
            None => {},
        }
        assert(updates@ =~= old(self)@.mouse_moved(old(image)@).2);
        match FastPathHeader::decode(input) {
            Ok(_) => Ok(updates),
            Err(e) => Err(SessionError::Decode(e)),
        }
    }

    /// Reads the next part of an update, and tells how it has to be decompressed, if at all.
    #[verifier::rlimit(60)]
    pub fn next_part<'a>(&self, input: &mut ReadCursor<'a>) -> (r: SessionResult<
        (FastPathUpdatePdu<'a>, Option<u32>),
    >)
        ensures
            final(input)@ == pdu_at(old(input)@).rest,
            match pdu_at(old(input)@).result {
                Ok(pdu) => r is Ok && (r->Ok_0).0@ == pdu && (r->Ok_0).1 == bulk_flags(self@.bulk, pdu)
                    && final(input)@.len() < old(input)@.len(),
                Err(e) => r == Err::<(FastPathUpdatePdu<'a>, Option<u32>), SessionError>(
                    SessionError::Decode(e),
                ),
            },
    {
        match FastPathUpdatePdu::decode(input) {
            Ok(pdu) => {
                let flags: Option<u32> = match pdu.compression_flags {
                    Some(flags) => if self.bulk_compression && (flags.contains(CompressionFlags::COMPRESSED)
                        || flags.contains(CompressionFlags::FLUSHED)) {
                        Some(
                            flags.0 as u32 | (match pdu.compression_type {
                                Some(t) => t.as_u8() as u32,
                                None => 0,
                            }),
                        )
                    } else {
                        None
                    },
                    None => None,
                };
                Ok((pdu, flags))
            },
            Err(e) => Err(SessionError::Decode(e)),
        }
    }

    /// Takes the data of a part of an update. Gives back the update that it completes.
    pub fn complete_update(&mut self, payload: &[u8], fragmentation: Fragmentation) -> (r: Option<Vec<u8>>)
        ensures
            ({
                let (pending, whole) = assembled(old(self)@.fragments, payload@, fragmentation);
                &&& final(self)@ == (ProcessorView { fragments: pending, ..old(self)@ })
                &&& vec_bytes(r) == whole
            }),
    {
        self.complete_data.process_data(payload, fragmentation)
    }

    /// Processes a complete update. The answers to frame markers are appended to `output`.
    #[verifier::rlimit(60)]
    pub fn process_update(
        &mut self,
        image: &mut DecodedImage,
        update: CompleteUpdate<'_>,
        output: &mut Vec<FrameAcknowledge>,
    ) -> (r: SessionResult<Vec<UpdateKind>>)
        requires
            old(image)@.wf(),
            old(self)@.accepts(old(image)@, update),
        ensures
            final(image)@.wf(),
            caches_wf(old(self)@.caches) ==> caches_wf(final(self)@.caches),
            exists|acknowledged: Seq<FrameAcknowledge>|
                {
                    &&& final(output)@ == old(output)@ + acknowledged
                    &&& #[trigger] old(self)@.processes(
                        old(image)@,
                        update,
                        final(self)@,
                        final(image)@,
                        updates_of(r),
                        acknowledged,
                    )
                },
    {
        let ghost before = self@;
        let ghost start = image@;
        let ghost earlier = output@;
        let ghost update_view = update;
        let ghost mut acknowledged: Seq<FrameAcknowledge> = Seq::empty();
        assert(output@ =~= earlier + acknowledged);
        let mut updates: Vec<UpdateKind> = Vec::new();
        let r: SessionResult<Vec<UpdateKind>> = match update {
            CompleteUpdate::SurfaceCommands(commands) => {
                let area: SessionResult<InclusiveRectangle> = process_surface_commands(
                    image,
                    &commands,
                    &self.color_palette,
                    &mut self.zdctx,
                    &self.marker_processor,
                    output,
                );
                proof {
                    let done = choose|done: nat|
                        {
                            &&& #[trigger] commands_outcome(
                                start,
                                before.stream,
                                commands@,
                                before.palette,
                                image@,
                                seen(self.zdctx),
                                done,
                                area,
                            )
                            &&& output@ == earlier + answers(before.markers, commands@, done)
                        };
                    acknowledged = answers(before.markers, commands@, done);
                    assert(commands_outcome(
                        start,
                        before.stream,
                        commands@,
                        before.palette,
                        image@,
                        seen(self.zdctx),
                        done,
                        area,
                    ));
                }
                match area {
                    Ok(rect) => {
                        updates.push(UpdateKind::Region(rect));
                        assert(updates@ =~= seq![UpdateKind::Region(rect)]);
                        Ok(updates)
                    },
                    Err(e) => Err(e),
                }
            },
            CompleteUpdate::Bitmap(bitmaps, inflated) => process_bitmap_update(
                &self.color_palette,
                image,
                &bitmaps,
                inflated.as_slice(),
            ),
            CompleteUpdate::Pointer(pointer) => self.pointers.process_pointer_update(image, pointer),
            CompleteUpdate::Palette(palette) => {
                let entries: PaletteUpdate = PaletteUpdate { entries: palette.entries };
                self.color_palette.update(&entries);
                Ok(updates)
            },
            CompleteUpdate::Synchronize => Ok(updates),
            CompleteUpdate::Orders(orders, inflated) => {
                match orders.decode_orders(&mut self.drawing_order_state) {
                    Ok(list) => apply_orders(
                        &mut self.bitmap_cache,
                        &self.color_palette,
                        image,
                        &list,
                        inflated.as_slice(),
                    ),
                    Err(e) => Err(SessionError::Decode(e)),
                }
            },
            CompleteUpdate::Invalid(e) => match e {
                DecodeError::InvalidField { .. } => {
                    updates.push(UpdateKind::Nothing);
                    assert(updates@ =~= seq![UpdateKind::Nothing]);
                    Ok(updates)
                },
                DecodeError::NotEnoughBytes { .. } => Err(SessionError::Decode(e)),
            },
        };
        assert(before.processes(start, update_view, self@, image@, updates_of(r), acknowledged));
        r
    }

    /// Processes a complete update if it can be processed. Otherwise nothing happens, and there is no
    /// result.
    pub fn process_if_accepted(
        &mut self,
        image: &mut DecodedImage,
        update: CompleteUpdate<'_>,
        output: &mut Vec<FrameAcknowledge>,
    ) -> (r: Option<SessionResult<Vec<UpdateKind>>>)
        requires
            old(image)@.wf(),
        ensures
            final(image)@.wf(),
            caches_wf(old(self)@.caches) ==> caches_wf(final(self)@.caches),
            r is Some <==> old(self)@.accepts(old(image)@, update),
            match r {
                Some(result) => exists|acknowledged: Seq<FrameAcknowledge>|
                    {
                        &&& final(output)@ == old(output)@ + acknowledged
                        &&& #[trigger] old(self)@.processes(
                            old(image)@,
                            update,
                            final(self)@,
                            final(image)@,
                            updates_of(result),
                            acknowledged,
                        )
                    },
                None => {
                    &&& final(self)@ == old(self)@
                    &&& final(image)@ == old(image)@
                    &&& final(output)@ == old(output)@
                },
            },
    {
        if self.can_process_update(image, &update) {
            Some(self.process_update(image, update, output))
        } else {
            None
        }
    }

    /// Whether an update can be processed: the image has room for it, and it is complete.
    pub fn can_process_update(&self, image: &DecodedImage, update: &CompleteUpdate<'_>) -> (r: bool)
        requires
            image@.wf(),
        ensures
            r == self@.accepts(image@, *update),
    {
        match update {
            CompleteUpdate::SurfaceCommands(commands) => has_room_for_commands(image, commands),
            CompleteUpdate::Bitmap(bitmaps, inflated) => has_room_for_bitmaps(
                image,
                bitmaps,
                inflated.as_slice(),
            ),
            CompleteUpdate::Pointer(pointer) => self.pointers.is_drawable(image, pointer),
            CompleteUpdate::Orders(orders, inflated) => {
                let mut state: DrawingOrderState = self.drawing_order_state.clone();
                match orders.decode_orders(&mut state) {
                    Ok(list) => are_orders_whole(&self.bitmap_cache, &list, inflated.as_slice()),
                    Err(_) => true,
                }
            },
            _ => true,
        }
    }

    /// Whether the pointer can be moved to where the user moved the mouse.
    pub fn can_begin_packet(&self, image: &DecodedImage) -> (r: bool)
        requires
            image@.wf(),
        ensures
            r == self@.mouse_fits(image@),
    {
        match self.mouse_pos_update {
            Some((x, y)) => image.can_move_pointer(x, y),
            None => true,
        }
    }

    /// Processes a pointer update of the slow path.
    pub fn process_pointer_update(&mut self, image: &mut DecodedImage, update: PointerUpdateData) -> (r: SessionResult<
        Vec<UpdateKind>,
    >)
        requires
            old(image)@.wf(),
            old(self)@.pointers.drawable(old(image)@, update),
        ensures
            final(image)@.wf(),
            !old(self)@.pointers.enabled ==> {
                &&& final(self)@ == old(self)@
                &&& final(image)@ == old(image)@
                &&& updates_of(r) == Ok::<Seq<UpdateKind>, SessionError>(Seq::empty())
            },
            old(self)@.pointers.software && r is Ok ==> forall|k: int|
                0 <= k < (r->Ok_0)@.len() ==> !(#[trigger] (r->Ok_0)@[k] is PointerBitmap),
            ({
                let out = old(self)@.pointers.updated(old(image)@, update);
                &&& final(self)@ == (ProcessorView { pointers: out.handling, ..old(self)@ })
                &&& final(image)@ == out.image
                &&& updates_of(r) == out.result
            }),
    {
        let r: SessionResult<Vec<UpdateKind>> = self.pointers.process_pointer_update(image, update);
        proof {
            if old(self)@.pointers.software {
                lemma_without_bitmaps(r);
            }
        }
        r
    }

    /// Processes a bitmap update of the slow path. Other updates are ignored.
    ///
    /// `inflated` holds what decompression made of the compressed bitmaps.
    pub fn process_slow_path_bitmap(
        &mut self,
        image: &mut DecodedImage,
        data: &[u8],
        inflated: &[Option<Inflated>],
    ) -> (r: SessionResult<Vec<UpdateKind>>)
        requires
            old(image)@.wf(),
            update_at(data@).result matches Ok(UpdateView::Bitmap(list)) ==> bitmaps_fit(
                old(image)@,
                list,
                inflated@,
            ),
        ensures
            final(image)@.wf(),
            final(self)@ == old(self)@,
            match update_at(data@).result {
                Ok(UpdateView::Bitmap(list)) => {
                    let (v, areas) = bitmaps_applied(
                        old(image)@,
                        list,
                        inflated@,
                        old(self)@.palette,
                        list.len(),
                    );
                    &&& final(image)@ == v
                    &&& updates_of(r) == Ok::<Seq<UpdateKind>, SessionError>(bitmap_regions(areas))
                },
                Ok(_) => {
                    &&& final(image)@ == old(image)@
                    &&& updates_of(r) == Ok::<Seq<UpdateKind>, SessionError>(seq![UpdateKind::Nothing])
                },
                Err(e) => {
                    &&& final(image)@ == old(image)@
                    &&& r == Err::<Vec<UpdateKind>, SessionError>(SessionError::Decode(e))
                },
            },
    {
        let mut cursor: ReadCursor<'_> = ReadCursor::new(data);
        match ServerGraphicsUpdate::decode(&mut cursor) {
            Ok(ServerGraphicsUpdate::Bitmap(bitmaps)) => process_bitmap_update(
                &self.color_palette,
                image,
                &bitmaps,
                inflated,
            ),
            Ok(_) => {
                let mut updates: Vec<UpdateKind> = Vec::new();
                updates.push(UpdateKind::Nothing);
                assert(updates@ =~= seq![UpdateKind::Nothing]);
                Ok(updates)
            },
            Err(e) => Err(SessionError::Decode(e)),
        }
    }

    /// Processes drawing orders of the slow path.
    ///
    /// `inflated` holds what decompression made of the run-length encoded bitmaps that orders cache:
    /// entry `k` for order `k`.
    #[verifier::rlimit(60)]
    pub fn process_slow_path_orders(
        &mut self,
        image: &mut DecodedImage,
        number_orders: u16,
        order_data: &[u8],
        inflated: &[Option<Vec<u8>>],
    ) -> (r: SessionResult<Vec<UpdateKind>>)
        requires
            old(image)@.wf(),
            old(self)@.orders_ready(old(image)@, order_data@, inflated@, number_orders as nat),
        ensures
            final(image)@.wf(),
            caches_wf(old(self)@.caches) ==> caches_wf(final(self)@.caches),
            (final(self)@, final(image)@, updates_of(r)) == old(self)@.orders_processed(
                old(image)@,
                order_data@,
                inflated@,
                number_orders as nat,
            ),
            r matches Ok(updates) ==> updates@.len() <= number_orders,
    {
        proof {
            law_no_more_updates_than_orders(
                (Canvas { image: image@, caches: self@.caches }),
                self@.orders,
                order_data@,
                self@.palette@,
                inflated@,
                number_orders as nat,
            );
        }
        process_orders(
            &mut self.bitmap_cache,
            &self.color_palette,
            &mut self.drawing_order_state,
            image,
            number_orders,
            order_data,
            inflated,
        )
    }

    /// Whether drawing orders of the slow path can be processed: every order that caches a bitmap is
    /// complete, as far as they are processed.
    pub fn can_process_orders(&self, number_orders: u16, order_data: &[u8], inflated: &[Option<Vec<u8>>]) -> (r: bool)
        ensures
            forall|image: ImageView|
                r == #[trigger] self@.orders_ready(image, order_data@, inflated@, number_orders as nat),
    {
        check_orders(&self.bitmap_cache, &self.drawing_order_state, number_orders, order_data, inflated)
    }

    /// What a run-length decoder has to be asked for before drawing orders can be processed: entry `k` for
    /// order `k`, up to the first order that cannot be read.
    pub fn orders_to_inflate<'a>(&self, number_orders: u16, order_data: &'a [u8]) -> (r: Vec<
        Option<InflateRequest<'a>>,
    >)
        ensures
            r@.len() <= number_orders,
            forall|k: int|
                #![trigger r@[k]]
                0 <= k < r@.len() ==> {
                    let found = read_ahead(order_data@, self@.orders, k as nat);
                    can_read(found) && request_view(r@[k]) == encoded_bitmap(
                        order_at(found.1, found.0).result->Ok_0,
                    )
                },
            r@.len() < number_orders ==> !can_read(read_ahead(order_data@, self@.orders, r@.len())),
    {
        inflate_requests(&self.drawing_order_state, number_orders, order_data)
    }

    /// Whether a pointer update can be processed.
    pub fn can_process_pointer(&self, image: &DecodedImage, update: &PointerUpdateData) -> (r: bool)
        requires
            image@.wf(),
        ensures
            r == self@.pointers.drawable(image@, *update),
    {
        self.pointers.is_drawable(image, update)
    }
}

/// A bad order behind good ones ends a slow-path update without an error. Image, caches and updates are
/// those of the good orders alone: the bad order and everything behind it are dropped. Nothing more has to
/// be complete than for the good orders alone.
pub proof fn law_bad_order_is_dropped(
    p: ProcessorView,
    image: ImageView,
    good: Seq<u8>,
    bad: Seq<u8>,
    inflated: Seq<Option<Vec<u8>>>,
    k: nat,
    n: nat,
)
    requires
        k < n,
        p.holds_orders(good, k),
        p.is_bad_behind(bad, good, k),
        p.orders_processed(image, good, inflated, k).2 is Ok,
    ensures
        p.orders_ready(image, good, inflated, k) ==> p.orders_ready(image, good + bad, inflated, n),
        ({
            let (alone, image_alone, updates_alone) = p.orders_processed(image, good, inflated, k);
            let (all, image_all, updates_all) = p.orders_processed(image, good + bad, inflated, n);
            &&& image_all == image_alone
            &&& updates_all == updates_alone
            &&& updates_all is Ok && (updates_all->Ok_0).len() <= k
            &&& all == (ProcessorView { orders: all.orders, ..alone })
        }),
{
    let canvas = Canvas { image, caches: p.caches };
    law_bad_order_ends_the_update(canvas, p.orders, good, bad, p.palette@, inflated, k, n);
    law_no_more_updates_than_orders(canvas, p.orders, good, p.palette@, inflated, k);
    if p.orders_ready(image, good, inflated, k) {
        law_bad_order_needs_nothing(canvas, p.orders, good, bad, p.palette@, inflated, k, n);
    }
}

/// With pointers of the server disabled, every pointer update can be processed and changes nothing.
pub proof fn law_disabled_pointers_change_nothing(
    p: ProcessorView,
    image: ImageView,
    update: PointerUpdateData,
    after: ProcessorView,
    image_after: ImageView,
    result: SessionResult<Seq<UpdateKind>>,
    acknowledged: Seq<FrameAcknowledge>,
)
    requires
        !p.pointers.enabled,
        p.processes(image, CompleteUpdate::Pointer(update), after, image_after, result, acknowledged),
    ensures
        p.accepts(image, CompleteUpdate::Pointer(update)),
        after == p,
        image_after == image,
        result == Ok::<Seq<UpdateKind>, SessionError>(Seq::empty()),
{
    law_disabled_pointers_are_ignored(p.pointers, image, update);
}

/// With software rendering no update hands out a pointer bitmap, and rendering stays as it is.
pub proof fn law_software_rendering_makes_no_bitmaps(
    p: ProcessorView,
    image: ImageView,
    update: CompleteUpdate<'_>,
    after: ProcessorView,
    image_after: ImageView,
    result: SessionResult<Seq<UpdateKind>>,
    acknowledged: Seq<FrameAcknowledge>,
)
    requires
        p.pointers.software,
        p.processes(image, update, after, image_after, result, acknowledged),
    ensures
        without_bitmaps(result),
        after.pointers.software,
{
    match update {
        CompleteUpdate::Pointer(pointer) => {
            law_software_rendering_hands_out_no_bitmap(p.pointers, image, pointer);
            law_settings_stay(p.pointers, image, pointer);
        },
        _ => {},
    }
}

} // verus!
