//! Pointer updates of the server.

use std::sync::Arc;

use vstd::prelude::*;

use crate::error::{SessionError, SessionResult};
use crate::geometry::InclusiveRectangle;
use crate::image::{placeable, DecodedImage, ImageView};
use crate::pointer::{share, DecodedPointer, PointerCache};

verus! {

/// What an update did to the screen, or asks of the user interface.
#[derive(Debug)]
pub enum UpdateKind {
    /// Nothing to be seen
    Nothing,
    Region(InclusiveRectangle),
    PointerDefault,
    PointerHidden,
    PointerPosition { x: u16, y: u16 },
    PointerBitmap(Arc<DecodedPointer>),
}

/// A pointer update. A bitmap is already decoded, or nothing if it could not be decoded.
#[derive(Debug)]
pub enum PointerUpdateData {
    SetHidden,
    SetDefault,
    SetPosition { x: u16, y: u16 },
    Color { cache_index: u16, pointer: Option<Arc<DecodedPointer>> },
    Cached { cache_index: u16 },
    New { cache_index: u16, pointer: Option<Arc<DecodedPointer>> },
    Large { cache_index: u16, pointer: Option<Arc<DecodedPointer>> },
}

/// How the pointer of the server is handled.
#[derive(Debug)]
pub struct PointerHandling {
    cache: PointerCache,
    use_system_pointer: bool,
    enable_server_pointer: bool,
    pointer_software_rendering: bool,
}

#[verifier::ext_equal]
pub struct PointerHandlingView {
    /// The pointers that the server may refer to.
    pub cached: Map<u16, Arc<DecodedPointer>>,
    /// Whether the user interface shows its own pointer.
    pub system: bool,
    /// Whether pointer updates count at all.
    pub enabled: bool,
    /// Whether the pointer is drawn on the image.
    pub software: bool,
}

impl View for PointerHandling {
    type V = PointerHandlingView;

    closed spec fn view(&self) -> PointerHandlingView {
        PointerHandlingView {
            cached: self.cache@,
            system: self.use_system_pointer,
            enabled: self.enable_server_pointer,
            software: self.pointer_software_rendering,
        }
    }
}

/// What a pointer update comes to.
#[verifier::ext_equal]
pub struct PointerOutcome {
    pub handling: PointerHandlingView,
    pub image: ImageView,
    pub result: SessionResult<Seq<UpdateKind>>,
}

/// The area that changed, if any, as an update.
pub open spec fn region(area: Option<InclusiveRectangle>) -> Seq<UpdateKind> {
    match area {
        Some(rect) => seq![UpdateKind::Region(rect)],
        None => Seq::empty(),
    }
}

impl PointerHandlingView {
    /// The server asks for no pointer, or for the default one: `kind` says which. A pointer that was
    /// drawn goes away.
    pub open spec fn without_pointer(self, image: ImageView, kind: UpdateKind) -> PointerOutcome {
        if self.software && !self.system {
            let (v, area) = image.pointer_hidden();
            PointerOutcome {
                handling: PointerHandlingView { system: true, ..self },
                image: v,
                result: Ok(seq![kind] + region(area)),
            }
        } else {
            PointerOutcome { handling: self, image, result: Ok(seq![kind]) }
        }
    }

    /// The server moves the pointer.
    pub open spec fn with_position(self, image: ImageView, x: u16, y: u16) -> PointerOutcome {
        if self.system || !self.software {
            PointerOutcome {
                handling: self,
                image,
                result: Ok(seq![UpdateKind::PointerPosition { x, y }]),
            }
        } else {
            let (v, area) = image.pointer_moved(x, y);
            PointerOutcome { handling: self, image: v, result: Ok(region(area)) }
        }
    }

    /// The server sends a pointer, which is cached and shown.
    pub open spec fn with_bitmap(
        self,
        image: ImageView,
        cache_index: u16,
        pointer: Option<Arc<DecodedPointer>>,
    ) -> PointerOutcome {
        match pointer {
            None => PointerOutcome { handling: self, image, result: Err(SessionError::Pointer) },
            Some(p) => {
                let handling = PointerHandlingView { cached: self.cached.insert(cache_index, p), ..self };
                if self.software {
                    let (v, area) = image.pointer_replaced(p@);
                    PointerOutcome { handling, image: v, result: Ok(region(area)) }
                } else {
                    PointerOutcome { handling, image, result: Ok(seq![UpdateKind::PointerBitmap(p)]) }
                }
            },
        }
    }

    /// The server shows a pointer that it sent earlier. Nothing happens if there is none.
    pub open spec fn with_cached(self, image: ImageView, cache_index: u16) -> PointerOutcome {
        if self.cached.dom().contains(cache_index) {
            let p = self.cached[cache_index];
            let handling = PointerHandlingView { system: false, ..self };
            if self.software {
                let (v, area) = image.pointer_replaced(p@);
                match area {
                    Some(_) => PointerOutcome {
                        handling,
                        image: v,
                        result: Ok(seq![UpdateKind::PointerHidden] + region(area)),
                    },
                    None => {
                        let (shown, place) = v.pointer_shown();
                        PointerOutcome {
                            handling,
                            image: shown,
                            result: Ok(seq![UpdateKind::PointerHidden] + region(place)),
                        }
                    },
                }
            } else {
                PointerOutcome {
                    handling,
                    image,
                    result: Ok(seq![UpdateKind::PointerHidden, UpdateKind::PointerBitmap(p)]),
                }
            }
        } else {
            PointerOutcome { handling: self, image, result: Ok(Seq::empty()) }
        }
    }

    pub open spec fn updated(self, image: ImageView, update: PointerUpdateData) -> PointerOutcome {
        if !self.enabled {
            PointerOutcome { handling: self, image, result: Ok(Seq::empty()) }
        } else {
            match update {
                PointerUpdateData::SetHidden => self.without_pointer(image, UpdateKind::PointerHidden),
                PointerUpdateData::SetDefault => self.without_pointer(image, UpdateKind::PointerDefault),
                PointerUpdateData::SetPosition { x, y } => self.with_position(image, x, y),
                PointerUpdateData::Color { cache_index, pointer } => self.with_bitmap(
                    image,
                    cache_index,
                    pointer,
                ),
                PointerUpdateData::Cached { cache_index } => self.with_cached(image, cache_index),
                PointerUpdateData::New { cache_index, pointer } => self.with_bitmap(
                    image,
                    cache_index,
                    pointer,
                ),
                PointerUpdateData::Large { cache_index, pointer } => self.with_bitmap(
                    image,
                    cache_index,
                    pointer,
                ),
            }
        }
    }

    /// Whether a pointer can be drawn on the image where the pointer is.
    pub open spec fn can_draw(image: ImageView, pointer: DecodedPointer) -> bool {
        pointer@.wf() && placeable(pointer@, image.x, image.y, image.width, image.height)
    }

    /// Whether the pointer that an update draws can be drawn.
    pub open spec fn drawable(self, image: ImageView, update: PointerUpdateData) -> bool {
        self.enabled && self.software ==> match update {
            PointerUpdateData::SetPosition { x, y } => !self.system && image.pointer is Some && image.shown
                ==> placeable(image.pointer->Some_0, x, y, image.width, image.height),
            PointerUpdateData::Color { pointer: Some(p), .. } => Self::can_draw(image, *p),
            PointerUpdateData::New { pointer: Some(p), .. } => Self::can_draw(image, *p),
            PointerUpdateData::Large { pointer: Some(p), .. } => Self::can_draw(image, *p),
            PointerUpdateData::Cached { cache_index } => self.cached.dom().contains(cache_index)
                ==> Self::can_draw(image, *self.cached[cache_index]),
            _ => true,
        }
    }
}

/// Appends the area that changed, if any.
fn push_region(updates: &mut Vec<UpdateKind>, area: Option<InclusiveRectangle>)
    ensures
        final(updates)@ == old(updates)@ + region(area),
{
    match area {
        Some(rect) => {
            updates.push(UpdateKind::Region(rect));
        },
        None => {},
    }
    assert(updates@ =~= old(updates)@ + region(area));
}

/// The updates of a result.
pub open spec fn updates_of(r: SessionResult<Vec<UpdateKind>>) -> SessionResult<Seq<UpdateKind>> {
    match r {
        Ok(list) => Ok(list@),
        Err(e) => Err(e),
    }
}

impl PointerHandling {
    /// No pointer has been sent yet: the user interface shows its own.
    pub fn new(enable_server_pointer: bool, pointer_software_rendering: bool) -> (r: Self)
        ensures
            r@ == (PointerHandlingView {
                cached: Map::empty(),
                system: true,
                enabled: enable_server_pointer,
                software: pointer_software_rendering,
            }),
    {
        PointerHandling {
            cache: PointerCache::new(),
            use_system_pointer: true,
            enable_server_pointer,
            pointer_software_rendering,
        }
    }

    /// Whether pointer bitmaps are to be decoded for drawing on the image.
    pub fn software_rendering(&self) -> (r: bool)
        ensures
            r == self@.software,
    {
        self.pointer_software_rendering
    }

    /// Whether an update can be processed: the pointer that it draws can be drawn.
    pub fn is_drawable(&self, image: &DecodedImage, update: &PointerUpdateData) -> (r: bool)
        requires
            image@.wf(),
        ensures
            r == self@.drawable(image@, *update),
    {
        if !self.enable_server_pointer || !self.pointer_software_rendering {
            return true;
        }
        match update {
            PointerUpdateData::SetPosition { x, y } => self.use_system_pointer || image.can_move_pointer(
                *x,
                *y,
            ),
            PointerUpdateData::Color { cache_index: _, pointer } => can_draw_optional(image, pointer),
            PointerUpdateData::New { cache_index: _, pointer } => can_draw_optional(image, pointer),
            PointerUpdateData::Large { cache_index: _, pointer } => can_draw_optional(image, pointer),
            PointerUpdateData::Cached { cache_index } => can_draw_optional(image, &self.cache.get(*cache_index)),
            PointerUpdateData::SetHidden | PointerUpdateData::SetDefault => true,
        }
    }

    /// Hides the pointer if it is drawn.
    fn drop_pointer(&mut self, image: &mut DecodedImage, kind: UpdateKind) -> (r: SessionResult<Vec<UpdateKind>>)
        requires
            old(image)@.wf(),
        ensures
            final(image)@.wf(),
            ({
                let out = old(self)@.without_pointer(old(image)@, kind);
                &&& final(self)@ == out.handling
                &&& final(image)@ == out.image
                &&& updates_of(r) == out.result
            }),
    {
        let mut updates: Vec<UpdateKind> = Vec::new();
        updates.push(kind);
        if self.pointer_software_rendering && !self.use_system_pointer {
            self.use_system_pointer = true;
            let area: Option<InclusiveRectangle> = image.hide_pointer()?;
            push_region(&mut updates, area);
        }
        assert(seq![kind] + region(None) =~= seq![kind]);
        Ok(updates)
    }

    /// Caches a pointer and shows it.
    fn take(
        &mut self,
        image: &mut DecodedImage,
        cache_index: u16,
        pointer: Option<Arc<DecodedPointer>>,
    ) -> (r: SessionResult<Vec<UpdateKind>>)
        requires
            old(image)@.wf(),
            old(self)@.software && pointer is Some ==> PointerHandlingView::can_draw(
                old(image)@,
                *pointer->Some_0,
            ),
        ensures
            final(image)@.wf(),
            ({
                let out = old(self)@.with_bitmap(old(image)@, cache_index, pointer);
                &&& final(self)@ == out.handling
                &&& final(image)@ == out.image
                &&& updates_of(r) == out.result
            }),
    {
        let mut updates: Vec<UpdateKind> = Vec::new();
        match pointer {
            None => {
                return Err(SessionError::Pointer);
            },
            Some(p) => {
                self.cache.insert(cache_index, share(&p));
                if !self.pointer_software_rendering {
                    updates.push(UpdateKind::PointerBitmap(p));
                } else {
                    let area: Option<InclusiveRectangle> = image.update_pointer(p)?;
                    push_region(&mut updates, area);
                    assert(updates@ =~= region(area));
                }
            },
        }
        Ok(updates)
    }

    /// Processes a pointer update.
    pub fn process_pointer_update(&mut self, image: &mut DecodedImage, update: PointerUpdateData) -> (r: SessionResult<
        Vec<UpdateKind>,
    >)
        requires
            old(image)@.wf(),
            old(self)@.drawable(old(image)@, update),
        ensures
            final(image)@.wf(),
            !old(self)@.enabled ==> {
                &&& final(self)@ == old(self)@
                &&& final(image)@ == old(image)@
                &&& updates_of(r) == Ok::<Seq<UpdateKind>, SessionError>(Seq::empty())
            },
            old(self)@.software ==> without_bitmaps(updates_of(r)),
            final(self)@.enabled == old(self)@.enabled,
            final(self)@.software == old(self)@.software,
            ({
                let out = old(self)@.updated(old(image)@, update);
                &&& final(self)@ == out.handling
                &&& final(image)@ == out.image
                &&& updates_of(r) == out.result
            }),
    {
        proof {
            law_settings_stay(self@, image@, update);
            if self@.software {
                law_software_rendering_hands_out_no_bitmap(self@, image@, update);
            }
        }
        let mut updates: Vec<UpdateKind> = Vec::new();
        if !self.enable_server_pointer {
            return Ok(updates);
        }
        match update {
            PointerUpdateData::SetHidden => self.drop_pointer(image, UpdateKind::PointerHidden),
            PointerUpdateData::SetDefault => self.drop_pointer(image, UpdateKind::PointerDefault),
            PointerUpdateData::SetPosition { x, y } => {
                if self.use_system_pointer || !self.pointer_software_rendering {
                    updates.push(UpdateKind::PointerPosition { x, y });
                    assert(updates@ =~= seq![UpdateKind::PointerPosition { x, y }]);
                } else {
                    let area: Option<InclusiveRectangle> = image.move_pointer(x, y)?;
                    push_region(&mut updates, area);
                    assert(updates@ =~= region(area));
                }
                Ok(updates)
            },
            PointerUpdateData::Color { cache_index, pointer } => self.take(image, cache_index, pointer),
            PointerUpdateData::Cached { cache_index } => {
                match self.cache.get(cache_index) {
                    Some(p) => {
                        updates.push(UpdateKind::PointerHidden);
                        assert(updates@ =~= seq![UpdateKind::PointerHidden]);
                        self.use_system_pointer = false;
                        if !self.pointer_software_rendering {
                            updates.push(UpdateKind::PointerBitmap(p));
                            assert(updates@ =~= seq![UpdateKind::PointerHidden, UpdateKind::PointerBitmap(p)]);
                        } else {
                            let area: Option<InclusiveRectangle> = image.update_pointer(p)?;
                            if area.is_some() {
                                push_region(&mut updates, area);
                            } else {
                                let place: Option<InclusiveRectangle> = image.show_pointer()?;
                                push_region(&mut updates, place);
                            }
                        }
                    },
                    None => {
                        assert(updates@ =~= Seq::empty());
                    },
                }
                Ok(updates)
            },
            PointerUpdateData::New { cache_index, pointer } => self.take(image, cache_index, pointer),
            PointerUpdateData::Large { cache_index, pointer } => self.take(image, cache_index, pointer),
        }
    }
}

/// With server pointers disabled no update has any effect.
pub proof fn law_disabled_pointers_are_ignored(h: PointerHandlingView, image: ImageView, update: PointerUpdateData)
    requires
        !h.enabled,
    ensures
        h.updated(image, update) == (PointerOutcome { handling: h, image, result: Ok(Seq::empty()) }),
{
}

/// Whether no pointer bitmap is handed out.
pub open spec fn without_bitmaps(result: SessionResult<Seq<UpdateKind>>) -> bool {
    result matches Ok(list) ==> forall|k: int|
        0 <= k < list.len() ==> !(#[trigger] list[k] is PointerBitmap)
}

/// The same of the list that a function hands out.
pub proof fn lemma_without_bitmaps(r: SessionResult<Vec<UpdateKind>>)
    requires
        without_bitmaps(updates_of(r)),
    ensures
        r is Ok ==> forall|k: int|
            0 <= k < (r->Ok_0)@.len() ==> !(#[trigger] (r->Ok_0)@[k] is PointerBitmap),
{
}

/// Areas are no pointer bitmaps.
proof fn lemma_region_is_no_bitmap(kind: UpdateKind, area: Option<InclusiveRectangle>)
    requires
        !(kind is PointerBitmap),
    ensures
        without_bitmaps(Ok(region(area))),
        without_bitmaps(Ok(seq![kind])),
        without_bitmaps(Ok(seq![kind] + region(area))),
{
}

proof fn lemma_dropped_without_bitmap(h: PointerHandlingView, image: ImageView, kind: UpdateKind)
    requires
        !(kind is PointerBitmap),
    ensures
        without_bitmaps(h.without_pointer(image, kind).result),
{
    let area = image.pointer_hidden().1;
    lemma_region_is_no_bitmap(kind, area);
}

proof fn lemma_moved_without_bitmap(h: PointerHandlingView, image: ImageView, x: u16, y: u16)
    ensures
        without_bitmaps(h.with_position(image, x, y).result),
{
    let area = image.pointer_moved(x, y).1;
    lemma_region_is_no_bitmap(UpdateKind::PointerPosition { x, y }, area);
}

proof fn lemma_taken_without_bitmap(
    h: PointerHandlingView,
    image: ImageView,
    cache_index: u16,
    pointer: Option<Arc<DecodedPointer>>,
)
    requires
        h.software,
    ensures
        without_bitmaps(h.with_bitmap(image, cache_index, pointer).result),
{
    match pointer {
        Some(p) => {
            let area = image.pointer_replaced(p@).1;
            lemma_region_is_no_bitmap(UpdateKind::PointerHidden, area);
        },
        None => {},
    }
}

proof fn lemma_recalled_without_bitmap(h: PointerHandlingView, image: ImageView, cache_index: u16)
    requires
        h.software,
    ensures
        without_bitmaps(h.with_cached(image, cache_index).result),
{
    if h.cached.dom().contains(cache_index) {
        let (v, area) = image.pointer_replaced(h.cached[cache_index]@);
        let place = v.pointer_shown().1;
        lemma_region_is_no_bitmap(UpdateKind::PointerHidden, area);
        lemma_region_is_no_bitmap(UpdateKind::PointerHidden, place);
    }
}

/// With software rendering no pointer bitmap is handed out, whatever the server sends.
pub proof fn law_software_rendering_hands_out_no_bitmap(
    h: PointerHandlingView,
    image: ImageView,
    update: PointerUpdateData,
)
    requires
        h.software,
    ensures
        without_bitmaps(h.updated(image, update).result),
{
    match update {
        PointerUpdateData::SetHidden => lemma_dropped_without_bitmap(h, image, UpdateKind::PointerHidden),
        PointerUpdateData::SetDefault => lemma_dropped_without_bitmap(h, image, UpdateKind::PointerDefault),
        PointerUpdateData::SetPosition { x, y } => lemma_moved_without_bitmap(h, image, x, y),
        PointerUpdateData::Cached { cache_index } => lemma_recalled_without_bitmap(h, image, cache_index),
        PointerUpdateData::Color { cache_index, pointer } => {
            lemma_taken_without_bitmap(h, image, cache_index, pointer);
        },
        PointerUpdateData::New { cache_index, pointer } => {
            lemma_taken_without_bitmap(h, image, cache_index, pointer);
        },
        PointerUpdateData::Large { cache_index, pointer } => {
            lemma_taken_without_bitmap(h, image, cache_index, pointer);
        },
    }
}

/// Updates leave the settings alone: whether pointers of the server count, and how they are rendered.
pub proof fn law_settings_stay(h: PointerHandlingView, image: ImageView, update: PointerUpdateData)
    ensures
        h.updated(image, update).handling.enabled == h.enabled,
        h.updated(image, update).handling.software == h.software,
{
}

/// A pointer that was sent is shown again when the server refers to it.
pub proof fn law_cached_pointer_is_recalled(
    h: PointerHandlingView,
    image: ImageView,
    cache_index: u16,
    pointer: Arc<DecodedPointer>,
)
    requires
        h.enabled,
        !h.software,
    ensures
        ({
            let sent = h.updated(
                image,
                PointerUpdateData::Color { cache_index, pointer: Some(pointer) },
            );
            let recalled = sent.handling.updated(sent.image, PointerUpdateData::Cached { cache_index });
            &&& sent.result == Ok::<Seq<UpdateKind>, SessionError>(
                seq![UpdateKind::PointerBitmap(pointer)],
            )
            &&& recalled.result == Ok::<Seq<UpdateKind>, SessionError>(
                seq![UpdateKind::PointerHidden, UpdateKind::PointerBitmap(pointer)],
            )
            &&& recalled.image == image
        }),
{
}

/// Whether a pointer, if there is one, can be drawn on the image.
fn can_draw_optional(image: &DecodedImage, pointer: &Option<Arc<DecodedPointer>>) -> (r: bool)
    requires
        image@.wf(),
    ensures
        r == (pointer matches Some(p) ==> PointerHandlingView::can_draw(image@, **p)),
{
    match pointer {
        Some(p) => p.is_drawable() && image.can_place_pointer(p),
        None => true,
    }
}

} // verus!
