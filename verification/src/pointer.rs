//! Mouse pointers sent by the server.

use std::collections::HashMap;
use std::sync::Arc;

use vstd::prelude::*;

use crate::geometry::lemma_area_bound;

verus! {

broadcast use vstd::std_specs::hash::group_hash_axioms;

/// A pointer image in RGBA, and the pixel of it that points.
#[derive(Debug, Clone, PartialEq, Eq)]
pub struct DecodedPointer {
    pub width: u16,
    pub height: u16,
    pub hotspot_x: u16,
    pub hotspot_y: u16,
    pub bitmap_data: Vec<u8>,
}

pub struct PointerView {
    pub width: u16,
    pub height: u16,
    pub hotspot_x: u16,
    pub hotspot_y: u16,
    pub bitmap: Seq<u8>,
}

impl View for DecodedPointer {
    type V = PointerView;

    open spec fn view(&self) -> PointerView {
        PointerView {
            width: self.width,
            height: self.height,
            hotspot_x: self.hotspot_x,
            hotspot_y: self.hotspot_y,
            bitmap: self.bitmap_data@,
        }
    }
}

/// Whether an intensity under the opacity `alpha` leaves room for any background: the colours of a
/// pointer are multiplied by their opacity.
pub open spec fn blends(value: u8, alpha: u8) -> bool {
    value + 255 * (255 - alpha) / 256 <= 255
}

impl PointerView {
    /// The bitmap holds all the pixels, and each pixel that is not transparent blends.
    pub open spec fn wf(self) -> bool {
        &&& self.width * self.height * 4 <= self.bitmap.len()
        &&& forall|p: int|
            #![trigger self.bitmap[4 * p + 3]]
            0 <= p < self.width * self.height && self.bitmap[4 * p + 3] != 0 ==> {
                &&& blends(self.bitmap[4 * p], self.bitmap[4 * p + 3])
                &&& blends(self.bitmap[4 * p + 1], self.bitmap[4 * p + 3])
                &&& blends(self.bitmap[4 * p + 2], self.bitmap[4 * p + 3])
            }
    }
}

impl DecodedPointer {
    /// Whether the pointer can be drawn.
    pub fn is_drawable(&self) -> (r: bool)
        ensures
            r == self@.wf(),
    {
        proof {
            lemma_area_bound(self.width, self.height);
        }
        let count: u64 = self.width as u64 * self.height as u64;
        if count * 4 > self.bitmap_data.len() as u64 {
            return false;
        }
        let mut p: u64 = 0;
        while p < count
            invariant
                p <= count,
                count == self.width * self.height,
                count * 4 <= self.bitmap_data@.len(),
                self.bitmap_data@.len() <= usize::MAX,
                forall|q: int|
                    #![trigger self@.bitmap[4 * q + 3]]
                    0 <= q < p && self@.bitmap[4 * q + 3] != 0 ==> {
                        &&& blends(self@.bitmap[4 * q], self@.bitmap[4 * q + 3])
                        &&& blends(self@.bitmap[4 * q + 1], self@.bitmap[4 * q + 3])
                        &&& blends(self@.bitmap[4 * q + 2], self@.bitmap[4 * q + 3])
                    },
            decreases count - p,
        {
            let at: usize = (4 * p) as usize;
            let alpha: u8 = self.bitmap_data[at + 3];
            if alpha != 0 {
                let rest: u16 = 255 * (255 - alpha as u16) / 256;
                if self.bitmap_data[at] as u16 + rest > 255 || self.bitmap_data[at + 1] as u16 + rest > 255
                    || self.bitmap_data[at + 2] as u16 + rest > 255 {
                    assert(self@.bitmap[4 * p + 3] == alpha);
                    return false;
                }
            }
            p = p + 1;
        }
        true
    }
}

/// Shares a pointer: `Arc::clone`, whose result refers to the same value.
#[verifier::external_body]
pub(crate) fn share(pointer: &Arc<DecodedPointer>) -> (r: Arc<DecodedPointer>)
    ensures
        *r == **pointer,
{
    Arc::clone(pointer)
}

/// The pointers that the server may refer to by number.
#[derive(Debug)]
pub struct PointerCache {
    cache: HashMap<u16, Arc<DecodedPointer>>,
}

impl View for PointerCache {
    type V = Map<u16, Arc<DecodedPointer>>;

    closed spec fn view(&self) -> Map<u16, Arc<DecodedPointer>> {
        self.cache@
    }
}

impl PointerCache {
    pub fn new() -> (r: Self)
        ensures
            r@ == Map::<u16, Arc<DecodedPointer>>::empty(),
    {
        PointerCache { cache: HashMap::new() }
    }

    /// Stores a pointer in place of the one that had the number, if any.
    pub fn insert(&mut self, id: u16, pointer: Arc<DecodedPointer>)
        ensures
            final(self)@ == old(self)@.insert(id, pointer),
    {
        self.cache.insert(id, pointer);
    }

    pub fn get(&self, id: u16) -> (r: Option<Arc<DecodedPointer>>)
        ensures
            r == (if self@.dom().contains(id) {
                Some(self@[id])
            } else {
                None
            }),
    {
        match self.cache.get(&id) {
            Some(pointer) => Some(share(pointer)),
            None => None,
        }
    }
}

} // verus!
