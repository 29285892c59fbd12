//! The caches of bitmaps that drawing orders refer to.

use bytes::Bytes;
use vstd::prelude::*;

use crate::error::{SessionError, SessionResult};

verus! {

/// `bytes::Bytes`: a run of bytes that can be shared without copying.
#[verifier::external_type_specification]
#[verifier::external_body]
pub struct ExBytes(bytes::Bytes);

/// The bytes that a `bytes::Bytes` holds.
pub uninterp spec fn contents(bytes: Bytes) -> Seq<u8>;

/// `Bytes::from(Vec<u8>)`: takes over the bytes of the vector, unchanged and in order.
#[verifier::external_body]
pub(crate) fn to_bytes(data: Vec<u8>) -> (r: Bytes)
    ensures
        contents(r) == data@,
{
    Bytes::from(data)
}

/// Cached bitmap entry
#[derive(Debug)]
pub struct CachedBitmap {
    /// Bitmap width in pixels
    pub width: u16,
    /// Bitmap height in pixels
    pub height: u16,
    /// Bitmap data in RGBA format (4 bytes per pixel)
    pub data: Bytes,
}

#[verifier::ext_equal]
pub struct CachedView {
    pub width: u16,
    pub height: u16,
    pub data: Seq<u8>,
}

impl View for CachedBitmap {
    type V = CachedView;

    open spec fn view(&self) -> CachedView {
        CachedView { width: self.width, height: self.height, data: contents(self.data) }
    }
}

/// Bitmap cache for secondary drawing orders
///
/// The server sends a bitmap once and refers to it by cache and entry afterwards. There are three
/// caches, with 200, 600 and 2048 entries.
#[derive(Debug)]
pub struct BitmapCache {
    small: Vec<Option<CachedBitmap>>,
    medium: Vec<Option<CachedBitmap>>,
    large: Vec<Option<CachedBitmap>>,
}

pub open spec fn entry_view(entry: Option<CachedBitmap>) -> Option<CachedView> {
    match entry {
        Some(bitmap) => Some(bitmap@),
        None => None,
    }
}

pub open spec fn cache_view(cache: Seq<Option<CachedBitmap>>) -> Seq<Option<CachedView>> {
    Seq::new(cache.len(), |i: int| entry_view(cache[i]))
}

/// Number of entries of a cache.
pub open spec fn cache_size(cache_id: int) -> nat {
    if cache_id == 0 {
        200
    } else if cache_id == 1 {
        600
    } else {
        2048
    }
}

/// What the three caches hold, by cache and entry.
pub type CacheView = Seq<Seq<Option<CachedView>>>;

impl View for BitmapCache {
    type V = CacheView;

    closed spec fn view(&self) -> CacheView {
        seq![cache_view(self.small@), cache_view(self.medium@), cache_view(self.large@)]
    }
}

/// Three caches of their sizes.
pub open spec fn caches_wf(caches: CacheView) -> bool {
    &&& caches.len() == 3
    &&& forall|id: int| 0 <= id < 3 ==> (#[trigger] caches[id]).len() == cache_size(id)
}

/// Nothing cached.
pub open spec fn no_bitmaps() -> CacheView {
    Seq::new(3, |id: int| Seq::new(cache_size(id), |i: int| None))
}

/// The caches after storing a bitmap.
pub open spec fn stored(caches: CacheView, cache_id: u8, cache_index: u16, bitmap: CachedView) -> CacheView {
    caches.update(cache_id as int, caches[cache_id as int].update(cache_index as int, Some(bitmap)))
}

/// Whether there is an entry with these numbers.
pub open spec fn entry_check(caches: CacheView, cache_id: u8, cache_index: u16) -> SessionResult<()> {
    if cache_id >= caches.len() {
        Err(SessionError::InvalidCacheId(cache_id))
    } else if cache_index >= caches[cache_id as int].len() {
        Err(SessionError::InvalidCacheIndex(cache_index))
    } else {
        Ok(())
    }
}

/// Whether two states of the caches have the same entries, whatever these hold.
pub open spec fn same_entries(a: CacheView, b: CacheView) -> bool {
    &&& a.len() == b.len()
    &&& forall|id: int| 0 <= id < a.len() ==> (#[trigger] a[id]).len() == b[id].len()
}

/// A cache of empty entries.
fn empty_cache(size: usize) -> (r: Vec<Option<CachedBitmap>>)
    ensures
        cache_view(r@) == Seq::new(size as nat, |i: int| None::<CachedView>),
{
    let mut cache: Vec<Option<CachedBitmap>> = Vec::with_capacity(size);
    while cache.len() < size
        invariant
            cache.len() <= size,
            forall|i: int| 0 <= i < cache.len() ==> #[trigger] cache@[i] is None,
        decreases size - cache.len(),
    {
        cache.push(None);
    }
    assert(cache_view(cache@) =~= Seq::new(size as nat, |i: int| None::<CachedView>));
    cache
}

impl Default for BitmapCache {
    fn default() -> (r: Self)
        ensures
            r@ == no_bitmaps(),
            caches_wf(r@),
    {
        Self::new()
    }
}

impl BitmapCache {
    /// Creates a new bitmap cache with default sizes
    pub fn new() -> (r: Self)
        ensures
            r@ == no_bitmaps(),
            caches_wf(r@),
    {
        let r: BitmapCache = BitmapCache {
            small: empty_cache(200),
            medium: empty_cache(600),
            large: empty_cache(2048),
        };
        assert(r@ =~= no_bitmaps());
        r
    }

    /// Stores a bitmap in the cache
    ///
    /// Fails if there is no entry with these numbers.
    pub fn store(&mut self, cache_id: u8, cache_index: u16, width: u16, height: u16, data: Bytes) -> (r: SessionResult<
        (),
    >)
        ensures
            r == entry_check(old(self)@, cache_id, cache_index),
            r is Ok ==> final(self)@ == stored(
                old(self)@,
                cache_id,
                cache_index,
                (CachedView { width, height, data: contents(data) }),
            ),
            r is Err ==> final(self)@ == old(self)@,
            caches_wf(old(self)@) ==> caches_wf(final(self)@),
    {
        let bitmap: CachedBitmap = CachedBitmap { width, height, data };
        let ghost before = self@;
        let ghost entry = bitmap@;
        if cache_id == 0 {
            store_in(&mut self.small, cache_index, bitmap)?;
        } else if cache_id == 1 {
            store_in(&mut self.medium, cache_index, bitmap)?;
        } else if cache_id == 2 {
            store_in(&mut self.large, cache_index, bitmap)?;
        } else {
            return Err(SessionError::InvalidCacheId(cache_id));
        }
        assert(self@ =~= stored(before, cache_id, cache_index, entry));
        Ok(())
    }

    /// Fails if there is no entry with these numbers.
    pub fn check_entry(&self, cache_id: u8, cache_index: u16) -> (r: SessionResult<()>)
        ensures
            r == entry_check(self@, cache_id, cache_index),
    {
        let len: usize = if cache_id == 0 {
            self.small.len()
        } else if cache_id == 1 {
            self.medium.len()
        } else if cache_id == 2 {
            self.large.len()
        } else {
            return Err(SessionError::InvalidCacheId(cache_id));
        };
        if cache_index as usize >= len {
            return Err(SessionError::InvalidCacheIndex(cache_index));
        }
        Ok(())
    }

    /// Retrieves a bitmap from the cache
    ///
    /// Fails if there is no entry with these numbers, or if it is empty.
    pub fn get(&self, cache_id: u8, cache_index: u16) -> (r: SessionResult<&CachedBitmap>)
        ensures
            match entry_check(self@, cache_id, cache_index) {
                Err(e) => r == Err::<&CachedBitmap, SessionError>(e),
                Ok(_) => match self@[cache_id as int][cache_index as int] {
                    Some(bitmap) => r is Ok && (r->Ok_0)@ == bitmap,
                    None => r == Err::<&CachedBitmap, SessionError>(
                        SessionError::NotCached { cache_id, cache_index },
                    ),
                },
            },
    {
        self.check_entry(cache_id, cache_index)?;
        let cache: &Vec<Option<CachedBitmap>> = if cache_id == 0 {
            &self.small
        } else if cache_id == 1 {
            &self.medium
        } else {
            &self.large
        };
        match &cache[cache_index as usize] {
            Some(bitmap) => Ok(bitmap),
            None => Err(SessionError::NotCached { cache_id, cache_index }),
        }
    }
}

fn store_in(cache: &mut Vec<Option<CachedBitmap>>, cache_index: u16, bitmap: CachedBitmap) -> (r: SessionResult<()>)
    ensures
        cache_index < old(cache)@.len() ==> r is Ok && cache_view(final(cache)@) == cache_view(old(cache)@).update(
            cache_index as int,
            Some(bitmap@),
        ),
        cache_index >= old(cache)@.len() ==> r == Err::<(), SessionError>(
            SessionError::InvalidCacheIndex(cache_index),
        ) && final(cache)@ == old(cache)@,
{
    let index: usize = cache_index as usize;
    if index >= cache.len() {
        return Err(SessionError::InvalidCacheIndex(cache_index));
    }
    cache[index] = Some(bitmap);
    assert(cache_view(cache@) =~= cache_view(old(cache)@).update(cache_index as int, Some(bitmap@)));
    Ok(())
}

/// A stored bitmap is found again under its numbers, and every other entry is as before.
pub proof fn law_store_then_get(
    caches: CacheView,
    cache_id: u8,
    cache_index: u16,
    bitmap: CachedView,
    other_id: u8,
    other_index: u16,
)
    requires
        caches_wf(caches),
        entry_check(caches, cache_id, cache_index) is Ok,
    ensures
        caches_wf(stored(caches, cache_id, cache_index, bitmap)),
        entry_check(stored(caches, cache_id, cache_index, bitmap), other_id, other_index) == entry_check(
            caches,
            other_id,
            other_index,
        ),
        entry_check(caches, other_id, other_index) is Ok ==> stored(
            caches,
            cache_id,
            cache_index,
            bitmap,
        )[other_id as int][other_index as int] == (if (other_id, other_index) == (cache_id, cache_index) {
            Some(bitmap)
        } else {
            caches[other_id as int][other_index as int]
        }),
{
}

} // verus!
