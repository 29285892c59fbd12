//! The palette of indexed colour mode.

use vstd::prelude::*;

verus! {

/// A single RGB color entry in a palette.
#[derive(Debug, Clone, Copy, PartialEq, Eq, Structural)]
pub struct PaletteEntry {
    /// Red component (0-255)
    pub red: u8,
    /// Green component (0-255)
    pub green: u8,
    /// Blue component (0-255)
    pub blue: u8,
}

/// New colours for the palette, from index 0 on.
#[derive(Debug)]
pub struct PaletteUpdate {
    pub entries: Vec<PaletteEntry>,
}

impl View for PaletteUpdate {
    type V = Seq<PaletteEntry>;

    open spec fn view(&self) -> Seq<PaletteEntry> {
        self.entries@
    }
}

/// Color palette for 8bpp indexed color mode.
///
/// Each pixel value is an index into 256 colours. At first the palette is a gradient from black to
/// white; the server can change it at any time.
#[derive(Debug, Clone, Copy)]
#[must_use]
pub struct ColorPalette {
    entries: [[u8; 3]; 256],
}

impl View for ColorPalette {
    type V = Seq<PaletteEntry>;

    /// The colours by index.
    closed spec fn view(&self) -> Seq<PaletteEntry> {
        Seq::new(256, |i: int| entry_of(self.entries@[i]@))
    }
}

/// The entry with the given red, green and blue.
pub open spec fn entry_of(rgb: Seq<u8>) -> PaletteEntry {
    PaletteEntry { red: rgb[0], green: rgb[1], blue: rgb[2] }
}

/// Red, green and blue of an entry.
pub open spec fn rgb_of(entry: PaletteEntry) -> Seq<u8> {
    seq![entry.red, entry.green, entry.blue]
}

/// Index `i` is grey of intensity `i`.
pub open spec fn grayscale() -> Seq<PaletteEntry> {
    Seq::new(256, |i: int| PaletteEntry { red: i as u8, green: i as u8, blue: i as u8 })
}

/// `old` with its first colours replaced; what is beyond index 255 does not count.
pub open spec fn updated(old: Seq<PaletteEntry>, update: Seq<PaletteEntry>) -> Seq<PaletteEntry> {
    Seq::new(
        old.len(),
        |i: int|
            if i < update.len() {
                update[i]
            } else {
                old[i]
            },
    )
}

impl Default for ColorPalette {
    fn default() -> (r: Self)
        ensures
            r@ == grayscale(),
    {
        Self::new()
    }
}

impl ColorPalette {
    /// Creates a new palette initialized with grayscale colors.
    pub fn new() -> (r: Self)
        ensures
            r@ == grayscale(),
            r@.len() == 256,
    {
        let mut entries: [[u8; 3]; 256] = [[0u8; 3]; 256];
        let mut i: usize = 0;
        while i < 256
            invariant
                i <= 256,
                forall|k: int| 0 <= k < i ==> #[trigger] entries@[k]@ == seq![k as u8, k as u8, k as u8],
            decreases 256 - i,
        {
            let gray: u8 = i as u8;
            entries[i] = [gray, gray, gray];
            i = i + 1;
        }
        let r: ColorPalette = ColorPalette { entries };
        assert(r@ =~= grayscale());
        r
    }

    /// Updates palette entries from index 0 on. Entries beyond index 255 are ignored.
    pub fn update(&mut self, palette: &PaletteUpdate)
        ensures
            final(self)@ == updated(old(self)@, palette@),
            final(self)@.len() == 256,
    {
        let ghost before = self@;
        let mut i: usize = 0;
        while i < palette.entries.len() && i < 256
            invariant
                i <= palette.entries@.len(),
                i <= 256,
                before == old(self)@,
                forall|k: int|
                    0 <= k < 256 ==> #[trigger] self@[k] == (if k < i {
                        palette@[k]
                    } else {
                        before[k]
                    }),
            decreases 256 - i,
        {
            let entry: PaletteEntry = palette.entries[i];
            let ghost earlier = *self;
            self.entries[i] = [entry.red, entry.green, entry.blue];
            assert forall|k: int| 0 <= k < 256 implies #[trigger] self@[k] == (if k == i {
                entry
            } else {
                earlier@[k]
            }) by {
                assert(self.entries@[k] == (if k == i {
                    self.entries@[i as int]
                } else {
                    earlier.entries@[k]
                }));
            }
            i = i + 1;
        }
        assert(self@ =~= updated(before, palette@));
    }

    /// Returns the RGB color for the given palette index.
    pub fn get(&self, index: u8) -> (r: [u8; 3])
        ensures
            r@ == rgb_of(self@[index as int]),
            self@.len() == 256,
    {
        let r: [u8; 3] = self.entries[index as usize];
        assert(r@ =~= rgb_of(self@[index as int]));
        r
    }

    /// The colours in the form that pointer bitmaps are decoded with.
    pub fn to_pointer_palette(&self) -> (r: [[u8; 3]; 256])
        ensures
            forall|i: int| 0 <= i < 256 ==> #[trigger] r@[i]@ == rgb_of(self@[i]),
    {
        let r: [[u8; 3]; 256] = self.entries;
        assert forall|i: int| 0 <= i < 256 implies #[trigger] r@[i]@ == rgb_of(self@[i]) by {
            assert(r@[i]@ =~= rgb_of(self@[i]));
        }
        r
    }
}

/// A palette has a colour for every index.
pub proof fn law_palette_covers_every_index(palette: ColorPalette, index: u8)
    ensures
        palette@.len() == 256,
        index < palette@.len(),
{
}

/// An update is read back, index by index; the colours behind it stay.
pub proof fn law_update_then_get(old: Seq<PaletteEntry>, update: Seq<PaletteEntry>, index: u8)
    requires
        old.len() == 256,
    ensures
        updated(old, update)[index as int] == (if index < update.len() {
            update[index as int]
        } else {
            old[index as int]
        }),
{
}

/// What an update holds beyond index 255 has no effect, and applying it twice is applying it once.
pub proof fn law_update_is_bounded_and_idempotent(old: Seq<PaletteEntry>, update: Seq<PaletteEntry>)
    requires
        old.len() == 256,
    ensures
        update.len() >= 256 ==> updated(old, update) == updated(old, update.take(256)),
        updated(updated(old, update), update) == updated(old, update),
{
    assert(updated(updated(old, update), update) =~= updated(old, update));
    if update.len() >= 256 {
        assert(updated(old, update) =~= updated(old, update.take(256)));
    }
}

} // verus!
