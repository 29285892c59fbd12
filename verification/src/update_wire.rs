//! How updates are written, and that reading gives them back.

use vstd::prelude::*;

use crate::bitmap::{bitmap_at, bitmaps_at, header_at, BitmapView, CompressedDataHeader, Decoded};
use crate::drawing_orders::{OrderStateView, OrderView};
use crate::error::DecodeError;
use crate::fast_path_pdu::{
    compression_type_of, fragmentation_of, pdu_at, pdu_data_at, update_code_of, CompressionFlags,
    CompressionType, EncryptionFlags, FastPathHeader, Fragmentation, UpdateCode, UpdatePduView,
};
use crate::fast_path_update::{
    orders_read, palette_bytes, palette_update_at, update_of, FastPathUpdateView, PointerCode,
};
use crate::order_decoding::order_at;
use crate::palette::PaletteEntry;
use crate::server_graphics_update::{entries_at, palette_at, update_at, UpdateType, UpdateView};
use crate::wire::{law_u16_is_read_back, law_u32_is_read_back, long, stands_at, word};

verus! {

/// The header of compressed data.
pub open spec fn compressed_header_bytes(h: CompressedDataHeader) -> Seq<u8> {
    word(0) + word(h.main_body_size as int) + word(h.scan_width as int) + word(h.uncompressed_size as int)
}

/// The header of compressed data is read back.
#[verifier::spinoff_prover]
#[verifier::rlimit(60)]
pub proof fn law_compressed_header_is_read_back(h: CompressedDataHeader, tail: Seq<u8>)
    requires
        h.scan_width % 4 == 0,
    ensures
        header_at(compressed_header_bytes(h) + tail) == (Decoded { result: Ok(h), rest: tail }),
{
    let bytes = compressed_header_bytes(h) + tail;
    assert(stands_at(bytes, 0, word(0)));
    assert(stands_at(bytes, 2, word(h.main_body_size as int)));
    assert(stands_at(bytes, 4, word(h.scan_width as int)));
    assert(stands_at(bytes, 6, word(h.uncompressed_size as int)));
    law_u16_is_read_back(0, bytes, 0);
    law_u16_is_read_back(h.main_body_size, bytes, 2);
    law_u16_is_read_back(h.scan_width, bytes, 4);
    law_u16_is_read_back(h.uncompressed_size, bytes, 6);
    assert(bytes.skip(8) =~= tail);
}

/// A header of compressed data is refused exactly if it is cut off, does not begin with a zero, or has
/// rows that are not a multiple of four.
pub proof fn law_compressed_header_is_refused(bytes: Seq<u8>, first: u16, width: u16)
    requires
        bytes.len() >= 8 ==> stands_at(bytes, 0, word(first as int)) && stands_at(bytes, 4, word(width as int)),
    ensures
        header_at(bytes).result is Err <==> bytes.len() < 8 || first != 0 || width % 4 != 0,
{
    if bytes.len() >= 8 {
        law_u16_is_read_back(first, bytes, 0);
        law_u16_is_read_back(width, bytes, 4);
    }
}

/// Whether the flags of a bitmap say that it is compressed, with a header.
pub open spec fn announces_header(flags: int) -> bool {
    flags % 2 == 1 && flags / 1024 % 2 == 0
}

/// Whether a bitmap can be written: flags without meaning are clear, a header comes exactly with flags that
/// announce it, and the length of header and data fits into its field.
pub open spec fn bitmap_writes(b: BitmapView) -> bool {
    let flags = b.compression_flags.0 as int;
    &&& flags == 0 || flags == 1 || flags == 1024 || flags == 1025
    &&& b.header is Some <==> announces_header(flags)
    &&& b.header matches Some(h) ==> h.scan_width % 4 == 0
    &&& b.data.len() + 8 <= 0xFFFF
}

/// The header of a bitmap, if it has one, and its data.
pub open spec fn bitmap_payload(b: BitmapView) -> Seq<u8> {
    match b.header {
        Some(h) => compressed_header_bytes(h) + b.data,
        None => b.data,
    }
}

/// A bitmap in front of `tail`: the edges of its rectangle, its width and height, bits per pixel, flags,
/// length of header and data, header, data.
pub open spec fn bitmap_bytes(b: BitmapView, tail: Seq<u8>) -> Seq<u8> {
    word(b.rectangle.left as int) + word(b.rectangle.top as int) + word(b.rectangle.right as int) + word(
        b.rectangle.bottom as int,
    ) + word(b.width as int) + word(b.height as int) + word(b.bits_per_pixel as int) + word(
        b.compression_flags.0 as int,
    ) + word(bitmap_payload(b).len() as int) + bitmap_payload(b) + tail
}

proof fn lemma_flags(f: u16)
    ensures
        f == 0 || f == 1 || f == 1024 || f == 1025 ==> f & 0x0401 == f && ((f & 0x0001 == 0x0001) <==> f % 2 == 1)
            && ((f & 0x0400 == 0x0400) <==> f / 1024 % 2 == 1),
{
    assert(f == 0 || f == 1 || f == 1024 || f == 1025 ==> f & 0x0401 == f && ((f & 0x0001 == 0x0001) <==> f % 2 == 1)
        && ((f & 0x0400 == 0x0400) <==> f / 1024 % 2 == 1)) by (bit_vector);
}

#[verifier::spinoff_prover]
#[verifier::rlimit(60)]
proof fn lemma_bitmap_words(b: BitmapView, tail: Seq<u8>)
    requires
        bitmap_writes(b),
    ensures
        ({
            let bytes = bitmap_bytes(b, tail);
            &&& bytes.len() == 18 + bitmap_payload(b).len() + tail.len()
            &&& bytes.skip(18) == bitmap_payload(b) + tail
            &&& crate::cursor::u16_at(bytes, 0) == b.rectangle.left
            &&& crate::cursor::u16_at(bytes, 2) == b.rectangle.top
            &&& crate::cursor::u16_at(bytes, 4) == b.rectangle.right
            &&& crate::cursor::u16_at(bytes, 6) == b.rectangle.bottom
            &&& crate::cursor::u16_at(bytes, 8) == b.width
            &&& crate::cursor::u16_at(bytes, 10) == b.height
            &&& crate::cursor::u16_at(bytes, 12) == b.bits_per_pixel
            &&& crate::cursor::u16_at(bytes, 14) == b.compression_flags.0
            &&& crate::cursor::u16_at(bytes, 16) == bitmap_payload(b).len()
        }),
{
    let bytes = bitmap_bytes(b, tail);
    let payload = bitmap_payload(b);
    assert(bytes.skip(18) =~= payload + tail);
    assert(stands_at(bytes, 0, word(b.rectangle.left as int)));
    assert(stands_at(bytes, 2, word(b.rectangle.top as int)));
    assert(stands_at(bytes, 4, word(b.rectangle.right as int)));
    assert(stands_at(bytes, 6, word(b.rectangle.bottom as int)));
    assert(stands_at(bytes, 8, word(b.width as int)));
    assert(stands_at(bytes, 10, word(b.height as int)));
    assert(stands_at(bytes, 12, word(b.bits_per_pixel as int)));
    assert(stands_at(bytes, 14, word(b.compression_flags.0 as int)));
    assert(stands_at(bytes, 16, word(payload.len() as int)));
    law_u16_is_read_back(b.rectangle.left, bytes, 0);
    law_u16_is_read_back(b.rectangle.top, bytes, 2);
    law_u16_is_read_back(b.rectangle.right, bytes, 4);
    law_u16_is_read_back(b.rectangle.bottom, bytes, 6);
    law_u16_is_read_back(b.width, bytes, 8);
    law_u16_is_read_back(b.height, bytes, 10);
    law_u16_is_read_back(b.bits_per_pixel, bytes, 12);
    law_u16_is_read_back(b.compression_flags.0, bytes, 14);
    law_u16_is_read_back(payload.len() as u16, bytes, 16);
}

/// A bitmap is read back, compressed or not, with a header or without.
#[verifier::spinoff_prover]
#[verifier::rlimit(60)]
pub proof fn law_bitmap_is_read_back(b: BitmapView, tail: Seq<u8>)
    requires
        bitmap_writes(b),
    ensures
        bitmap_at(bitmap_bytes(b, tail)) == (Decoded { result: Ok(b), rest: tail }),
{
    let bytes = bitmap_bytes(b, tail);
    let payload = bitmap_payload(b);
    lemma_bitmap_words(b, tail);
    lemma_flags(b.compression_flags.0);
    let rest = bytes.skip(18);
    assert(rest.skip(payload.len() as int) =~= tail);
    match b.header {
        Some(h) => {
            assert(rest =~= compressed_header_bytes(h) + (b.data + tail));
            law_compressed_header_is_read_back(h, b.data + tail);
            assert(rest.subrange(8, payload.len() as int) =~= b.data);
        },
        None => {
            assert(rest.take(payload.len() as int) =~= b.data);
        },
    }
}

/// Bitmaps from `k` on in front of `tail`.
pub open spec fn bitmaps_bytes(list: Seq<BitmapView>, k: int, tail: Seq<u8>) -> Seq<u8>
    decreases list.len() - k,
{
    if k >= list.len() {
        tail
    } else {
        bitmap_bytes(list[k], bitmaps_bytes(list, k + 1, tail))
    }
}

proof fn lemma_bitmaps_read(list: Seq<BitmapView>, n: nat, tail: Seq<u8>)
    requires
        n <= list.len(),
        forall|k: int| 0 <= k < list.len() ==> bitmap_writes(#[trigger] list[k]),
    ensures
        bitmaps_at(bitmaps_bytes(list, 0, tail), n) == (Decoded {
            result: Ok(list.take(n as int)),
            rest: bitmaps_bytes(list, n as int, tail),
        }),
    decreases n,
{
    if n == 0 {
        assert(list.take(0) =~= Seq::empty());
    } else {
        lemma_bitmaps_read(list, (n - 1) as nat, tail);
        law_bitmap_is_read_back(list[n - 1], bitmaps_bytes(list, n as int, tail));
        assert(list.take(n - 1).push(list[n - 1]) =~= list.take(n as int));
    }
}

/// Bitmaps are read back, one after the other.
pub proof fn law_bitmaps_are_read_back(list: Seq<BitmapView>, tail: Seq<u8>)
    requires
        forall|k: int| 0 <= k < list.len() ==> bitmap_writes(#[trigger] list[k]),
    ensures
        bitmaps_at(bitmaps_bytes(list, 0, tail), list.len()) == (Decoded { result: Ok(list), rest: tail }),
{
    lemma_bitmaps_read(list, list.len(), tail);
    assert(list.take(list.len() as int) =~= list);
}

/// Colours from `k` on in front of `tail`: red, green, blue.
pub open spec fn colors_bytes(entries: Seq<PaletteEntry>, k: int, tail: Seq<u8>) -> Seq<u8>
    decreases entries.len() - k,
{
    if k >= entries.len() {
        tail
    } else {
        seq![entries[k].red, entries[k].green, entries[k].blue] + colors_bytes(entries, k + 1, tail)
    }
}

proof fn lemma_colors(entries: Seq<PaletteEntry>, k: int, tail: Seq<u8>)
    requires
        0 <= k <= entries.len(),
    ensures
        ({
            let bytes = colors_bytes(entries, k, tail);
            &&& bytes.len() == 3 * (entries.len() - k) + tail.len()
            &&& bytes.skip(3 * (entries.len() - k)) == tail
            &&& forall|i: int|
                #![trigger entries[i]]
                k <= i < entries.len() ==> bytes[3 * (i - k)] == entries[i].red && bytes[3 * (i - k) + 1]
                    == entries[i].green && bytes[3 * (i - k) + 2] == entries[i].blue
        }),
    decreases entries.len() - k,
{
    let bytes = colors_bytes(entries, k, tail);
    if k < entries.len() {
        let rest = colors_bytes(entries, k + 1, tail);
        lemma_colors(entries, k + 1, tail);
        assert(bytes.skip(3 * (entries.len() - k)) =~= rest.skip(3 * (entries.len() - k - 1)));
        assert forall|i: int|
            #![trigger entries[i]]
            k <= i < entries.len() implies bytes[3 * (i - k)] == entries[i].red && bytes[3 * (i - k) + 1]
            == entries[i].green && bytes[3 * (i - k) + 2] == entries[i].blue by {
            if i > k {
                assert(bytes[3 * (i - k)] == rest[3 * (i - (k + 1))]);
                assert(bytes[3 * (i - k) + 1] == rest[3 * (i - (k + 1)) + 1]);
                assert(bytes[3 * (i - k) + 2] == rest[3 * (i - (k + 1)) + 2]);
            }
        }
    } else {
        assert(bytes.skip(0) =~= tail);
    }
}

/// A palette is read back: two bytes without meaning, the number of colours in four bytes, the colours.
#[verifier::spinoff_prover]
#[verifier::rlimit(60)]
pub proof fn law_palette_is_read_back(pad: u16, entries: Seq<PaletteEntry>, tail: Seq<u8>)
    requires
        entries.len() <= 0xFFFF_FFFF,
    ensures
        palette_at(word(pad as int) + long(entries.len() as int) + colors_bytes(entries, 0, tail)) == (Decoded {
            result: Ok(entries),
            rest: tail,
        }),
        palette_update_at(
            word(2) + word(pad as int) + long(entries.len() as int) + colors_bytes(entries, 0, tail),
        ) == (Decoded { result: Ok(entries), rest: tail }),
{
    let n = entries.len();
    let colors = colors_bytes(entries, 0, tail);
    let bytes = word(pad as int) + long(n as int) + colors;
    lemma_colors(entries, 0, tail);
    assert(stands_at(bytes, 2, long(n as int)));
    law_u32_is_read_back(n as u32, bytes, 2);
    assert(bytes.skip(6) =~= colors);
    assert forall|i: int| 0 <= i < n implies entries_at(colors, n)[i] == entries[i] by {
        assert(colors[3 * (i - 0)] == entries[i].red);
    }
    assert(entries_at(colors, n) =~= entries);
    let whole = word(2) + word(pad as int) + long(n as int) + colors;
    assert(stands_at(whole, 0, word(2)));
    law_u16_is_read_back(2, whole, 0);
    assert(whole.skip(2) =~= bytes);
}

/// What is written of a palette: the type of the update, two zeros, the number of colours, the colours.
#[verifier::spinoff_prover]
#[verifier::rlimit(60)]
pub proof fn law_palette_is_written(entries: Seq<PaletteEntry>)
    requires
        entries.len() <= 0xFFFF_FFFF,
    ensures
        palette_bytes(entries) == word(2) + word(0) + long(entries.len() as int) + colors_bytes(
            entries,
            0,
            Seq::empty(),
        ),
{
    let n = entries.len() as int;
    lemma_colors(entries, 0, Seq::empty());
    let colors = colors_bytes(entries, 0, Seq::empty());
    let a = palette_bytes(entries);
    let b = word(2) + word(0) + long(n) + colors;
    assert forall|i: int| 0 <= i < b.len() implies a[i] == b[i] by {
        if i >= 8 {
            let k = (i - 8) / 3;
            assert(colors[3 * (k - 0)] == entries[k].red);
            assert(colors[3 * (k - 0) + 1] == entries[k].green);
            assert(colors[3 * (k - 0) + 2] == entries[k].blue);
            assert(i - 8 == 3 * k + (i - 8) % 3);
            assert(b[i] == colors[i - 8]);
        }
    }
    assert(a =~= b);
}

/// An update on the slow path is read back: orders, with two bytes without meaning before and behind their
/// number; bitmaps behind their number; a palette; a synchronisation, with or without two bytes behind it.
pub proof fn law_slow_orders_are_read_back(pad: u16, pad_behind: u16, count: u16, data: Seq<u8>)
    ensures
        update_at(word(0) + word(pad as int) + word(count as int) + word(pad_behind as int) + data).result == Ok::<
            UpdateView,
            DecodeError,
        >(UpdateView::Orders { number_orders: count, order_data: data }),
{
    let bytes = word(0) + word(pad as int) + word(count as int) + word(pad_behind as int) + data;
    assert(stands_at(bytes, 0, word(0)));
    law_u16_is_read_back(0, bytes, 0);
    let rest = bytes.skip(2);
    assert(stands_at(rest, 2, word(count as int)));
    law_u16_is_read_back(count, rest, 2);
    assert(rest.skip(6) =~= data);
}

/// Bitmaps on the slow path are read back.
pub proof fn law_slow_bitmaps_are_read_back(list: Seq<BitmapView>, tail: Seq<u8>)
    requires
        list.len() <= 0xFFFF,
        forall|k: int| 0 <= k < list.len() ==> bitmap_writes(#[trigger] list[k]),
    ensures
        update_at(word(1) + word(list.len() as int) + bitmaps_bytes(list, 0, tail)) == (Decoded {
            result: Ok(UpdateView::Bitmap(list)),
            rest: tail,
        }),
{
    let coded = bitmaps_bytes(list, 0, tail);
    let bytes = word(1) + word(list.len() as int) + coded;
    assert(stands_at(bytes, 0, word(1)));
    law_u16_is_read_back(1, bytes, 0);
    let rest = bytes.skip(2);
    assert(stands_at(rest, 0, word(list.len() as int)));
    law_u16_is_read_back(list.len() as u16, rest, 0);
    assert(rest.skip(2) =~= coded);
    law_bitmaps_are_read_back(list, tail);
}

/// A palette on the slow path is read back.
pub proof fn law_slow_palette_is_read_back(pad: u16, entries: Seq<PaletteEntry>, tail: Seq<u8>)
    requires
        entries.len() <= 0xFFFF_FFFF,
    ensures
        update_at(word(2) + word(pad as int) + long(entries.len() as int) + colors_bytes(entries, 0, tail)) == (
        Decoded { result: Ok(UpdateView::Palette(entries)), rest: tail }),
{
    let colors = colors_bytes(entries, 0, tail);
    let bytes = word(2) + word(pad as int) + long(entries.len() as int) + colors;
    law_palette_is_read_back(pad, entries, tail);
    assert(stands_at(bytes, 0, word(2)));
    law_u16_is_read_back(2, bytes, 0);
    assert(bytes.skip(2) =~= word(pad as int) + long(entries.len() as int) + colors);
}

/// A synchronisation is read, whatever stands behind it, and any other type of update is refused.
pub proof fn law_slow_types(code: u16, tail: Seq<u8>)
    ensures
        code == 3 ==> update_at(word(code as int) + tail).result == Ok::<UpdateView, DecodeError>(
            UpdateView::Synchronize,
        ),
        code > 3 ==> update_at(word(code as int) + tail).result is Err,
        UpdateType::Orders.code() == 0,
        UpdateType::Bitmap.code() == 1,
        UpdateType::Palette.code() == 2,
        UpdateType::Synchronize.code() == 3,
{
    let bytes = word(code as int) + tail;
    assert(stands_at(bytes, 0, word(code as int)));
    law_u16_is_read_back(code, bytes, 0);
}

/// The number of a kind of update on the fast path.
pub open spec fn update_number(code: UpdateCode) -> int {
    match code {
        UpdateCode::Orders => 0,
        UpdateCode::Bitmap => 1,
        UpdateCode::Palette => 2,
        UpdateCode::Synchronize => 3,
        UpdateCode::SurfaceCommands => 4,
        UpdateCode::HiddenPointer => 5,
        UpdateCode::DefaultPointer => 6,
        UpdateCode::PositionPointer => 8,
        UpdateCode::ColorPointer => 9,
        UpdateCode::CachedPointer => 10,
        UpdateCode::NewPointer => 11,
        UpdateCode::LargePointer => 12,
    }
}

/// The number of a part of an update.
pub open spec fn part_number(part: Fragmentation) -> int {
    match part {
        Fragmentation::Single => 0,
        Fragmentation::Last => 1,
        Fragmentation::First => 2,
        Fragmentation::Next => 3,
    }
}

/// The number of a type of compression.
pub open spec fn compression_number(compression: CompressionType) -> int {
    match compression {
        CompressionType::K8 => 0,
        CompressionType::K64 => 1,
        CompressionType::Rdp6 => 2,
        CompressionType::Rdp61 => 3,
    }
}

/// An update on the fast path in front of `tail`: its kind in four bits, its part in two, whether a byte
/// about compression follows in the highest; that byte, with the flags above the type; the length of the
/// data in two bytes; the data.
pub open spec fn pdu_bytes(pdu: UpdatePduView, tail: Seq<u8>) -> Seq<u8> {
    let first = update_number(pdu.update_code) + 16 * part_number(pdu.fragmentation);
    let body = word(pdu.data.len() as int) + (pdu.data + tail);
    match (pdu.compression_flags, pdu.compression_type) {
        (Some(flags), Some(t)) => seq![(first + 128) as u8, (flags.0 + compression_number(t)) as u8] + body,
        _ => seq![first as u8] + body,
    }
}

proof fn lemma_first_byte(code: UpdateCode, part: Fragmentation, compressed: bool)
    ensures
        ({
            let first = (update_number(code) + 16 * part_number(part) + if compressed {
                128int
            } else {
                0
            }) as u8;
            &&& update_code_of(first % 16) == Some(code)
            &&& fragmentation_of(first / 16 % 4) == Some(part)
            &&& first >= 128 <==> compressed
        }),
{
    let first = update_number(code) + 16 * part_number(part) + if compressed {
        128int
    } else {
        0
    };
    assert(0 <= update_number(code) <= 12 && 0 <= part_number(part) <= 3);
    assert(first % 16 == update_number(code));
    assert(first / 16 % 4 == part_number(part));
}

proof fn lemma_compression_byte(flags: u8, t: CompressionType)
    requires
        flags % 32 == 0,
    ensures
        ({
            let second = (flags + compression_number(t)) as u8;
            &&& compression_type_of(second % 16) == Some(t)
            &&& second / 32 * 32 == flags
        }),
{
    assert(0 <= compression_number(t) <= 3);
    assert((flags + compression_number(t)) % 16 == compression_number(t));
}

proof fn lemma_pdu_data(pdu: UpdatePduView, tail: Seq<u8>)
    requires
        pdu.data.len() <= 0xFFFF,
    ensures
        pdu_data_at(
            word(pdu.data.len() as int) + (pdu.data + tail),
            pdu.fragmentation,
            pdu.update_code,
            pdu.compression_flags,
            pdu.compression_type,
        ) == (Decoded { result: Ok(pdu), rest: tail }),
{
    let body = word(pdu.data.len() as int) + (pdu.data + tail);
    assert(stands_at(body, 0, word(pdu.data.len() as int)));
    law_u16_is_read_back(pdu.data.len() as u16, body, 0);
    assert(body.skip(2) =~= pdu.data + tail);
    assert((pdu.data + tail).take(pdu.data.len() as int) =~= pdu.data);
    assert((pdu.data + tail).skip(pdu.data.len() as int) =~= tail);
}

/// An update on the fast path is read back, compressed or not.
#[verifier::spinoff_prover]
#[verifier::rlimit(60)]
pub proof fn law_pdu_is_read_back(pdu: UpdatePduView, tail: Seq<u8>)
    requires
        pdu.compression_flags is Some == pdu.compression_type is Some,
        pdu.compression_flags matches Some(flags) ==> flags.0 % 32 == 0,
        pdu.data.len() <= 0xFFFF,
    ensures
        pdu_at(pdu_bytes(pdu, tail)) == (Decoded { result: Ok(pdu), rest: tail }),
{
    let bytes = pdu_bytes(pdu, tail);
    let body = word(pdu.data.len() as int) + (pdu.data + tail);
    lemma_pdu_data(pdu, tail);
    lemma_first_byte(pdu.update_code, pdu.fragmentation, pdu.compression_flags is Some);
    match (pdu.compression_flags, pdu.compression_type) {
        (Some(flags), Some(t)) => {
            lemma_compression_byte(flags.0, t);
            assert(bytes.skip(1).skip(1) =~= body);
            assert(CompressionFlags(flags.0) == flags);
        },
        _ => {
            assert(bytes.skip(1) =~= body);
        },
    }
}

/// What is written of an update on the fast path is what is read back.
#[verifier::spinoff_prover]
#[verifier::rlimit(60)]
pub proof fn law_pdu_is_written(pdu: UpdatePduView)
    requires
        pdu.compression_flags is Some == pdu.compression_type is Some,
        pdu.data.len() <= 0xFFFF,
    ensures
        pdu.encoded() == pdu_bytes(pdu, Seq::empty()),
{
    assert(pdu.data + Seq::<u8>::empty() =~= pdu.data);
    assert(pdu.encoded() =~= pdu_bytes(pdu, Seq::empty()));
}

/// Other kinds of updates and of compression are refused.
pub proof fn law_unknown_numbers_are_refused(value: u8, tail: Seq<u8>)
    ensures
        value % 16 == 7 || value % 16 > 12 ==> pdu_at(seq![value] + tail).result is Err,
        value >= 128 && tail.len() > 0 && tail[0] % 16 > 3 ==> pdu_at(seq![value] + tail).result is Err,
{
}

/// The bytes of a header on the fast path: the flags in the two highest bits, and the length of the whole
/// packet, which takes one byte where it is at most 127 and two with the highest bit set otherwise.
pub open spec fn packet_header(flags: u8, length: int, long_form: bool) -> Seq<u8> {
    if long_form {
        seq![(flags * 64) as u8, (128 + length / 256) as u8, (length % 256) as u8]
    } else {
        seq![(flags * 64) as u8, length as u8]
    }
}

/// A packet header is read back: the data are as long as the packet without the header. The form with two
/// bytes is told apart where one would do.
#[verifier::spinoff_prover]
#[verifier::rlimit(60)]
pub proof fn law_packet_header_is_read_back(flags: u8, length: int, long_form: bool, tail: Seq<u8>)
    requires
        flags < 4,
        !long_form ==> 2 <= length <= 127,
        long_form ==> 3 <= length <= 0x7FFF,
    ensures
        crate::fast_path_pdu::header_at(packet_header(flags, length, long_form) + tail) == (Decoded {
            result: Ok(
                FastPathHeader {
                    flags: EncryptionFlags(flags),
                    data_length: (length - if long_form {
                        3int
                    } else {
                        2
                    }) as usize,
                    forced_long_length: long_form && length <= 127,
                },
            ),
            rest: tail,
        }),
{
    let head = packet_header(flags, length, long_form);
    let bytes = head + tail;
    assert(bytes.skip(head.len() as int) =~= tail);
    assert(bytes[0] == head[0] && bytes[1] == head[1]);
    assert(flags * 64 / 64 == flags);
}

/// A packet that claims to be shorter than its header is refused.
pub proof fn law_short_length_is_refused(flags: u8, length: int, long_form: bool, tail: Seq<u8>)
    requires
        flags < 4,
        0 <= length,
        length < if long_form {
            3int
        } else {
            2
        },
    ensures
        crate::fast_path_pdu::header_at(packet_header(flags, length, long_form) + tail).result is Err,
{
    let bytes = packet_header(flags, length, long_form) + tail;
    assert(bytes[1] == packet_header(flags, length, long_form)[1]);
}

/// What is written of a packet header is what is read back: in two bytes where the packet is at most 127
/// bytes long and nothing else was asked for.
#[verifier::spinoff_prover]
#[verifier::rlimit(60)]
pub proof fn law_packet_header_is_written(h: FastPathHeader)
    requires
        h.flags.0 < 4,
        h.data_length + 3 <= 0x7FFF,
    ensures
        h.encoded() == (if h.data_length + 2 <= 127 && !h.forced_long_length {
            packet_header(h.flags.0, h.data_length + 2, false)
        } else {
            packet_header(h.flags.0, h.data_length + 3, true)
        }),
{
    let short = h.data_length + 2 <= 127 && !h.forced_long_length;
    let head = if short {
        packet_header(h.flags.0, h.data_length + 2, false)
    } else {
        packet_header(h.flags.0, h.data_length + 3, true)
    };
    assert(h.encoded() =~= head);
}

/// The parts of the fast path on their own: pointers, surface commands and orders behind their number are
/// handed on as they came, and bitmaps are read behind a number that is odd and their own.
pub proof fn law_fast_updates(data: Seq<u8>, count: u16)
    ensures
        update_of(data, UpdateCode::SurfaceCommands) == Ok::<FastPathUpdateView, DecodeError>(
            FastPathUpdateView::SurfaceCommands(data),
        ),
        update_of(data, UpdateCode::Synchronize) == Ok::<FastPathUpdateView, DecodeError>(
            FastPathUpdateView::Synchronize,
        ),
        update_of(data, UpdateCode::HiddenPointer) == Ok::<FastPathUpdateView, DecodeError>(
            FastPathUpdateView::Pointer(PointerCode::Hidden, data),
        ),
        update_of(data, UpdateCode::DefaultPointer) == Ok::<FastPathUpdateView, DecodeError>(
            FastPathUpdateView::Pointer(PointerCode::Default, data),
        ),
        update_of(data, UpdateCode::PositionPointer) == Ok::<FastPathUpdateView, DecodeError>(
            FastPathUpdateView::Pointer(PointerCode::Position, data),
        ),
        update_of(data, UpdateCode::ColorPointer) == Ok::<FastPathUpdateView, DecodeError>(
            FastPathUpdateView::Pointer(PointerCode::Color, data),
        ),
        update_of(data, UpdateCode::CachedPointer) == Ok::<FastPathUpdateView, DecodeError>(
            FastPathUpdateView::Pointer(PointerCode::Cached, data),
        ),
        update_of(data, UpdateCode::NewPointer) == Ok::<FastPathUpdateView, DecodeError>(
            FastPathUpdateView::Pointer(PointerCode::New, data),
        ),
        update_of(data, UpdateCode::LargePointer) == Ok::<FastPathUpdateView, DecodeError>(
            FastPathUpdateView::Pointer(PointerCode::Large, data),
        ),
        update_of(word(count as int) + data, UpdateCode::Orders) == Ok::<FastPathUpdateView, DecodeError>(
            FastPathUpdateView::Orders { number_orders: count, order_data: data },
        ),
{
    let bytes = word(count as int) + data;
    assert(stands_at(bytes, 0, word(count as int)));
    law_u16_is_read_back(count, bytes, 0);
    assert(bytes.skip(2) =~= data);
}

/// Bitmaps on the fast path are read back; a number before them that is even is refused.
pub proof fn law_fast_bitmaps_are_read_back(kind: u16, list: Seq<BitmapView>, tail: Seq<u8>)
    requires
        list.len() <= 0xFFFF,
        forall|k: int| 0 <= k < list.len() ==> bitmap_writes(#[trigger] list[k]),
    ensures
        ({
            let bytes = word(kind as int) + word(list.len() as int) + bitmaps_bytes(list, 0, tail);
            &&& kind % 2 == 1 ==> update_of(bytes, UpdateCode::Bitmap) == Ok::<FastPathUpdateView, DecodeError>(
                FastPathUpdateView::Bitmap(list),
            )
            &&& kind % 2 == 0 ==> update_of(bytes, UpdateCode::Bitmap) is Err
        }),
{
    let coded = bitmaps_bytes(list, 0, tail);
    let bytes = word(kind as int) + word(list.len() as int) + coded;
    assert(stands_at(bytes, 0, word(kind as int)));
    law_u16_is_read_back(kind, bytes, 0);
    assert(stands_at(bytes, 2, word(list.len() as int)));
    law_u16_is_read_back(list.len() as u16, bytes, 2);
    assert(bytes.skip(4) =~= coded);
    law_bitmaps_are_read_back(list, tail);
}

/// A palette on the fast path is read back.
pub proof fn law_fast_palette_is_read_back(pad: u16, entries: Seq<PaletteEntry>, tail: Seq<u8>)
    requires
        entries.len() <= 0xFFFF_FFFF,
    ensures
        update_of(
            word(2) + word(pad as int) + long(entries.len() as int) + colors_bytes(entries, 0, tail),
            UpdateCode::Palette,
        ) == Ok::<FastPathUpdateView, DecodeError>(FastPathUpdateView::Palette(entries)),
{
    law_palette_is_read_back(pad, entries, tail);
}

/// Orders are read one after the other: each from where the last one ended, with what the last one left.
/// One that cannot be read spoils them all.
pub proof fn law_orders_are_read_in_turn(bytes: Seq<u8>, state: OrderStateView, n: nat)
    ensures
        orders_read(bytes, state, 0) == (Ok::<Seq<OrderView>, DecodeError>(Seq::empty()), state, bytes),
        ({
            let (list, before, rest) = orders_read(bytes, state, n);
            let (more, after, behind) = orders_read(bytes, state, n + 1);
            &&& list is Err ==> more is Err
            &&& list is Ok ==> after == order_at(rest, before).state && behind == order_at(rest, before).rest
            &&& list is Ok ==> (more is Ok <==> order_at(rest, before).result is Ok)
            &&& more is Ok ==> (more->Ok_0) == (list->Ok_0).push(order_at(rest, before).result->Ok_0)
        }),
{
}

} // verus!
