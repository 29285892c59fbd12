use rdp_session::bitmap_cache::BitmapCache;
use rdp_session::bitmap_caching::{convert_to_rgba, inflate_request, is_whole_order, process_cache_bitmap_v2};
use rdp_session::drawing_orders::{
    DrawingOrder, PrimaryOrder, PrimaryOrderData, PrimaryOrderType, SecondaryOrder, SecondaryOrderType,
};
use rdp_session::error::SessionError;
use rdp_session::geometry::InclusiveRectangle;
use rdp_session::image::DecodedImage;
use rdp_session::order_processing::process_drawing_order;
use rdp_session::order_rendering::{combine_rectangles, make_inclusive_rect, rgb_from_u32, try_process_memblt};
use rdp_session::palette::ColorPalette;
use rdp_session::pixel_format::PixelFormat;

/// Two pixels, blue and red, with three bytes each, for an entry of the first cache.
fn order(flags: u8, entry: u8) -> Vec<u8> {
    vec![flags, entry, 0, 2, 0, 1, 0, 24, 0, 0, 4, 6, 0, 255, 0, 0, 0, 0, 255]
}

#[test]
fn stored_bitmaps_are_found_again() {
    let mut cache = BitmapCache::new();
    assert_eq!(cache.store(2, 2047, 1, 1, bytes::Bytes::from(vec![1, 2, 3, 4])), Ok(()));
    let bitmap = cache.get(2, 2047).unwrap();
    assert_eq!((bitmap.width, bitmap.height), (1, 1));
    assert_eq!(bitmap.data[..], [1, 2, 3, 4]);
    assert_eq!(cache.get(2, 2046).unwrap_err(), SessionError::NotCached { cache_id: 2, cache_index: 2046 });
    assert_eq!(cache.get(1, 599).unwrap_err(), SessionError::NotCached { cache_id: 1, cache_index: 599 });
    assert_eq!(cache.get(0, 199).unwrap_err(), SessionError::NotCached { cache_id: 0, cache_index: 199 });
}

#[test]
fn caches_have_limits() {
    let mut cache = BitmapCache::new();
    let data = bytes::Bytes::from(vec![0u8; 4]);
    assert_eq!(cache.store(3, 0, 1, 1, data.clone()), Err(SessionError::InvalidCacheId(3)));
    assert_eq!(cache.store(0, 200, 1, 1, data.clone()), Err(SessionError::InvalidCacheIndex(200)));
    assert_eq!(cache.store(1, 600, 1, 1, data.clone()), Err(SessionError::InvalidCacheIndex(600)));
    assert_eq!(cache.store(2, 2048, 1, 1, data), Err(SessionError::InvalidCacheIndex(2048)));
    assert_eq!(cache.get(3, 0).unwrap_err(), SessionError::InvalidCacheId(3));
    assert_eq!(cache.get(0, 200).unwrap_err(), SessionError::InvalidCacheIndex(200));
}

#[test]
fn orders_cache_bitmaps() {
    let mut cache = BitmapCache::new();
    let palette = ColorPalette::new();
    let data = order(0, 5);
    assert!(is_whole_order(&data, None));
    assert!(inflate_request(&data).is_none());
    assert_eq!(process_cache_bitmap_v2(&mut cache, &palette, &data, None), Ok(()));
    let bitmap = cache.get(0, 5).unwrap();
    assert_eq!((bitmap.width, bitmap.height), (2, 1));
    assert_eq!(bitmap.data[..], [0, 0, 255, 255, 255, 0, 0, 255]);
}

#[test]
fn keys_of_a_bitmap_are_skipped() {
    let mut cache = BitmapCache::new();
    let mut data = order(4, 6);
    data.splice(3..3, [9u8; 8]);
    assert_eq!(process_cache_bitmap_v2(&mut cache, &ColorPalette::new(), &data, None), Ok(()));
    assert_eq!(cache.get(0, 6).unwrap().data[..], [0, 0, 255, 255, 255, 0, 0, 255]);
}

#[test]
fn compressed_bitmaps_are_decompressed_elsewhere() {
    let mut cache = BitmapCache::new();
    let mut data = order(0, 7);
    data[10] = 0;
    let request = inflate_request(&data).unwrap();
    assert_eq!((request.width, request.height, request.bpp), (2, 1, 24));
    assert_eq!(request.data, [255, 0, 0, 0, 0, 255]);
    let inflated = [0u8, 255, 0, 0, 255, 0];
    assert_eq!(process_cache_bitmap_v2(&mut cache, &ColorPalette::new(), &data, Some(&inflated)), Ok(()));
    assert_eq!(cache.get(0, 7).unwrap().data[..], [0, 255, 0, 255, 0, 255, 0, 255]);
    assert_eq!(process_cache_bitmap_v2(&mut cache, &ColorPalette::new(), &data, None), Err(SessionError::Rle));
}

#[test]
fn orders_that_end_too_early_are_errors() {
    let mut cache = BitmapCache::new();
    let palette = ColorPalette::new();
    assert_eq!(
        process_cache_bitmap_v2(&mut cache, &palette, &[0, 0], None),
        Err(SessionError::CacheOrderTooShort(2))
    );
    assert_eq!(
        process_cache_bitmap_v2(&mut cache, &palette, &[0, 0, 0, 2, 0], None),
        Err(SessionError::CachedBitmapTooShort)
    );
    let data = order(0, 1);
    assert!(!is_whole_order(&data[..18], None));
    let mut bad = order(3, 1);
    assert_eq!(process_cache_bitmap_v2(&mut cache, &palette, &bad, None), Err(SessionError::InvalidCacheId(3)));
    bad = order(0, 200);
    assert_eq!(process_cache_bitmap_v2(&mut cache, &palette, &bad, None), Err(SessionError::InvalidCacheIndex(200)));
}

#[test]
fn every_depth_becomes_rgba() {
    let palette = ColorPalette::new();
    assert_eq!(convert_to_rgba(&palette, &[7], 1, 1, 8).unwrap(), [7, 7, 7, 255]);
    assert_eq!(convert_to_rgba(&palette, &[0x00, 0x7C], 1, 1, 15).unwrap(), [255, 0, 0, 255]);
    assert_eq!(convert_to_rgba(&palette, &[0xE0, 0x07], 1, 1, 16).unwrap(), [0, 255, 0, 255]);
    assert_eq!(convert_to_rgba(&palette, &[1, 2, 3], 1, 1, 24).unwrap(), [3, 2, 1, 255]);
    assert_eq!(convert_to_rgba(&palette, &[1, 2, 3, 4], 1, 1, 32).unwrap(), [3, 2, 1, 4]);
    assert_eq!(convert_to_rgba(&palette, &[], 0, 0, 4).unwrap_err(), SessionError::UnsupportedBpp(4));
}

#[test]
fn cached_bitmaps_are_shown_as_rectangles() {
    let mut cache = BitmapCache::new();
    let mut image = DecodedImage::new(PixelFormat::RgbA32, 10, 10);
    let palette = ColorPalette::new();
    let cached = order(0, 5);
    let secondary = SecondaryOrder { order_type: SecondaryOrderType::CacheBitmapV2, data: &cached };
    let drawn = process_drawing_order(&mut cache, &palette, &mut image, &DrawingOrder::Secondary(secondary), None);
    assert_eq!(drawn, Ok(None));
    assert!(cache.get(0, 5).is_ok());

    let mut blt = vec![0, 0, 2, 0, 3, 0, 4, 0, 5, 0, 0xCC, 0, 0, 0, 0, 5, 0, 0];
    let area = InclusiveRectangle { left: 2, top: 3, right: 5, bottom: 7 };
    assert_eq!(try_process_memblt(&cache, &mut image, &blt), Ok(Some(area)));
    assert_eq!(image.data()[(3 * 10 + 2) * 4..][..4], [128, 128, 255, 255]);
    blt[15] = 6;
    assert_eq!(try_process_memblt(&cache, &mut image, &blt), Ok(None));
    blt[15] = 5;
    blt[10] = 0x00;
    assert_eq!(try_process_memblt(&cache, &mut image, &blt), Ok(None));
    assert_eq!(try_process_memblt(&cache, &mut image, &blt[..17]), Ok(None));
}

#[test]
fn other_primary_orders_draw_nothing() {
    let mut cache = BitmapCache::new();
    let mut image = DecodedImage::new(PixelFormat::RgbA32, 4, 4);
    let order = DrawingOrder::Primary(PrimaryOrder {
        order_type: PrimaryOrderType::SaveBitmap,
        bounds: None,
        data: PrimaryOrderData::Other(Vec::new()),
    });
    let drawn = process_drawing_order(&mut cache, &ColorPalette::new(), &mut image, &order, None);
    assert_eq!(drawn, Ok(None));
}

#[test]
fn rectangles_and_colors_of_orders() {
    assert_eq!(
        make_inclusive_rect(2, 3, 4, 5),
        InclusiveRectangle { left: 2, top: 3, right: 5, bottom: 7 }
    );
    let a = InclusiveRectangle { left: 5, top: 1, right: 6, bottom: 2 };
    let b = InclusiveRectangle { left: 1, top: 4, right: 2, bottom: 9 };
    assert_eq!(combine_rectangles(&[]), None);
    assert_eq!(
        combine_rectangles(&[a, b]),
        Some(InclusiveRectangle { left: 1, top: 1, right: 6, bottom: 9 })
    );
    assert_eq!(rgb_from_u32(0x112233), [0x11, 0x22, 0x33, 255]);
}
