use verdant::errors::Error;
use verdant::font::{glyph_key, GlyphCache, GlyphPlacement};
use verdant::image::Bounds;
use verdant::text::{coverage_to_rgba, ATLAS_SIZE, MAX_ATLAS_SIZE, PADDING};

fn coverage(w: u32, h: u32, seed: u8) -> Vec<u8> {
    (0..(w * h) as usize).map(|i| seed.wrapping_add(i as u8)).collect()
}

#[test]
fn glyph_keys_pack_char_and_size() {
    assert_eq!(glyph_key('A', 7), (65u64 << 32) | 7);
    assert_eq!(glyph_key('\u{10FFFF}', u32::MAX), (0x10FFFFu64 << 32) | u64::from(u32::MAX));
    assert_ne!(glyph_key('a', 16.0f32.to_bits()), glyph_key('a', 17.0f32.to_bits()));
    assert_ne!(glyph_key('a', 1), glyph_key('b', 1));
}

#[test]
fn loaded_glyph_is_cached_with_its_metrics() {
    let mut cache: GlyphCache<&'static str> = GlyphCache::new();
    let key = glyph_key('x', 12);
    assert!(cache.get(key).is_none());
    let bitmap = coverage(3, 4, 5);
    let placed = cache.load(key, 3, 4, &bitmap, "x metrics").unwrap().unwrap();
    assert_eq!(placed, GlyphPlacement { x: 0, y: 0, width: 3, height: 4 });
    assert_eq!(cache.get(key), Some(&(placed, "x metrics")));
    assert_eq!(cache.atlas().atlas().get_rect(Bounds::new(0, 0, 3, 4)).unwrap(), coverage_to_rgba(&bitmap));

    let second = cache.load(glyph_key('y', 12), 2, 2, &coverage(2, 2, 1), "y metrics").unwrap().unwrap();
    assert_eq!(second, GlyphPlacement { x: 3 + PADDING, y: 0, width: 2, height: 2 });
    assert_eq!(cache.get(key), Some(&(placed, "x metrics")));
}

#[test]
fn glyph_without_pixels_takes_no_space() {
    let mut cache: GlyphCache<u32> = GlyphCache::new();
    let placed = cache.load(glyph_key(' ', 12), 0, 9, &[], 4).unwrap().unwrap();
    assert_eq!(placed, GlyphPlacement { x: 0, y: 0, width: 0, height: 0 });
    assert_eq!(cache.get(glyph_key(' ', 12)), Some(&(placed, 4)));
    assert_eq!(cache.atlas().position().current_x, 0);
}

#[test]
fn full_atlas_clears_the_cache() {
    let mut cache: GlyphCache<()> = GlyphCache::new();
    cache.load(glyph_key('a', 1), 2, 2, &coverage(2, 2, 1), ()).unwrap();
    let huge = coverage(1, MAX_ATLAS_SIZE, 0);
    assert_eq!(cache.load(glyph_key('b', 1), 1, MAX_ATLAS_SIZE, &huge, ()), Ok(None));
    assert!(cache.get(glyph_key('a', 1)).is_none());
    assert!(cache.get(glyph_key('b', 1)).is_none());
    assert_eq!(cache.atlas().atlas().height(), ATLAS_SIZE);
}

#[test]
fn refused_glyph_leaves_the_cache_alone() {
    let mut cache: GlyphCache<u8> = GlyphCache::new();
    cache.load(glyph_key('a', 1), 2, 2, &coverage(2, 2, 1), 1).unwrap();
    let r = cache.load(glyph_key('b', 1), 3, 3, &coverage(2, 2, 0), 2);
    assert_eq!(r, Err(Error::BlitBufferTooSmall { expected: 36, actual: 16 }));
    assert!(cache.get(glyph_key('b', 1)).is_none());
    assert_eq!(cache.get(glyph_key('a', 1)), Some(&(GlyphPlacement { x: 0, y: 0, width: 2, height: 2 }, 1)));
}

#[test]
fn cache_upload_clears_the_changed_region() {
    let mut cache: GlyphCache<()> = GlyphCache::new();
    let first = cache.take_upload().unwrap();
    assert_eq!(first.zone, Bounds::new(0, 0, ATLAS_SIZE, ATLAS_SIZE));
    assert_eq!(cache.take_upload(), None);
    cache.load(glyph_key('a', 1), 2, 3, &coverage(2, 3, 1), ()).unwrap();
    assert_eq!(cache.take_upload().unwrap().zone, Bounds::new(0, 0, 2, 3));
    assert!(cache.get(glyph_key('a', 1)).is_some());
}
