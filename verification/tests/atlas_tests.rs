use verdant::errors::Error;
use verdant::image::Bounds;
use verdant::text::{
    coverage_to_rgba, has_glyph, pick_glyph_font, FontPosition, GlyphAtlas, GlyphSlot, HorizontalAlign,
    TextAlignment, VerticalAlign, ATLAS_SIZE, MAX_ATLAS_SIZE, PADDING,
};

fn coverage(w: u32, h: u32, seed: u8) -> Vec<u8> {
    (0..(w * h) as usize).map(|i| seed.wrapping_add(i as u8)).collect()
}

#[test]
fn coverage_becomes_white_rgba() {
    assert_eq!(coverage_to_rgba(&[0, 128, 255]), vec![255, 255, 255, 0, 255, 255, 255, 128, 255, 255, 255, 255]);
    assert_eq!(coverage_to_rgba(&[]), Vec::<u8>::new());
}

#[test]
fn new_atlas_is_empty() {
    let atlas = GlyphAtlas::new();
    assert_eq!(atlas.atlas().width(), ATLAS_SIZE);
    assert_eq!(atlas.atlas().height(), ATLAS_SIZE);
    assert_eq!(atlas.position(), FontPosition { current_x: 0, current_y: 0, row_height: 0 });
}

#[test]
fn glyphs_pack_left_to_right() {
    let mut atlas = GlyphAtlas::new();
    let a = coverage(3, 5, 1);
    let b = coverage(4, 2, 9);
    assert_eq!(atlas.place_glyph(3, 5, &a), Ok(GlyphSlot::Placed { x: 0, y: 0 }));
    assert_eq!(atlas.place_glyph(4, 2, &b), Ok(GlyphSlot::Placed { x: 3 + PADDING, y: 0 }));
    assert_eq!(atlas.position(), FontPosition { current_x: 3 + PADDING + 4 + PADDING, current_y: 0, row_height: 5 });
    assert_eq!(atlas.atlas().get_rect(Bounds::new(0, 0, 3, 5)).unwrap(), coverage_to_rgba(&a));
    assert_eq!(atlas.atlas().get_rect(Bounds::new(5, 0, 4, 2)).unwrap(), coverage_to_rgba(&b));
}

#[test]
fn empty_glyph_takes_no_space() {
    let mut atlas = GlyphAtlas::new();
    assert_eq!(atlas.place_glyph(0, 7, &[]), Ok(GlyphSlot::Empty));
    assert_eq!(atlas.position(), FontPosition { current_x: 0, current_y: 0, row_height: 0 });
}

#[test]
fn full_row_wraps_to_next_row() {
    let mut atlas = GlyphAtlas::new();
    let wide = coverage(1000, 10, 3);
    assert_eq!(atlas.place_glyph(1000, 10, &wide), Ok(GlyphSlot::Placed { x: 0, y: 0 }));
    let next = coverage(30, 4, 5);
    assert_eq!(atlas.place_glyph(30, 4, &next), Ok(GlyphSlot::Placed { x: 0, y: 10 + PADDING }));
    assert_eq!(atlas.atlas().get_rect(Bounds::new(0, 0, 1000, 10)).unwrap(), coverage_to_rgba(&wide));
    assert_eq!(atlas.atlas().get_rect(Bounds::new(0, 12, 30, 4)).unwrap(), coverage_to_rgba(&next));
}

#[test]
fn tall_glyph_doubles_atlas_and_keeps_texels() {
    let mut atlas = GlyphAtlas::new();
    let first = coverage(2, 2, 11);
    atlas.place_glyph(2, 2, &first).unwrap();
    let tall = coverage(5, 1500, 7);
    assert_eq!(atlas.place_glyph(5, 1500, &tall), Ok(GlyphSlot::Placed { x: 2 + PADDING, y: 0 }));
    assert_eq!(atlas.atlas().height(), 2 * ATLAS_SIZE);
    assert_eq!(atlas.atlas().get_rect(Bounds::new(0, 0, 2, 2)).unwrap(), coverage_to_rgba(&first));
    assert_eq!(atlas.atlas().get_rect(Bounds::new(4, 0, 5, 1500)).unwrap(), coverage_to_rgba(&tall));
}

#[test]
fn oversized_glyph_resets_atlas() {
    let mut atlas = GlyphAtlas::new();
    atlas.place_glyph(2, 2, &coverage(2, 2, 1)).unwrap();
    let huge = coverage(1, MAX_ATLAS_SIZE, 0);
    assert_eq!(atlas.place_glyph(1, MAX_ATLAS_SIZE, &huge), Ok(GlyphSlot::AtlasReset));
    assert_eq!(atlas.atlas().height(), ATLAS_SIZE);
    assert_eq!(atlas.position(), FontPosition { current_x: 0, current_y: 0, row_height: 0 });
    assert_eq!(atlas.atlas().get_rect(Bounds::new(0, 0, 2, 2)).unwrap(), vec![0u8; 16]);
}

#[test]
fn too_wide_glyph_is_refused() {
    let mut atlas = GlyphAtlas::new();
    let r = atlas.place_glyph(ATLAS_SIZE + 1, 1, &coverage(ATLAS_SIZE + 1, 1, 0));
    assert_eq!(
        r,
        Err(Error::BlitOutOfBounds {
            x: 0,
            y: PADDING,
            width: ATLAS_SIZE + 1,
            height: 1,
            img_width: ATLAS_SIZE,
            img_height: ATLAS_SIZE,
        })
    );
}

#[test]
fn short_coverage_is_refused() {
    let mut atlas = GlyphAtlas::new();
    let r = atlas.place_glyph(2, 2, &[1, 2, 3]);
    assert_eq!(r, Err(Error::BlitBufferTooSmall { expected: 16, actual: 12 }));
    assert_eq!(atlas.position(), FontPosition { current_x: 0, current_y: 0, row_height: 0 });
}

#[test]
fn glyph_font_selection() {
    assert_eq!(pick_glyph_font(true, &[true, true]), None);
    assert_eq!(pick_glyph_font(false, &[false, true, true]), Some(1));
    assert_eq!(pick_glyph_font(false, &[false, false]), None);
    assert!(has_glyph(false, &[false, true]));
    assert!(!has_glyph(false, &[false, false]));
    assert!(has_glyph(true, &[]));
}

#[test]
fn alignment_defaults() {
    assert_eq!(HorizontalAlign::default(), HorizontalAlign::Left);
    assert_eq!(VerticalAlign::default(), VerticalAlign::Top);
    assert_eq!(
        TextAlignment::default(),
        TextAlignment { horizontal: HorizontalAlign::Left, vertical: VerticalAlign::Top, line: HorizontalAlign::Left }
    );
}

#[test]
fn atlas_upload_covers_new_glyphs_once() {
    let mut atlas = GlyphAtlas::new();
    let first = atlas.take_upload().unwrap();
    assert_eq!(first.zone, Bounds::new(0, 0, ATLAS_SIZE, ATLAS_SIZE));
    assert_eq!(first.offset, 0);
    assert_eq!(first.bytes_per_row, ATLAS_SIZE * 4);
    assert_eq!(first.rows_per_image, ATLAS_SIZE);
    assert_eq!(atlas.take_upload(), None);

    let a = coverage(3, 5, 1);
    let b = coverage(4, 2, 9);
    atlas.place_glyph(3, 5, &a).unwrap();
    atlas.place_glyph(4, 2, &b).unwrap();
    let upload = atlas.take_upload().unwrap();
    assert_eq!(upload.zone, Bounds::new(0, 0, 3 + PADDING + 4, 5));
    assert_eq!(upload.offset, 0);
    assert_eq!(atlas.take_upload(), None);
    assert_eq!(atlas.atlas().get_rect(Bounds::new(0, 0, 3, 5)).unwrap(), coverage_to_rgba(&a));
}
