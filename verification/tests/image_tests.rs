use verdant::errors::Error;
use verdant::image::{Bounds, Image, TextureUpload};

fn pattern(n: usize) -> Vec<u8> {
    (0..n).map(|i| (i % 251) as u8).collect()
}

#[test]
fn bounds_union_covers_both() {
    let a = Bounds::new(2, 3, 4, 5);
    let b = Bounds::new(5, 1, 10, 2);
    let u = a.union(b);
    assert_eq!(u, Bounds::new(2, 1, 13, 7));
    assert_eq!(b.union(a), u);
    assert_eq!(a.union(a), a);
}

#[test]
fn new_rejects_short_buffer() {
    let r = Image::new(vec![0; 15], 2, 2);
    assert_eq!(r.err(), Some(Error::ImageBufferTooSmall { expected: 16, actual: 15 }));
}

#[test]
fn new_accepts_exact_and_longer_buffers() {
    let img = Image::new(pattern(16), 2, 2).unwrap();
    assert_eq!(img.bytes(), &pattern(16)[..]);
    assert_eq!(img.dirty_zone(), Some(Bounds::new(0, 0, 2, 2)));
    let img = Image::new(pattern(20), 2, 2).unwrap();
    assert_eq!(img.bytes().len(), 20);
}

#[test]
fn new_empty_is_transparent() {
    let img = Image::new_empty(3, 2);
    assert_eq!(img.bytes(), &[0u8; 24][..]);
    assert_eq!(img.width(), 3);
    assert_eq!(img.height(), 2);
}

#[test]
fn blit_then_read_back() {
    let mut img = Image::new_empty(4, 3);
    let src = pattern(2 * 2 * 4);
    img.blit(1, 1, 2, 2, &src).unwrap();
    assert_eq!(img.get_rect(Bounds::new(1, 1, 2, 2)).unwrap(), src);
    // row 1 bytes 4..12 hold the first row of the source
    let bytes = img.bytes();
    assert_eq!(&bytes[16 + 4..16 + 12], &src[0..8]);
    assert_eq!(&bytes[32 + 4..32 + 12], &src[8..16]);
    // untouched pixels stay transparent
    assert_eq!(&bytes[0..16], &[0u8; 16][..]);
    assert_eq!(&bytes[16..20], &[0u8; 4][..]);
}

#[test]
fn blit_full_width_rows() {
    let mut img = Image::new_empty(2, 3);
    let src = pattern(2 * 2 * 4);
    img.blit(0, 1, 2, 2, &src).unwrap();
    assert_eq!(&img.bytes()[8..24], &src[..]);
    assert_eq!(&img.bytes()[0..8], &[0u8; 8][..]);
}

#[test]
fn blit_out_of_bounds_is_refused() {
    let mut img = Image::new_empty(4, 4);
    let r = img.blit(3, 0, 2, 1, &pattern(8));
    assert_eq!(
        r,
        Err(Error::BlitOutOfBounds { x: 3, y: 0, width: 2, height: 1, img_width: 4, img_height: 4 })
    );
    assert_eq!(img.bytes(), &[0u8; 64][..]);
}

#[test]
fn blit_short_source_is_refused() {
    let mut img = Image::new_empty(4, 4);
    let r = img.blit(0, 0, 2, 2, &pattern(15));
    assert_eq!(r, Err(Error::BlitBufferTooSmall { expected: 16, actual: 15 }));
}

#[test]
fn blit_empty_region_does_nothing() {
    let mut img = Image::new_empty(4, 4);
    img.take_upload();
    assert_eq!(img.blit(100, 100, 0, 5, &[]), Ok(()));
    assert_eq!(img.dirty_zone(), None);
}

#[test]
fn blit_grows_dirty_zone() {
    let mut img = Image::new_empty(8, 8);
    img.take_upload();
    img.blit(1, 1, 1, 1, &pattern(4)).unwrap();
    assert_eq!(img.dirty_zone(), Some(Bounds::new(1, 1, 1, 1)));
    img.blit(5, 3, 2, 2, &pattern(16)).unwrap();
    assert_eq!(img.dirty_zone(), Some(Bounds::new(1, 1, 6, 4)));
}

#[test]
fn read_rect_checks() {
    let img = Image::new(pattern(4 * 4 * 4), 4, 4).unwrap();
    let mut dst = vec![7u8; 10];
    assert_eq!(
        img.read_rect(Bounds::new(3, 3, 2, 1), &mut dst),
        Err(Error::ReadOutOfBounds { x: 3, y: 3, width: 2, height: 1, img_width: 4, img_height: 4 })
    );
    assert_eq!(
        img.read_rect(Bounds::new(0, 0, 2, 2), &mut dst),
        Err(Error::ReadBufferTooSmall { expected: 16, actual: 10 })
    );
    assert_eq!(dst, vec![7u8; 10]);
    let mut dst = vec![7u8; 12];
    img.read_rect(Bounds::new(1, 2, 1, 2), &mut dst).unwrap();
    let p = pattern(64);
    assert_eq!(&dst[0..4], &p[(2 * 4 + 1) * 4..(2 * 4 + 2) * 4]);
    assert_eq!(&dst[4..8], &p[(3 * 4 + 1) * 4..(3 * 4 + 2) * 4]);
    assert_eq!(&dst[8..12], &[7u8; 4][..]);
}

#[test]
fn get_rect_of_empty_region_is_empty() {
    let img = Image::new_empty(2, 2);
    assert_eq!(img.get_rect(Bounds::new(9, 9, 0, 3)), Ok(vec![]));
}

#[test]
fn blit_image_copies_region() {
    let src = Image::new(pattern(3 * 3 * 4), 3, 3).unwrap();
    let mut dst = Image::new_empty(4, 4);
    dst.blit_image(2, 2, src.clone(), Bounds::new(1, 1, 2, 2)).unwrap();
    assert_eq!(
        dst.get_rect(Bounds::new(2, 2, 2, 2)).unwrap(),
        src.get_rect(Bounds::new(1, 1, 2, 2)).unwrap()
    );
    let r = dst.blit_image(3, 3, src.clone(), Bounds::new(0, 0, 2, 2));
    assert_eq!(
        r,
        Err(Error::BlitOutOfBounds { x: 3, y: 3, width: 2, height: 2, img_width: 4, img_height: 4 })
    );
    let r = dst.blit_image(0, 0, src, Bounds::new(2, 2, 2, 2));
    assert_eq!(
        r,
        Err(Error::ReadOutOfBounds { x: 2, y: 2, width: 2, height: 2, img_width: 3, img_height: 3 })
    );
}

#[test]
fn take_upload_reports_zone_once() {
    let mut img = Image::new_empty(8, 4);
    assert_eq!(
        img.take_upload(),
        Some(TextureUpload { zone: Bounds::new(0, 0, 8, 4), offset: 0, bytes_per_row: 32, rows_per_image: 4 })
    );
    assert_eq!(img.take_upload(), None);
    img.blit(2, 1, 1, 1, &pattern(4)).unwrap();
    assert_eq!(
        img.take_upload(),
        Some(TextureUpload { zone: Bounds::new(2, 1, 1, 1), offset: 40, bytes_per_row: 32, rows_per_image: 4 })
    );
}

#[test]
fn union_is_associative_and_smallest() {
    let a = Bounds::new(2, 3, 4, 5);
    let b = Bounds::new(5, 1, 10, 2);
    let c = Bounds::new(0, 9, 1, 1);
    assert_eq!(a.union(b).union(c), a.union(b.union(c)));
    assert_eq!(a.union(b).union(c), Bounds::new(0, 1, 15, 9));
    // a region holding both a and b holds their union
    let outer = Bounds::new(1, 0, 20, 10);
    let u = a.union(b);
    assert!(outer.x <= u.x && u.x + u.width <= outer.x + outer.width);
    assert!(outer.y <= u.y && u.y + u.height <= outer.y + outer.height);
}

#[test]
fn bounds_zero_is_empty_at_origin() {
    let z = Bounds::zero();
    assert_eq!(z, Bounds::new(0, 0, 0, 0));
    assert_eq!(z.union(Bounds::new(1, 1, 2, 2)), Bounds::new(0, 0, 3, 3));
}

fn encoded_png(width: u32, height: u32, pixels: Vec<u8>) -> Vec<u8> {
    let buffer = image::RgbaImage::from_raw(width, height, pixels).unwrap();
    let mut out = std::io::Cursor::new(Vec::new());
    buffer.write_to(&mut out, image::ImageFormat::Png).unwrap();
    out.into_inner()
}

#[test]
fn load_decodes_png_to_rgba8() {
    let pixels = vec![255, 0, 0, 255, 0, 255, 0, 128, 0, 0, 255, 0, 9, 8, 7, 6, 1, 2, 3, 4, 5, 6, 7, 8];
    let bytes = encoded_png(3, 2, pixels.clone());
    let img = Image::load(&bytes).unwrap();
    assert_eq!(img.width(), 3);
    assert_eq!(img.height(), 2);
    assert_eq!(img.bytes(), &pixels[..]);
    assert_eq!(img.dirty_zone(), Some(Bounds::new(0, 0, 3, 2)));
}

#[test]
fn load_rejects_bytes_that_are_no_image() {
    assert_eq!(Image::load(&[1, 2, 3, 4, 5]).err(), Some(Error::ImageDecode));
    assert_eq!(Image::load(&[]).err(), Some(Error::ImageDecode));
}
