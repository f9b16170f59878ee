use turing_display::image::{Coord, Image, Rect, Rgba};
use turing_display::render::TextRender;

#[test]
fn blank_image_is_transparent() {
    let img = Image::blank(3, 2).unwrap();
    assert_eq!((img.width, img.height), (3, 2));
    assert_eq!(img.buffer, vec![Rgba::new(0, 0, 0, 0); 6]);
    assert_eq!(img.pixel(2, 1), Rgba::transparent());
}

#[test]
fn blank_image_without_area() {
    let img = Image::blank(0, 7).unwrap();
    assert!(img.buffer.is_empty());
    assert_eq!((img.width, img.height), (0, 7));
}

#[test]
fn blank_image_beyond_the_limit() {
    assert!(Image::blank(usize::MAX, 2).is_none());
    assert!(Image::blank(usize::MAX / 8 + 1, 1).is_none());
    assert!(Image::blank(usize::MAX, usize::MAX).is_none());
}

#[test]
fn pixel_reads_rows_first() {
    let mut img = Image::blank(3, 2).unwrap();
    img.buffer[4] = Rgba::new(1, 2, 3, 4);
    assert_eq!(img.pixel(1, 1), Rgba::new(1, 2, 3, 4));
    assert_eq!(img.pixel(1, 0), Rgba::transparent());
}

#[test]
fn colour_with_another_opacity() {
    let c = Rgba::new(248, 195, 34, 255).with_alpha(17);
    assert_eq!((c.r, c.g, c.b, c.a), (248, 195, 34, 17));
    assert_eq!(Rgba::transparent(), Rgba::new(0, 0, 0, 0));
}

#[test]
fn coordinates_and_rectangles_keep_their_fields() {
    let c = Coord::new(23, 309);
    assert_eq!((c.x, c.y), (23, 309));
    let r = Rect::new(23, 80, 180, 100);
    assert_eq!((r.x, r.y, r.width, r.height), (23, 80, 180, 100));
}

#[test]
fn empty_render_has_no_area() {
    let out = TextRender::empty(&Coord::new(23, 80));
    assert!(out.blend.is_none());
    assert_eq!(out.rect, Rect::new(23, 80, 0, 0));
}
