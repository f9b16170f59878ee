use turing_display::fonts::{draw_text, FontError, FontHandle, PixelSize};
use turing_display::image::{Coord, Rect, Rgba};

fn be16(out: &mut Vec<u8>, v: u16) {
    out.push((v >> 8) as u8);
    out.push(v as u8);
}

fn be32(out: &mut Vec<u8>, v: u32) {
    be16(out, (v >> 16) as u16);
    be16(out, v as u16);
}

fn zeros(out: &mut Vec<u8>, n: usize) {
    for _ in 0..n {
        out.push(0);
    }
}

fn head(units_per_em: u16) -> Vec<u8> {
    let mut t = Vec::new();
    be32(&mut t, 0x0001_0000);
    be32(&mut t, 0x0001_0000);
    be32(&mut t, 0);
    be32(&mut t, 0x5F0F_3CF5);
    be16(&mut t, 0);
    be16(&mut t, units_per_em);
    zeros(&mut t, 16);
    be16(&mut t, 0);
    be16(&mut t, 0);
    be16(&mut t, 400);
    be16(&mut t, 640);
    be16(&mut t, 0);
    be16(&mut t, 8);
    be16(&mut t, 2);
    be16(&mut t, 0);
    be16(&mut t, 0);
    t
}

fn hhea(ascender: i16, descender: i16) -> Vec<u8> {
    let mut t = Vec::new();
    be32(&mut t, 0x0001_0000);
    be16(&mut t, ascender as u16);
    be16(&mut t, descender as u16);
    be16(&mut t, 0);
    zeros(&mut t, 24);
    be16(&mut t, 3);
    t
}

fn maxp() -> Vec<u8> {
    let mut t = Vec::new();
    be32(&mut t, 0x0000_5000);
    be16(&mut t, 3);
    t
}

fn hmtx(advance: u16) -> Vec<u8> {
    let mut t = Vec::new();
    for bearing in [0u16, 0, 80] {
        be16(&mut t, advance);
        be16(&mut t, bearing);
    }
    t
}

fn cmap(glyph_for_capital_a: u8) -> Vec<u8> {
    let mut t = Vec::new();
    be16(&mut t, 0);
    be16(&mut t, 1);
    be16(&mut t, 0);
    be16(&mut t, 3);
    be32(&mut t, 12);
    be16(&mut t, 0);
    be16(&mut t, 262);
    be16(&mut t, 0);
    for code in 0..256u32 {
        t.push(match code {
            0x20 => 1,
            0x35 => 2,
            0x41 => glyph_for_capital_a,
            _ => 0,
        });
    }
    t
}

fn loca() -> Vec<u8> {
    let mut t = Vec::new();
    for offset in [0u16, 0, 0, 17] {
        be16(&mut t, offset);
    }
    t
}

fn glyf(low: i16, rise: i16) -> Vec<u8> {
    let mut t = Vec::new();
    be16(&mut t, 1);
    be16(&mut t, 80);
    be16(&mut t, 0);
    be16(&mut t, 400);
    be16(&mut t, 640);
    be16(&mut t, 3);
    be16(&mut t, 0);
    for _ in 0..4 {
        t.push(0x01);
    }
    for dx in [80i16, 0, 320, 0] {
        be16(&mut t, dx as u16);
    }
    for dy in [low, rise, 0, -rise] {
        be16(&mut t, dy as u16);
    }
    t
}

fn font_bytes(ascender: i16, descender: i16, with_metrics: bool, glyph_for_capital_a: u8) -> Vec<u8> {
    font_with_shape(ascender, descender, with_metrics, glyph_for_capital_a, 0, 640)
}

fn font_with_shape(
    ascender: i16,
    descender: i16,
    with_metrics: bool,
    glyph_for_capital_a: u8,
    low: i16,
    rise: i16,
) -> Vec<u8> {
    font_with_advance(ascender, descender, with_metrics, glyph_for_capital_a, low, rise, 480)
}

fn font_with_advance(
    ascender: i16,
    descender: i16,
    with_metrics: bool,
    glyph_for_capital_a: u8,
    low: i16,
    rise: i16,
    advance: u16,
) -> Vec<u8> {
    let mut tables: Vec<([u8; 4], Vec<u8>)> = vec![
        (*b"cmap", cmap(glyph_for_capital_a)),
        (*b"glyf", glyf(low, rise)),
        (*b"head", head(1024)),
        (*b"hhea", hhea(ascender, descender)),
    ];
    if with_metrics {
        tables.push((*b"hmtx", hmtx(advance)));
    }
    tables.push((*b"loca", loca()));
    tables.push((*b"maxp", maxp()));
    let mut out = Vec::new();
    be32(&mut out, 0x0001_0000);
    be16(&mut out, tables.len() as u16);
    zeros(&mut out, 6);
    let mut offset = 12 + 16 * tables.len();
    for (tag, data) in tables.iter() {
        out.extend_from_slice(tag);
        be32(&mut out, 0);
        be32(&mut out, offset as u32);
        be32(&mut out, data.len() as u32);
        offset += data.len();
    }
    for (_, data) in tables.iter() {
        out.extend_from_slice(data);
    }
    out
}

fn px(size: f32) -> PixelSize {
    PixelSize::from_scale(rusttype::Scale::uniform(size)).unwrap()
}

fn plain_font() -> FontHandle {
    FontHandle::from_data(font_bytes(768, -256, true, 0)).unwrap()
}

fn yellow() -> Rgba {
    Rgba::new(248, 195, 34, 255)
}

#[test]
fn from_data_rejects_what_is_no_font() {
    assert_eq!(FontHandle::from_data(Vec::new()).err(), Some(FontError::InvalidFontData));
    assert_eq!(FontHandle::from_data(vec![1, 2, 3, 4, 5, 6, 7, 8]).err(), Some(FontError::InvalidFontData));
    let mut cut = font_bytes(768, -256, true, 0);
    cut.truncate(20);
    assert!(FontHandle::from_data(cut).is_err());
}

#[test]
fn from_data_accepts_a_font() {
    assert!(FontHandle::from_data(font_bytes(768, -256, true, 0)).is_ok());
    assert!(FontHandle::from_data(font_bytes(768, -256, false, 0)).is_ok());
}

#[test]
fn error_message() {
    assert_eq!(FontError::InvalidFontData.message(), "cannot load font data");
}

#[test]
fn padded_digit_is_drawn_under_its_glyph_only() {
    let font = plain_font();
    let out = draw_text(&font, &px(128.0), yellow(), &Coord::new(23, 80), "  5");
    assert_eq!(out.rect, Rect::new(23, 80, 180, 64));
    let t = out.blend.unwrap();
    assert_eq!((t.image.width, t.image.height), (180, 64));
    assert_eq!(t.image.buffer.len(), 180 * 64);
    assert_eq!(t.ink, Rect::new(130, 16, 40, 48));
    for y in 0..64 {
        for x in 0..180 {
            let inside = (130..170).contains(&x) && (16..64).contains(&y);
            let want = if inside { Rgba::new(248, 195, 34, 255) } else { Rgba::transparent() };
            assert_eq!(t.image.buffer[y * 180 + x], want);
        }
    }
}

#[test]
fn single_glyph_claims_its_advance() {
    let font = plain_font();
    let out = draw_text(&font, &px(128.0), yellow(), &Coord::new(0, 0), "5");
    assert_eq!(out.rect, Rect::new(0, 0, 60, 64));
    assert_eq!(out.blend.unwrap().ink, Rect::new(10, 16, 40, 48));
}

#[test]
fn size_scales_the_render() {
    let font = plain_font();
    let out = draw_text(&font, &px(64.0), Rgba::new(20, 240, 116, 0), &Coord::new(3, 4), "55");
    assert_eq!(out.rect, Rect::new(3, 4, 60, 32));
    let t = out.blend.unwrap();
    assert_eq!(t.ink, Rect::new(5, 8, 50, 24));
    assert_eq!(t.image.buffer[8 * 60 + 5], Rgba::new(20, 240, 116, 255));
    assert_eq!(t.image.buffer[8 * 60 + 25], Rgba::transparent());
    assert_eq!(t.image.buffer[8 * 60 + 35], Rgba::new(20, 240, 116, 255));
}

#[test]
fn empty_text_draws_nothing() {
    let font = plain_font();
    let out = draw_text(&font, &px(128.0), yellow(), &Coord::new(23, 80), "");
    assert!(out.blend.is_none());
    assert_eq!(out.rect, Rect::new(23, 80, 0, 0));
}

#[test]
fn blank_text_draws_nothing() {
    let font = plain_font();
    let out = draw_text(&font, &px(128.0), yellow(), &Coord::new(23, 80), "   ");
    assert!(out.blend.is_none());
    assert_eq!(out.rect, Rect::new(23, 80, 0, 0));
}

#[test]
fn pixel_size_is_a_number_above_zero() {
    assert!(PixelSize::from_scale(rusttype::Scale::uniform(0.0)).is_none());
    assert!(PixelSize::from_scale(rusttype::Scale::uniform(-110.0)).is_none());
    assert!(PixelSize::from_scale(rusttype::Scale::uniform(f32::NAN)).is_none());
    assert!(PixelSize::from_scale(rusttype::Scale::uniform(f32::INFINITY)).is_none());
    assert!(PixelSize::from_scale(rusttype::Scale { x: 110.0, y: 100.0 }).is_none());
    let size = PixelSize::from_scale(rusttype::Scale::uniform(12.5)).unwrap();
    assert_eq!(size.value().bits, 12.5f32.to_bits());
}

#[test]
fn fractional_size_is_drawn() {
    let font = plain_font();
    let out = draw_text(&font, &px(12.5), yellow(), &Coord::new(1, 2), "5");
    assert_eq!(out.rect, Rect::new(1, 2, 6, 7));
    let t = out.blend.unwrap();
    assert_eq!(t.ink, Rect::new(0, 1, 5, 6));
    assert_eq!(t.image.buffer[3 * 6 + 2], Rgba::new(248, 195, 34, 255));
    assert_eq!(t.image.buffer[5], Rgba::transparent());
}

#[test]
fn tiny_size_draws_nothing() {
    let font = plain_font();
    let out = draw_text(&font, &px(f32::from_bits(1)), yellow(), &Coord::new(1, 2), "5");
    assert!(out.blend.is_none());
    assert_eq!(out.rect, Rect::new(1, 2, 0, 0));
}

#[test]
fn drawing_twice_gives_the_same_render() {
    let font = plain_font();
    let a = draw_text(&font, &px(100.0), yellow(), &Coord::new(23, 309), " 55");
    let b = draw_text(&font, &px(100.0), yellow(), &Coord::new(23, 309), " 55");
    assert_eq!(a.rect, b.rect);
    let (ta, tb) = (a.blend.unwrap(), b.blend.unwrap());
    assert_eq!(ta.ink, tb.ink);
    assert_eq!(ta.image.buffer, tb.image.buffer);
}

#[test]
fn unmapped_character_shows_the_missing_glyph() {
    let font = plain_font();
    assert!(font.can_lay_out(&px(128.0), "x5"));
    let out = draw_text(&font, &px(128.0), yellow(), &Coord::new(0, 0), "x5");
    assert_eq!(out.rect, Rect::new(0, 0, 120, 64));
    assert_eq!(out.blend.unwrap().ink, Rect::new(70, 16, 40, 48));
}

#[test]
fn font_without_metrics_lays_nothing_out() {
    let font = FontHandle::from_data(font_bytes(768, -256, false, 0)).unwrap();
    assert!(!font.can_lay_out(&px(128.0), "5"));
    assert!(font.can_lay_out(&px(128.0), ""));
    let out = draw_text(&font, &px(128.0), yellow(), &Coord::new(9, 9), "5");
    assert!(out.blend.is_none());
    assert_eq!(out.rect, Rect::new(9, 9, 0, 0));
}

#[test]
fn glyph_beyond_the_glyph_count_lays_nothing_out() {
    let font = FontHandle::from_data(font_bytes(768, -256, true, 9)).unwrap();
    assert!(font.can_lay_out(&px(128.0), "5"));
    assert!(!font.can_lay_out(&px(128.0), "5A"));
    let out = draw_text(&font, &px(128.0), yellow(), &Coord::new(9, 9), "5A");
    assert!(out.blend.is_none());
    assert_eq!(out.rect, Rect::new(9, 9, 0, 0));
}

#[test]
fn font_is_drawn_only_scaled_down() {
    let font = plain_font();
    assert!(font.can_lay_out(&px(1.0), "5"));
    assert!(font.can_lay_out(&px(1023.0), "5"));
    assert!(!font.can_lay_out(&px(1024.0), "5"));
    assert!(!font.can_lay_out(&px(65535.0), "5"));
    assert!(font.can_lay_out(&px(1023.9), "5"));
    let out = draw_text(&font, &px(1024.0), yellow(), &Coord::new(9, 9), "5");
    assert!(out.blend.is_none());
    assert_eq!(out.rect, Rect::new(9, 9, 0, 0));
    let small = FontHandle::from_data(font_bytes(4, -4, true, 0)).unwrap();
    assert!(small.can_lay_out(&px(7.0), "5"));
    assert!(!small.can_lay_out(&px(8.0), "5"));
}

#[test]
fn largest_size_of_a_font_is_drawn() {
    let font = plain_font();
    let out = draw_text(&font, &px(1023.0), yellow(), &Coord::new(2, 3), "5");
    assert_eq!(out.rect, Rect::new(2, 3, 480, 512));
    let t = out.blend.unwrap();
    assert_eq!(t.ink, Rect::new(79, 127, 321, 385));
    assert_eq!(t.image.buffer[127 * 480 + 79], Rgba::new(248, 195, 34, 2));
    assert_eq!(t.image.buffer[128 * 480 + 80], Rgba::new(248, 195, 34, 255));
    assert_eq!(t.image.buffer[128 * 480 + 78], Rgba::transparent());
}

#[test]
fn font_without_height_lays_nothing_out() {
    let flat = FontHandle::from_data(font_bytes(0, 0, true, 0)).unwrap();
    assert!(!flat.can_lay_out(&px(8.0), "5"));
    let upside_down = FontHandle::from_data(font_bytes(-256, 768, true, 0)).unwrap();
    assert!(!upside_down.can_lay_out(&px(8.0), "5"));
    let out = draw_text(&upside_down, &px(8.0), yellow(), &Coord::new(9, 9), "5");
    assert!(out.blend.is_none());
    assert_eq!(out.rect, Rect::new(9, 9, 0, 0));
}

#[test]
fn line_of_at_most_21000_glyphs_is_laid_out() {
    let font = plain_font();
    let line = " ".repeat(21000);
    assert!(font.can_lay_out(&px(8.0), &line));
    let longer = " ".repeat(21001);
    assert!(!font.can_lay_out(&px(8.0), &longer));
    let mut text = " ".repeat(20999);
    text.push('5');
    let out = draw_text(&font, &px(2.0), yellow(), &Coord::new(0, 0), &text);
    assert_eq!(out.rect.width, 19688);
    assert_eq!(out.rect.height, 1);
}

#[test]
fn shape_beyond_reach_draws_nothing() {
    let wide = FontHandle::from_data(font_with_advance(768, -256, true, 0, 0, 640, 65535)).unwrap();
    let mut near = " ".repeat(2);
    near.push('5');
    assert!(draw_text(&wide, &px(8.0), yellow(), &Coord::new(0, 0), &near).blend.is_some());
    let mut far = " ".repeat(257);
    far.push('5');
    assert!(wide.can_lay_out(&px(1023.0), &far));
    let out = draw_text(&wide, &px(1023.0), yellow(), &Coord::new(4, 5), &far);
    assert!(out.blend.is_none());
    assert_eq!(out.rect, Rect::new(4, 5, 0, 0));
}

#[test]
fn outline_at_the_lowest_coordinate_lays_nothing_out() {
    let font = FontHandle::from_data(font_with_shape(768, -256, true, 0, i16::MIN, 100)).unwrap();
    assert!(font.can_lay_out(&px(128.0), " "));
    assert!(!font.can_lay_out(&px(128.0), "5"));
    let out = draw_text(&font, &px(128.0), yellow(), &Coord::new(9, 9), " 5");
    assert!(out.blend.is_none());
    assert_eq!(out.rect, Rect::new(9, 9, 0, 0));
    let near = FontHandle::from_data(font_with_shape(768, -256, true, 0, i16::MIN + 1, 100)).unwrap();
    assert!(near.can_lay_out(&px(128.0), "5"));
}

#[test]
fn shape_outside_the_image_draws_nothing() {
    let font = FontHandle::from_data(font_with_shape(768, -256, true, 0, -800, 100)).unwrap();
    let out = draw_text(&font, &px(128.0), yellow(), &Coord::new(9, 9), "5");
    assert!(out.blend.is_none());
    assert_eq!(out.rect, Rect::new(9, 9, 0, 0));
}

#[test]
fn shape_longer_than_2048_pixels_draws_nothing() {
    let tall = FontHandle::from_data(font_with_shape(768, -256, true, 0, 0, 4000)).unwrap();
    let out = draw_text(&tall, &px(512.0), yellow(), &Coord::new(0, 0), "5");
    assert_eq!(out.rect, Rect::new(0, 0, 240, 256));
    assert_eq!(out.blend.unwrap().ink, Rect::new(40, 0, 160, 256));
    assert!(tall.can_lay_out(&px(1023.0), "5"));
    let out = draw_text(&tall, &px(1023.0), yellow(), &Coord::new(6, 7), "5");
    assert!(out.blend.is_none());
    assert_eq!(out.rect, Rect::new(6, 7, 0, 0));
}
