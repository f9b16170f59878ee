//! Fonts and the drawing of text with them.
//!
//! Parsing, metrics, layout and rasterising are rusttype's. What it returns
//! is taken by name below; everything that is decided here, from the size of
//! the text image to the opacity of each pixel, is proved.

use vstd::prelude::*;
use crate::glyph::{raster_views, GlyphInk, GlyphRaster, InkView, PixelBox, RasterView};
use crate::image::{max_pixels, Coord, Rect, Rgba};
use crate::real32::Real32;
use crate::render::{
    any_marked, empty_render, is_ink_box, lemma_drawn_extent, lemma_no_glyphs_no_ink,
    lemma_single_glyph_rect, render_glyphs, render_spec, TextRender, TextRenderView,
};

verus! {

#[verifier::external_type_specification]
#[verifier::external_body]
pub struct ExFontProgram<'a>(rusttype::Font<'a>);

#[verifier::external_type_specification]
#[verifier::external_body]
pub struct ExPlacedGlyph<'a>(rusttype::PositionedGlyph<'a>);

#[verifier::external_type_specification]
#[verifier::external_body]
pub struct ExGlyphScale(rusttype::Scale);

/// The horizontal and the vertical size of a scale, in that order.
pub uninterp spec fn scale_sizes(scale: rusttype::Scale) -> (Real32, Real32);

/// The bytes that a parsed font was made from.
pub uninterp spec fn font_data(font: rusttype::Font<'static>) -> Seq<u8>;

/// Whether rusttype accepts the bytes as a font.
pub uninterp spec fn parses_as_font(data: Seq<u8>) -> bool;

/// Ascent and descent of the font at a pixel size, in that order. A pixel
/// size stands for the scale that is that size in both directions.
pub uninterp spec fn v_metrics_at(data: Seq<u8>, size: Real32) -> (Real32, Real32);

/// The factor from font units to pixels at a pixel size.
pub uninterp spec fn scale_factor_at(data: Seq<u8>, size: Real32) -> Real32;

/// The glyph that the font shows for a character.
pub uninterp spec fn glyph_id_of(data: Seq<u8>, c: char) -> u16;

/// The number of glyphs in the font.
pub uninterp spec fn glyph_count_of(data: Seq<u8>) -> usize;

/// Whether the font gives the glyph an advance width.
pub uninterp spec fn has_advance(data: Seq<u8>, id: u16) -> bool;

/// Whether the font gives the glyph a left side bearing.
pub uninterp spec fn has_side_bearing(data: Seq<u8>, id: u16) -> bool;

/// The box of the glyph's outline in font units, as `(x_min, y_min, x_max,
/// y_max)`, where it has an outline.
pub uninterp spec fn outline_box(data: Seq<u8>, id: u16) -> Option<(i16, i16, i16, i16)>;

/// The glyphs of a text, set side by side from the left at a pixel size,
/// their baseline one ascent below the top.
pub uninterp spec fn laid_out(data: Seq<u8>, size: Real32, text: Seq<char>) -> Seq<
    rusttype::PositionedGlyph<'static>,
>;

/// Whether a glyph's horizontal metrics are there to be read.
pub uninterp spec fn glyph_measured(glyph: rusttype::PositionedGlyph<'static>) -> bool;

/// Whether a glyph's horizontal scale is a number from 0 to 1.
pub uninterp spec fn glyph_scale_within_one(glyph: rusttype::PositionedGlyph<'static>) -> bool;

/// The horizontal pen position that a glyph was set at.
pub uninterp spec fn glyph_pen_x(glyph: rusttype::PositionedGlyph<'static>) -> Real32;

/// The width by which a glyph moves the pen.
pub uninterp spec fn glyph_advance(glyph: rusttype::PositionedGlyph<'static>) -> Real32;

/// The pixel box around a glyph's shape, where it has one.
pub uninterp spec fn glyph_pixel_box(glyph: rusttype::PositionedGlyph<'static>) -> Option<PixelBox>;

/// The coverage of each pixel of a glyph's pixel box, one row after another.
pub uninterp spec fn glyph_coverage(glyph: rusttype::PositionedGlyph<'static>) -> Seq<Real32>;

/// Why a font could not be made.
#[derive(Clone, Copy, Debug, PartialEq, Eq, Structural)]
pub enum FontError {
    /// The bytes are not a font that can be read.
    InvalidFontData,
}

impl FontError {
    pub fn message(&self) -> (text: String)
        ensures
            text@ == "cannot load font data"@,
    {
        "cannot load font data".to_owned()
    }
}

/// A parsed font. It never changes once made; its view is the bytes it was
/// made from.
pub struct FontHandle {
    font: rusttype::Font<'static>,
}

impl View for FontHandle {
    type V = Seq<u8>;

    closed spec fn view(&self) -> Seq<u8> {
        font_data(self.font)
    }
}

/// A pixel size: a number above zero, the same in both directions. Its view
/// is that number.
pub struct PixelSize {
    scale: rusttype::Scale,
}

impl View for PixelSize {
    type V = Real32;

    closed spec fn view(&self) -> Real32 {
        scale_sizes(self.scale).1
    }
}

/// Whether a number is a pixel size: above zero and not infinite.
pub open spec fn is_pixel_size(size: Real32) -> bool {
    size.spec_is_positive() && size.is_finite()
}

/// The farthest that a pen or a corner of a pixel box may lie from the
/// origin for its shape to be rasterised: 2^24 pixels. Up to there every
/// whole number is a single-precision number, so that rusttype, which
/// subtracts the corner from the pen in single precision, places the
/// outline on its box exactly.
pub const REACH: i32 = 0x100_0000;

/// The longest side of a pixel box whose shape is rasterised: 2048 pixels.
///
/// rusttype's rasteriser follows each line of an outline down the rows by
/// adding the line's slope to a column in single precision. Over at most
/// 2048 rows, at columns below 2^12, what the additions lose stays below a
/// quarter of a pixel.
pub const MAX_SIDE: u32 = 2048;

/// Whether a pixel box is handed to the rasteriser: it is ordered, its
/// corners lie within `REACH`, and no side is longer than `MAX_SIDE`.
pub open spec fn rasterizable(b: PixelBox) -> bool {
    &&& b.spec_ordered()
    &&& -REACH <= b.min_x && b.max_x <= REACH
    &&& -REACH <= b.min_y && b.max_y <= REACH
    &&& b.width() <= MAX_SIDE
    &&& b.height() <= MAX_SIDE
}

/// Whether a pen position lies within `REACH` of the origin.
pub open spec fn pen_within_reach(x: Real32) -> bool {
    x.is_finite() && x.spec_floor_abs() < REACH
}

/// Whether a laid-out glyph can be read into plain values: one without a
/// shape always, one with a shape where its pen and its box are within
/// reach of the rasteriser.
pub open spec fn drawable(glyph: rusttype::PositionedGlyph<'static>) -> bool {
    glyph_pixel_box(glyph) matches Some(b) ==> rasterizable(b) && pen_within_reach(
        glyph_pen_x(glyph),
    )
}

/// Whether the font holds all that laying out the character reads: a glyph
/// below the glyph count, with an advance width and a side bearing, and an
/// outline box, if any, whose vertical bounds can be negated.
pub open spec fn measurable(data: Seq<u8>, c: char) -> bool {
    let id = glyph_id_of(data, c);
    &&& id < glyph_count_of(data)
    &&& has_advance(data, id)
    &&& has_side_bearing(data, id)
    &&& outline_box(data, id) matches Some(b) ==> b.1 > i16::MIN && b.3 > i16::MIN
}

/// The most glyphs that are laid out in one line: 21000.
///
/// At a scale factor below one a glyph moves the pen by less than 2^16
/// pixels of advance and 2^15 of kerning, and rusttype adds the pen, cut to
/// a whole number, to a box corner within 2^15 + 2 pixels of it in 32 bits.
/// After 21000 glyphs the pen is still below 21000 * 98304 * 1.003, which
/// with the corner stays below 2^31.
pub const MAX_GLYPHS: usize = 21000;

/// Whether the font is scaled down at this pixel size: the size is a pixel
/// size, and the factor from font units to pixels is a number, not
/// negative, and below one.
///
/// rusttype's rasteriser counts columns from the left edge of a glyph's
/// pixel box and cannot go more than two columns to the left of it. The box
/// is cut from the outline in whole font units, so the outline may reach
/// almost one unit beyond it: at a factor below one that is less than one
/// pixel.
pub open spec fn scaled_down(data: Seq<u8>, size: Real32) -> bool {
    let factor = scale_factor_at(data, size);
    &&& is_pixel_size(size)
    &&& factor.is_finite()
    &&& !factor.negative()
    &&& factor.spec_floor_abs() == 0
}

/// Whether the text can be laid out in the font at the pixel size: the font
/// is scaled down, the text has at most `MAX_GLYPHS` characters, and the
/// font holds what laying out each of them reads.
pub open spec fn lays_out(data: Seq<u8>, size: Real32, text: Seq<char>) -> bool {
    &&& scaled_down(data, size)
    &&& text.len() <= MAX_GLYPHS
    &&& forall|i: int| 0 <= i < text.len() ==> measurable(data, #[trigger] text[i])
}

/// A laid-out glyph as plain values.
pub open spec fn glyph_raster(glyph: rusttype::PositionedGlyph<'static>) -> RasterView {
    RasterView {
        pen_x: glyph_pen_x(glyph),
        advance: glyph_advance(glyph),
        ink: match glyph_pixel_box(glyph) {
            Some(bounds) => Some(InkView { bounds, coverage: glyph_coverage(glyph) }),
            None => None,
        },
    }
}

/// A run of laid-out glyphs as plain values.
pub open spec fn glyph_rasters(glyphs: Seq<rusttype::PositionedGlyph<'static>>) -> Seq<
    RasterView,
> {
    Seq::new(glyphs.len(), |i: int| glyph_raster(glyphs[i]))
}

/// Whether every glyph of the run can be read into plain values.
pub open spec fn all_drawable(glyphs: Seq<rusttype::PositionedGlyph<'static>>) -> bool {
    forall|i: int| 0 <= i < glyphs.len() ==> drawable(#[trigger] glyphs[i])
}

/// What drawing a text gives.
///
/// A text that cannot be laid out, or that holds a shape out of the
/// rasteriser's reach, draws nothing; any other is rendered from rusttype's
/// metrics, positions and coverage.
pub open spec fn draw_text_spec(
    data: Seq<u8>,
    size: Real32,
    color: Rgba,
    pos: Coord,
    text: Seq<char>,
) -> TextRenderView {
    if lays_out(data, size, text) && all_drawable(laid_out(data, size, text)) {
        render_spec(
            v_metrics_at(data, size).0,
            v_metrics_at(data, size).1,
            glyph_rasters(laid_out(data, size, text)),
            color,
            pos,
        )
    } else {
        empty_render(pos)
    }
}

/// `rusttype::Font::try_from_vec`: a font exactly where rusttype accepts the
/// bytes, and then one that holds those bytes.
#[verifier::external_body]
fn parse_font(data: Vec<u8>) -> (parsed: Option<rusttype::Font<'static>>)
    ensures
        parsed is Some <==> parses_as_font(data@),
        parsed matches Some(font) ==> font_data(font) == data@,
{
    rusttype::Font::try_from_vec(data)
}

/// The fields `x` and `y` of a `rusttype::Scale`, each by its bit pattern.
#[verifier::external_body]
fn read_scale(scale: &rusttype::Scale) -> (sizes: (Real32, Real32))
    ensures
        sizes == scale_sizes(*scale),
{
    (Real32::from_bits(scale.x.to_bits()), Real32::from_bits(scale.y.to_bits()))
}

/// `rusttype::Font::v_metrics` at the scale of a pixel size: the ascent and
/// descent it reports, each by its bit pattern. It is for fonts that are
/// scaled down: there both are numbers, the same on every machine.
#[verifier::external_body]
fn v_metrics(font: &FontHandle, size: &PixelSize) -> (m: (Real32, Real32))
    requires
        scaled_down(font@, size@),
    ensures
        m == v_metrics_at(font@, size@),
{
    let m = font.font.v_metrics(size.scale);
    (Real32::from_bits(m.ascent.to_bits()), Real32::from_bits(m.descent.to_bits()))
}

/// `rusttype::Font::scale_for_pixel_height`: the factor it reports, by its
/// bit pattern. For a pixel size it is a number or an infinity.
#[verifier::external_body]
fn scale_factor(font: &FontHandle, size: &PixelSize) -> (factor: Real32)
    ensures
        factor == scale_factor_at(font@, size@),
{
    Real32::from_bits(font.font.scale_for_pixel_height(size.scale.y).to_bits())
}

/// `rusttype::IntoGlyphId::into_glyph_id` for a character: the glyph that
/// the font's character map names, the missing-glyph glyph 0 otherwise.
#[verifier::external_body]
fn glyph_id(font: &FontHandle, c: char) -> (id: u16)
    ensures
        id == glyph_id_of(font@, c),
{
    rusttype::IntoGlyphId::into_glyph_id(c, &font.font).0
}

/// `rusttype::Font::glyph_count`.
#[verifier::external_body]
fn glyph_count(font: &FontHandle) -> (count: usize)
    ensures
        count == glyph_count_of(font@),
{
    font.font.glyph_count()
}

/// `ttf_parser::Face::glyph_hor_advance` on the face inside the font:
/// whether it finds an advance width. rusttype's layout unwraps the same
/// call.
#[verifier::external_body]
fn advance_known(font: &FontHandle, id: u16) -> (known: bool)
    ensures
        known == has_advance(font@, id),
{
    let id = owned_ttf_parser::GlyphId(id);
    match &font.font {
        rusttype::Font::Ref(face) => face.glyph_hor_advance(id).is_some(),
        rusttype::Font::Owned(face) => {
            owned_ttf_parser::AsFaceRef::as_face_ref(&**face).glyph_hor_advance(id).is_some()
        },
    }
}

/// `ttf_parser::Face::glyph_hor_side_bearing` on the face inside the font:
/// whether it finds a side bearing. rusttype's layout unwraps the same call.
#[verifier::external_body]
fn side_bearing_known(font: &FontHandle, id: u16) -> (known: bool)
    ensures
        known == has_side_bearing(font@, id),
{
    let id = owned_ttf_parser::GlyphId(id);
    match &font.font {
        rusttype::Font::Ref(face) => face.glyph_hor_side_bearing(id).is_some(),
        rusttype::Font::Owned(face) => {
            owned_ttf_parser::AsFaceRef::as_face_ref(&**face).glyph_hor_side_bearing(id).is_some()
        },
    }
}

/// `ttf_parser::Face::glyph_bounding_box` on the face inside the font: the
/// four bounds it reports. rusttype negates the vertical ones.
#[verifier::external_body]
fn outline_bounds(font: &FontHandle, id: u16) -> (bounds: Option<(i16, i16, i16, i16)>)
    ensures
        bounds == outline_box(font@, id),
{
    let id = owned_ttf_parser::GlyphId(id);
    let found = match &font.font {
        rusttype::Font::Ref(face) => face.glyph_bounding_box(id),
        rusttype::Font::Owned(face) => {
            owned_ttf_parser::AsFaceRef::as_face_ref(&**face).glyph_bounding_box(id)
        },
    };
    found.map(|b| (b.x_min, b.y_min, b.x_max, b.y_max))
}

/// `rusttype::Font::layout` at the scale of a pixel size, from the point
/// `(0, ascent)`, the ascent being that of `rusttype::Font::v_metrics` at
/// the same scale: one glyph for each character, in order, the first with
/// its pen at 0, and each with its horizontal metrics already read once.
///
/// On its way rusttype asserts that each glyph lies below the glyph count,
/// unwraps its advance width and its side bearing, negates the vertical
/// bounds of its outline box in 16 bits and adds pixel coordinates in 32
/// bits. The `requires` keeps to fonts, sizes and texts on which all of
/// these go through. Under it the horizontal scale of each glyph, which
/// rusttype takes as the factor times the size over the size, is a number
/// from 0 to 1.
#[verifier::external_body]
fn layout(font: &FontHandle, size: &PixelSize, text: &str) -> (glyphs: Vec<
    rusttype::PositionedGlyph<'static>,
>)
    requires
        lays_out(font@, size@, text@),
    ensures
        glyphs@ == laid_out(font@, size@, text@),
        glyphs@.len() == text@.len(),
        glyphs@.len() > 0 ==> glyph_pen_x(glyphs@[0]).bits == 0,
        forall|i: int| 0 <= i < glyphs@.len() ==> glyph_measured(#[trigger] glyphs@[i]),
        forall|i: int| 0 <= i < glyphs@.len() ==> glyph_scale_within_one(#[trigger] glyphs@[i]),
{
    let scale = size.scale;
    let start = rusttype::point(0u8.into(), font.font.v_metrics(scale).ascent);
    font.font.layout(text, scale, start).collect()
}

/// `rusttype::PositionedGlyph::position`: its `x`, by its bit pattern.
#[verifier::external_body]
fn pen_x(glyph: &rusttype::PositionedGlyph<'static>) -> (x: Real32)
    ensures
        x == glyph_pen_x(*glyph),
{
    Real32::from_bits(glyph.position().x.to_bits())
}

/// `rusttype::ScaledGlyph::h_metrics` of the glyph: its advance width, by
/// its bit pattern. The call unwraps the font's metrics, so it is for
/// glyphs whose metrics were found before.
#[verifier::external_body]
fn advance_width(glyph: &rusttype::PositionedGlyph<'static>) -> (advance: Real32)
    requires
        glyph_measured(*glyph),
    ensures
        advance == glyph_advance(*glyph),
{
    Real32::from_bits(glyph.unpositioned().h_metrics().advance_width.to_bits())
}

/// `rusttype::PositionedGlyph::pixel_bounding_box`: the box it reports,
/// `None` for a glyph without a shape.
#[verifier::external_body]
fn pixel_box(glyph: &rusttype::PositionedGlyph<'static>) -> (bounds: Option<PixelBox>)
    ensures
        bounds == glyph_pixel_box(*glyph),
{
    glyph.pixel_bounding_box().map(|b| PixelBox::new(b.min.x, b.min.y, b.max.x, b.max.y))
}

/// Adds one coverage value to a list.
fn keep_coverage(cells: &mut Vec<Real32>, bits: u32)
    ensures
        final(cells)@ == old(cells)@.push(Real32 { bits }),
{
    cells.push(Real32::from_bits(bits));
}

/// `rusttype::PositionedGlyph::draw`: the coverage it reports for each
/// pixel of the glyph's pixel box, one call for each pixel, row after row.
///
/// rusttype takes the sides of the box as differences in 32 bits and
/// allocates four bytes for each pixel and four pixels more. It moves the
/// outline by the pen less the box corner, in single precision, and its
/// rasteriser adds columns of the outline, counted from the left edge of
/// the box, to the start of a row without a sign: that goes through for
/// columns from -2 upward. The `requires` keeps to glyphs whose outline
/// stays above column -2:
/// - a scale from 0 to 1, under which the outline, which may reach almost
///   one font unit beyond the box cut from it, reaches less than a pixel
///   beyond;
/// - a pen and a box within `REACH`, where the move is exact;
/// - a box of at most `MAX_SIDE` pixels a side, over which a line followed
///   down the rows strays by less than a quarter of a pixel.
#[verifier::external_body]
fn coverage(glyph: &rusttype::PositionedGlyph<'static>) -> (cells: Vec<Real32>)
    requires
        glyph_scale_within_one(*glyph),
        glyph_pixel_box(*glyph) is Some,
        drawable(*glyph),
    ensures
        cells@ == glyph_coverage(*glyph),
        cells@.len() == glyph_pixel_box(*glyph)->0.area(),
{
    let mut cells = Vec::new();
    glyph.draw(|_, _, v| keep_coverage(&mut cells, v.to_bits()));
    cells
}

impl PixelSize {
    #[verifier::type_invariant]
    spec fn inv(&self) -> bool {
        scale_sizes(self.scale).0 == scale_sizes(self.scale).1 && is_pixel_size(
            scale_sizes(self.scale).1,
        )
    }

    /// The pixel size of a scale; `None` where the scale is not the same in
    /// both directions, or is not a number above zero there.
    pub fn from_scale(scale: rusttype::Scale) -> (made: Option<PixelSize>)
        ensures
            made is Some <==> scale_sizes(scale).0 == scale_sizes(scale).1 && is_pixel_size(
                scale_sizes(scale).1,
            ),
            made matches Some(size) ==> size@ == scale_sizes(scale).1,
    {
        let (x, y) = read_scale(&scale);
        if x.bits == y.bits && y.is_positive() && y.finite() {
            Some(PixelSize { scale })
        } else {
            None
        }
    }

    /// The size as a number.
    pub fn value(&self) -> (v: Real32)
        ensures
            v == self@,
            is_pixel_size(v),
    {
        proof {
            use_type_invariant(self);
        }
        read_scale(&self.scale).1
    }
}

impl FontHandle {
    /// Parses a font. Fails, with nothing made, exactly where the bytes are
    /// not a font program that rusttype reads.
    pub fn from_data(data: Vec<u8>) -> (made: Result<FontHandle, FontError>)
        ensures
            made is Ok <==> parses_as_font(data@),
            made matches Ok(font) ==> font@ == data@,
            made matches Err(e) ==> e == FontError::InvalidFontData,
    {
        match parse_font(data) {
            Some(font) => Ok(FontHandle { font }),
            None => Err(FontError::InvalidFontData),
        }
    }

    /// Whether the font holds what laying out the character reads.
    fn measures(&self, c: char) -> (b: bool)
        ensures
            b == measurable(self@, c),
    {
        let id: u16 = glyph_id(self, c);
        if id as usize >= glyph_count(self) {
            return false;
        }
        if !advance_known(self, id) || !side_bearing_known(self, id) {
            return false;
        }
        match outline_bounds(self, id) {
            Some(b) => b.1 > i16::MIN && b.3 > i16::MIN,
            None => true,
        }
    }

    /// Whether the font is scaled down at this pixel size.
    fn is_scaled_down(&self, size: &PixelSize) -> (b: bool)
        ensures
            b == scaled_down(self@, size@),
    {
        let _value = size.value();
        let factor = scale_factor(self, size);
        factor.finite() && !factor.is_negative() && factor.floor_abs() == 0
    }

    /// Whether the text can be laid out in this font at the pixel size. A
    /// text that cannot is drawn as nothing.
    pub fn can_lay_out(&self, size: &PixelSize, text: &str) -> (b: bool)
        ensures
            b == lays_out(self@, size@, text@),
    {
        let mut count: usize = 0;
        let mut all: bool = true;
        for c in it: text.chars()
            invariant
                count == it.index() || (count == usize::MAX && it.index() >= usize::MAX),
                all == (forall|i: int|
                    0 <= i < it.index() ==> measurable(self@, #[trigger] it.seq()[i])),
        {
            if !self.measures(c) {
                all = false;
            }
            if count < usize::MAX {
                count = count + 1;
            }
        }
        all && count <= MAX_GLYPHS && self.is_scaled_down(size)
    }
}

/// Whether a pen position lies within `REACH` of the origin.
fn pen_in_reach(x: Real32) -> (b: bool)
    ensures
        b == pen_within_reach(x),
{
    x.finite() && x.floor_abs() < REACH as u128
}

/// Whether a pixel box is handed to the rasteriser.
fn box_in_reach(b: PixelBox) -> (fits: bool)
    ensures
        fits == rasterizable(b),
{
    if !b.ordered() || b.min_x < -REACH || b.max_x > REACH || b.min_y < -REACH || b.max_y > REACH {
        return false;
    }
    b.columns() <= MAX_SIDE && b.rows() <= MAX_SIDE
}

/// Reads one laid-out glyph into plain values; `None` where it has a shape
/// that is out of the rasteriser's reach.
fn read_glyph(glyph: &rusttype::PositionedGlyph<'static>) -> (raster: Option<GlyphRaster>)
    requires
        glyph_measured(*glyph),
        glyph_scale_within_one(*glyph),
    ensures
        raster is Some <==> drawable(*glyph),
        raster matches Some(r) ==> r@ == glyph_raster(*glyph),
{
    let x = pen_x(glyph);
    let advance = advance_width(glyph);
    match pixel_box(glyph) {
        None => Some(GlyphRaster::new(x, advance, None)),
        Some(b) => {
            if !box_in_reach(b) || !pen_in_reach(x) {
                return None;
            }
            let cells = coverage(glyph);
            match GlyphInk::new(b, cells) {
                Some(ink) => Some(GlyphRaster::new(x, advance, Some(ink))),
                None => None,
            }
        },
    }
}

/// Reads a run of laid-out glyphs into plain values; `None` where one of
/// them has a shape that is out of the rasteriser's reach.
fn read_glyphs(glyphs: &Vec<rusttype::PositionedGlyph<'static>>) -> (rasters: Option<
    Vec<GlyphRaster>,
>)
    requires
        forall|i: int| 0 <= i < glyphs@.len() ==> glyph_measured(#[trigger] glyphs@[i]),
        forall|i: int| 0 <= i < glyphs@.len() ==> glyph_scale_within_one(#[trigger] glyphs@[i]),
    ensures
        rasters is Some <==> all_drawable(glyphs@),
        rasters matches Some(r) ==> raster_views(r@) == glyph_rasters(glyphs@),
{
    let mut rasters: Vec<GlyphRaster> = Vec::new();
    let mut i: usize = 0;
    while i < glyphs.len()
        invariant
            i <= glyphs@.len(),
            rasters@.len() == i,
            forall|j: int| 0 <= j < glyphs@.len() ==> glyph_measured(#[trigger] glyphs@[j]),
            forall|j: int|
                0 <= j < glyphs@.len() ==> glyph_scale_within_one(#[trigger] glyphs@[j]),
            forall|j: int| 0 <= j < i ==> drawable(#[trigger] glyphs@[j]),
            forall|j: int| 0 <= j < i ==> (#[trigger] rasters@[j])@ == glyph_raster(glyphs@[j]),
        decreases glyphs@.len() - i,
    {
        match read_glyph(&glyphs[i]) {
            Some(raster) => {
                rasters.push(raster);
            },
            None => {
                return None;
            },
        }
        i = i + 1;
    }
    proof {
        assert(raster_views(rasters@) =~= glyph_rasters(glyphs@));
    }
    Some(rasters)
}

/// Draws a text with a font, at a pixel size, in a colour, for a place of
/// the screen.
///
/// The render holds the text image, the least rectangle around its ink, and
/// the rectangle of the screen that the text lays claim to. It is for the
/// caller to composite the one into its destination and to refresh the
/// other. The opacity of `color` plays no part: every drawn pixel takes its
/// opacity from how much of it the glyph covers.
///
/// Nothing is drawn, and the rectangle has no area, for an empty text, for
/// one without ink inside its layout box, for one that `can_lay_out` turns
/// down, and for one with a shape out of the rasteriser's reach or an image
/// too large to hold.
pub fn draw_text(
    font: &FontHandle,
    size: &PixelSize,
    color: Rgba,
    pos: &Coord,
    msg: &str,
) -> (out: TextRender)
    ensures
        out@ == draw_text_spec(font@, size@, color, *pos, msg@),
        msg@.len() == 0 ==> out@ == empty_render(*pos),
        out.blend matches Some(t) ==> {
            &&& t.image.wf()
            &&& out.rect == (Rect {
                x: pos.x,
                y: pos.y,
                width: t.image.width,
                height: t.image.height,
            })
            &&& t.image.height == Real32::spec_ceil_sum(
                v_metrics_at(font@, size@).0,
                v_metrics_at(font@, size@).1,
            )
            &&& is_ink_box(
                glyph_rasters(laid_out(font@, size@, msg@)),
                t.image.width as int,
                t.image.height as int,
                t.ink,
            )
            &&& msg@.len() == 1 ==> t.image.width == glyph_advance(
                laid_out(font@, size@, msg@)[0],
            ).spec_ceil()
        },
{
    if !font.can_lay_out(size, msg) {
        return TextRender::empty(pos);
    }
    let (ascent, descent) = v_metrics(font, size);
    let glyphs = layout(font, size, msg);
    match read_glyphs(&glyphs) {
        None => TextRender::empty(pos),
        Some(rasters) => {
            let out = render_glyphs(ascent, descent, &rasters, color, pos);
            proof {
                lemma_no_glyphs_no_ink(ascent, descent, raster_views(rasters@), color, *pos);
                if out.blend is Some {
                    lemma_drawn_extent(ascent, descent, raster_views(rasters@), color, *pos);
                }
            }
            out
        },
    }
}

/// Drawing is repeatable: the same font, size, colour, place and text give
/// the same render each time.
pub proof fn lemma_draw_text_repeatable(
    data: Seq<u8>,
    size: Real32,
    color: Rgba,
    pos: Coord,
    text: Seq<char>,
    first: TextRenderView,
    second: TextRenderView,
)
    requires
        first == draw_text_spec(data, size, color, pos, text),
        second == draw_text_spec(data, size, color, pos, text),
    ensures
        first == second,
{
}

/// A text of one glyph, laid out at pen position 0 and within the
/// rasteriser's reach, claims a rectangle at `pos` as wide as the glyph's
/// advance width, rounded up, and as high as the font's ascent and descent
/// together, rounded up, whatever its coverage and colour: all it takes is
/// that some of its ink falls into that rectangle, and that the rectangle
/// has no more pixels than an image may have.
pub proof fn lemma_single_glyph_drawn(
    data: Seq<u8>,
    size: Real32,
    color: Rgba,
    pos: Coord,
    text: Seq<char>,
)
    requires
        lays_out(data, size, text),
        all_drawable(laid_out(data, size, text)),
        laid_out(data, size, text).len() == 1,
        glyph_pen_x(laid_out(data, size, text)[0]).bits == 0,
        any_marked(
            glyph_rasters(laid_out(data, size, text)),
            glyph_advance(laid_out(data, size, text)[0]).spec_ceil(),
            Real32::spec_ceil_sum(v_metrics_at(data, size).0, v_metrics_at(data, size).1),
        ),
        glyph_advance(laid_out(data, size, text)[0]).spec_ceil() * Real32::spec_ceil_sum(
            v_metrics_at(data, size).0,
            v_metrics_at(data, size).1,
        ) <= max_pixels(),
    ensures
        draw_text_spec(data, size, color, pos, text).blend is Some,
        draw_text_spec(data, size, color, pos, text).rect == (Rect {
            x: pos.x,
            y: pos.y,
            width: glyph_advance(laid_out(data, size, text)[0]).spec_ceil() as usize,
            height: Real32::spec_ceil_sum(
                v_metrics_at(data, size).0,
                v_metrics_at(data, size).1,
            ) as usize,
        }),
{
    let glyphs = glyph_rasters(laid_out(data, size, text));
    assert(glyphs =~= seq![glyphs[0]]);
    lemma_single_glyph_rect(
        v_metrics_at(data, size).0,
        v_metrics_at(data, size).1,
        glyphs[0],
        color,
        pos,
    );
}

} // verus!
