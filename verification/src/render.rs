//! Compositing a run of laid-out glyphs into a tightly bounded text image.

use vstd::prelude::*;
use crate::glyph::{raster_views, GlyphInk, GlyphRaster, InkView, PixelBox, RasterView};
use crate::image::{lemma_pixel_index, max_pixels, Coord, Image, ImageView, Rect, Rgba};
use crate::real32::Real32;

verus! {

/// The height of the text image: `ceil(ascent + descent)`.
pub open spec fn layout_height(ascent: Real32, descent: Real32) -> int {
    Real32::spec_ceil_sum(ascent, descent)
}

/// The width of the text image: where the pen stands after the last glyph,
/// rounded up, and 0 for a run without glyphs.
pub open spec fn layout_width(glyphs: Seq<RasterView>) -> int {
    if glyphs.len() == 0 {
        0
    } else {
        Real32::spec_ceil_sum(glyphs.last().pen_x, glyphs.last().advance)
    }
}

/// The opacity of the topmost mark on pixel `(x, y)`: that of the last glyph
/// of the run that marks the pixel, and `None` where no glyph does.
pub open spec fn opacity_at(glyphs: Seq<RasterView>, x: int, y: int) -> Option<u8>
    decreases glyphs.len(),
{
    if glyphs.len() == 0 {
        None
    } else {
        match glyphs.last().opacity_at(x, y) {
            Some(a) => Some(a),
            None => opacity_at(glyphs.drop_last(), x, y),
        }
    }
}

/// The colour of a pixel in the text image: the text colour at the opacity
/// of its mark, or transparent where it has none.
pub open spec fn paint(color: Rgba, opacity: Option<u8>) -> Rgba {
    match opacity {
        Some(a) => color.spec_with_alpha(a),
        None => Rgba::spec_transparent(),
    }
}

/// The colour of pixel `(x, y)` of the text image.
pub open spec fn pixel_at(glyphs: Seq<RasterView>, color: Rgba, x: int, y: int) -> Rgba {
    paint(color, opacity_at(glyphs, x, y))
}

/// The pixels of the text image, one row after another.
pub open spec fn text_pixels(glyphs: Seq<RasterView>, color: Rgba, width: int, height: int) -> Seq<Rgba> {
    Seq::new((width * height) as nat, |i: int| pixel_at(glyphs, color, i % width, i / width))
}

/// Whether `(x, y)` is a pixel of the image that some glyph marks.
pub open spec fn marked(glyphs: Seq<RasterView>, width: int, height: int, x: int, y: int) -> bool {
    0 <= x < width && 0 <= y < height && opacity_at(glyphs, x, y) is Some
}

/// Whether the run marks any pixel of the image.
pub open spec fn any_marked(glyphs: Seq<RasterView>, width: int, height: int) -> bool {
    exists|x: int, y: int| marked(glyphs, width, height, x, y)
}

/// Whether the run marks a pixel in column `x` of the image.
pub open spec fn column_marked(glyphs: Seq<RasterView>, width: int, height: int, x: int) -> bool {
    exists|y: int| marked(glyphs, width, height, x, y)
}

/// Whether the run marks a pixel in row `y` of the image.
pub open spec fn row_marked(glyphs: Seq<RasterView>, width: int, height: int, y: int) -> bool {
    exists|x: int| marked(glyphs, width, height, x, y)
}

/// Whether `r` is the least rectangle that holds every marked pixel: all of
/// them lie in it, and its first and last columns and rows each hold one.
pub open spec fn is_ink_box(glyphs: Seq<RasterView>, width: int, height: int, r: Rect) -> bool {
    &&& forall|x: int, y: int| marked(glyphs, width, height, x, y) ==> r.contains(x, y)
    &&& column_marked(glyphs, width, height, r.x as int)
    &&& column_marked(glyphs, width, height, r.x + r.width - 1)
    &&& row_marked(glyphs, width, height, r.y as int)
    &&& row_marked(glyphs, width, height, r.y + r.height - 1)
}

/// The least rectangle that holds every marked pixel, where there is one.
pub open spec fn ink_box(glyphs: Seq<RasterView>, width: int, height: int) -> Rect {
    choose|r: Rect| is_ink_box(glyphs, width, height, r)
}

/// At most one rectangle is the ink box of a run.
pub proof fn lemma_ink_box_unique(glyphs: Seq<RasterView>, width: int, height: int, r: Rect, s: Rect)
    requires
        is_ink_box(glyphs, width, height, r),
        is_ink_box(glyphs, width, height, s),
    ensures
        r == s,
{
    let (r_right, r_below): (int, int) = (r.x + r.width - 1, r.y + r.height - 1);
    let (s_right, s_below): (int, int) = (s.x + s.width - 1, s.y + s.height - 1);
    let y0 = choose|y: int| marked(glyphs, width, height, r.x as int, y);
    let y1 = choose|y: int| marked(glyphs, width, height, r_right, y);
    let x0 = choose|x: int| marked(glyphs, width, height, x, r.y as int);
    let x1 = choose|x: int| marked(glyphs, width, height, x, r_below);
    assert(s.contains(r.x as int, y0));
    assert(s.contains(r_right, y1));
    assert(s.contains(x0, r.y as int));
    assert(s.contains(x1, r_below));
    let v0 = choose|y: int| marked(glyphs, width, height, s.x as int, y);
    let v1 = choose|y: int| marked(glyphs, width, height, s_right, y);
    let u0 = choose|x: int| marked(glyphs, width, height, x, s.y as int);
    let u1 = choose|x: int| marked(glyphs, width, height, x, s_below);
    assert(r.contains(s.x as int, v0));
    assert(r.contains(s_right, v1));
    assert(r.contains(u0, s.y as int));
    assert(r.contains(u1, s_below));
}

/// What a text image holds: the image and, within it, the least rectangle
/// around what was drawn.
pub struct TextImageView {
    pub image: ImageView,
    pub ink: Rect,
}

/// The image of a rendered text, as large as its layout, and the part of it
/// that holds ink. Only that part needs compositing.
#[derive(Debug)]
pub struct TextImage {
    pub image: Image,
    pub ink: Rect,
}

impl View for TextImage {
    type V = TextImageView;

    open spec fn view(&self) -> TextImageView {
        TextImageView { image: self.image@, ink: self.ink }
    }
}

/// What a render holds.
pub struct TextRenderView {
    pub rect: Rect,
    pub blend: Option<TextImageView>,
}

/// The outcome of rendering a text at a place of the screen.
///
/// `rect` is the part of the screen that the text lays claim to: its whole
/// layout box where something was drawn, and a rectangle without area where
/// nothing was. `blend` is what to composite with its top left corner at
/// `rect`'s; it is `None` exactly where nothing was drawn.
#[derive(Debug)]
pub struct TextRender {
    pub rect: Rect,
    pub blend: Option<TextImage>,
}

impl View for TextRender {
    type V = TextRenderView;

    open spec fn view(&self) -> TextRenderView {
        TextRenderView {
            rect: self.rect,
            blend: match self.blend {
                Some(t) => Some(t@),
                None => None,
            },
        }
    }
}

/// The render that draws nothing at `pos`.
pub open spec fn empty_render(pos: Coord) -> TextRenderView {
    TextRenderView { rect: Rect { x: pos.x, y: pos.y, width: 0, height: 0 }, blend: None }
}

/// The render of a run of glyphs in a font of the given ascent and descent.
///
/// Nothing is drawn where the run marks no pixel of its layout box, or
/// where that box has more pixels than an image may have.
pub open spec fn render_spec(
    ascent: Real32,
    descent: Real32,
    glyphs: Seq<RasterView>,
    color: Rgba,
    pos: Coord,
) -> TextRenderView {
    let width = layout_width(glyphs);
    let height = layout_height(ascent, descent);
    if width * height > max_pixels() || !any_marked(glyphs, width, height) {
        empty_render(pos)
    } else {
        TextRenderView {
            rect: Rect { x: pos.x, y: pos.y, width: width as usize, height: height as usize },
            blend: Some(
                TextImageView {
                    image: ImageView {
                        width: width as nat,
                        height: height as nat,
                        pixels: text_pixels(glyphs, color, width, height),
                    },
                    ink: ink_box(glyphs, width, height),
                },
            ),
        }
    }
}

impl TextRender {
    /// The render that draws nothing at `pos`.
    pub fn empty(pos: &Coord) -> (out: TextRender)
        ensures
            out@ == empty_render(*pos),
    {
        TextRender { rect: Rect { x: pos.x, y: pos.y, width: 0, height: 0 }, blend: None }
    }
}

/// Whether a buffer of `width * height` pixels shows the run `glyphs`.
spec fn canvas_shows(pixels: Seq<Rgba>, width: int, height: int, color: Rgba, glyphs: Seq<RasterView>) -> bool {
    &&& pixels.len() == width * height
    &&& forall|x: int, y: int|
        0 <= x < width && 0 <= y < height ==> pixels[y * width + x] == paint(
            color,
            #[trigger] opacity_at(glyphs, x, y),
        )
}

/// The pixels of the image that the run marks.
spec fn marks_of(glyphs: Seq<RasterView>, width: int, height: int) -> Set<(int, int)> {
    Set::new(|p: (int, int)| marked(glyphs, width, height, p.0, p.1))
}

/// Whether pixel `(x, y)` belongs to a cell of the box that comes before
/// column `col` of row `row`, rows first.
spec fn cell_done(b: PixelBox, row: int, col: int, x: int, y: int) -> bool {
    b.contains(x, y) && (y - b.min_y < row || (y - b.min_y == row && x - b.min_x < col))
}

/// The opacity of pixel `(x, y)` once the run `before` is drawn and, over
/// it, the cells of `ink` that come before column `col` of row `row`.
spec fn staged_opacity(before: Seq<RasterView>, ink: InkView, row: int, col: int, x: int, y: int) -> Option<u8> {
    if cell_done(ink.bounds, row, col, x, y) && ink.opacity_at(x, y) is Some {
        ink.opacity_at(x, y)
    } else {
        opacity_at(before, x, y)
    }
}

spec fn canvas_staged(
    pixels: Seq<Rgba>,
    width: int,
    height: int,
    color: Rgba,
    before: Seq<RasterView>,
    ink: InkView,
    row: int,
    col: int,
) -> bool {
    &&& pixels.len() == width * height
    &&& forall|x: int, y: int|
        0 <= x < width && 0 <= y < height ==> pixels[y * width + x] == paint(
            color,
            #[trigger] staged_opacity(before, ink, row, col, x, y),
        )
}

spec fn staged_marks(before: Seq<RasterView>, ink: InkView, width: int, height: int, row: int, col: int) -> Set<(int, int)> {
    Set::new(
        |p: (int, int)|
            0 <= p.0 < width && 0 <= p.1 < height && staged_opacity(before, ink, row, col, p.0, p.1) is Some,
    )
}

/// The box around the pixels marked so far; `max_x` and `max_y` are the last
/// column and row that hold a mark.
struct InkTracker {
    any: bool,
    min_x: usize,
    min_y: usize,
    max_x: usize,
    max_y: usize,
}

impl InkTracker {
    spec fn tracks(self, marks: Set<(int, int)>) -> bool {
        if self.any {
            &&& forall|p: (int, int)| #[trigger]
                marks.contains(p) ==> self.min_x <= p.0 <= self.max_x && self.min_y <= p.1 <= self.max_y
            &&& exists|p: (int, int)| #[trigger] marks.contains(p) && p.0 == self.min_x
            &&& exists|p: (int, int)| #[trigger] marks.contains(p) && p.0 == self.max_x
            &&& exists|p: (int, int)| #[trigger] marks.contains(p) && p.1 == self.min_y
            &&& exists|p: (int, int)| #[trigger] marks.contains(p) && p.1 == self.max_y
        } else {
            forall|p: (int, int)| !marks.contains(p)
        }
    }

    fn new() -> (t: InkTracker)
        ensures
            !t.any,
    {
        InkTracker { any: false, min_x: 0, min_y: 0, max_x: 0, max_y: 0 }
    }

    fn mark(&mut self, x: usize, y: usize, Ghost(marks): Ghost<Set<(int, int)>>)
        requires
            old(self).tracks(marks),
        ensures
            final(self).tracks(marks.insert((x as int, y as int))),
    {
        let ghost after = marks.insert((x as int, y as int));
        if !self.any {
            self.any = true;
            self.min_x = x;
            self.max_x = x;
            self.min_y = y;
            self.max_y = y;
            assert(after.contains((x as int, y as int)));
        } else {
            let ghost w0 = choose|p: (int, int)| #[trigger] marks.contains(p) && p.0 == self.min_x;
            let ghost w1 = choose|p: (int, int)| #[trigger] marks.contains(p) && p.0 == self.max_x;
            let ghost w2 = choose|p: (int, int)| #[trigger] marks.contains(p) && p.1 == self.min_y;
            let ghost w3 = choose|p: (int, int)| #[trigger] marks.contains(p) && p.1 == self.max_y;
            assert(after.contains(w0) && after.contains(w1) && after.contains(w2) && after.contains(w3));
            assert(after.contains((x as int, y as int)));
            if x < self.min_x {
                self.min_x = x;
            }
            if x > self.max_x {
                self.max_x = x;
            }
            if y < self.min_y {
                self.min_y = y;
            }
            if y > self.max_y {
                self.max_y = y;
            }
        }
    }
}

/// Drawing one more cell of an ink keeps the canvas in step with
/// `staged_opacity`: `after` is the canvas once the cell in column `col` of
/// row `row` has been looked at.
proof fn lemma_cell_step(
    pixels: Seq<Rgba>,
    after: Seq<Rgba>,
    width: int,
    height: int,
    color: Rgba,
    before: Seq<RasterView>,
    ink: InkView,
    row: int,
    col: int,
)
    requires
        ink.wf(),
        0 <= row < ink.bounds.height(),
        0 <= col < ink.bounds.width(),
        canvas_staged(pixels, width, height, color, before, ink, row, col),
        ({
            let x = ink.bounds.min_x + col;
            let y = ink.bounds.min_y + row;
            if 0 <= x < width && 0 <= y < height && ink.opacity_at(x, y) is Some {
                after == pixels.update(y * width + x, paint(color, ink.opacity_at(x, y)))
            } else {
                after == pixels
            }
        }),
    ensures
        canvas_staged(after, width, height, color, before, ink, row, col + 1),
        staged_marks(before, ink, width, height, row, col + 1) == ({
            let x = ink.bounds.min_x + col;
            let y = ink.bounds.min_y + row;
            if 0 <= x < width && 0 <= y < height && ink.opacity_at(x, y) is Some {
                staged_marks(before, ink, width, height, row, col).insert((x, y))
            } else {
                staged_marks(before, ink, width, height, row, col)
            }
        }),
{
    let cx = ink.bounds.min_x + col;
    let cy = ink.bounds.min_y + row;
    let drawn = 0 <= cx < width && 0 <= cy < height && ink.opacity_at(cx, cy) is Some;
    if drawn {
        lemma_pixel_index(cx, cy, width, height);
    }
    assert forall|x: int, y: int| 0 <= x < width && 0 <= y < height implies after[y * width + x]
        == paint(color, #[trigger] staged_opacity(before, ink, row, col + 1, x, y)) by {
        lemma_pixel_index(x, y, width, height);
        let _ = staged_opacity(before, ink, row, col, x, y);
        if drawn {
            lemma_pixel_index(cx, cy, width, height);
        }
    }
    let old_marks = staged_marks(before, ink, width, height, row, col);
    let new_marks = staged_marks(before, ink, width, height, row, col + 1);
    if drawn {
        assert(new_marks =~= old_marks.insert((cx, cy)));
    } else {
        assert(new_marks =~= old_marks);
    }
}

/// Draws the ink of one glyph over a canvas that shows the run `before`,
/// and widens the tracked box by the pixels it marks.
fn plot_ink(
    buffer: &mut Vec<Rgba>,
    width: usize,
    height: usize,
    color: Rgba,
    ink: &GlyphInk,
    tracker: &mut InkTracker,
    Ghost(before): Ghost<Seq<RasterView>>,
)
    requires
        canvas_shows(old(buffer)@, width as int, height as int, color, before),
        old(tracker).tracks(marks_of(before, width as int, height as int)),
    ensures
        ink@.wf(),
        canvas_staged(
            final(buffer)@,
            width as int,
            height as int,
            color,
            before,
            ink@,
            ink@.bounds.height(),
            0,
        ),
        final(tracker).tracks(
            staged_marks(before, ink@, width as int, height as int, ink@.bounds.height(), 0),
        ),
{
    let b = ink.bounds();
    let _len: usize = buffer.len();
    let columns: u32 = b.columns();
    let rows: u32 = b.rows();
    let mut row: u32 = 0;
    let mut cell: usize = 0;
    proof {
        assert(marks_of(before, width as int, height as int) =~= staged_marks(
            before,
            ink@,
            width as int,
            height as int,
            0,
            0,
        ));
    }
    while row < rows
        invariant
            ink@.wf(),
            ink@.coverage.len() <= usize::MAX,
            width * height <= usize::MAX,
            b == ink@.bounds,
            columns == b.width(),
            rows == b.height(),
            row <= rows,
            cell == row * columns,
            canvas_staged(buffer@, width as int, height as int, color, before, ink@, row as int, 0),
            tracker.tracks(staged_marks(before, ink@, width as int, height as int, row as int, 0)),
        decreases rows - row,
    {
        let y: i64 = b.min_y as i64 + row as i64;
        let mut col: u32 = 0;
        while col < columns
            invariant
                ink@.wf(),
                ink@.coverage.len() <= usize::MAX,
                width * height <= usize::MAX,
                b == ink@.bounds,
                columns == b.width(),
                rows == b.height(),
                row < rows,
                col <= columns,
                y == b.min_y + row,
                cell == row * columns + col,
                canvas_staged(buffer@, width as int, height as int, color, before, ink@, row as int, col as int),
                tracker.tracks(
                    staged_marks(before, ink@, width as int, height as int, row as int, col as int),
                ),
            decreases columns - col,
        {
            proof {
                assert(row * columns + col < columns * rows) by (nonlinear_arith)
                    requires
                        0 <= row < rows,
                        0 <= col < columns,
                {
                    assert((row + 1) * columns <= rows * columns);
                }
                assert(b.cell(b.min_x + col, b.min_y + row) == row * columns + col);
            }
            let v = ink.coverage_at(cell);
            let x: i64 = b.min_x as i64 + col as i64;
            let ghost pixels = buffer@;
            let ghost marks = staged_marks(before, ink@, width as int, height as int, row as int, col as int);
            if v.is_positive() && 0 <= x && (x as u64) < (width as u64) && 0 <= y && (y as u64) < (
            height as u64) {
                let px: usize = x as usize;
                let py: usize = y as usize;
                proof {
                    lemma_pixel_index(px as int, py as int, width as int, height as int);
                }
                buffer.set(py * width + px, color.with_alpha(v.alpha()));
                tracker.mark(px, py, Ghost(marks));
            }
            proof {
                lemma_cell_step(
                    pixels,
                    buffer@,
                    width as int,
                    height as int,
                    color,
                    before,
                    ink@,
                    row as int,
                    col as int,
                );
            }
            col = col + 1;
            cell = cell + 1;
        }
        proof {
            assert(row * columns + columns == (row + 1) * columns) by (nonlinear_arith);
            assert forall|x: int, y: int| 0 <= x < width && 0 <= y < height implies buffer@[y * width
                + x] == paint(color, #[trigger] staged_opacity(before, ink@, row + 1, 0, x, y)) by {
                let _ = staged_opacity(before, ink@, row as int, columns as int, x, y);
            }
            assert(staged_marks(before, ink@, width as int, height as int, row as int, columns as int)
                =~= staged_marks(before, ink@, width as int, height as int, row + 1, 0));
        }
        row = row + 1;
    }
}

/// One more glyph at the end of a run lies over the marks of the others.
proof fn lemma_opacity_push(before: Seq<RasterView>, glyph: RasterView, x: int, y: int)
    ensures
        opacity_at(before.push(glyph), x, y) == match glyph.opacity_at(x, y) {
            Some(a) => Some(a),
            None => opacity_at(before, x, y),
        },
{
    assert(before.push(glyph).drop_last() =~= before);
}

/// A canvas on which every cell of a glyph's ink has been drawn over the
/// run `before` shows the run with that glyph at its end.
proof fn lemma_ink_done(
    pixels: Seq<Rgba>,
    width: int,
    height: int,
    color: Rgba,
    before: Seq<RasterView>,
    glyph: RasterView,
)
    requires
        glyph.ink is Some,
        glyph.ink->0.wf(),
        canvas_staged(pixels, width, height, color, before, glyph.ink->0, glyph.ink->0.bounds.height(), 0),
    ensures
        canvas_shows(pixels, width, height, color, before.push(glyph)),
        staged_marks(before, glyph.ink->0, width, height, glyph.ink->0.bounds.height(), 0) == marks_of(
            before.push(glyph),
            width,
            height,
        ),
{
    let ink = glyph.ink->0;
    let rows = ink.bounds.height();
    assert forall|x: int, y: int| #[trigger]
        opacity_at(before.push(glyph), x, y) == staged_opacity(before, ink, rows, 0, x, y) by {
        lemma_opacity_push(before, glyph, x, y);
    }
    assert forall|x: int, y: int| 0 <= x < width && 0 <= y < height implies pixels[y * width + x]
        == paint(color, #[trigger] opacity_at(before.push(glyph), x, y)) by {
        let _ = staged_opacity(before, ink, rows, 0, x, y);
    }
    assert(staged_marks(before, ink, width, height, rows, 0) =~= marks_of(
        before.push(glyph),
        width,
        height,
    ));
}

/// A glyph without ink leaves the canvas as it was.
proof fn lemma_ink_absent(
    pixels: Seq<Rgba>,
    width: int,
    height: int,
    color: Rgba,
    before: Seq<RasterView>,
    glyph: RasterView,
)
    requires
        glyph.ink is None,
        canvas_shows(pixels, width, height, color, before),
    ensures
        canvas_shows(pixels, width, height, color, before.push(glyph)),
        marks_of(before, width, height) == marks_of(before.push(glyph), width, height),
{
    assert forall|x: int, y: int| #[trigger]
        opacity_at(before.push(glyph), x, y) == opacity_at(before, x, y) by {
        lemma_opacity_push(before, glyph, x, y);
    }
    assert forall|x: int, y: int| 0 <= x < width && 0 <= y < height implies pixels[y * width + x]
        == paint(color, #[trigger] opacity_at(before.push(glyph), x, y)) by {
        let _ = opacity_at(before, x, y);
    }
    assert(marks_of(before, width, height) =~= marks_of(before.push(glyph), width, height));
}

/// A canvas that shows a run holds exactly the pixels of its text image.
proof fn lemma_canvas_is_text(
    pixels: Seq<Rgba>,
    width: int,
    height: int,
    color: Rgba,
    glyphs: Seq<RasterView>,
)
    requires
        0 <= width,
        0 <= height,
        canvas_shows(pixels, width, height, color, glyphs),
    ensures
        pixels == text_pixels(glyphs, color, width, height),
{
    let text = text_pixels(glyphs, color, width, height);
    assert(width * height >= 0) by (nonlinear_arith)
        requires
            0 <= width,
            0 <= height,
    ;
    assert forall|i: int| 0 <= i < pixels.len() implies pixels[i] == text[i] by {
        assert(width > 0) by (nonlinear_arith)
            requires
                0 <= width,
                0 <= i < width * height,
        ;
        let x = i % width;
        let y = i / width;
        vstd::arithmetic::div_mod::lemma_fundamental_div_mod(i, width);
        assert(i == y * width + x) by (nonlinear_arith)
            requires
                i == width * y + x,
        ;
        assert(y < height) by (nonlinear_arith)
            requires
                y * width + x < width * height,
                0 <= x,
                0 < width,
        ;
        assert(0 <= y) by (nonlinear_arith)
            requires
                0 <= y * width + x,
                x < width,
                0 < width,
        ;
        let _ = opacity_at(glyphs, x, y);
    }
    assert(pixels =~= text);
}

/// Lays a run of glyphs out into an image and draws them into it.
///
/// The image is as wide as the pen travels and as high as ascent and descent
/// together. Every pixel that a glyph covers by more than nothing takes the
/// red, green and blue of `color` and an opacity that follows its coverage;
/// where glyphs overlap the later one stays. The render's `ink` is the least
/// rectangle around those pixels.
pub fn render_glyphs(
    ascent: Real32,
    descent: Real32,
    glyphs: &Vec<GlyphRaster>,
    color: Rgba,
    pos: &Coord,
) -> (out: TextRender)
    ensures
        out@ == render_spec(ascent, descent, raster_views(glyphs@), color, *pos),
        out.blend matches Some(t) ==> t.image.wf() && is_ink_box(
            raster_views(glyphs@),
            t.image.width as int,
            t.image.height as int,
            t.ink,
        ),
{
    let ghost views = raster_views(glyphs@);
    let count: usize = glyphs.len();
    let height: usize = Real32::ceil_sum(ascent, descent);
    let width: usize = if count == 0 {
        0
    } else {
        Real32::ceil_sum(glyphs[count - 1].pen_x, glyphs[count - 1].advance)
    };
    let image = match Image::blank(width, height) {
        Some(image) => image,
        None => {
            return TextRender::empty(pos);
        },
    };
    let mut buffer = image.buffer;
    let mut tracker = InkTracker::new();
    proof {
        assert(views.take(0) =~= Seq::<RasterView>::empty());
        assert forall|x: int, y: int| 0 <= x < width && 0 <= y < height implies buffer@[y * width + x]
            == paint(color, #[trigger] opacity_at(views.take(0), x, y)) by {
            lemma_pixel_index(x, y, width as int, height as int);
        }
    }
    let mut i: usize = 0;
    while i < count
        invariant
            i <= count,
            count == glyphs@.len(),
            views == raster_views(glyphs@),
            width * height <= usize::MAX,
            canvas_shows(buffer@, width as int, height as int, color, views.take(i as int)),
            tracker.tracks(marks_of(views.take(i as int), width as int, height as int)),
        decreases count - i,
    {
        let ghost before = views.take(i as int);
        proof {
            assert(views.take(i + 1) =~= before.push(views[i as int]));
        }
        match &glyphs[i].ink {
            Some(ink) => {
                plot_ink(&mut buffer, width, height, color, ink, &mut tracker, Ghost(before));
                proof {
                    lemma_ink_done(buffer@, width as int, height as int, color, before, views[i as int]);
                }
            },
            None => {
                proof {
                    lemma_ink_absent(buffer@, width as int, height as int, color, before, views[i as int]);
                }
            },
        }
        i = i + 1;
    }
    proof {
        assert(views.take(count as int) =~= views);
        lemma_canvas_is_text(buffer@, width as int, height as int, color, views);
    }
    let ghost marks = marks_of(views, width as int, height as int);
    if !tracker.any {
        proof {
            if any_marked(views, width as int, height as int) {
                let (x, y) = choose|x: int, y: int| marked(views, width as int, height as int, x, y);
                assert(marks.contains((x, y)));
            }
        }
        return TextRender::empty(pos);
    }
    proof {
        let w0 = choose|p: (int, int)| #[trigger] marks.contains(p) && p.0 == tracker.min_x;
        let w1 = choose|p: (int, int)| #[trigger] marks.contains(p) && p.0 == tracker.max_x;
        let w2 = choose|p: (int, int)| #[trigger] marks.contains(p) && p.1 == tracker.min_y;
        let w3 = choose|p: (int, int)| #[trigger] marks.contains(p) && p.1 == tracker.max_y;
        assert(marked(views, width as int, height as int, w0.0, w0.1));
        assert(marked(views, width as int, height as int, w1.0, w1.1));
        assert(marked(views, width as int, height as int, w2.0, w2.1));
        assert(marked(views, width as int, height as int, w3.0, w3.1));
    }
    let ink = Rect {
        x: tracker.min_x,
        y: tracker.min_y,
        width: tracker.max_x - tracker.min_x + 1,
        height: tracker.max_y - tracker.min_y + 1,
    };
    proof {
        assert forall|x: int, y: int| marked(views, width as int, height as int, x, y) implies ink.contains(
            x,
            y,
        ) by {
            assert(marks.contains((x, y)));
        }
        assert(is_ink_box(views, width as int, height as int, ink));
        lemma_ink_box_unique(
            views,
            width as int,
            height as int,
            ink,
            ink_box(views, width as int, height as int),
        );
    }
    TextRender {
        rect: Rect { x: pos.x, y: pos.y, width, height },
        blend: Some(TextImage { image: Image { buffer, width, height }, ink }),
    }
}

/// A run without glyphs draws nothing.
pub proof fn lemma_no_glyphs_no_ink(
    ascent: Real32,
    descent: Real32,
    glyphs: Seq<RasterView>,
    color: Rgba,
    pos: Coord,
)
    ensures
        glyphs.len() == 0 ==> render_spec(ascent, descent, glyphs, color, pos) == empty_render(pos),
{
}

/// A render is a function of what is rendered: the same metrics, glyphs,
/// colour and place give the same rectangle, image and ink box each time.
pub proof fn lemma_render_repeatable(
    ascent: Real32,
    descent: Real32,
    glyphs: Seq<RasterView>,
    color: Rgba,
    pos: Coord,
    first: TextRenderView,
    second: TextRenderView,
)
    requires
        first == render_spec(ascent, descent, glyphs, color, pos),
        second == render_spec(ascent, descent, glyphs, color, pos),
    ensures
        first == second,
{
}

/// A render that draws something claims the whole layout box: as wide as
/// the pen travels, as high as ascent and descent together. For a single
/// glyph set at pen position 0 the width is its advance width, rounded up.
pub proof fn lemma_drawn_extent(
    ascent: Real32,
    descent: Real32,
    glyphs: Seq<RasterView>,
    color: Rgba,
    pos: Coord,
)
    requires
        render_spec(ascent, descent, glyphs, color, pos).blend is Some,
    ensures
        glyphs.len() > 0,
        render_spec(ascent, descent, glyphs, color, pos).rect.width >= 1,
        render_spec(ascent, descent, glyphs, color, pos).rect.height >= 1,
        render_spec(ascent, descent, glyphs, color, pos).rect.x == pos.x,
        render_spec(ascent, descent, glyphs, color, pos).rect.y == pos.y,
        render_spec(ascent, descent, glyphs, color, pos).rect.width == Real32::spec_ceil_sum(
            glyphs.last().pen_x,
            glyphs.last().advance,
        ),
        render_spec(ascent, descent, glyphs, color, pos).rect.height == Real32::spec_ceil_sum(
            ascent,
            descent,
        ),
        glyphs.len() == 1 && glyphs[0].pen_x.bits == 0 ==> render_spec(
            ascent,
            descent,
            glyphs,
            color,
            pos,
        ).rect.width == glyphs[0].advance.spec_ceil(),
{
    lemma_layout_within_usize(ascent, descent, glyphs);
    let width = layout_width(glyphs);
    let height = layout_height(ascent, descent);
    let (x, y) = choose|x: int, y: int| marked(glyphs, width, height, x, y);
    assert(marked(glyphs, width, height, x, y));
    if glyphs.len() == 1 && glyphs[0].pen_x.bits == 0 {
        glyphs[0].advance.lemma_ceil_sum_from_zero(glyphs[0].pen_x);
    }
}

/// Width and height of a layout are lengths that `usize` holds.
pub proof fn lemma_layout_within_usize(ascent: Real32, descent: Real32, glyphs: Seq<RasterView>)
    ensures
        0 <= layout_width(glyphs) <= usize::MAX,
        0 <= layout_height(ascent, descent) <= usize::MAX,
{
}

/// Outside the ink box the text image is untouched: every pixel of the
/// image that lies outside it is transparent.
pub proof fn lemma_outside_ink_transparent(
    glyphs: Seq<RasterView>,
    color: Rgba,
    width: int,
    height: int,
    ink: Rect,
    x: int,
    y: int,
)
    requires
        is_ink_box(glyphs, width, height, ink),
        0 <= x < width,
        0 <= y < height,
        !ink.contains(x, y),
    ensures
        pixel_at(glyphs, color, x, y) == Rgba::spec_transparent(),
        text_pixels(glyphs, color, width, height)[y * width + x] == Rgba::spec_transparent(),
        ink_box(glyphs, width, height) == ink,
{
    assert(!marked(glyphs, width, height, x, y));
    lemma_pixel_index(x, y, width, height);
    lemma_ink_box_unique(glyphs, width, height, ink, ink_box(glyphs, width, height));
}

/// The ink box lies inside the image and has at least one pixel.
pub proof fn lemma_ink_box_inside(glyphs: Seq<RasterView>, width: int, height: int, ink: Rect)
    requires
        is_ink_box(glyphs, width, height, ink),
    ensures
        ink.width >= 1,
        ink.height >= 1,
        ink.x + ink.width <= width,
        ink.y + ink.height <= height,
{
    let right: int = ink.x + ink.width - 1;
    let below: int = ink.y + ink.height - 1;
    let y0 = choose|y: int| marked(glyphs, width, height, ink.x as int, y);
    let y1 = choose|y: int| marked(glyphs, width, height, right, y);
    let x1 = choose|x: int| marked(glyphs, width, height, x, below);
    assert(ink.contains(ink.x as int, y0));
    assert(marked(glyphs, width, height, right, y1));
    assert(marked(glyphs, width, height, x1, below));
}

/// A single glyph set at pen position 0 claims a rectangle as wide as its
/// advance width, rounded up, and as high as ascent and descent together,
/// rounded up, whatever its coverage, its colour and the extent of its ink:
/// all it takes is that some of the ink falls into that rectangle, and that
/// the rectangle has no more pixels than an image may have.
pub proof fn lemma_single_glyph_rect(
    ascent: Real32,
    descent: Real32,
    glyph: RasterView,
    color: Rgba,
    pos: Coord,
)
    requires
        glyph.pen_x.bits == 0,
        any_marked(seq![glyph], glyph.advance.spec_ceil(), Real32::spec_ceil_sum(ascent, descent)),
        glyph.advance.spec_ceil() * Real32::spec_ceil_sum(ascent, descent) <= max_pixels(),
    ensures
        render_spec(ascent, descent, seq![glyph], color, pos).blend is Some,
        render_spec(ascent, descent, seq![glyph], color, pos).rect == (Rect {
            x: pos.x,
            y: pos.y,
            width: glyph.advance.spec_ceil() as usize,
            height: Real32::spec_ceil_sum(ascent, descent) as usize,
        }),
{
    glyph.advance.lemma_ceil_sum_from_zero(glyph.pen_x);
    assert(seq![glyph].last() == glyph);
}

} // verus!
