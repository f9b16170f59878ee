//! A laid-out glyph as plain values: where it stands, how far it moves the
//! pen, and how much of each pixel it covers.

use vstd::prelude::*;
use crate::real32::Real32;

verus! {

/// A pixel-aligned box in image coordinates. `min` is the first column and
/// row inside the box, `max` the first ones beyond it.
#[derive(Clone, Copy, Debug, PartialEq, Eq, Structural)]
pub struct PixelBox {
    pub min_x: i32,
    pub min_y: i32,
    pub max_x: i32,
    pub max_y: i32,
}

impl PixelBox {
    pub fn new(min_x: i32, min_y: i32, max_x: i32, max_y: i32) -> (b: PixelBox)
        ensures
            b == (PixelBox { min_x, min_y, max_x, max_y }),
    {
        PixelBox { min_x, min_y, max_x, max_y }
    }

    /// Whether neither side of the box has a negative length.
    pub open spec fn spec_ordered(self) -> bool {
        self.min_x <= self.max_x && self.min_y <= self.max_y
    }

    #[verifier::when_used_as_spec(spec_ordered)]
    pub fn ordered(self) -> (b: bool)
        ensures
            b == self.spec_ordered(),
    {
        self.min_x <= self.max_x && self.min_y <= self.max_y
    }

    /// The number of columns.
    pub open spec fn width(self) -> int {
        self.max_x - self.min_x
    }

    /// The number of rows.
    pub open spec fn height(self) -> int {
        self.max_y - self.min_y
    }

    /// The number of pixels in the box.
    pub open spec fn area(self) -> int {
        self.width() * self.height()
    }

    /// Whether the pixel `(x, y)` lies in the box.
    pub open spec fn contains(self, x: int, y: int) -> bool {
        self.min_x <= x < self.max_x && self.min_y <= y < self.max_y
    }

    /// The place of pixel `(x, y)` in a row-major list of the box's pixels.
    pub open spec fn cell(self, x: int, y: int) -> int {
        (y - self.min_y) * self.width() + (x - self.min_x)
    }

    /// The number of columns of an ordered box.
    pub fn columns(self) -> (n: u32)
        requires
            self.spec_ordered(),
        ensures
            n == self.width(),
    {
        (self.max_x as i64 - self.min_x as i64) as u32
    }

    /// The number of rows of an ordered box.
    pub fn rows(self) -> (n: u32)
        requires
            self.spec_ordered(),
        ensures
            n == self.height(),
    {
        (self.max_y as i64 - self.min_y as i64) as u32
    }

    /// The number of pixels of an ordered box.
    pub fn pixel_count(self) -> (n: u64)
        requires
            self.spec_ordered(),
        ensures
            n == self.area(),
    {
        let w: u64 = self.columns() as u64;
        let h: u64 = self.rows() as u64;
        assert(w * h <= 0xFFFF_FFFF * 0xFFFF_FFFF) by (nonlinear_arith)
            requires
                w <= 0xFFFF_FFFF,
                h <= 0xFFFF_FFFF,
        ;
        w * h
    }
}

/// What the ink of a glyph holds: its box and the coverage of each of the
/// box's pixels, one row after another.
pub struct InkView {
    pub bounds: PixelBox,
    pub coverage: Seq<Real32>,
}

impl InkView {
    /// Whether there is one coverage value for each pixel of an ordered box.
    pub open spec fn wf(self) -> bool {
        self.bounds.spec_ordered() && self.coverage.len() == self.bounds.area()
    }

    /// The opacity that the ink gives to pixel `(x, y)`, if it marks it at
    /// all: the pixel must lie in the box and have a positive coverage.
    pub open spec fn opacity_at(self, x: int, y: int) -> Option<u8> {
        if self.bounds.contains(x, y) && self.coverage[self.bounds.cell(x, y)].spec_is_positive() {
            Some(self.coverage[self.bounds.cell(x, y)].spec_alpha() as u8)
        } else {
            None
        }
    }
}

/// The rasterised shape of one glyph. Holds one coverage value for each
/// pixel of its box, always.
#[derive(Debug)]
pub struct GlyphInk {
    bounds: PixelBox,
    coverage: Vec<Real32>,
}

impl View for GlyphInk {
    type V = InkView;

    closed spec fn view(&self) -> InkView {
        InkView { bounds: self.bounds, coverage: self.coverage@ }
    }
}

impl GlyphInk {
    #[verifier::type_invariant]
    spec fn inv(&self) -> bool {
        self@.wf()
    }

    /// Puts a box and its coverage values together; `None` where the box is
    /// not ordered or the number of values is not that of its pixels.
    pub fn new(bounds: PixelBox, coverage: Vec<Real32>) -> (ink: Option<GlyphInk>)
        ensures
            ink is Some <==> (InkView { bounds, coverage: coverage@ }).wf(),
            ink matches Some(i) ==> i@ == (InkView { bounds, coverage: coverage@ }),
    {
        if bounds.ordered() && bounds.pixel_count() == coverage.len() as u64 {
            Some(GlyphInk { bounds, coverage })
        } else {
            None
        }
    }

    pub fn bounds(&self) -> (b: PixelBox)
        ensures
            b == self@.bounds,
            self@.wf(),
            self@.coverage.len() <= usize::MAX,
    {
        proof {
            use_type_invariant(self);
        }
        let _len: usize = self.coverage.len();
        self.bounds
    }

    /// The coverage of the `i`-th pixel of the box, rows first.
    pub fn coverage_at(&self, i: usize) -> (v: Real32)
        requires
            i < self@.coverage.len(),
        ensures
            v == self@.coverage[i as int],
    {
        self.coverage[i]
    }
}

/// What a laid-out glyph holds.
pub struct RasterView {
    pub pen_x: Real32,
    pub advance: Real32,
    pub ink: Option<InkView>,
}

impl RasterView {
    /// The opacity that the glyph gives to pixel `(x, y)`, if it marks it.
    pub open spec fn opacity_at(self, x: int, y: int) -> Option<u8> {
        match self.ink {
            Some(ink) => ink.opacity_at(x, y),
            None => None,
        }
    }
}

/// One glyph of a laid-out line: the horizontal pen position it was set at,
/// the width it advances the pen by, and its ink, if it has a shape.
#[derive(Debug)]
pub struct GlyphRaster {
    pub pen_x: Real32,
    pub advance: Real32,
    pub ink: Option<GlyphInk>,
}

impl View for GlyphRaster {
    type V = RasterView;

    open spec fn view(&self) -> RasterView {
        RasterView {
            pen_x: self.pen_x,
            advance: self.advance,
            ink: match self.ink {
                Some(ink) => Some(ink@),
                None => None,
            },
        }
    }
}

impl GlyphRaster {
    pub fn new(pen_x: Real32, advance: Real32, ink: Option<GlyphInk>) -> (g: GlyphRaster)
        ensures
            g == (GlyphRaster { pen_x, advance, ink }),
    {
        GlyphRaster { pen_x, advance, ink }
    }
}

/// The views of a run of glyphs, in order.
pub open spec fn raster_views(glyphs: Seq<GlyphRaster>) -> Seq<RasterView> {
    Seq::new(glyphs.len(), |i: int| glyphs[i]@)
}

} // verus!
