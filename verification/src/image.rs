//! Colours, screen coordinates and the pixel images that text is drawn into.

use vstd::prelude::*;

verus! {

/// A colour of four 8-bit channels; `a` is the opacity.
#[derive(Clone, Copy, Debug, PartialEq, Eq, Structural)]
pub struct Rgba {
    pub r: u8,
    pub g: u8,
    pub b: u8,
    pub a: u8,
}

impl Rgba {
    pub fn new(r: u8, g: u8, b: u8, a: u8) -> (c: Rgba)
        ensures
            c == (Rgba { r, g, b, a }),
    {
        Rgba { r, g, b, a }
    }

    /// The colour of a pixel that nothing was drawn on.
    pub open spec fn spec_transparent() -> Rgba {
        Rgba { r: 0, g: 0, b: 0, a: 0 }
    }

    #[verifier::when_used_as_spec(spec_transparent)]
    pub fn transparent() -> (c: Rgba)
        ensures
            c == Self::spec_transparent(),
    {
        Rgba { r: 0, g: 0, b: 0, a: 0 }
    }

    /// The same red, green and blue with another opacity.
    pub open spec fn spec_with_alpha(self, a: u8) -> Rgba {
        Rgba { r: self.r, g: self.g, b: self.b, a }
    }

    #[verifier::when_used_as_spec(spec_with_alpha)]
    pub fn with_alpha(self, a: u8) -> (c: Rgba)
        ensures
            c == self.spec_with_alpha(a),
    {
        Rgba { r: self.r, g: self.g, b: self.b, a }
    }
}

/// A point of the screen, counted from its top left corner.
#[derive(Clone, Copy, Debug, PartialEq, Eq, Structural)]
pub struct Coord {
    pub x: usize,
    pub y: usize,
}

impl Coord {
    pub fn new(x: usize, y: usize) -> (c: Coord)
        ensures
            c == (Coord { x, y }),
    {
        Coord { x, y }
    }
}

/// A rectangle by its top left corner and its size.
#[derive(Clone, Copy, Debug, PartialEq, Eq, Structural)]
pub struct Rect {
    pub x: usize,
    pub y: usize,
    pub width: usize,
    pub height: usize,
}

impl Rect {
    pub fn new(x: usize, y: usize, width: usize, height: usize) -> (r: Rect)
        ensures
            r == (Rect { x, y, width, height }),
    {
        Rect { x, y, width, height }
    }

    /// Whether the pixel `(x, y)` lies in the rectangle.
    pub open spec fn contains(self, x: int, y: int) -> bool {
        self.x <= x < self.x + self.width && self.y <= y < self.y + self.height
    }
}

/// What an image holds: its size and its pixels, one row after another.
pub struct ImageView {
    pub width: nat,
    pub height: nat,
    pub pixels: Seq<Rgba>,
}

impl ImageView {
    /// The pixel in column `x` of row `y`.
    pub open spec fn pixel(self, x: int, y: int) -> Rgba {
        self.pixels[y * self.width + x]
    }
}

/// An owned image of `width * height` pixels in row-major order.
#[derive(Debug)]
pub struct Image {
    pub buffer: Vec<Rgba>,
    pub width: usize,
    pub height: usize,
}

impl View for Image {
    type V = ImageView;

    open spec fn view(&self) -> ImageView {
        ImageView { width: self.width as nat, height: self.height as nat, pixels: self.buffer@ }
    }
}

/// The most pixels that an image may have: as many as fit, at four bytes
/// each, in half of what `isize` can count.
pub open spec fn max_pixels() -> int {
    usize::MAX as int / 8
}

/// The index of pixel `(x, y)` lies inside a `width * height` buffer.
pub proof fn lemma_pixel_index(x: int, y: int, width: int, height: int)
    requires
        0 <= x < width,
        0 <= y < height,
    ensures
        0 <= y * width <= y * width + x < width * height,
        (y * width + x) % width == x,
        (y * width + x) / width == y,
{
    assert(y * width + x < width * height) by (nonlinear_arith)
        requires
            0 <= x < width,
            0 <= y < height,
    {
        assert((y + 1) * width <= height * width);
    }
    assert(0 <= y * width) by (nonlinear_arith)
        requires
            0 <= y,
            0 < width,
    ;
    vstd::arithmetic::div_mod::lemma_fundamental_div_mod_converse(y * width + x, width, y, x);
}

impl Image {
    /// Whether the buffer has one pixel for each place of the image.
    pub open spec fn wf(&self) -> bool {
        self.buffer@.len() == self.width * self.height
    }

    /// An image of the given size with every pixel transparent, or `None`
    /// where it would have more than `max_pixels()` pixels.
    pub fn blank(width: usize, height: usize) -> (img: Option<Image>)
        ensures
            img is Some <==> width * height <= max_pixels(),
            img matches Some(i) ==> i.wf() && i@ == (ImageView {
                width: width as nat,
                height: height as nat,
                pixels: Seq::new((width * height) as nat, |i: int| Rgba::spec_transparent()),
            }),
    {
        match width.checked_mul(height) {
            None => None,
            Some(n) => {
                if n > usize::MAX / 8 {
                    return None;
                }
                let buffer = vec![Rgba::transparent(); n];
                assert(buffer@ =~= Seq::new((width * height) as nat, |i: int| Rgba::spec_transparent()));
                Some(Image { buffer, width, height })
            },
        }
    }

    /// The pixel in column `x` of row `y`.
    pub fn pixel(&self, x: usize, y: usize) -> (c: Rgba)
        requires
            self.wf(),
            x < self.width,
            y < self.height,
        ensures
            c == self@.pixel(x as int, y as int),
    {
        let _len: usize = self.buffer.len();
        proof {
            lemma_pixel_index(x as int, y as int, self.width as int, self.height as int);
        }
        self.buffer[y * self.width + x]
    }
}

} // verus!
