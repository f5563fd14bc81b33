//! The per-frame color buffer: a 2D pixel grid with bounds-checked writes.
//! Out-of-range writes are silently dropped per pixel; they never index out
//! of range and never fail the frame.

use vstd::prelude::*;

verus! {

/// A 4-channel 8-bit color.
#[derive(Clone, Copy, PartialEq, Eq, Structural, Debug)]
pub struct Color {
    pub r: u8,
    pub g: u8,
    pub b: u8,
    pub a: u8,
}

impl Color {
    pub open spec fn rgba_spec(r: u8, g: u8, b: u8, a: u8) -> Color {
        Color { r, g, b, a }
    }

    pub fn rgba(r: u8, g: u8, b: u8, a: u8) -> (c: Color)
        ensures
            c == Color::rgba_spec(r, g, b, a),
    {
        Color { r, g, b, a }
    }

    pub open spec fn black_spec() -> Color {
        Color { r: 0, g: 0, b: 0, a: 255 }
    }

    pub fn black() -> (c: Color)
        ensures
            c == Color::black_spec(),
    {
        Color { r: 0, g: 0, b: 0, a: 255 }
    }

    pub open spec fn white_spec() -> Color {
        Color { r: 255, g: 255, b: 255, a: 255 }
    }

    pub fn white() -> (c: Color)
        ensures
            c == Color::white_spec(),
    {
        Color { r: 255, g: 255, b: 255, a: 255 }
    }
}

/// Greatest accepted frame side length, in pixels.
pub const FRAME_DIM_LIMIT: u32 = 16384;

/// A color buffer of `width * height` pixels in row-major order, plus the
/// background color used by `clear` and the current drawing color used by
/// `set_pixel`.
pub struct Framebuffer {
    pub width: u32,
    pub height: u32,
    pub data: Vec<Color>,
    pub background_color: Color,
    pub current_color: Color,
}

impl Framebuffer {
    /// Well-formedness: the buffer holds exactly one color per pixel and the
    /// sides are within the accepted limit.
    pub open spec fn wf(self) -> bool {
        &&& self.data.len() == self.width * self.height
        &&& self.width <= FRAME_DIM_LIMIT
        &&& self.height <= FRAME_DIM_LIMIT
    }

    pub open spec fn pixels(self) -> Seq<Color> {
        self.data@
    }

    pub open spec fn background_spec(self) -> Color {
        self.background_color
    }

    pub open spec fn current_spec(self) -> Color {
        self.current_color
    }

    pub open spec fn idx(self, x: int, y: int) -> int {
        y * self.width + x
    }

    pub open spec fn pix_in_bounds(self, x: int, y: int) -> bool {
        0 <= x < self.width && 0 <= y < self.height
    }

    /// The color of the pixel at `(x, y)`.
    pub open spec fn pixel(self, x: int, y: int) -> Color {
        self.pixels()[self.idx(x, y)]
    }

    /// A buffer of the given size, all pixels black, black background, white
    /// drawing color.
    pub fn new(width: u32, height: u32) -> (fb: Framebuffer)
        requires
            width <= FRAME_DIM_LIMIT,
            height <= FRAME_DIM_LIMIT,
        ensures
            fb.wf(),
            fb.width == width,
            fb.height == height,
            fb.pixels().len() == width * height,
            forall|i: int| 0 <= i < fb.pixels().len() ==> fb.pixels()[i] == Color::black_spec(),
            fb.background_spec() == Color::black_spec(),
            fb.current_spec() == Color::white_spec(),
    {
        assert((width as int) * (height as int) <= (FRAME_DIM_LIMIT as int) * (
        FRAME_DIM_LIMIT as int)) by (nonlinear_arith)
            requires
                width <= FRAME_DIM_LIMIT,
                height <= FRAME_DIM_LIMIT,
        ;
        let n: usize = (width as usize) * (height as usize);
        let mut data: Vec<Color> = Vec::new();
        let mut i: usize = 0;
        while i < n
            invariant
                i <= n,
                data.len() == i,
                forall|j: int| 0 <= j < i ==> data@[j] == Color::black_spec(),
            decreases n - i,
        {
            data.push(Color::black());
            i += 1;
        }
        Framebuffer {
            width,
            height,
            data,
            background_color: Color::black(),
            current_color: Color::white(),
        }
    }

    /// Fill every pixel with the background color.
    pub fn clear(&mut self)
        requires
            old(self).wf(),
        ensures
            final(self).wf(),
            final(self).width == old(self).width,
            final(self).height == old(self).height,
            final(self).background_spec() == old(self).background_spec(),
            final(self).current_spec() == old(self).current_spec(),
            final(self).pixels().len() == old(self).pixels().len(),
            forall|i: int|
                0 <= i < final(self).pixels().len() ==> final(self).pixels()[i] == old(
                    self,
                ).background_spec(),
    {
        let n: usize = self.data.len();
        let bg: Color = self.background_color;
        let mut i: usize = 0;
        while i < n
            invariant
                i <= n,
                self.data.len() == n,
                self.width == old(self).width,
                self.height == old(self).height,
                self.background_color == old(self).background_color,
                self.current_color == old(self).current_color,
                bg == old(self).background_color,
                forall|j: int| 0 <= j < i ==> self.data@[j] == bg,
            decreases n - i,
        {
            self.data.set(i, bg);
            i += 1;
        }
    }

    /// Write the current drawing color at `(x, y)`; out-of-range writes are
    /// dropped.
    pub fn set_pixel(&mut self, x: u32, y: u32)
        requires
            old(self).wf(),
        ensures
            final(self).wf(),
            final(self).width == old(self).width,
            final(self).height == old(self).height,
            final(self).background_spec() == old(self).background_spec(),
            final(self).current_spec() == old(self).current_spec(),
            old(self).pix_in_bounds(x as int, y as int) ==> final(self).pixels() == old(
                self,
            ).pixels().update(old(self).idx(x as int, y as int), old(self).current_spec()),
            !old(self).pix_in_bounds(x as int, y as int) ==> final(self).pixels() == old(
                self,
            ).pixels(),
    {
        let c: Color = self.current_color;
        self.set_pixel_color(x, y, c);
    }

    /// Write `color` at `(x, y)`; out-of-range writes are dropped.
    pub fn set_pixel_color(&mut self, x: u32, y: u32, color: Color)
        requires
            old(self).wf(),
        ensures
            final(self).wf(),
            final(self).width == old(self).width,
            final(self).height == old(self).height,
            final(self).background_spec() == old(self).background_spec(),
            final(self).current_spec() == old(self).current_spec(),
            old(self).pix_in_bounds(x as int, y as int) ==> final(self).pixels() == old(
                self,
            ).pixels().update(old(self).idx(x as int, y as int), color),
            !old(self).pix_in_bounds(x as int, y as int) ==> final(self).pixels() == old(
                self,
            ).pixels(),
    {
        if x < self.width && y < self.height {
            proof {
                lemma_row_major_in_range(x as int, y as int, self.width as int, self.height as int);
            }
            let i: usize = (y as usize) * (self.width as usize) + (x as usize);
            self.data.set(i, color);
        }
    }

    pub fn set_background_color(&mut self, color: Color)
        ensures
            *final(self) == (Framebuffer { background_color: color, ..*old(self) }),
    {
        self.background_color = color;
    }

    pub fn set_current_color(&mut self, color: Color)
        ensures
            *final(self) == (Framebuffer { current_color: color, ..*old(self) }),
    {
        self.current_color = color;
    }

    /// Read back the pixel at `(x, y)`.
    pub fn pixel_at(&self, x: u32, y: u32) -> (c: Color)
        requires
            self.wf(),
            self.pix_in_bounds(x as int, y as int),
        ensures
            c == self.pixel(x as int, y as int),
    {
        proof {
            lemma_row_major_in_range(x as int, y as int, self.width as int, self.height as int);
        }
        self.data[(y as usize) * (self.width as usize) + (x as usize)]
    }
}

/// Distinct in-range pixel coordinates have distinct row-major indices.
pub proof fn lemma_row_major_injective(x1: int, y1: int, x2: int, y2: int, w: int)
    by (nonlinear_arith)
    requires
        0 <= x1 < w,
        0 <= x2 < w,
        0 <= y1,
        0 <= y2,
        y1 * w + x1 == y2 * w + x2,
    ensures
        x1 == x2 && y1 == y2,
{
}

/// A row-major index of an in-range pixel is within the buffer.
pub proof fn lemma_row_major_in_range(x: int, y: int, w: int, h: int)
    by (nonlinear_arith)
    requires
        0 <= x < w,
        0 <= y < h,
    ensures
        0 <= y * w + x < w * h,
{
}

} // verus!
