use vstd::prelude::*;
use crate::scene::Color;

verus! {

/// The raster store. The pixel grid itself lives in the `image` crate's
/// buffer type; the library sees it only through `buffer_pixels` and the
/// trusted wrappers below.
#[verifier::external_body]
pub struct PixelBuffer {
    buf: image::ImageBuffer<image::Rgb<u8>, Vec<u8>>,
}

/// The contents of a pixel buffer: a map from screen coordinates (column,
/// row, both growing from the top-left corner) to channel triples.
pub uninterp spec fn buffer_pixels(b: PixelBuffer) -> Map<(int, int), (u8, u8, u8)>;

/// The screen-coordinate domain of a buffer with the given dimensions.
pub open spec fn rect_dom(w: int, h: int) -> Set<(int, int)> {
    Set::new(|k: (int, int)| 0 <= k.0 < w && 0 <= k.1 < h)
}

/// Relies on `image::ImageBuffer::new`: it allocates a `width` by `height`
/// grid with every sample zeroed, so every pixel starts black.
#[verifier::external_body]
fn new_buffer(width: u32, height: u32) -> (r: PixelBuffer)
    requires
        width <= 0x4000_0000,
        height <= 0x4000_0000,
    ensures
        buffer_pixels(r) == Map::new(
            |k: (int, int)| 0 <= k.0 < width && 0 <= k.1 < height,
            |k: (int, int)| (0u8, 0u8, 0u8),
        ),
{
    PixelBuffer { buf: image::ImageBuffer::new(width, height) }
}

/// Relies on `image::ImageBuffer::put_pixel`: it overwrites exactly the
/// sample at `(x, y)` and panics out of bounds, which the precondition
/// rules out.
#[verifier::external_body]
fn write_buffer_pixel(b: &mut PixelBuffer, x: u32, y: u32, c: Color)
    requires
        buffer_pixels(*old(b)).dom().contains((x as int, y as int)),
    ensures
        buffer_pixels(*final(b)) == buffer_pixels(*old(b)).insert(
            (x as int, y as int),
            (c.r, c.g, c.b),
        ),
{
    b.buf.put_pixel(x, y, image::Rgb([c.r, c.g, c.b]));
}

/// Relies on `image::ImageBuffer::get_pixel`: it returns the sample at
/// `(x, y)` and panics out of bounds, which the precondition rules out.
#[verifier::external_body]
fn read_buffer_pixel(b: &PixelBuffer, x: u32, y: u32) -> (r: Color)
    requires
        buffer_pixels(*b).dom().contains((x as int, y as int)),
    ensures
        (r.r, r.g, r.b) == buffer_pixels(*b)[(x as int, y as int)],
{
    let p = b.buf.get_pixel(x, y);
    Color { r: p.0[0], g: p.0[1], b: p.0[2] }
}

/// A canvas coordinate is valid when it lies in the centered ranges:
/// `x` in `[-w/2, w/2)` and `y` in `(-h/2, h/2]`.
pub open spec fn valid_coord(w: int, h: int, x: int, y: int) -> bool {
    -(w / 2) <= x < w / 2 && -(h / 2) < y <= h / 2
}

/// The screen position a canvas coordinate lands on: columns shift right
/// by half the width, rows flip because screen rows grow downward.
pub open spec fn screen_key(w: int, h: int, x: int, y: int) -> (int, int) {
    (w / 2 + x, h / 2 - y)
}

/// A pixel grid addressed by a coordinate system centered at its middle,
/// with y growing upward.
pub struct Canvas {
    pub width: u32,
    pub height: u32,
    pub buf: PixelBuffer,
}

pub struct PixelsIterator {
    pub half_w: i32,
    pub half_h: i32,
    pub x: i32,
    pub y: i32,
}

impl Canvas {
    pub open spec fn wf(self) -> bool {
        &&& self.width <= 0x4000_0000
        &&& self.height <= 0x4000_0000
        &&& buffer_pixels(self.buf).dom() =~= rect_dom(self.width as int, self.height as int)
    }

    pub open spec fn pixels(self) -> Map<(int, int), (u8, u8, u8)> {
        buffer_pixels(self.buf)
    }

    pub fn new(width: u32, height: u32) -> (r: Canvas)
        requires
            width <= 0x4000_0000,
            height <= 0x4000_0000,
        ensures
            r.wf(),
            r.width == width,
            r.height == height,
            r.pixels() == Map::new(
                |k: (int, int)| 0 <= k.0 < width && 0 <= k.1 < height,
                |k: (int, int)| (0u8, 0u8, 0u8),
            ),
    {
        let buf = new_buffer(width, height);
        proof {
            assert(buffer_pixels(buf).dom() =~= rect_dom(width as int, height as int));
        }
        Canvas { width, height, buf }
    }

    /// Writes a color at a canvas coordinate; coordinates outside the valid
    /// ranges are silently ignored.
    pub fn put_pixel(&mut self, x: i32, y: i32, pixel: Color)
        requires
            old(self).wf(),
        ensures
            final(self).wf(),
            final(self).width == old(self).width,
            final(self).height == old(self).height,
            valid_coord(old(self).width as int, old(self).height as int, x as int, y as int)
                ==> final(self).pixels() == old(self).pixels().insert(
                screen_key(old(self).width as int, old(self).height as int, x as int, y as int),
                (pixel.r, pixel.g, pixel.b),
            ),
            !valid_coord(old(self).width as int, old(self).height as int, x as int, y as int)
                ==> final(self).pixels() == old(self).pixels(),
    {
        let range_x: i32 = (self.width / 2) as i32;
        let range_y: i32 = (self.height / 2) as i32;
        if x < -range_x || x >= range_x || y <= -range_y || y > range_y {
            return ;
        }
        let screen_x: u32 = (range_x + x) as u32;
        let screen_y: u32 = (range_y - y) as u32;
        write_buffer_pixel(&mut self.buf, screen_x, screen_y, pixel);
    }

    /// Reads the color at a canvas coordinate, or nothing when the
    /// coordinate is outside the valid ranges.
    pub fn get_pixel(&self, x: i32, y: i32) -> (r: Option<Color>)
        requires
            self.wf(),
        ensures
            valid_coord(self.width as int, self.height as int, x as int, y as int) ==> (
            match r {
                Option::Some(c) => (c.r, c.g, c.b) == self.pixels()[screen_key(
                    self.width as int,
                    self.height as int,
                    x as int,
                    y as int,
                )],
                Option::None => false,
            }),
            !valid_coord(self.width as int, self.height as int, x as int, y as int) ==> r is None,
    {
        let range_x: i32 = (self.width / 2) as i32;
        let range_y: i32 = (self.height / 2) as i32;
        if x < -range_x || x >= range_x || y <= -range_y || y > range_y {
            return None;
        }
        let screen_x: u32 = (range_x + x) as u32;
        let screen_y: u32 = (range_y - y) as u32;
        Some(read_buffer_pixel(&self.buf, screen_x, screen_y))
    }

    pub fn iter_pixels(&self) -> (r: PixelsIterator)
        requires
            self.wf(),
        ensures
            r.wf(),
            r.half_w as int == self.width as int / 2,
            r.half_h as int == self.height as int / 2,
            r.index() == 0,
    {
        PixelsIterator::new(self)
    }
}

/// Writing a valid coordinate and then reading it back yields exactly the
/// written color; `put_pixel`'s contract already states that an invalid
/// coordinate leaves the canvas unchanged.
pub proof fn lemma_put_then_get(c0: Canvas, c1: Canvas, x: int, y: int, col: (u8, u8, u8))
    requires
        valid_coord(c0.width as int, c0.height as int, x, y),
        c1.pixels() == c0.pixels().insert(
            screen_key(c0.width as int, c0.height as int, x, y),
            col,
        ),
    ensures
        c1.pixels()[screen_key(c0.width as int, c0.height as int, x, y)] == col,
{
}

impl PixelsIterator {
    pub open spec fn wf(self) -> bool {
        &&& 0 <= self.half_w <= 0x2000_0000
        &&& 0 <= self.half_h <= 0x2000_0000
        &&& (self.half_w > 0 ==> -self.half_w <= self.x < self.half_w)
        &&& (self.half_w == 0 ==> self.x == 0)
        &&& 1 - self.half_h <= self.y <= self.half_h + 1
        &&& (self.y == self.half_h + 1 ==> self.x == -self.half_w)
    }

    /// How many coordinates have been handed out already.
    pub open spec fn index(self) -> int {
        (self.y + self.half_h - 1) * (2 * self.half_w) + (self.x + self.half_w)
    }

    /// The enumeration is finished: every coordinate has been handed out.
    pub open spec fn done(self) -> bool {
        self.half_w == 0 || self.y > self.half_h
    }

    pub fn new(canvas: &Canvas) -> (r: PixelsIterator)
        requires
            canvas.wf(),
        ensures
            r.wf(),
            r.half_w as int == canvas.width as int / 2,
            r.half_h as int == canvas.height as int / 2,
            r.index() == 0,
    {
        let half_w: i32 = (canvas.width / 2) as i32;
        let half_h: i32 = (canvas.height / 2) as i32;
        let it = PixelsIterator { x: -half_w, y: 1 - half_h, half_w, half_h };
        proof {
            assert(it.y + it.half_h - 1 == 0);
            assert(0 * (2 * (it.half_w as int)) == 0) by (nonlinear_arith);
        }
        it
    }

    /// Hands out the next canvas coordinate, row-major from the bottom row
    /// upward and left to right within a row, covering exactly the valid
    /// coordinate ranges.
    pub fn next(&mut self) -> (r: Option<(i32, i32)>)
        requires
            old(self).wf(),
        ensures
            final(self).wf(),
            final(self).half_w == old(self).half_w,
            final(self).half_h == old(self).half_h,
            old(self).done() ==> r is None && *final(self) == *old(self),
            !old(self).done() ==> r == Some((old(self).x, old(self).y)) && final(self).index()
                == old(self).index() + 1 && old(self).index() + 1 <= 4 * (
            final(self).half_w as int) * (final(self).half_h as int),
            !old(self).done() ==> -old(self).half_w <= old(self).x < old(self).half_w && 1 - old(
                self,
            ).half_h <= old(self).y <= old(self).half_h,
    {
        if self.half_w == 0 || self.y > self.half_h {
            return None;
        }
        let item: (i32, i32) = (self.x, self.y);
        if self.x + 1 < self.half_w {
            self.x = self.x + 1;
        } else {
            self.x = -self.half_w;
            self.y = self.y + 1;
        }
        proof {
            let hw = old(self).half_w as int;
            let hh = old(self).half_h as int;
            let yy = old(self).y as int;
            assert((yy + hh) * (2 * hw) == (yy + hh - 1) * (2 * hw) + 2 * hw) by (nonlinear_arith);
            assert((yy + hh + 1 - 1) * (2 * hw) == (yy + hh) * (2 * hw));
            assert(self.index() <= 4 * hw * hh) by (nonlinear_arith)
                requires
                    self.index() == (self.y + hh - 1) * (2 * hw) + (self.x + hw),
                    1 - hh <= self.y <= hh + 1,
                    -hw <= self.x <= hw,
                    self.y == hh + 1 ==> self.x == -hw,
                    self.x == hw ==> false,
                    0 < hw,
                    0 <= hh,
            ;
        }
        Some(item)
    }
}

} // verus!
