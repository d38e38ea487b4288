//! The picture: a grid of pixels, each with its red, green, blue and opacity.
use crate::line;
use crate::line::Pen;
use vstd::prelude::*;

verus! {

/// A grid of pixels, row by row, four bytes each.
pub struct PixelBuffer {
    pub width: u32,
    pub height: u32,
    pub pixels: Vec<u8>,
}

/// Red, green and blue.
pub type Color = (u8, u8, u8);

/// The four bytes of a pixel.
pub type Pixel = (u8, u8, u8, u8);

/// A color without transparency.
pub open spec fn opaque(c: Color) -> Pixel {
    (c.0, c.1, c.2, 255)
}

/// The index of the first byte of a pixel.
pub open spec fn byte_at(width: u32, x: int, y: int) -> int {
    (y * width + x) * 4
}

proof fn lemma_byte_at(width: u32, height: u32, x: int, y: int)
    requires
        0 <= x < width,
        0 <= y < height,
    ensures
        0 <= byte_at(width, x, y),
        byte_at(width, x, y) + 4 <= width * height * 4,
        y * width + x < width * height,
{
    assert(y * width + x < width * height && 0 <= y * width) by (nonlinear_arith)
        requires
            0 <= x < width,
            0 <= y < height,
    ;
}

proof fn lemma_bytes_apart(width: u32, x: int, y: int, u: int, v: int)
    requires
        0 <= x < width,
        0 <= u < width,
    ensures
        byte_at(width, x, y) == byte_at(width, u, v) ==> x == u && y == v,
{
    if y * width + x == v * width + u {
        assert(y == v) by (nonlinear_arith)
            requires
                y * width + x == v * width + u,
                0 <= x < width,
                0 <= u < width,
        ;
    }
}

impl PixelBuffer {
    /// Whether there are four bytes for each pixel.
    pub open spec fn wf(&self) -> bool {
        self.pixels@.len() == self.width * self.height * 4
    }

    /// Whether a column and a row lie in the picture.
    pub open spec fn inside(&self, x: int, y: int) -> bool {
        0 <= x < self.width && 0 <= y < self.height
    }

    /// The pixel in column `x` of row `y`.
    pub open spec fn at(&self, x: int, y: int) -> Pixel {
        let i = byte_at(self.width, x, y);
        (self.pixels@[i], self.pixels@[i + 1], self.pixels@[i + 2], self.pixels@[i + 3])
    }

    /// Whether this picture is the one `before`, with the pixels in `area` painted over.
    pub open spec fn painted(&self, before: &PixelBuffer, area: spec_fn(int, int) -> bool, c: Color) -> bool {
        &&& self.wf()
        &&& self.width == before.width
        &&& self.height == before.height
        &&& forall|x: int, y: int|
            self.inside(x, y) ==> #[trigger] self.at(x, y) == (if area(x, y) {
                opaque(c)
            } else {
                before.at(x, y)
            })
    }

    /// A picture with every byte zero.
    pub fn new(width: u32, height: u32) -> (b: PixelBuffer)
        requires
            width * height * 4 <= u32::MAX,
        ensures
            b.wf(),
            b.width == width,
            b.height == height,
            forall|x: int, y: int| b.inside(x, y) ==> #[trigger] b.at(x, y) == (0u8, 0u8, 0u8, 0u8),
    {
        assert(0 <= width * height <= width * height * 4) by (nonlinear_arith)
            requires
                width >= 0,
                height >= 0,
        ;
        let size: usize = (width * height * 4) as usize;
        let b = PixelBuffer { width, height, pixels: vec![0u8; size] };
        assert forall|x: int, y: int| b.inside(x, y) implies #[trigger] b.at(x, y) == (
            0u8,
            0u8,
            0u8,
            0u8,
        ) by {
            lemma_byte_at(width, height, x, y);
        }
        b
    }

    /// Paints one pixel that lies inside.
    fn put(&mut self, x: i64, y: i64, c: Color)
        requires
            old(self).wf(),
            old(self).inside(x as int, y as int),
        ensures
            final(self).painted(old(self), |u: int, v: int| u == x && v == y, c),
    {
        let ghost before = *self;
        proof {
            lemma_byte_at(self.width, self.height, x as int, y as int);
            assert(y * self.width <= 0xffff_ffff * 0xffff_ffff) by (nonlinear_arith)
                requires
                    0 <= y <= 0xffff_ffff,
                    0 <= self.width <= 0xffff_ffff,
            ;
        }
        let row: u64 = y as u64 * self.width as u64;
        let size: usize = self.pixels.len();
        assert(row + x < size);
        let i: usize = (row as usize + x as usize) * 4;
        assert(i == byte_at(self.width, x as int, y as int));
        self.pixels.set(i, c.0);
        self.pixels.set(i + 1, c.1);
        self.pixels.set(i + 2, c.2);
        self.pixels.set(i + 3, 255);
        proof {
            assert forall|u: int, v: int| self.inside(u, v) implies #[trigger] self.at(u, v) == (if u
                == x && v == y {
                opaque(c)
            } else {
                before.at(u, v)
            }) by {
                lemma_byte_at(self.width, self.height, u, v);
                lemma_bytes_apart(self.width, u, v, x as int, y as int);
            }
        }
    }

    /// Paints every pixel.
    pub fn clear(&mut self, r: u8, g: u8, b: u8)
        requires
            old(self).wf(),
        ensures
            final(self).painted(old(self), |x: int, y: int| true, (r, g, b)),
    {
        let ghost before = *self;
        let mut i: usize = 0;
        while i < self.pixels.len()
            invariant
                self.wf(),
                self.width == before.width,
                self.height == before.height,
                i <= self.pixels@.len(),
                i % 4 == 0,
                self.pixels@.len() % 4 == 0,
                forall|j: int|
                    0 <= j < i ==> #[trigger] self.pixels@[j] == (if j % 4 == 0 {
                        r
                    } else if j % 4 == 1 {
                        g
                    } else if j % 4 == 2 {
                        b
                    } else {
                        255
                    }),
            decreases self.pixels@.len() - i,
        {
            self.pixels.set(i, r);
            self.pixels.set(i + 1, g);
            self.pixels.set(i + 2, b);
            self.pixels.set(i + 3, 255);
            i = i + 4;
        }
        proof {
            assert forall|x: int, y: int| self.inside(x, y) implies #[trigger] self.at(x, y)
                == opaque((r, g, b)) by {
                lemma_byte_at(self.width, self.height, x, y);
            }
        }
    }

    /// Paints one pixel, if it lies inside.
    pub fn pixel(&mut self, x: i32, y: i32, r: u8, g: u8, b: u8)
        requires
            old(self).wf(),
        ensures
            final(self).painted(old(self), |u: int, v: int| u == x && v == y, (r, g, b)),
    {
        if x < 0 || y < 0 || x as i64 >= self.width as i64 || y as i64 >= self.height as i64 {
            return;
        }
        self.put(x as i64, y as i64, (r, g, b));
    }

    /// Paints the part of a rectangle that lies inside.
    fn fill(&mut self, x: i64, y: i64, w: i64, h: i64, c: Color)
        requires
            old(self).wf(),
            -0x2_0000_0000 <= x <= 0x2_0000_0000,
            -0x2_0000_0000 <= y <= 0x2_0000_0000,
            -0x2_0000_0000 <= w <= 0x2_0000_0000,
            -0x2_0000_0000 <= h <= 0x2_0000_0000,
        ensures
            final(self).painted(
                old(self),
                |u: int, v: int| in_rect(x as int, y as int, w as int, h as int, u, v),
                c,
            ),
    {
        let ghost before = *self;
        let start_x: i64 = if x < 0 { 0 } else { x };
        let start_y: i64 = if y < 0 { 0 } else { y };
        let end_x: i64 = if x + w < self.width as i64 { x + w } else { self.width as i64 };
        let end_y: i64 = if y + h < self.height as i64 { y + h } else { self.height as i64 };
        let mut iy: i64 = start_y;
        while iy < end_y
            invariant
                self.painted(
                    &before,
                    |u: int, v: int| start_x <= u < end_x && start_y <= v < iy,
                    c,
                ),
                0 <= start_x,
                0 <= start_y <= iy,
                iy <= end_y || iy == start_y,
                end_x <= before.width,
                end_y <= before.height,
            decreases end_y - iy,
        {
            let ghost row = *self;
            let mut ix: i64 = start_x;
            while ix < end_x
                invariant
                    self.painted(&row, |u: int, v: int| start_x <= u < ix && v == iy, c),
                    row.width == before.width,
                    row.height == before.height,
                    0 <= start_x <= ix,
                    ix <= end_x || ix == start_x,
                    0 <= iy < end_y,
                    end_x <= before.width,
                    end_y <= before.height,
                decreases end_x - ix,
            {
                self.put(ix, iy, c);
                ix = ix + 1;
            }
            iy = iy + 1;
        }
    }

    /// Paints the part of a rectangle that lies inside.
    pub fn rect(&mut self, x: i32, y: i32, w: i32, h: i32, r: u8, g: u8, b: u8)
        requires
            old(self).wf(),
        ensures
            final(self).painted(
                old(self),
                |u: int, v: int| in_rect(x as int, y as int, w as int, h as int, u, v),
                (r, g, b),
            ),
    {
        self.fill(x as i64, y as i64, w as i64, h as i64, (r, g, b));
    }

    /// Paints the part of the edge of a rectangle that lies inside.
    pub fn rect_outline(&mut self, x: i32, y: i32, w: i32, h: i32, r: u8, g: u8, b: u8)
        requires
            old(self).wf(),
        ensures
            final(self).painted(
                old(self),
                |u: int, v: int| in_outline(x as int, y as int, w as int, h as int, u, v),
                (r, g, b),
            ),
    {
        let bottom: i64 = y as i64 + h as i64 - 1;
        let right: i64 = x as i64 + w as i64 - 1;
        self.fill(x as i64, y as i64, w as i64, 1, (r, g, b));
        self.fill(x as i64, bottom, w as i64, 1, (r, g, b));
        self.fill(x as i64, y as i64, 1, h as i64, (r, g, b));
        self.fill(right, y as i64, 1, h as i64, (r, g, b));
    }

    /// Paints the part of a line that lies inside; of a dashed line, four pixels of every eight.
    pub fn line(&mut self, x0: i32, y0: i32, x1: i32, y1: i32, r: u8, g: u8, b: u8, dashed: bool)
        requires
            old(self).wf(),
        ensures
            final(self).painted(
                old(self),
                |u: int, v: int|
                    in_line(
                        (x0 as int, y0 as int),
                        (x1 as int, y1 as int),
                        dashed,
                        line::line_steps((x0 as int, y0 as int), (x1 as int, y1 as int)),
                        u,
                        v,
                    ),
                (r, g, b),
            ),
    {
        let ghost before = *self;
        let ghost from = (x0 as int, y0 as int);
        let ghost to = (x1 as int, y1 as int);
        let mut pen = Pen::new((x0, y0), (x1, y1), 1);
        assert(self.painted(&before, |u: int, v: int| in_line(from, to, dashed, -1, u, v), (r, g, b)));
        loop
            invariant_except_break
                pen.wf(),
                pen.start() == from,
                pen.end() == to,
                pen.bias == 1,
                pen.at() == line::line_point(from, to, 1, pen.steps as int),
                0 <= pen.steps <= line::line_steps(from, to),
                self.painted(
                    &before,
                    |u: int, v: int| in_line(from, to, dashed, pen.steps - 1, u, v),
                    (r, g, b),
                ),
            ensures
                self.painted(
                    &before,
                    |u: int, v: int| in_line(from, to, dashed, line::line_steps(from, to), u, v),
                    (r, g, b),
                ),
            decreases line::line_steps(from, to) - pen.steps,
        {
            let ghost k = pen.steps as int;
            let ghost last = *self;
            if !dashed || pen.steps % 8 < 4 {
                if 0 <= pen.x && pen.x < self.width as i64 && 0 <= pen.y && pen.y
                    < self.height as i64 {
                    self.put(pen.x, pen.y, (r, g, b));
                }
            }
            proof {
                lemma_line_grows(from, to, dashed, k);
                assert forall|u: int, v: int| self.inside(u, v) implies #[trigger] self.at(u, v)
                    == (if in_line(from, to, dashed, k, u, v) {
                    opaque((r, g, b))
                } else {
                    before.at(u, v)
                }) by {
                    assert(last.at(u, v) == (if in_line(from, to, dashed, k - 1, u, v) {
                        opaque((r, g, b))
                    } else {
                        before.at(u, v)
                    }));
                }
            }
            if pen.done() {
                break;
            }
            pen.advance();
        }
    }
}

/// Whether a pixel is one of the points of a line up to the one after `n` steps that are painted.
pub open spec fn in_line(
    from: (int, int),
    to: (int, int),
    dashed: bool,
    n: int,
    u: int,
    v: int,
) -> bool {
    exists|k: int|
        0 <= k <= n && (!dashed || k % 8 < 4) && #[trigger] line::line_point(from, to, 1, k) == (
            u,
            v,
        )
}

proof fn lemma_line_grows(from: (int, int), to: (int, int), dashed: bool, n: int)
    requires
        n >= 0,
    ensures
        forall|u: int, v: int|
            in_line(from, to, dashed, n, u, v) == (in_line(from, to, dashed, n - 1, u, v) || ((
            !dashed || n % 8 < 4) && line::line_point(from, to, 1, n) == (u, v))),
{
    assert forall|u: int, v: int|
        in_line(from, to, dashed, n, u, v) == (in_line(from, to, dashed, n - 1, u, v) || ((!dashed
            || n % 8 < 4) && line::line_point(from, to, 1, n) == (u, v))) by {
        if in_line(from, to, dashed, n, u, v) {
            let k = choose|k: int|
                0 <= k <= n && (!dashed || k % 8 < 4) && #[trigger] line::line_point(from, to, 1, k)
                    == (u, v);
            assert(k <= n - 1 || k == n);
        }
        if in_line(from, to, dashed, n - 1, u, v) {
            let k = choose|k: int|
                0 <= k <= n - 1 && (!dashed || k % 8 < 4) && #[trigger] line::line_point(
                    from,
                    to,
                    1,
                    k,
                ) == (u, v);
            assert(0 <= k <= n);
        }
    }
}

/// Whether a pixel belongs to the rectangle with the upper left corner `x`, `y`.
pub open spec fn in_rect(x: int, y: int, w: int, h: int, u: int, v: int) -> bool {
    x <= u < x + w && y <= v < y + h
}

/// Whether a pixel belongs to the top, the bottom, the left or the right edge of a rectangle.
pub open spec fn in_outline(x: int, y: int, w: int, h: int, u: int, v: int) -> bool {
    ||| in_rect(x, y, w, 1, u, v)
    ||| in_rect(x, y + h - 1, w, 1, u, v)
    ||| in_rect(x, y, 1, h, u, v)
    ||| in_rect(x + w - 1, y, 1, h, u, v)
}

/// A rectangle covers as many columns and rows as it is wide and high, from its corner on. Its
/// outline is what is left of it without the rectangle inside that is one pixel smaller on each
/// side.
pub proof fn outlines_are_the_edges_of_rectangles(x: int, y: int, w: int, h: int, u: int, v: int)
    requires
        w > 0,
        h > 0,
    ensures
        in_rect(x, y, w, h, u, v) <==> 0 <= u - x && u - x < w && 0 <= v - y && v - y < h,
        in_outline(x, y, w, h, u, v) <==> in_rect(x, y, w, h, u, v) && !in_rect(
            x + 1,
            y + 1,
            w - 2,
            h - 2,
            u,
            v,
        ),
{
}

/// A line covers both its ends, and of a dashed one every other four points.
pub proof fn lines_cover_their_points(from: (int, int), to: (int, int), k: int)
    requires
        0 <= k <= line::line_steps(from, to),
    ensures
        ({
            let n = line::line_steps(from, to);
            let p = line::line_point(from, to, 1, k);
            &&& in_line(from, to, false, n, p.0, p.1)
            &&& k % 8 < 4 ==> in_line(from, to, true, n, p.0, p.1)
            &&& in_line(from, to, false, n, from.0, from.1)
            &&& in_line(from, to, false, n, to.0, to.1)
        }),
{
    line::line_joins_its_ends(from, to, 1);
    let n = line::line_steps(from, to);
    assert(line::line_point(from, to, 1, 0) == from);
    assert(line::line_point(from, to, 1, n) == to);
    let p = line::line_point(from, to, 1, k);
}

} // verus!
