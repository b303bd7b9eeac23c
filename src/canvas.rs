//! RGBA pixel canvases for fractal images.
//!
//! An escape-time fractal is drawn a slice at a time: each pass colours the
//! next run of pixels in row-major order after a cursor that persists between
//! passes, so the picture refines on every tick instead of being recomputed.
use crate::random::{random_byte, random_in_range};
use vstd::prelude::*;

verus! {

/// Least iteration bound a new canvas may draw.
pub const MIN_ITER: u8 = 10;

/// Iteration bounds of new canvases stay below this.
pub const MAX_ITER: u8 = 80;

/// Canvas state of an escape-time fractal: an RGBA buffer and the cursor of
/// progressive drawing.
pub struct Canvas {
    /// Row-major index of the pixel drawn last.
    pub pixels_index: u32,
    /// Four bytes per pixel, red, green, blue and alpha, rows from the top.
    pub pixels: Vec<u8>,
    pub width: u32,
    pub height: u32,
    /// Bound on the iterations of the escape-time loop of each pixel.
    pub max_iter: u8,
}

/// The bytes of a `width` by `height` RGBA image fit a `u32` count.
pub open spec fn fits(width: int, height: int) -> bool {
    4 * width * height <= u32::MAX
}

/// One pass of progressive drawing after pixel `last` of `total`: the half
/// open range of pixels that it colours when it colours at most `budget`.
pub open spec fn pass_range(last: int, total: int, budget: int) -> (int, int) {
    let start = if last + 1 < total {
        last + 1
    } else {
        total
    };
    let end = if start + budget < total {
        start + budget
    } else {
        total
    };
    (start, end)
}

/// The byte at offset `k` of a `width` pixels wide buffer where the pixel is
/// colour `rgba` when its column and row share no set bit, and zero else.
pub open spec fn sierpinski_byte(width: int, k: int, rgba: Seq<u8>) -> u8 {
    let p = k / 4;
    let x = p % width;
    let y = p / width;
    if (x as u32) & (y as u32) == 0 {
        rgba[k % 4]
    } else {
        0
    }
}

/// The whole image of a `width` by `height` Sierpinski triangle in colour
/// `(red, green, blue)`, opaque where drawn and transparent black elsewhere.
pub open spec fn sierpinski(width: int, height: int, red: u8, green: u8, blue: u8) -> Seq<u8> {
    Seq::new(
        (4 * width * height) as nat,
        |k: int| sierpinski_byte(width, k, seq![red, green, blue, 255u8]),
    )
}

/// Progressive drawing neither skips nor repeats a pixel: after a pass that
/// coloured something, the next pass starts right after its last pixel; a
/// pass with a positive budget colours something until the image is
/// complete; and no pass colours more than its budget.
pub proof fn lemma_passes_continue(last: int, total: int, budget: int)
    requires
        0 <= last,
        0 <= budget,
        0 <= total,
    ensures
        ({
            let (start, end) = pass_range(last, total, budget);
            &&& start <= end <= total
            &&& end - start <= budget
            &&& start < end ==> pass_range(end - 1, total, budget).0 == end
            &&& (budget > 0 && last + 1 < total) ==> start < end
        }),
{
}

proof fn lemma_pixel_offsets(width: int, x: int, y: int, c: int)
    requires
        0 <= x < width,
        0 <= y,
        0 <= c < 4,
    ensures
        (4 * (y * width + x) + c) / 4 == y * width + x,
        (4 * (y * width + x) + c) % 4 == c,
        (y * width + x) % width == x,
        (y * width + x) / width == y,
{
    vstd::arithmetic::div_mod::lemma_fundamental_div_mod_converse(
        4 * (y * width + x) + c,
        4,
        y * width + x,
        c,
    );
    vstd::arithmetic::div_mod::lemma_fundamental_div_mod_converse(y * width + x, width, y, x);
}

proof fn lemma_row_bound(width: int, height: int, x: int, y: int)
    requires
        0 <= x < width,
        0 <= y < height,
    ensures
        y * width + x + 1 <= width * height,
        (y + 1) * width == y * width + width,
{
    assert(y * width + x + 1 <= width * height) by (nonlinear_arith)
        requires
            0 <= x < width,
            0 <= y < height,
    ;
    assert((y + 1) * width == y * width + width) by (nonlinear_arith);
}

/// The RGBA bytes of a `sz_x` by `sz_y` Sierpinski triangle: pixel `(x, y)`
/// is `(red, green, blue)` and opaque where `x & y == 0`, and zero elsewhere.
pub fn sierpinski_pixels(sz_x: u32, sz_y: u32, red: u8, green: u8, blue: u8) -> (pixels: Vec<u8>)
    requires
        fits(sz_x as int, sz_y as int),
    ensures
        pixels@ == sierpinski(sz_x as int, sz_y as int, red, green, blue),
{
    let ghost w = sz_x as int;
    let ghost rgba = seq![red, green, blue, 255u8];
    let mut pixels: Vec<u8> = Vec::new();
    let mut y: u32 = 0;
    while y < sz_y
        invariant
            fits(w, sz_y as int),
            w == sz_x,
            rgba == seq![red, green, blue, 255u8],
            y <= sz_y,
            pixels@.len() == 4 * (y * w),
            forall|k: int| 0 <= k < pixels@.len() ==> pixels@[k] == sierpinski_byte(w, k, rgba),
        decreases sz_y - y,
    {
        let mut x: u32 = 0;
        while x < sz_x
            invariant
                fits(w, sz_y as int),
                w == sz_x,
                rgba == seq![red, green, blue, 255u8],
                x <= sz_x,
                y < sz_y,
                pixels@.len() == 4 * (y * w + x),
                forall|k: int|
                    0 <= k < pixels@.len() ==> pixels@[k] == sierpinski_byte(w, k, rgba),
            decreases sz_x - x,
        {
            proof {
                lemma_row_bound(w, sz_y as int, x as int, y as int);
                assert(4 * (w * sz_y) <= u32::MAX) by (nonlinear_arith)
                    requires
                        fits(w, sz_y as int),
                ;
            }
            let ghost base = pixels@.len();
            if x & y == 0 {
                pixels.push(red);
                pixels.push(green);
                pixels.push(blue);
                pixels.push(255);
            } else {
                pixels.push(0);
                pixels.push(0);
                pixels.push(0);
                pixels.push(0);
            }
            proof {
                assert forall|k: int| 0 <= k < pixels@.len() implies pixels@[k] == sierpinski_byte(
                    w,
                    k,
                    rgba,
                ) by {
                    if k >= base {
                        lemma_pixel_offsets(w, x as int, y as int, k - base);
                    }
                }
            }
            x = x + 1;
        }
        proof {
            assert((y + 1) * w == y * w + w) by (nonlinear_arith);
        }
        y = y + 1;
    }
    proof {
        assert(4 * (sz_y * w) == 4 * w * sz_y) by (nonlinear_arith);
        assert(pixels@ =~= sierpinski(w, sz_y as int, red, green, blue));
    }
    pixels
}

/// A Sierpinski triangle in a colour drawn at random.
pub fn sierpinski_image(sz_x: u32, sz_y: u32, rng: &mut rand::rngs::ThreadRng) -> (pixels: Vec<
    u8,
>)
    requires
        fits(sz_x as int, sz_y as int),
    ensures
        exists|red: u8, green: u8, blue: u8|
            pixels@ == sierpinski(sz_x as int, sz_y as int, red, green, blue),
{
    let red = random_byte(rng);
    let green = random_byte(rng);
    let blue = random_byte(rng);
    sierpinski_pixels(sz_x, sz_y, red, green, blue)
}

impl Canvas {
    /// The buffer holds four bytes for each pixel, and the cursor points at
    /// a pixel (or at 0 on an empty canvas).
    pub open spec fn wf(&self) -> bool {
        &&& fits(self.width as int, self.height as int)
        &&& self.pixels@.len() == 4 * self.width * self.height
        &&& (self.pixels_index == 0 || self.pixels_index < self.width * self.height)
    }

    /// A blank canvas whose iteration bound is drawn at random from
    /// `[MIN_ITER, MAX_ITER)`.
    pub fn new(sz_x: u32, sz_y: u32, rng: &mut rand::rngs::ThreadRng) -> (c: Canvas)
        requires
            fits(sz_x as int, sz_y as int),
        ensures
            c.wf(),
            c.width == sz_x,
            c.height == sz_y,
            c.pixels_index == 0,
            forall|k: int| 0 <= k < c.pixels@.len() ==> c.pixels@[k] == 0,
            MIN_ITER <= c.max_iter < MAX_ITER,
    {
        let max_iter = random_in_range(rng, MIN_ITER, MAX_ITER);
        let mut c = Canvas { pixels_index: 0, pixels: Vec::new(), width: 0, height: 0, max_iter };
        c.create_image(sz_x, sz_y);
        c
    }

    /// Starts a blank `sz_x` by `sz_y` image, with the cursor at the start.
    pub fn create_image(&mut self, sz_x: u32, sz_y: u32)
        requires
            fits(sz_x as int, sz_y as int),
        ensures
            final(self).wf(),
            final(self).width == sz_x,
            final(self).height == sz_y,
            final(self).pixels_index == 0,
            forall|k: int| 0 <= k < final(self).pixels@.len() ==> final(self).pixels@[k] == 0,
            final(self).max_iter == old(self).max_iter,
    {
        proof {
            assert(4 * (sz_x * sz_y) == 4 * sz_x * sz_y) by (nonlinear_arith);
            assert(sz_x * sz_y <= 4 * (sz_x * sz_y)) by (nonlinear_arith);
        }
        let len = 4 * (sz_x * sz_y);
        let mut pixels: Vec<u8> = Vec::new();
        let mut k: u32 = 0;
        while k < len
            invariant
                k <= len,
                pixels@.len() == k,
                forall|j: int| 0 <= j < k ==> pixels@[j] == 0,
            decreases len - k,
        {
            pixels.push(0);
            k = k + 1;
        }
        self.pixels_index = 0;
        self.pixels = pixels;
        self.width = sz_x;
        self.height = sz_y;
    }

    /// Sends the cursor back to the start, so that the next passes redraw the
    /// whole image.
    pub fn reset_image(&mut self)
        requires
            old(self).wf(),
        ensures
            final(self).wf(),
            final(self).pixels_index == 0,
            final(self).pixels@ == old(self).pixels@,
            final(self).width == old(self).width,
            final(self).height == old(self).height,
            final(self).max_iter == old(self).max_iter,
    {
        self.pixels_index = 0;
    }

    /// Chooses the pixels of the next pass, at most `budget` of them, and
    /// moves the cursor to the last one. The result is a half open range of
    /// row-major pixel indices; it is empty once the image is complete.
    pub fn next_pass(&mut self, budget: u32) -> (r: (u32, u32))
        requires
            old(self).wf(),
        ensures
            final(self).wf(),
            (r.0 as int, r.1 as int) == pass_range(
                old(self).pixels_index as int,
                old(self).width * old(self).height,
                budget as int,
            ),
            final(self).pixels_index == if r.0 < r.1 {
                (r.1 - 1) as u32
            } else {
                old(self).pixels_index
            },
            final(self).pixels@ == old(self).pixels@,
            final(self).width == old(self).width,
            final(self).height == old(self).height,
            final(self).max_iter == old(self).max_iter,
    {
        proof {
            assert(self.width * self.height <= u32::MAX) by (nonlinear_arith)
                requires
                    fits(self.width as int, self.height as int),
            ;
        }
        let total = self.width * self.height;
        let last = self.pixels_index;
        let start = if last < total && total - last > 1 {
            last + 1
        } else {
            total
        };
        let end = if total - start > budget {
            start + budget
        } else {
            total
        };
        if start < end {
            self.pixels_index = end - 1;
        }
        (start, end)
    }

    /// Column and row of the pixel at row-major index `index`.
    pub fn pixel_position(&self, index: u32) -> (r: (u32, u32))
        requires
            self.wf(),
            index < self.width * self.height,
        ensures
            r.0 == index % self.width,
            r.1 == index / self.width,
            r.0 < self.width,
            r.1 < self.height,
            r.1 * self.width + r.0 == index,
    {
        proof {
            assert(self.width > 0) by (nonlinear_arith)
                requires
                    index < self.width * self.height,
            ;
            vstd::arithmetic::div_mod::lemma_fundamental_div_mod(index as int, self.width as int);
            assert(index / self.width < self.height) by (nonlinear_arith)
                requires
                    index < self.width * self.height,
                    index == self.width * (index / self.width) + index % self.width,
                    index % self.width >= 0,
                    self.width > 0,
            ;
            assert((index / self.width) * self.width == self.width * (index / self.width))
                by (nonlinear_arith);
        }
        (index % self.width, index / self.width)
    }

    /// Colours pixel `(x, y)` opaque `(red, green, blue)`.
    pub fn put_pixel(&mut self, x: u32, y: u32, red: u8, green: u8, blue: u8)
        requires
            old(self).wf(),
            x < old(self).width,
            y < old(self).height,
        ensures
            final(self).wf(),
            ({
                let base = 4 * (x + y * old(self).width);
                final(self).pixels@ == old(self).pixels@.update(base, red).update(
                    base + 1,
                    green,
                ).update(base + 2, blue).update(base + 3, 255u8)
            }),
            final(self).pixels_index == old(self).pixels_index,
            final(self).width == old(self).width,
            final(self).height == old(self).height,
            final(self).max_iter == old(self).max_iter,
    {
        proof {
            lemma_row_bound(self.width as int, self.height as int, x as int, y as int);
            assert(4 * self.width * self.height == 4 * (self.width * self.height))
                by (nonlinear_arith);
            assert(y * self.width == self.width * y) by (nonlinear_arith);
            assert(self.width * y == y * self.width) by (nonlinear_arith);
        }
        let index = 4 * (x + y * self.width) as usize;
        self.pixels.set(index, red);
        self.pixels.set(index + 1, green);
        self.pixels.set(index + 2, blue);
        self.pixels.set(index + 3, 255);
    }
}

} // verus!
