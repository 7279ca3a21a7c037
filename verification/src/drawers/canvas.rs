//! A label drawing as a grid of RGBA pixels.
use vstd::prelude::*;

verus! {

/// One RGBA pixel.
#[derive(Clone, Copy, Debug, PartialEq, Eq, Structural)]
pub struct Color {
    pub r: u8,
    pub g: u8,
    pub b: u8,
    pub a: u8,
}

/// Opaque black.
pub open spec fn black() -> Color {
    Color { r: 0, g: 0, b: 0, a: 255 }
}

/// Opaque white.
pub open spec fn white() -> Color {
    Color { r: 255, g: 255, b: 255, a: 255 }
}

/// Fully transparent.
pub open spec fn clear() -> Color {
    Color { r: 0, g: 0, b: 0, a: 0 }
}

/// Opaque black.
pub fn black_pixel() -> (c: Color)
    ensures
        c == black(),
{
    Color { r: 0, g: 0, b: 0, a: 255 }
}

/// Opaque white.
pub fn white_pixel() -> (c: Color)
    ensures
        c == white(),
{
    Color { r: 255, g: 255, b: 255, a: 255 }
}

/// Fully transparent.
pub fn clear_pixel() -> (c: Color)
    ensures
        c == clear(),
{
    Color { r: 0, g: 0, b: 0, a: 0 }
}

/// A `width` by `height` grid of pixels, stored row by row.
#[derive(Clone, Debug)]
pub struct Canvas {
    width: u32,
    height: u32,
    pixels: Vec<Color>,
}

impl Canvas {
    pub closed spec fn spec_width(&self) -> nat {
        self.width as nat
    }

    pub closed spec fn spec_height(&self) -> nat {
        self.height as nat
    }

    /// The pixels, row after row.
    pub closed spec fn cells(&self) -> Seq<Color> {
        self.pixels@
    }

    /// One pixel per position.
    pub open spec fn wf(&self) -> bool {
        &&& self.cells().len() == self.spec_width() * self.spec_height()
        &&& self.spec_width() * self.spec_height() <= usize::MAX
    }

    /// The pixel at column `x` of row `y` (meaningful inside the grid).
    pub open spec fn pixel(&self, x: int, y: int) -> Color {
        self.cells()[y * self.spec_width() + x]
    }

    /// (`x`, `y`) lies inside the grid.
    pub open spec fn contains(&self, x: int, y: int) -> bool {
        0 <= x < self.spec_width() && 0 <= y < self.spec_height()
    }

    /// A copy of this grid.
    pub fn clone_canvas(&self) -> (c: Canvas)
        ensures
            c.spec_width() == self.spec_width(),
            c.spec_height() == self.spec_height(),
            c.cells() == self.cells(),
    {
        let mut pixels: Vec<Color> = Vec::new();
        let mut i: usize = 0;
        while i < self.pixels.len()
            invariant
                i <= self.pixels@.len(),
                pixels@ == self.pixels@.take(i as int),
            decreases self.pixels@.len() - i,
        {
            pixels.push(self.pixels[i]);
            i += 1;
            proof {
                assert(pixels@ =~= self.pixels@.take(i as int));
            }
        }
        proof {
            assert(pixels@ =~= self.pixels@);
        }
        Canvas { width: self.width, height: self.height, pixels }
    }

    /// A grid of one colour.
    pub fn new(width: u32, height: u32, fill: Color) -> (c: Canvas)
        requires
            width * height <= usize::MAX,
        ensures
            c.wf(),
            c.spec_width() == width,
            c.spec_height() == height,
            forall|x: int, y: int| c.contains(x, y) ==> #[trigger] c.pixel(x, y) == fill,
    {
        let ghost g = |x: int, y: int| fill;
        let f = |x: u32, y: u32| -> (v: Color)
            ensures
                v == fill,
        { fill };
        Canvas::build(width, height, f, Ghost(g))
    }

    pub fn width(&self) -> (w: u32)
        ensures
            w == self.spec_width(),
    {
        self.width
    }

    pub fn height(&self) -> (h: u32)
        ensures
            h == self.spec_height(),
    {
        self.height
    }

    /// The pixel at (`x`, `y`).
    pub fn get_pixel(&self, x: u32, y: u32) -> (c: Color)
        requires
            self.wf(),
            self.contains(x as int, y as int),
        ensures
            c == self.pixel(x as int, y as int),
    {
        proof {
            lemma_index(self.width as int, self.height as int, x as int, y as int);
        }
        self.pixels[(y as usize) * (self.width as usize) + (x as usize)]
    }

    /// Sets the pixel at (`x`, `y`).
    pub fn put_pixel(&mut self, x: u32, y: u32, c: Color)
        requires
            old(self).wf(),
            old(self).contains(x as int, y as int),
        ensures
            final(self).wf(),
            final(self).spec_width() == old(self).spec_width(),
            final(self).spec_height() == old(self).spec_height(),
            forall|a: int, b: int|
                final(self).contains(a, b) ==> #[trigger] final(self).pixel(a, b) == (if a == x && b
                    == y {
                    c
                } else {
                    old(self).pixel(a, b)
                }),
    {
        proof {
            lemma_index(self.width as int, self.height as int, x as int, y as int);
        }
        let k = (y as usize) * (self.width as usize) + (x as usize);
        self.pixels.set(k, c);
        proof {
            let w = self.width as int;
            let h = self.height as int;
            assert forall|a: int, b: int| self.contains(a, b) implies #[trigger] self.pixel(a, b) == (
            if a == x && b == y {
                c
            } else {
                old(self).pixel(a, b)
            }) by {
                lemma_index(w, h, a, b);
                lemma_index(w, h, x as int, y as int);
            }
        }
    }

    /// A `width` by `height` grid whose pixel at (`x`, `y`) is what `f`
    /// gives for that position; `g` states it.
    pub(crate) fn build<F: Fn(u32, u32) -> Color>(
        width: u32,
        height: u32,
        f: F,
        Ghost(g): Ghost<spec_fn(int, int) -> Color>,
    ) -> (c: Canvas)
        requires
            width * height <= usize::MAX,
            forall|x: u32, y: u32| x < width && y < height ==> #[trigger] f.requires((x, y)),
            forall|x: u32, y: u32, v: Color|
                x < width && y < height && #[trigger] f.ensures((x, y), v) ==> v == g(
                    x as int,
                    y as int,
                ),
        ensures
            c.wf(),
            c.spec_width() == width,
            c.spec_height() == height,
            forall|x: int, y: int| c.contains(x, y) ==> #[trigger] c.pixel(x, y) == g(x, y),
    {
        let mut data: Vec<Color> = Vec::new();
        let mut y: u32 = 0;
        while y < height
            invariant
                y <= height,
                width * height <= usize::MAX,
                forall|x: u32, y: u32| x < width && y < height ==> #[trigger] f.requires((x, y)),
                forall|x: u32, y: u32, v: Color|
                    x < width && y < height && #[trigger] f.ensures((x, y), v) ==> v == g(
                        x as int,
                        y as int,
                    ),
                data@.len() == y * width,
                forall|k: int|
                    0 <= k < y * width ==> #[trigger] data@[k] == g(
                        k % width as int,
                        k / width as int,
                    ),
            decreases height - y,
        {
            let mut x: u32 = 0;
            proof {
                assert(y * width + width <= width * height) by (nonlinear_arith)
                    requires
                        y < height,
                ;
            }
            while x < width
                invariant
                    x <= width,
                    y < height,
                    y * width + width <= width * height,
                    width * height <= usize::MAX,
                    forall|x: u32, y: u32| x < width && y < height ==> #[trigger] f.requires((x, y)),
                    forall|x: u32, y: u32, v: Color|
                        x < width && y < height && #[trigger] f.ensures((x, y), v) ==> v == g(
                            x as int,
                            y as int,
                        ),
                    data@.len() == y * width + x,
                    forall|k: int|
                        0 <= k < y * width + x ==> #[trigger] data@[k] == g(
                            k % width as int,
                            k / width as int,
                        ),
                decreases width - x,
            {
                let v = f(x, y);
                proof {
                    lemma_index(width as int, height as int, x as int, y as int);
                }
                data.push(v);
                x += 1;
            }
            proof {
                assert((y + 1) * width == y * width + width) by (nonlinear_arith);
            }
            y += 1;
        }
        let c = Canvas { width, height, pixels: data };
        proof {
            assert(height * width == width * height) by (nonlinear_arith);
            assert forall|x: int, y: int| c.contains(x, y) implies #[trigger] c.pixel(x, y) == g(
                x,
                y,
            ) by {
                lemma_index(width as int, height as int, x, y);
                assert(c.cells()[y * width + x] == g(
                    (y * width + x) % width as int,
                    (y * width + x) / width as int,
                ));
            }
        }
        c
    }
}

impl Canvas {
    /// Sets to `color` every pixel where `inside` holds (as `p` states it).
    pub(crate) fn paint_where<P: Fn(u32, u32) -> bool>(
        &mut self,
        inside: P,
        Ghost(p): Ghost<spec_fn(int, int) -> bool>,
        color: Color,
    )
        requires
            old(self).wf(),
            forall|x: u32, y: u32|
                old(self).contains(x as int, y as int) ==> #[trigger] inside.requires((x, y)),
            forall|x: u32, y: u32, v: bool|
                old(self).contains(x as int, y as int) && #[trigger] inside.ensures((x, y), v) ==> v
                    == p(x as int, y as int),
        ensures
            final(self).wf(),
            final(self).spec_width() == old(self).spec_width(),
            final(self).spec_height() == old(self).spec_height(),
            forall|x: int, y: int|
                final(self).contains(x, y) ==> #[trigger] final(self).pixel(x, y) == (if p(x, y) {
                    color
                } else {
                    old(self).pixel(x, y)
                }),
    {
        let w = self.width;
        let h = self.height;
        let ghost g = |x: int, y: int|
            if p(x, y) {
                color
            } else {
                old(self).pixel(x, y)
            };
        let next = {
            let src = &*self;
            let f = |x: u32, y: u32| -> (v: Color)
                requires
                    x < w,
                    y < h,
                ensures
                    v == (if p(x as int, y as int) {
                        color
                    } else {
                        src.pixel(x as int, y as int)
                    }),
            {
                if inside(x, y) {
                    color
                } else {
                    src.get_pixel(x, y)
                }
            };
            Canvas::build(w, h, f, Ghost(g))
        };
        *self = next;
    }
}

/// (`x`, `y`) lies in the `w` by `h` rectangle whose top left is (`rx`, `ry`).
pub open spec fn in_rect(x: int, y: int, rx: int, ry: int, w: int, h: int) -> bool {
    rx <= x < rx + w && ry <= y < ry + h
}

/// Fills the `w` by `h` rectangle at (`x`, `y`) with `color`, clipped to the
/// canvas.
pub fn draw_filled_rect(canvas: &mut Canvas, x: i32, y: i32, w: i32, h: i32, color: Color)
    requires
        old(canvas).wf(),
        i32::MIN <= x + w <= i32::MAX,
        i32::MIN <= y + h <= i32::MAX,
    ensures
        final(canvas).wf(),
        final(canvas).spec_width() == old(canvas).spec_width(),
        final(canvas).spec_height() == old(canvas).spec_height(),
        forall|a: int, b: int|
            final(canvas).contains(a, b) ==> #[trigger] final(canvas).pixel(a, b) == (if in_rect(
                a,
                b,
                x as int,
                y as int,
                w as int,
                h as int,
            ) {
                color
            } else {
                old(canvas).pixel(a, b)
            }),
{
    let ghost p = |a: int, b: int| in_rect(a, b, x as int, y as int, w as int, h as int);
    let inside = |a: u32, b: u32| -> (v: bool)
        ensures
            v == in_rect(a as int, b as int, x as int, y as int, w as int, h as int),
    {
        let a = a as i64;
        let b = b as i64;
        x as i64 <= a && a < x as i64 + w as i64 && y as i64 <= b && b < y as i64 + h as i64
    };
    canvas.paint_where(inside, Ghost(p), color);
}

/// Pixel (`lx`, `ly`) of a `w` by `h` rectangle falls outside its corners
/// rounded with radius `r`.
pub open spec fn in_corner(lx: int, ly: int, w: int, h: int, r: int) -> bool {
    let r2 = r * r;
    if lx < r && ly < r {
        (r - 1 - lx) * (r - 1 - lx) + (r - 1 - ly) * (r - 1 - ly) > r2
    } else if lx >= w - r && ly < r {
        (lx - (w - r)) * (lx - (w - r)) + (r - 1 - ly) * (r - 1 - ly) > r2
    } else if lx < r && ly >= h - r {
        (r - 1 - lx) * (r - 1 - lx) + (ly - (h - r)) * (ly - (h - r)) > r2
    } else if lx >= w - r && ly >= h - r {
        (lx - (w - r)) * (lx - (w - r)) + (ly - (h - r)) * (ly - (h - r)) > r2
    } else {
        false
    }
}

fn in_corner_exec(lx: i64, ly: i64, w: i64, h: i64, r: i64) -> (v: bool)
    requires
        -0x1_0000_0000 <= lx <= 0x1_0000_0000,
        -0x1_0000_0000 <= ly <= 0x1_0000_0000,
        -0x1_0000_0000 <= w <= 0x1_0000_0000,
        -0x1_0000_0000 <= h <= 0x1_0000_0000,
        -0x1_0000_0000 <= r <= 0x1_0000_0000,
    ensures
        v == in_corner(lx as int, ly as int, w as int, h as int, r as int),
{
    let (dx, dy): (i128, i128) = if lx < r && ly < r {
        ((r - 1 - lx) as i128, (r - 1 - ly) as i128)
    } else if lx >= w - r && ly < r {
        ((lx - (w - r)) as i128, (r - 1 - ly) as i128)
    } else if lx < r && ly >= h - r {
        ((r - 1 - lx) as i128, (ly - (h - r)) as i128)
    } else if lx >= w - r && ly >= h - r {
        ((lx - (w - r)) as i128, (ly - (h - r)) as i128)
    } else {
        return false;
    };
    proof {
        assert(0 <= dx * dx <= 0x10_0000_0000 * 0x10_0000_0000 && 0 <= dy * dy <= 0x10_0000_0000
            * 0x10_0000_0000 && 0 <= (r as i128) * (r as i128) <= 0x10_0000_0000 * 0x10_0000_0000)
            by (nonlinear_arith)
            requires
                -0x10_0000_0000 <= dx <= 0x10_0000_0000,
                -0x10_0000_0000 <= dy <= 0x10_0000_0000,
                -0x10_0000_0000 <= r <= 0x10_0000_0000,
        ;
    }
    dx * dx + dy * dy > (r as i128) * (r as i128)
}

/// Fills the `w` by `h` rectangle at (`x`, `y`) with `color`, leaving out
/// what lies beyond its corners rounded with radius `r`.
pub fn draw_filled_rounded_rect_region(
    canvas: &mut Canvas,
    x: i32,
    y: i32,
    w: i32,
    h: i32,
    r: i32,
    color: Color,
)
    requires
        old(canvas).wf(),
    ensures
        final(canvas).wf(),
        final(canvas).spec_width() == old(canvas).spec_width(),
        final(canvas).spec_height() == old(canvas).spec_height(),
        forall|a: int, b: int|
            final(canvas).contains(a, b) ==> #[trigger] final(canvas).pixel(a, b) == (if in_rect(
                a,
                b,
                x as int,
                y as int,
                w as int,
                h as int,
            ) && !in_corner(a - x, b - y, w as int, h as int, r as int) {
                color
            } else {
                old(canvas).pixel(a, b)
            }),
{
    let ghost p = |a: int, b: int|
        in_rect(a, b, x as int, y as int, w as int, h as int) && !in_corner(
            a - x,
            b - y,
            w as int,
            h as int,
            r as int,
        );
    let inside = |a: u32, b: u32| -> (v: bool)
        ensures
            v == (in_rect(a as int, b as int, x as int, y as int, w as int, h as int) && !in_corner(
                a - x,
                b - y,
                w as int,
                h as int,
                r as int,
            )),
    {
        let a = a as i64;
        let b = b as i64;
        if x as i64 <= a && a < x as i64 + w as i64 && y as i64 <= b && b < y as i64 + h as i64 {
            !in_corner_exec(a - x as i64, b - y as i64, w as i64, h as i64, r as i64)
        } else {
            false
        }
    };
    canvas.paint_where(inside, Ghost(p), color);
}

/// The pixel of `img` that lands on (`a`, `b`) when its top left is put at
/// (`x`, `y`), if it is not transparent.
pub open spec fn overlay_source(img: Canvas, x: int, y: int, a: int, b: int) -> Option<Color> {
    if img.contains(a - x, b - y) && img.pixel(a - x, b - y).a > 0 {
        Some(img.pixel(a - x, b - y))
    } else {
        None
    }
}

/// Puts `img` on the canvas with its top left at (`x`, `y`): each pixel of
/// it that is not transparent replaces the canvas pixel under it.
pub fn overlay_at(canvas: &mut Canvas, img: &Canvas, x: i32, y: i32)
    requires
        old(canvas).wf(),
        img.wf(),
    ensures
        final(canvas).wf(),
        final(canvas).spec_width() == old(canvas).spec_width(),
        final(canvas).spec_height() == old(canvas).spec_height(),
        forall|a: int, b: int|
            final(canvas).contains(a, b) ==> #[trigger] final(canvas).pixel(a, b) == match overlay_source(
                *img,
                x as int,
                y as int,
                a,
                b,
            ) {
                Some(c) => c,
                None => old(canvas).pixel(a, b),
            },
{
    let w = canvas.width();
    let h = canvas.height();
    let iw = img.width();
    let ih = img.height();
    let ghost g = |a: int, b: int|
        match overlay_source(*img, x as int, y as int, a, b) {
            Some(c) => c,
            None => old(canvas).pixel(a, b),
        };
    let next = {
        let src = &*canvas;
        let f = |a: u32, b: u32| -> (v: Color)
            requires
                a < w,
                b < h,
            ensures
                v == match overlay_source(*img, x as int, y as int, a as int, b as int) {
                    Some(c) => c,
                    None => src.pixel(a as int, b as int),
                },
        {
            let ix: i64 = a as i64 - x as i64;
            let iy: i64 = b as i64 - y as i64;
            if 0 <= ix && ix < iw as i64 && 0 <= iy && iy < ih as i64 {
                let c = img.get_pixel(ix as u32, iy as u32);
                if c.a > 0 {
                    return c;
                }
            }
            src.get_pixel(a, b)
        };
        Canvas::build(w, h, f, Ghost(g))
    };
    *canvas = next;
}

/// Position (`x`, `y`) of a `w`-wide grid sits at `y * w + x`, inside the
/// grid, and that index gives the position back.
pub proof fn lemma_index(w: int, h: int, x: int, y: int)
    requires
        0 <= x < w,
        0 <= y < h,
    ensures
        0 <= y * w + x < w * h,
        (y * w + x) % w == x,
        (y * w + x) / w == y,
{
    assert(0 <= y * w + x < w * h) by (nonlinear_arith)
        requires
            0 <= x < w,
            0 <= y < h,
    ;
    vstd::arithmetic::div_mod::lemma_fundamental_div_mod_converse(y * w + x, w, y, x);
}

/// `img` turned a quarter clockwise.
pub fn rotate_90(img: &Canvas) -> (out: Canvas)
    requires
        img.wf(),
    ensures
        out.wf(),
        out.spec_width() == img.spec_height(),
        out.spec_height() == img.spec_width(),
        forall|x: int, y: int|
            out.contains(x, y) ==> #[trigger] out.pixel(x, y) == img.pixel(
                y,
                img.spec_height() - 1 - x,
            ),
{
    let w = img.width();
    let h = img.height();
    proof {
        assert(h * w == w * h) by (nonlinear_arith);
    }
    let ghost g = |x: int, y: int| img.pixel(y, h - 1 - x);
    let f = |x: u32, y: u32| -> (v: Color)
        requires
            x < h,
            y < w,
        ensures
            v == img.pixel(y as int, h - 1 - x),
    { img.get_pixel(y, h - 1 - x) };
    Canvas::build(h, w, f, Ghost(g))
}

/// `img` turned half a turn.
pub fn rotate_180(img: &Canvas) -> (out: Canvas)
    requires
        img.wf(),
    ensures
        out.wf(),
        out.spec_width() == img.spec_width(),
        out.spec_height() == img.spec_height(),
        forall|x: int, y: int|
            out.contains(x, y) ==> #[trigger] out.pixel(x, y) == img.pixel(
                img.spec_width() - 1 - x,
                img.spec_height() - 1 - y,
            ),
{
    let w = img.width();
    let h = img.height();
    let ghost g = |x: int, y: int| img.pixel(w - 1 - x, h - 1 - y);
    let f = |x: u32, y: u32| -> (v: Color)
        requires
            x < w,
            y < h,
        ensures
            v == img.pixel(w - 1 - x, h - 1 - y),
    { img.get_pixel(w - 1 - x, h - 1 - y) };
    Canvas::build(w, h, f, Ghost(g))
}

/// `img` turned a quarter counter-clockwise.
pub fn rotate_270(img: &Canvas) -> (out: Canvas)
    requires
        img.wf(),
    ensures
        out.wf(),
        out.spec_width() == img.spec_height(),
        out.spec_height() == img.spec_width(),
        forall|x: int, y: int|
            out.contains(x, y) ==> #[trigger] out.pixel(x, y) == img.pixel(
                img.spec_width() - 1 - y,
                x,
            ),
{
    let w = img.width();
    let h = img.height();
    proof {
        assert(h * w == w * h) by (nonlinear_arith);
    }
    let ghost g = |x: int, y: int| img.pixel(w - 1 - y, x);
    let f = |x: u32, y: u32| -> (v: Color)
        requires
            x < h,
            y < w,
        ensures
            v == img.pixel(w - 1 - y, x as int),
    { img.get_pixel(w - 1 - y, x) };
    Canvas::build(h, w, f, Ghost(g))
}

} // verus!
