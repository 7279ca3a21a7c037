//! A rectangular grid of modules, stored row by row.
use vstd::prelude::*;

verus! {

/// `v`, or 1 where `v` is smaller.
pub open spec fn at_least_one(v: i32) -> int {
    if v >= 1 {
        v as int
    } else {
        1
    }
}

/// (`x`, `y`) lies between the circles of radius `r_in` and `r_out` about
/// (`cx`, `cy`), both included.
pub open spec fn in_annulus(x: int, y: int, cx: int, cy: int, r_in: int, r_out: int) -> bool {
    let d2 = (x - cx) * (x - cx) + (y - cy) * (y - cy);
    r_in * r_in <= d2 && d2 <= r_out * r_out
}

proof fn lemma_annulus_box(x: int, y: int, cx: int, cy: int, r_in: int, r_out: int)
    requires
        in_annulus(x, y, cx, cy, r_in, r_out),
        r_out >= 0,
    ensures
        -r_out <= x - cx <= r_out,
        -r_out <= y - cy <= r_out,
{
    let dx = x - cx;
    let dy = y - cy;
    assert(dx * dx <= r_out * r_out && dy * dy <= r_out * r_out) by (nonlinear_arith)
        requires
            dx * dx + dy * dy <= r_out * r_out,
    ;
    assert(-r_out <= dx <= r_out) by (nonlinear_arith)
        requires
            dx * dx <= r_out * r_out,
            r_out >= 0,
    ;
    assert(-r_out <= dy <= r_out) by (nonlinear_arith)
        requires
            dy * dy <= r_out * r_out,
            r_out >= 0,
    ;
}

/// A `width` by `height` grid of modules; `true` is a dark module.
#[derive(Clone, Debug)]
pub struct BitMatrix {
    data: Vec<bool>,
    width: usize,
    height: usize,
}

impl BitMatrix {
    /// The modules, row after row.
    pub closed spec fn cells(&self) -> Seq<bool> {
        self.data@
    }

    pub closed spec fn spec_width(&self) -> nat {
        self.width as nat
    }

    pub closed spec fn spec_height(&self) -> nat {
        self.height as nat
    }

    /// The grid holds exactly one cell per position.
    pub open spec fn wf(&self) -> bool {
        self.cells().len() == self.spec_width() * self.spec_height()
    }

    /// The module at column `x` of row `y`; light outside the grid.
    pub open spec fn bit(&self, x: int, y: int) -> bool {
        if 0 <= x < self.spec_width() && 0 <= y < self.spec_height() {
            self.cells()[y * self.spec_width() + x]
        } else {
            false
        }
    }

    /// This grid is the one-row pattern `row` drawn as bars `bar_width`
    /// pixels wide and `height` pixels tall.
    pub open spec fn is_bars(&self, row: Seq<bool>, bar_width: int, height: int) -> bool {
        &&& self.wf()
        &&& self.spec_width() == row.len() * bar_width
        &&& self.spec_height() == height
        &&& forall|x: int, y: int|
            0 <= x < self.spec_width() && 0 <= y < height ==> #[trigger] self.bit(x, y) == row[x
                / bar_width]
    }

    /// An all-light grid.
    pub fn new(width: usize, height: usize) -> (m: BitMatrix)
        requires
            width * height <= usize::MAX,
        ensures
            m.wf(),
            m.spec_width() == width,
            m.spec_height() == height,
            m.cells() == Seq::new((width * height) as nat, |i: int| false),
    {
        let n: usize = width * height;
        let mut data: Vec<bool> = Vec::new();
        let mut i: usize = 0;
        while i < n
            invariant
                i <= n,
                data@ == Seq::new(i as nat, |k: int| false),
            decreases n - i,
        {
            data.push(false);
            i += 1;
        }
        BitMatrix { data, width, height }
    }

    /// A `width` by `height` grid holding `data` row by row.
    pub fn from_grid(width: usize, height: usize, data: Vec<bool>) -> (m: BitMatrix)
        requires
            data@.len() == width * height,
        ensures
            m.wf(),
            m.spec_width() == width,
            m.spec_height() == height,
            m.cells() == data@,
    {
        BitMatrix { data, width, height }
    }

    /// A single-row grid holding `row`.
    pub fn from_row(row: Vec<bool>) -> (m: BitMatrix)
        ensures
            m.wf(),
            m.spec_width() == row@.len(),
            m.spec_height() == 1,
            m.cells() == row@,
    {
        let width = row.len();
        BitMatrix { data: row, width, height: 1 }
    }

    pub fn width(&self) -> (w: usize)
        ensures
            w == self.spec_width(),
    {
        self.width
    }

    pub fn height(&self) -> (h: usize)
        ensures
            h == self.spec_height(),
    {
        self.height
    }

    /// The module at (`x`, `y`); `false` outside the grid.
    pub fn get(&self, x: usize, y: usize) -> (b: bool)
        requires
            self.wf(),
        ensures
            b == self.bit(x as int, y as int),
    {
        let n = self.data.len();
        if x < self.width && y < self.height {
            proof {
                lemma_cell_index(x as int, y as int, self.width as int, self.height as int);
            }
            self.data[y * self.width + x]
        } else {
            false
        }
    }

    /// Sets the module at (`x`, `y`); positions outside the grid are ignored.
    pub fn set(&mut self, x: usize, y: usize, val: bool)
        requires
            old(self).wf(),
        ensures
            final(self).wf(),
            final(self).spec_width() == old(self).spec_width(),
            final(self).spec_height() == old(self).spec_height(),
            final(self).cells() == (if x < old(self).spec_width() && y < old(self).spec_height() {
                old(self).cells().update(y * old(self).spec_width() + x, val)
            } else {
                old(self).cells()
            }),
            forall|a: int, b: int|
                #[trigger] final(self).bit(a, b) == (if a == x && b == y && x < old(self).spec_width()
                    && y < old(self).spec_height() {
                    val
                } else {
                    old(self).bit(a, b)
                }),
    {
        let n = self.data.len();
        if x < self.width && y < self.height {
            proof {
                lemma_cell_index(x as int, y as int, self.width as int, self.height as int);
            }
            let k = y * self.width + x;
            self.data.set(k, val);
            proof {
                let w = self.width as int;
                let h = self.height as int;
                assert forall|a: int, b: int| #[trigger] self.bit(a, b) == (if a == x && b == y {
                    val
                } else {
                    old(self).bit(a, b)
                }) by {
                    if 0 <= a < w && 0 <= b < h {
                        lemma_grid_cell(w, h, a, b);
                        lemma_grid_cell(w, h, x as int, y as int);
                    }
                }
            }
        }
    }

    /// Sets `count` modules of the first row, starting at column `x`.
    pub fn set_range(&mut self, x: usize, count: usize, val: bool)
        requires
            old(self).wf(),
            x + count <= usize::MAX,
        ensures
            final(self).wf(),
            final(self).spec_width() == old(self).spec_width(),
            final(self).spec_height() == old(self).spec_height(),
            final(self).cells() == Seq::new(
                old(self).cells().len(),
                |k: int|
                    if old(self).spec_height() > 0 && x <= k < x + count && k
                        < old(self).spec_width() {
                        val
                    } else {
                        old(self).cells()[k]
                    },
            ),
    {
        let ghost start = self.cells();
        let mut i: usize = 0;
        while i < count
            invariant
                i <= count,
                x + count <= usize::MAX,
                self.wf(),
                self.spec_width() == old(self).spec_width(),
                self.spec_height() == old(self).spec_height(),
                start == old(self).cells(),
                self.cells() == Seq::new(
                    start.len(),
                    |k: int|
                        if self.spec_height() > 0 && x <= k < x + i && k < self.spec_width() {
                            val
                        } else {
                            start[k]
                        },
                ),
            decreases count - i,
        {
            let ghost before = self.cells();
            self.set(x + i, 0, val);
            proof {
                assert(0 * self.spec_width() + (x + i) == x + i) by (nonlinear_arith);
                assert(before.len() == start.len());
                if self.spec_height() > 0 && x + i < self.spec_width() {
                    let w = self.spec_width();
                    let h = self.spec_height();
                    assert(w <= w * h) by (nonlinear_arith)
                        requires
                            h > 0,
                    ;
                    assert(self.cells() == before.update(x + i, val));
                } else {
                    assert(self.cells() == before);
                }
                let target = Seq::new(
                    start.len(),
                    |k: int|
                        if self.spec_height() > 0 && x <= k < x + i + 1 && k < self.spec_width() {
                            val
                        } else {
                            start[k]
                        },
                );
                assert(self.cells().len() == target.len());
                assert forall|k: int| 0 <= k < target.len() implies self.cells()[k] == target[k] by {
                    assert(before[k] == (if self.spec_height() > 0 && x <= k < x + i && k
                        < self.spec_width() {
                        val
                    } else {
                        start[k]
                    }));
                }
                assert(self.cells() =~= target);
            }
            i += 1;
        }
    }
    /// The grid drawn with each module as a `scale_x` by `scale_y` block of
    /// pixels; the result has one cell per pixel, `true` where it is dark.
    pub fn to_image(&self, scale_x: usize, scale_y: usize) -> (img: BitMatrix)
        requires
            self.wf(),
            self.spec_width() * scale_x <= usize::MAX,
            self.spec_height() * scale_y <= usize::MAX,
            self.spec_width() * scale_x * (self.spec_height() * scale_y) <= usize::MAX,
        ensures
            img.wf(),
            img.spec_width() == self.spec_width() * scale_x,
            img.spec_height() == self.spec_height() * scale_y,
            forall|x: int, y: int|
                0 <= x < img.spec_width() && 0 <= y < img.spec_height() ==> #[trigger] img.bit(x, y)
                    == self.bit(x as int / scale_x as int, y as int / scale_y as int),
    {
        let iw = self.width * scale_x;
        let ih = self.height * scale_y;
        let ghost g = |x: int, y: int| self.bit(x as int / scale_x as int, y as int / scale_y as int);
        let f = |x: usize, y: usize| -> (b: bool)
            requires
                x < iw,
                y < ih,
            ensures
                b == self.bit(x as int / scale_x as int, y as int / scale_y as int),
        {
            if scale_x == 0 || scale_y == 0 {
                proof {
                    assert(false) by (nonlinear_arith)
                        requires
                            x < iw,
                            y < ih,
                            iw == self.spec_width() * scale_x,
                            ih == self.spec_height() * scale_y,
                            scale_x == 0 || scale_y == 0,
                    ;
                }
                false
            } else {
                self.get(x / scale_x, y / scale_y)
            }
        };
        BitMatrix::build(iw, ih, f, Ghost(g))
    }

    /// A one-row pattern drawn as bars: each module `bar_width` pixels wide
    /// and `height` pixels tall.
    pub fn to_1d_image(&self, bar_width: usize, height: usize) -> (img: BitMatrix)
        requires
            self.wf(),
            self.spec_width() * bar_width <= usize::MAX,
            self.spec_width() * bar_width * height <= usize::MAX,
        ensures
            img.wf(),
            img.spec_width() == self.spec_width() * bar_width,
            img.spec_height() == height,
            forall|x: int, y: int|
                0 <= x < img.spec_width() && 0 <= y < img.spec_height() ==> #[trigger] img.bit(x, y)
                    == self.bit(x as int / bar_width as int, 0),
            self.spec_height() == 1 ==> img.is_bars(self.cells(), bar_width as int, height as int),
    {
        let iw = self.width * bar_width;
        let ghost g = |x: int, y: int| self.bit(x as int / bar_width as int, 0);
        let f = |x: usize, y: usize| -> (b: bool)
            requires
                x < iw,
            ensures
                b == self.bit(x as int / bar_width as int, 0),
        {
            if bar_width == 0 {
                proof {
                    assert(false) by (nonlinear_arith)
                        requires
                            x < iw,
                            iw == self.spec_width() * bar_width,
                            bar_width == 0,
                    ;
                }
                false
            } else {
                self.get(x / bar_width, 0)
            }
        };
        let img = BitMatrix::build(iw, height, f, Ghost(g));
        proof {
            if self.spec_height() == 1 {
                assert forall|x: int, y: int|
                    0 <= x < img.spec_width() && 0 <= y < height implies #[trigger] img.bit(x, y)
                        == self.cells()[x / bar_width as int] by {
                    let w = self.spec_width() as int;
                    let b = bar_width as int;
                    assert(b > 0) by (nonlinear_arith)
                        requires
                            0 <= x < w * b,
                            b >= 0,
                    ;
                    assert(b * w == w * b) by (nonlinear_arith);
                    vstd::arithmetic::div_mod::lemma_multiply_divide_lt(x, b, w);
                    vstd::arithmetic::div_mod::lemma_div_pos_is_pos(x, b);
                    assert(0 * w + x / b == x / b);
                }
            }
        }
        img
    }

    /// Darkens every pixel of the grid between the circles of radius `r_in`
    /// and `r_out` about (`cx`, `cy`).
    pub(crate) fn paint_annulus(&mut self, cx: i64, cy: i64, r_in: i64, r_out: i64)
        requires
            old(self).wf(),
            0 <= r_in <= 0x10000,
            0 <= r_out <= 0x10000,
            -0x1_0000_0000 <= cx <= 0x1_0000_0000,
            -0x1_0000_0000 <= cy <= 0x1_0000_0000,
        ensures
            final(self).wf(),
            final(self).spec_width() == old(self).spec_width(),
            final(self).spec_height() == old(self).spec_height(),
            forall|a: int, b: int|
                #[trigger] final(self).bit(a, b) == (old(self).bit(a, b) || (0 <= a < old(
                    self,
                ).spec_width() && 0 <= b < old(self).spec_height() && in_annulus(
                    a,
                    b,
                    cx as int,
                    cy as int,
                    r_in as int,
                    r_out as int,
                ))),
    {
        let ghost w = self.spec_width() as int;
        let ghost h = self.spec_height() as int;
        let mut dy: i64 = -r_out;
        proof {
            assert forall|a: int, b: int|
                #[trigger] self.bit(a, b) == (old(self).bit(a, b) || (0 <= a < w && 0 <= b < h
                    && in_annulus(a, b, cx as int, cy as int, r_in as int, r_out as int) && b - cy
                    < dy)) by {
                if in_annulus(a, b, cx as int, cy as int, r_in as int, r_out as int) {
                    lemma_annulus_box(a, b, cx as int, cy as int, r_in as int, r_out as int);
                }
            }
        }
        while dy <= r_out
            invariant
                self.wf(),
                self.spec_width() == w,
                self.spec_height() == h,
                w == old(self).spec_width(),
                h == old(self).spec_height(),
                0 <= r_in <= 0x10000,
                0 <= r_out <= 0x10000,
                -0x1_0000_0000 <= cx <= 0x1_0000_0000,
                -0x1_0000_0000 <= cy <= 0x1_0000_0000,
                -r_out <= dy <= r_out + 1,
                forall|a: int, b: int|
                    #[trigger] self.bit(a, b) == (old(self).bit(a, b) || (0 <= a < w && 0 <= b < h
                        && in_annulus(a, b, cx as int, cy as int, r_in as int, r_out as int) && b
                        - cy < dy)),
            decreases r_out + 1 - dy,
        {
            let mut dx: i64 = -r_out;
            proof {
                assert forall|a: int, b: int|
                    #[trigger] self.bit(a, b) == (old(self).bit(a, b) || (0 <= a < w && 0 <= b < h
                        && in_annulus(a, b, cx as int, cy as int, r_in as int, r_out as int) && (b
                        - cy < dy || (b - cy == dy && a - cx < dx)))) by {
                    if in_annulus(a, b, cx as int, cy as int, r_in as int, r_out as int) {
                        lemma_annulus_box(a, b, cx as int, cy as int, r_in as int, r_out as int);
                    }
                }
            }
            while dx <= r_out
                invariant
                    self.wf(),
                    self.spec_width() == w,
                    self.spec_height() == h,
                    w == old(self).spec_width(),
                    h == old(self).spec_height(),
                    0 <= r_in <= 0x10000,
                    0 <= r_out <= 0x10000,
                    -0x1_0000_0000 <= cx <= 0x1_0000_0000,
                    -0x1_0000_0000 <= cy <= 0x1_0000_0000,
                    -r_out <= dy <= r_out,
                    -r_out <= dx <= r_out + 1,
                    forall|a: int, b: int|
                        #[trigger] self.bit(a, b) == (old(self).bit(a, b) || (0 <= a < w && 0 <= b
                            < h && in_annulus(a, b, cx as int, cy as int, r_in as int, r_out as int)
                            && (b - cy < dy || (b - cy == dy && a - cx < dx)))),
                decreases r_out + 1 - dx,
            {
                proof {
                    assert(0 <= dx * dx <= 0x10000 * 0x10000 && 0 <= dy * dy <= 0x10000 * 0x10000)
                        by (nonlinear_arith)
                        requires
                            -0x10000 <= dx <= 0x10000,
                            -0x10000 <= dy <= 0x10000,
                    ;
                    assert(r_in * r_in <= 0x10000 * 0x10000 && r_out * r_out <= 0x10000 * 0x10000)
                        by (nonlinear_arith)
                        requires
                            0 <= r_in <= 0x10000,
                            0 <= r_out <= 0x10000,
                    ;
                }
                let d2: i64 = dx * dx + dy * dy;
                let px: i64 = cx + dx;
                let py: i64 = cy + dy;
                let inside = r_in * r_in <= d2 && d2 <= r_out * r_out;
                if inside && px >= 0 && py >= 0 && (px as u64) < (self.width as u64) && (py as u64)
                    < (self.height as u64) {
                    let ghost before = *self;
                    self.set(px as usize, py as usize, true);
                    proof {
                        assert forall|a: int, b: int|
                            #[trigger] self.bit(a, b) == (old(self).bit(a, b) || (0 <= a < w && 0
                                <= b < h && in_annulus(
                                a,
                                b,
                                cx as int,
                                cy as int,
                                r_in as int,
                                r_out as int,
                            ) && (b - cy < dy || (b - cy == dy && a - cx < dx + 1)))) by {
                            assert(before.bit(a, b) == (old(self).bit(a, b) || (0 <= a < w && 0
                                <= b < h && in_annulus(
                                a,
                                b,
                                cx as int,
                                cy as int,
                                r_in as int,
                                r_out as int,
                            ) && (b - cy < dy || (b - cy == dy && a - cx < dx)))));
                        }
                    }
                } else {
                    proof {
                        assert forall|a: int, b: int|
                            #[trigger] self.bit(a, b) == (old(self).bit(a, b) || (0 <= a < w && 0
                                <= b < h && in_annulus(
                                a,
                                b,
                                cx as int,
                                cy as int,
                                r_in as int,
                                r_out as int,
                            ) && (b - cy < dy || (b - cy == dy && a - cx < dx + 1)))) by {
                            if b - cy == dy && a - cx == dx {
                                assert(a == px && b == py);
                            }
                        }
                    }
                }
                dx += 1;
            }
            proof {
                assert forall|a: int, b: int|
                    #[trigger] self.bit(a, b) == (old(self).bit(a, b) || (0 <= a < w && 0 <= b < h
                        && in_annulus(a, b, cx as int, cy as int, r_in as int, r_out as int) && b
                        - cy < dy + 1)) by {
                    if in_annulus(a, b, cx as int, cy as int, r_in as int, r_out as int) {
                        lemma_annulus_box(a, b, cx as int, cy as int, r_in as int, r_out as int);
                    }
                }
            }
            dy += 1;
        }
        proof {
            assert forall|a: int, b: int|
                #[trigger] self.bit(a, b) == (old(self).bit(a, b) || (0 <= a < w && 0 <= b < h
                    && in_annulus(a, b, cx as int, cy as int, r_in as int, r_out as int))) by {
                if in_annulus(a, b, cx as int, cy as int, r_in as int, r_out as int) {
                    lemma_annulus_box(a, b, cx as int, cy as int, r_in as int, r_out as int);
                }
            }
        }
    }

    /// A `width` by `height` grid whose module at (`x`, `y`) is what `f`
    /// gives for that position; `g` states it.
    pub(crate) fn build<F: Fn(usize, usize) -> bool>(
        width: usize,
        height: usize,
        f: F,
        Ghost(g): Ghost<spec_fn(int, int) -> bool>,
    ) -> (m: BitMatrix)
        requires
            width * height <= usize::MAX,
            forall|x: usize, y: usize| x < width && y < height ==> #[trigger] f.requires((x, y)),
            forall|x: usize, y: usize, b: bool|
                x < width && y < height && #[trigger] f.ensures((x, y), b) ==> b == g(
                    x as int,
                    y as int,
                ),
        ensures
            m.wf(),
            m.spec_width() == width,
            m.spec_height() == height,
            forall|x: int, y: int| 0 <= x < width && 0 <= y < height ==> #[trigger] m.bit(x, y) == g(x, y),
    {
        let mut data: Vec<bool> = Vec::new();
        let mut y: usize = 0;
        while y < height
            invariant
                y <= height,
                width * height <= usize::MAX,
                forall|x: usize, y: usize| x < width && y < height ==> #[trigger] f.requires((x, y)),
                forall|x: usize, y: usize, b: bool|
                    x < width && y < height && #[trigger] f.ensures((x, y), b) ==> b == g(
                        x as int,
                        y as int,
                    ),
                data@.len() == y * width,
                forall|k: int| 0 <= k < y * width ==> #[trigger] data@[k] == g(k % width as int, k / width as int),
            decreases height - y,
        {
            let mut x: usize = 0;
            proof {
                assert(y * width + width <= width * height) by (nonlinear_arith)
                    requires y < height;
            }
            while x < width
                invariant
                    x <= width,
                    y < height,
                    y * width + width <= width * height,
                    width * height <= usize::MAX,
                    forall|x: usize, y: usize| x < width && y < height ==> #[trigger] f.requires((x, y)),
                    forall|x: usize, y: usize, b: bool|
                        x < width && y < height && #[trigger] f.ensures((x, y), b) ==> b == g(
                            x as int,
                            y as int,
                        ),
                    data@.len() == y * width + x,
                    forall|k: int| 0 <= k < y * width + x ==> #[trigger] data@[k] == g(k % width as int, k / width as int),
                decreases width - x,
            {
                let b = f(x, y);
                proof {
                    lemma_grid_cell(width as int, height as int, x as int, y as int);
                }
                data.push(b);
                x += 1;
            }
            proof {
                assert((y + 1) * width == y * width + width) by (nonlinear_arith);
            }
            y += 1;
        }
        let m = BitMatrix { data, width, height };
        proof {
            assert(height * width == width * height) by (nonlinear_arith);
            assert forall|x: int, y: int| 0 <= x < width && 0 <= y < height implies #[trigger] m.bit(x, y) == g(x, y) by {
                lemma_grid_cell(width as int, height as int, x, y);
                assert(m.cells()[y * width + x] == g((y * width + x) % width as int, (y * width + x) / width as int));
            }
        }
        m
    }
}

/// Position (`x`, `y`) of a `w`-wide grid sits at `y * w + x`, and that index
/// gives the position back.
pub proof fn lemma_grid_cell(w: int, h: int, x: int, y: int)
    requires
        0 <= x < w,
        0 <= y < h,
    ensures
        0 <= y * w + x < w * h,
        (y * w + x) % w == x,
        (y * w + x) / w == y,
{
    lemma_cell_index(x, y, w, h);
    vstd::arithmetic::div_mod::lemma_fundamental_div_mod_converse(y * w + x, w, y, x);
}


proof fn lemma_cell_index(x: int, y: int, w: int, h: int)
    by (nonlinear_arith)
    requires
        0 <= x < w,
        0 <= y < h,
    ensures
        0 <= y * w + x < w * h,
        y * w + x <= w * h,
{
}

} // verus!
