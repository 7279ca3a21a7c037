//! The placement rules of the renderer: where an element's image goes, how it
//! is turned, and how boxes, graphic fields and the finished label are drawn
//! on the canvas. Text and curves are drawn by the caller.
use vstd::prelude::*;
use crate::barcodes::bit_matrix::BitMatrix;
use crate::drawers::canvas::{
    Canvas, Color, black, white, clear, black_pixel, white_pixel, clear_pixel, draw_filled_rect,
    draw_filled_rounded_rect_region, in_rect, in_corner, overlay_at, overlay_source, rotate_90,
    rotate_180, rotate_270,
};
use crate::elements::field_orientation::FieldOrientation;
use crate::elements::graphic_box::GraphicBox;
use crate::elements::graphic_field::GraphicField;
use crate::elements::label_position::LabelPosition;
use crate::elements::line_color::LineColor;

verus! {

/// Draws labels; it holds no state of its own.
pub struct Renderer;

impl Renderer {
    pub fn new() -> (r: Renderer)
        ensures
            r == Renderer,
    {
        Renderer
    }
}

/// The colour a line colour stands for.
pub open spec fn line_rgba(color: LineColor) -> Color {
    match color {
        LineColor::Black => black(),
        LineColor::White => white(),
    }
}

pub fn line_color_to_rgba(color: LineColor) -> (c: Color)
    ensures
        c == line_rgba(color),
{
    match color {
        LineColor::Black => black_pixel(),
        LineColor::White => white_pixel(),
    }
}

/// A grid of modules as an image: dark modules black, the rest transparent.
pub fn bits_image(m: &BitMatrix) -> (img: Canvas)
    requires
        m.wf(),
        m.spec_width() <= u32::MAX,
        m.spec_height() <= u32::MAX,
        m.spec_width() * m.spec_height() <= usize::MAX,
    ensures
        img.wf(),
        img.spec_width() == m.spec_width(),
        img.spec_height() == m.spec_height(),
        forall|x: int, y: int|
            img.contains(x, y) ==> #[trigger] img.pixel(x, y) == (if m.bit(x, y) {
                black()
            } else {
                clear()
            }),
{
    let w = m.width() as u32;
    let h = m.height() as u32;
    let ghost g = |x: int, y: int|
        if m.bit(x, y) {
            black()
        } else {
            clear()
        };
    let f = |x: u32, y: u32| -> (v: Color)
        requires
            m.wf(),
        ensures
            v == (if m.bit(x as int, y as int) {
                black()
            } else {
                clear()
            }),
    {
        if m.get(x as usize, y as usize) {
            black_pixel()
        } else {
            clear_pixel()
        }
    };
    Canvas::build(w, h, f, Ghost(g))
}

/// Where an image of `w` by `h` pixels goes for a field at `pos` turned by
/// `ori`: a field placed by its bottom edge (`^FT`) is moved up (or left, or
/// across) by the image's size; the moves up and left by the height stop at 0.
pub open spec fn typeset_position(w: int, h: int, pos: LabelPosition, ori: FieldOrientation) -> LabelPosition {
    if !pos.calculate_from_bottom {
        pos
    } else {
        let x: int = match ori {
            FieldOrientation::Rotated180 => pos.x - w,
            FieldOrientation::Rotated270 => if pos.x - h >= 0 {
                pos.x - h
            } else {
                0
            },
            _ => pos.x as int,
        };
        let y: int = match ori {
            FieldOrientation::Normal => if pos.y - h >= 0 {
                pos.y - h
            } else {
                0
            },
            FieldOrientation::Rotated270 => pos.y - w,
            _ => pos.y as int,
        };
        LabelPosition {
            x: x as i32,
            y: y as i32,
            calculate_from_bottom: false,
            automatic_position: false,
        }
    }
}

/// The top left corner for `img` placed at `pos` turned by `ori`; see
/// [`typeset_position`].
pub fn adjust_image_typeset_position(img: &Canvas, pos: &LabelPosition, ori: FieldOrientation) -> (r:
    LabelPosition)
    requires
        img.spec_width() <= i32::MAX,
        img.spec_height() <= i32::MAX,
        pos.calculate_from_bottom ==> match ori {
            FieldOrientation::Normal => pos.y - img.spec_height() >= i32::MIN,
            FieldOrientation::Rotated180 => pos.x - img.spec_width() >= i32::MIN,
            FieldOrientation::Rotated270 => pos.x - img.spec_height() >= i32::MIN && pos.y
                - img.spec_width() >= i32::MIN,
            FieldOrientation::Rotated90 => true,
        },
    ensures
        r == typeset_position(img.spec_width() as int, img.spec_height() as int, *pos, ori),
{
    if !pos.calculate_from_bottom {
        return *pos;
    }
    let width = img.width() as i32;
    let height = img.height() as i32;
    let mut x = pos.x;
    let mut y = pos.y;
    match ori {
        FieldOrientation::Normal => {
            y = if y - height >= 0 {
                y - height
            } else {
                0
            };
        },
        FieldOrientation::Rotated180 => {
            x = x - width;
        },
        FieldOrientation::Rotated270 => {
            x = if x - height >= 0 {
                x - height
            } else {
                0
            };
            y = y - width;
        },
        FieldOrientation::Rotated90 => {},
    }
    LabelPosition { x, y, calculate_from_bottom: false, automatic_position: false }
}

/// `img` turned by `ori`.
pub open spec fn turned(img: Canvas, ori: FieldOrientation, out: Canvas) -> bool {
    match ori {
        FieldOrientation::Normal => out.wf() && out.spec_width() == img.spec_width()
            && out.spec_height() == img.spec_height() && forall|x: int, y: int|
            out.contains(x, y) ==> #[trigger] out.pixel(x, y) == img.pixel(x, y),
        FieldOrientation::Rotated90 => out.wf() && out.spec_width() == img.spec_height()
            && out.spec_height() == img.spec_width() && forall|x: int, y: int|
            out.contains(x, y) ==> #[trigger] out.pixel(x, y) == img.pixel(
                y,
                img.spec_height() - 1 - x,
            ),
        FieldOrientation::Rotated180 => out.wf() && out.spec_width() == img.spec_width()
            && out.spec_height() == img.spec_height() && forall|x: int, y: int|
            out.contains(x, y) ==> #[trigger] out.pixel(x, y) == img.pixel(
                img.spec_width() - 1 - x,
                img.spec_height() - 1 - y,
            ),
        FieldOrientation::Rotated270 => out.wf() && out.spec_width() == img.spec_height()
            && out.spec_height() == img.spec_width() && forall|x: int, y: int|
            out.contains(x, y) ==> #[trigger] out.pixel(x, y) == img.pixel(
                img.spec_width() - 1 - y,
                x,
            ),
    }
}

/// `img` turned by `orientation`.
pub fn rotate(img: &Canvas, orientation: FieldOrientation) -> (out: Canvas)
    requires
        img.wf(),
    ensures
        out.wf(),
        turned(*img, orientation, out),
{
    match orientation {
        FieldOrientation::Normal => img.clone_canvas(),
        FieldOrientation::Rotated90 => rotate_90(img),
        FieldOrientation::Rotated180 => rotate_180(img),
        FieldOrientation::Rotated270 => rotate_270(img),
    }
}

/// Puts `img`, turned by `orientation`, on the canvas with its top left at
/// `pos`.
pub fn overlay_with_rotation(
    canvas: &mut Canvas,
    img: &Canvas,
    pos: &LabelPosition,
    orientation: FieldOrientation,
)
    requires
        old(canvas).wf(),
        img.wf(),
    ensures
        final(canvas).wf(),
        final(canvas).spec_width() == old(canvas).spec_width(),
        final(canvas).spec_height() == old(canvas).spec_height(),
        exists|t: Canvas|
            turned(*img, orientation, t) && t.wf() && forall|a: int, b: int|
                final(canvas).contains(a, b) ==> #[trigger] final(canvas).pixel(a, b)
                    == match overlay_source(t, pos.x as int, pos.y as int, a, b) {
                    Some(c) => c,
                    None => old(canvas).pixel(a, b),
                },
{
    let t = rotate(img, orientation);
    overlay_at(canvas, &t, pos.x, pos.y);
    proof {
        assert(turned(*img, orientation, t));
    }
}

/// `v / 2` rounded toward zero, as Rust divides.
pub open spec fn half(v: int) -> int {
    if v >= 0 {
        v / 2
    } else {
        -((-v) / 2)
    }
}

/// The corner radius of a box: the shorter side halved, times `rounding`
/// eighths, rounded half away from zero.
pub open spec fn corner_radius(shorter: int, rounding: int) -> int {
    let p = shorter * rounding;
    let r = if p >= 0 {
        (p + 8) / 16
    } else {
        -((-p + 8) / 16)
    };
    if r > i32::MAX {
        i32::MAX as int
    } else if r < i32::MIN {
        i32::MIN as int
    } else {
        r
    }
}

/// The sides of a box: at least the border width.
pub open spec fn box_w(gb: GraphicBox) -> int {
    if gb.width >= gb.border_thickness {
        gb.width as int
    } else {
        gb.border_thickness as int
    }
}

pub open spec fn box_h(gb: GraphicBox) -> int {
    if gb.height >= gb.border_thickness {
        gb.height as int
    } else {
        gb.border_thickness as int
    }
}

/// `v` fits in an `i32`.
pub open spec fn fits_i32(v: int) -> bool {
    i32::MIN <= v <= i32::MAX
}

/// The sums the box drawing works out fit in an `i32`, and the corner
/// radius is exact (the rounding's product with the side fits 52 bits).
pub open spec fn box_fits(gb: GraphicBox) -> bool {
    let x = gb.position.x as int;
    let y = gb.position.y as int;
    let w = box_w(gb);
    let h = box_h(gb);
    let b = gb.border_thickness as int;
    &&& gb.corner_rounding <= 0x20_0000
    &&& fits_i32(x + w)
    &&& fits_i32(y + h)
    &&& fits_i32(x + w - b)
    &&& fits_i32(y + h - b)
    &&& fits_i32(x + b)
    &&& fits_i32(y + b)
    &&& gb.corner_rounding > 0 ==> (fits_i32(2 * b) && fits_i32(w - 2 * b) && fits_i32(h - 2 * b))
}

/// The rounded box: the outer rounded rectangle in `color`, and, when the
/// border is thinner than the box, its inside (smaller radius) in white.
pub open spec fn rounded_box_pixel(
    old_px: Color,
    a: int,
    b: int,
    x: int,
    y: int,
    w: int,
    h: int,
    border: int,
    radius: int,
    color: Color,
) -> Color {
    let r0 = if radius < half(w) {
        radius
    } else {
        half(w)
    };
    let r1 = if r0 < half(h) {
        r0
    } else {
        half(h)
    };
    let r = if r1 >= 0 {
        r1
    } else {
        0
    };
    let outer = if in_rect(a, b, x, y, w, h) && !in_corner(a - x, b - y, w, h, r) {
        color
    } else {
        old_px
    };
    if border >= w || border >= h {
        outer
    } else {
        let ir = if r - border >= 0 {
            r - border
        } else {
            0
        };
        if in_rect(a, b, x + border, y + border, w - 2 * border, h - 2 * border) && !in_corner(
            a - (x + border),
            b - (y + border),
            w - 2 * border,
            h - 2 * border,
            ir,
        ) {
            white()
        } else {
            outer
        }
    }
}

fn half_exec(v: i32) -> (r: i32)
    ensures
        r == half(v as int),
{
    if v >= 0 {
        v / 2
    } else {
        -((-(v as i64)) / 2) as i32
    }
}

/// A rectangle with corners rounded to `radius` (at most half of each side)
/// and a border `border` wide; see [`rounded_box_pixel`].
pub fn draw_rounded_rect(
    canvas: &mut Canvas,
    x: i32,
    y: i32,
    w: i32,
    h: i32,
    border: i32,
    radius: i32,
    color: Color,
)
    requires
        old(canvas).wf(),
        i32::MIN <= x + border <= i32::MAX,
        i32::MIN <= y + border <= i32::MAX,
        i32::MIN <= 2 * border <= i32::MAX,
        i32::MIN <= w - 2 * border <= i32::MAX,
        i32::MIN <= h - 2 * border <= i32::MAX,
    ensures
        final(canvas).wf(),
        final(canvas).spec_width() == old(canvas).spec_width(),
        final(canvas).spec_height() == old(canvas).spec_height(),
        forall|a: int, b: int|
            final(canvas).contains(a, b) ==> #[trigger] final(canvas).pixel(a, b) == rounded_box_pixel(
                old(canvas).pixel(a, b),
                a,
                b,
                x as int,
                y as int,
                w as int,
                h as int,
                border as int,
                radius as int,
                color,
            ),
{
    let hw = half_exec(w);
    let hh = half_exec(h);
    let r0 = if radius < hw {
        radius
    } else {
        hw
    };
    let r1 = if r0 < hh {
        r0
    } else {
        hh
    };
    let r = if r1 >= 0 {
        r1
    } else {
        0
    };
    draw_filled_rounded_rect_region(canvas, x, y, w, h, r, color);
    if !(border >= w || border >= h) {
        let ir = if r - border >= 0 {
            r - border
        } else {
            0
        };
        draw_filled_rounded_rect_region(
            canvas,
            x + border,
            y + border,
            w - 2 * border,
            h - 2 * border,
            ir,
            white_pixel(),
        );
    }
}

/// Pixel of a box drawn without rounding: the whole box when the border is
/// at least as wide as a side, else its four border strips.
pub open spec fn square_box_covers(a: int, b: int, x: int, y: int, w: int, h: int, border: int) -> bool {
    if border >= w || border >= h {
        in_rect(a, b, x, y, w, h)
    } else {
        in_rect(a, b, x, y, w, border) || in_rect(a, b, x, y + h - border, w, border) || in_rect(
            a,
            b,
            x,
            y,
            border,
            h,
        ) || in_rect(a, b, x + w - border, y, border, h)
    }
}

/// The canvas after drawing `gb` (`^GB`): sides at least the border width;
/// rounded corners when `corner_rounding` is positive.
pub open spec fn box_pixel(gb: GraphicBox, old_px: Color, a: int, b: int) -> Color {
    let w = if gb.width >= gb.border_thickness {
        gb.width as int
    } else {
        gb.border_thickness as int
    };
    let h = if gb.height >= gb.border_thickness {
        gb.height as int
    } else {
        gb.border_thickness as int
    };
    let color = line_rgba(gb.line_color);
    if gb.corner_rounding > 0 {
        let shorter = if w <= h {
            w
        } else {
            h
        };
        let radius = corner_radius(shorter, gb.corner_rounding as int);
        rounded_box_pixel(
            old_px,
            a,
            b,
            gb.position.x as int,
            gb.position.y as int,
            w,
            h,
            gb.border_thickness as int,
            radius,
            color,
        )
    } else if square_box_covers(
        a,
        b,
        gb.position.x as int,
        gb.position.y as int,
        w,
        h,
        gb.border_thickness as int,
    ) {
        color
    } else {
        old_px
    }
}

/// Draws a graphic box; see [`box_pixel`].
pub fn draw_graphic_box(canvas: &mut Canvas, gb: &GraphicBox)
    requires
        old(canvas).wf(),
        box_fits(*gb),
    ensures
        final(canvas).wf(),
        final(canvas).spec_width() == old(canvas).spec_width(),
        final(canvas).spec_height() == old(canvas).spec_height(),
        forall|a: int, b: int|
            final(canvas).contains(a, b) ==> #[trigger] final(canvas).pixel(a, b) == box_pixel(
                *gb,
                old(canvas).pixel(a, b),
                a,
                b,
            ),
{
    let color = line_color_to_rgba(gb.line_color);
    let x = gb.position.x;
    let y = gb.position.y;
    let w = if gb.width >= gb.border_thickness {
        gb.width
    } else {
        gb.border_thickness
    };
    let h = if gb.height >= gb.border_thickness {
        gb.height
    } else {
        gb.border_thickness
    };
    let border = gb.border_thickness;
    if gb.corner_rounding > 0 {
        let shorter = if w <= h {
            w
        } else {
            h
        };
        proof {
            assert(-0x8000_0000 * 0x20_0000 <= shorter * gb.corner_rounding <= 0x8000_0000
                * 0x20_0000) by (nonlinear_arith)
                requires
                    -0x8000_0000 <= shorter <= 0x8000_0000,
                    0 < gb.corner_rounding <= 0x20_0000,
            ;
        }
        let p: i64 = shorter as i64 * gb.corner_rounding as i64;
        let q: i64 = if p >= 0 {
            (p + 8) / 16
        } else {
            -((-p + 8) / 16)
        };
        let radius: i32 = if q > i32::MAX as i64 {
            i32::MAX
        } else if q < i32::MIN as i64 {
            i32::MIN
        } else {
            q as i32
        };
        draw_rounded_rect(canvas, x, y, w, h, border, radius, color);
    } else if border >= w || border >= h {
        draw_filled_rect(canvas, x, y, w, h, color);
    } else {
        let ghost c0 = *canvas;
        draw_filled_rect(canvas, x, y, w, border, color);
        draw_filled_rect(canvas, x, y + h - border, w, border, color);
        draw_filled_rect(canvas, x, y, border, h, color);
        draw_filled_rect(canvas, x + w - border, y, border, h, color);
    }
}


/// How many bytes of a graphic field are drawn: `total_bytes` when positive
/// (and no more than the data), else all of the data.
pub open spec fn field_data_len(gf: GraphicField) -> int {
    if gf.total_bytes > 0 {
        if (gf.total_bytes as int) < gf.data@.len() {
            gf.total_bytes as int
        } else {
            gf.data@.len() as int
        }
    } else {
        gf.data@.len() as int
    }
}

/// Bit `k` of `b`, counting from the highest.
pub open spec fn msb_bit(b: u8, k: int) -> bool {
    (b as int / pow2_of(7 - k)) % 2 == 1
}

/// 2 to the power `e`, for `e` in 0..8.
pub open spec fn pow2_of(e: int) -> int {
    if e <= 0 {
        1
    } else if e == 1 {
        2
    } else if e == 2 {
        4
    } else if e == 3 {
        8
    } else if e == 4 {
        16
    } else if e == 5 {
        32
    } else if e == 6 {
        64
    } else {
        128
    }
}

/// Pixel (`a`, `b`) is black in the drawing of graphic field `gf`
/// (`^GF`): its rows of `row_bytes` bytes, one bit per dot from the highest,
/// each dot magnified (at least once) each way from `gf.position`.
pub open spec fn field_covers(gf: GraphicField, a: int, b: int) -> bool {
    let n = field_data_len(gf);
    let rb = gf.row_bytes as int;
    let mx = if gf.magnification_x >= 1 {
        gf.magnification_x as int
    } else {
        1
    };
    let my = if gf.magnification_y >= 1 {
        gf.magnification_y as int
    } else {
        1
    };
    let dx = a - gf.position.x;
    let dy = b - gf.position.y;
    let x = dx / mx;
    let y = dy / my;
    let idx = y * rb + x / 8;
    &&& rb > 0
    &&& n > 0
    &&& dx >= 0
    &&& dy >= 0
    &&& x < rb * 8
    &&& y < n / rb
    &&& idx < gf.data@.len()
    &&& msb_bit(gf.data@[idx], x % 8)
}

fn msb_bit_exec(b: u8, k: u32) -> (v: bool)
    requires
        k < 8,
    ensures
        v == msb_bit(b, k as int),
{
    let d: u8 = if k == 7 {
        1
    } else if k == 6 {
        2
    } else if k == 5 {
        4
    } else if k == 4 {
        8
    } else if k == 3 {
        16
    } else if k == 2 {
        32
    } else if k == 1 {
        64
    } else {
        128
    };
    (b / d) % 2 == 1
}

/// Draws graphic field `gf` in black; see [`field_covers`].
pub fn draw_graphic_field(canvas: &mut Canvas, gf: &GraphicField)
    requires
        old(canvas).wf(),
        gf.data@.len() <= i32::MAX,
    ensures
        final(canvas).wf(),
        final(canvas).spec_width() == old(canvas).spec_width(),
        final(canvas).spec_height() == old(canvas).spec_height(),
        forall|a: int, b: int|
            final(canvas).contains(a, b) ==> #[trigger] final(canvas).pixel(a, b) == (if field_covers(
                *gf,
                a,
                b,
            ) {
                black()
            } else {
                old(canvas).pixel(a, b)
            }),
{
    let len = gf.data.len();
    let n: usize = if gf.total_bytes > 0 {
        if (gf.total_bytes as usize) < len {
            gf.total_bytes as usize
        } else {
            len
        }
    } else {
        len
    };
    let rb = gf.row_bytes;
    let mx: i64 = if gf.magnification_x >= 1 {
        gf.magnification_x as i64
    } else {
        1
    };
    let my: i64 = if gf.magnification_y >= 1 {
        gf.magnification_y as i64
    } else {
        1
    };
    let px0 = gf.position.x as i64;
    let py0 = gf.position.y as i64;
    let ghost p = |a: int, b: int| field_covers(*gf, a, b);
    let inside = |a: u32, b: u32| -> (v: bool)
        ensures
            v == field_covers(*gf, a as int, b as int),
    {
        if rb <= 0 || n == 0 {
            return false;
        }
        let dx: i64 = a as i64 - px0;
        let dy: i64 = b as i64 - py0;
        if dx < 0 || dy < 0 {
            return false;
        }
        let x: i64 = dx / mx;
        let y: i64 = dy / my;
        let rbl = rb as i64;
        if x >= rbl * 8 || y >= (n as i64) / rbl {
            return false;
        }
        proof {
            assert(y * rbl <= (n as i64) / rbl * rbl) by (nonlinear_arith)
                requires
                    0 <= y < (n as i64) / rbl,
                    rbl > 0,
            ;
            assert((n as i64) / rbl * rbl <= n) by (nonlinear_arith)
                requires
                    rbl > 0,
                    n >= 0,
            ;
        }
        let idx: i64 = y * rbl + x / 8;
        if idx >= len as i64 {
            return false;
        }
        msb_bit_exec(gf.data[idx as usize], (x % 8) as u32)
    };
    canvas.paint_where(inside, Ghost(p), black_pixel());
}


/// The finished label, `label_width` pixels wide: the drawing centred when it
/// is narrower (a print width below the label width), and turned half a turn
/// when the label is inverted (`^POI`); white where nothing lands.
pub open spec fn finished_pixel(drawing: Canvas, label_width: int, invert: bool, a: int, b: int) -> Color {
    let offset = (label_width - drawing.spec_width()) / 2;
    let (sx, sy) = if invert {
        (label_width - 1 - offset - a, drawing.spec_height() - 1 - b)
    } else {
        (a - offset, b)
    };
    if drawing.contains(sx, sy) {
        drawing.pixel(sx, sy)
    } else {
        white()
    }
}

/// The label as printed; see [`finished_pixel`]. The drawing is returned as
/// it is when it already has the label's width and is not inverted.
pub fn finish_label(drawing: Canvas, label_width: u32, invert: bool) -> (out: Canvas)
    requires
        drawing.wf(),
        drawing.spec_width() <= label_width,
        label_width * drawing.spec_height() <= usize::MAX,
    ensures
        out.wf(),
        (drawing.spec_width() == label_width && !invert) ==> out == drawing,
        (drawing.spec_width() != label_width || invert) ==> {
            &&& out.spec_width() == label_width
            &&& out.spec_height() == drawing.spec_height()
            &&& forall|a: int, b: int|
                out.contains(a, b) ==> #[trigger] out.pixel(a, b) == finished_pixel(
                    drawing,
                    label_width as int,
                    invert,
                    a,
                    b,
                )
        },
{
    let iw = drawing.width();
    let ih = drawing.height();
    if iw == label_width && !invert {
        return drawing;
    }
    let offset: i64 = ((label_width - iw) / 2) as i64;
    let lw = label_width as i64;
    let src = &drawing;
    let ghost g = |a: int, b: int| finished_pixel(drawing, label_width as int, invert, a, b);
    let f = |a: u32, b: u32| -> (v: Color)
        requires
            a < label_width,
            b < ih,
        ensures
            v == finished_pixel(*src, label_width as int, invert, a as int, b as int),
    {
        let (sx, sy): (i64, i64) = if invert {
            (lw - 1 - offset - a as i64, ih as i64 - 1 - b as i64)
        } else {
            (a as i64 - offset, b as i64)
        };
        if 0 <= sx && sx < iw as i64 && 0 <= sy && sy < ih as i64 {
            src.get_pixel(sx as u32, sy as u32)
        } else {
            white_pixel()
        }
    };
    Canvas::build(label_width, ih, f, Ghost(g))
}



/// The width the label is drawn at: the print width (`^PW`) when it is set
/// and narrower than the label.
pub open spec fn image_width_of(label_width: i32, print_width: i32) -> i32 {
    if print_width > 0 && print_width < label_width {
        print_width
    } else {
        label_width
    }
}

pub fn label_image_width(label_width: i32, print_width: i32) -> (w: i32)
    ensures
        w == image_width_of(label_width, print_width),
{
    if print_width > 0 && print_width < label_width {
        print_width
    } else {
        label_width
    }
}

/// `c` with its colour channels inverted.
pub open spec fn inverted(c: Color) -> Color {
    Color { r: (255 - c.r) as u8, g: (255 - c.g) as u8, b: (255 - c.b) as u8, a: c.a }
}

/// `after` is `before` with the colours inverted where `buf` is not
/// transparent.
pub open spec fn reverse_printed(buf: Canvas, before: Canvas, after: Canvas) -> bool {
    &&& after.spec_width() == before.spec_width()
    &&& after.spec_height() == before.spec_height()
    &&& forall|a: int, b: int|
        after.contains(a, b) ==> #[trigger] after.pixel(a, b) == (if buf.contains(a, b) && buf.pixel(
            a,
            b,
        ).a > 0 {
            inverted(before.pixel(a, b))
        } else {
            before.pixel(a, b)
        })
}

/// Reverse printing (`^FR`, `^LR`): where the element drew into `buf`, the
/// colours of the label under it are inverted.
pub fn reverse_print(buf: &Canvas, canvas: &mut Canvas)
    requires
        buf.wf(),
        old(canvas).wf(),
    ensures
        final(canvas).wf(),
        reverse_printed(*buf, *old(canvas), *final(canvas)),
{
    let w = canvas.width();
    let h = canvas.height();
    let bw = buf.width();
    let bh = buf.height();
    let ghost g = |a: int, b: int|
        if buf.contains(a, b) && buf.pixel(a, b).a > 0 {
            inverted(old(canvas).pixel(a, b))
        } else {
            old(canvas).pixel(a, b)
        };
    let next = {
        let src = &*canvas;
        let f = |a: u32, b: u32| -> (v: Color)
            requires
                a < w,
                b < h,
            ensures
                v == (if buf.contains(a as int, b as int) && buf.pixel(a as int, b as int).a > 0 {
                    inverted(src.pixel(a as int, b as int))
                } else {
                    src.pixel(a as int, b as int)
                }),
        {
            let p = src.get_pixel(a, b);
            if a < bw && b < bh && buf.get_pixel(a, b).a > 0 {
                Color { r: 255 - p.r, g: 255 - p.g, b: 255 - p.b, a: p.a }
            } else {
                p
            }
        };
        Canvas::build(w, h, f, Ghost(g))
    };
    *canvas = next;
}

/// Reverse printing the same element twice gives the label back.
pub proof fn lemma_reverse_print_twice(buf: Canvas, c0: Canvas, c1: Canvas, c2: Canvas)
    requires
        reverse_printed(buf, c0, c1),
        reverse_printed(buf, c1, c2),
    ensures
        c2.spec_width() == c0.spec_width(),
        c2.spec_height() == c0.spec_height(),
        forall|a: int, b: int| c0.contains(a, b) ==> #[trigger] c2.pixel(a, b) == c0.pixel(a, b),
{
    assert forall|a: int, b: int| c0.contains(a, b) implies #[trigger] c2.pixel(a, b) == c0.pixel(a, b) by {
        assert(c1.contains(a, b));
        let p = c0.pixel(a, b);
        assert(inverted(inverted(p)) == p);
    }
}

/// Two half turns give the image back.
pub proof fn lemma_half_turn_twice(a: Canvas, b: Canvas, c: Canvas)
    requires
        a.wf(),
        turned(a, FieldOrientation::Rotated180, b),
        turned(b, FieldOrientation::Rotated180, c),
    ensures
        c.spec_width() == a.spec_width(),
        c.spec_height() == a.spec_height(),
        forall|x: int, y: int| a.contains(x, y) ==> #[trigger] c.pixel(x, y) == a.pixel(x, y),
{
    assert forall|x: int, y: int| a.contains(x, y) implies #[trigger] c.pixel(x, y) == a.pixel(x, y) by {
        let w = a.spec_width() as int;
        let h = a.spec_height() as int;
        assert(b.contains(w - 1 - x, h - 1 - y));
    }
}

/// A quarter turn one way and then the other gives the image back.
pub proof fn lemma_quarter_turn_undone(a: Canvas, b: Canvas, c: Canvas)
    requires
        a.wf(),
        turned(a, FieldOrientation::Rotated90, b),
        turned(b, FieldOrientation::Rotated270, c),
    ensures
        c.spec_width() == a.spec_width(),
        c.spec_height() == a.spec_height(),
        forall|x: int, y: int| a.contains(x, y) ==> #[trigger] c.pixel(x, y) == a.pixel(x, y),
{
    assert forall|x: int, y: int| a.contains(x, y) implies #[trigger] c.pixel(x, y) == a.pixel(x, y) by {
        let h = a.spec_height() as int;
        assert(b.contains(b.spec_width() - 1 - y, x));
        assert(b.spec_width() - 1 - (b.spec_width() - 1 - y) == y);
    }
}

/// Two quarter turns make a half turn.
pub proof fn lemma_two_quarter_turns(a: Canvas, b: Canvas, c: Canvas, d: Canvas)
    requires
        a.wf(),
        turned(a, FieldOrientation::Rotated90, b),
        turned(b, FieldOrientation::Rotated90, c),
        turned(a, FieldOrientation::Rotated180, d),
    ensures
        c.spec_width() == d.spec_width(),
        c.spec_height() == d.spec_height(),
        forall|x: int, y: int| d.contains(x, y) ==> #[trigger] c.pixel(x, y) == d.pixel(x, y),
{
    assert forall|x: int, y: int| d.contains(x, y) implies #[trigger] c.pixel(x, y) == d.pixel(x, y) by {
        assert(b.contains(y, b.spec_height() - 1 - x));
    }
}

} // verus!
