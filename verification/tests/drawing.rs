use labelize::barcodes::bit_matrix::BitMatrix;
use labelize::drawers::canvas::{
    black_pixel, clear_pixel, draw_filled_rect, overlay_at, rotate_180, rotate_270, rotate_90,
    white_pixel, Canvas, Color,
};
use labelize::drawers::renderer::{
    adjust_image_typeset_position, bits_image, draw_graphic_box, draw_graphic_field, finish_label,
    label_image_width, reverse_print, Renderer,
};
use labelize::elements::field_orientation::FieldOrientation;
use labelize::elements::graphic_box::GraphicBox;
use labelize::elements::graphic_field::{GraphicField, GraphicFieldFormat};
use labelize::elements::label_position::LabelPosition;
use labelize::elements::line_color::LineColor;
use labelize::elements::reverse_print::ReversePrint;

fn pos(x: i32, y: i32, from_bottom: bool) -> LabelPosition {
    LabelPosition { x, y, calculate_from_bottom: from_bottom, automatic_position: false }
}

fn numbered(w: u32, h: u32) -> Canvas {
    let mut c = Canvas::new(w, h, white_pixel());
    for y in 0..h {
        for x in 0..w {
            c.put_pixel(x, y, Color { r: x as u8, g: y as u8, b: 0, a: 255 });
        }
    }
    c
}

#[test]
fn renderer_new_builds() {
    let _r = Renderer::new();
}

#[test]
fn canvas_new_fills_every_pixel() {
    let c = Canvas::new(3, 2, black_pixel());
    assert_eq!(c.width(), 3);
    assert_eq!(c.height(), 2);
    for y in 0..2 {
        for x in 0..3 {
            assert_eq!(c.get_pixel(x, y), black_pixel());
        }
    }
}

#[test]
fn rotate_90_moves_top_left_to_top_right() {
    let img = numbered(3, 2);
    let out = rotate_90(&img);
    assert_eq!((out.width(), out.height()), (2, 3));
    // out(x, y) = img(y, h - 1 - x)
    assert_eq!(out.get_pixel(1, 0), img.get_pixel(0, 0));
    assert_eq!(out.get_pixel(0, 2), img.get_pixel(2, 1));
}

#[test]
fn rotate_180_twice_gives_image_back() {
    let img = numbered(4, 3);
    let twice = rotate_180(&rotate_180(&img));
    for y in 0..3 {
        for x in 0..4 {
            assert_eq!(twice.get_pixel(x, y), img.get_pixel(x, y));
        }
    }
}

#[test]
fn quarter_turn_then_back_gives_image_back() {
    let img = numbered(4, 3);
    let back = rotate_270(&rotate_90(&img));
    assert_eq!((back.width(), back.height()), (4, 3));
    for y in 0..3 {
        for x in 0..4 {
            assert_eq!(back.get_pixel(x, y), img.get_pixel(x, y));
        }
    }
}

#[test]
fn two_quarter_turns_make_a_half_turn() {
    let img = numbered(4, 3);
    let a = rotate_90(&rotate_90(&img));
    let b = rotate_180(&img);
    for y in 0..3 {
        for x in 0..4 {
            assert_eq!(a.get_pixel(x, y), b.get_pixel(x, y));
        }
    }
}

#[test]
fn filled_rect_is_clipped_to_canvas() {
    let mut c = Canvas::new(5, 5, white_pixel());
    draw_filled_rect(&mut c, -2, 3, 4, 10, black_pixel());
    assert_eq!(c.get_pixel(0, 3), black_pixel());
    assert_eq!(c.get_pixel(1, 4), black_pixel());
    assert_eq!(c.get_pixel(2, 4), white_pixel());
    assert_eq!(c.get_pixel(0, 2), white_pixel());
}

#[test]
fn overlay_skips_transparent_pixels() {
    let mut c = Canvas::new(4, 4, white_pixel());
    let mut img = Canvas::new(2, 2, clear_pixel());
    img.put_pixel(1, 1, black_pixel());
    overlay_at(&mut c, &img, 1, 1);
    assert_eq!(c.get_pixel(2, 2), black_pixel());
    assert_eq!(c.get_pixel(1, 1), white_pixel());
}

#[test]
fn bits_image_marks_dark_modules_black() {
    let m = BitMatrix::from_row(vec![true, false, true]);
    let img = bits_image(&m);
    assert_eq!(img.get_pixel(0, 0), black_pixel());
    assert_eq!(img.get_pixel(1, 0), clear_pixel());
    assert_eq!(img.get_pixel(2, 0), black_pixel());
}

#[test]
fn typeset_position_moves_up_by_height() {
    let img = Canvas::new(30, 20, clear_pixel());
    let p = adjust_image_typeset_position(&img, &pos(100, 50, true), FieldOrientation::Normal);
    assert_eq!((p.x, p.y), (100, 30));
    assert!(!p.calculate_from_bottom);
    let q = adjust_image_typeset_position(&img, &pos(100, 5, true), FieldOrientation::Normal);
    assert_eq!((q.x, q.y), (100, 0));
    let r = adjust_image_typeset_position(&img, &pos(100, 50, true), FieldOrientation::Rotated270);
    assert_eq!((r.x, r.y), (80, 20));
    let s = adjust_image_typeset_position(&img, &pos(100, 50, false), FieldOrientation::Normal);
    assert_eq!((s.x, s.y), (100, 50));
}

fn gbox(x: i32, y: i32, w: i32, h: i32, border: i32, rounding: i32) -> GraphicBox {
    GraphicBox {
        reverse_print: ReversePrint { value: false },
        position: pos(x, y, false),
        width: w,
        height: h,
        border_thickness: border,
        corner_rounding: rounding,
        line_color: LineColor::Black,
    }
}

#[test]
fn graphic_box_draws_border_only() {
    let mut c = Canvas::new(20, 20, white_pixel());
    draw_graphic_box(&mut c, &gbox(2, 2, 10, 8, 2, 0));
    assert_eq!(c.get_pixel(2, 2), black_pixel());
    assert_eq!(c.get_pixel(11, 9), black_pixel());
    assert_eq!(c.get_pixel(6, 6), white_pixel());
    assert_eq!(c.get_pixel(12, 2), white_pixel());
}

#[test]
fn graphic_box_thick_border_fills() {
    let mut c = Canvas::new(20, 20, white_pixel());
    draw_graphic_box(&mut c, &gbox(0, 0, 4, 4, 5, 0));
    // the sides grow to the border width: a filled 5 by 5 box
    assert_eq!(c.get_pixel(4, 4), black_pixel());
    assert_eq!(c.get_pixel(5, 5), white_pixel());
}

#[test]
fn rounded_box_leaves_corner_white() {
    let mut c = Canvas::new(40, 40, white_pixel());
    draw_graphic_box(&mut c, &gbox(0, 0, 32, 32, 32, 8));
    assert_eq!(c.get_pixel(0, 0), white_pixel());
    assert_eq!(c.get_pixel(16, 16), black_pixel());
    assert_eq!(c.get_pixel(16, 0), black_pixel());
}

#[test]
fn graphic_field_draws_bits_magnified() {
    let gf = GraphicField {
        reverse_print: ReversePrint { value: false },
        position: pos(1, 1, false),
        magnification_x: 2,
        magnification_y: 1,
        format: GraphicFieldFormat::Hex,
        data_bytes: 2,
        total_bytes: 2,
        row_bytes: 1,
        data: vec![0x80, 0x01],
    };
    let mut c = Canvas::new(20, 4, white_pixel());
    draw_graphic_field(&mut c, &gf);
    // first row: highest bit -> columns 1 and 2
    assert_eq!(c.get_pixel(1, 1), black_pixel());
    assert_eq!(c.get_pixel(2, 1), black_pixel());
    assert_eq!(c.get_pixel(3, 1), white_pixel());
    // second row: lowest bit -> dot 7 -> columns 15 and 16
    assert_eq!(c.get_pixel(15, 2), black_pixel());
    assert_eq!(c.get_pixel(16, 2), black_pixel());
    assert_eq!(c.get_pixel(1, 2), white_pixel());
}

#[test]
fn finish_label_centres_narrow_drawing() {
    let d = Canvas::new(2, 1, black_pixel());
    let out = finish_label(d, 6, false);
    assert_eq!(out.width(), 6);
    assert_eq!(out.get_pixel(1, 0), white_pixel());
    assert_eq!(out.get_pixel(2, 0), black_pixel());
    assert_eq!(out.get_pixel(3, 0), black_pixel());
    assert_eq!(out.get_pixel(4, 0), white_pixel());
}

#[test]
fn finish_label_inverts_half_a_turn() {
    let d = numbered(3, 2);
    let out = finish_label(d.clone_canvas(), 3, true);
    assert_eq!(out.get_pixel(0, 0), d.get_pixel(2, 1));
    assert_eq!(out.get_pixel(2, 1), d.get_pixel(0, 0));
}

#[test]
fn finish_label_keeps_full_width_drawing() {
    let d = numbered(3, 2);
    let out = finish_label(d.clone_canvas(), 3, false);
    assert_eq!(out.get_pixel(1, 1), d.get_pixel(1, 1));
}

#[test]
fn ean13_guard_bars_taller_than_data_bars() {
    let img =
        labelize::barcodes::ean13::encode("123456789012", 200, 2).expect("ean13 encode failed");
    let total_height = img.height();
    assert!(
        total_height > 200,
        "EAN-13 image height ({}) should exceed barcode height (200) for guard bars",
        total_height
    );
    let bar_width = 2usize;
    let extended_row = 205usize;
    let has_guard_extension = (0..bar_width)
        .any(|x| x < img.width() && extended_row < img.height() && img.get(x, extended_row));
    assert!(
        has_guard_extension,
        "guard bar at start should extend below data bar area"
    );
}

#[test]
fn reverse_print_inverts_under_the_element_and_twice_restores() {
    let mut label = Canvas::new(3, 1, white_pixel());
    label.put_pixel(2, 0, black_pixel());
    let mut buf = Canvas::new(3, 1, clear_pixel());
    buf.put_pixel(0, 0, black_pixel());
    buf.put_pixel(2, 0, black_pixel());
    reverse_print(&buf, &mut label);
    assert_eq!(label.get_pixel(0, 0), black_pixel());
    assert_eq!(label.get_pixel(1, 0), white_pixel());
    assert_eq!(label.get_pixel(2, 0), white_pixel());
    reverse_print(&buf, &mut label);
    assert_eq!(label.get_pixel(0, 0), white_pixel());
    assert_eq!(label.get_pixel(2, 0), black_pixel());
}

#[test]
fn print_width_narrows_the_drawing() {
    assert_eq!(label_image_width(812, 600), 600);
    assert_eq!(label_image_width(812, 0), 812);
    assert_eq!(label_image_width(812, 900), 812);
}
