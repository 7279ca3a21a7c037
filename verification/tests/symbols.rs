use labelize::elements::font::{font_face, FontFace};
use labelize::barcodes::bit_matrix::BitMatrix;
use labelize::barcodes::pdf417::{pdf417_dimensions, pdf417_image, resolve_row_height};
use labelize::barcodes::{code128, code39, datamatrix, ean13, maxicode, qrcode, twooffive};
use labelize::elements::barcode_qr::QrErrorCorrectionLevel;
use labelize::elements::label_position::LabelPosition;
use labelize::elements::maxicode::{Maxicode, MaxicodeWithData};
use labelize::elements::reverse_print::ReversePrint;

#[test]
fn bit_matrix_set_then_get() {
    let mut m = BitMatrix::new(4, 3);
    m.set(2, 1, true);
    assert!(m.get(2, 1));
    assert!(!m.get(1, 2));
    assert!(!m.get(9, 9));
}

#[test]
fn bit_matrix_to_image_scales_each_module() {
    let m = BitMatrix::from_row(vec![true, false]);
    let img = m.to_image(3, 2);
    assert_eq!((img.width(), img.height()), (6, 2));
    assert!(img.get(2, 1));
    assert!(!img.get(3, 0));
}

#[test]
fn bit_matrix_to_1d_image_draws_bars() {
    let m = BitMatrix::from_row(vec![false, true]);
    let img = m.to_1d_image(2, 5);
    assert_eq!((img.width(), img.height()), (4, 5));
    assert!(img.get(2, 4));
    assert!(!img.get(1, 0));
}

#[test]
fn code128_auto_width_matches_symbol_count() {
    // Start C, 5 pairs, check, stop: 7 symbols of 11 modules and a 13-module stop
    let img = code128::encode_auto("1234567890", 10, 1).expect("encode");
    assert_eq!(img.width(), 7 * 11 + 13);
    assert_eq!(img.height(), 10);
}

#[test]
fn code128_zero_height_draws_one_row() {
    let img = code128::encode_auto("A", 0, 0).expect("encode");
    assert_eq!(img.height(), 1);
}

#[test]
fn code39_invalid_character_is_reported() {
    let r = code39::encode("AB~", 10, 3, 2);
    assert_eq!(r.unwrap_err(), "Code 39: invalid character '~'");
}

#[test]
fn code39_width_from_narrow_and_wide() {
    // "*A*": 3 characters of 6 narrow and 3 wide elements, 2 gaps
    let img = code39::encode("A", 5, 3, 1).expect("encode");
    assert_eq!(img.width(), 3 * (6 + 3 * 3) + 2);
    assert_eq!(img.height(), 5);
}

#[test]
fn ean13_short_input_error_text() {
    let r = ean13::encode("12345", 10, 1);
    assert_eq!(r.unwrap_err(), "EAN-13: need at least 12 digits, got 5");
}

#[test]
fn ean13_image_size() {
    let img = ean13::encode("123456789012", 100, 2).expect("encode");
    // 95 modules of 2 pixels; guard extension max(10, 12, 6) = 12
    assert_eq!(img.width(), 190);
    assert_eq!(img.height(), 112);
}

#[test]
fn twooffive_error_text() {
    let r = twooffive::encode("abc", 10, 3, 2, false);
    assert_eq!(r.unwrap_err(), "Interleaved 2 of 5: no digits provided");
}

#[test]
fn maxicode_size_and_bullseye() {
    let img = maxicode::encode("Hello").expect("encode");
    assert_eq!((img.width(), img.height()), (248, 238));
    // on the outer ring (radius 20 from the centre 124,119)
    assert!(img.get(144, 119));
    // between the outer and middle rings (radius 16)
    assert!(!img.get(140, 119));
}

#[test]
fn maxicode_empty_error_text() {
    assert_eq!(maxicode::encode("").unwrap_err(), "MaxiCode: empty content");
}

#[test]
fn maxicode_first_module_follows_first_bits() {
    // 'A' = 0x41 = 0b1000001: the six low bits 000001 -> module (0,0) light
    let img = maxicode::encode("A").expect("encode");
    assert!(!img.get(4, 3));
    // ' ' = 0x20: its first bit of six is set -> module (0,0) dark, centre (4,3)
    let img2 = maxicode::encode(" ").expect("encode");
    assert!(img2.get(4, 3));
}

#[test]
fn qrcode_size_with_quiet_zone() {
    // "Hello World" at level M fits version 1 (21 modules): (21 + 8) * 5
    let img = qrcode::encode("Hello World", 5, QrErrorCorrectionLevel::M).expect("encode");
    assert_eq!(img.width(), 145);
    assert_eq!(img.height(), 145);
    // the quiet zone is light, the finder pattern's corner is dark
    assert!(!img.get(19, 19));
    assert!(img.get(20, 20));
}

#[test]
fn qrcode_image_from_modules() {
    let modules = vec![true, false, false, true];
    let img = qrcode::qr_image(2, &modules, 1);
    assert_eq!(img.width(), 10);
    assert!(img.get(4, 4));
    assert!(!img.get(5, 4));
    assert!(img.get(5, 5));
    assert!(!img.get(3, 3));
}

#[test]
fn qrcode_empty_error_text() {
    let r = qrcode::encode("", 5, QrErrorCorrectionLevel::M);
    assert_eq!(r.unwrap_err(), "QR code: empty content");
}

#[test]
fn datamatrix_symbol_is_drawn_scaled() {
    let img = datamatrix::encode("Hello", 3, 0, 0).expect("encode");
    // "Hello" fits the 12 by 12 symbol
    assert_eq!(img.width(), 36);
    assert_eq!(img.height(), 36);
    // the left finder edge is dark all the way down
    assert!(img.get(0, 0));
    assert!(img.get(2, 35));
}

#[test]
fn datamatrix_image_from_pixels() {
    let img = datamatrix::datamatrix_image(2, 2, &vec![(1, 0)], 2);
    assert_eq!((img.width(), img.height()), (4, 4));
    assert!(img.get(2, 0));
    assert!(img.get(3, 1));
    assert!(!img.get(0, 0));
    assert!(!img.get(2, 2));
}

#[test]
fn pdf417_row_height_rules() {
    assert_eq!(resolve_row_height(5, 9999, 10), 5);
    assert_eq!(resolve_row_height(0, 40, 10), 4);
    assert_eq!(resolve_row_height(0, 5, 10), 1);
    assert_eq!(resolve_row_height(0, 40, 0), 40);
}

#[test]
fn pdf417_dimension_limit_error() {
    let r = pdf417_dimensions(30, 90);
    assert_eq!(
        r.unwrap_err(),
        "PDF417: cols(30) \u{d7} rows(90) = 2700 exceeds 928 codeword limit"
    );
    let d = pdf417_dimensions(0, 0).expect("free size");
    assert_eq!((d.min_cols, d.max_cols, d.min_rows, d.max_rows), (1, 30, 3, 90));
    let e = pdf417_dimensions(5, 100).expect("five columns");
    assert_eq!((e.min_cols, e.max_cols, e.min_rows, e.max_rows), (5, 5, 90, 90));
}

#[test]
fn pdf417_image_samples_first_row_of_each_symbol_row() {
    let mut m = BitMatrix::new(2, 8);
    m.set(0, 0, true);
    m.set(1, 5, true);
    let img = pdf417_image(&m, 3, 0);
    assert_eq!((img.width(), img.height()), (2, 6));
    assert!(img.get(0, 2));
    assert!(!img.get(1, 4));
    assert!(!img.get(0, 3));
}

fn maxi(data: &str) -> MaxicodeWithData {
    MaxicodeWithData {
        reverse_print: ReversePrint { value: false },
        code: Maxicode { mode: 2 },
        position: LabelPosition::default(),
        data: data.to_string(),
    }
}

#[test]
fn maxicode_input_moves_main_data_after_header() {
    let m = maxi("0018401234[)>\u{1e}01\u{1d}96REST");
    let r = m.get_input_data().expect("input");
    assert_eq!(r, "[)>\u{1e}01\u{1d}961234\u{1d}840\u{1d}001\u{1d}REST");
}

#[test]
fn maxicode_input_errors() {
    assert_eq!(maxi("no header").get_input_data().unwrap_err(), "invalid length of maxicode data");
    assert_eq!(
        maxi("123[)>\u{1e}01\u{1d}96").get_input_data().unwrap_err(),
        "invalid length of maxicode main data"
    );
}

#[test]
fn ean13_check_digit_completes_the_sum() {
    // 400638133393 has check digit 1: the last right-hand digit is drawn with
    // the R pattern of 1, 1100110, just before the end guard.
    let img = ean13::encode("400638133393", 1, 1).expect("encode");
    let cells: Vec<bool> = (85..92).map(|x| img.get(x, 0)).collect();
    assert_eq!(cells, vec![true, true, false, false, true, true, false]);
}

#[test]
fn ucc_data_gets_gs1_check_digit() {
    let r = code128::prepare_ucc_mode_data("00 0123456-0000000001");
    assert_eq!(r, "\u{f1}00012345600000000012");
    // fewer digits are padded on the right with zeros before the check digit
    let p = code128::prepare_ucc_mode_data("12");
    assert_eq!(p.chars().count(), 21);
    assert!(p.starts_with("\u{f1}1200000000000000000"));
}

#[test]
fn twooffive_odd_digit_count_gets_check_digit() {
    // three digits: a check digit is added, making four
    let odd = twooffive::encode("123", 1, 3, 1, false).expect("encode");
    let even = twooffive::encode("1234", 1, 3, 1, false).expect("encode");
    assert_eq!(odd.width(), even.width());
}

fn qr_field(data: &str) -> labelize::elements::barcode_qr::BarcodeQrWithData {
    labelize::elements::barcode_qr::BarcodeQrWithData {
        reverse_print: ReversePrint { value: false },
        barcode: labelize::elements::barcode_qr::BarcodeQr { magnification: 1 },
        height: 0,
        position: LabelPosition::default(),
        data: data.to_string(),
    }
}

#[test]
fn qr_input_cuts_are_checked() {
    assert!(qr_field("QA,hello").input_cuts_ok());
    assert!(qr_field("QA").input_cuts_ok());
    assert!(!qr_field("QA\u{e9}llo").input_cuts_ok());
    assert!(qr_field("HM,B0003\u{e9}x").input_cuts_ok());
    assert!(!qr_field("HM,B0001\u{e9}x").input_cuts_ok());
}

#[test]
fn maxicode_input_cuts_are_checked() {
    assert!(maxi("plain text").input_cuts_ok());
    assert!(maxi("[)>\u{1e}01\u{1d}96123456789").input_cuts_ok());
}

#[test]
fn font_faces_by_name() {
    assert_eq!(font_face("0"), FontFace::Helvetica);
    assert_eq!(font_face("B"), FontFace::DejavuBold);
    assert_eq!(font_face("S"), FontFace::DejavuBold);
    assert_eq!(font_face("GS"), FontFace::Gs);
    assert_eq!(font_face("A"), FontFace::DejavuMono);
    assert_eq!(font_face(""), FontFace::DejavuMono);
    assert_eq!(font_face("00"), FontFace::DejavuMono);
}
