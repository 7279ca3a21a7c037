use std::collections::HashMap;
use labelize::elements::field_alignment::FieldAlignment;
use labelize::elements::field_info::FieldInfo;
use labelize::elements::font::FontInfo;
use labelize::elements::label_position::LabelPosition;
use labelize::elements::reverse_print::ReversePrint;
use labelize::elements::stored_format::{RecalledFieldData, RecalledFormat, StoredField};
use labelize::elements::label_element::LabelElement;
use labelize::encodings;
use labelize::hex;
use labelize::parsers::command_utils::{parse_int, parse_int_ceil, parse_ratio, split_command, to_positive_int};
use labelize::parsers::fs::{ensure_extension, validate_device};
use labelize::{EplParser, ZplParser};

fn parse(zpl: &str) -> Vec<labelize::LabelInfo> {
    let mut parser = ZplParser::new();
    parser.parse(zpl.as_bytes()).expect("ZPL parse failed")
}

fn texts(label: &labelize::LabelInfo) -> Vec<String> {
    label
        .elements
        .iter()
        .filter_map(|e| match e {
            LabelElement::Text(t) => Some(t.text.clone()),
            _ => None,
        })
        .collect()
}

#[test]
fn ensure_extension_replaces_or_adds() {
    assert_eq!(ensure_extension("R:LABEL", "ZPL"), "R:LABEL.ZPL");
    assert_eq!(ensure_extension("R:LOGO.GRF", "ZPL"), "R:LOGO.ZPL");
}

#[test]
fn ensure_extension_twice_is_once() {
    let once = ensure_extension("R:A.B.C", "GRF");
    let twice = ensure_extension(&once, "GRF");
    assert_eq!(once, "R:A.GRF");
    assert_eq!(twice, once);
}

#[test]
fn validate_device_rules() {
    assert!(validate_device("R:LOGO.GRF").is_ok());
    assert!(validate_device("E:X").is_ok());
    assert_eq!(
        validate_device("Q:X").unwrap_err(),
        "invalid device name Q, must be one of [\"R\", \"E\", \"B\", \"A\", \"Z\"]"
    );
    assert_eq!(validate_device("NOCOLON").unwrap_err(), "path does not contain device name");
}

#[test]
fn hex_decode_pairs() {
    assert_eq!(hex::decode("0aFF").expect("hex"), vec![0x0a, 0xff]);
}

#[test]
fn escape_char_not_followed_by_hex_is_kept() {
    let r = hex::decode_escaped_string("a_zz", b'_').expect("decode");
    assert_eq!(r, "a_zz");
}

#[test]
fn cp850_keeps_ascii_text() {
    let r = encodings::to_unicode_text("Plain ASCII 123", 13).expect("convert");
    assert_eq!(r, "Plain ASCII 123");
}

#[test]
fn command_utils_examples() {
    assert_eq!(split_command("^FO10,20", "^FO"), vec!["10".to_string(), "20".to_string()]);
    assert_eq!(to_positive_int("42"), Some(42));
    assert_eq!(to_positive_int("-3"), Some(3));
    assert_eq!(parse_int("-3"), Some(-3));
    assert_eq!(parse_int("x"), None);
}

#[test]
fn stored_format_is_recalled_with_field_data() {
    let labels = parse(
        "^XA^DFR:TEST.ZPL^FS^FO10,10^A0N,30,30^FN1^FS^XZ^XA^XFR:TEST.ZPL^FS^FN1^FDHello^FS^XZ",
    );
    assert_eq!(labels.len(), 1);
    assert_eq!(texts(&labels[0]), vec!["Hello".to_string()]);
}

#[test]
fn stored_graphic_is_recalled() {
    let labels = parse("~DGR:BOX.GRF,2,1,FF00^XA^FO5,5^XGR:BOX.GRF,1,1^FS^XZ");
    assert_eq!(labels.len(), 1);
    let gf = labels[0]
        .elements
        .iter()
        .find_map(|e| match e {
            LabelElement::GraphicField(g) => Some(g),
            _ => None,
        })
        .expect("expected a graphic field");
    assert_eq!(gf.data, vec![0xff, 0x00]);
    assert_eq!(gf.row_bytes, 1);
    assert_eq!(gf.position.x, 5);
}

#[test]
fn label_home_shifts_positions() {
    let labels = parse("^XA^LH20,30^FO10,10^A0N,30,30^FDX^FS^XZ");
    let t = labels[0]
        .elements
        .iter()
        .find_map(|e| match e {
            LabelElement::Text(t) => Some(t),
            _ => None,
        })
        .expect("text");
    assert_eq!((t.position.x, t.position.y), (30, 40));
}

#[test]
fn epl_text_and_box_positions() {
    let parser = EplParser::new();
    let labels = parser.parse(b"N\nA10,20,0,3,1,1,N,\"Hi\"\nLO5,6,70,8\nP1\n").expect("parse");
    assert_eq!(labels.len(), 1);
    let t = labels[0]
        .elements
        .iter()
        .find_map(|e| match e {
            LabelElement::Text(t) => Some(t),
            _ => None,
        })
        .expect("text");
    assert_eq!(t.text, "Hi");
    assert_eq!((t.position.x, t.position.y), (10, 20));
    let b = labels[0]
        .elements
        .iter()
        .find_map(|e| match e {
            LabelElement::GraphicBox(b) => Some(b),
            _ => None,
        })
        .expect("box");
    assert_eq!((b.position.x, b.position.y, b.width, b.height), (5, 6, 70, 8));
}

#[test]
fn invalid_utf8_input_is_read_lossily() {
    let mut parser = ZplParser::new();
    let labels = parser
        .parse(b"^XA^FO1,1^A0N,20,20^FDa\xffb^FS^XZ")
        .expect("parse");
    // the replacement character U+FFFD is then read as code page 850 byte 0xFD
    assert_eq!(texts(&labels[0]), vec!["a\u{b2}b".to_string()]);
}

#[test]
fn position_reader_takes_float_text() {
    assert_eq!(to_positive_int("1e3"), Some(1000));
    assert_eq!(to_positive_int("1.5E+1"), Some(15));
    assert_eq!(to_positive_int("25e-1"), Some(3));
    assert_eq!(to_positive_int("inf"), Some(i32::MAX));
    assert_eq!(to_positive_int("-Infinity"), Some(i32::MAX));
    assert_eq!(to_positive_int("NaN"), Some(0));
    assert_eq!(to_positive_int("-2.5"), Some(3));
    assert_eq!(to_positive_int(" 7 "), Some(7));
    assert_eq!(to_positive_int("1.4"), Some(1));
    assert_eq!(to_positive_int(".5"), Some(1));
    assert_eq!(to_positive_int("1e999999999999"), Some(i32::MAX));
    assert_eq!(to_positive_int("5e-999999999999"), Some(0));
    assert_eq!(to_positive_int("abc"), None);
    assert_eq!(to_positive_int(""), None);
    assert_eq!(to_positive_int("1e"), None);
    assert_eq!(to_positive_int("e5"), None);
    assert_eq!(to_positive_int("+-1"), None);
}

#[test]
fn ceiling_reader_takes_float_text() {
    assert_eq!(parse_int_ceil("1.2e1"), Some(12));
    assert_eq!(parse_int_ceil("1.25e1"), Some(13));
    assert_eq!(parse_int_ceil("-2.5"), Some(-2));
    assert_eq!(parse_int_ceil("-0.5"), Some(0));
    assert_eq!(parse_int_ceil("2"), Some(2));
    assert_eq!(parse_int_ceil("-inf"), Some(i32::MIN));
    assert_eq!(parse_int_ceil("INF"), Some(i32::MAX));
    assert_eq!(parse_int_ceil("nan"), Some(0));
    assert_eq!(parse_int_ceil("1e-5"), Some(1));
    assert_eq!(parse_int_ceil("-1e20"), Some(i32::MIN));
    assert_eq!(parse_int_ceil("x"), None);
    assert_eq!(parse_int_ceil("2147483647.1"), Some(i32::MAX));
    assert_eq!(parse_int_ceil("-2147483648.5"), Some(i32::MIN));
    assert_eq!(parse_int_ceil("-2147483649"), Some(i32::MIN));
    assert_eq!(to_positive_int("2147483647.5"), Some(i32::MAX));
    assert_eq!(to_positive_int("-0"), Some(0));
    assert_eq!(to_positive_int("1.e1"), Some(10));
}

fn plain_field_info() -> FieldInfo {
    FieldInfo {
        reverse_print: ReversePrint { value: false },
        element: None,
        font: FontInfo::empty(),
        position: LabelPosition::default(),
        alignment: FieldAlignment::Left,
        width: 0,
        width_ratio: 0,
        height: 0,
        current_charset: 0,
    }
}

#[test]
fn stored_field_is_filled_by_its_data() {
    let mut rf = RecalledFormat { inverted: false, elements: Vec::new(), field_refs: HashMap::new() };
    let before = rf.elements.len();
    assert!(rf.add_element(LabelElement::StoredField(StoredField { number: 7, field: plain_field_info() })));
    assert_eq!(rf.elements.len(), before + 1);
    assert_eq!(rf.field_refs.get(&7), Some(&vec![before]));
    assert!(rf.add_element(LabelElement::RecalledFieldData(RecalledFieldData { number: 7, data: "Hello".to_string() })));
    assert_eq!(rf.elements.len(), before + 1);
    assert!(rf.field_refs.is_empty());
    match &rf.elements[before] {
        LabelElement::RecalledField(f) => {
            assert_eq!(f.stored.number, 7);
            assert_eq!(f.data, "Hello");
        }
        _ => panic!("expected a recalled field"),
    }
    assert!(rf.add_element(LabelElement::RecalledFieldData(RecalledFieldData { number: 9, data: "X".to_string() })));
    assert_eq!(rf.elements.len(), before + 2);
    match &rf.elements[before + 1] {
        LabelElement::RecalledField(f) => {
            assert_eq!(f.stored.number, 9);
            assert_eq!(f.data, "X");
        }
        _ => panic!("expected a recalled field"),
    }
}

#[test]
fn ratio_reader_takes_float_text() {
    assert_eq!(parse_ratio("2.5"), Some(2500));
    assert_eq!(parse_ratio("2.5e0"), Some(2500));
    assert_eq!(parse_ratio("25e-1"), Some(2500));
    assert_eq!(parse_ratio("2.12345"), Some(2123));
    assert_eq!(parse_ratio("1"), Some(2000));
    assert_eq!(parse_ratio("-2.5"), Some(2000));
    assert_eq!(parse_ratio("7"), Some(3000));
    assert_eq!(parse_ratio("3"), Some(3000));
    assert_eq!(parse_ratio("inf"), Some(3000));
    assert_eq!(parse_ratio("-inf"), Some(2000));
    assert_eq!(parse_ratio("NaN"), Some(0));
    assert_eq!(parse_ratio("x"), None);
}

#[test]
fn readers_round_through_binary64() {
    assert_eq!(to_positive_int("0.49999999999999999"), Some(1));
    assert_eq!(to_positive_int("0.4999999999999999"), Some(0));
    assert_eq!(to_positive_int("2.5000000000000001"), Some(3));
    assert_eq!(parse_int_ceil("2.0000000000000001"), Some(2));
    assert_eq!(parse_int_ceil("2.000000000000001"), Some(3));
    assert_eq!(parse_int_ceil("-2.0000000000000001"), Some(-2));
    assert_eq!(parse_int_ceil("4.9e-324"), Some(1));
    assert_eq!(parse_int_ceil("2.4e-324"), Some(0));
    assert_eq!(parse_int_ceil("2.5e-324"), Some(1));
    assert_eq!(parse_int_ceil("1e308"), Some(i32::MAX));
    assert_eq!(parse_int_ceil("2147483646.9999999999"), Some(2147483647));
    assert_eq!(parse_ratio("2.9999999999999999"), Some(3000));
    assert_eq!(parse_ratio("2.9999999999999996"), Some(2999));
    assert_eq!(parse_ratio("2.0009999999999999"), Some(2000));
}
