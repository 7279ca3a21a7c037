//! The EPL parser: EPL2 label programs, one command per line.
use vstd::prelude::*;
use crate::elements::barcode_128::{Barcode128, Barcode128WithData, BarcodeMode};
use crate::elements::barcode_2of5::{Barcode2of5, Barcode2of5WithData};
use crate::elements::barcode_39::{Barcode39, Barcode39WithData};
use crate::elements::barcode_ean13::{BarcodeEan13, BarcodeEan13WithData};
use crate::elements::field_alignment::FieldAlignment;
use crate::elements::field_orientation::FieldOrientation;
use crate::elements::font::FontInfo;
use crate::elements::graphic_box::GraphicBox;
use crate::elements::label_element::LabelElement;
use crate::elements::label_info::LabelInfo;
use crate::elements::label_position::LabelPosition;
use crate::elements::line_color::LineColor;
use crate::elements::reverse_print::ReversePrint;
use crate::elements::text_field::TextField;
use crate::hex::{last_index, rfind_char};
use crate::text::{
    decimal, decimal_string,
    chars_of, find_char, first_index, is_digit, lossy_utf8, parse_i32_chars, push_char,
    spec_parse_i32, split_chars, split_on, string_of, slice_range, trim, trim_chars, utf8_lossy,
    views,
};

verus! {

/// The EPL parser (it keeps no state between calls).
pub struct EplParser;

/// A parameter read as an integer, or `d`.
pub open spec fn epl_int(s: Seq<char>, d: i32) -> i32 {
    match spec_parse_i32(trim(s)) {
        Some(v) => v,
        None => d,
    }
}

fn get_epl_int(s: &[char], d: i32) -> (r: i32)
    ensures
        r == epl_int(s@, d),
{
    let t = trim_chars(s);
    match parse_i32_chars(&t) {
        Some(v) => v,
        None => d,
    }
}

/// `s` without its trailing commas.
pub open spec fn trim_commas(s: Seq<char>) -> Seq<char>
    decreases s.len(),
{
    if s.len() > 0 && s.last() == ',' {
        trim_commas(s.drop_last())
    } else {
        s
    }
}

/// The parameters of a command: the text between its letter and the opening
/// quote, trailing commas removed, split at commas.
pub open spec fn epl_params(line: Seq<char>, quote: int) -> Seq<Seq<char>> {
    split_on(trim_commas(line.subrange(1, quote)), ',')
}

/// The quoted data of a line: between its first and last `"`.
#[verifier::opaque]
pub open spec fn quoted(line: Seq<char>) -> Option<(int, int)> {
    match (first_index(line, '"'), last_index(line, '"')) {
        (Some(s), Some(e)) => if e > s {
            Some((s, e))
        } else {
            None
        },
        _ => None,
    }
}

/// The orientation of an EPL rotation number.
pub open spec fn epl_rotation(rotation: i32) -> FieldOrientation {
    if rotation == 1 {
        FieldOrientation::Rotated90
    } else if rotation == 2 {
        FieldOrientation::Rotated180
    } else if rotation == 3 {
        FieldOrientation::Rotated270
    } else {
        FieldOrientation::Normal
    }
}

fn epl_rotation_of(rotation: i32) -> (o: FieldOrientation)
    ensures
        o == epl_rotation(rotation),
{
    if rotation == 1 {
        FieldOrientation::Rotated90
    } else if rotation == 2 {
        FieldOrientation::Rotated180
    } else if rotation == 3 {
        FieldOrientation::Rotated270
    } else {
        FieldOrientation::Normal
    }
}

/// The cell width and height of EPL fonts 1 to 5 (font 1 for any other number).
pub open spec fn epl_font_size(font_num: i32) -> (i32, i32) {
    if font_num == 2 {
        (10, 16)
    } else if font_num == 3 {
        (12, 20)
    } else if font_num == 4 {
        (14, 24)
    } else if font_num == 5 {
        (32, 48)
    } else {
        (8, 12)
    }
}

fn epl_font_size_of(font_num: i32) -> (r: (i32, i32))
    ensures
        r == epl_font_size(font_num),
{
    if font_num == 2 {
        (10, 16)
    } else if font_num == 3 {
        (12, 20)
    } else if font_num == 4 {
        (14, 24)
    } else if font_num == 5 {
        (32, 48)
    } else {
        (8, 12)
    }
}

/// A position moved by the reference point (coordinates wrap on overflow).
pub open spec fn epl_position(x: i32, y: i32, rx: i32, ry: i32) -> LabelPosition {
    LabelPosition {
        x: x.wrapping_add(rx),
        y: y.wrapping_add(ry),
        calculate_from_bottom: false,
        automatic_position: false,
    }
}

/// What the text command `A` gives.
pub open spec fn epl_text_rel(line: Seq<char>, rx: i32, ry: i32, r: Result<Option<LabelElement>, String>) -> bool {
    match quoted(line) {
        Some((s, e)) => {
            let text = line.subrange(s + 1, e);
            let ps = epl_params(line, s);
            if text.len() == 0 {
                r matches Ok(None)
            } else if ps.len() < 7 {
                r matches Err(m) && m@ == "EPL A command requires at least 7 parameters, got "@
                    + decimal(ps.len())
            } else {
                r matches Ok(Some(e)) && epl_text_element(ps, text, rx, ry, e)
            }
        },
        None => r matches Ok(None),
    }
}

/// The text field of an `A` command with parameters `ps` and data `text`.
#[verifier::opaque]
pub open spec fn epl_text_element(
    ps: Seq<Seq<char>>,
    text: Seq<char>,
    rx: i32,
    ry: i32,
    e: LabelElement,
) -> bool {
    let h_mult = crate::parsers::zpl_parser::max_i32(epl_int(ps[4], 1), 1);
    let v_mult = crate::parsers::zpl_parser::max_i32(epl_int(ps[5], 1), 1);
    let (bw, bh) = epl_font_size(epl_int(ps[3], 1));
    let height = bh.wrapping_mul(v_mult);
    e matches LabelElement::Text(t) && t.reverse_print.value == (trim(ps[6]) == seq!['R'])
        && t.font.name@ == seq!['0'] && t.font.height == height && t.font.width == (if h_mult
        != v_mult {
        h_mult.wrapping_mul(bw)
    } else {
        height
    }) && t.font.orientation == epl_rotation(epl_int(ps[2], 0)) && t.position == epl_position(
        epl_int(ps[0], 0),
        epl_int(ps[1], 0),
        rx,
        ry,
    ) && t.text@ == text && t.alignment == FieldAlignment::Left && t.block is None
}

/// The wide-to-narrow ratio in thousandths: `wide / narrow`, at least two,
/// rounded down and capped at `i32::MAX`.
pub open spec fn epl_ratio(wide: i32, narrow: i32) -> i32 {
    if (wide as int) * 1000 < 2000 * (narrow as int) {
        2000
    } else if (wide as int) * 1000 / (narrow as int) > i32::MAX {
        i32::MAX
    } else {
        ((wide as int) * 1000 / (narrow as int)) as i32
    }
}

/// What the barcode command `B` gives: Code 39 for type `0`, EAN-13 for `B`,
/// Interleaved 2 of 5 for `G` and `H`, else Code 128 in automatic mode.
pub open spec fn epl_barcode_rel(line: Seq<char>, rx: i32, ry: i32, r: Result<Option<LabelElement>, String>) -> bool {
    match quoted(line) {
        Some((s, e)) => {
            let data = line.subrange(s + 1, e);
            let ps = epl_params(line, s);
            if data.len() == 0 {
                r matches Ok(None)
            } else if ps.len() < 8 {
                r matches Err(m) && m@ == "EPL B command requires at least 8 parameters, got "@
                    + decimal(ps.len())
            } else {
                r matches Ok(Some(el)) && epl_barcode_element(ps, data, rx, ry, el)
            }
        },
        None => r matches Ok(None),
    }
}

/// The barcode of a `B` command with parameters `ps` and data `data`.
#[verifier::opaque]
pub open spec fn epl_barcode_element(
    ps: Seq<Seq<char>>,
    data: Seq<char>,
    rx: i32,
    ry: i32,
    el: LabelElement,
) -> bool {
    let narrow = crate::parsers::zpl_parser::max_i32(epl_int(ps[4], 1), 1);
    let wide = epl_int(ps[5], 2);
    let height = crate::parsers::zpl_parser::max_i32(epl_int(ps[6], 10), 1);
    let pos = epl_position(epl_int(ps[0], 0), epl_int(ps[1], 0), rx, ry);
    let orient = epl_rotation(epl_int(ps[2], 0));
    let line_below = trim(ps[7]) == seq!['B'];
    let kind = trim(ps[3]);
    if kind == seq!['0'] {
        el matches LabelElement::Barcode39(b) && !b.reverse_print.value
            && b.barcode == (Barcode39 {
            orientation: orient,
            height,
            line: line_below,
            line_above: false,
            check_digit: false,
        }) && b.width == narrow && b.width_ratio == epl_ratio(wide, narrow)
            && b.position == pos && b.data@ == data
    } else if kind == seq!['B'] {
        el matches LabelElement::BarcodeEan13(b) && !b.reverse_print.value
            && b.barcode == (BarcodeEan13 {
            orientation: orient,
            height,
            line: line_below,
            line_above: false,
        }) && b.width == narrow && b.position == pos && b.data@ == data
    } else if kind == seq!['G'] || kind == seq!['H'] {
        el matches LabelElement::Barcode2of5(b) && !b.reverse_print.value
            && b.barcode == (Barcode2of5 {
            orientation: orient,
            height,
            line: line_below,
            line_above: false,
            check_digit: false,
        }) && b.width == narrow && b.width_ratio == epl_ratio(wide, narrow)
            && b.position == pos && b.data@ == data
    } else {
        el matches LabelElement::Barcode128(b) && !b.reverse_print.value
            && b.barcode == (Barcode128 {
            orientation: orient,
            height,
            line: line_below,
            line_above: false,
            check_digit: false,
            mode: BarcodeMode::Automatic,
        }) && b.width == narrow && b.position == pos && b.data@ == data
    }
}

/// What the line command `LO` gives: a filled box.
pub open spec fn epl_box_rel(line: Seq<char>, rx: i32, ry: i32, r: Result<Option<LabelElement>, String>) -> bool {
    let ps = split_on(line.subrange(2, line.len() as int), ',');
    if ps.len() < 4 {
        r matches Err(m) && m@ == "EPL LO command requires 4 parameters, got "@ + decimal(ps.len())
    } else {
        let w = crate::parsers::zpl_parser::max_i32(epl_int(ps[2], 1), 1);
        let h = crate::parsers::zpl_parser::max_i32(epl_int(ps[3], 1), 1);
        r == Ok::<Option<LabelElement>, String>(
            Some(
                LabelElement::GraphicBox(
                    GraphicBox {
                        position: epl_position(epl_int(ps[0], 0), epl_int(ps[1], 0), rx, ry),
                        width: w,
                        height: h,
                        border_thickness: crate::parsers::zpl_parser::min_i32(w, h),
                        corner_rounding: 0,
                        line_color: LineColor::Black,
                        reverse_print: ReversePrint { value: false },
                    },
                ),
            ),
        )
    }
}

/// The parameters between the command letter and the quote at `q`.
fn params_before(line: &[char], q: usize) -> (r: Vec<Vec<char>>)
    requires
        1 <= q <= line@.len(),
    ensures
        views(r@) == epl_params(line@, q as int),
{
    let mut end = q;
    while end > 1 && line[end - 1] == ','
        invariant
            1 <= end <= q,
            q <= line@.len(),
            trim_commas(line@.subrange(1, q as int)) == trim_commas(line@.subrange(1, end as int)),
        decreases end,
    {
        proof {
            assert(line@.subrange(1, end as int).drop_last() =~= line@.subrange(1, end - 1));
        }
        end -= 1;
    }
    let head = slice_range(line, 1, end);
    proof {
        if head@.len() > 0 {
            assert(head@.last() == line@[end - 1]);
        }
        assert(trim_commas(head@) == head@);
    }
    split_chars(&head, ',')
}

/// Finds the quoted data of a line.
fn find_quotes(line: &[char]) -> (r: Option<(usize, usize)>)
    ensures
        match r {
            Some((s, e)) => quoted(line@) == Some((s as int, e as int)) && s < e && e < line@.len()
                && line@[s as int] == '"',
            None => quoted(line@) is None,
        },
{
    proof {
        reveal(quoted);
    }
    match (find_char(line, '"'), rfind_char(line, '"')) {
        (Some(s), Some(e)) => if e > s {
            Some((s, e))
        } else {
            None
        },
        _ => None,
    }
}

/// Parses the text command `A`.
fn parse_epl_text(line: &[char], ref_x: i32, ref_y: i32) -> (r: Result<Option<LabelElement>, String>)
    requires
        line@.len() >= 1,
        line@[0] != '"',
    ensures
        epl_text_rel(line@, ref_x, ref_y, r),
{
    match find_quotes(line) {
        Some((s, e)) => {
            let text = slice_range(line, s + 1, e);
            if text.len() == 0 {
                return Ok(None);
            }
            let ps = params_before(line, s);
            if ps.len() < 7 {
                let mut m = "EPL A command requires at least 7 parameters, got ".to_owned();
                let d = decimal_string(ps.len());
                m.append(d.as_str());
                return Err(m);
            }
            Ok(Some(epl_text_of(&ps, &text, ref_x, ref_y)))
        },
        None => Ok(None),
    }
}

/// The text field of an `A` command.
fn epl_text_of(ps: &Vec<Vec<char>>, text: &Vec<char>, ref_x: i32, ref_y: i32) -> (e: LabelElement)
    requires
        ps@.len() >= 7,
    ensures
        epl_text_element(views(ps@), text@, ref_x, ref_y, e),
{
    let x = get_epl_int(&ps[0], 0);
    let y = get_epl_int(&ps[1], 0);
    let rotation = get_epl_int(&ps[2], 0);
    let font_num = get_epl_int(&ps[3], 1);
    let h0 = get_epl_int(&ps[4], 1);
    let h_mult = if h0 >= 1 {
        h0
    } else {
        1
    };
    let v0 = get_epl_int(&ps[5], 1);
    let v_mult = if v0 >= 1 {
        v0
    } else {
        1
    };
    let rev = trim_chars(&ps[6]);
    let reverse = rev.len() == 1 && rev[0] == 'R';
    proof {
        if reverse {
            assert(rev@ =~= seq!['R']);
        }
        if rev@ == seq!['R'] {
            assert(rev@[0] == 'R');
        }
    }
    let (bw, bh) = epl_font_size_of(font_num);
    let height = bh.wrapping_mul(v_mult);
    let width = if h_mult != v_mult {
        h_mult.wrapping_mul(bw)
    } else {
        height
    };
    let mut name = String::new();
    push_char(&mut name, '0');
    assert(name@ =~= seq!['0']);
    proof {
        reveal(epl_text_element);
    }
    LabelElement::Text(
                TextField {
                    reverse_print: ReversePrint { value: reverse },
                    font: FontInfo {
                        name,
                        width,
                        height,
                        orientation: epl_rotation_of(rotation),
                    },
                    position: LabelPosition {
                        x: x.wrapping_add(ref_x),
                        y: y.wrapping_add(ref_y),
                        calculate_from_bottom: false,
                        automatic_position: false,
                    },
                    text: string_of(&text),
                    alignment: FieldAlignment::Left,
                    block: None,
                },
            )
}

fn epl_ratio_of(wide: i32, narrow: i32) -> (r: i32)
    requires
        narrow >= 1,
    ensures
        r == epl_ratio(wide, narrow),
{
    let w = (wide as i64) * 1000;
    if w < 2000 * (narrow as i64) {
        2000
    } else if w / (narrow as i64) > i32::MAX as i64 {
        i32::MAX
    } else {
        (w / (narrow as i64)) as i32
    }
}

fn is_single(v: &Vec<char>, c: char) -> (b: bool)
    ensures
        b == (v@ == seq![c]),
{
    let r = v.len() == 1 && v[0] == c;
    proof {
        if r {
            assert(v@ =~= seq![c]);
        }
        if v@ == seq![c] {
            assert(v@[0] == c);
        }
    }
    r
}

/// The barcode of a `B` command.
fn epl_barcode_of(ps: &Vec<Vec<char>>, data: &Vec<char>, ref_x: i32, ref_y: i32) -> (el: LabelElement)
    requires
        ps@.len() >= 8,
    ensures
        epl_barcode_element(views(ps@), data@, ref_x, ref_y, el),
{
    proof {
        reveal(epl_barcode_element);
    }
    let x = get_epl_int(&ps[0], 0);
    let y = get_epl_int(&ps[1], 0);
    let rotation = get_epl_int(&ps[2], 0);
    let kind = trim_chars(&ps[3]);
    let n0 = get_epl_int(&ps[4], 1);
    let narrow = if n0 >= 1 {
        n0
    } else {
        1
    };
    let wide = get_epl_int(&ps[5], 2);
    let h0 = get_epl_int(&ps[6], 10);
    let height = if h0 >= 1 {
        h0
    } else {
        1
    };
    let hr = trim_chars(&ps[7]);
    let line_below = is_single(&hr, 'B');
    let pos = LabelPosition {
        x: x.wrapping_add(ref_x),
        y: y.wrapping_add(ref_y),
        calculate_from_bottom: false,
        automatic_position: false,
    };
    let orient = epl_rotation_of(rotation);
    let text = string_of(&data);
    let el = if is_single(&kind, '0') {
        LabelElement::Barcode39(
            Barcode39WithData {
                reverse_print: ReversePrint { value: false },
                barcode: Barcode39 {
                    orientation: orient,
                    height,
                    line: line_below,
                    line_above: false,
                    check_digit: false,
                },
                width: narrow,
                width_ratio: epl_ratio_of(wide, narrow),
                position: pos,
                data: text,
            },
        )
    } else if is_single(&kind, 'B') {
        LabelElement::BarcodeEan13(
            BarcodeEan13WithData {
                reverse_print: ReversePrint { value: false },
                barcode: BarcodeEan13 {
                    orientation: orient,
                    height,
                    line: line_below,
                    line_above: false,
                },
                width: narrow,
                position: pos,
                data: text,
            },
        )
    } else if is_single(&kind, 'G') || is_single(&kind, 'H') {
        LabelElement::Barcode2of5(
            Barcode2of5WithData {
                reverse_print: ReversePrint { value: false },
                barcode: Barcode2of5 {
                    orientation: orient,
                    height,
                    line: line_below,
                    line_above: false,
                    check_digit: false,
                },
                width: narrow,
                width_ratio: epl_ratio_of(wide, narrow),
                position: pos,
                data: text,
            },
        )
    } else {
        LabelElement::Barcode128(
            Barcode128WithData {
                reverse_print: ReversePrint { value: false },
                barcode: Barcode128 {
                    orientation: orient,
                    height,
                    line: line_below,
                    line_above: false,
                    check_digit: false,
                    mode: BarcodeMode::Automatic,
                },
                width: narrow,
                position: pos,
                data: text,
            },
        )
    };
    el
}

/// Parses the barcode command `B`.
fn parse_epl_barcode(line: &[char], ref_x: i32, ref_y: i32) -> (r: Result<Option<LabelElement>, String>)
    requires
        line@.len() >= 1,
        line@[0] != '"',
    ensures
        epl_barcode_rel(line@, ref_x, ref_y, r),
{
    match find_quotes(line) {
        Some((s, e)) => {
            let data = slice_range(line, s + 1, e);
            if data.len() == 0 {
                return Ok(None);
            }
            let ps = params_before(line, s);
            if ps.len() < 8 {
                let mut m = "EPL B command requires at least 8 parameters, got ".to_owned();
                let d = decimal_string(ps.len());
                m.append(d.as_str());
                return Err(m);
            }
            let el = epl_barcode_of(&ps, &data, ref_x, ref_y);
            Ok(Some(el))
        },
        None => Ok(None),
    }
}

/// Parses the line command `LO`.
fn parse_epl_line(line: &[char], ref_x: i32, ref_y: i32) -> (r: Result<Option<LabelElement>, String>)
    requires
        line@.len() >= 2,
    ensures
        epl_box_rel(line@, ref_x, ref_y, r),
{
    let rest = slice_range(line, 2, line.len());
    let ps = split_chars(&rest, ',');
    if ps.len() < 4 {
        let mut m = "EPL LO command requires 4 parameters, got ".to_owned();
        let d = decimal_string(ps.len());
        m.append(d.as_str());
        return Err(m);
    }
    let x = get_epl_int(&ps[0], 0);
    let y = get_epl_int(&ps[1], 0);
    let w0 = get_epl_int(&ps[2], 1);
    let w = if w0 >= 1 {
        w0
    } else {
        1
    };
    let h0 = get_epl_int(&ps[3], 1);
    let h = if h0 >= 1 {
        h0
    } else {
        1
    };
    Ok(
        Some(
            LabelElement::GraphicBox(
                GraphicBox {
                    position: LabelPosition {
                        x: x.wrapping_add(ref_x),
                        y: y.wrapping_add(ref_y),
                        calculate_from_bottom: false,
                        automatic_position: false,
                    },
                    width: w,
                    height: h,
                    border_thickness: if w <= h {
                        w
                    } else {
                        h
                    },
                    corner_rounding: 0,
                    line_color: LineColor::Black,
                    reverse_print: ReversePrint { value: false },
                },
            ),
        ),
    )
}

/// A reference point command: `R` followed by a digit.
pub open spec fn is_reference_point(l: Seq<char>) -> bool {
    l.len() > 1 && l[0] == 'R' && is_digit(l[1])
}

/// A print command: `P`, optionally followed by digits only.
pub open spec fn is_print_command(l: Seq<char>) -> bool {
    l.len() >= 1 && l[0] == 'P' && forall|i: int| 1 <= i < l.len() ==> is_digit(#[trigger] l[i])
}

/// The two coordinates of a reference point (`str::splitn(2, ',')` after `R`).
pub open spec fn reference_parts(l: Seq<char>) -> (Seq<char>, Option<Seq<char>>) {
    let rest = l.subrange(1, l.len() as int);
    match first_index(rest, ',') {
        Some(k) => (rest.take(k), Some(rest.subrange(k + 1, rest.len() as int))),
        None => (rest, None),
    }
}

/// The parser's state between lines: the labels finished so far, the
/// elements of the label being built, and the reference point.
pub struct EplSession {
    pub labels: Seq<LabelInfo>,
    pub current: Seq<LabelElement>,
    pub ref_x: i32,
    pub ref_y: i32,
}

/// An element command's result applied to the label being built.
pub open spec fn epl_element_step(
    s: EplSession,
    r1: Result<Option<LabelElement>, String>,
    t: EplSession,
    r: Result<(), String>,
) -> bool {
    match r1 {
        Err(e) => r == Err::<(), String>(e),
        Ok(None) => r is Ok && t == s,
        Ok(Some(e)) => r is Ok && t == EplSession { current: s.current.push(e), ..s },
    }
}

/// `labels` is `s.labels` with the label being built added, if it has elements.
pub open spec fn epl_flush(s: EplSession, labels: Seq<LabelInfo>) -> bool {
    if s.current.len() > 0 {
        &&& labels.len() == s.labels.len() + 1
        &&& labels.drop_last() == s.labels
        &&& labels.last().print_width == 0
        &&& !labels.last().inverted
        &&& labels.last().elements@ == s.current
    } else {
        labels == s.labels
    }
}

/// One line of an EPL program (white space around it ignored).
pub open spec fn epl_line_rel(s: EplSession, raw: Seq<char>, t: EplSession, r: Result<(), String>) -> bool {
    let l = trim(raw);
    if l.len() == 0 {
        r is Ok && t == s
    } else if l == seq!['N'] {
        r is Ok && t == EplSession { current: seq![], ref_x: 0, ref_y: 0, ..s }
    } else if is_reference_point(l) {
        let (a, b) = reference_parts(l);
        r is Ok && t == EplSession {
            ref_x: epl_int(a, 0),
            ref_y: match b {
                Some(bb) => epl_int(bb, 0),
                None => s.ref_y,
            },
            ..s
        }
    } else if l[0] == 'A' {
        exists|r1: Result<Option<LabelElement>, String>|
            #[trigger] epl_text_rel(l, s.ref_x, s.ref_y, r1) && epl_element_step(s, r1, t, r)
    } else if l[0] == 'B' {
        exists|r1: Result<Option<LabelElement>, String>|
            #[trigger] epl_barcode_rel(l, s.ref_x, s.ref_y, r1) && epl_element_step(s, r1, t, r)
    } else if l.len() >= 2 && l[0] == 'L' && l[1] == 'O' {
        exists|r1: Result<Option<LabelElement>, String>|
            #[trigger] epl_box_rel(l, s.ref_x, s.ref_y, r1) && epl_element_step(s, r1, t, r)
    } else if is_print_command(l) {
        r is Ok && t.current.len() == 0 && t.ref_x == s.ref_x && t.ref_y == s.ref_y && epl_flush(
            s,
            t.labels,
        )
    } else {
        r is Ok && t == s
    }
}

/// The session `parse` starts from.
pub open spec fn epl_start() -> EplSession {
    EplSession { labels: seq![], current: seq![], ref_x: 0, ref_y: 0 }
}

/// `states` steps through the lines `lines` without error.
pub open spec fn epl_trace(lines: Seq<Seq<char>>, states: Seq<EplSession>) -> bool {
    &&& 1 <= states.len() <= lines.len() + 1
    &&& forall|i: int|
        0 <= i < states.len() - 1 ==> #[trigger] epl_line_rel(
            states[i],
            lines[i],
            states[i + 1],
            Ok(()),
        )
}

/// What `EplParser::parse` does with the program text `text`: the lines are
/// applied in turn; the result is the labels printed (a label still being
/// built at the end is printed too), or the first error.
pub open spec fn epl_parse_rel(text: Seq<char>, r: Result<Vec<LabelInfo>, String>) -> bool {
    let lines = split_on(text, '\n');
    exists|states: Seq<EplSession>|
        #[trigger] epl_trace(lines, states) && states[0] == epl_start() && {
            let last = states[states.len() - 1];
            if states.len() == lines.len() + 1 {
                r matches Ok(labels) && epl_flush(last, labels@)
            } else {
                exists|t: EplSession, e: String|
                    #[trigger] epl_line_rel(last, lines[states.len() - 1], t, Err(e)) && r == Err::<
                        Vec<LabelInfo>,
                        String,
                    >(e)
            }
        }
}

fn reference_point_of(l: &Vec<char>, ry: i32) -> (r: (i32, i32))
    requires
        l@.len() >= 1,
    ensures
        ({
            let (a, b) = reference_parts(l@);
            r == (epl_int(a, 0), match b {
                Some(bb) => epl_int(bb, 0),
                None => ry,
            })
        }),
{
    let rest = slice_range(l.as_slice(), 1, l.len());
    match find_char(&rest, ',') {
        Some(k) => {
            let a = slice_range(&rest, 0, k);
            let b = slice_range(&rest, k + 1, rest.len());
            proof {
                assert(a@ =~= rest@.take(k as int));
            }
            (get_epl_int(&a, 0), get_epl_int(&b, 0))
        },
        None => (get_epl_int(&rest, 0), ry),
    }
}

fn is_reference_point_line(l: &Vec<char>) -> (b: bool)
    ensures
        b == is_reference_point(l@),
{
    l.len() > 1 && l[0] == 'R' && '0' <= l[1] && l[1] <= '9'
}

fn is_print_command_line(l: &Vec<char>) -> (b: bool)
    ensures
        b == is_print_command(l@),
{
    if l.len() == 0 || l[0] != 'P' {
        return false;
    }
    let mut i: usize = 1;
    while i < l.len()
        invariant
            1 <= i <= l@.len(),
            forall|j: int| 1 <= j < i ==> is_digit(#[trigger] l@[j]),
        decreases l@.len() - i,
    {
        if !('0' <= l[i] && l[i] <= '9') {
            return false;
        }
        i += 1;
    }
    true
}

impl EplParser {
    /// An EPL parser.
    pub fn new() -> (p: EplParser)
        ensures
            p == EplParser,
    {
        EplParser
    }

    /// Adds the element of a command result to the label being built.
    fn add_element_result(
        &self,
        r1: Result<Option<LabelElement>, String>,
        current: &mut Vec<LabelElement>,
    ) -> (r: Result<(), String>)
        ensures
            match r1 {
                Err(e) => r == Err::<(), String>(e) && final(current)@ == old(current)@,
                Ok(None) => r is Ok && final(current)@ == old(current)@,
                Ok(Some(e)) => r is Ok && final(current)@ == old(current)@.push(e),
            },
    {
        match r1 {
            Err(e) => Err(e),
            Ok(None) => Ok(()),
            Ok(Some(e)) => {
                current.push(e);
                Ok(())
            },
        }
    }

    /// Applies one line to the session state.
    fn step(
        &self,
        raw: &Vec<char>,
        results: &mut Vec<LabelInfo>,
        current: &mut Vec<LabelElement>,
        ref_x: &mut i32,
        ref_y: &mut i32,
    ) -> (r: Result<(), String>)
        ensures
            epl_line_rel(
                EplSession {
                    labels: old(results)@,
                    current: old(current)@,
                    ref_x: *old(ref_x),
                    ref_y: *old(ref_y),
                },
                raw@,
                EplSession {
                    labels: final(results)@,
                    current: final(current)@,
                    ref_x: *final(ref_x),
                    ref_y: *final(ref_y),
                },
                r,
            ),
    {
        let line = trim_chars(raw.as_slice());
        if line.len() == 0 {
            return Ok(());
        }
        if line.len() == 1 && line[0] == 'N' {
            proof {
                assert(line@ =~= seq!['N']);
            }
            *current = Vec::new();
            *ref_x = 0;
            *ref_y = 0;
            return Ok(());
        }
        proof {
            if line@ == seq!['N'] {
                assert(line@.len() == 1 && line@[0] == 'N');
            }
        }
        if is_reference_point_line(&line) {
            let (x, y) = reference_point_of(&line, *ref_y);
            *ref_x = x;
            *ref_y = y;
            return Ok(());
        }
        let first = line[0];
        if first == 'A' {
            let r1 = parse_epl_text(line.as_slice(), *ref_x, *ref_y);
            let ghost g1 = r1;
            let ghost s0 = EplSession {
                labels: results@,
                current: current@,
                ref_x: *ref_x,
                ref_y: *ref_y,
            };
            let out = self.add_element_result(r1, current);
            proof {
                let t = EplSession {
                    labels: results@,
                    current: current@,
                    ref_x: *ref_x,
                    ref_y: *ref_y,
                };
                assert(epl_text_rel(line@, s0.ref_x, s0.ref_y, g1) && epl_element_step(s0, g1, t, out));
            }
            return out;
        }
        if first == 'B' {
            let r1 = parse_epl_barcode(line.as_slice(), *ref_x, *ref_y);
            let ghost g1 = r1;
            let ghost s0 = EplSession {
                labels: results@,
                current: current@,
                ref_x: *ref_x,
                ref_y: *ref_y,
            };
            let out = self.add_element_result(r1, current);
            proof {
                let t = EplSession {
                    labels: results@,
                    current: current@,
                    ref_x: *ref_x,
                    ref_y: *ref_y,
                };
                assert(epl_barcode_rel(line@, s0.ref_x, s0.ref_y, g1) && epl_element_step(s0, g1, t, out));
            }
            return out;
        }
        if line.len() >= 2 && first == 'L' && line[1] == 'O' {
            let r1 = parse_epl_line(line.as_slice(), *ref_x, *ref_y);
            let ghost g1 = r1;
            let ghost s0 = EplSession {
                labels: results@,
                current: current@,
                ref_x: *ref_x,
                ref_y: *ref_y,
            };
            let out = self.add_element_result(r1, current);
            proof {
                let t = EplSession {
                    labels: results@,
                    current: current@,
                    ref_x: *ref_x,
                    ref_y: *ref_y,
                };
                assert(epl_box_rel(line@, s0.ref_x, s0.ref_y, g1) && epl_element_step(s0, g1, t, out));
            }
            return out;
        }
        if is_print_command_line(&line) {
            if current.len() > 0 {
                let mut elements: Vec<LabelElement> = Vec::new();
                std::mem::swap(&mut elements, current);
                results.push(LabelInfo { print_width: 0, inverted: false, elements });
                proof {
                    assert(results@.drop_last() =~= old(results)@);
                }
            } else {
                *current = Vec::new();
            }
        }
        Ok(())
    }

    /// Parses an EPL program (read as UTF-8, invalid bytes replaced) into the
    /// labels it prints. Valid UTF-8 is read as the text it encodes.
    pub fn parse(&self, epl_data: &[u8]) -> (r: Result<Vec<LabelInfo>, String>)
        ensures
            epl_parse_rel(lossy_utf8(epl_data@), r),
            vstd::utf8::valid_utf8(epl_data@) ==> epl_parse_rel(vstd::utf8::decode_utf8(epl_data@), r),
    {
        let text = utf8_lossy(epl_data);
        let all = chars_of(text.as_str());
        let lines = split_chars(&all, '\n');
        let ghost ls = views(lines@);
        let mut results: Vec<LabelInfo> = Vec::new();
        let mut current: Vec<LabelElement> = Vec::new();
        let mut ref_x: i32 = 0;
        let mut ref_y: i32 = 0;
        let ghost mut states: Seq<EplSession> = seq![epl_start()];
        proof {
            assert(results@ =~= Seq::<LabelInfo>::empty());
            assert(current@ =~= Seq::<LabelElement>::empty());
        }
        let n = lines.len();
        let mut i: usize = 0;
        while i < n
            invariant
                i <= n,
                n == ls.len(),
                ls == views(lines@),
                ls == split_on(lossy_utf8(epl_data@), '\n'),
                vstd::utf8::valid_utf8(epl_data@) ==> lossy_utf8(epl_data@)
                    == vstd::utf8::decode_utf8(epl_data@),
                states.len() == i + 1,
                states[0] == epl_start(),
                epl_trace(ls, states),
                states[i as int] == (EplSession {
                    labels: results@,
                    current: current@,
                    ref_x,
                    ref_y,
                }),
            decreases n - i,
        {
            let ghost s0 = states[i as int];
            let line = &lines[i];
            assert(line@ == ls[i as int]);
            match self.step(line, &mut results, &mut current, &mut ref_x, &mut ref_y) {
                Ok(()) => {},
                Err(e) => {
                    proof {
                        let t = EplSession { labels: results@, current: current@, ref_x, ref_y };
                        assert(states[states.len() - 1] == s0);
                        assert(epl_line_rel(states[states.len() - 1], ls[states.len() - 1], t, Err(e)));
                        assert(epl_trace(ls, states));
                    }
                    return Err(e);
                },
            }
            proof {
                let t = EplSession { labels: results@, current: current@, ref_x, ref_y };
                let states0 = states;
                states = states.push(t);
                assert forall|j: int| 0 <= j < states.len() - 1 implies #[trigger] epl_line_rel(
                    states[j],
                    ls[j],
                    states[j + 1],
                    Ok(()),
                ) by {
                    if j < i {
                        assert(states[j] == states0[j]);
                        assert(states[j + 1] == states0[j + 1]);
                    }
                }
            }
            i += 1;
        }
        if current.len() > 0 {
            let ghost r0 = results@;
            results.push(LabelInfo { print_width: 0, inverted: false, elements: current });
            proof {
                assert(results@.drop_last() =~= r0);
            }
        }
        proof {
            assert(epl_trace(ls, states));
        }
        Ok(results)
    }
}

} // verus!
