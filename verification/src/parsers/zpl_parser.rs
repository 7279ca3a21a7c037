//! The ZPL parser: splits a ZPL stream into commands, applies each command to
//! the virtual printer, and collects the labels between `^XA` and `^XZ`.
use vstd::prelude::*;
use crate::elements::barcode_128::{Barcode128, BarcodeMode};
use crate::elements::barcode_2of5::Barcode2of5;
use crate::elements::barcode_39::Barcode39;
use crate::elements::barcode_aztec::BarcodeAztec;
use crate::elements::barcode_datamatrix::{BarcodeDatamatrix, DatamatrixRatio};
use crate::elements::barcode_ean13::BarcodeEan13;
use crate::elements::barcode_info::BarcodeDimensions;
use crate::elements::barcode_pdf417::BarcodePdf417;
use crate::elements::barcode_qr::BarcodeQr;
use crate::elements::field_alignment::FieldAlignment;
use crate::elements::field_block::FieldBlock;
use crate::elements::field_info::{FieldConfig, FieldInfo};
use crate::elements::field_orientation::FieldOrientation;
use crate::elements::font::{FontInfo, is_standard_font_name};
use crate::elements::graphic_box::GraphicBox;
use crate::elements::graphic_circle::GraphicCircle;
use crate::elements::graphic_diagonal_line::GraphicDiagonalLine;
use crate::elements::graphic_field::{GraphicField, GraphicFieldFormat};
use crate::elements::graphic_symbol::GraphicSymbol;
use crate::elements::label_element::LabelElement;
use crate::elements::label_info::LabelInfo;
use crate::elements::label_position::LabelPosition;
use crate::elements::line_color::LineColor;
use crate::elements::maxicode::Maxicode;
use crate::elements::reverse_print::ReversePrint;
use crate::elements::stored_format::{
    RecalledField, RecalledFieldData, RecalledFormat, StoredField, StoredFormat,
    field_resolution, resolve_field, resolves_to, built_from,
};
use crate::elements::stored_graphics::StoredGraphics;
use crate::elements::text_alignment::TextAlignment;
use crate::hex::{decode_escaped_string, decode_graphic_field_data, graphic_field_result, unescape};
use crate::parsers::command_utils::{
    alignment_of, alignment_of_chars, barcode_mode_of, barcode_mode_of_char, ceil_int_of,
    ceil_int_of_chars, orientation_of, orientation_of_char, parse_int_chars, positive_int_of,
    positive_int_of_chars, ratio_of, ratio_of_chars, text_alignment_of, text_alignment_of_char,
};
use crate::parsers::fs::{
    STORED_FORMAT_DEFAULT_PATH, STORED_GRAPHICS_DEFAULT_PATH, device_of, ensure_extension,
    is_valid_device, validate_device, with_extension,
};
use crate::parsers::virtual_printer::{
    VirtualPrinter, entry_at, find_entry, find_first, next_font_or_default, no_entry, store_entry,
};
use crate::text::{
    ascii_upper, chars_of, has_prefix_ci, is_digit, parse_i32_chars, push_char, spec_parse_i32,
    split_chars, split_on, starts_with_ci, string_of, suffix_from, trim, trim_chars, upper_char,
    views,
};

verus! {

// ---------------------------------------------------------------------------
// Command parameters
// ---------------------------------------------------------------------------

/// The parameters of a command: the characters after its `k`-character
/// prefix, split at commas.
pub open spec fn params(c: Seq<char>, k: int) -> Seq<Seq<char>> {
    split_on(c.subrange(k, c.len() as int), ',')
}

/// Parameter `i` read as an integer (`parse_int`).
pub open spec fn param_int(ps: Seq<Seq<char>>, i: int) -> Option<i32> {
    if 0 <= i < ps.len() {
        spec_parse_i32(trim(ps[i]))
    } else {
        None
    }
}

/// Parameter `i` read as a position (`to_positive_int`).
pub open spec fn param_pos(ps: Seq<Seq<char>>, i: int) -> Option<i32> {
    if 0 <= i < ps.len() {
        positive_int_of(ps[i])
    } else {
        None
    }
}

/// Parameter `i` read as a height rounded up (`parse_int_ceil`).
pub open spec fn param_ceil(ps: Seq<Seq<char>>, i: int) -> Option<i32> {
    if 0 <= i < ps.len() {
        ceil_int_of(ps[i])
    } else {
        None
    }
}

/// The first character of parameter `i`, when it has one.
pub open spec fn param_first(ps: Seq<Seq<char>>, i: int) -> Option<char> {
    if 0 <= i < ps.len() && ps[i].len() > 0 {
        Some(ps[i][0])
    } else {
        None
    }
}

/// Parameter `i` is exactly `s`.
pub open spec fn param_is(ps: Seq<Seq<char>>, i: int, s: Seq<char>) -> bool {
    0 <= i < ps.len() && ps[i] == s
}

/// The value of an optional parameter, or `d` when it is missing or unreadable.
pub open spec fn or_keep<T>(o: Option<T>, d: T) -> T {
    match o {
        Some(v) => v,
        None => d,
    }
}

/// The first byte of the UTF-8 encoding of `c`.
pub open spec fn first_byte(c: char) -> u8 {
    let v = c as u32;
    if v < 0x80 {
        v as u8
    } else if v < 0x800 {
        (0xC0 + v / 64) as u8
    } else if v < 0x10000 {
        (0xE0 + v / 4096) as u8
    } else {
        (0xF0 + v / 262144) as u8
    }
}

fn first_byte_of(c: char) -> (b: u8)
    ensures
        b == first_byte(c),
{
    let v = c as u32;
    if v < 0x80 {
        v as u8
    } else if v < 0x800 {
        (0xC0 + v / 64) as u8
    } else if v < 0x10000 {
        (0xE0 + v / 4096) as u8
    } else {
        (0xF0 + v / 262144) as u8
    }
}

fn get_int(ps: &Vec<Vec<char>>, i: usize) -> (r: Option<i32>)
    ensures
        r == param_int(views(ps@), i as int),
{
    if i < ps.len() {
        let t = trim_chars(&ps[i]);
        parse_i32_chars(&t)
    } else {
        None
    }
}

fn get_pos(ps: &Vec<Vec<char>>, i: usize) -> (r: Option<i32>)
    ensures
        r == param_pos(views(ps@), i as int),
{
    if i < ps.len() {
        positive_int_of_chars(&ps[i])
    } else {
        None
    }
}

fn get_ceil(ps: &Vec<Vec<char>>, i: usize) -> (r: Option<i32>)
    ensures
        r == param_ceil(views(ps@), i as int),
{
    if i < ps.len() {
        ceil_int_of_chars(&ps[i])
    } else {
        None
    }
}

fn get_first(ps: &Vec<Vec<char>>, i: usize) -> (r: Option<char>)
    ensures
        r == param_first(views(ps@), i as int),
{
    if i < ps.len() && ps[i].len() > 0 {
        Some(ps[i][0])
    } else {
        None
    }
}

fn get_alignment(ps: &Vec<Vec<char>>, i: usize) -> (r: Option<FieldAlignment>)
    ensures
        r == (if 0 <= i < ps@.len() {
            alignment_of(views(ps@)[i as int])
        } else {
            None
        }),
{
    if i < ps.len() {
        alignment_of_chars(&ps[i])
    } else {
        None
    }
}

fn param_is_char(ps: &Vec<Vec<char>>, i: usize, ch: char) -> (b: bool)
    ensures
        b == param_is(views(ps@), i as int, seq![ch]),
{
    if i < ps.len() && ps[i].len() == 1 && ps[i][0] == ch {
        assert(ps@[i as int]@ =~= seq![ch]);
        true
    } else {
        false
    }
}

/// The parameters of `c` after its first `k` characters.
fn split_params(c: &[char], k: usize) -> (r: Vec<Vec<char>>)
    requires
        k <= c@.len(),
    ensures
        views(r@) == params(c@, k as int),
        r@.len() >= 1,
{
    let rest = suffix_from(c, k);
    split_chars(&rest, ',')
}

/// An orientation parameter, or `d`.
pub open spec fn orient_param(ps: Seq<Seq<char>>, i: int, d: FieldOrientation) -> FieldOrientation {
    match param_first(ps, i) {
        Some(ch) => orientation_of(ch),
        None => d,
    }
}

/// A yes/no parameter, or `d`.
pub open spec fn flag_param(ps: Seq<Seq<char>>, i: int, d: bool) -> bool {
    match param_first(ps, i) {
        Some(ch) => ch == 'Y',
        None => d,
    }
}

fn get_orient(ps: &Vec<Vec<char>>, i: usize, d: FieldOrientation) -> (r: FieldOrientation)
    ensures
        r == orient_param(views(ps@), i as int, d),
{
    match get_first(ps, i) {
        Some(ch) => orientation_of_char(ch),
        None => d,
    }
}

fn get_flag(ps: &Vec<Vec<char>>, i: usize, d: bool) -> (r: bool)
    ensures
        r == flag_param(views(ps@), i as int, d),
{
    match get_first(ps, i) {
        Some(ch) => ch == 'Y',
        None => d,
    }
}

/// The larger of two integers.
pub open spec fn max_i32(a: i32, b: i32) -> i32 {
    if a >= b {
        a
    } else {
        b
    }
}

/// The smaller of two integers.
pub open spec fn min_i32(a: i32, b: i32) -> i32 {
    if a <= b {
        a
    } else {
        b
    }
}

/// `^LH`: the label home moves to the given coordinates.
pub open spec fn after_label_home(p: VirtualPrinter, ps: Seq<Seq<char>>) -> VirtualPrinter {
    VirtualPrinter {
        label_home_position: LabelPosition {
            x: or_keep(param_int(ps, 0), p.label_home_position.x),
            y: or_keep(param_int(ps, 1), p.label_home_position.y),
            ..p.label_home_position
        },
        ..p
    }
}

/// `^FW`: default orientation (also of the fonts) and default alignment.
pub open spec fn after_field_orientation(p: VirtualPrinter, ps: Seq<Seq<char>>) -> VirtualPrinter {
    let q = match param_first(ps, 0) {
        Some(ch) => {
            let o = orientation_of(ch);
            VirtualPrinter {
                default_orientation: o,
                default_font: FontInfo { orientation: o, ..p.default_font },
                next_font: match p.next_font {
                    Some(f) => Some(FontInfo { orientation: o, ..f }),
                    None => None,
                },
                ..p
            }
        },
        None => p,
    };
    VirtualPrinter {
        default_alignment: if 1 < ps.len() && alignment_of(ps[1]) is Some {
            alignment_of(ps[1])->0
        } else {
            q.default_alignment
        },
        ..q
    }
}

/// `^FO` and `^FT`: the next field's position (moved by the label home) and
/// justification. `^FT` positions give the baseline and, without coordinates,
/// follow the previous field.
pub open spec fn after_field_position(p: VirtualPrinter, ps: Seq<Seq<char>>, typeset: bool) -> VirtualPrinter {
    let pos = LabelPosition {
        x: or_keep(param_pos(ps, 0), 0),
        y: or_keep(param_pos(ps, 1), 0),
        calculate_from_bottom: typeset,
        automatic_position: typeset && param_pos(ps, 0) is None && param_pos(ps, 1) is None,
    };
    VirtualPrinter {
        next_element_position: LabelPosition {
            x: pos.x.wrapping_add(p.label_home_position.x),
            y: pos.y.wrapping_add(p.label_home_position.y),
            ..pos
        },
        next_element_alignment: if 2 < ps.len() && alignment_of(ps[2]) is Some {
            alignment_of(ps[2])
        } else {
            p.next_element_alignment
        },
        ..p
    }
}

/// The `^FB` field block.
pub open spec fn field_block_of(ps: Seq<Seq<char>>) -> FieldBlock {
    FieldBlock {
        max_width: or_keep(param_int(ps, 0), 0),
        max_lines: or_keep(param_int(ps, 1), 1),
        line_spacing: or_keep(param_int(ps, 2), 0),
        alignment: match param_first(ps, 3) {
            Some(ch) => text_alignment_of(ch),
            None => TextAlignment::Left,
        },
        hanging_indent: or_keep(param_int(ps, 4), 0),
    }
}

/// The `^BC` Code 128 settings.
pub open spec fn code128_of(p: VirtualPrinter, ps: Seq<Seq<char>>) -> Barcode128 {
    Barcode128 {
        orientation: orient_param(ps, 0, p.default_orientation),
        height: or_keep(param_ceil(ps, 1), p.default_barcode_dimensions.height),
        line: flag_param(ps, 2, true),
        line_above: flag_param(ps, 3, false),
        check_digit: flag_param(ps, 4, false),
        mode: match param_first(ps, 5) {
            Some(ch) => barcode_mode_of(ch),
            None => BarcodeMode::No,
        },
    }
}

/// The `^BE` EAN-13 settings.
pub open spec fn ean13_of(p: VirtualPrinter, ps: Seq<Seq<char>>) -> BarcodeEan13 {
    BarcodeEan13 {
        orientation: orient_param(ps, 0, p.default_orientation),
        height: or_keep(param_ceil(ps, 1), p.default_barcode_dimensions.height),
        line: flag_param(ps, 2, true),
        line_above: flag_param(ps, 3, false),
    }
}

/// The `^B2` Interleaved 2 of 5 settings.
pub open spec fn code2of5_of(p: VirtualPrinter, ps: Seq<Seq<char>>) -> Barcode2of5 {
    Barcode2of5 {
        orientation: orient_param(ps, 0, p.default_orientation),
        height: or_keep(param_ceil(ps, 1), p.default_barcode_dimensions.height),
        line: flag_param(ps, 2, true),
        line_above: flag_param(ps, 3, false),
        check_digit: flag_param(ps, 4, false),
    }
}

/// The `^B3` Code 39 settings (check digit before height).
pub open spec fn code39_of(p: VirtualPrinter, ps: Seq<Seq<char>>) -> Barcode39 {
    Barcode39 {
        orientation: orient_param(ps, 0, p.default_orientation),
        check_digit: flag_param(ps, 1, false),
        height: or_keep(param_ceil(ps, 2), p.default_barcode_dimensions.height),
        line: flag_param(ps, 3, true),
        line_above: flag_param(ps, 4, false),
    }
}

/// The `^B7` PDF417 settings.
pub open spec fn pdf417_of(p: VirtualPrinter, ps: Seq<Seq<char>>) -> BarcodePdf417 {
    BarcodePdf417 {
        orientation: orient_param(ps, 0, p.default_orientation),
        row_height: or_keep(param_int(ps, 1), 0),
        security: or_keep(param_int(ps, 2), 0),
        columns: or_keep(param_int(ps, 3), 0),
        rows: or_keep(param_int(ps, 4), 0),
        truncate: flag_param(ps, 5, false),
        module_width: p.default_barcode_dimensions.module_width,
        by_height: p.default_barcode_dimensions.height,
    }
}

/// The `^BO` Aztec settings.
pub open spec fn aztec_of(p: VirtualPrinter, ps: Seq<Seq<char>>) -> BarcodeAztec {
    BarcodeAztec {
        orientation: orient_param(ps, 0, p.default_orientation),
        magnification: or_keep(param_int(ps, 1), 0),
        size: or_keep(param_int(ps, 3), 0),
    }
}

/// The `^BX` Data Matrix settings.
pub open spec fn datamatrix_of(p: VirtualPrinter, ps: Seq<Seq<char>>) -> BarcodeDatamatrix {
    BarcodeDatamatrix {
        orientation: orient_param(ps, 0, p.default_orientation),
        height: or_keep(param_ceil(ps, 1), p.default_barcode_dimensions.height),
        quality: or_keep(param_int(ps, 2), 0),
        columns: or_keep(param_int(ps, 3), 0),
        rows: or_keep(param_int(ps, 4), 0),
        format: match param_int(ps, 5) {
            Some(v) => if v > 0 {
                v
            } else {
                6
            },
            None => 6,
        },
        escape: match param_first(ps, 6) {
            Some(ch) => first_byte(ch),
            None => 126,
        },
        ratio: match param_int(ps, 7) {
            Some(v) => if v == 2 {
                Some(DatamatrixRatio::Rectangular)
            } else {
                Some(DatamatrixRatio::Square)
            },
            None => Some(DatamatrixRatio::Square),
        },
    }
}

/// The `^BQ` QR settings: magnification clamped to 1..=100.
pub open spec fn qr_of(ps: Seq<Seq<char>>) -> BarcodeQr {
    BarcodeQr {
        magnification: match param_int(ps, 2) {
            Some(v) => if v < 1 {
                1
            } else if v > 100 {
                100
            } else {
                v
            },
            None => 1,
        },
    }
}

/// `^BY`: module width, wide-to-narrow ratio (thousandths) and height.
pub open spec fn after_barcode_defaults(p: VirtualPrinter, ps: Seq<Seq<char>>) -> VirtualPrinter {
    let d = p.default_barcode_dimensions;
    VirtualPrinter {
        default_barcode_dimensions: BarcodeDimensions {
            module_width: or_keep(param_int(ps, 0), d.module_width),
            width_ratio: if 1 < ps.len() {
                or_keep(ratio_of(ps[1]), d.width_ratio)
            } else {
                d.width_ratio
            },
            height: or_keep(param_int(ps, 2), d.height),
        },
        ..p
    }
}

/// The `^GS` symbol: its size defaults to the last field's font (or the
/// default font when that had no height).
pub open spec fn graphic_symbol_of(p: VirtualPrinter, ps: Seq<Seq<char>>) -> GraphicSymbol {
    let fallback = if p.last_field_font.height > 0 {
        p.last_field_font
    } else {
        p.default_font
    };
    GraphicSymbol {
        width: or_keep(param_int(ps, 2), fallback.width),
        height: or_keep(param_int(ps, 1), fallback.height),
        orientation: orient_param(ps, 0, p.default_orientation),
    }
}

/// A printer whose next field has the type `cfg`.
pub open spec fn with_field_config(p: VirtualPrinter, cfg: FieldConfig) -> VirtualPrinter {
    VirtualPrinter { next_element_field_element: Some(cfg), ..p }
}

/// The parser of a ZPL stream; it keeps the printer state between calls.
pub struct ZplParser {
    printer: VirtualPrinter,
}

impl ZplParser {
    /// The printer state the parser holds.
    pub closed spec fn state(&self) -> VirtualPrinter {
        self.printer
    }

    /// A parser with a printer at power-on.
    pub fn new() -> (z: ZplParser)
        ensures
            z.state().at_power_on(),
    {
        ZplParser { printer: VirtualPrinter::new() }
    }

    fn parse_label_home(&mut self, command: &[char])
        requires
            command@.len() >= 3,
        ensures
            final(self).printer == after_label_home(old(self).printer, params(command@, 3)),
    {
        let ps = split_params(command, 3);
        if let Some(v) = get_int(&ps, 0) {
            self.printer.label_home_position.x = v;
        }
        if let Some(v) = get_int(&ps, 1) {
            self.printer.label_home_position.y = v;
        }
    }

    fn parse_field_orientation(&mut self, command: &[char])
        requires
            command@.len() >= 3,
        ensures
            final(self).printer == after_field_orientation(old(self).printer, params(command@, 3)),
    {
        let ps = split_params(command, 3);
        if let Some(ch) = get_first(&ps, 0) {
            self.printer.set_default_orientation(orientation_of_char(ch));
        }
        if let Some(val) = get_alignment(&ps, 1) {
            self.printer.default_alignment = val;
        }
    }

    fn parse_field_position(&mut self, command: &[char], typeset: bool)
        requires
            command@.len() >= 3,
        ensures
            final(self).printer == after_field_position(
                old(self).printer,
                params(command@, 3),
                typeset,
            ),
    {
        let ps = split_params(command, 3);
        let mut pos = LabelPosition {
            x: 0,
            y: 0,
            calculate_from_bottom: typeset,
            automatic_position: typeset,
        };
        if let Some(v) = get_pos(&ps, 0) {
            pos.x = v;
            pos.automatic_position = false;
        }
        if let Some(v) = get_pos(&ps, 1) {
            pos.y = v;
            pos.automatic_position = false;
        }
        if let Some(val) = get_alignment(&ps, 2) {
            self.printer.next_element_alignment = Some(val);
        }
        self.printer.next_element_position = pos.add(&self.printer.label_home_position);
    }

    fn parse_field_block(&mut self, command: &[char])
        requires
            command@.len() >= 3,
        ensures
            final(self).printer == with_field_config(
                old(self).printer,
                FieldConfig::FieldBlock(field_block_of(params(command@, 3))),
            ),
    {
        let ps = split_params(command, 3);
        let mut block = FieldBlock {
            max_width: 0,
            max_lines: 1,
            line_spacing: 0,
            alignment: TextAlignment::Left,
            hanging_indent: 0,
        };
        if let Some(v) = get_int(&ps, 0) {
            block.max_width = v;
        }
        if let Some(v) = get_int(&ps, 1) {
            block.max_lines = v;
        }
        if let Some(v) = get_int(&ps, 2) {
            block.line_spacing = v;
        }
        if let Some(ch) = get_first(&ps, 3) {
            block.alignment = text_alignment_of_char(ch);
        }
        if let Some(v) = get_int(&ps, 4) {
            block.hanging_indent = v;
        }
        self.printer.next_element_field_element = Some(FieldConfig::FieldBlock(block));
    }

    fn parse_barcode_128(&mut self, command: &[char])
        requires
            command@.len() >= 3,
        ensures
            final(self).printer == with_field_config(
                old(self).printer,
                FieldConfig::Barcode128(code128_of(old(self).printer, params(command@, 3))),
            ),
    {
        let ps = split_params(command, 3);
        let bc = Barcode128 {
            orientation: get_orient(&ps, 0, self.printer.default_orientation),
            height: match get_ceil(&ps, 1) {
                Some(v) => v,
                None => self.printer.default_barcode_dimensions.height,
            },
            line: get_flag(&ps, 2, true),
            line_above: get_flag(&ps, 3, false),
            check_digit: get_flag(&ps, 4, false),
            mode: match get_first(&ps, 5) {
                Some(ch) => barcode_mode_of_char(ch),
                None => BarcodeMode::No,
            },
        };
        self.printer.next_element_field_element = Some(FieldConfig::Barcode128(bc));
    }

    fn parse_barcode_ean13(&mut self, command: &[char])
        requires
            command@.len() >= 3,
        ensures
            final(self).printer == with_field_config(
                old(self).printer,
                FieldConfig::BarcodeEan13(ean13_of(old(self).printer, params(command@, 3))),
            ),
    {
        let ps = split_params(command, 3);
        let bc = BarcodeEan13 {
            orientation: get_orient(&ps, 0, self.printer.default_orientation),
            height: match get_ceil(&ps, 1) {
                Some(v) => v,
                None => self.printer.default_barcode_dimensions.height,
            },
            line: get_flag(&ps, 2, true),
            line_above: get_flag(&ps, 3, false),
        };
        self.printer.next_element_field_element = Some(FieldConfig::BarcodeEan13(bc));
    }

    fn parse_barcode_2of5(&mut self, command: &[char])
        requires
            command@.len() >= 3,
        ensures
            final(self).printer == with_field_config(
                old(self).printer,
                FieldConfig::Barcode2of5(code2of5_of(old(self).printer, params(command@, 3))),
            ),
    {
        let ps = split_params(command, 3);
        let bc = Barcode2of5 {
            orientation: get_orient(&ps, 0, self.printer.default_orientation),
            height: match get_ceil(&ps, 1) {
                Some(v) => v,
                None => self.printer.default_barcode_dimensions.height,
            },
            line: get_flag(&ps, 2, true),
            line_above: get_flag(&ps, 3, false),
            check_digit: get_flag(&ps, 4, false),
        };
        self.printer.next_element_field_element = Some(FieldConfig::Barcode2of5(bc));
    }

    fn parse_barcode_39(&mut self, command: &[char])
        requires
            command@.len() >= 3,
        ensures
            final(self).printer == with_field_config(
                old(self).printer,
                FieldConfig::Barcode39(code39_of(old(self).printer, params(command@, 3))),
            ),
    {
        let ps = split_params(command, 3);
        let bc = Barcode39 {
            orientation: get_orient(&ps, 0, self.printer.default_orientation),
            check_digit: get_flag(&ps, 1, false),
            height: match get_ceil(&ps, 2) {
                Some(v) => v,
                None => self.printer.default_barcode_dimensions.height,
            },
            line: get_flag(&ps, 3, true),
            line_above: get_flag(&ps, 4, false),
        };
        self.printer.next_element_field_element = Some(FieldConfig::Barcode39(bc));
    }

    fn parse_barcode_pdf417(&mut self, command: &[char])
        requires
            command@.len() >= 3,
        ensures
            final(self).printer == with_field_config(
                old(self).printer,
                FieldConfig::BarcodePdf417(pdf417_of(old(self).printer, params(command@, 3))),
            ),
    {
        let ps = split_params(command, 3);
        let bc = BarcodePdf417 {
            orientation: get_orient(&ps, 0, self.printer.default_orientation),
            row_height: match get_int(&ps, 1) {
                Some(v) => v,
                None => 0,
            },
            security: match get_int(&ps, 2) {
                Some(v) => v,
                None => 0,
            },
            columns: match get_int(&ps, 3) {
                Some(v) => v,
                None => 0,
            },
            rows: match get_int(&ps, 4) {
                Some(v) => v,
                None => 0,
            },
            truncate: get_flag(&ps, 5, false),
            module_width: self.printer.default_barcode_dimensions.module_width,
            by_height: self.printer.default_barcode_dimensions.height,
        };
        self.printer.next_element_field_element = Some(FieldConfig::BarcodePdf417(bc));
    }

    fn parse_barcode_aztec(&mut self, command: &[char])
        requires
            command@.len() >= 3,
        ensures
            final(self).printer == with_field_config(
                old(self).printer,
                FieldConfig::BarcodeAztec(aztec_of(old(self).printer, params(command@, 3))),
            ),
    {
        let ps = split_params(command, 3);
        let bc = BarcodeAztec {
            orientation: get_orient(&ps, 0, self.printer.default_orientation),
            magnification: match get_int(&ps, 1) {
                Some(v) => v,
                None => 0,
            },
            size: match get_int(&ps, 3) {
                Some(v) => v,
                None => 0,
            },
        };
        self.printer.next_element_field_element = Some(FieldConfig::BarcodeAztec(bc));
    }

    fn parse_barcode_datamatrix(&mut self, command: &[char])
        requires
            command@.len() >= 3,
        ensures
            final(self).printer == with_field_config(
                old(self).printer,
                FieldConfig::BarcodeDatamatrix(datamatrix_of(old(self).printer, params(command@, 3))),
            ),
    {
        let ps = split_params(command, 3);
        let mut bc = BarcodeDatamatrix {
            orientation: get_orient(&ps, 0, self.printer.default_orientation),
            height: match get_ceil(&ps, 1) {
                Some(v) => v,
                None => self.printer.default_barcode_dimensions.height,
            },
            quality: match get_int(&ps, 2) {
                Some(v) => v,
                None => 0,
            },
            columns: match get_int(&ps, 3) {
                Some(v) => v,
                None => 0,
            },
            rows: match get_int(&ps, 4) {
                Some(v) => v,
                None => 0,
            },
            format: 6,
            escape: 126,
            ratio: Some(DatamatrixRatio::Square),
        };
        if let Some(v) = get_int(&ps, 5) {
            if v > 0 {
                bc.format = v;
            }
        }
        if let Some(ch) = get_first(&ps, 6) {
            bc.escape = first_byte_of(ch);
        }
        if let Some(v) = get_int(&ps, 7) {
            if v == 1 {
                bc.ratio = Some(DatamatrixRatio::Square);
            } else if v == 2 {
                bc.ratio = Some(DatamatrixRatio::Rectangular);
            }
        }
        self.printer.next_element_field_element = Some(FieldConfig::BarcodeDatamatrix(bc));
    }

    fn parse_barcode_qr(&mut self, command: &[char])
        requires
            command@.len() >= 3,
        ensures
            final(self).printer == with_field_config(
                old(self).printer,
                FieldConfig::BarcodeQr(qr_of(params(command@, 3))),
            ),
    {
        let ps = split_params(command, 3);
        let mut bc = BarcodeQr { magnification: 1 };
        if let Some(v) = get_int(&ps, 2) {
            bc.magnification = if v < 1 {
                1
            } else if v > 100 {
                100
            } else {
                v
            };
        }
        self.printer.next_element_field_element = Some(FieldConfig::BarcodeQr(bc));
    }

    fn parse_maxicode(&mut self, command: &[char])
        requires
            command@.len() >= 3,
        ensures
            final(self).printer == with_field_config(
                old(self).printer,
                FieldConfig::Maxicode(Maxicode { mode: or_keep(param_int(params(command@, 3), 0), 0) }),
            ),
    {
        let ps = split_params(command, 3);
        let mut mc = Maxicode { mode: 0 };
        if let Some(v) = get_int(&ps, 0) {
            mc.mode = v;
        }
        self.printer.next_element_field_element = Some(FieldConfig::Maxicode(mc));
    }

    fn parse_barcode_field_defaults(&mut self, command: &[char])
        requires
            command@.len() >= 3,
        ensures
            final(self).printer == after_barcode_defaults(old(self).printer, params(command@, 3)),
    {
        let ps = split_params(command, 3);
        if let Some(v) = get_int(&ps, 0) {
            self.printer.default_barcode_dimensions.module_width = v;
        }
        if ps.len() > 1 {
            if let Some(v) = ratio_of_chars(&ps[1]) {
                self.printer.default_barcode_dimensions.width_ratio = v;
            }
        }
        if let Some(v) = get_int(&ps, 2) {
            self.printer.default_barcode_dimensions.height = v;
        }
    }

    fn parse_graphic_symbol(&mut self, command: &[char])
        requires
            command@.len() >= 3,
        ensures
            final(self).printer == with_field_config(
                old(self).printer,
                FieldConfig::GraphicSymbol(graphic_symbol_of(old(self).printer, params(command@, 3))),
            ),
    {
        let ps = split_params(command, 3);
        let (fw, fh) = if self.printer.last_field_font.height > 0 {
            (self.printer.last_field_font.width, self.printer.last_field_font.height)
        } else {
            (self.printer.default_font.width, self.printer.default_font.height)
        };
        let mut gs = GraphicSymbol {
            width: fw,
            height: fh,
            orientation: get_orient(&ps, 0, self.printer.default_orientation),
        };
        if let Some(v) = get_int(&ps, 1) {
            gs.height = v;
        }
        if let Some(v) = get_int(&ps, 2) {
            gs.width = v;
        }
        self.printer.next_element_field_element = Some(FieldConfig::GraphicSymbol(gs));
    }
}

/// The texts of `ps` joined with commas.
pub open spec fn join_params(ps: Seq<Seq<char>>) -> Seq<char>
    decreases ps.len(),
{
    if ps.len() == 0 {
        seq![]
    } else if ps.len() == 1 {
        ps[0]
    } else {
        join_params(ps.drop_last()) + seq![','] + ps.last()
    }
}

/// `str::splitn(4, ',')`: at most four pieces, the last holding the rest.
pub open spec fn split4(s: Seq<char>) -> Seq<Seq<char>> {
    let ps = split_on(s, ',');
    if ps.len() <= 4 {
        ps
    } else {
        ps.take(3).push(join_params(ps.skip(3)))
    }
}

/// The characters after the first `k` of `c`.
pub open spec fn rest_of(c: Seq<char>, k: int) -> Seq<char> {
    c.subrange(k, c.len() as int)
}

fn join_chars(ps: &Vec<Vec<char>>, from: usize) -> (r: Vec<char>)
    requires
        from <= ps@.len(),
    ensures
        r@ == join_params(views(ps@).skip(from as int)),
{
    let mut r: Vec<char> = Vec::new();
    let mut k: usize = from;
    while k < ps.len()
        invariant
            from <= k <= ps@.len(),
            r@ == join_params(views(ps@).subrange(from as int, k as int)),
        decreases ps@.len() - k,
    {
        let ghost r0 = r@;
        if k > from {
            r.push(',');
        }
        let mut j: usize = 0;
        let part = &ps[k];
        while j < part.len()
            invariant
                j <= part@.len(),
                part@ == views(ps@)[k as int],
                r@ == (if k > from {
                    r0 + seq![',']
                } else {
                    r0
                }) + part@.take(j as int),
            decreases part@.len() - j,
        {
            r.push(part[j]);
            proof {
                assert(part@.take(j + 1) =~= part@.take(j as int).push(part@[j as int]));
                assert(r@ =~= (if k > from {
                    r0 + seq![',']
                } else {
                    r0
                }) + part@.take(j + 1));
            }
            j += 1;
        }
        proof {
            let sub = views(ps@).subrange(from as int, k + 1);
            assert(sub.drop_last() =~= views(ps@).subrange(from as int, k as int));
            assert(part@.take(part@.len() as int) =~= part@);
            if k == from {
                assert(sub.len() == 1);
                assert(r@ =~= join_params(sub));
            } else {
                assert(r@ =~= join_params(sub));
            }
        }
        k += 1;
    }
    proof {
        assert(views(ps@).subrange(from as int, ps@.len() as int) =~= views(ps@).skip(
            from as int,
        ));
    }
    r
}

/// `prefix` followed by `e`.
fn prefixed(prefix: &str, e: String) -> (r: String)
    ensures
        r@ == prefix@ + e@,
{
    let mut m = prefix.to_owned();
    m.append(e.as_str());
    m
}

/// The `^GB` box.
pub open spec fn graphic_box_of(p: VirtualPrinter, ps: Seq<Seq<char>>) -> GraphicBox {
    let border = match param_pos(ps, 2) {
        Some(v) => if v > 0 {
            v
        } else {
            1
        },
        None => 1,
    };
    GraphicBox {
        position: p.next_element_position,
        width: match param_pos(ps, 0) {
            Some(v) => if v > 0 {
                max_i32(v, border)
            } else {
                1
            },
            None => 1,
        },
        height: match param_pos(ps, 1) {
            Some(v) => if v > 0 {
                max_i32(v, border)
            } else {
                1
            },
            None => 1,
        },
        border_thickness: border,
        corner_rounding: match param_int(ps, 4) {
            Some(v) => if 0 < v < 9 {
                v
            } else {
                0
            },
            None => 0,
        },
        line_color: if param_is(ps, 3, seq!['W']) {
            LineColor::White
        } else {
            LineColor::Black
        },
        reverse_print: ReversePrint { value: p.next_element_field_reverse || p.label_reverse },
    }
}

/// The `^GC` circle.
pub open spec fn graphic_circle_of(p: VirtualPrinter, ps: Seq<Seq<char>>) -> GraphicCircle {
    GraphicCircle {
        position: p.next_element_position,
        circle_diameter: or_keep(param_int(ps, 0), 3),
        border_thickness: or_keep(param_int(ps, 1), 1),
        line_color: if param_is(ps, 2, seq!['W']) {
            LineColor::White
        } else {
            LineColor::Black
        },
        reverse_print: ReversePrint { value: p.next_element_field_reverse || p.label_reverse },
    }
}

/// The `^GD` diagonal line: width and height default to the larger of the
/// thickness and 3.
pub open spec fn diagonal_line_of(p: VirtualPrinter, ps: Seq<Seq<char>>) -> GraphicDiagonalLine {
    let t = match param_int(ps, 2) {
        Some(v) => max_i32(v, 1),
        None => 1,
    };
    let d = max_i32(t, 3);
    GraphicDiagonalLine {
        position: p.next_element_position,
        width: match param_int(ps, 0) {
            Some(v) => max_i32(v, 3),
            None => d,
        },
        height: match param_int(ps, 1) {
            Some(v) => max_i32(v, 3),
            None => d,
        },
        border_thickness: t,
        line_color: if param_is(ps, 3, seq!['W']) {
            LineColor::White
        } else {
            LineColor::Black
        },
        top_to_bottom: param_is(ps, 4, seq!['L']) || param_is(ps, 4, seq!['\\']),
        reverse_print: ReversePrint { value: p.next_element_field_reverse || p.label_reverse },
    }
}

/// The format letter of `^GF`.
pub open spec fn gf_format_of(ps: Seq<Seq<char>>) -> GraphicFieldFormat {
    match param_first(ps, 0) {
        Some(ch) => if ch == 'B' {
            GraphicFieldFormat::Raw
        } else if ch == 'C' {
            GraphicFieldFormat::AR
        } else {
            GraphicFieldFormat::Hex
        },
        None => GraphicFieldFormat::Hex,
    }
}

/// The bytes of a row of `^GF` data, capped at 9999999.
pub open spec fn gf_row_bytes(ps: Seq<Seq<char>>, i: int, d: i32) -> i32 {
    match param_int(ps, i) {
        Some(v) => min_i32(v, 9999999),
        None => d,
    }
}

/// The `^GF` data: the parameters after the fourth, joined and trimmed.
pub open spec fn gf_data_text(ps: Seq<Seq<char>>) -> Seq<char> {
    trim(join_params(ps.skip(4)))
}

/// What `^GF` gives: the graphic field (settings as in `g`, bytes in `data`), or
/// the error text.
pub open spec fn graphic_field_rel(p: VirtualPrinter, ps: Seq<Seq<char>>, r: Result<
    Option<LabelElement>,
    String,
>) -> bool {
    let fmt = gf_format_of(ps);
    let row = gf_row_bytes(ps, 3, 0);
    let decoded = graphic_field_result(gf_data_text(ps), row);
    if ps.len() > 4 && fmt == GraphicFieldFormat::Hex && decoded is Err {
        r matches Err(e) && e@ == "failed to decode hex string: "@ + decoded->Err_0
    } else {
        r matches Ok(Some(LabelElement::GraphicField(g))) && g.position == p.next_element_position
            && g.magnification_x == 1 && g.magnification_y == 1 && g.reverse_print.value == (
        p.next_element_field_reverse || p.label_reverse) && g.format == fmt && g.data_bytes
            == or_keep(param_int(ps, 1), 0) && g.total_bytes == or_keep(param_int(ps, 2), 0)
            && g.row_bytes == row && g.data@ == (if ps.len() <= 4 || fmt
            == GraphicFieldFormat::AR {
            Seq::<u8>::empty()
        } else if fmt == GraphicFieldFormat::Raw {
            vstd::utf8::encode_utf8(gf_data_text(ps))
        } else {
            decoded->Ok_0
        })
    }
}

/// A recalled graphic: the stored bytes and sizes, placed at `pos`.
pub open spec fn recalled_graphic(
    g: GraphicField,
    s: StoredGraphics,
    pos: LabelPosition,
    mx: i32,
    my: i32,
    rev: bool,
) -> bool {
    &&& g.position == pos
    &&& g.magnification_x == mx
    &&& g.magnification_y == my
    &&& g.reverse_print.value == rev
    &&& g.format == GraphicFieldFormat::Hex
    &&& g.data@ == s.data@
    &&& g.data_bytes == s.total_bytes
    &&& g.total_bytes == s.total_bytes
    &&& g.row_bytes == s.row_bytes
}

/// A path parameter, or `d` when it is empty or missing.
pub open spec fn path_param(ps: Seq<Seq<char>>, d: Seq<char>) -> Seq<char> {
    if ps.len() > 0 && ps[0].len() > 0 {
        ps[0]
    } else {
        d
    }
}

/// A magnification parameter of `^XG`: 0 to 10, else 1.
pub open spec fn mag_param(ps: Seq<Seq<char>>, i: int) -> i32 {
    match param_int(ps, i) {
        Some(v) => if 0 <= v <= 10 {
            v
        } else {
            1
        },
        None => 1,
    }
}

fn string_from(v: &Vec<char>) -> (s: String)
    ensures
        s@ == v@,
{
    string_of(v.as_slice())
}

fn path_or(ps: &Vec<Vec<char>>, d: &str) -> (s: String)
    ensures
        s@ == path_param(views(ps@), d@),
{
    if ps.len() > 0 && ps[0].len() > 0 {
        string_from(&ps[0])
    } else {
        d.to_owned()
    }
}

impl ZplParser {
    fn parse_graphic_box(&self, command: &[char]) -> (r: Result<Option<LabelElement>, String>)
        requires
            command@.len() >= 3,
        ensures
            r == Ok::<Option<LabelElement>, String>(
                Some(LabelElement::GraphicBox(graphic_box_of(self.printer, params(command@, 3)))),
            ),
    {
        let ps = split_params(command, 3);
        let mut border: i32 = 1;
        if let Some(v) = get_pos(&ps, 2) {
            if v > 0 {
                border = v;
            }
        }
        let mut width: i32 = 1;
        if let Some(v) = get_pos(&ps, 0) {
            if v > 0 {
                width = if v >= border {
                    v
                } else {
                    border
                };
            }
        }
        let mut height: i32 = 1;
        if let Some(v) = get_pos(&ps, 1) {
            if v > 0 {
                height = if v >= border {
                    v
                } else {
                    border
                };
            }
        }
        let mut rounding: i32 = 0;
        if let Some(v) = get_int(&ps, 4) {
            if v > 0 && v < 9 {
                rounding = v;
            }
        }
        let white = param_is_char(&ps, 3, 'W');
        let gb = GraphicBox {
            position: self.printer.next_element_position,
            width,
            height,
            border_thickness: border,
            corner_rounding: rounding,
            line_color: if white {
                LineColor::White
            } else {
                LineColor::Black
            },
            reverse_print: ReversePrint {
                value: self.printer.next_element_field_reverse || self.printer.label_reverse,
            },
        };
        Ok(Some(LabelElement::GraphicBox(gb)))
    }

    fn parse_graphic_circle(&self, command: &[char]) -> (r: Result<Option<LabelElement>, String>)
        requires
            command@.len() >= 3,
        ensures
            r == Ok::<Option<LabelElement>, String>(
                Some(
                    LabelElement::GraphicCircle(
                        graphic_circle_of(self.printer, params(command@, 3)),
                    ),
                ),
            ),
    {
        let ps = split_params(command, 3);
        let white = param_is_char(&ps, 2, 'W');
        let gc = GraphicCircle {
            position: self.printer.next_element_position,
            circle_diameter: match get_int(&ps, 0) {
                Some(v) => v,
                None => 3,
            },
            border_thickness: match get_int(&ps, 1) {
                Some(v) => v,
                None => 1,
            },
            line_color: if white {
                LineColor::White
            } else {
                LineColor::Black
            },
            reverse_print: ReversePrint {
                value: self.printer.next_element_field_reverse || self.printer.label_reverse,
            },
        };
        Ok(Some(LabelElement::GraphicCircle(gc)))
    }

    fn parse_graphic_diagonal_line(&self, command: &[char]) -> (r: Result<
        Option<LabelElement>,
        String,
    >)
        requires
            command@.len() >= 3,
        ensures
            r == Ok::<Option<LabelElement>, String>(
                Some(
                    LabelElement::DiagonalLine(diagonal_line_of(self.printer, params(command@, 3))),
                ),
            ),
    {
        let ps = split_params(command, 3);
        let t: i32 = match get_int(&ps, 2) {
            Some(v) => if v >= 1 {
                v
            } else {
                1
            },
            None => 1,
        };
        let d: i32 = if t >= 3 {
            t
        } else {
            3
        };
        let white = param_is_char(&ps, 3, 'W');
        let left = param_is_char(&ps, 4, 'L');
        let back = param_is_char(&ps, 4, '\\');
        let gd = GraphicDiagonalLine {
            position: self.printer.next_element_position,
            width: match get_int(&ps, 0) {
                Some(v) => if v >= 3 {
                    v
                } else {
                    3
                },
                None => d,
            },
            height: match get_int(&ps, 1) {
                Some(v) => if v >= 3 {
                    v
                } else {
                    3
                },
                None => d,
            },
            border_thickness: t,
            line_color: if white {
                LineColor::White
            } else {
                LineColor::Black
            },
            top_to_bottom: left || back,
            reverse_print: ReversePrint {
                value: self.printer.next_element_field_reverse || self.printer.label_reverse,
            },
        };
        Ok(Some(LabelElement::DiagonalLine(gd)))
    }

    fn parse_graphic_field(&self, command: &[char]) -> (r: Result<Option<LabelElement>, String>)
        requires
            command@.len() >= 3,
        ensures
            graphic_field_rel(self.printer, params(command@, 3), r),
    {
        let ps = split_params(command, 3);
        let format = match get_first(&ps, 0) {
            Some(ch) => if ch == 'B' {
                GraphicFieldFormat::Raw
            } else if ch == 'C' {
                GraphicFieldFormat::AR
            } else {
                GraphicFieldFormat::Hex
            },
            None => GraphicFieldFormat::Hex,
        };
        let row_bytes: i32 = match get_int(&ps, 3) {
            Some(v) => if v <= 9999999 {
                v
            } else {
                9999999
            },
            None => 0,
        };
        let mut data: Vec<u8> = Vec::new();
        if ps.len() > 4 {
            let joined = join_chars(&ps, 4);
            let t = trim_chars(&joined);
            let text = string_from(&t);
            match format {
                GraphicFieldFormat::Hex => {
                    match decode_graphic_field_data(text.as_str(), row_bytes) {
                        Ok(v) => {
                            data = v;
                        },
                        Err(e) => {
                            let msg = prefixed("failed to decode hex string: ", e);
                            return Err(msg);
                        },
                    }
                },
                GraphicFieldFormat::Raw => {
                    data = crate::text::copy_bytes(text.as_str().as_bytes());
                },
                GraphicFieldFormat::AR => {},
            }
        }
        let gf = GraphicField {
            position: self.printer.next_element_position,
            magnification_x: 1,
            magnification_y: 1,
            reverse_print: self.printer.get_reverse_print(),
            format,
            data_bytes: match get_int(&ps, 1) {
                Some(v) => v,
                None => 0,
            },
            total_bytes: match get_int(&ps, 2) {
                Some(v) => v,
                None => 0,
            },
            row_bytes,
            data,
        };
        Ok(Some(LabelElement::GraphicField(gf)))
    }
}

/// ASCII upper case of the characters of `v`, as a string.
fn upper_string(v: &Vec<char>) -> (s: String)
    ensures
        s@ == crate::text::upper_seq(v@),
{
    let mut s = String::new();
    let mut i: usize = 0;
    while i < v.len()
        invariant
            i <= v@.len(),
            s@ == crate::text::upper_seq(v@.take(i as int)),
        decreases v@.len() - i,
    {
        push_char(&mut s, upper_char(v[i]));
        proof {
            assert(crate::text::upper_seq(v@.take(i + 1)) =~= crate::text::upper_seq(
                v@.take(i as int),
            ).push(ascii_upper(v@[i as int])));
        }
        i += 1;
    }
    proof {
        assert(v@.take(v@.len() as int) =~= v@);
    }
    s
}

/// `^CF`: the default font's name (upper case), height and width; a height
/// without a width lets the width follow the height.
pub open spec fn default_font_rel(p: VirtualPrinter, ps: Seq<Seq<char>>, q: VirtualPrinter) -> bool {
    let h = param_int(ps, 1);
    let w = param_int(ps, 2);
    &&& q == VirtualPrinter {
        default_font: FontInfo {
            name: q.default_font.name,
            height: or_keep(h, p.default_font.height),
            width: match w {
                Some(v) => v,
                None => if h is Some {
                    0
                } else {
                    p.default_font.width
                },
            },
            orientation: p.default_font.orientation,
        },
        ..p
    }
    &&& q.default_font.name@ == (if ps.len() > 0 && ps[0].len() > 0 {
        crate::text::upper_seq(ps[0])
    } else {
        p.default_font.name@
    })
}

/// An orientation letter that may follow the font name in `^A`.
pub open spec fn is_orientation_letter(ch: char) -> bool {
    ch == 'N' || ch == 'R' || ch == 'I' || ch == 'B' || ch == 'n' || ch == 'r' || ch == 'i'
        || ch == 'b'
}

/// The font name `^A` selects: a resident font by its letter (any case), a
/// digit for a font not resident as `0`, and otherwise the default font.
pub open spec fn font_name_of(p: VirtualPrinter, c0: char) -> Seq<char> {
    if is_standard_font_name(seq![ascii_upper(c0)]) {
        seq![ascii_upper(c0)]
    } else if is_digit(c0) {
        seq!['0']
    } else {
        p.default_font.name@
    }
}

/// `^A`: the font of the next field. After the name comes either an
/// orientation letter, or (with no separating comma) the height.
pub open spec fn change_font_rel(p: VirtualPrinter, ps: Seq<Seq<char>>, q: VirtualPrinter) -> bool {
    if ps.len() == 0 || ps[0].len() == 0 {
        q == VirtualPrinter { next_font: None, ..p }
    } else {
        let p0 = ps[0];
        let c0 = p0[0];
        let d = p.default_font.orientation;
        let (orient, extra, hidx, widx) = if (c0 as u32) >= 128 {
            (d, Some(Seq::<char>::empty()), -1int, 1int)
        } else if p0.len() > 1 {
            if is_orientation_letter(p0[1]) {
                (orientation_of(p0[1]), None::<Seq<char>>, 1int, 2int)
            } else {
                (d, Some(p0.subrange(1, p0.len() as int)), -1int, 1int)
            }
        } else {
            (d, None::<Seq<char>>, 1int, 2int)
        };
        let height = match extra {
            Some(hs) => or_keep(spec_parse_i32(trim(hs)), 0),
            None => or_keep(param_int(ps, hidx), 0),
        };
        &&& q == VirtualPrinter { next_font: q.next_font, ..p }
        &&& q.next_font matches Some(f) && f.name@ == font_name_of(p, c0) && f.orientation
            == orient && f.height == height && f.width == or_keep(param_int(ps, widx), 0)
    }
}

/// `^FD` and `^FV`: the next field's data, with hex escapes decoded after `^FH`.
pub open spec fn field_data_rel(p: VirtualPrinter, text: Seq<char>, q: VirtualPrinter) -> bool {
    &&& q == VirtualPrinter { next_element_field_data: q.next_element_field_data, ..p }
    &&& q.next_element_field_data@ == text
}

/// The path of `^DF` and `^XF`: the command text, or the default format path.
pub open spec fn format_path(c: Seq<char>) -> Seq<char> {
    if rest_of(c, 3).len() == 0 {
        STORED_FORMAT_DEFAULT_PATH@
    } else {
        rest_of(c, 3)
    }
}

/// The graphics `~DG` stores, or why it fails.
pub open spec fn download_graphics_rel(
    p: VirtualPrinter,
    c: Seq<char>,
    q: VirtualPrinter,
    r: Result<(), String>,
) -> bool {
    let ps = split4(rest_of(c, 3));
    let row = gf_row_bytes(ps, 2, 1);
    let decoded = graphic_field_result(ps[3], row);
    let key = with_extension(path_param(ps, STORED_GRAPHICS_DEFAULT_PATH@), seq!['G', 'R', 'F']);
    if ps.len() > 3 && decoded is Err {
        &&& q == p
        &&& r matches Err(e) && e@ == "failed to decode embedded graphics: "@ + decoded->Err_0
    } else {
        &&& r is Ok
        &&& q == VirtualPrinter { stored_graphics: q.stored_graphics, ..p }
        &&& crate::parsers::virtual_printer::stored_entry(
            p.stored_graphics@,
            q.stored_graphics@,
            key,
        )
        &&& ({
            let g = crate::parsers::virtual_printer::stored_value(
                p.stored_graphics@,
                q.stored_graphics@,
                key,
            );
            &&& g.total_bytes == or_keep(param_int(ps, 1), 0)
            &&& g.row_bytes == row
            &&& g.data@ == (if ps.len() > 3 {
                decoded->Ok_0
            } else {
                Seq::<u8>::empty()
            })
        })
    }
}

/// `^IL` and `^XG`: the stored graphics named by the first parameter, placed at
/// `pos`, or nothing when none are stored under that name.
pub open spec fn recall_graphics_rel(
    p: VirtualPrinter,
    ps: Seq<Seq<char>>,
    pos: LabelPosition,
    mx: i32,
    my: i32,
    rev: bool,
    r: Result<Option<LabelElement>, String>,
) -> bool {
    match find_first(p.stored_graphics@, path_param(ps, STORED_GRAPHICS_DEFAULT_PATH@)) {
        Some(i) => r matches Ok(Some(LabelElement::GraphicField(g))) && recalled_graphic(
            g,
            p.stored_graphics@[i].1,
            pos,
            mx,
            my,
            rev,
        ),
        None => r matches Ok(None),
    }
}

/// What the field separator `^FS` produces for printer state `p`: a field
/// without a number is drawn at once; a numbered field is data for a recalled
/// format, or a field of the format being stored.
pub open spec fn field_separator_rel(p: VirtualPrinter, r: Option<LabelElement>) -> bool {
    let f = crate::parsers::virtual_printer::field_info_of(p);
    if p.next_element_field_number < 0 {
        field_resolution(
            RecalledField {
                stored: StoredField { number: p.next_element_field_number, field: f },
                data: p.next_element_field_data,
            },
            r,
        )
    } else if p.next_download_format_name@.len() == 0 {
        r matches Some(LabelElement::RecalledFieldData(d)) && d.number
            == p.next_element_field_number && d.data == p.next_element_field_data
    } else {
        r == Some(
            LabelElement::StoredField(
                StoredField { number: p.next_element_field_number, field: f },
            ),
        )
    }
}

/// What `parse_command` hands back besides label elements: a recalled format.
#[derive(Debug)]
pub enum Parsed {
    Element(LabelElement),
    Format(RecalledFormat),
}

/// An element result as `parse_command` gives it.
pub open spec fn as_parsed(r: Result<Option<LabelElement>, String>) -> Result<
    Option<Parsed>,
    String,
> {
    match r {
        Ok(Some(e)) => Ok(Some(Parsed::Element(e))),
        Ok(None) => Ok(None),
        Err(e) => Err(e),
    }
}

fn lift(r: Result<Option<LabelElement>, String>) -> (out: Result<Option<Parsed>, String>)
    ensures
        out == as_parsed(r),
{
    match r {
        Ok(Some(e)) => Ok(Some(Parsed::Element(e))),
        Ok(None) => Ok(None),
        Err(e) => Err(e),
    }
}

/// `c` starts with the three-character command `a b d` (letters in any case).
pub open spec fn is_command(c: Seq<char>, a: char, b: char, d: char) -> bool {
    has_prefix_ci(c, seq![a, b, d])
}

fn command_is(c: &[char], a: char, b: char, d: char) -> (r: bool)
    ensures
        r == is_command(c@, a, b, d),
{
    let p: Vec<char> = vec![a, b, d];
    assert(p@ =~= seq![a, b, d]);
    starts_with_ci(c, p.as_slice())
}

impl ZplParser {
    fn parse_change_default_font(&mut self, command: &[char])
        requires
            command@.len() >= 3,
        ensures
            default_font_rel(old(self).printer, params(command@, 3), final(self).printer),
    {
        let ps = split_params(command, 3);
        if ps[0].len() > 0 {
            self.printer.default_font.name = upper_string(&ps[0]);
        }
        let h = get_int(&ps, 1);
        let w = get_int(&ps, 2);
        if let Some(v) = h {
            self.printer.default_font.height = v;
        }
        if h.is_some() && w.is_none() {
            self.printer.default_font.width = 0;
        }
        if let Some(v) = w {
            self.printer.default_font.width = v;
        }
    }

    fn parse_change_font(&mut self, command: &[char])
        requires
            command@.len() >= 2,
        ensures
            change_font_rel(old(self).printer, params(command@, 2), final(self).printer),
    {
        let ps = split_params(command, 2);
        if ps[0].len() == 0 {
            self.printer.next_font = None;
            return ;
        }
        let p0 = &ps[0];
        let c0 = p0[0];
        let u = upper_char(c0);
        proof {
            if u == '0' {
                assert(seq![u] =~= seq!['0']);
            }
            assert(seq![u] == seq!['0'] ==> seq![u][0] == '0');
        }
        let mut name = String::new();
        if u == '0' || ('A' <= u && u <= 'H') {
            push_char(&mut name, u);
        } else if is_digit_char_zpl(c0) {
            push_char(&mut name, '0');
        } else {
            name = self.printer.default_font.name.clone();
        }
        proof {
            assert(name@ =~= font_name_of(self.printer, c0));
        }
        let mut orientation = self.printer.default_font.orientation;
        let mut extra: Option<Vec<char>> = None;
        let mut hidx: usize = 1;
        let mut widx: usize = 2;
        let mut height_from_first = false;
        if (c0 as u32) >= 128 {
            extra = Some(Vec::new());
            height_from_first = true;
            widx = 1;
        } else if p0.len() > 1 {
            let second = p0[1];
            if second == 'N' || second == 'R' || second == 'I' || second == 'B' || second == 'n'
                || second == 'r' || second == 'i' || second == 'b' {
                orientation = orientation_of_char(second);
            } else {
                extra = Some(suffix_from(p0.as_slice(), 1));
                height_from_first = true;
                widx = 1;
            }
        }
        let mut height: i32 = 0;
        match &extra {
            Some(hs) => {
                let t = trim_chars(hs.as_slice());
                if let Some(v) = parse_i32_chars(&t) {
                    height = v;
                }
            },
            None => {
                if let Some(v) = get_int(&ps, hidx) {
                    height = v;
                }
            },
        }
        let mut width: i32 = 0;
        if let Some(v) = get_int(&ps, widx) {
            width = v;
        }
        self.printer.next_font = Some(FontInfo { name, width, height, orientation });
    }

    fn parse_field_data(&mut self, command: &[char])
        requires
            command@.len() >= 3,
        ensures
            field_data_rel(
                old(self).printer,
                if old(self).printer.next_hex_escape_char != 0 {
                    unescape(rest_of(command@, 3), old(self).printer.next_hex_escape_char as char)
                } else {
                    rest_of(command@, 3)
                },
                final(self).printer,
            ),
    {
        let rest = suffix_from(command, 3);
        let text = string_from(&rest);
        if self.printer.next_hex_escape_char != 0 {
            match decode_escaped_string(text.as_str(), self.printer.next_hex_escape_char) {
                Ok(s) => {
                    self.printer.next_element_field_data = s;
                },
                Err(_) => {},
            }
        } else {
            self.printer.next_element_field_data = text;
        }
    }

    fn parse_field_separator(&mut self) -> (r: Option<LabelElement>)
        ensures
            field_separator_rel(old(self).printer, r),
            crate::parsers::virtual_printer::after_field_reset(
                old(self).printer,
                final(self).printer,
            ),
    {
        let result = if self.printer.next_element_field_number < 0 {
            let rf = RecalledField {
                stored: StoredField {
                    number: self.printer.next_element_field_number,
                    field: self.printer.get_field_info(),
                },
                data: self.printer.next_element_field_data.clone(),
            };
            match resolve_field(&rf) {
                Ok(o) => o,
                Err(_) => None,
            }
        } else if self.printer.next_download_format_name.as_str().is_empty() {
            Some(
                LabelElement::RecalledFieldData(
                    RecalledFieldData {
                        number: self.printer.next_element_field_number,
                        data: self.printer.next_element_field_data.clone(),
                    },
                ),
            )
        } else {
            Some(
                LabelElement::StoredField(
                    StoredField {
                        number: self.printer.next_element_field_number,
                        field: self.printer.get_field_info(),
                    },
                ),
            )
        };
        self.printer.reset_field_state();
        result
    }

    fn parse_download_graphics(&mut self, command: &[char]) -> (r: Result<(), String>)
        requires
            command@.len() >= 3,
        ensures
            download_graphics_rel(old(self).printer, command@, final(self).printer, r),
    {
        let rest = suffix_from(command, 3);
        let all = split_chars(&rest, ',');
        let mut ps: Vec<Vec<char>> = Vec::new();
        if all.len() <= 4 {
            ps = all;
        } else {
            let mut k: usize = 0;
            while k < 3
                invariant
                    k <= 3,
                    all@.len() > 4,
                    views(ps@) == views(all@).take(k as int),
                decreases 3 - k,
            {
                let ghost p0 = ps@;
                let piece = crate::text::copy_chars(all[k].as_slice());
                assert(piece@ == views(all@)[k as int]);
                ps.push(piece);
                proof {
                    assert(views(ps@) =~= views(p0).push(piece@));
                    assert(views(all@).take(k + 1) =~= views(all@).take(k as int).push(
                        views(all@)[k as int],
                    ));
                }
                k += 1;
            }
            let tail = join_chars(&all, 3);
            let ghost p0 = ps@;
            ps.push(tail);
            proof {
                assert(views(ps@) =~= views(all@).take(3).push(join_params(views(all@).skip(3))));
            }
        }
        assert(views(ps@) == split4(rest_of(command@, 3)));
        let path = path_or(&ps, STORED_GRAPHICS_DEFAULT_PATH);
        let total_bytes: i32 = match get_int(&ps, 1) {
            Some(v) => v,
            None => 0,
        };
        let row_bytes: i32 = match get_int(&ps, 2) {
            Some(v) => if v <= 9999999 {
                v
            } else {
                9999999
            },
            None => 1,
        };
        let mut data: Vec<u8> = Vec::new();
        if ps.len() > 3 {
            let s = string_from(&ps[3]);
            match decode_graphic_field_data(s.as_str(), row_bytes) {
                Ok(v) => {
                    data = v;
                },
                Err(e) => {
                    return Err(prefixed("failed to decode embedded graphics: ", e));
                },
            }
        }
        let ext = three_chars('G', 'R', 'F');
        let key = ensure_extension(path.as_str(), ext.as_str());
        store_entry(
            &mut self.printer.stored_graphics,
            key,
            StoredGraphics { total_bytes, row_bytes, data },
        );
        Ok(())
    }

    fn parse_image_load(&self, command: &[char]) -> (r: Result<Option<LabelElement>, String>)
        requires
            command@.len() >= 3,
        ensures
            recall_graphics_rel(
                self.printer,
                params(command@, 3),
                LabelPosition { x: 0, y: 0, calculate_from_bottom: false, automatic_position: false },
                1,
                1,
                false,
                r,
            ),
    {
        let ps = split_params(command, 3);
        let path = path_or(&ps, STORED_GRAPHICS_DEFAULT_PATH);
        match find_entry(&self.printer.stored_graphics, &path) {
            Some(i) => {
                let g = &self.printer.stored_graphics[i].1;
                Ok(
                    Some(
                        LabelElement::GraphicField(
                            GraphicField {
                                position: LabelPosition {
                                    x: 0,
                                    y: 0,
                                    calculate_from_bottom: false,
                                    automatic_position: false,
                                },
                                magnification_x: 1,
                                magnification_y: 1,
                                reverse_print: ReversePrint { value: false },
                                format: GraphicFieldFormat::Hex,
                                data_bytes: g.total_bytes,
                                total_bytes: g.total_bytes,
                                row_bytes: g.row_bytes,
                                data: crate::text::copy_bytes(g.data.as_slice()),
                            },
                        ),
                    ),
                )
            },
            None => Ok(None),
        }
    }

    fn parse_recall_graphics(&self, command: &[char]) -> (r: Result<Option<LabelElement>, String>)
        requires
            command@.len() >= 3,
        ensures
            recall_graphics_rel(
                self.printer,
                params(command@, 3),
                self.printer.next_element_position,
                mag_param(params(command@, 3), 1),
                mag_param(params(command@, 3), 2),
                self.printer.next_element_field_reverse || self.printer.label_reverse,
                r,
            ),
    {
        let ps = split_params(command, 3);
        let path = path_or(&ps, STORED_GRAPHICS_DEFAULT_PATH);
        let mx: i32 = match get_int(&ps, 1) {
            Some(v) => if 0 <= v && v <= 10 {
                v
            } else {
                1
            },
            None => 1,
        };
        let my: i32 = match get_int(&ps, 2) {
            Some(v) => if 0 <= v && v <= 10 {
                v
            } else {
                1
            },
            None => 1,
        };
        match find_entry(&self.printer.stored_graphics, &path) {
            Some(i) => {
                let g = &self.printer.stored_graphics[i].1;
                Ok(
                    Some(
                        LabelElement::GraphicField(
                            GraphicField {
                                position: self.printer.next_element_position,
                                magnification_x: mx,
                                magnification_y: my,
                                reverse_print: ReversePrint {
                                    value: self.printer.next_element_field_reverse
                                        || self.printer.label_reverse,
                                },
                                format: GraphicFieldFormat::Hex,
                                data_bytes: g.total_bytes,
                                total_bytes: g.total_bytes,
                                row_bytes: g.row_bytes,
                                data: crate::text::copy_bytes(g.data.as_slice()),
                            },
                        ),
                    ),
                )
            },
            None => Ok(None),
        }
    }

    fn format_path_of(command: &[char]) -> (s: String)
        requires
            command@.len() >= 3,
        ensures
            s@ == format_path(command@),
    {
        let rest = suffix_from(command, 3);
        if rest.len() == 0 {
            STORED_FORMAT_DEFAULT_PATH.to_owned()
        } else {
            string_from(&rest)
        }
    }

    fn parse_download_format(&mut self, command: &[char]) -> (r: Result<(), String>)
        requires
            command@.len() >= 3,
        ensures
            match r {
                Ok(()) => crate::parsers::fs::path_ok(format_path(command@)) && final(self).printer
                    == VirtualPrinter {
                    next_download_format_name: final(self).printer.next_download_format_name,
                    ..old(self).printer
                } && final(self).printer.next_download_format_name@ == with_extension(
                    format_path(command@),
                    seq!['Z', 'P', 'L'],
                ),
                Err(e) => !crate::parsers::fs::path_ok(format_path(command@)) && e@
                    == crate::parsers::fs::device_error_text(format_path(command@))
                    && final(self).printer == old(self).printer,
            },
    {
        let path = Self::format_path_of(command);
        match validate_device(path.as_str()) {
            Ok(()) => {},
            Err(e) => {
                return Err(e);
            },
        }
        let ext = three_chars('Z', 'P', 'L');
        let name = ensure_extension(path.as_str(), ext.as_str());
        self.printer.next_download_format_name = name;
        Ok(())
    }

    fn parse_recall_format(&self, command: &[char]) -> (r: Result<Option<Parsed>, String>)
        requires
            command@.len() >= 3,
        ensures
            recall_format_rel(self.printer, command@, r),
    {
        let path = Self::format_path_of(command);
        match validate_device(path.as_str()) {
            Ok(()) => {},
            Err(e) => {
                return Err(e);
            },
        }
        let ext = three_chars('Z', 'P', 'L');
        let key = ensure_extension(path.as_str(), ext.as_str());
        match find_entry(&self.printer.stored_formats, &key) {
            Some(i) => Ok(Some(Parsed::Format(self.printer.stored_formats[i].1.to_recalled_format()))),
            None => Ok(None),
        }
    }
}

/// What `^XF` gives: the stored format recalled with its fields waiting for
/// data, nothing when no format has that name, or the device error.
pub open spec fn recall_format_rel(p: VirtualPrinter, c: Seq<char>, r: Result<Option<Parsed>, String>) -> bool {
    let path = format_path(c);
    if !crate::parsers::fs::path_ok(path) {
        r matches Err(e) && e@ == crate::parsers::fs::device_error_text(path)
    } else {
        match find_first(p.stored_formats@, with_extension(path, seq!['Z', 'P', 'L'])) {
            Some(i) => r matches Ok(Some(Parsed::Format(rf))) && rf.inverted
                == p.stored_formats@[i].1.inverted && rf.wf() && built_from(
                p.stored_formats@[i].1.elements@,
                rf.elements@,
                rf.field_refs@,
            ),
            None => r matches Ok(None),
        }
    }
}

fn three_chars(a: char, b: char, c: char) -> (s: String)
    ensures
        s@ == seq![a, b, c],
{
    let mut s = String::new();
    push_char(&mut s, a);
    push_char(&mut s, b);
    push_char(&mut s, c);
    assert(s@ =~= seq![a, b, c]);
    s
}

fn is_digit_char_zpl(c: char) -> (b: bool)
    ensures
        b == is_digit(c),
{
    '0' <= c && c <= '9'
}

/// The element of a command result, if it is one.
pub open spec fn element_result(r: Result<Option<Parsed>, String>) -> Result<
    Option<LabelElement>,
    String,
> {
    match r {
        Ok(Some(Parsed::Element(e))) => Ok(Some(e)),
        Ok(_) => Ok(None),
        Err(e) => Err(e),
    }
}

/// A command result that is not a recalled format.
pub open spec fn no_format(r: Result<Option<Parsed>, String>) -> bool {
    !(r matches Ok(Some(Parsed::Format(_))))
}

/// A command result that carries no element.
pub open spec fn unit_result(r: Result<Option<Parsed>, String>) -> Result<(), String> {
    match r {
        Ok(_) => Ok(()),
        Err(e) => Err(e),
    }
}

/// `c` is one of the label setup commands.
pub open spec fn is_label_setup(c: Seq<char>) -> bool {
    (is_command(c, '^', 'L', 'H'))
        || (is_command(c, '^', 'L', 'R'))
        || (is_command(c, '^', 'P', 'O'))
        || (is_command(c, '^', 'P', 'W'))
        || (is_command(c, '^', 'C', 'I'))
        || (is_command(c, '^', 'C', 'F'))
        || (has_prefix_ci(c, seq!['^', 'A']) && !is_command(c, '^', 'A', '@'))
}

/// `c` is one of the field command commands.
pub open spec fn is_field_command(c: Seq<char>) -> bool {
    (is_command(c, '^', 'F', 'W'))
        || (is_command(c, '^', 'F', 'O'))
        || (is_command(c, '^', 'F', 'T'))
        || (is_command(c, '^', 'F', 'B'))
        || (is_command(c, '^', 'F', 'D'))
        || (is_command(c, '^', 'F', 'V'))
        || (is_command(c, '^', 'F', 'N'))
        || (is_command(c, '^', 'F', 'R'))
        || (is_command(c, '^', 'F', 'H'))
        || (is_command(c, '^', 'F', 'S'))
}

/// `c` is one of the barcode command commands.
pub open spec fn is_barcode_command(c: Seq<char>) -> bool {
    (is_command(c, '^', 'B', 'C'))
        || (is_command(c, '^', 'B', 'E'))
        || (is_command(c, '^', 'B', '2'))
        || (is_command(c, '^', 'B', '3'))
        || (is_command(c, '^', 'B', '7'))
        || (is_command(c, '^', 'B', 'O'))
        || (is_command(c, '^', 'B', 'X'))
        || (is_command(c, '^', 'B', 'Q'))
        || (is_command(c, '^', 'B', 'D'))
        || (is_command(c, '^', 'B', 'Y'))
}

/// `c` is one of the graphic command commands.
pub open spec fn is_graphic_command(c: Seq<char>) -> bool {
    (is_command(c, '^', 'G', 'B'))
        || (is_command(c, '^', 'G', 'C'))
        || (is_command(c, '^', 'G', 'D'))
        || (is_command(c, '^', 'G', 'F'))
        || (is_command(c, '^', 'G', 'S'))
}

/// `c` is one of the storage command commands.
pub open spec fn is_storage_command(c: Seq<char>) -> bool {
    (is_command(c, '~', 'D', 'G'))
        || (is_command(c, '^', 'I', 'L'))
        || (is_command(c, '^', 'X', 'G'))
        || (is_command(c, '^', 'D', 'F'))
        || (is_command(c, '^', 'X', 'F'))
}

/// The effect of a label setup command (see `command_rel`).
pub open spec fn label_setup_rel(
    p: VirtualPrinter,
    c: Seq<char>,
    q: VirtualPrinter,
    r: Result<Option<Parsed>, String>,
) -> bool {
    let ps = params(c, 3);
    let rest = rest_of(c, 3);
    let none = Ok::<Option<Parsed>, String>(None);
    if is_command(c, '^', 'L', 'H') {
        q == after_label_home(p, ps) && r == none
    } else if is_command(c, '^', 'L', 'R') {
        q == VirtualPrinter { label_reverse: rest == seq!['Y'], ..p } && r == none
    } else if is_command(c, '^', 'P', 'O') {
        q == VirtualPrinter { label_inverted: rest == seq!['I'], ..p } && r == none
    } else if is_command(c, '^', 'P', 'W') {
        q == VirtualPrinter {
            print_width: match param_int(ps, 0) {
                Some(v) => max_i32(v, 2),
                None => p.print_width,
            },
            ..p
        } && r == none
    } else if is_command(c, '^', 'C', 'I') {
        q == VirtualPrinter { current_charset: or_keep(param_int(ps, 0), p.current_charset), ..p }
            && r == none
    } else if is_command(c, '^', 'C', 'F') {
        default_font_rel(p, ps, q) && r == none
    } else {
        change_font_rel(p, params(c, 2), q) && r == none
    }
}

/// The effect of a field command command (see `command_rel`).
pub open spec fn field_command_rel(
    p: VirtualPrinter,
    c: Seq<char>,
    q: VirtualPrinter,
    r: Result<Option<Parsed>, String>,
) -> bool {
    let ps = params(c, 3);
    let rest = rest_of(c, 3);
    let none = Ok::<Option<Parsed>, String>(None);
    if is_command(c, '^', 'F', 'W') {
        q == after_field_orientation(p, ps) && r == none
    } else if is_command(c, '^', 'F', 'O') {
        q == after_field_position(p, ps, false) && r == none
    } else if is_command(c, '^', 'F', 'T') {
        q == after_field_position(p, ps, true) && r == none
    } else if is_command(c, '^', 'F', 'B') {
        q == with_field_config(p, FieldConfig::FieldBlock(field_block_of(ps))) && r == none
    } else if is_command(c, '^', 'F', 'D') {
        field_data_rel(
            p,
            if p.next_hex_escape_char != 0 {
                unescape(rest, p.next_hex_escape_char as char)
            } else {
                rest
            },
            q,
        ) && r == none
    } else if is_command(c, '^', 'F', 'V') {
        field_data_rel(p, rest, q) && r == none
    } else if is_command(c, '^', 'F', 'N') {
        q == VirtualPrinter {
            next_element_field_number: match spec_parse_i32(rest) {
                Some(v) => if v >= 0 {
                    v
                } else {
                    p.next_element_field_number
                },
                None => p.next_element_field_number,
            },
            ..p
        } && r == none
    } else if is_command(c, '^', 'F', 'R') {
        q == VirtualPrinter { next_element_field_reverse: true, ..p } && r == none
    } else if is_command(c, '^', 'F', 'H') {
        q == VirtualPrinter {
            next_hex_escape_char: if rest.len() == 0 {
                95u8
            } else {
                first_byte(rest[0])
            },
            ..p
        } && r == none
    } else {
        crate::parsers::virtual_printer::after_field_reset(p, q) && r is Ok && no_format(r)
            && field_separator_rel(
            p,
            element_result(r)->Ok_0,
        )
    }
}

/// The effect of a barcode command command (see `command_rel`).
pub open spec fn barcode_command_rel(
    p: VirtualPrinter,
    c: Seq<char>,
    q: VirtualPrinter,
    r: Result<Option<Parsed>, String>,
) -> bool {
    let ps = params(c, 3);
    let rest = rest_of(c, 3);
    let none = Ok::<Option<Parsed>, String>(None);
    if is_command(c, '^', 'B', 'C') {
        q == with_field_config(p, FieldConfig::Barcode128(code128_of(p, ps))) && r == none
    } else if is_command(c, '^', 'B', 'E') {
        q == with_field_config(p, FieldConfig::BarcodeEan13(ean13_of(p, ps))) && r == none
    } else if is_command(c, '^', 'B', '2') {
        q == with_field_config(p, FieldConfig::Barcode2of5(code2of5_of(p, ps))) && r == none
    } else if is_command(c, '^', 'B', '3') {
        q == with_field_config(p, FieldConfig::Barcode39(code39_of(p, ps))) && r == none
    } else if is_command(c, '^', 'B', '7') {
        q == with_field_config(p, FieldConfig::BarcodePdf417(pdf417_of(p, ps))) && r == none
    } else if is_command(c, '^', 'B', 'O') {
        q == with_field_config(p, FieldConfig::BarcodeAztec(aztec_of(p, ps))) && r == none
    } else if is_command(c, '^', 'B', 'X') {
        q == with_field_config(p, FieldConfig::BarcodeDatamatrix(datamatrix_of(p, ps))) && r
            == none
    } else if is_command(c, '^', 'B', 'Q') {
        q == with_field_config(p, FieldConfig::BarcodeQr(qr_of(ps))) && r == none
    } else if is_command(c, '^', 'B', 'D') {
        q == with_field_config(p, FieldConfig::Maxicode(Maxicode { mode: or_keep(param_int(ps, 0), 0) }))
            && r == none
    } else {
        q == after_barcode_defaults(p, ps) && r == none
    }
}

/// The effect of a graphic command command (see `command_rel`).
pub open spec fn graphic_command_rel(
    p: VirtualPrinter,
    c: Seq<char>,
    q: VirtualPrinter,
    r: Result<Option<Parsed>, String>,
) -> bool {
    let ps = params(c, 3);
    let rest = rest_of(c, 3);
    let none = Ok::<Option<Parsed>, String>(None);
    if is_command(c, '^', 'G', 'B') {
        q == p && r == as_parsed(Ok(Some(LabelElement::GraphicBox(graphic_box_of(p, ps)))))
    } else if is_command(c, '^', 'G', 'C') {
        q == p && r == as_parsed(Ok(Some(LabelElement::GraphicCircle(graphic_circle_of(p, ps)))))
    } else if is_command(c, '^', 'G', 'D') {
        q == p && r == as_parsed(Ok(Some(LabelElement::DiagonalLine(diagonal_line_of(p, ps)))))
    } else if is_command(c, '^', 'G', 'F') {
        q == p && no_format(r) && graphic_field_rel(p, ps, element_result(r))
    } else {
        q == with_field_config(p, FieldConfig::GraphicSymbol(graphic_symbol_of(p, ps))) && r
            == none
    }
}

/// The effect of a storage command command (see `command_rel`).
pub open spec fn storage_command_rel(
    p: VirtualPrinter,
    c: Seq<char>,
    q: VirtualPrinter,
    r: Result<Option<Parsed>, String>,
) -> bool {
    let ps = params(c, 3);
    let rest = rest_of(c, 3);
    let none = Ok::<Option<Parsed>, String>(None);
    if is_command(c, '~', 'D', 'G') {
        no_format(r) && !(r matches Ok(Some(_))) && download_graphics_rel(p, c, q, unit_result(r))
    } else if is_command(c, '^', 'I', 'L') {
        q == p && no_format(r) && recall_graphics_rel(
            p,
            ps,
            LabelPosition { x: 0, y: 0, calculate_from_bottom: false, automatic_position: false },
            1,
            1,
            false,
            element_result(r),
        )
    } else if is_command(c, '^', 'X', 'G') {
        q == p && no_format(r) && recall_graphics_rel(
            p,
            ps,
            p.next_element_position,
            mag_param(ps, 1),
            mag_param(ps, 2),
            p.next_element_field_reverse || p.label_reverse,
            element_result(r),
        )
    } else if is_command(c, '^', 'D', 'F') {
        let path = format_path(c);
        if crate::parsers::fs::path_ok(path) {
            r == none && q == VirtualPrinter {
                next_download_format_name: q.next_download_format_name,
                ..p
            } && q.next_download_format_name@ == with_extension(path, seq!['Z', 'P', 'L'])
        } else {
            q == p && (r matches Err(e) && e@ == crate::parsers::fs::device_error_text(path))
        }
    } else {
        q == p && recall_format_rel(p, c, r)
    }
}

/// The effect of one ZPL command `c` on printer state `p` (giving `q`) and its
/// result `r`. Commands are recognised by their first characters, letters in
/// any case; an unknown command changes nothing.
pub open spec fn command_rel(
    p: VirtualPrinter,
    c: Seq<char>,
    q: VirtualPrinter,
    r: Result<Option<Parsed>, String>,
) -> bool {
    if is_label_setup(c) {
        label_setup_rel(p, c, q, r)
    } else if is_field_command(c) {
        field_command_rel(p, c, q, r)
    } else if is_barcode_command(c) {
        barcode_command_rel(p, c, q, r)
    } else if is_graphic_command(c) {
        graphic_command_rel(p, c, q, r)
    } else if is_storage_command(c) {
        storage_command_rel(p, c, q, r)
    } else {
        q == p && r == Ok::<Option<Parsed>, String>(None)
    }
}

fn in_label_setup(c: &[char]) -> (b: bool)
    ensures
        b == is_label_setup(c@),
{
    command_is(c, '^', 'L', 'H')
        || command_is(c, '^', 'L', 'R')
        || command_is(c, '^', 'P', 'O')
        || command_is(c, '^', 'P', 'W')
        || command_is(c, '^', 'C', 'I')
        || command_is(c, '^', 'C', 'F')
        || (is_font_command(c) && !command_is(c, '^', 'A', '@'))
}

fn in_field_command(c: &[char]) -> (b: bool)
    ensures
        b == is_field_command(c@),
{
    command_is(c, '^', 'F', 'W')
        || command_is(c, '^', 'F', 'O')
        || command_is(c, '^', 'F', 'T')
        || command_is(c, '^', 'F', 'B')
        || command_is(c, '^', 'F', 'D')
        || command_is(c, '^', 'F', 'V')
        || command_is(c, '^', 'F', 'N')
        || command_is(c, '^', 'F', 'R')
        || command_is(c, '^', 'F', 'H')
        || command_is(c, '^', 'F', 'S')
}

fn in_barcode_command(c: &[char]) -> (b: bool)
    ensures
        b == is_barcode_command(c@),
{
    command_is(c, '^', 'B', 'C')
        || command_is(c, '^', 'B', 'E')
        || command_is(c, '^', 'B', '2')
        || command_is(c, '^', 'B', '3')
        || command_is(c, '^', 'B', '7')
        || command_is(c, '^', 'B', 'O')
        || command_is(c, '^', 'B', 'X')
        || command_is(c, '^', 'B', 'Q')
        || command_is(c, '^', 'B', 'D')
        || command_is(c, '^', 'B', 'Y')
}

fn in_graphic_command(c: &[char]) -> (b: bool)
    ensures
        b == is_graphic_command(c@),
{
    command_is(c, '^', 'G', 'B')
        || command_is(c, '^', 'G', 'C')
        || command_is(c, '^', 'G', 'D')
        || command_is(c, '^', 'G', 'F')
        || command_is(c, '^', 'G', 'S')
}

fn in_storage_command(c: &[char]) -> (b: bool)
    ensures
        b == is_storage_command(c@),
{
    command_is(c, '~', 'D', 'G')
        || command_is(c, '^', 'I', 'L')
        || command_is(c, '^', 'X', 'G')
        || command_is(c, '^', 'D', 'F')
        || command_is(c, '^', 'X', 'F')
}

fn is_font_command(c: &[char]) -> (b: bool)
    ensures
        b == has_prefix_ci(c@, seq!['^', 'A']),
{
    let r = c.len() >= 2 && c[0] == '^' && upper_char(c[1]) == 'A';
    proof {
        if r {
            assert(has_prefix_ci(c@, seq!['^', 'A']));
        }
        if has_prefix_ci(c@, seq!['^', 'A']) {
            assert(ascii_upper(c@[0]) == '^');
            assert(ascii_upper(c@[1]) == 'A');
        }
    }
    r
}

impl ZplParser {
    #[verifier::rlimit(30)]
    fn parse_label_setup(&mut self, command: &[char]) -> (r: Result<Option<Parsed>, String>)
        requires
            is_label_setup(command@),
        ensures
            label_setup_rel(old(self).printer, command@, final(self).printer, r),
    {
        let c = command;
        if command_is(c, '^', 'L', 'H') {
            self.parse_label_home(c);
            return Ok(None);
        }
        if command_is(c, '^', 'L', 'R') {
            let yes = c.len() == 4 && c[3] == 'Y';
            proof {
                if yes {
                    assert(rest_of(c@, 3) =~= seq!['Y']);
                }
                if rest_of(c@, 3) == seq!['Y'] {
                    assert(rest_of(c@, 3)[0] == 'Y');
                }
            }
            self.printer.label_reverse = yes;
            return Ok(None);
        }
        if command_is(c, '^', 'P', 'O') {
            let inv = c.len() == 4 && c[3] == 'I';
            proof {
                if inv {
                    assert(rest_of(c@, 3) =~= seq!['I']);
                }
                if rest_of(c@, 3) == seq!['I'] {
                    assert(rest_of(c@, 3)[0] == 'I');
                }
            }
            self.printer.label_inverted = inv;
            return Ok(None);
        }
        if command_is(c, '^', 'P', 'W') {
            let ps = split_params(c, 3);
            if let Some(v) = get_int(&ps, 0) {
                self.printer.print_width = if v >= 2 {
                    v
                } else {
                    2
                };
            }
            return Ok(None);
        }
        if command_is(c, '^', 'C', 'I') {
            let ps = split_params(c, 3);
            if let Some(v) = get_int(&ps, 0) {
                self.printer.current_charset = v;
            }
            return Ok(None);
        }
        if command_is(c, '^', 'C', 'F') {
            self.parse_change_default_font(c);
            return Ok(None);
        }
        let is_a = c.len() >= 2 && (c[0] == '^') && upper_char(c[1]) == 'A';
        proof {
            if is_a {
                assert(has_prefix_ci(c@, seq!['^', 'A']));
            }
            if has_prefix_ci(c@, seq!['^', 'A']) {
                assert(ascii_upper(c@[0]) == '^');
                assert(ascii_upper(c@[1]) == 'A');
            }
        }
        if is_a && !command_is(c, '^', 'A', '@') {
            self.parse_change_font(c);
            return Ok(None);
        }
        Ok(None)
    }

    #[verifier::rlimit(30)]
    fn parse_field_command(&mut self, command: &[char]) -> (r: Result<Option<Parsed>, String>)
        requires
            is_field_command(command@),
        ensures
            field_command_rel(old(self).printer, command@, final(self).printer, r),
    {
        let c = command;
        if command_is(c, '^', 'F', 'W') {
            self.parse_field_orientation(c);
            return Ok(None);
        }
        if command_is(c, '^', 'F', 'O') {
            self.parse_field_position(c, false);
            return Ok(None);
        }
        if command_is(c, '^', 'F', 'T') {
            self.parse_field_position(c, true);
            return Ok(None);
        }
        if command_is(c, '^', 'F', 'B') {
            self.parse_field_block(c);
            return Ok(None);
        }
        if command_is(c, '^', 'F', 'D') {
            self.parse_field_data(c);
            return Ok(None);
        }
        if command_is(c, '^', 'F', 'V') {
            let rest = suffix_from(c, 3);
            self.printer.next_element_field_data = string_from(&rest);
            return Ok(None);
        }
        if command_is(c, '^', 'F', 'N') {
            let rest = suffix_from(c, 3);
            if let Some(v) = parse_i32_chars(&rest) {
                if v >= 0 {
                    self.printer.next_element_field_number = v;
                }
            }
            return Ok(None);
        }
        if command_is(c, '^', 'F', 'R') {
            self.printer.next_element_field_reverse = true;
            return Ok(None);
        }
        if command_is(c, '^', 'F', 'H') {
            self.printer.next_hex_escape_char = if c.len() == 3 {
                95
            } else {
                first_byte_of(c[3])
            };
            return Ok(None);
        }
        if command_is(c, '^', 'F', 'S') {
            let e = self.parse_field_separator();
            return lift(Ok(e));
        }
        Ok(None)
    }

    #[verifier::rlimit(30)]
    fn parse_barcode_command(&mut self, command: &[char]) -> (r: Result<Option<Parsed>, String>)
        requires
            is_barcode_command(command@),
        ensures
            barcode_command_rel(old(self).printer, command@, final(self).printer, r),
    {
        let c = command;
        if command_is(c, '^', 'B', 'C') {
            self.parse_barcode_128(c);
            return Ok(None);
        }
        if command_is(c, '^', 'B', 'E') {
            self.parse_barcode_ean13(c);
            return Ok(None);
        }
        if command_is(c, '^', 'B', '2') {
            self.parse_barcode_2of5(c);
            return Ok(None);
        }
        if command_is(c, '^', 'B', '3') {
            self.parse_barcode_39(c);
            return Ok(None);
        }
        if command_is(c, '^', 'B', '7') {
            self.parse_barcode_pdf417(c);
            return Ok(None);
        }
        if command_is(c, '^', 'B', 'O') {
            self.parse_barcode_aztec(c);
            return Ok(None);
        }
        if command_is(c, '^', 'B', 'X') {
            self.parse_barcode_datamatrix(c);
            return Ok(None);
        }
        if command_is(c, '^', 'B', 'Q') {
            self.parse_barcode_qr(c);
            return Ok(None);
        }
        if command_is(c, '^', 'B', 'D') {
            self.parse_maxicode(c);
            return Ok(None);
        }
        if command_is(c, '^', 'B', 'Y') {
            self.parse_barcode_field_defaults(c);
            return Ok(None);
        }
        Ok(None)
    }

    #[verifier::rlimit(30)]
    fn parse_graphic_command(&mut self, command: &[char]) -> (r: Result<Option<Parsed>, String>)
        requires
            is_graphic_command(command@),
        ensures
            graphic_command_rel(old(self).printer, command@, final(self).printer, r),
    {
        let c = command;
        if command_is(c, '^', 'G', 'B') {
            return lift(self.parse_graphic_box(c));
        }
        if command_is(c, '^', 'G', 'C') {
            return lift(self.parse_graphic_circle(c));
        }
        if command_is(c, '^', 'G', 'D') {
            return lift(self.parse_graphic_diagonal_line(c));
        }
        if command_is(c, '^', 'G', 'F') {
            return lift(self.parse_graphic_field(c));
        }
        if command_is(c, '^', 'G', 'S') {
            self.parse_graphic_symbol(c);
            return Ok(None);
        }
        Ok(None)
    }

    #[verifier::rlimit(30)]
    fn parse_storage_command(&mut self, command: &[char]) -> (r: Result<Option<Parsed>, String>)
        requires
            is_storage_command(command@),
        ensures
            storage_command_rel(old(self).printer, command@, final(self).printer, r),
    {
        let c = command;
        if command_is(c, '~', 'D', 'G') {
            return match self.parse_download_graphics(c) {
                Ok(()) => Ok(None),
                Err(e) => Err(e),
            };
        }
        if command_is(c, '^', 'I', 'L') {
            return lift(self.parse_image_load(c));
        }
        if command_is(c, '^', 'X', 'G') {
            return lift(self.parse_recall_graphics(c));
        }
        if command_is(c, '^', 'D', 'F') {
            return match self.parse_download_format(c) {
                Ok(()) => Ok(None),
                Err(e) => Err(e),
            };
        }
        if command_is(c, '^', 'X', 'F') {
            return self.parse_recall_format(c);
        }
        Ok(None)
    }

    /// Applies one command (without the `^XA`/`^XZ` framing) to the printer.
    fn parse_command(&mut self, command: &[char]) -> (r: Result<Option<Parsed>, String>)
        ensures
            command_rel(old(self).printer, command@, final(self).printer, r),
    {
        if in_label_setup(command) {
            return self.parse_label_setup(command);
        }
        if in_field_command(command) {
            return self.parse_field_command(command);
        }
        if in_barcode_command(command) {
            return self.parse_barcode_command(command);
        }
        if in_graphic_command(command) {
            return self.parse_graphic_command(command);
        }
        if in_storage_command(command) {
            return self.parse_storage_command(command);
        }
        Ok(None)
    }
}

// ---------------------------------------------------------------------------
// Splitting a ZPL stream into commands
// ---------------------------------------------------------------------------

/// The stream with line breaks and tabs removed.
pub open spec fn strip_breaks(s: Seq<char>) -> Seq<char>
    decreases s.len(),
{
    if s.len() == 0 {
        seq![]
    } else {
        strip_breaks(s.drop_last()) + if s.last() == '\n' || s.last() == '\r' || s.last() == '\t' {
            seq![]
        } else {
            seq![s.last()]
        }
    }
}

/// `s` holds the two characters `a` `b` one after the other.
pub open spec fn contains_pair(s: Seq<char>, a: char, b: char) -> bool {
    exists|i: int| 0 <= i && i + 1 < s.len() && s[i] == a && #[trigger] s[i + 1] == b
}

/// A buffered command with its prefix characters made standard (`^` and `~`)
/// and leading white space removed.
pub open spec fn normalize(cmd: Seq<char>, tilde: char, caret: char) -> Seq<char> {
    if cmd.len() == 0 {
        seq![]
    } else {
        let first = cmd[0];
        let c1 = if caret != '^' && first == caret {
            seq!['^'] + cmd.drop_first()
        } else {
            cmd
        };
        let c2 = if tilde != '~' && first == tilde {
            seq!['~'] + c1.drop_first()
        } else {
            c1
        };
        crate::text::trim_start(c2)
    }
}

/// The fourth character of `s`, or `d`.
pub open spec fn fourth_or(s: Seq<char>, d: char) -> char {
    if s.len() > 3 {
        s[3]
    } else {
        d
    }
}

/// The splitter's state: the current command prefix characters, the
/// command being read, and the commands read so far.
pub struct SplitState {
    pub caret: char,
    pub tilde: char,
    pub buff: Seq<char>,
    pub out: Seq<Seq<char>>,
}

/// A four-byte buffer that is a `CT` (change tilde) or `CC` (change caret) command.
pub open spec fn is_change(st: SplitState, a: char, b: char) -> bool {
    &&& crate::hex::wlen(st.buff) == 4
    &&& contains_pair(st.buff, a, b)
    &&& st.buff.len() > 0
    &&& st.buff[0] == st.caret
}

/// One character of the stream: a prefix character (or a complete `CT`/`CC`
/// command) ends the buffered command, which is kept, or changes a prefix.
pub open spec fn split_step(st: SplitState, ch: char) -> SplitState {
    let is_ct = is_change(st, 'C', 'T');
    let is_cc = is_change(st, 'C', 'C');
    if ch == st.caret || ch == st.tilde || is_ct || is_cc {
        let n = normalize(st.buff, st.tilde, st.caret);
        if is_ct && crate::hex::wlen(n) >= 4 {
            SplitState { tilde: fourth_or(n, '~'), buff: seq![ch], ..st }
        } else if is_cc && crate::hex::wlen(n) >= 4 {
            SplitState { caret: fourth_or(n, '^'), buff: seq![ch], ..st }
        } else if n.len() > 0 {
            SplitState { buff: seq![ch], out: st.out.push(n), ..st }
        } else {
            SplitState { buff: seq![ch], ..st }
        }
    } else {
        SplitState { buff: st.buff.push(ch), ..st }
    }
}

/// The splitter's state after reading `s`.
pub open spec fn split_run(s: Seq<char>) -> SplitState
    decreases s.len(),
{
    if s.len() == 0 {
        SplitState { caret: '^', tilde: '~', buff: seq![], out: seq![] }
    } else {
        split_step(split_run(s.drop_last()), s.last())
    }
}

/// The commands of a ZPL text (line breaks and tabs removed first).
pub open spec fn zpl_commands(text: Seq<char>) -> Seq<Seq<char>> {
    let st = split_run(strip_breaks(text));
    let n = normalize(st.buff, st.tilde, st.caret);
    if n.len() > 0 {
        st.out.push(n)
    } else {
        st.out
    }
}

/// Whether `s` takes exactly four UTF-8 bytes.
fn is_four_bytes(s: &[char]) -> (b: bool)
    ensures
        b == (crate::hex::wlen(s@) == 4),
{
    let n = s.len();
    if n > 4 {
        proof {
            lemma_wlen_at_least_len(s@);
        }
        return false;
    }
    let mut total: usize = 0;
    let mut i: usize = 0;
    while i < n
        invariant
            i <= n <= 4,
            n == s@.len(),
            total == crate::hex::wlen(s@.take(i as int)),
            total <= 4 * i,
        decreases n - i,
    {
        proof {
            crate::hex::lemma_wlen_push(s@.take(i as int), s@[i as int]);
            assert(s@.take(i + 1) =~= s@.take(i as int).push(s@[i as int]));
        }
        total = total + crate::hex::char_width_of(s[i]);
        i += 1;
    }
    proof {
        assert(s@.take(n as int) =~= s@);
    }
    total == 4
}

/// Whether `s` takes at least four UTF-8 bytes.
fn has_four_bytes(s: &[char]) -> (b: bool)
    ensures
        b == (crate::hex::wlen(s@) >= 4),
{
    let n = s.len();
    if n >= 4 {
        proof {
            lemma_wlen_at_least_len(s@);
        }
        return true;
    }
    let mut total: usize = 0;
    let mut i: usize = 0;
    while i < n
        invariant
            i <= n < 4,
            n == s@.len(),
            total == crate::hex::wlen(s@.take(i as int)),
            total <= 4 * i,
        decreases n - i,
    {
        proof {
            crate::hex::lemma_wlen_push(s@.take(i as int), s@[i as int]);
            assert(s@.take(i + 1) =~= s@.take(i as int).push(s@[i as int]));
        }
        total = total + crate::hex::char_width_of(s[i]);
        i += 1;
    }
    proof {
        assert(s@.take(n as int) =~= s@);
    }
    total >= 4
}

proof fn lemma_wlen_at_least_len(s: Seq<char>)
    ensures
        crate::hex::wlen(s) >= s.len(),
    decreases s.len(),
{
    if s.len() > 0 {
        lemma_wlen_at_least_len(s.drop_last());
    }
}

fn has_pair(s: &[char], a: char, b: char) -> (r: bool)
    ensures
        r == contains_pair(s@, a, b),
{
    let n = s.len();
    let mut i: usize = 0;
    while i < n && i + 1 < n
        invariant
            n == s@.len(),
            forall|j: int| 0 <= j < i && j + 1 < s@.len() ==> !(s@[j] == a && #[trigger] s@[j + 1] == b),
        decreases s@.len() - i,
    {
        if s[i] == a && s[i + 1] == b {
            return true;
        }
        i += 1;
    }
    proof {
        assert forall|j: int| 0 <= j && j + 1 < s@.len() implies !(s@[j] == a && #[trigger] s@[j
            + 1] == b) by {
            if j >= i {
                assert(false);
            }
        }
    }
    false
}

/// `normalize` on the buffered characters.
fn normalize_command(command: &[char], tilde: char, caret: char) -> (r: Vec<char>)
    ensures
        r@ == normalize(command@, tilde, caret),
{
    if command.len() == 0 {
        return Vec::new();
    }
    let first = command[0];
    let mut cmd: Vec<char> = crate::text::copy_chars(command);
    if caret != '^' && first == caret {
        let mut c1: Vec<char> = Vec::new();
        c1.push('^');
        let mut i: usize = 1;
        while i < cmd.len()
            invariant
                1 <= i <= cmd@.len(),
                cmd@ == command@,
                c1@ == seq!['^'] + command@.subrange(1, i as int),
            decreases cmd@.len() - i,
        {
            c1.push(cmd[i]);
            proof {
                assert(c1@ =~= seq!['^'] + command@.subrange(1, i + 1));
            }
            i += 1;
        }
        proof {
            assert(command@.subrange(1, command@.len() as int) =~= command@.drop_first());
        }
        cmd = c1;
    }
    let ghost c1v = cmd@;
    if tilde != '~' && first == tilde {
        let mut c2: Vec<char> = Vec::new();
        c2.push('~');
        let mut i: usize = 1;
        while i < cmd.len()
            invariant
                1 <= i <= cmd@.len(),
                cmd@ == c1v,
                c2@ == seq!['~'] + c1v.subrange(1, i as int),
            decreases cmd@.len() - i,
        {
            c2.push(cmd[i]);
            proof {
                assert(c2@ =~= seq!['~'] + c1v.subrange(1, i + 1));
            }
            i += 1;
        }
        proof {
            assert(c1v.subrange(1, c1v.len() as int) =~= c1v.drop_first());
        }
        cmd = c2;
    }
    crate::text::trim_start_chars(cmd.as_slice())
}

/// The commands of a ZPL stream, with the prefix characters that `^CC` and
/// `~CT` set applied.
fn split_zpl_commands(zpl_data: &[u8]) -> (r: Vec<Vec<char>>)
    ensures
        views(r@) == zpl_commands(crate::text::lossy_utf8(zpl_data@)),
        vstd::utf8::valid_utf8(zpl_data@) ==> crate::text::lossy_utf8(zpl_data@)
            == vstd::utf8::decode_utf8(zpl_data@),
{
    let text = crate::text::utf8_lossy(zpl_data);
    let all = chars_of(text.as_str());
    let mut data: Vec<char> = Vec::new();
    let mut k: usize = 0;
    while k < all.len()
        invariant
            k <= all@.len(),
            data@ == strip_breaks(all@.take(k as int)),
        decreases all@.len() - k,
    {
        let ch = all[k];
        proof {
            assert(all@.take(k + 1).drop_last() =~= all@.take(k as int));
        }
        if ch != '\n' && ch != '\r' && ch != '\t' {
            data.push(ch);
            proof {
                assert(data@ =~= strip_breaks(all@.take(k + 1)));
            }
        } else {
            proof {
                assert(data@ =~= strip_breaks(all@.take(k + 1)));
            }
        }
        k += 1;
    }
    proof {
        assert(all@.take(all@.len() as int) =~= all@);
    }
    let mut caret = '^';
    let mut tilde = '~';
    let mut buff: Vec<char> = Vec::new();
    let mut results: Vec<Vec<char>> = Vec::new();
    let mut i: usize = 0;
    proof {
        assert(data@.take(0) =~= Seq::<char>::empty());
        assert(views(results@) =~= Seq::<Seq<char>>::empty());
        assert(buff@ =~= Seq::<char>::empty());
    }
    while i < data.len()
        invariant
            i <= data@.len(),
            split_run(data@.take(i as int)) == (SplitState {
                caret,
                tilde,
                buff: buff@,
                out: views(results@),
            }),
        decreases data@.len() - i,
    {
        let ch = data[i];
        let ghost st = SplitState { caret, tilde, buff: buff@, out: views(results@) };
        proof {
            assert(data@.take(i + 1).drop_last() =~= data@.take(i as int));
        }
        let four = is_four_bytes(buff.as_slice());
        let lead = buff.len() > 0 && buff[0] == caret;
        let is_ct = four && has_pair(buff.as_slice(), 'C', 'T') && lead;
        let is_cc = four && has_pair(buff.as_slice(), 'C', 'C') && lead;
        if ch == caret || ch == tilde || is_ct || is_cc {
            let normalized = normalize_command(buff.as_slice(), tilde, caret);
            let long = has_four_bytes(normalized.as_slice());
            if is_ct && long {
                tilde = if normalized.len() > 3 {
                    normalized[3]
                } else {
                    '~'
                };
            } else if is_cc && long {
                caret = if normalized.len() > 3 {
                    normalized[3]
                } else {
                    '^'
                };
            } else if normalized.len() > 0 {
                let ghost r0 = results@;
                let ghost nv = normalized@;
                results.push(normalized);
                proof {
                    assert(views(results@) =~= views(r0).push(nv));
                }
            }
            buff = Vec::new();
            buff.push(ch);
            proof {
                assert(buff@ =~= seq![ch]);
            }
        } else {
            buff.push(ch);
        }
        proof {
            assert(split_run(data@.take(i + 1)) == split_step(st, ch));
        }
        i += 1;
    }
    proof {
        assert(data@.take(data@.len() as int) =~= data@);
    }
    let normalized = normalize_command(buff.as_slice(), tilde, caret);
    if normalized.len() > 0 {
        let ghost r0 = results@;
        let ghost nv = normalized@;
        results.push(normalized);
        proof {
            assert(views(results@) =~= views(r0).push(nv));
        }
    }
    results
}

// ---------------------------------------------------------------------------
// Labels
// ---------------------------------------------------------------------------

/// The parser's state between commands: the printer, the labels finished so
/// far, the elements of the label being built, and the recalled format that
/// collects the label's fields, if any.
pub struct ZplSession {
    pub printer: VirtualPrinter,
    pub labels: Seq<LabelInfo>,
    pub pending: Seq<LabelElement>,
    pub current: Option<RecalledFormat>,
}

/// `added` is what the recalled format `cur` (if any) resolves to.
pub open spec fn resolved_current(cur: Option<RecalledFormat>, added: Seq<LabelElement>) -> bool {
    match cur {
        Some(rf) => resolves_to(rf.elements@, added),
        None => added.len() == 0,
    }
}

/// `^XZ` with the label elements `all`: a label with elements is printed, or
/// stored as a format while `^DF` named one; the elements are then cleared.
pub open spec fn end_label_rel(s: ZplSession, all: Seq<LabelElement>, t: ZplSession) -> bool {
    &&& t.current == s.current
    &&& if all.len() == 0 {
        &&& t.printer == s.printer
        &&& t.labels == s.labels
        &&& t.pending == all
    } else if s.printer.next_download_format_name@.len() == 0 {
        &&& t.printer == s.printer
        &&& t.pending.len() == 0
        &&& t.labels.len() == s.labels.len() + 1
        &&& t.labels.drop_last() == s.labels
        &&& t.labels.last().print_width == s.printer.print_width
        &&& t.labels.last().inverted == s.printer.label_inverted
        &&& t.labels.last().elements@ == all
    } else {
        &&& t.pending.len() == 0
        &&& t.labels == s.labels
        &&& t.printer == VirtualPrinter { stored_formats: t.printer.stored_formats, ..s.printer }
        &&& crate::parsers::virtual_printer::stored_entry(
            s.printer.stored_formats@,
            t.printer.stored_formats@,
            s.printer.next_download_format_name@,
        )
        &&& ({
            let f = crate::parsers::virtual_printer::stored_value(
                s.printer.stored_formats@,
                t.printer.stored_formats@,
                s.printer.next_download_format_name@,
            );
            f.inverted == s.printer.label_inverted && f.elements@ == all
        })
    }
}

/// What a command result does to the label being built: an element joins it
/// (or the recalled format in use); a recalled format replaces the one in use,
/// whose resolved elements join the label.
pub open spec fn apply_result_rel(s: ZplSession, p1: VirtualPrinter, r: Option<Parsed>, t: ZplSession) -> bool {
    &&& t.labels == s.labels
    &&& match r {
        None => t.printer == p1 && t.pending == s.pending && t.current == s.current,
        Some(Parsed::Format(rf)) => {
            &&& t.printer == VirtualPrinter { label_inverted: rf.inverted, ..p1 }
            &&& t.current == Some(rf)
            &&& exists|added: Seq<LabelElement>| #[trigger]
                resolved_current(s.current, added) && t.pending == s.pending + added
        },
        Some(Parsed::Element(e)) => {
            &&& t.printer == p1
            &&& match s.current {
                Some(rf) => t.pending == s.pending && (t.current matches Some(rf2)
                    && rf2.inverted == rf.inverted && crate::elements::stored_format::add_rel(
                    rf.elements@,
                    rf.field_refs@,
                    e,
                    rf2.elements@,
                    rf2.field_refs@,
                )),
                None => t.current == s.current && t.pending == s.pending.push(e),
            }
        },
    }
}

/// One command of the stream: `^XA` starts a label, `^XZ` ends it, and every
/// other command goes to `parse_command`. `Err` is the command's error.
pub open spec fn session_rel(s: ZplSession, c: Seq<char>, t: ZplSession, r: Result<(), String>) -> bool {
    if is_command(c, '^', 'X', 'A') {
        &&& r is Ok
        &&& t.printer == VirtualPrinter {
            next_download_format_name: t.printer.next_download_format_name,
            label_inverted: false,
            ..s.printer
        }
        &&& t.printer.next_download_format_name@.len() == 0
        &&& t.labels == s.labels
        &&& t.pending == s.pending
        &&& t.current is None
    } else if is_command(c, '^', 'X', 'Z') {
        &&& r is Ok
        &&& exists|added: Seq<LabelElement>| #[trigger]
            resolved_current(s.current, added) && end_label_rel(s, s.pending + added, t)
    } else {
        exists|p1: VirtualPrinter, r1: Result<Option<Parsed>, String>|
            #[trigger] command_rel(s.printer, c, p1, r1) && match r1 {
                Err(e) => r == Err::<(), String>(e) && t.printer == p1,
                Ok(o) => r is Ok && apply_result_rel(s, p1, o, t),
            }
    }
}

/// The session that `parse` starts from.
pub open spec fn start_session(p: VirtualPrinter) -> ZplSession {
    ZplSession { printer: p, labels: seq![], pending: seq![], current: None }
}

/// `states` steps through the commands `cmds` without error; each recalled
/// format in use is well formed.
pub open spec fn session_trace(cmds: Seq<Seq<char>>, states: Seq<ZplSession>) -> bool {
    &&& states.len() <= cmds.len() + 1
    &&& states.len() >= 1
    &&& forall|i: int|
        0 <= i < states.len() - 1 ==> #[trigger] session_rel(
            states[i],
            cmds[i],
            states[i + 1],
            Ok(()),
        )
}

/// What `parse` does with the ZPL text `text` from printer state `p`: the
/// commands are applied in turn; the result is the labels printed, or the
/// first error, with `q` the printer state left behind.
pub open spec fn parse_rel(p: VirtualPrinter, text: Seq<char>, q: VirtualPrinter, r: Result<
    Vec<LabelInfo>,
    String,
>) -> bool {
    let cmds = zpl_commands(text);
    exists|states: Seq<ZplSession>|
        #[trigger] session_trace(cmds, states) && states[0] == start_session(p) && {
            let last = states[states.len() - 1];
            if states.len() == cmds.len() + 1 {
                r matches Ok(labels) && labels@ == last.labels && q == last.printer
            } else {
                exists|t: ZplSession, e: String|
                    #[trigger] session_rel(last, cmds[states.len() - 1], t, Err(e)) && r == Err::<
                        Vec<LabelInfo>,
                        String,
                    >(e) && q == t.printer
            }
        }
}

impl ZplParser {
    /// Parses a ZPL stream (read as UTF-8, invalid bytes replaced) into the
    /// labels it prints. The printer state carries over to the next call.
    /// Valid UTF-8 is read as the text it encodes.
    pub fn parse(&mut self, zpl_data: &[u8]) -> (r: Result<Vec<LabelInfo>, String>)
        ensures
            parse_rel(
                old(self).state(),
                crate::text::lossy_utf8(zpl_data@),
                final(self).state(),
                r,
            ),
            vstd::utf8::valid_utf8(zpl_data@) ==> parse_rel(
                old(self).state(),
                vstd::utf8::decode_utf8(zpl_data@),
                final(self).state(),
                r,
            ),
    {
        let commands = split_zpl_commands(zpl_data);
        let ghost cmds = views(commands@);
        let mut results: Vec<LabelInfo> = Vec::new();
        let mut pending: Vec<LabelElement> = Vec::new();
        let mut current: Option<RecalledFormat> = None;
        let ghost mut states: Seq<ZplSession> = seq![start_session(self.printer)];
        proof {
            assert(results@ =~= Seq::<LabelInfo>::empty());
            assert(pending@ =~= Seq::<LabelElement>::empty());
        }
        let n = commands.len();
        let mut i: usize = 0;
        while i < n
            invariant
                i <= n,
                n == cmds.len(),
                cmds == views(commands@),
                cmds == zpl_commands(crate::text::lossy_utf8(zpl_data@)),
                vstd::utf8::valid_utf8(zpl_data@) ==> crate::text::lossy_utf8(zpl_data@)
                    == vstd::utf8::decode_utf8(zpl_data@),
                states.len() == i + 1,
                states[0] == start_session(old(self).printer),
                session_trace(cmds, states),
                states[i as int] == (ZplSession {
                    printer: self.printer,
                    labels: results@,
                    pending: pending@,
                    current,
                }),
                current matches Some(rf) ==> rf.wf(),
            decreases n - i,
        {
            let ghost s0 = states[i as int];
            let command = &commands[i];
            assert(command@ == cmds[i as int]);
            match self.step(command.as_slice(), &mut results, &mut pending, &mut current) {
                Ok(()) => {},
                Err(e) => {
                    proof {
                        let t = ZplSession {
                            printer: self.printer,
                            labels: results@,
                            pending: pending@,
                            current,
                        };
                        assert(session_rel(s0, cmds[i as int], t, Err(e)));
                        assert(session_trace(cmds, states));
                    }
                    proof {
                        let t = ZplSession {
                            printer: self.printer,
                            labels: results@,
                            pending: pending@,
                            current,
                        };
                        assert(states[states.len() - 1] == s0);
                        assert(session_rel(
                            states[states.len() - 1],
                            cmds[states.len() - 1],
                            t,
                            Err(e),
                        ));
                        assert(parse_rel(
                            old(self).printer,
                            crate::text::lossy_utf8(zpl_data@),
                            self.printer,
                            Err(e),
                        ));
                    }
                    return Err(e);
                },
            }
            proof {
                let t = ZplSession { printer: self.printer, labels: results@, pending: pending@, current };
                let states0 = states;
                states = states.push(t);
                assert forall|j: int| 0 <= j < states.len() - 1 implies #[trigger] session_rel(
                    states[j],
                    cmds[j],
                    states[j + 1],
                    Ok(()),
                ) by {
                    if j < i {
                        assert(states[j] == states0[j]);
                        assert(states[j + 1] == states0[j + 1]);
                    }
                }
            }
            i += 1;
        }
        proof {
            assert(session_trace(cmds, states));
        }
        Ok(results)
    }

    /// Applies one command of the stream to the parser's state.
    fn step(
        &mut self,
        command: &[char],
        results: &mut Vec<LabelInfo>,
        pending: &mut Vec<LabelElement>,
        current: &mut Option<RecalledFormat>,
    ) -> (r: Result<(), String>)
        requires
            *old(current) matches Some(rf) ==> rf.wf(),
        ensures
            session_rel(
                ZplSession {
                    printer: old(self).printer,
                    labels: old(results)@,
                    pending: old(pending)@,
                    current: *old(current),
                },
                command@,
                ZplSession {
                    printer: final(self).printer,
                    labels: final(results)@,
                    pending: final(pending)@,
                    current: *final(current),
                },
                r,
            ),
            *final(current) matches Some(rf) ==> rf.wf(),
    {
        let ghost s = ZplSession {
            printer: self.printer,
            labels: results@,
            pending: pending@,
            current: *current,
        };
        if command_is(command, '^', 'X', 'A') {
            self.printer.reset_label_state();
            *current = None;
            return Ok(());
        }
        if command_is(command, '^', 'X', 'Z') {
            let ghost mut added: Seq<LabelElement> = seq![];
            match current {
                Some(rf) => {
                    match rf.resolve_elements() {
                        Ok(resolved) => {
                            proof {
                                added = resolved@;
                            }
                            let mut more = resolved;
                            pending.append(&mut more);
                        },
                        Err(e) => {
                            return Err(e);
                        },
                    }
                },
                None => {
                    proof {
                        assert(pending@ =~= s.pending + added);
                    }
                },
            }
            assert(resolved_current(s.current, added));
            if pending.len() == 0 {
                return Ok(());
            }
            let mut elements: Vec<LabelElement> = Vec::new();
            std::mem::swap(&mut elements, pending);
            if self.printer.next_download_format_name.as_str().is_empty() {
                results.push(
                    LabelInfo {
                        print_width: self.printer.print_width,
                        inverted: self.printer.label_inverted,
                        elements,
                    },
                );
                proof {
                    assert(results@.drop_last() =~= s.labels);
                }
            } else {
                let name = self.printer.next_download_format_name.clone();
                store_entry(
                    &mut self.printer.stored_formats,
                    name,
                    StoredFormat { inverted: self.printer.label_inverted, elements },
                );
            }
            return Ok(());
        }
        let parsed = self.parse_command(command);
        match parsed {
            Err(e) => Err(e),
            Ok(None) => Ok(()),
            Ok(Some(Parsed::Format(rf))) => {
                let ghost mut added: Seq<LabelElement> = seq![];
                match current {
                    Some(prev) => {
                        match prev.resolve_elements() {
                            Ok(resolved) => {
                                proof {
                                    added = resolved@;
                                }
                                let mut more = resolved;
                                pending.append(&mut more);
                            },
                            Err(e) => {
                                return Err(e);
                            },
                        }
                    },
                    None => {
                        proof {
                            assert(pending@ =~= s.pending + added);
                        }
                    },
                }
                assert(resolved_current(s.current, added));
                self.printer.label_inverted = rf.inverted;
                *current = Some(rf);
                Ok(())
            },
            Ok(Some(Parsed::Element(el))) => {
                match current {
                    Some(rf) => {
                        rf.add_element(el);
                    },
                    None => {
                        pending.push(el);
                    },
                }
                Ok(())
            },
        }
    }
}

} // verus!
