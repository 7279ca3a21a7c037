use vstd::prelude::*;
use super::barcode_128::{Barcode128, Barcode128WithData};
use super::barcode_2of5::{Barcode2of5, Barcode2of5WithData};
use super::barcode_39::{Barcode39, Barcode39WithData};
use super::barcode_aztec::{BarcodeAztec, BarcodeAztecWithData};
use super::barcode_datamatrix::{BarcodeDatamatrix, BarcodeDatamatrixWithData};
use super::barcode_ean13::{BarcodeEan13, BarcodeEan13WithData};
use super::barcode_pdf417::{BarcodePdf417, BarcodePdf417WithData};
use super::barcode_qr::{BarcodeQr, BarcodeQrWithData};
use super::field_block::FieldBlock;
use super::graphic_box::GraphicBox;
use super::graphic_circle::GraphicCircle;
use super::graphic_diagonal_line::GraphicDiagonalLine;
use super::graphic_field::GraphicField;
use super::graphic_symbol::GraphicSymbol;
use super::maxicode::{Maxicode, MaxicodeWithData};
use super::stored_format::{RecalledField, RecalledFieldData, StoredField};
use super::text_field::TextField;
use crate::text::copy_bytes;

verus! {

/// All drawable label elements and the template pieces the ZPL parser keeps.
#[derive(Debug)]
pub enum LabelElement {
    Text(TextField),
    GraphicBox(GraphicBox),
    GraphicCircle(GraphicCircle),
    DiagonalLine(GraphicDiagonalLine),
    GraphicField(GraphicField),
    Barcode128(Barcode128WithData),
    BarcodeEan13(BarcodeEan13WithData),
    Barcode2of5(Barcode2of5WithData),
    Barcode39(Barcode39WithData),
    BarcodePdf417(BarcodePdf417WithData),
    BarcodeAztec(BarcodeAztecWithData),
    BarcodeDatamatrix(BarcodeDatamatrixWithData),
    BarcodeQr(BarcodeQrWithData),
    Maxicode(MaxicodeWithData),
    Barcode128Config(Barcode128),
    BarcodeEan13Config(BarcodeEan13),
    Barcode2of5Config(Barcode2of5),
    Barcode39Config(Barcode39),
    BarcodePdf417Config(BarcodePdf417),
    BarcodeAztecConfig(BarcodeAztec),
    BarcodeDatamatrixConfig(BarcodeDatamatrix),
    BarcodeQrConfig(BarcodeQr),
    MaxicodeConfig(Maxicode),
    GraphicSymbolConfig(GraphicSymbol),
    FieldBlockConfig(FieldBlock),
    StoredField(StoredField),
    RecalledFieldData(RecalledFieldData),
    RecalledField(RecalledField),
}

/// Whether an element is drawn in reverse; template and configuration
/// elements never are.
pub open spec fn element_reversed(e: LabelElement) -> bool {
    match e {
        LabelElement::Text(t) => t.reverse_print.value,
        LabelElement::GraphicBox(g) => g.reverse_print.value,
        LabelElement::GraphicCircle(g) => g.reverse_print.value,
        LabelElement::DiagonalLine(g) => g.reverse_print.value,
        LabelElement::GraphicField(g) => g.reverse_print.value,
        LabelElement::Barcode128(b) => b.reverse_print.value,
        LabelElement::BarcodeEan13(b) => b.reverse_print.value,
        LabelElement::Barcode2of5(b) => b.reverse_print.value,
        LabelElement::Barcode39(b) => b.reverse_print.value,
        LabelElement::BarcodePdf417(b) => b.reverse_print.value,
        LabelElement::BarcodeAztec(b) => b.reverse_print.value,
        LabelElement::BarcodeDatamatrix(b) => b.reverse_print.value,
        LabelElement::BarcodeQr(b) => b.reverse_print.value,
        LabelElement::Maxicode(m) => m.reverse_print.value,
        _ => false,
    }
}

/// Two graphic fields with the same settings and the same bytes.
pub open spec fn same_graphic_field(a: GraphicField, b: GraphicField) -> bool {
    &&& a.reverse_print == b.reverse_print
    &&& a.position == b.position
    &&& a.magnification_x == b.magnification_x
    &&& a.magnification_y == b.magnification_y
    &&& a.format == b.format
    &&& a.data_bytes == b.data_bytes
    &&& a.total_bytes == b.total_bytes
    &&& a.row_bytes == b.row_bytes
    &&& a.data@ == b.data@
}

/// Two elements that hold the same content.
pub open spec fn same_element(a: LabelElement, b: LabelElement) -> bool {
    match (a, b) {
        (LabelElement::GraphicField(x), LabelElement::GraphicField(y)) => same_graphic_field(x, y),
        _ => a == b,
    }
}

impl LabelElement {
    /// Whether the element is drawn in reverse.
    pub fn is_reverse_print(&self) -> (b: bool)
        ensures
            b == element_reversed(*self),
    {
        match self {
            LabelElement::Text(t) => t.reverse_print.value,
            LabelElement::GraphicBox(g) => g.reverse_print.value,
            LabelElement::GraphicCircle(g) => g.reverse_print.value,
            LabelElement::DiagonalLine(g) => g.reverse_print.value,
            LabelElement::GraphicField(g) => g.reverse_print.value,
            LabelElement::Barcode128(b) => b.reverse_print.value,
            LabelElement::BarcodeEan13(b) => b.reverse_print.value,
            LabelElement::Barcode2of5(b) => b.reverse_print.value,
            LabelElement::Barcode39(b) => b.reverse_print.value,
            LabelElement::BarcodePdf417(b) => b.reverse_print.value,
            LabelElement::BarcodeAztec(b) => b.reverse_print.value,
            LabelElement::BarcodeDatamatrix(b) => b.reverse_print.value,
            LabelElement::BarcodeQr(b) => b.reverse_print.value,
            LabelElement::Maxicode(m) => m.reverse_print.value,
            _ => false,
        }
    }

    /// A copy of this element.
    pub fn copy(&self) -> (r: LabelElement)
        ensures
            same_element(*self, r),
    {
        match self {
            LabelElement::Text(t) => LabelElement::Text(
                TextField {
                    reverse_print: t.reverse_print,
                    font: t.font.copy(),
                    position: t.position,
                    alignment: t.alignment,
                    text: t.text.clone(),
                    block: t.block,
                },
            ),
            LabelElement::GraphicBox(g) => LabelElement::GraphicBox(*g),
            LabelElement::GraphicCircle(g) => LabelElement::GraphicCircle(*g),
            LabelElement::DiagonalLine(g) => LabelElement::DiagonalLine(*g),
            LabelElement::GraphicField(g) => LabelElement::GraphicField(
                GraphicField {
                    reverse_print: g.reverse_print,
                    position: g.position,
                    magnification_x: g.magnification_x,
                    magnification_y: g.magnification_y,
                    format: g.format,
                    data_bytes: g.data_bytes,
                    total_bytes: g.total_bytes,
                    row_bytes: g.row_bytes,
                    data: copy_bytes(&g.data),
                },
            ),
            LabelElement::Barcode128(b) => LabelElement::Barcode128(
                Barcode128WithData {
                    reverse_print: b.reverse_print,
                    barcode: b.barcode,
                    width: b.width,
                    position: b.position,
                    data: b.data.clone(),
                },
            ),
            LabelElement::BarcodeEan13(b) => LabelElement::BarcodeEan13(
                BarcodeEan13WithData {
                    reverse_print: b.reverse_print,
                    barcode: b.barcode,
                    width: b.width,
                    position: b.position,
                    data: b.data.clone(),
                },
            ),
            LabelElement::Barcode2of5(b) => LabelElement::Barcode2of5(
                Barcode2of5WithData {
                    reverse_print: b.reverse_print,
                    barcode: b.barcode,
                    width: b.width,
                    width_ratio: b.width_ratio,
                    position: b.position,
                    data: b.data.clone(),
                },
            ),
            LabelElement::Barcode39(b) => LabelElement::Barcode39(
                Barcode39WithData {
                    reverse_print: b.reverse_print,
                    barcode: b.barcode,
                    width: b.width,
                    width_ratio: b.width_ratio,
                    position: b.position,
                    data: b.data.clone(),
                },
            ),
            LabelElement::BarcodePdf417(b) => LabelElement::BarcodePdf417(
                BarcodePdf417WithData {
                    reverse_print: b.reverse_print,
                    barcode: b.barcode,
                    position: b.position,
                    data: b.data.clone(),
                },
            ),
            LabelElement::BarcodeAztec(b) => LabelElement::BarcodeAztec(
                BarcodeAztecWithData {
                    reverse_print: b.reverse_print,
                    barcode: b.barcode,
                    position: b.position,
                    data: b.data.clone(),
                },
            ),
            LabelElement::BarcodeDatamatrix(b) => LabelElement::BarcodeDatamatrix(
                BarcodeDatamatrixWithData {
                    reverse_print: b.reverse_print,
                    barcode: b.barcode,
                    position: b.position,
                    data: b.data.clone(),
                },
            ),
            LabelElement::BarcodeQr(b) => LabelElement::BarcodeQr(
                BarcodeQrWithData {
                    reverse_print: b.reverse_print,
                    barcode: b.barcode,
                    height: b.height,
                    position: b.position,
                    data: b.data.clone(),
                },
            ),
            LabelElement::Maxicode(m) => LabelElement::Maxicode(
                MaxicodeWithData {
                    reverse_print: m.reverse_print,
                    code: m.code,
                    position: m.position,
                    data: m.data.clone(),
                },
            ),
            LabelElement::Barcode128Config(c) => LabelElement::Barcode128Config(*c),
            LabelElement::BarcodeEan13Config(c) => LabelElement::BarcodeEan13Config(*c),
            LabelElement::Barcode2of5Config(c) => LabelElement::Barcode2of5Config(*c),
            LabelElement::Barcode39Config(c) => LabelElement::Barcode39Config(*c),
            LabelElement::BarcodePdf417Config(c) => LabelElement::BarcodePdf417Config(*c),
            LabelElement::BarcodeAztecConfig(c) => LabelElement::BarcodeAztecConfig(*c),
            LabelElement::BarcodeDatamatrixConfig(c) => LabelElement::BarcodeDatamatrixConfig(*c),
            LabelElement::BarcodeQrConfig(c) => LabelElement::BarcodeQrConfig(*c),
            LabelElement::MaxicodeConfig(c) => LabelElement::MaxicodeConfig(*c),
            LabelElement::GraphicSymbolConfig(c) => LabelElement::GraphicSymbolConfig(*c),
            LabelElement::FieldBlockConfig(c) => LabelElement::FieldBlockConfig(*c),
            LabelElement::StoredField(s) => LabelElement::StoredField(
                StoredField { number: s.number, field: s.field.copy() },
            ),
            LabelElement::RecalledFieldData(d) => LabelElement::RecalledFieldData(
                RecalledFieldData { number: d.number, data: d.data.clone() },
            ),
            LabelElement::RecalledField(f) => LabelElement::RecalledField(
                RecalledField {
                    stored: StoredField { number: f.stored.number, field: f.stored.field.copy() },
                    data: f.data.clone(),
                },
            ),
        }
    }
}

} // verus!
