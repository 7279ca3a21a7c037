use vstd::prelude::*;
use super::barcode_128::Barcode128;
use super::barcode_2of5::Barcode2of5;
use super::barcode_39::Barcode39;
use super::barcode_aztec::BarcodeAztec;
use super::barcode_datamatrix::BarcodeDatamatrix;
use super::barcode_ean13::BarcodeEan13;
use super::barcode_pdf417::BarcodePdf417;
use super::barcode_qr::BarcodeQr;
use super::field_alignment::FieldAlignment;
use super::field_block::FieldBlock;
use super::font::FontInfo;
use super::graphic_symbol::GraphicSymbol;
use super::label_position::LabelPosition;
use super::maxicode::Maxicode;
use super::reverse_print::ReversePrint;

verus! {

/// The field type chosen by a barcode, `^GS` or `^FB` command before the field data.
#[derive(Clone, Copy, Debug, PartialEq, Eq, Structural)]
pub enum FieldConfig {
    Barcode128(Barcode128),
    BarcodeEan13(BarcodeEan13),
    Barcode2of5(Barcode2of5),
    Barcode39(Barcode39),
    BarcodePdf417(BarcodePdf417),
    BarcodeAztec(BarcodeAztec),
    BarcodeDatamatrix(BarcodeDatamatrix),
    BarcodeQr(BarcodeQr),
    Maxicode(Maxicode),
    GraphicSymbol(GraphicSymbol),
    FieldBlock(FieldBlock),
}

/// Everything the printer knows about a field when its `^FS` arrives.
/// `width_ratio` is in thousandths.
#[derive(Debug)]
pub struct FieldInfo {
    pub reverse_print: ReversePrint,
    pub element: Option<FieldConfig>,
    pub font: FontInfo,
    pub position: LabelPosition,
    pub alignment: FieldAlignment,
    pub width: i32,
    pub width_ratio: i32,
    pub height: i32,
    pub current_charset: i32,
}

impl FieldInfo {
    /// A copy of this field information.
    pub fn copy(&self) -> (r: FieldInfo)
        ensures
            r == *self,
    {
        FieldInfo {
            reverse_print: self.reverse_print,
            element: self.element,
            font: self.font.copy(),
            position: self.position,
            alignment: self.alignment,
            width: self.width,
            width_ratio: self.width_ratio,
            height: self.height,
            current_charset: self.current_charset,
        }
    }
}

} // verus!
