use vstd::prelude::*;
use super::field_orientation::FieldOrientation;
use super::label_position::LabelPosition;
use super::reverse_print::ReversePrint;

verus! {

/// EAN-13 settings from `^BE`.
#[derive(Clone, Copy, Debug, PartialEq, Eq, Structural)]
pub struct BarcodeEan13 {
    pub orientation: FieldOrientation,
    pub height: i32,
    pub line: bool,
    pub line_above: bool,
}

/// An EAN-13 barcode with its data.
#[derive(Debug)]
pub struct BarcodeEan13WithData {
    pub reverse_print: ReversePrint,
    pub barcode: BarcodeEan13,
    pub width: i32,
    pub position: LabelPosition,
    pub data: String,
}

} // verus!
