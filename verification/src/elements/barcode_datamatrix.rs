use vstd::prelude::*;
use super::field_orientation::FieldOrientation;
use super::label_position::LabelPosition;
use super::reverse_print::ReversePrint;

verus! {

/// The symbol shape that `^BX` asks for.
#[derive(Clone, Copy, Debug, PartialEq, Eq, Structural)]
pub enum DatamatrixRatio {
    Square,
    Rectangular,
}

/// Data Matrix settings from `^BX`.
#[derive(Clone, Copy, Debug, PartialEq, Eq, Structural)]
pub struct BarcodeDatamatrix {
    pub orientation: FieldOrientation,
    pub height: i32,
    pub quality: i32,
    pub columns: i32,
    pub rows: i32,
    pub format: i32,
    pub escape: u8,
    pub ratio: Option<DatamatrixRatio>,
}

/// A Data Matrix barcode with its data.
#[derive(Debug)]
pub struct BarcodeDatamatrixWithData {
    pub reverse_print: ReversePrint,
    pub barcode: BarcodeDatamatrix,
    pub position: LabelPosition,
    pub data: String,
}

} // verus!
