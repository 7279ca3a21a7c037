use vstd::prelude::*;
use super::field_orientation::FieldOrientation;
use super::label_position::LabelPosition;
use super::reverse_print::ReversePrint;

verus! {

/// Aztec settings from `^BO`.
#[derive(Clone, Copy, Debug, PartialEq, Eq, Structural)]
pub struct BarcodeAztec {
    pub orientation: FieldOrientation,
    pub magnification: i32,
    pub size: i32,
}

/// An Aztec barcode with its data.
#[derive(Debug)]
pub struct BarcodeAztecWithData {
    pub reverse_print: ReversePrint,
    pub barcode: BarcodeAztec,
    pub position: LabelPosition,
    pub data: String,
}

} // verus!
