use vstd::prelude::*;
use super::field_orientation::FieldOrientation;
use super::label_position::LabelPosition;
use super::reverse_print::ReversePrint;

verus! {

/// The `^BC` mode: how the field data is turned into Code 128 symbols.
#[derive(Clone, Copy, Debug, PartialEq, Eq, Structural, Default)]
pub enum BarcodeMode {
    #[default]
    No,
    Ucc,
    Automatic,
    Ean,
}

/// Code 128 settings from `^BC`.
#[derive(Clone, Copy, Debug, PartialEq, Eq, Structural)]
pub struct Barcode128 {
    pub orientation: FieldOrientation,
    pub height: i32,
    pub line: bool,
    pub line_above: bool,
    pub check_digit: bool,
    pub mode: BarcodeMode,
}

/// A Code 128 barcode with its data.
#[derive(Debug)]
pub struct Barcode128WithData {
    pub reverse_print: ReversePrint,
    pub barcode: Barcode128,
    pub width: i32,
    pub position: LabelPosition,
    pub data: String,
}

} // verus!
