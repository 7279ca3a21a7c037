use vstd::prelude::*;
use super::field_orientation::FieldOrientation;
use super::label_position::LabelPosition;
use super::reverse_print::ReversePrint;

verus! {

/// Interleaved 2 of 5 settings from `^B2`.
#[derive(Clone, Copy, Debug, PartialEq, Eq, Structural)]
pub struct Barcode2of5 {
    pub orientation: FieldOrientation,
    pub height: i32,
    pub line: bool,
    pub line_above: bool,
    pub check_digit: bool,
}

/// An Interleaved 2 of 5 barcode with its data; `width_ratio` is in thousandths.
#[derive(Debug)]
pub struct Barcode2of5WithData {
    pub reverse_print: ReversePrint,
    pub barcode: Barcode2of5,
    pub width: i32,
    pub width_ratio: i32,
    pub position: LabelPosition,
    pub data: String,
}

} // verus!
