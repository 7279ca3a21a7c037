use vstd::prelude::*;
use super::field_orientation::FieldOrientation;
use super::label_position::LabelPosition;
use super::reverse_print::ReversePrint;

verus! {

/// Code 39 settings from `^B3`.
#[derive(Clone, Copy, Debug, PartialEq, Eq, Structural)]
pub struct Barcode39 {
    pub orientation: FieldOrientation,
    pub height: i32,
    pub line: bool,
    pub line_above: bool,
    pub check_digit: bool,
}

/// A Code 39 barcode with its data; `width_ratio` is in thousandths.
#[derive(Debug)]
pub struct Barcode39WithData {
    pub reverse_print: ReversePrint,
    pub barcode: Barcode39,
    pub width: i32,
    pub width_ratio: i32,
    pub position: LabelPosition,
    pub data: String,
}

} // verus!
