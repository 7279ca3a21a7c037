use vstd::prelude::*;
use super::field_orientation::FieldOrientation;
use super::label_position::LabelPosition;
use super::reverse_print::ReversePrint;

verus! {

/// PDF417 settings from `^B7`, with the `^BY` module width and height in force.
#[derive(Clone, Copy, Debug, PartialEq, Eq, Structural)]
pub struct BarcodePdf417 {
    pub orientation: FieldOrientation,
    pub row_height: i32,
    pub security: i32,
    pub columns: i32,
    pub rows: i32,
    pub truncate: bool,
    pub module_width: i32,
    pub by_height: i32,
}

/// A PDF417 barcode with its data.
#[derive(Debug)]
pub struct BarcodePdf417WithData {
    pub reverse_print: ReversePrint,
    pub barcode: BarcodePdf417,
    pub position: LabelPosition,
    pub data: String,
}

} // verus!
