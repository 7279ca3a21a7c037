use vstd::prelude::*;
use super::label_position::LabelPosition;
use super::reverse_print::ReversePrint;

verus! {

/// The encoding of `^GF` data.
#[derive(Clone, Copy, Debug, PartialEq, Eq, Structural)]
pub enum GraphicFieldFormat {
    Hex,
    Raw,
    AR,
}

/// A `^GF` (or recalled) bitmap: `row_bytes` bytes per row, one bit per dot.
#[derive(Debug)]
pub struct GraphicField {
    pub reverse_print: ReversePrint,
    pub position: LabelPosition,
    pub magnification_x: i32,
    pub magnification_y: i32,
    pub format: GraphicFieldFormat,
    pub data_bytes: i32,
    pub total_bytes: i32,
    pub row_bytes: i32,
    pub data: Vec<u8>,
}

} // verus!
