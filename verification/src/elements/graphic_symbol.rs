use vstd::prelude::*;
use super::field_orientation::FieldOrientation;

verus! {

/// A `^GS` graphic symbol selection.
#[derive(Clone, Copy, Debug, PartialEq, Eq, Structural)]
pub struct GraphicSymbol {
    pub width: i32,
    pub height: i32,
    pub orientation: FieldOrientation,
}

} // verus!
