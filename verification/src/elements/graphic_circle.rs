use vstd::prelude::*;
use super::label_position::LabelPosition;
use super::line_color::LineColor;
use super::reverse_print::ReversePrint;

verus! {

/// A `^GC` circle.
#[derive(Clone, Copy, Debug, PartialEq, Eq, Structural)]
pub struct GraphicCircle {
    pub reverse_print: ReversePrint,
    pub position: LabelPosition,
    pub circle_diameter: i32,
    pub border_thickness: i32,
    pub line_color: LineColor,
}

} // verus!
