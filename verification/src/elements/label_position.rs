use vstd::prelude::*;

verus! {

/// Where a field is placed. With `calculate_from_bottom` the coordinates give the
/// baseline (`^FT`); with `automatic_position` the field follows the previous one.
#[derive(Clone, Copy, Debug, PartialEq, Eq, Structural, Default)]
pub struct LabelPosition {
    pub x: i32,
    pub y: i32,
    pub calculate_from_bottom: bool,
    pub automatic_position: bool,
}

impl LabelPosition {
    /// This position moved by the coordinates of `other` (the label home).
    /// Coordinates wrap on overflow.
    pub fn add(&self, other: &LabelPosition) -> (r: LabelPosition)
        ensures
            r.x == self.x.wrapping_add(other.x),
            r.y == self.y.wrapping_add(other.y),
            r.calculate_from_bottom == self.calculate_from_bottom,
            r.automatic_position == self.automatic_position,
    {
        LabelPosition {
            x: self.x.wrapping_add(other.x),
            y: self.y.wrapping_add(other.y),
            calculate_from_bottom: self.calculate_from_bottom,
            automatic_position: self.automatic_position,
        }
    }
}

} // verus!
