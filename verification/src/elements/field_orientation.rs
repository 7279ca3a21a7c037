use vstd::prelude::*;

verus! {

/// The rotation of a field on the label.
#[derive(Clone, Copy, Debug, PartialEq, Eq, Structural, Default)]
pub enum FieldOrientation {
    #[default]
    Normal,
    Rotated90,
    Rotated180,
    Rotated270,
}

} // verus!
