use vstd::prelude::*;

verus! {

/// Alignment of the lines of a field block.
#[derive(Clone, Copy, Debug, PartialEq, Eq, Structural, Default)]
pub enum TextAlignment {
    #[default]
    Left,
    Right,
    Justified,
    Center,
}

} // verus!
