use vstd::prelude::*;

verus! {

/// The colour a graphic is drawn in.
#[derive(Clone, Copy, Debug, PartialEq, Eq, Structural, Default)]
pub enum LineColor {
    #[default]
    Black,
    White,
}

} // verus!
