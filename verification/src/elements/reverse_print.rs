use vstd::prelude::*;

verus! {

/// Whether a field is drawn in reverse (white on black).
#[derive(Clone, Copy, Debug, PartialEq, Eq, Structural, Default)]
pub struct ReversePrint {
    pub value: bool,
}

} // verus!
