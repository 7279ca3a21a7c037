use vstd::prelude::*;

verus! {

/// Justification of a field relative to its origin.
#[derive(Clone, Copy, Debug, PartialEq, Eq, Structural, Default)]
pub enum FieldAlignment {
    #[default]
    Left,
    Right,
    Auto,
}

} // verus!
