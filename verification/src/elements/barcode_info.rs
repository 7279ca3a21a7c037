use vstd::prelude::*;

verus! {

/// Barcode defaults set by `^BY`: module width in dots, wide-to-narrow ratio in
/// thousandths, and bar height in dots.
#[derive(Clone, Copy, Debug, PartialEq, Eq, Structural)]
pub struct BarcodeDimensions {
    pub module_width: i32,
    pub width_ratio: i32,
    pub height: i32,
}

impl BarcodeDimensions {
    /// The printer's power-on defaults: module width 2, ratio 3.0, height 10.
    pub fn initial() -> (d: BarcodeDimensions)
        ensures
            d.module_width == 2,
            d.width_ratio == 3000,
            d.height == 10,
    {
        BarcodeDimensions { module_width: 2, width_ratio: 3000, height: 10 }
    }
}

} // verus!
