use vstd::prelude::*;
use super::label_element::LabelElement;

verus! {

/// One parsed label: its print width (`^PW`, 0 when unset), whether it is printed
/// upside down (`^POI`), and its elements in drawing order.
#[derive(Debug)]
pub struct LabelInfo {
    pub print_width: i32,
    pub inverted: bool,
    pub elements: Vec<LabelElement>,
}

} // verus!
