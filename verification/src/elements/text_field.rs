use vstd::prelude::*;
use super::field_alignment::FieldAlignment;
use super::field_block::FieldBlock;
use super::font::FontInfo;
use super::label_position::LabelPosition;
use super::reverse_print::ReversePrint;

verus! {

/// A text field.
#[derive(Debug)]
pub struct TextField {
    pub reverse_print: ReversePrint,
    pub font: FontInfo,
    pub position: LabelPosition,
    pub alignment: FieldAlignment,
    pub text: String,
    pub block: Option<FieldBlock>,
}

} // verus!
