use vstd::prelude::*;
use super::text_alignment::TextAlignment;

verus! {

/// A `^FB` field block: text wrapped into lines of a given width.
#[derive(Clone, Copy, Debug, PartialEq, Eq, Structural)]
pub struct FieldBlock {
    pub max_width: i32,
    pub max_lines: i32,
    pub line_spacing: i32,
    pub alignment: TextAlignment,
    pub hanging_indent: i32,
}

} // verus!
