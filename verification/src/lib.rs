//! Parsing ZPL and EPL label programs into label models, encoding their
//! barcodes, and the placement rules for drawing them.
pub mod barcodes;
pub mod drawers;
pub mod elements;
pub mod encodings;
pub mod hex;
pub mod parsers;
pub mod text;

pub use drawers::renderer::Renderer;
pub use elements::label_info::LabelInfo;
pub use parsers::epl_parser::EplParser;
pub use parsers::zpl_parser::ZplParser;
