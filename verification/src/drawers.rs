//! Drawing labels: the pixel canvas and the rules that place barcodes,
//! boxes and graphics on it.
pub mod canvas;
pub mod renderer;
