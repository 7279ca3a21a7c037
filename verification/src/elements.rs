//! The label model: positions, fonts, barcodes, graphics and the templates that
//! the parsers produce and the renderer draws.
pub mod barcode_128;
pub mod barcode_2of5;
pub mod barcode_39;
pub mod barcode_aztec;
pub mod barcode_datamatrix;
pub mod barcode_ean13;
pub mod barcode_info;
pub mod barcode_pdf417;
pub mod barcode_qr;
pub mod field_alignment;
pub mod field_block;
pub mod field_info;
pub mod field_orientation;
pub mod font;
pub mod graphic_box;
pub mod graphic_circle;
pub mod graphic_diagonal_line;
pub mod graphic_field;
pub mod graphic_symbol;
pub mod label_element;
pub mod label_info;
pub mod label_position;
pub mod line_color;
pub mod maxicode;
pub mod reverse_print;
pub mod stored_format;
pub mod stored_graphics;
pub mod text_alignment;
pub mod text_field;
