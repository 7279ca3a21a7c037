//! Symbol encoders: each turns field data into a grid of dark and light
//! modules; scaling the grid to pixels is left to the drawing side.
pub mod aztec;
pub mod bit_matrix;
pub mod code128;
pub mod code39;
pub mod datamatrix;
pub mod ean13;
pub mod maxicode;
pub mod pdf417;
pub mod qrcode;
pub mod twooffive;
