//! The ZPL and EPL parsers and the printer state they work on.
pub mod command_utils;
pub mod fs;
pub mod virtual_printer;
pub mod zpl_parser;
pub mod epl_parser;
pub mod binary64;
pub mod float_text;
