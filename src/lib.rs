//! Invocation of the EasyOCR command-line tool and parsing of its output.

pub mod command;
pub mod format;
pub mod normalize;
pub mod number;
pub mod ocr;
pub mod settings;
pub mod text;
