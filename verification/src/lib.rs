//! Barcoders: encodes text in a chosen barcode symbology into its binary module
//! representation (`Vec<u8>` of `0` and `1`) and renders that representation with
//! one of the built-in generators.

pub mod conversions;
pub mod encoding;
pub mod error;
pub mod fuzzing;
pub mod generators;
pub mod sym;
pub mod text;
