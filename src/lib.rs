//! Decoder for the line-oriented `npxl` pixel-grid text format.
//!
//! A file is a two-line header (`width height`, then `base channels`)
//! followed by one line of digits per image row. The modules read the
//! header, decode rows into pixels under a chosen intensity scaling, lay
//! pixels out as an RGB buffer, and join numbered body files into one file.
pub mod assemble;
pub mod decode;
pub mod export;
pub mod header;
pub mod normalize;
pub mod text;
