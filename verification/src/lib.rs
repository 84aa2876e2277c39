//! Tools for the resources of Sierra's Adventure Game Interpreter: version
//! detection, LZW compression, logic bytecode, object lists and pictures.

pub mod agi_version;
pub mod logic;
pub mod data_encoding;
pub mod picture;
pub mod xor_encryption;
pub mod object_list;
pub mod compression;
pub mod formatting;
pub mod color_palettes;
pub mod word_list;
