//! PNG chunk model: validated chunk types, CRC-checked chunks and whole
//! files as ordered chunk sequences, with byte-exact parsing and
//! serialization.

pub mod args;
pub mod chunk;
pub mod chunk_type;
pub mod commands;
pub mod endian;
pub mod png;
pub mod text;
