//! Decoder for the binary module format: a byte cursor, fixed-width and
//! LEB128 integer readers, and the preamble and section walk built on
//! them; beside it, the memory layout that modules built by Emscripten
//! expect. Every function states what it returns over the byte sequences
//! defined in `wire`.

pub mod bits;
pub mod cursor;
pub mod emscripten;
pub mod encode;
pub mod error;
pub mod laws;
pub mod module;
pub mod parser;
pub mod wire;
