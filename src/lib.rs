//! Structural metadata of GDSII stream files: a bounds-checked scanner over
//! the tag-length-value record stream, and the extraction of the library name
//! and of the top-level cells (cells that are defined but never referenced).

pub mod record;
pub mod scanner;
pub mod text;
pub mod cells;
pub mod extract;
pub mod stream;
