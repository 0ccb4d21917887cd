//! Atomic single-file updates through a shadow file, an advisory lock and
//! one atomic rename, together with the small encodings and text utilities
//! that travel with it.

pub mod address;
pub mod arrays;
pub mod archive;
pub mod blob;
pub mod buffer;
pub mod character;
pub mod debug;
pub mod embed;
pub mod errno;
pub mod file;
pub mod fs;
pub mod model;
pub mod parser;
pub mod protocol;
pub mod socks;
pub mod tor;
pub mod tree;
pub mod unsigned;
