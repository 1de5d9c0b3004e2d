//! Decoding of the header and constant pool of a JVM class file.
//!
//! Every read is bounds-checked against the buffer, and the result of a
//! decode is pinned down by the spec functions in [`classfile_parser`].

pub mod bytes;
pub mod constant_pool;
pub mod classfile_parser;
pub mod lemmas;
