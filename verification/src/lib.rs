//! Generates a C or C++ header for the `extern "C"` surface of a Rust
//! library: it collects the exported functions of a parsed source tree,
//! traces every type reachable from their signatures, monomorphizes
//! parameterized type aliases, orders the declarations so that C's
//! top-down rules are satisfied, and renders the result as text.
//!
//! The crate holds the whole core pipeline; reading source files from
//! disk and writing the finished header belong to the surrounding
//! program.

pub mod text;
pub mod ir;
pub mod config;
pub mod library;
pub mod parse;
pub mod writer;
pub mod rename;
