//! Front end of a compiler for a small stack-machine assembly language.
//!
//! The library resolves module names to library or source files, lowers parsed
//! source modules into a typed instruction tree, and decides, result by result,
//! how the transitive compilation of a module graph proceeds.

pub mod config;
pub mod error;
pub mod ir;
pub mod literal;
pub mod lower;
pub mod resolve;
pub mod schedule;
