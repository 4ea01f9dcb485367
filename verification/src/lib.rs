//! Verified core of a tool that fuses the sources of a Cargo project into one file.
//!
//! The library computes everything that does not need the file system: line
//! counting, the table of contents, the rendered output, path ordering, file
//! filtering decisions, workspace member matching and the bookkeeping of the
//! dependency walk.  Reading and writing files is left to the caller.

pub mod text;
pub mod toc;
pub mod paths;
pub mod metadata;
pub mod manifest;
pub mod args;
pub mod writer;
pub mod workspace;
pub mod filter;
pub mod validation;
pub mod collector;
