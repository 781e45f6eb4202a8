//! Reading and writing of OIL files, the intermediate scene representation
//! written by Overkill's exporters.
//!
//! An OIL file is the magic `FORM`, a little-endian `u32` total size and a
//! run of sections, each made of a `u32` type code, a `u32` length and that
//! many bytes of chunk data.
pub mod error;
pub mod wire;
pub mod geometry;
pub mod scene;
pub mod chunk;
pub mod sections;
pub mod document;
