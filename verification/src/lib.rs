//! Front end for a minimal untyped lambda-calculus notation.
//!
//! The crate turns a raw byte buffer into a positioned token stream and
//! then into an abstract syntax tree, keeping byte-accurate location
//! information so that any failure can be rendered as a source snippet
//! with a caret underline.

pub mod error;
pub mod parse;
pub mod position;
pub mod token;
pub mod utils;
