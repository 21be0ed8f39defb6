//! Lexical-analysis front end of the Mosaic toolchain: it turns raw source
//! text into a finite token sequence terminated by an end-of-input marker,
//! tracking 1-based source lines and recording lexical errors without ever
//! halting the scan.

pub mod error;
pub mod laws;
pub mod lexer;
pub mod token;
