//! Catly front end: tokens, names, types and the LR parsers for
//! expressions, top-level definitions and whole programs.
pub mod parser;
