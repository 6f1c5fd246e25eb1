//! A symbolic differentiation library.
//!
//! A function definition such as `2*x + 6^x - 31` is cut into tokens
//! (`tokenizer`), each with an evaluation priority; a function tree
//! (`ast`) is derived with respect to a variable by the rules of
//! derivation (`derivatives`); trees and tokens display as pieces of text.

pub mod text;
pub mod functions;
pub mod numerals;
pub mod patterns;
pub mod tokenizer;
pub mod ast;
pub mod derivatives;
pub mod cli_parser;
