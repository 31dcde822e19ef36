//! The front end: from the text of a module to its intermediate
//! representation.
pub mod ir_gen;
pub mod lexer;
pub mod module;
pub mod parser;
