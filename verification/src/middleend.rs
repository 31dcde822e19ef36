//! The middle end, as far as it goes: scopes, symbols and the skeleton of the
//! bytecode.
pub mod bytecode;
pub mod nesting;
pub mod prepare;
