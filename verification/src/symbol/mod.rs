//! Symbol-library file parsing.

pub mod symbol_parser;
pub mod types;

pub use symbol_parser::parse_symbol_lib;
pub use types::Symbol;
