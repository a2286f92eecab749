//! The assembler: tokenizes assembly text, parses it into an instruction
//! list with a symbol table, and emits three bytes per instruction.

pub mod assembler;
pub mod lexer;
pub mod parser;
