//! The front-end compiler: tokenizes the source language, parses it into an
//! abstract syntax tree, and lowers the tree to textual assembly.

pub mod compiler;
pub mod lexer;
pub mod node;
pub mod parser;
