pub mod compiler;
pub mod diagnostics;
pub mod interpreter;
pub mod lexer;
pub mod parser;
