//! A compiler from a small drawing-script dialect to Rust source that uses
//! SDL2: tokenizer, parser, state extraction and code generation.

pub mod text;
pub mod types;
pub mod ast;
pub mod parser;
pub mod generator;
pub mod tokenizer;
pub mod compiler;
pub mod laws;
