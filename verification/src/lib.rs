//! An assembler and interpreter for the Little Man Computer.

pub mod decimal;
pub mod error;
pub mod instruction;
pub mod interpreter;
pub mod linker;
pub mod normalizer;
pub mod parser;
pub mod text;
