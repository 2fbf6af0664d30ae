//! A bytecode virtual machine for the Lox language: scanner, parser,
//! compiler and a stepping virtual machine, with their contracts.
pub mod value;
pub mod opcode;
pub mod token;
pub mod errors;
pub mod chunk;
pub mod scanner;
pub mod ast;
pub mod parser;
pub mod object;
pub mod text;
pub mod heap;
pub mod compiler;
pub mod emission;
pub mod syntax;
pub mod grammar;
pub mod frame;
pub mod vm;
