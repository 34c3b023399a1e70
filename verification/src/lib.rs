//! Lox front ends and tooling: scanners, parser, resolver, bytecode
//! compiler, disassembler and the expectation parser of the script suite,
//! each with a machine-checked contract.

pub mod text;
pub mod error;
pub mod token;
pub mod lexical;
pub mod scanner;
pub mod vm_scanner;
pub mod chunk;
pub mod directives;
pub mod suite;
pub mod ast;
pub mod resolver;
pub mod parser;
pub mod compiler;
pub mod debug;
pub mod tally;
pub mod status;
pub mod compile_model;
