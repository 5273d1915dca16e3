//! Execution core of a small bytecode language: instruction encoding, constant
//! pool, run-length line map, disassembler and a stack machine, with the
//! scanner of its front end.
pub mod chunk;
pub mod text;
pub mod fault;
pub mod debug;
pub mod vm;
pub mod scanner;
pub mod compiler;
