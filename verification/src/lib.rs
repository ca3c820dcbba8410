//! A small stack-based bytecode virtual machine with its lexical scanner.
//!
//! Source text is cut into tokens by [`scanner::Scanner`]; bytecode is held in
//! a [`chunk::Chunk`] and executed by [`vm::Vm`]. Numbers are carried as
//! IEEE 754 binary64 bit patterns, so that every function here is stated and
//! proved over integers and byte sequences.
#![allow(non_camel_case_types)]

pub mod chunk;
pub mod compiler;
pub mod opcode;
pub mod scanner;
pub mod text;
pub mod token;
pub mod value;
pub mod vm;
