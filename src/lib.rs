//! A bytecode interpreter for a small expression language: a scanner, a
//! single-pass Pratt compiler into a chunk of bytecode, and a stack machine.
//! Numbers are IEEE-754 single-precision values held as bit patterns; the
//! machine hands each floating-point operation to its caller.

pub mod chunk;
pub mod compiler;
pub mod scanner;
pub mod text;
pub mod value;
pub mod vm;
