//! A single-pass compiler and stack-based bytecode virtual machine for a
//! small dynamically typed expression language, together with an earlier
//! tree-walking front end for the same language.
//!
//! Numbers in the language are IEEE 754 double-precision values. Floating
//! point cannot appear in verified code, so every number is carried as its
//! 64-bit encoding (`u64`). Comparison, equality and negation of encodings
//! are implemented here as exact integer logic; the four arithmetic
//! operations, literal parsing and rendering are delegated to the embedding
//! program: the virtual machine suspends with an arithmetic request and is
//! resumed with the computed encoding, and the compiler receives the encoded
//! constants for the number literals of its source up front.

pub mod value;
pub mod chunk;
pub mod text;
pub mod scanner;
pub mod vm;
pub mod ast;
pub mod compiler;
pub mod disasm;
pub mod tree;
