//! A single-pass bytecode compiler and stack virtual machine for a small
//! dynamically typed scripting language: statements terminated by `;`,
//! expressions over numbers, booleans, nil and interned strings, global
//! variable declarations and `print`.
//!
//! The pipeline is: source text -> scanner -> tokens -> compiler -> chunk
//! (bytecode, constant pool and a run-length-encoded line index) -> virtual
//! machine -> collected output.

pub mod chunk;
pub mod compiler;
pub mod debug;
pub mod gc;
pub mod rle;
pub mod scanner;
pub mod table;
pub mod value;
pub mod vm;
