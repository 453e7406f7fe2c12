//! Translator from a stack-oriented VM language to assembly for a 16-bit
//! register/memory-mapped target machine.
//!
//! The library parses the textual VM language into [`command::Command`]
//! sequences, and the code generator turns a whole-program command sequence
//! into an ordered list of assembly instructions, emulating a call stack with
//! absolute jumps and memory cells.

pub mod code_writer;
pub mod command;
pub mod emit;
pub mod generator;
pub mod instr;
pub mod numeral;
pub mod parser;
pub mod sem;
pub mod text;
