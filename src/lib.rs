//! An assembler for a ten-instruction, hundred-cell educational computer.
//!
//! Source text is split into lines and words, labels are bound to line
//! addresses, label references are replaced by those addresses, the resulting
//! token stream is decoded into instructions, and the instructions are encoded
//! into a memory image of one hundred words.

pub mod text;
pub mod instructions;
pub mod tables;
pub mod compiler;
pub mod computer;
