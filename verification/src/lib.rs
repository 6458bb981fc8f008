//! An assembler for the CHIP-8 instruction set: a tokenizer, an instruction
//! encoder and a big-endian emitter, each with a machine-checked contract.

pub mod token;
pub mod format;
pub mod parser;
pub mod encoder_laws;
pub mod lexer;
pub mod lexer_laws;
pub mod assembler;
