//! A small interpreter core for an eight-symbol tape language: source text is
//! translated into a bracket-balanced opcode sequence, which is then executed
//! one opcode at a time against a fixed-length byte tape.

pub mod opcode;
pub mod translate;
pub mod execute;
pub mod run;
pub mod dump;
pub mod source;
pub mod matching;
