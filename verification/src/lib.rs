//! A bare-bones assembly-like interpreter: the embedding program defines every
//! register and every instruction, the library scans source text into tokens and
//! runs them.

pub mod text;
pub mod number;
pub mod asm_value;
pub mod asm_instruction;
pub mod asm_definition;
pub mod run;
pub mod scan;
