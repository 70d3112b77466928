//! A small register-machine interpreter: a parser that turns text lines into
//! typed instructions, and an interpreter that executes them with a register
//! file, wrap-around addition, and relative jumps.

pub mod vm;
