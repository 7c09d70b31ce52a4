//! A small textual assembly dialect and its register machine.
//!
//! The `parser` module decodes one line of source text into a typed
//! instruction, or a structured decode failure; the `eval` module drives a
//! program counter over a decoded instruction sequence, mutating a bank of
//! 31 unsigned 64-bit registers and a three-valued comparison flag, and
//! reports either the final machine state or a runtime fault.

pub mod eval;
pub mod parser;
