//! A two-stage assembler for a toy register machine.
//!
//! The first stage, [`parse`], turns assembly text into instructions; the
//! second, [`encode`], packs each instruction into one 16-bit word. [`assemble`]
//! joins the two and serialises the words, high byte first. Every stage is a
//! pure function of its input, and every function is verified against a
//! mathematical definition of what it computes; [`laws`] proves what follows
//! from those definitions.
//!
//! The grammar is strict by design. Tokens are separated by exactly one space
//! and instructions follow each other directly: white space behind a `;` ends
//! the program, and a text with such white space is rejected as a whole.

pub mod assemble;
pub mod encode;
pub mod laws;
pub mod model;
pub mod parse;
pub mod primitives;
