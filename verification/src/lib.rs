//! Primitive-operation code generation and native runtime for a small Scheme
//! compiler targeting a 64-bit register machine.
//!
//! The crate has two halves.  The code-generation half (`x86`, `emit`,
//! `primitives`) builds instruction sequences for the unary and binary
//! built-in operations over the tagged value representation; every emitted
//! sequence carries a proof of what it computes, stated against a formal
//! semantics of the instruction set.  The runtime half (`rt`) decodes the
//! same tagged representation for heap objects (pairs, strings, symbols,
//! vectors, ports), renders values to text, and materializes byte buffers as
//! heap string objects through the bump-allocation cursor.  The `immediate`
//! module defines the tagged word layout both halves share.

pub mod emit;
pub mod immediate;
pub mod primitives;
pub mod printer;
pub mod rt;
pub mod x86;
