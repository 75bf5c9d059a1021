//! A bytecode pipeline for a small imperative language.
//!
//! A statement tree is compiled into a flat instruction sequence with
//! symbolic jump targets, the targets are resolved into signed relative
//! offsets, an optional peephole pass fuses adjacent instruction pairs into
//! superinstructions, and two independent engines execute the result: a
//! central fetch-decode-execute loop and a handler-per-opcode dispatcher.
//! One spec-level table of instruction effects governs both engines, so
//! their observable behaviour provably agrees.

pub mod ast;
pub mod bytecode;
pub mod machine;
pub mod vars;
pub mod generator;
pub mod fusion;
pub mod resolver;
pub mod bytecode_interpreter;
pub mod threaded;
