//! A compilation-and-execution pipeline for a word-length encoded esoteric
//! language.  Source text is tokenized by counting runs of letters, the
//! digit stream is decoded into a validated instruction sequence, the
//! sequence may be rewritten by a chain of semantics-preserving peephole
//! passes, and the result runs on a tape machine with pluggable input,
//! output and randomness.
//!
//! Every function carries a contract: the parser's output is pinned to a
//! recursive model of the encoding, each optimizer pass to a sequence
//! rewrite it provably implements, and the machine's `step` and `run` to a
//! small-step transition relation over the observable state.

pub mod instruction;
pub mod interpreter;
pub mod io;
pub mod memory;
pub mod optimizer;
pub mod parser;
pub mod rng;

pub use instruction::Instruction;
