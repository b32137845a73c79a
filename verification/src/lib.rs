//! A minimal stack machine: tokens, a tokenizer, and an engine that runs
//! tokens against an evaluation stack and an instruction pointer.

pub mod decimal;
pub mod diagnostic;
pub mod error;
pub mod laws;
pub mod machine;
pub mod opp;
pub mod runtime;
pub mod token;
pub mod words;
