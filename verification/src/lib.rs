//! A tape machine with eight instructions: a tokenizer for its source text, an
//! engine that executes an instruction stream on a bounded tape, and a generator
//! that writes the stream as an assembly routine.

pub mod compiler;
pub mod error;
pub mod interpreter;
pub mod listing;
pub mod machine;
pub mod parser;
pub mod routine;
pub mod text;
