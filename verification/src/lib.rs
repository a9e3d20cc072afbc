//! One-dimensional binary elementary cellular automata ("Rule N" automata),
//! with a simulation driver, initial-state helpers, input parsing, and a
//! plain-text bitmap renderer.

pub mod engine;
pub mod parse;
pub mod preset;
pub mod render;
