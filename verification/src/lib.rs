//! A line-oriented command interpreter core: a tokenizer and parser that turn
//! one line of text into a validated pipeline description, and a planner that
//! turns that description into the exact wiring each pipeline stage needs
//! (standard input and output sources, channel creation, wait policy).

pub mod builtin;
pub mod laws;
pub mod parse;
pub mod plan;
pub mod render;
pub mod pipeline;
pub mod split;
pub mod text;
pub mod tokenize;
