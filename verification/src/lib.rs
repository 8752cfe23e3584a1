//! Re-renders the argument lists of keyboard layout invocations in C source
//! text as aligned tables, leaving every other byte of the text as it was.

pub mod anchor;
pub mod config;
pub mod content;
pub mod engine;
pub mod error;
pub mod extractor;
pub mod grammar;
pub mod grid;
pub mod queue;
pub mod reformat;
pub mod render;
pub mod run;
pub mod span;
pub mod splice;
pub mod text;
