//! Core of an interactive command interpreter: parsing one input line into a
//! structured pipeline description (a [`job::Job`]), deciding which stages are
//! builtin commands, and planning how the pipeline's stages are wired together.

pub mod builtins;
pub mod errors;
pub mod job;
pub mod laws;
pub mod parser;
