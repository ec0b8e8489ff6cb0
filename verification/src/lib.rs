//! A small compiler from stub-generator scripts to boilerplate source code.
//!
//! A stub generator describes what a program reads and writes. The
//! [`tokenizer`] cuts its text into tokens, the [`parser`] builds a
//! [`types::Stub`] as the [`grammar`] says, the passes under
//! [`preprocessor`] rewrite the stub for families of target languages, and
//! the [`renderer`] walks the commands and asks a template engine for their
//! text, with the bindings built in [`context`] and written as [`json`].
//! [`casing`] writes identifiers as a target language wants them.
//!
//! Every function states what it returns over the models of [`types`]. What
//! the outside crates compute is named in [`pattern`], [`text`] and
//! [`renderer`], or left open where it depends on more than the arguments.

pub mod casing;
pub mod context;
pub mod error;
pub mod grammar;
pub mod json;
pub mod parser;
pub mod pattern;
pub mod preprocessor;
pub mod renderer;
pub mod text;
pub mod tokenizer;
pub mod types;
