//! Verified core of a small interactive shell.
//!
//! The library covers the pure logic of the shell: the character-level
//! tokenizer that turns an input line into a pipeline of command
//! specifications, the escape-sequence expander, the builtin commands'
//! decisions and output text, executable resolution over a `PATH`-style
//! directory list, the wiring plan for pipeline execution, and the
//! tab-completion candidate match. All input/output — reading lines,
//! opening files, spawning processes — lives outside the library and
//! hands it plain values.

pub mod builtins;
pub mod completer;
pub mod executor;
pub mod parser;
pub mod resolver;
pub mod text;
