//! A verified core for an interactive command shell: quote-aware
//! tokenization, variable/tilde/brace/wildcard expansion, redirect and
//! pipeline parsing, builtin dispatch, sequencing decisions, configuration
//! parsing, and the line-editor state machine. Terminal and process I/O
//! live outside this crate and drive these functions with plain values.

pub mod chars;
pub mod builtins;
pub mod commands;
pub mod config;
pub mod input;
pub mod shell;
