//! A verified core for an interactive command-line shell.
//!
//! The library covers the logic of the shell: tokenizing a command line
//! with quoting and escaping, splitting tokens into a pipeline of commands,
//! resolving I/O redirections, planning builtin and pipeline execution,
//! computing completions, and driving the interactive line editor as a
//! state machine. All terminal, file-system and process I/O lives outside
//! the library and hands it plain values.

pub mod builtins;
pub mod command;
pub mod completion;
pub mod editor;
pub mod history;
pub mod parser;
pub mod paths;
pub mod pipeline;
pub mod redirect;
pub mod strutil;
