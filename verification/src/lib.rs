//! An interactive command interpreter: a lexer for shell-like input lines
//! (quoting, escaping, pipes, redirections), a pipeline builder that groups
//! tokens into staged commands, builtin command logic, and the wiring plan
//! for executing a pipeline. All process, file and terminal I/O lives in the
//! surrounding application; this library holds the verified logic.

pub mod builtins;
pub mod chars;
pub mod completion;
pub mod command;
pub mod error;
pub mod history;
pub mod lexer;
pub mod numbers;
pub mod path;
pub mod pipeline;
