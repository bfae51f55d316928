//! Verified core of `runin`: pick a project directory and run a command inside it.
//!
//! - [`text`], [`lines`]: characters and lines of text.
//! - [`quote`]: quoting a value for POSIX shells and for fish.
//! - [`managed_block`]: the block `runin` keeps in a shell startup file.
//! - [`shell`]: shells, integration paths and scripts.
//! - [`config`], [`config_ui`]: the configuration and its prompts.
//! - [`picker`]: the directory picker's candidates and outcome.
//! - [`words`]: the command to run.
//! - [`cli`]: the decisions and reports of the `runin` command.
pub mod text;
pub mod lines;
pub mod quote;
pub mod managed_block;
pub mod shell;
pub mod config;
pub mod config_ui;
pub mod picker;
pub mod words;
pub mod cli;
