//! A small interactive shell: command-line parsing, redirects, pipelines,
//! builtins, background jobs and history bookkeeping.
use vstd::prelude::*;

pub mod autocomplete;
pub mod builtin;
pub mod command;
pub mod commands;
pub mod history;
pub mod jobs;
pub mod processor;
pub mod redirect;
pub mod text;
pub mod utils;

verus! {

} // verus!
