//! A namespaced task runner: a declarative configuration describes a tree of
//! named shell commands, the tree is exposed as a command-line interface, and
//! the selected command runs as a child process whose exit status is passed on.

pub mod model;
pub mod order;
pub mod config;
pub mod grammar;
pub mod cli;
pub mod dispatch;
pub mod errs;
pub mod run;
