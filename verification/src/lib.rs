//! A verified core for a script-repository command-line tool.
//!
//! A directory tree of executable scripts is mirrored into an in-memory
//! command tree: each directory becomes a subcommand group, each script file
//! a leaf command, and an optional sibling configuration file declares the
//! arguments a leaf accepts.  The tree is compiled into a grammar for a
//! generic hierarchical argument parser, and a parsed invocation is resolved
//! back down the tree to the unique script it names, together with the
//! argument values bound for it.
//!
//! The crate never touches the filesystem or spawns a process itself: the
//! caller hands the builder a plain listing of names and file contents, and
//! receives back a dispatch plan naming the interpreter to run.

pub mod command;
pub mod config;
pub mod execution;
pub mod file_type;
pub mod laws;
pub mod listing;
pub mod parser;
pub mod repo;
pub mod text;
