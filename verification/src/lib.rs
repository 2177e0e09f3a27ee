//! Periodic commands as metrics.
//!
//! Targets are shell commands that run on their own intervals.  A pattern
//! picks a number out of what a command prints, and the number, with the
//! time the run took, is kept under a set of labels until the next run
//! replaces it.
//!
//! The library holds the rules: which target is due and how long to wait for
//! it ([`scheduler`]), how output becomes an observation ([`extract`]), what
//! the store keeps ([`metrics`]), and what makes a configuration valid
//! ([`config`]).  Running commands, sleeping, reading files and serving the
//! metrics are left to the program around it.

pub mod cli;
pub mod config;
pub mod extract;
pub mod labels;
pub mod metrics;
pub mod pattern;
pub mod scheduler;
pub mod shell_commands;
pub mod text;
