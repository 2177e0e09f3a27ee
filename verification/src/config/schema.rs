//! The configuration's data model.

use vstd::prelude::*;

verus! {

/// The whole configuration: the targets to run and where the metrics are
/// served.
#[derive(Clone, Debug, PartialEq, Eq)]
pub struct Schema {
    pub targets: Vec<Target>,
    pub host: String,
    pub port: u16,
}

/// One scheduled job.
#[derive(Clone, Debug, PartialEq, Eq)]
pub struct Target {
    /// The name of the target, which every metric of it carries.
    pub name: String,
    /// The commands to run, in order.
    pub commands: Vec<TargetCommand>,
    /// The pattern that is matched against a command's output.
    pub regex: String,
    /// The named group of the pattern that holds the metric's value.
    pub regex_named_group: String,
    /// The exit codes that count as success.
    pub success_exit_codes: Vec<i32>,
    /// The time between two runs, in nanoseconds.
    pub run_every: u128,
}

/// One command of a target, with the labels that its metric gets.
#[derive(Clone, Debug, PartialEq, Eq)]
pub struct TargetCommand {
    /// The command line, as the shell takes it.
    pub command: String,
    /// Label names with their templates.  A template may hold `{group}`
    /// placeholders for named groups of the target's pattern.  Of two pairs
    /// with the same name the later one counts.
    pub labels: Vec<(String, String)>,
}

} // verus!
