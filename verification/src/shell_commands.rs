//! Commands for the host shell, and what running one gives.
//!
//! The library says what is run; running it is the caller's part.

use crate::text::{chars_of, push_all, string_of};
use vstd::prelude::*;

verus! {

/// A command for the host shell: a command and its arguments, both as the
/// shell takes them.
#[derive(Debug)]
pub struct ShellCommand {
    command: String,
    arguments: String,
}

/// How one run of a command ended.
#[derive(Clone, Debug, PartialEq, Eq)]
pub enum Outcome {
    /// The command ran to its end.
    Completed {
        /// What the command wrote to its standard output.
        stdout: Vec<u8>,
        /// The exit code of the process.
        exit_code: i32,
        /// The wall-clock time the run took, in nanoseconds.
        duration: u128,
    },
    /// The command could not be started.
    LaunchFailed,
}

/// The line that the shell is given: command, one space, arguments.
pub open spec fn command_line(command: Seq<char>, arguments: Seq<char>) -> Seq<char> {
    command + seq![' '] + arguments
}

impl ShellCommand {
    /// The command of this shell command.
    pub closed spec fn spec_command(&self) -> Seq<char> {
        self.command@
    }

    /// The arguments of this shell command.
    pub closed spec fn spec_arguments(&self) -> Seq<char> {
        self.arguments@
    }

    /// A shell command that runs `command` with `arguments`.
    pub fn new(command: &str, arguments: &str) -> (res: Self)
        ensures
            res.spec_command() == command@,
            res.spec_arguments() == arguments@,
    {
        ShellCommand { command: command.to_owned(), arguments: arguments.to_owned() }
    }

    /// The command.
    pub fn command(&self) -> (res: &String)
        ensures
            res@ == self.spec_command(),
    {
        &self.command
    }

    /// The arguments.
    pub fn arguments(&self) -> (res: &String)
        ensures
            res@ == self.spec_arguments(),
    {
        &self.arguments
    }

    /// The line to hand to the shell, after `sh -c` or `cmd /C`.
    pub fn line(&self) -> (res: String)
        ensures
            res@ == command_line(self.spec_command(), self.spec_arguments()),
    {
        let mut out = chars_of(self.command.as_str());
        out.push(' ');
        let arguments = chars_of(self.arguments.as_str());
        push_all(&mut out, &arguments);
        string_of(&out)
    }
}

} // verus!
