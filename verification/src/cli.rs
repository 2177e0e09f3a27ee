//! What the command line can say.

use vstd::prelude::*;

verus! {

/// The command line's arguments.
#[derive(Clone, Debug, PartialEq, Eq)]
pub struct CliArgs {
    /// A direct path to the config file.
    pub config_file: Option<String>,
    /// The host to bind the web server to.
    pub host: Option<String>,
    /// The port to run the web server on.
    pub port: Option<u16>,
}

} // verus!
