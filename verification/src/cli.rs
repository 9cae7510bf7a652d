//! Command-line model (the application parses the arguments into it).
use vstd::prelude::*;

verus! {

/// The command line.
#[derive(Debug)]
pub struct Cli {
    pub cmd: Cmd,
}

/// Subcommands.
#[derive(Debug)]
pub enum Cmd {
    /// Start the HTTP service (web page + REST API).
    Serve {
        /// Configuration file.
        config: String,
    },
    /// List every source (enabled state, category, weight).
    Sources { config: String },
    /// Run one aggregated search from the command line.
    Search {
        /// Query.
        query: String,
        config: String,
        /// Engine allow list (comma separated).
        sources: Option<String>,
        /// Most results printed.
        max: usize,
        /// Print JSON.
        json: bool,
    },
    /// Print the default configuration.
    GenConfig,
}

} // verus!
