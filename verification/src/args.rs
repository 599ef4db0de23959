//! Command-line options understood by the tool built around this library.

use vstd::prelude::*;

verus! {

use vstd::string::StringExecFns;

/// Options for one badge-update run.
pub struct Args {
    /// Path to the README file to update.
    pub readme: String,
    /// Crate name for the crates.io link; inferred when absent.
    pub crate_name: Option<String>,
    /// Binary name to measure; inferred when absent.
    pub binary: Option<String>,
    /// Skip building in release mode before measuring.
    pub no_build: bool,
    /// Show verbose output.
    pub verbose: bool,
    /// Show the usage message instead of running.
    pub help: bool,
}

impl Default for Args {
    /// The defaults: patch `README.md`, infer names, build first, quiet.
    fn default() -> (a: Args)
        ensures
            a.readme@ == "README.md"@,
            a.crate_name is None,
            a.binary is None,
            !a.no_build,
            !a.verbose,
            !a.help,
    {
        Args {
            readme: "README.md".to_owned(),
            crate_name: None,
            binary: None,
            no_build: false,
            verbose: false,
            help: false,
        }
    }
}

} // verus!
