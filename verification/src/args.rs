//! The command-line arguments a run is started with, as plain values; the
//! binary's argument parser fills and converts them.
use vstd::prelude::*;

verus! {

/// The arguments of one run: the configuration file to load and the
/// repository to analyze.
#[derive(Debug, Clone)]
pub struct AntennaArguments {
    /// Path to the `antenna` configuration file.
    pub configuration_file: String,
    /// Path to the `git` repository to analyze.
    pub repository: String,
}

} // verus!
